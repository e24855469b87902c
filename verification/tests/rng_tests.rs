use clingfun::rng::SimpleRng;
use clingfun::sample::{random_ab_string, random_binary_string, shuffled_binary_string};

#[test]
fn next_u64_follows_xorshift_star() {
    let mut rng = SimpleRng::seeded(0);
    assert_eq!(rng.next_u64(), 0x0345_d2ae_f483_022a);
    assert_eq!(rng.next_u64(), 0xbc13_0793_af77_b32b);
    assert_eq!(rng.next_u64(), 0x15ad_8c29_537e_6a06);
}

#[test]
fn gen_bool_reads_lowest_bit() {
    // The first draw from seed 0 is even, the second odd.
    let mut rng = SimpleRng::seeded(0);
    assert!(rng.gen_bool());
    assert!(!rng.gen_bool());
}

#[test]
fn gen_range_reads_remainder() {
    // The first draw from seed 42 is 0xdea95d6eeae75e8a, which is 1 mod 3.
    let mut rng = SimpleRng::seeded(42);
    assert_eq!(rng.gen_range(3, 6), 4);
}

#[test]
fn gen_range_stays_in_range() {
    let mut rng = SimpleRng::seeded(7);
    for _ in 0..1000 {
        let r = rng.gen_range(5, 9);
        assert!((5..9).contains(&r));
    }
    for _ in 0..100 {
        assert_eq!(rng.gen_range(3, 4), 3);
    }
}

#[test]
fn gen_ratio_matches_gen_range() {
    let mut a = SimpleRng::seeded(99);
    let mut b = SimpleRng::seeded(99);
    for _ in 0..200 {
        assert_eq!(a.gen_ratio(2, 5), b.gen_range(0, 5) < 2);
    }
    let mut c = SimpleRng::seeded(5);
    for _ in 0..50 {
        assert!(c.gen_ratio(5, 5));
        assert!(!c.gen_ratio(0, 5));
    }
}

#[test]
fn random_strings_follow_coin_flips() {
    let mut a = SimpleRng::seeded(3);
    let mut b = SimpleRng::seeded(3);
    let s = random_binary_string(&mut a, 12);
    let expected: String = (0..12).map(|_| if b.gen_bool() { '0' } else { '1' }).collect();
    assert_eq!(s, expected);
    assert_eq!(a.next_u64(), b.next_u64());

    let t = random_ab_string(&mut a, 9);
    let expected: String = (0..9).map(|_| if b.gen_bool() { 'a' } else { 'b' }).collect();
    assert_eq!(t, expected);
    assert_eq!(random_binary_string(&mut a, 0), "");
}

#[test]
fn shuffle_keeps_counts() {
    for seed in 0..200u64 {
        let mut rng = SimpleRng::seeded(seed);
        let s = shuffled_binary_string(&mut rng, 4, 3);
        assert_eq!(s.len(), 7);
        assert_eq!(s.chars().filter(|&c| c == '0').count(), 4);
        assert_eq!(s.chars().filter(|&c| c == '1').count(), 3);
    }
    let mut rng = SimpleRng::seeded(1);
    assert_eq!(shuffled_binary_string(&mut rng, 0, 0), "");
    assert_eq!(shuffled_binary_string(&mut rng, 0, 1), "1");
}

#[test]
fn shuffle_is_fisher_yates() {
    let mut a = SimpleRng::seeded(11);
    let mut b = SimpleRng::seeded(11);
    let s = shuffled_binary_string(&mut a, 2, 3);
    let mut chars = vec!['0', '0', '1', '1', '1'];
    for idx in (1..chars.len()).rev() {
        let j = b.gen_range(0, idx + 1);
        chars.swap(idx, j);
    }
    let expected: String = chars.into_iter().collect();
    assert_eq!(s, expected);
}

#[test]
fn zero_state_stays_zero() {
    // Seeding with the mixing constant itself gives state 0.
    let mut rng = SimpleRng::seeded(0xa076_1d64_78bd_642f);
    for _ in 0..10 {
        assert_eq!(rng.next_u64(), 0);
    }
    let mut other = SimpleRng::seeded(1);
    for _ in 0..1000 {
        assert_ne!(other.next_u64(), 0);
    }
}
