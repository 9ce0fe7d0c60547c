use araponto::addr::Ip;
use araponto::rate::RateLimiter;
use araponto::time::SECOND;

#[test]
fn rate_limiter_window_and_cap() {
    let mut rl: RateLimiter<u64> = RateLimiter::new(2, 60 * SECOND, 2);
    assert!(rl.allow(&1));
    assert!(rl.allow(&1));
    assert!(!rl.allow(&1));
    assert!(rl.allow(&2));
    // table full of live keys: new key refused
    assert!(!rl.allow(&3));
}

#[test]
fn window_reopens_after_its_length() {
    let mut rl: RateLimiter<u64> = RateLimiter::new(2, 10, 4);
    assert!(rl.allow_at(&7, 100));
    assert!(rl.allow_at(&7, 109));
    assert!(!rl.allow_at(&7, 109));
    // the window began at 100, so it is over at 110
    assert!(rl.allow_at(&7, 110));
    assert!(rl.allow_at(&7, 119));
    assert!(!rl.allow_at(&7, 119));
    assert!(rl.allow_at(&7, 120));
}

#[test]
fn a_time_before_the_window_counts_in_it() {
    let mut rl: RateLimiter<u64> = RateLimiter::new(1, 10, 4);
    assert!(rl.allow_at(&7, 100));
    assert!(!rl.allow_at(&7, 50));
}

#[test]
fn full_table_is_swept_once_per_window() {
    let mut rl: RateLimiter<u64> = RateLimiter::new(1, 10, 2);
    assert!(rl.allow_at(&1, 0));
    assert!(rl.allow_at(&2, 12));
    // full; the last sweep counts as at 0, so this one sweeps, and drops key 1
    assert!(rl.allow_at(&3, 15));
    // full again; key 2 is stale at 22, but the last sweep was at 15
    assert!(!rl.allow_at(&4, 22));
    // a window after that sweep
    assert!(rl.allow_at(&4, 25));
}

#[test]
fn nothing_fits_where_the_maximum_is_zero() {
    let mut rl: RateLimiter<()> = RateLimiter::new(0, 10, 1);
    assert!(!rl.allow_at(&(), 0));
    assert!(!rl.allow_at(&(), 1));
    assert!(!rl.allow_at(&(), 10));
    let mut rl: RateLimiter<u64> = RateLimiter::new(0, 60 * SECOND, 1);
    assert!(!rl.allow(&1));
}

#[test]
fn no_room_refuses_everything() {
    let mut rl: RateLimiter<u64> = RateLimiter::new(5, 10, 0);
    assert!(!rl.allow_at(&1, 0));
    assert!(!rl.allow_at(&1, 100));
}

#[test]
fn keys_have_their_own_quota() {
    let mut rl: RateLimiter<Ip> = RateLimiter::new(3, 1_000, 100);
    for i in 0..50u32 {
        for _ in 0..3 {
            assert!(rl.allow_at(&Ip::V4(i), 5));
        }
        assert!(!rl.allow_at(&Ip::V4(i), 6));
        assert!(rl.allow_at(&Ip::V6(i as u128), 6));
    }
    assert!(!rl.allow_at(&Ip::V4(50), 7));
}

#[test]
fn pairs_differ_in_either_part() {
    let mut rl: RateLimiter<(Ip, String)> = RateLimiter::new(1, 1_000, 100);
    assert!(rl.allow_at(&(Ip::V4(1), "23".to_string()), 0));
    assert!(rl.allow_at(&(Ip::V4(1), "24".to_string()), 0));
    assert!(rl.allow_at(&(Ip::V4(2), "23".to_string()), 0));
    assert!(rl.allow_at(&(Ip::V4(1), "".to_string()), 0));
    assert!(!rl.allow_at(&(Ip::V4(1), "23".to_string()), 0));
}

#[test]
fn clock_of_a_limiter_does_not_run_back() {
    let rl: RateLimiter<u64> = RateLimiter::new(1, 10, 2);
    let a = rl.now();
    let b = rl.now();
    assert!(a <= b);
    // it counts from the making of the limiter
    assert!(b < 3_600 * SECOND);
}
