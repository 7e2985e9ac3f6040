use homepage_core::identity::IpAddr;
use homepage_core::ratelimiter::RateLimiter;

#[test]
fn first_action_is_allowed() {
    let mut limiter = RateLimiter::new(1000);
    assert!(limiter.is_allowed(IpAddr::V4(1), 0));
}

#[test]
fn monotonic_window_scenario() {
    // Cooldown C: accepted at t0, denied at t0 + C/2, still denied at
    // t0 + 0.9 C (the denial did not reset the window), accepted at
    // t0 + 1.5 C.
    let mut limiter = RateLimiter::new(1000);
    let ip = IpAddr::V4(0x7f000001);
    assert!(limiter.is_allowed(ip, 0));
    assert!(!limiter.is_allowed(ip, 500));
    assert!(!limiter.is_allowed(ip, 900));
    assert!(limiter.is_allowed(ip, 1500));
    // The accepted action moved the window: half a cooldown later is denied.
    assert!(!limiter.is_allowed(ip, 2000));
}

#[test]
fn window_boundary_is_inclusive() {
    let mut limiter = RateLimiter::new(1000);
    let ip = IpAddr::V4(9);
    assert!(limiter.is_allowed(ip, 100));
    assert!(!limiter.is_allowed(ip, 1099));
    assert!(limiter.is_allowed(ip, 1100));
}

#[test]
fn identities_are_independent() {
    let mut limiter = RateLimiter::new(1000);
    let a = IpAddr::V4(1);
    let b = IpAddr::V6(1);
    assert!(limiter.is_allowed(a, 0));
    assert!(limiter.is_allowed(b, 1));
    assert!(!limiter.is_allowed(a, 2));
    assert!(!limiter.is_allowed(b, 3));
}

#[test]
fn unresolved_identities_are_denied_by_policy() {
    let mut limiter = RateLimiter::new(1000);
    assert!(!limiter.allow_request(None, 0));
    assert!(limiter.allow_request(Some(IpAddr::V4(8)), 0));
    assert!(!limiter.allow_request(Some(IpAddr::V4(8)), 500));
}

#[test]
fn zero_cooldown_always_allows() {
    let mut limiter = RateLimiter::new(0);
    let ip = IpAddr::V4(5);
    assert!(limiter.is_allowed(ip, 7));
    assert!(limiter.is_allowed(ip, 7));
}
