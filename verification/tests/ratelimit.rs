use smppgc::ratelimit::{RateLimitConfig, RateLimiter, SpamLimiter};

fn conf() -> RateLimitConfig {
    RateLimitConfig { min_message_time_hard: 100, min_message_time_soft: 500, kick_burst: 2000 }
}

#[test]
fn fast_arrivals_kicked_on_second_message() {
    // Arrivals every 50ms undercut the hard interval: the first message
    // after a long pause passes, the second is rejected.
    let mut rl = RateLimiter::new(conf(), 0);
    assert!(rl.update(10_000));
    assert!(!rl.update(10_050));
    assert!(!rl.update(10_100));
}

#[test]
fn slow_arrivals_accepted() {
    // Arrivals slower than the soft interval never charge the burst.
    let mut rl = RateLimiter::new(conf(), 0);
    let mut now = 0i64;
    for _ in 0..50 {
        now += 600;
        assert!(rl.update(now));
    }
}

#[test]
fn soft_burst_arrivals_every_200ms() {
    // 200ms spacing charges a net 500ms of burst per message; the budget
    // of 2000 runs out at the seventh message.
    let mut rl = RateLimiter::new(conf(), 0);
    let mut now = 10_000i64;
    assert!(rl.update(now));
    for _ in 0..5 {
        now += 200;
        assert!(rl.update(now));
    }
    now += 200;
    assert!(!rl.update(now));
}

#[test]
fn soft_burst_arrivals_every_150ms() {
    // 150ms spacing charges a net 650ms of burst per message; rejection
    // comes at the sixth message.
    let mut rl = RateLimiter::new(conf(), 0);
    let mut now = 10_000i64;
    assert!(rl.update(now));
    for _ in 0..4 {
        now += 150;
        assert!(rl.update(now));
    }
    now += 150;
    assert!(!rl.update(now));
}

#[test]
fn spam_repeats_rejected_within_five_seconds() {
    let mut sl = SpamLimiter::new(0);
    assert!(sl.update("hello".to_string(), 1_000));
    assert!(!sl.update("hello".to_string(), 2_000));
    assert!(sl.update("different".to_string(), 3_000));
    assert!(sl.update("different".to_string(), 9_500));
}
