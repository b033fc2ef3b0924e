use many_ledger_core::retry::{RetryDecision, RetryPolicy};

fn seconds_until_fatal(p: &RetryPolicy) -> u64 {
    let mut elapsed: u64 = 0;
    loop {
        match p.decide(elapsed, false) {
            RetryDecision::RetryAfter(d) => elapsed += d,
            RetryDecision::Fatal => return elapsed,
            RetryDecision::Proceed => panic!("never reachable"),
        }
    }
}

#[test]
fn backend_is_given_up_after_sixty_seconds() {
    let p = RetryPolicy::backend();
    assert_eq!(p.decide(59, false), RetryDecision::RetryAfter(1));
    assert_eq!(p.decide(60, false), RetryDecision::Fatal);
    let t = seconds_until_fatal(&p);
    assert!((59..=61).contains(&t));
}

#[test]
fn engine_is_given_up_after_three_hundred_seconds() {
    let p = RetryPolicy::engine();
    assert_eq!(p.decide(299, false), RetryDecision::RetryAfter(1));
    assert_eq!(p.decide(300, false), RetryDecision::Fatal);
    let t = seconds_until_fatal(&p);
    assert!((299..=301).contains(&t));
}

#[test]
fn reachable_service_proceeds() {
    assert_eq!(RetryPolicy::backend().decide(1_000, true), RetryDecision::Proceed);
}
