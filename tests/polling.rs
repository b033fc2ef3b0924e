use many_ledger_core::poll::{PollAction, Poller, Reply, StatusReply};

fn deferred(token: &[u8]) -> Reply {
    Reply { payload: vec![], token: Some(token.to_vec()) }
}

#[test]
fn immediate_payload_is_the_result() {
    let mut p = Poller::with_defaults();
    let a = p.on_reply(Reply { payload: vec![1, 2], token: Some(vec![7]) });
    assert!(matches!(a, PollAction::Finished(v) if v == vec![1, 2]));
    assert_eq!(p.queries, 0);
}

#[test]
fn empty_payload_without_token_is_empty_success() {
    let mut p = Poller::with_defaults();
    let a = p.on_reply(Reply { payload: vec![], token: None });
    assert!(matches!(a, PollAction::Finished(v) if v.is_empty()));
}

#[test]
fn token_is_polled_until_done() {
    let mut p = Poller::new(10_000, 1_000);
    assert!(matches!(p.on_reply(deferred(&[5])), PollAction::Query(t) if t == vec![5]));
    assert!(matches!(p.on_status(vec![5], StatusReply::Pending), PollAction::WaitThenQuery(t) if t == vec![5]));
    assert!(matches!(p.on_status(vec![5], StatusReply::Unknown), PollAction::WaitThenQuery(_)));
    let done = StatusReply::Done(Reply { payload: vec![9], token: None });
    assert!(matches!(p.on_status(vec![5], done), PollAction::Finished(v) if v == vec![9]));
    assert_eq!(p.queries, 3);
    assert_eq!(p.spent, 3_000);
}

#[test]
fn chained_token_is_followed() {
    let mut p = Poller::new(10_000, 1_000);
    p.on_reply(deferred(&[1]));
    let a = p.on_status(vec![1], StatusReply::Done(deferred(&[2])));
    assert!(matches!(a, PollAction::Query(t) if t == vec![2]));
    assert_eq!(p.queries, 2);
}

#[test]
fn expired_token_is_empty_success_flagged_as_lapse() {
    let mut p = Poller::with_defaults();
    p.on_reply(deferred(&[1]));
    assert!(matches!(p.on_status(vec![1], StatusReply::Expired), PollAction::Lapsed));
}

#[test]
fn polling_times_out_within_the_deadline() {
    let mut p = Poller::new(3_000, 1_000);
    let mut a = p.on_reply(deferred(&[4]));
    let mut asked = 0;
    let mut slept = 0u64;
    loop {
        match a {
            PollAction::Query(t) => {
                asked += 1;
                a = p.on_status(t, StatusReply::Pending);
            }
            PollAction::WaitThenQuery(t) => {
                asked += 1;
                slept += p.interval;
                a = p.on_status(t, StatusReply::Pending);
            }
            PollAction::TimedOut => break,
            _ => panic!("unexpected end"),
        }
    }
    assert_eq!(asked, 3);
    assert!(slept <= 3_000 + 1_000);
    assert_eq!(p.spent, 3_000);
}

#[test]
fn default_poller_asks_sixty_times() {
    let mut p = Poller::with_defaults();
    let mut a = p.on_reply(deferred(&[4]));
    let mut asked = 0;
    while let PollAction::Query(t) | PollAction::WaitThenQuery(t) = a {
        asked += 1;
        a = p.on_status(t, StatusReply::Pending);
    }
    assert!(matches!(a, PollAction::TimedOut));
    assert_eq!(asked, 60);
}

#[test]
fn zero_wait_times_out_at_once() {
    let mut p = Poller::new(0, 1_000);
    assert!(matches!(p.on_reply(deferred(&[1])), PollAction::TimedOut));
}
