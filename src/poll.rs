use vstd::prelude::*;

verus! {

/// How long a client waits for a deferred result by default, in milliseconds.
pub const DEFAULT_MAX_WAIT_MS: u64 = 60_000;

/// How long a client sleeps between two status queries by default, in milliseconds.
pub const DEFAULT_POLL_INTERVAL_MS: u64 = 1_000;

/// A server's answer to a call: its payload, and the async token it carried
/// when the answer was deferred.
pub struct Reply {
    pub payload: Vec<u8>,
    pub token: Option<Vec<u8>>,
}

/// What `async.status` said of a token.
pub enum StatusReply {
    Pending,
    Unknown,
    Done(Reply),
    Expired,
}

/// What the client does next while it waits for a result.
pub enum PollAction {
    /// The result is this payload (possibly empty).
    Finished(Vec<u8>),
    /// The token expired before it was resolved: an empty success, recorded as a lapse.
    Lapsed,
    /// Ask for the status of this token now.
    Query(Vec<u8>),
    /// Sleep one interval, then ask for the status of this token.
    WaitThenQuery(Vec<u8>),
    /// The deadline would pass: give up with a client-side timeout.
    TimedOut,
}

pub open spec fn is_finished_with(a: PollAction, payload: Seq<u8>) -> bool {
    a matches PollAction::Finished(p) && p@ == payload
}

pub open spec fn is_query_of(a: PollAction, token: Seq<u8>) -> bool {
    a matches PollAction::Query(t) && t@ == token
}

pub open spec fn is_wait_then_query_of(a: PollAction, token: Seq<u8>) -> bool {
    a matches PollAction::WaitThenQuery(t) && t@ == token
}

/// Polling state: every status query is charged one interval against `max_wait`,
/// chained tokens included, so a deadline holds for the whole resolution.
pub struct Poller {
    pub max_wait: u64,
    pub interval: u64,
    pub spent: u64,
    pub queries: u64,
}

impl Poller {
    pub open spec fn wf(&self) -> bool {
        &&& self.interval > 0
        &&& self.spent <= self.max_wait
        &&& self.spent == self.queries * self.interval
    }

    /// Whether one more query fits before the deadline.
    pub open spec fn can_charge(&self) -> bool {
        self.spent + self.interval <= self.max_wait
    }

    pub open spec fn charged(old: Poller, new: Poller) -> bool {
        &&& new.spent == old.spent + old.interval
        &&& new.queries == old.queries + 1
    }

    pub open spec fn same_limits(old: Poller, new: Poller) -> bool {
        new.max_wait == old.max_wait && new.interval == old.interval
    }

    pub open spec fn uncharged(old: Poller, new: Poller) -> bool {
        new.spent == old.spent && new.queries == old.queries
    }

    pub fn new(max_wait: u64, interval: u64) -> (r: Poller)
        requires
            interval > 0,
        ensures
            r.wf(),
            r.max_wait == max_wait,
            r.interval == interval,
            r.spent == 0,
            r.queries == 0,
    {
        Poller { max_wait, interval, spent: 0, queries: 0 }
    }

    pub fn with_defaults() -> (r: Poller)
        ensures
            r.wf(),
            r.max_wait == DEFAULT_MAX_WAIT_MS,
            r.interval == DEFAULT_POLL_INTERVAL_MS,
            r.spent == 0,
            r.queries == 0,
    {
        Poller::new(DEFAULT_MAX_WAIT_MS, DEFAULT_POLL_INTERVAL_MS)
    }

    fn charge(&mut self) -> (ok: bool)
        requires
            old(self).wf(),
        ensures
            final(self).wf(),
            Poller::same_limits(*old(self), *final(self)),
            ok == old(self).can_charge(),
            ok ==> Poller::charged(*old(self), *final(self)),
            !ok ==> Poller::uncharged(*old(self), *final(self)),
    {
        if self.interval <= self.max_wait && self.spent <= self.max_wait - self.interval {
            proof {
                assert(self.queries <= self.queries * self.interval) by (nonlinear_arith)
                    requires self.interval > 0;
                assert((self.queries + 1) * self.interval == self.queries * self.interval + self.interval)
                    by (nonlinear_arith);
            }
            self.spent = self.spent + self.interval;
            self.queries = self.queries + 1;
            true
        } else {
            false
        }
    }

    /// Decides what follows a reply: a non-empty payload, or an empty one
    /// without a token, is the result; an empty one with a token is followed
    /// by a status query, if one more fits before the deadline.
    pub fn on_reply(&mut self, reply: Reply) -> (a: PollAction)
        requires
            old(self).wf(),
        ensures
            final(self).wf(),
            Poller::same_limits(*old(self), *final(self)),
            reply.payload@.len() > 0 ==> is_finished_with(a, reply.payload@)
                && Poller::uncharged(*old(self), *final(self)),
            reply.payload@.len() == 0 && reply.token is None ==> is_finished_with(a, seq![])
                && Poller::uncharged(*old(self), *final(self)),
            reply.payload@.len() == 0 && reply.token is Some ==> {
                if old(self).can_charge() {
                    is_query_of(a, reply.token->Some_0@) && Poller::charged(*old(self), *final(self))
                } else {
                    a is TimedOut && Poller::uncharged(*old(self), *final(self))
                }
            },
    {
        let Reply { payload, token } = reply;
        if payload.len() > 0 {
            return PollAction::Finished(payload);
        }
        match token {
            None => {
                assert(payload@ =~= seq![]);
                PollAction::Finished(payload)
            },
            Some(t) => {
                if self.charge() {
                    PollAction::Query(t)
                } else {
                    PollAction::TimedOut
                }
            },
        }
    }

    /// Decides what follows a status answer for `token`: a Done answer is
    /// resolved as a reply (following a chained token), Expired is an empty
    /// success, and anything else waits one interval and asks again, if that
    /// fits before the deadline.
    pub fn on_status(&mut self, token: Vec<u8>, status: StatusReply) -> (a: PollAction)
        requires
            old(self).wf(),
        ensures
            final(self).wf(),
            Poller::same_limits(*old(self), *final(self)),
            status is Expired ==> a is Lapsed && Poller::uncharged(*old(self), *final(self)),
            (status is Pending || status is Unknown) ==> {
                if old(self).can_charge() {
                    is_wait_then_query_of(a, token@) && Poller::charged(*old(self), *final(self))
                } else {
                    a is TimedOut && Poller::uncharged(*old(self), *final(self))
                }
            },
            status matches StatusReply::Done(reply) ==> {
                &&& reply.payload@.len() > 0 ==> is_finished_with(a, reply.payload@)
                    && Poller::uncharged(*old(self), *final(self))
                &&& reply.payload@.len() == 0 && reply.token is None ==> is_finished_with(a, seq![])
                    && Poller::uncharged(*old(self), *final(self))
                &&& reply.payload@.len() == 0 && reply.token is Some ==> {
                    if old(self).can_charge() {
                        is_query_of(a, reply.token->Some_0@) && Poller::charged(*old(self), *final(self))
                    } else {
                        a is TimedOut && Poller::uncharged(*old(self), *final(self))
                    }
                }
            },
    {
        match status {
            StatusReply::Done(reply) => self.on_reply(reply),
            StatusReply::Expired => PollAction::Lapsed,
            _ => {
                if self.charge() {
                    PollAction::WaitThenQuery(token)
                } else {
                    PollAction::TimedOut
                }
            },
        }
    }
}

/// A poll run ends in time: every status query is charged one interval and no
/// charge passes `max_wait`, so however the server answers, at most
/// `max_wait / interval` queries are made and at most `max_wait` is slept,
/// which is within `max_wait` plus one interval.
pub proof fn lemma_poll_bounded(p: Poller)
    requires
        p.wf(),
    ensures
        p.queries <= p.max_wait / p.interval,
        p.queries * p.interval <= p.max_wait,
        p.spent < p.max_wait + p.interval,
{
    let q = p.queries as int;
    let i = p.interval as int;
    let m = p.max_wait as int;
    assert(q * i <= m);
    assert(q <= m / i) by {
        vstd::arithmetic::div_mod::lemma_div_is_ordered(q * i, m, i);
        vstd::arithmetic::div_mod::lemma_div_by_multiple(q, i);
    }
}

/// Each step that asks again brings the run one query closer to its bound:
/// a charged poller has one query less left before `max_wait`.
pub proof fn lemma_charge_shrinks_budget(old_p: Poller, new_p: Poller)
    requires
        old_p.wf(),
        new_p.wf(),
        Poller::same_limits(old_p, new_p),
        Poller::charged(old_p, new_p),
    ensures
        new_p.max_wait - new_p.spent < old_p.max_wait - old_p.spent,
        new_p.queries > old_p.queries,
{
}

} // verus!
