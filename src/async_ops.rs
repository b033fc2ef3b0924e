use vstd::prelude::*;

verus! {

/// The state of one deferred operation.
pub enum OpState {
    Pending,
    Done(Vec<u8>),
    Expired,
}

/// What a status query may say of a token.
pub enum StatusView {
    Unknown,
    Pending,
    Done(Seq<u8>),
    Expired,
}

/// The answer of a status query.
#[derive(Debug)]
pub enum AsyncStatus {
    Unknown,
    Pending,
    Done(Vec<u8>),
    Expired,
}

pub open spec fn state_view(s: OpState) -> StatusView {
    match s {
        OpState::Pending => StatusView::Pending,
        OpState::Done(p) => StatusView::Done(p@),
        OpState::Expired => StatusView::Expired,
    }
}

pub open spec fn answer_view(a: AsyncStatus) -> StatusView {
    match a {
        AsyncStatus::Unknown => StatusView::Unknown,
        AsyncStatus::Pending => StatusView::Pending,
        AsyncStatus::Done(p) => StatusView::Done(p@),
        AsyncStatus::Expired => StatusView::Expired,
    }
}

/// The changes a token's status may undergo: a known token never becomes
/// unknown, a result once published is never replaced, and an expired token
/// stays expired.
pub open spec fn step_ok(before: StatusView, after: StatusView) -> bool {
    match before {
        StatusView::Unknown => after is Unknown || after is Pending,
        StatusView::Pending => !(after is Unknown),
        StatusView::Done(p) => after == StatusView::Done(p) || after is Expired,
        StatusView::Expired => after is Expired,
    }
}

/// A deferred operation: its token, state and creation time.
pub struct AsyncOperation {
    pub token: Vec<u8>,
    pub state: OpState,
    pub created_at: u64,
}

/// Why a change to the table was refused.
#[derive(Debug, PartialEq, Eq, Structural)]
pub enum AsyncError {
    /// The token is already in use.
    DuplicateToken,
    /// No operation has the token.
    UnknownToken,
    /// The operation is already done or expired.
    AlreadySettled,
}

pub open spec fn status_in(s: Seq<AsyncOperation>, tok: Seq<u8>) -> StatusView
    decreases s.len(),
{
    if s.len() == 0 {
        StatusView::Unknown
    } else if s.last().token@ == tok {
        state_view(s.last().state)
    } else {
        status_in(s.drop_last(), tok)
    }
}

pub open spec fn tokens_unique(s: Seq<AsyncOperation>) -> bool {
    forall|i: int, j: int| 0 <= i < j < s.len() ==> s[i].token@ != s[j].token@
}

proof fn lemma_status_absent(s: Seq<AsyncOperation>, tok: Seq<u8>)
    requires
        forall|i: int| 0 <= i < s.len() ==> s[i].token@ != tok,
    ensures
        status_in(s, tok) is Unknown,
    decreases s.len(),
{
    if s.len() > 0 {
        lemma_status_absent(s.drop_last(), tok);
    }
}

proof fn lemma_status_at(s: Seq<AsyncOperation>, i: int)
    requires
        tokens_unique(s),
        0 <= i < s.len(),
    ensures
        status_in(s, s[i].token@) == state_view(s[i].state),
    decreases s.len(),
{
    if i < s.len() - 1 {
        let t = s.drop_last();
        assert(t[i] == s[i]);
        lemma_status_at(t, i);
    }
}

/// Two tables with the same tokens, entry by entry, whose entries each
/// changed as `step_ok` allows, give every token a status that changed so.
proof fn lemma_pointwise_steps(s: Seq<AsyncOperation>, t: Seq<AsyncOperation>, tok: Seq<u8>)
    requires
        s.len() == t.len(),
        forall|j: int| 0 <= j < s.len() ==> #[trigger] t[j].token@ == s[j].token@,
        forall|j: int| 0 <= j < s.len() ==> step_ok(state_view(s[j].state), #[trigger] state_view(t[j].state)),
    ensures
        step_ok(status_in(s, tok), status_in(t, tok)),
        tokens_unique(s) ==> tokens_unique(t),
    decreases s.len(),
{
    if s.len() > 0 {
        let n = s.len() - 1;
        assert(t[n].token@ == s[n].token@);
        assert(step_ok(state_view(s[n].state), state_view(t[n].state)));
        lemma_pointwise_steps(s.drop_last(), t.drop_last(), tok);
    }
}

proof fn lemma_push_op(s: Seq<AsyncOperation>, e: AsyncOperation, tok: Seq<u8>)
    requires
        tokens_unique(s),
        forall|i: int| 0 <= i < s.len() ==> s[i].token@ != e.token@,
    ensures
        tokens_unique(s.push(e)),
        status_in(s.push(e), tok) == if tok == e.token@ {
            state_view(e.state)
        } else {
            status_in(s, tok)
        },
{
    assert(s.push(e).drop_last() =~= s);
}

/// The table of deferred operations: each token names one operation, whose
/// result is published once and which expires `retention` after its creation.
pub struct AsyncTable {
    ops: Vec<AsyncOperation>,
    retention: u64,
}

impl AsyncTable {
    pub closed spec fn entries(&self) -> Seq<AsyncOperation> {
        self.ops@
    }

    pub closed spec fn retention_window(&self) -> u64 {
        self.retention
    }

    pub open spec fn wf(&self) -> bool {
        tokens_unique(self.entries())
    }

    pub open spec fn status_of(&self, tok: Seq<u8>) -> StatusView {
        status_in(self.entries(), tok)
    }

    /// Whether the operation at `j` has outlived the retention window at `now`.
    pub open spec fn due(&self, j: int, now: u64) -> bool {
        now >= self.entries()[j].created_at && now - self.entries()[j].created_at >= self.retention_window()
    }

    pub fn new(retention: u64) -> (r: AsyncTable)
        ensures
            r.wf(),
            r.retention_window() == retention,
            forall|tok: Seq<u8>| r.status_of(tok) is Unknown,
    {
        AsyncTable { ops: Vec::new(), retention }
    }

    fn find(&self, token: &Vec<u8>) -> (r: Option<usize>)
        ensures
            r is None ==> forall|i: int| 0 <= i < self.entries().len() ==> self.entries()[i].token@ != token@,
            r matches Some(i) ==> i < self.entries().len() && self.entries()[i as int].token@ == token@,
    {
        let mut i: usize = 0;
        while i < self.ops.len()
            invariant
                i <= self.ops.len(),
                forall|j: int| 0 <= j < i ==> self.ops@[j].token@ != token@,
            decreases self.ops.len() - i,
        {
            if bytes_equal(&self.ops[i].token, token) {
                return Some(i);
            }
            i = i + 1;
        }
        None
    }

    /// What a status query says of `token`.
    pub fn status(&self, token: &Vec<u8>) -> (r: AsyncStatus)
        requires
            self.wf(),
        ensures
            answer_view(r) == self.status_of(token@),
    {
        match self.find(token) {
            None => {
                proof { lemma_status_absent(self.entries(), token@); }
                AsyncStatus::Unknown
            },
            Some(i) => {
                proof { lemma_status_at(self.entries(), i as int); }
                match &self.ops[i].state {
                    OpState::Pending => AsyncStatus::Pending,
                    OpState::Done(p) => AsyncStatus::Done(p.clone()),
                    OpState::Expired => AsyncStatus::Expired,
                }
            },
        }
    }

    /// Records that a module deferred its answer under `token` at `now`.
    pub fn defer(&mut self, token: Vec<u8>, now: u64) -> (r: Result<(), AsyncError>)
        requires
            old(self).wf(),
        ensures
            final(self).wf(),
            final(self).retention_window() == old(self).retention_window(),
            r is Err <==> !(old(self).status_of(token@) is Unknown),
            r is Err ==> r == Err::<(), AsyncError>(AsyncError::DuplicateToken) && final(self).entries() == old(self).entries(),
            r is Ok ==> final(self).status_of(token@) is Pending,
            forall|tok: Seq<u8>| tok != token@ ==> #[trigger] final(self).status_of(tok) == old(self).status_of(tok),
            forall|tok: Seq<u8>| step_ok(old(self).status_of(tok), #[trigger] final(self).status_of(tok)),
    {
        match self.find(&token) {
            Some(i) => {
                proof { lemma_status_at(self.entries(), i as int); }
                Err(AsyncError::DuplicateToken)
            },
            None => {
                let ghost s = self.entries();
                let e = AsyncOperation { token, state: OpState::Pending, created_at: now };
                proof {
                    lemma_status_absent(s, e.token@);
                    assert forall|tok: Seq<u8>| true implies #[trigger] status_in(s.push(e), tok) == (if tok == e.token@ { state_view(e.state) } else { status_in(s, tok) }) by {
                        lemma_push_op(s, e, tok);
                    }
                    lemma_push_op(s, e, e.token@);
                }
                self.ops.push(e);
                assert(self.entries() == s.push(e));
                Ok(())
            },
        }
    }

    /// Publishes the result of a pending operation. A done or expired one is
    /// left as it is.
    pub fn complete(&mut self, token: &Vec<u8>, response: Vec<u8>) -> (r: Result<(), AsyncError>)
        requires
            old(self).wf(),
        ensures
            final(self).wf(),
            final(self).retention_window() == old(self).retention_window(),
            old(self).status_of(token@) is Unknown ==> r == Err::<(), AsyncError>(AsyncError::UnknownToken),
            (old(self).status_of(token@) is Done || old(self).status_of(token@) is Expired) ==> r
                == Err::<(), AsyncError>(AsyncError::AlreadySettled),
            r is Err ==> final(self).entries() == old(self).entries(),
            old(self).status_of(token@) is Pending ==> r is Ok && final(self).status_of(token@)
                == StatusView::Done(response@),
            forall|tok: Seq<u8>| tok != token@ ==> #[trigger] final(self).status_of(tok) == old(self).status_of(tok),
            forall|tok: Seq<u8>| step_ok(old(self).status_of(tok), #[trigger] final(self).status_of(tok)),
    {
        let ghost s = self.entries();
        match self.find(token) {
            None => {
                proof { lemma_status_absent(s, token@); }
                Err(AsyncError::UnknownToken)
            },
            Some(i) => {
                proof { lemma_status_at(s, i as int); }
                match &self.ops[i].state {
                    OpState::Pending => {},
                    _ => {
                        return Err(AsyncError::AlreadySettled);
                    },
                }
                let e = AsyncOperation {
                    token: self.ops[i].token.clone(),
                    state: OpState::Done(response),
                    created_at: self.ops[i].created_at,
                };
                let ghost t = s.update(i as int, e);
                proof {
                    assert forall|j: int| 0 <= j < s.len() implies #[trigger] t[j].token@ == s[j].token@ && step_ok(state_view(s[j].state), state_view(t[j].state)) by {
                    }
                    assert forall|tok: Seq<u8>| true implies step_ok(status_in(s, tok), #[trigger] status_in(t, tok)) by {
                        lemma_pointwise_steps(s, t, tok);
                    }
                    lemma_pointwise_steps(s, t, token@);
                    lemma_status_at(t, i as int);
                    assert forall|tok: Seq<u8>| tok != token@ implies #[trigger] status_in(t, tok) == status_in(s, tok) by {
                        lemma_same_elsewhere(s, t, i as int, tok);
                    }
                }
                self.ops.set(i, e);
                assert(self.entries() == t);
                Ok(())
            },
        }
    }

    /// Expires every operation that has outlived the retention window at
    /// `now`, done or not; the others are left as they are.
    pub fn sweep(&mut self, now: u64)
        requires
            old(self).wf(),
        ensures
            final(self).wf(),
            final(self).retention_window() == old(self).retention_window(),
            final(self).entries().len() == old(self).entries().len(),
            forall|j: int| 0 <= j < old(self).entries().len() ==> {
                &&& #[trigger] final(self).entries()[j].token@ == old(self).entries()[j].token@
                &&& final(self).entries()[j].created_at == old(self).entries()[j].created_at
                &&& if old(self).due(j, now) {
                    final(self).entries()[j].state is Expired
                } else {
                    final(self).entries()[j] == old(self).entries()[j]
                }
            },
            forall|tok: Seq<u8>| step_ok(old(self).status_of(tok), #[trigger] final(self).status_of(tok)),
    {
        let ghost s = self.entries();
        let mut i: usize = 0;
        while i < self.ops.len()
            invariant
                self.retention == old(self).retention_window(),
                s == old(self).entries(),
                self.ops@.len() == s.len(),
                i <= s.len(),
                forall|j: int| 0 <= j < s.len() ==> {
                    &&& #[trigger] self.ops@[j].token@ == s[j].token@
                    &&& self.ops@[j].created_at == s[j].created_at
                    &&& step_ok(state_view(s[j].state), state_view(self.ops@[j].state))
                },
                forall|j: int| 0 <= j < i ==> if old(self).due(j, now) {
                    self.ops@[j].state is Expired
                } else {
                    self.ops@[j] == s[j]
                },
                forall|j: int| i <= j < s.len() ==> self.ops@[j] == s[j],
            decreases s.len() - i,
        {
            let created = self.ops[i].created_at;
            if now >= created && now - created >= self.retention {
                let e = AsyncOperation { token: self.ops[i].token.clone(), state: OpState::Expired, created_at: created };
                self.ops.set(i, e);
            }
            i = i + 1;
        }
        proof {
            assert forall|tok: Seq<u8>| true implies step_ok(status_in(s, tok), #[trigger] status_in(self.ops@, tok)) by {
                lemma_pointwise_steps(s, self.ops@, tok);
            }
            lemma_pointwise_steps(s, self.ops@, seq![]);
        }
    }
}

proof fn lemma_same_elsewhere(s: Seq<AsyncOperation>, t: Seq<AsyncOperation>, i: int, tok: Seq<u8>)
    requires
        s.len() == t.len(),
        0 <= i < s.len(),
        t[i].token@ == s[i].token@,
        tok != s[i].token@,
        forall|j: int| 0 <= j < s.len() && j != i ==> #[trigger] t[j] == s[j],
    ensures
        status_in(t, tok) == status_in(s, tok),
    decreases s.len(),
{
    if s.len() > 0 && i < s.len() - 1 {
        lemma_same_elsewhere(s.drop_last(), t.drop_last(), i, tok);
    } else if s.len() > 0 {
        assert(t.drop_last() =~= s.drop_last());
    }
}

/// Byte-exact comparison of two tokens.
pub fn bytes_equal(a: &Vec<u8>, b: &Vec<u8>) -> (r: bool)
    ensures
        r == (a@ == b@),
{
    if a.len() != b.len() {
        return false;
    }
    let mut i: usize = 0;
    while i < a.len()
        invariant
            a.len() == b.len(),
            i <= a.len(),
            forall|j: int| 0 <= j < i ==> a@[j] == b@[j],
        decreases a.len() - i,
    {
        if a[i] != b[i] {
            return false;
        }
        i = i + 1;
    }
    assert(a@ =~= b@);
    true
}

/// Once a token is seen done, every later status is the same result or
/// expired; once it is seen expired, it is never done again. This holds of
/// any run of table states whose every change is one that `defer`,
/// `complete` and `sweep` guarantee (`step_ok`).
pub proof fn lemma_settled_status_is_stable(run: Seq<StatusView>, i: int, j: int)
    requires
        forall|k: int| 0 <= k < run.len() - 1 ==> step_ok(#[trigger] run[k], run[k + 1]),
        0 <= i <= j < run.len(),
    ensures
        run[i] matches StatusView::Done(p) ==> (run[j] == StatusView::Done(p) || run[j] is Expired),
        run[i] is Expired ==> run[j] is Expired,
    decreases j - i,
{
    if i < j {
        lemma_settled_status_is_stable(run, i, j - 1);
        assert(step_ok(run[j - 1], run[j]));
    }
}

} // verus!
