use vstd::prelude::*;
use crate::address::Address;

verus! {

/// One party's approval of a pending transaction.
pub struct Approval {
    pub approver: Address,
    pub signature: Vec<u8>,
}

/// A transaction that runs once enough parties approved it.
pub struct PendingTx {
    pub id: u64,
    pub proposer: Address,
    pub method: String,
    pub args: Vec<u8>,
    pub threshold: u64,
    pub approvals: Vec<Approval>,
    pub expires_at: u64,
    pub executed: bool,
}

/// What the logic reads of a pending transaction.
pub struct TxView {
    pub proposer: Seq<u8>,
    pub method: Seq<char>,
    pub args: Seq<u8>,
    pub threshold: nat,
    pub approvals: Seq<Approval>,
    pub expires_at: nat,
    pub executed: bool,
}

impl View for PendingTx {
    type V = TxView;

    open spec fn view(&self) -> TxView {
        TxView {
            proposer: self.proposer@,
            method: self.method@,
            args: self.args@,
            threshold: self.threshold as nat,
            approvals: self.approvals@,
            expires_at: self.expires_at as nat,
            executed: self.executed,
        }
    }
}

/// Why a multisig request was refused.
#[derive(Debug, PartialEq, Eq, Structural)]
pub enum MultisigError {
    InvalidThreshold,
    UnknownTransaction,
    AlreadyExpired,
    AlreadyExecuted,
    DuplicateApproval,
    InsufficientApprovals,
    NotProposer,
    /// Every transaction id has been handed out.
    IdsExhausted,
}

/// The call that an executed transaction makes, under its proposer's authority.
pub struct Execution {
    pub proposer: Address,
    pub method: String,
    pub args: Vec<u8>,
}

pub open spec fn approved_by(t: TxView, a: Seq<u8>) -> bool {
    exists|k: int| 0 <= k < t.approvals.len() && t.approvals[k].approver@ == a
}

pub open spec fn expired_at(t: TxView, now: nat) -> bool {
    now >= t.expires_at
}

/// The outcome of an approval by `a` at `now`.
pub open spec fn approve_result(t: Option<TxView>, a: Seq<u8>, now: nat) -> Result<(), MultisigError> {
    match t {
        None => Err(MultisigError::UnknownTransaction),
        Some(t) => if expired_at(t, now) {
            Err(MultisigError::AlreadyExpired)
        } else if t.executed {
            Err(MultisigError::AlreadyExecuted)
        } else if approved_by(t, a) {
            Err(MultisigError::DuplicateApproval)
        } else {
            Ok(())
        },
    }
}

/// The outcome of an execution at `now`.
pub open spec fn execute_result(t: Option<TxView>, now: nat) -> Result<(), MultisigError> {
    match t {
        None => Err(MultisigError::UnknownTransaction),
        Some(t) => if t.executed {
            Err(MultisigError::AlreadyExecuted)
        } else if expired_at(t, now) {
            Err(MultisigError::AlreadyExpired)
        } else if t.approvals.len() < t.threshold {
            Err(MultisigError::InsufficientApprovals)
        } else {
            Ok(())
        },
    }
}

/// The transaction after approval `a`.
pub open spec fn with_approval(t: TxView, a: Approval) -> TxView {
    TxView { approvals: t.approvals.push(a), ..t }
}

/// The transaction after a successful execution.
pub open spec fn mark_executed(t: TxView) -> TxView {
    TxView { executed: true, ..t }
}

pub open spec fn lookup(s: Seq<PendingTx>, id: u64) -> Option<TxView>
    decreases s.len(),
{
    if s.len() == 0 {
        None
    } else if s.last().id == id {
        Some(s.last()@)
    } else {
        lookup(s.drop_last(), id)
    }
}

pub open spec fn ids_unique(s: Seq<PendingTx>) -> bool {
    forall|i: int, j: int| 0 <= i < j < s.len() ==> s[i].id != s[j].id
}

proof fn lemma_lookup_absent(s: Seq<PendingTx>, id: u64)
    ensures
        lookup(s, id) is None <==> forall|i: int| 0 <= i < s.len() ==> s[i].id != id,
    decreases s.len(),
{
    if s.len() > 0 {
        lemma_lookup_absent(s.drop_last(), id);
        if lookup(s, id) is None {
            assert forall|i: int| 0 <= i < s.len() implies s[i].id != id by {
                if i < s.len() - 1 {
                    assert(s.drop_last()[i] == s[i]);
                }
            }
        } else if s.last().id != id {
            let k = choose|k: int| 0 <= k < s.drop_last().len() && s.drop_last()[k].id == id;
            assert(s[k].id == id);
        }
    }
}

proof fn lemma_lookup_at(s: Seq<PendingTx>, i: int)
    requires
        ids_unique(s),
        0 <= i < s.len(),
    ensures
        lookup(s, s[i].id) == Some(s[i]@),
    decreases s.len(),
{
    if i < s.len() - 1 {
        let t = s.drop_last();
        assert(t[i] == s[i]);
        lemma_lookup_at(t, i);
    }
}

proof fn lemma_same_elsewhere(s: Seq<PendingTx>, t: Seq<PendingTx>, i: int, id: u64)
    requires
        s.len() == t.len(),
        0 <= i < s.len(),
        t[i].id == s[i].id,
        id != s[i].id,
        forall|j: int| 0 <= j < s.len() && j != i ==> #[trigger] t[j] == s[j],
    ensures
        lookup(t, id) == lookup(s, id),
    decreases s.len(),
{
    if i < s.len() - 1 {
        lemma_same_elsewhere(s.drop_last(), t.drop_last(), i, id);
    } else {
        assert(t.drop_last() =~= s.drop_last());
    }
}

proof fn lemma_update(s: Seq<PendingTx>, i: int, e: PendingTx)
    requires
        ids_unique(s),
        0 <= i < s.len(),
        e.id == s[i].id,
    ensures
        ids_unique(s.update(i, e)),
        lookup(s.update(i, e), e.id) == Some(e@),
        forall|id: u64| id != e.id ==> #[trigger] lookup(s.update(i, e), id) == lookup(s, id),
{
    let t = s.update(i, e);
    assert forall|id: u64| id != e.id implies #[trigger] lookup(t, id) == lookup(s, id) by {
        lemma_same_elsewhere(s, t, i, id);
    }
    lemma_lookup_at(t, i);
}

proof fn lemma_push(s: Seq<PendingTx>, e: PendingTx)
    requires
        ids_unique(s),
        lookup(s, e.id) is None,
    ensures
        ids_unique(s.push(e)),
        lookup(s.push(e), e.id) == Some(e@),
        forall|id: u64| id != e.id ==> #[trigger] lookup(s.push(e), id) == lookup(s, id),
{
    lemma_lookup_absent(s, e.id);
    assert(s.push(e).drop_last() =~= s);
}

proof fn lemma_remove(s: Seq<PendingTx>, i: int, id: u64)
    requires
        ids_unique(s),
        0 <= i < s.len(),
    ensures
        ids_unique(s.remove(i)),
        lookup(s.remove(i), id) == if id == s[i].id {
            None
        } else {
            lookup(s, id)
        },
    decreases s.len(),
{
    let t = s.remove(i);
    assert(ids_unique(t)) by {
        assert forall|p: int, q: int| 0 <= p < q < t.len() implies t[p].id != t[q].id by {
            let pp = if p < i { p } else { p + 1 };
            let qq = if q < i { q } else { q + 1 };
            assert(t[p] == s[pp] && t[q] == s[qq]);
        }
    }
    if i == s.len() - 1 {
        assert(t =~= s.drop_last());
        if id == s[i].id {
            lemma_lookup_absent(t, id);
        }
    } else {
        assert(t.drop_last() =~= s.drop_last().remove(i));
        lemma_remove(s.drop_last(), i, id);
        assert(t.last() == s.last());
    }
}

/// The pending multi-party transactions, keyed by id.
pub struct Coordinator {
    txs: Vec<PendingTx>,
    next_id: u64,
}

impl Coordinator {
    pub closed spec fn records(&self) -> Seq<PendingTx> {
        self.txs@
    }

    pub closed spec fn next_free_id(&self) -> u64 {
        self.next_id
    }

    pub open spec fn wf(&self) -> bool {
        &&& ids_unique(self.records())
        &&& forall|id: u64| id >= self.next_free_id() ==> #[trigger] lookup(self.records(), id) is None
    }

    pub open spec fn tx(&self, id: u64) -> Option<TxView> {
        lookup(self.records(), id)
    }

    pub fn new() -> (r: Coordinator)
        ensures
            r.wf(),
            forall|id: u64| #[trigger] r.tx(id) is None,
    {
        Coordinator { txs: Vec::new(), next_id: 0 }
    }

    fn find(&self, id: u64) -> (r: Option<usize>)
        requires
            self.wf(),
        ensures
            r is None ==> self.tx(id) is None,
            r matches Some(i) ==> i < self.records().len() && self.records()[i as int].id == id
                && self.tx(id) == Some(self.records()[i as int]@),
    {
        let mut i: usize = 0;
        while i < self.txs.len()
            invariant
                self.wf(),
                i <= self.txs.len(),
                forall|j: int| 0 <= j < i ==> self.txs@[j].id != id,
            decreases self.txs.len() - i,
        {
            if self.txs[i].id == id {
                proof { lemma_lookup_at(self.records(), i as int); }
                return Some(i);
            }
            i = i + 1;
        }
        proof { lemma_lookup_absent(self.records(), id); }
        None
    }

    /// How many approvals transaction `id` holds, if it is known.
    pub fn approval_count(&self, id: u64) -> (r: Option<usize>)
        requires
            self.wf(),
        ensures
            r is None <==> self.tx(id) is None,
            r matches Some(n) ==> (self.tx(id) matches Some(t) && n == t.approvals.len()),
    {
        match self.find(id) {
            None => None,
            Some(i) => Some(self.txs[i].approvals.len()),
        }
    }

    /// Opens a transaction that runs `method` with `args` once `threshold`
    /// parties approved it, before `expires_at`. The proposer's own approval
    /// is not implied.
    pub fn submit(
        &mut self,
        proposer: Address,
        method: String,
        args: Vec<u8>,
        threshold: u64,
        expires_at: u64,
    ) -> (r: Result<u64, MultisigError>)
        requires
            old(self).wf(),
        ensures
            final(self).wf(),
            threshold < 1 ==> r == Err::<u64, MultisigError>(MultisigError::InvalidThreshold),
            threshold >= 1 && old(self).next_free_id() < u64::MAX ==> r is Ok,
            threshold >= 1 && old(self).next_free_id() == u64::MAX ==> r == Err::<u64, MultisigError>(
                MultisigError::IdsExhausted,
            ),
            r is Err ==> *final(self) == *old(self),
            r matches Ok(id) ==> {
                &&& old(self).tx(id) is None
                &&& final(self).tx(id) == Some(TxView {
                    proposer: proposer@,
                    method: method@,
                    args: args@,
                    threshold: threshold as nat,
                    approvals: seq![],
                    expires_at: expires_at as nat,
                    executed: false,
                })
                &&& forall|other: u64| other != id ==> #[trigger] final(self).tx(other) == old(self).tx(other)
            },
    {
        if threshold < 1 {
            return Err(MultisigError::InvalidThreshold);
        }
        if self.next_id == u64::MAX {
            return Err(MultisigError::IdsExhausted);
        }
        let id = self.next_id;
        let e = PendingTx {
            id,
            proposer,
            method,
            args,
            threshold,
            approvals: Vec::new(),
            expires_at,
            executed: false,
        };
        let ghost s = self.records();
        proof {
            lemma_push(s, e);
            assert(e@.approvals =~= seq![]);
        }
        self.txs.push(e);
        self.next_id = id + 1;
        assert(self.records() == s.push(e));
        Ok(id)
    }

    /// Records `approver`'s approval of transaction `id` at `now`. A second
    /// approval by the same address is refused and counts nothing.
    pub fn approve(
        &mut self,
        id: u64,
        approver: Address,
        signature: Vec<u8>,
        now: u64,
    ) -> (r: Result<(), MultisigError>)
        requires
            old(self).wf(),
        ensures
            final(self).wf(),
            r == approve_result(old(self).tx(id), approver@, now as nat),
            r is Err ==> *final(self) == *old(self),
            r is Ok ==> (old(self).tx(id) matches Some(o) && final(self).tx(id) == Some(
                with_approval(o, (Approval { approver, signature })),
            )),
            forall|other: u64| other != id ==> #[trigger] final(self).tx(other) == old(self).tx(other),
    {
        let i = match self.find(id) {
            None => {
                return Err(MultisigError::UnknownTransaction);
            },
            Some(i) => i,
        };
        if now >= self.txs[i].expires_at {
            return Err(MultisigError::AlreadyExpired);
        }
        if self.txs[i].executed {
            return Err(MultisigError::AlreadyExecuted);
        }
        let mut k: usize = 0;
        while k < self.txs[i].approvals.len()
            invariant
                *self == *old(self),
                old(self).wf(),
                i < self.txs.len(),
                self.txs@[i as int].id == id,
                old(self).tx(id) == Some(self.txs@[i as int]@),
                now < self.txs@[i as int].expires_at,
                !self.txs@[i as int].executed,
                k <= self.txs@[i as int].approvals.len(),
                forall|m: int| 0 <= m < k ==> self.txs@[i as int].approvals@[m].approver@ != approver@,
            decreases self.txs@[i as int].approvals.len() - k,
        {
            if self.txs[i].approvals[k].approver.same_as(&approver) {
                assert(approved_by(self.txs@[i as int]@, approver@)) by {
                    assert(self.txs@[i as int]@.approvals[k as int].approver@ == approver@);
                }
                return Err(MultisigError::DuplicateApproval);
            }
            k = k + 1;
        }
        let ghost s = self.records();
        let mut e = self.txs.remove(i);
        e.approvals.push(Approval { approver, signature });
        proof { lemma_update(s, i as int, e); }
        self.txs.insert(i, e);
        assert(self.records() =~= s.update(i as int, e));
        Ok(())
    }

    /// Runs transaction `id` at `now`: once, and only with enough approvals
    /// before it expires. The call to make is handed back; the transaction is
    /// marked executed in the same step, so a second execution is refused.
    pub fn execute(&mut self, id: u64, now: u64) -> (r: Result<Execution, MultisigError>)
        requires
            old(self).wf(),
        ensures
            final(self).wf(),
            r is Ok <==> execute_result(old(self).tx(id), now as nat) is Ok,
            r matches Err(e) ==> (execute_result(old(self).tx(id), now as nat) == Err::<
                (),
                MultisigError,
            >(e) && *final(self) == *old(self)),
            r matches Ok(x) ==> (old(self).tx(id) matches Some(o) && final(self).tx(id) == Some(
                mark_executed(o),
            ) && x.proposer@ == o.proposer && x.method@ == o.method && x.args@ == o.args),
            forall|other: u64| other != id ==> #[trigger] final(self).tx(other) == old(self).tx(other),
    {
        let i = match self.find(id) {
            None => {
                return Err(MultisigError::UnknownTransaction);
            },
            Some(i) => i,
        };
        if self.txs[i].executed {
            return Err(MultisigError::AlreadyExecuted);
        }
        if now >= self.txs[i].expires_at {
            return Err(MultisigError::AlreadyExpired);
        }
        if (self.txs[i].approvals.len() as u64) < self.txs[i].threshold {
            return Err(MultisigError::InsufficientApprovals);
        }
        let ghost s = self.records();
        let mut e = self.txs.remove(i);
        e.executed = true;
        let x = Execution { proposer: e.proposer.duplicate(), method: e.method.clone(), args: e.args.clone() };
        proof {
            lemma_update(s, i as int, e);
            assert(e@ == mark_executed(s[i as int]@));
        }
        self.txs.insert(i, e);
        assert(self.records() =~= s.update(i as int, e));
        Ok(x)
    }

    /// Withdraws transaction `id`: only its proposer may, and only before it
    /// was executed. The record is removed.
    pub fn withdraw(&mut self, id: u64, proposer: &Address) -> (r: Result<(), MultisigError>)
        requires
            old(self).wf(),
        ensures
            final(self).wf(),
            old(self).tx(id) is None ==> r == Err::<(), MultisigError>(MultisigError::UnknownTransaction),
            old(self).tx(id) matches Some(t) ==> {
                if t.proposer != proposer@ {
                    r == Err::<(), MultisigError>(MultisigError::NotProposer)
                } else if t.executed {
                    r == Err::<(), MultisigError>(MultisigError::AlreadyExecuted)
                } else {
                    r is Ok
                }
            },
            r is Err ==> *final(self) == *old(self),
            r is Ok ==> final(self).tx(id) is None,
            forall|other: u64| other != id ==> #[trigger] final(self).tx(other) == old(self).tx(other),
    {
        let i = match self.find(id) {
            None => {
                return Err(MultisigError::UnknownTransaction);
            },
            Some(i) => i,
        };
        if !self.txs[i].proposer.same_as(proposer) {
            return Err(MultisigError::NotProposer);
        }
        if self.txs[i].executed {
            return Err(MultisigError::AlreadyExecuted);
        }
        let ghost s = self.records();
        proof {
            assert forall|other: u64| true implies #[trigger] lookup(s.remove(i as int), other) == (if other == s[i as int].id { None } else { lookup(s, other) }) by {
                lemma_remove(s, i as int, other);
            }
            lemma_remove(s, i as int, id);
        }
        self.txs.remove(i);
        Ok(())
    }

    /// Removes every transaction that has expired at `now`; its outcome is
    /// then seen only as its absence.
    pub fn sweep(&mut self, now: u64)
        requires
            old(self).wf(),
        ensures
            final(self).wf(),
            forall|id: u64| #[trigger] final(self).tx(id) == match old(self).tx(id) {
                Some(t) => if expired_at(t, now as nat) {
                    None
                } else {
                    Some(t)
                },
                None => None,
            },
    {
        let ghost s = self.records();
        let mut kept: Vec<PendingTx> = Vec::new();
        let mut i: usize = 0;
        assert(s.len() == self.txs.len());
        assert(s.skip(0) =~= s);
        while self.txs.len() > 0
            invariant
                i <= s.len(),
                s.len() <= usize::MAX,
                self.txs@ == s.skip(i as int),
                self.next_id == old(self).next_free_id(),
                s == old(self).records(),
                forall|id: u64| id >= old(self).next_free_id() ==> #[trigger] lookup(s, id) is None,
                ids_unique(s),
                ids_unique(kept@),
                forall|id: u64| #[trigger] lookup(kept@, id) == match lookup(s.take(i as int), id) {
                    Some(t) => if expired_at(t, now as nat) {
                        None
                    } else {
                        Some(t)
                    },
                    None => None,
                },
            decreases self.txs@.len(),
        {
            let e = self.txs.remove(0);
            let ghost pre = s.take(i as int);
            proof {
                assert(e == s[i as int]);
                assert(s.skip(i as int).remove(0) =~= s.skip(i as int + 1));
                assert(s.take(i as int + 1) =~= pre.push(e));
                assert(lookup(pre, e.id) is None) by {
                    lemma_lookup_absent(pre, e.id);
                }
                lemma_push(pre, e);
            }
            if now >= e.expires_at {
                proof {
                    assert forall|id: u64| #[trigger] lookup(kept@, id) == match lookup(s.take(i as int + 1), id) {
                        Some(t) => if expired_at(t, now as nat) { None } else { Some(t) },
                        None => None,
                    } by {
                        if id != e.id {
                            assert(lookup(s.take(i as int + 1), id) == lookup(pre, id));
                        }
                    }
                }
            } else {
                proof {
                    assert(lookup(kept@, e.id) is None);
                    lemma_push(kept@, e);
                }
                kept.push(e);
            }
            i = i + 1;
        }
        proof {
            assert(i == s.len());
            assert(s.take(i as int) =~= s);
            assert forall|id: u64| id >= self.next_id implies #[trigger] lookup(kept@, id) is None by {
                assert(lookup(s, id) is None);
            }
        }
        self.txs = kept;
    }
}

/// One execution request against the transaction as it stands: its outcome
/// and the transaction after it.
pub open spec fn execute_step(t: TxView, now: nat) -> (Result<(), MultisigError>, TxView) {
    let r = execute_result(Some(t), now);
    if r is Ok {
        (r, mark_executed(t))
    } else {
        (r, t)
    }
}

/// The outcomes of `n` execution requests at `now`, taken one after another
/// as the coordinator's single writer orders them.
pub open spec fn execute_run(t: TxView, now: nat, n: nat) -> Seq<Result<(), MultisigError>>
    decreases n,
{
    if n == 0 {
        seq![]
    } else {
        seq![execute_step(t, now).0] + execute_run(execute_step(t, now).1, now, (n - 1) as nat)
    }
}

/// An executed transaction is refused as already executed, at any time.
pub proof fn lemma_executed_is_final(t: TxView, now: nat)
    requires
        t.executed,
    ensures
        execute_result(Some(t), now) == Err::<(), MultisigError>(MultisigError::AlreadyExecuted),
{
}

/// `n` callers that all ask to execute a transaction that meets its
/// threshold get exactly one success; the other `n - 1` are refused as
/// already executed.
pub proof fn lemma_single_execution(t: TxView, now: nat, n: nat)
    requires
        n >= 1,
        execute_result(Some(t), now) is Ok,
    ensures
        execute_run(t, now, n).len() == n,
        execute_run(t, now, n)[0] is Ok,
        forall|k: int| 1 <= k < n ==> #[trigger] execute_run(t, now, n)[k]
            == Err::<(), MultisigError>(MultisigError::AlreadyExecuted),
{
    let e = mark_executed(t);
    lemma_refused_run(e, now, (n - 1) as nat);
    let run = execute_run(t, now, n);
    assert(run == seq![execute_step(t, now).0] + execute_run(e, now, (n - 1) as nat));
    assert forall|k: int| 1 <= k < n implies #[trigger] run[k]
        == Err::<(), MultisigError>(MultisigError::AlreadyExecuted) by {
        assert(run[k] == execute_run(e, now, (n - 1) as nat)[k - 1]);
    }
}

proof fn lemma_refused_run(e: TxView, now: nat, n: nat)
    requires
        e.executed,
    ensures
        execute_run(e, now, n).len() == n,
        forall|k: int| 0 <= k < n ==> #[trigger] execute_run(e, now, n)[k]
            == Err::<(), MultisigError>(MultisigError::AlreadyExecuted),
    decreases n,
{
    if n > 0 {
        lemma_refused_run(e, now, (n - 1) as nat);
        let run = execute_run(e, now, n);
        assert(execute_step(e, now).1 == e);
        assert forall|k: int| 0 <= k < n implies #[trigger] run[k]
            == Err::<(), MultisigError>(MultisigError::AlreadyExecuted) by {
            if k > 0 {
                assert(run[k] == execute_run(e, now, (n - 1) as nat)[k - 1]);
            }
        }
    }
}

/// An address that has approved cannot approve again.
pub proof fn lemma_approver_cannot_approve_again(t: TxView, a: Seq<u8>, now: nat)
    requires
        approved_by(t, a),
    ensures
        approve_result(Some(t), a, now) is Err,
{
}

/// Approving twice from the same address counts once: after an accepted
/// approval by `a` the count rose by one, and a second approval by `a` is
/// refused as a duplicate, which `approve` answers by changing nothing.
pub proof fn lemma_double_approval_counts_once(t: TxView, a: Approval, now: nat)
    requires
        approve_result(Some(t), a.approver@, now) is Ok,
    ensures
        with_approval(t, a).approvals.len() == t.approvals.len() + 1,
        approve_result(Some(with_approval(t, a)), a.approver@, now)
            == Err::<(), MultisigError>(MultisigError::DuplicateApproval),
{
    let u = with_approval(t, a);
    assert(u.approvals[t.approvals.len() as int] == a);
    assert(approved_by(u, a.approver@));
}

} // verus!
