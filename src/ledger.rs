use vstd::prelude::*;
use crate::address::Address;
use crate::amount::Amount;

verus! {

/// One account's holding of one symbol.
pub struct Entry {
    pub account: Address,
    pub symbol: Address,
    pub amount: Amount,
}

/// Why a transfer was refused.
#[derive(Debug, PartialEq, Eq, Structural)]
pub enum LedgerError {
    /// The sender holds less of the symbol than the amount.
    InsufficientFunds,
}

pub open spec fn holds_key(e: Entry, a: Seq<u8>, y: Seq<u8>) -> bool {
    e.account@ == a && e.symbol@ == y
}

/// What `a` holds of `y` in a table of entries: the amount of its entry, or zero.
pub open spec fn balance_in(s: Seq<Entry>, a: Seq<u8>, y: Seq<u8>) -> nat
    decreases s.len(),
{
    if s.len() == 0 {
        0
    } else if holds_key(s.last(), a, y) {
        s.last().amount@
    } else {
        balance_in(s.drop_last(), a, y)
    }
}

/// The total amount of `y` over all accounts.
pub open spec fn supply_in(s: Seq<Entry>, y: Seq<u8>) -> nat
    decreases s.len(),
{
    if s.len() == 0 {
        0
    } else {
        supply_in(s.drop_last(), y) + if s.last().symbol@ == y {
            s.last().amount@
        } else {
            0
        }
    }
}

/// No two entries are for the same account and symbol.
pub open spec fn keys_unique(s: Seq<Entry>) -> bool {
    forall|i: int, j: int|
        0 <= i < j < s.len() ==> !holds_key(s[i], s[j].account@, s[j].symbol@)
}

proof fn lemma_balance_absent(s: Seq<Entry>, a: Seq<u8>, y: Seq<u8>)
    requires
        forall|i: int| 0 <= i < s.len() ==> !holds_key(s[i], a, y),
    ensures
        balance_in(s, a, y) == 0,
    decreases s.len(),
{
    if s.len() > 0 {
        lemma_balance_absent(s.drop_last(), a, y);
    }
}

proof fn lemma_balance_at(s: Seq<Entry>, i: int)
    requires
        keys_unique(s),
        0 <= i < s.len(),
    ensures
        balance_in(s, s[i].account@, s[i].symbol@) == s[i].amount@,
    decreases s.len(),
{
    if i < s.len() - 1 {
        let t = s.drop_last();
        assert(keys_unique(t));
        assert(t[i] == s[i]);
        lemma_balance_at(t, i);
        assert(!holds_key(s[i], s.last().account@, s.last().symbol@));
    }
}

proof fn lemma_update(s: Seq<Entry>, i: int, e: Entry, a: Seq<u8>, y: Seq<u8>)
    requires
        keys_unique(s),
        0 <= i < s.len(),
        e.account@ == s[i].account@,
        e.symbol@ == s[i].symbol@,
    ensures
        keys_unique(s.update(i, e)),
        balance_in(s.update(i, e), a, y) == if holds_key(s[i], a, y) {
            e.amount@
        } else {
            balance_in(s, a, y)
        },
        supply_in(s.update(i, e), y) == if s[i].symbol@ == y {
            supply_in(s, y) - s[i].amount@ + e.amount@
        } else {
            supply_in(s, y) as int
        },
    decreases s.len(),
{
    let t = s.update(i, e);
    assert(keys_unique(t)) by {
        assert forall|p: int, q: int| 0 <= p < q < t.len() implies !holds_key(t[p], t[q].account@, t[q].symbol@) by {
            assert(!holds_key(s[p], s[q].account@, s[q].symbol@));
        }
    }
    if i == s.len() - 1 {
        assert(t.drop_last() =~= s.drop_last());
    } else {
        assert(t.drop_last() =~= s.drop_last().update(i, e));
        lemma_update(s.drop_last(), i, e, a, y);
        if holds_key(s[i], a, y) {
            assert(!holds_key(s.last(), a, y)) by {
                assert(!holds_key(s[i], s[s.len() - 1].account@, s[s.len() - 1].symbol@));
            }
        }
    }
}

proof fn lemma_push(s: Seq<Entry>, e: Entry, a: Seq<u8>, y: Seq<u8>)
    requires
        keys_unique(s),
        forall|i: int| 0 <= i < s.len() ==> !holds_key(s[i], e.account@, e.symbol@),
    ensures
        keys_unique(s.push(e)),
        balance_in(s.push(e), a, y) == if holds_key(e, a, y) {
            e.amount@
        } else {
            balance_in(s, a, y)
        },
        supply_in(s.push(e), y) == supply_in(s, y) + if e.symbol@ == y {
            e.amount@
        } else {
            0
        },
{
    let t = s.push(e);
    assert(t.drop_last() =~= s);
    assert(keys_unique(t)) by {
        assert forall|p: int, q: int| 0 <= p < q < t.len() implies !holds_key(t[p], t[q].account@, t[q].symbol@) by {
            if q < s.len() {
                assert(!holds_key(s[p], s[q].account@, s[q].symbol@));
            }
        }
    }
}

/// Token balances: each account's non-negative amount of each symbol.
pub struct Ledger {
    entries: Vec<Entry>,
}

impl Ledger {
    pub closed spec fn rows(&self) -> Seq<Entry> {
        self.entries@
    }

    pub open spec fn wf(&self) -> bool {
        keys_unique(self.rows())
    }

    /// What `a` holds of symbol `y`.
    pub open spec fn balance_of(&self, a: Seq<u8>, y: Seq<u8>) -> nat {
        balance_in(self.rows(), a, y)
    }

    /// The total amount of symbol `y` over all accounts.
    pub open spec fn supply_of(&self, y: Seq<u8>) -> nat {
        supply_in(self.rows(), y)
    }

    pub fn new() -> (r: Ledger)
        ensures
            r.wf(),
            forall|a: Seq<u8>, y: Seq<u8>| r.balance_of(a, y) == 0,
            forall|y: Seq<u8>| r.supply_of(y) == 0,
    {
        Ledger { entries: Vec::new() }
    }

    fn find(&self, account: &Address, symbol: &Address) -> (r: Option<usize>)
        requires
            self.wf(),
        ensures
            r is None ==> forall|i: int|
                0 <= i < self.rows().len() ==> !holds_key(self.rows()[i], account@, symbol@),
            r matches Some(i) ==> i < self.rows().len() && holds_key(self.rows()[i as int], account@, symbol@),
    {
        let mut i: usize = 0;
        while i < self.entries.len()
            invariant
                i <= self.entries.len(),
                forall|j: int| 0 <= j < i ==> !holds_key(self.entries@[j], account@, symbol@),
            decreases self.entries.len() - i,
        {
            if self.entries[i].account.same_as(account) && self.entries[i].symbol.same_as(symbol) {
                return Some(i);
            }
            i = i + 1;
        }
        None
    }

    /// What `account` holds of `symbol`.
    pub fn balance(&self, account: &Address, symbol: &Address) -> (r: Amount)
        requires
            self.wf(),
        ensures
            r@ == self.balance_of(account@, symbol@),
    {
        match self.find(account, symbol) {
            Some(i) => {
                proof { lemma_balance_at(self.rows(), i as int); }
                self.entries[i].amount.duplicate()
            },
            None => {
                proof { lemma_balance_absent(self.rows(), account@, symbol@); }
                Amount::zero()
            },
        }
    }

    /// Adds `amount` of `symbol` to `account`; nothing else changes.
    pub fn credit(&mut self, account: &Address, symbol: &Address, amount: &Amount)
        requires
            old(self).wf(),
        ensures
            final(self).wf(),
            final(self).balance_of(account@, symbol@) == old(self).balance_of(account@, symbol@) + amount@,
            forall|a: Seq<u8>, y: Seq<u8>|
                !(a == account@ && y == symbol@) ==> #[trigger] final(self).balance_of(a, y)
                    == old(self).balance_of(a, y),
            final(self).supply_of(symbol@) == old(self).supply_of(symbol@) + amount@,
            forall|y: Seq<u8>| y != symbol@ ==> #[trigger] final(self).supply_of(y) == old(self).supply_of(y),
    {
        let ghost s = self.rows();
        match self.find(account, symbol) {
            Some(i) => {
                let sum = self.entries[i].amount.add(amount);
                let e = Entry { account: account.duplicate(), symbol: symbol.duplicate(), amount: sum };
                proof {
                    lemma_balance_at(s, i as int);
                    assert forall|a: Seq<u8>, y: Seq<u8>| true implies
                        #[trigger] balance_in(s.update(i as int, e), a, y) == (if holds_key(s[i as int], a, y) { e.amount@ } else { balance_in(s, a, y) }) by {
                        lemma_update(s, i as int, e, a, y);
                    }
                    assert forall|y: Seq<u8>| y != symbol@ implies
                        #[trigger] supply_in(s.update(i as int, e), y) == supply_in(s, y) by {
                        lemma_update(s, i as int, e, account@, y);
                    }
                    lemma_update(s, i as int, e, account@, symbol@);
                }
                self.entries.set(i, e);
                assert(self.rows() == s.update(i as int, e));
            },
            None => {
                let e = Entry { account: account.duplicate(), symbol: symbol.duplicate(), amount: amount.duplicate() };
                proof {
                    lemma_balance_absent(s, account@, symbol@);
                    assert forall|a: Seq<u8>, y: Seq<u8>| true implies
                        #[trigger] balance_in(s.push(e), a, y) == (if holds_key(e, a, y) { e.amount@ } else { balance_in(s, a, y) }) by {
                        lemma_push(s, e, a, y);
                    }
                    assert forall|y: Seq<u8>| y != symbol@ implies
                        #[trigger] supply_in(s.push(e), y) == supply_in(s, y) by {
                        lemma_push(s, e, account@, y);
                    }
                    lemma_push(s, e, account@, symbol@);
                }
                self.entries.push(e);
                assert(self.rows() == s.push(e));
            },
        }
    }

    /// Takes `amount` of `symbol` from `account`, which holds at least that
    /// much; nothing else changes.
    pub fn debit(&mut self, account: &Address, symbol: &Address, amount: &Amount)
        requires
            old(self).wf(),
            amount@ <= old(self).balance_of(account@, symbol@),
        ensures
            final(self).wf(),
            final(self).balance_of(account@, symbol@) == old(self).balance_of(account@, symbol@) - amount@,
            forall|a: Seq<u8>, y: Seq<u8>|
                !(a == account@ && y == symbol@) ==> #[trigger] final(self).balance_of(a, y)
                    == old(self).balance_of(a, y),
            final(self).supply_of(symbol@) == old(self).supply_of(symbol@) - amount@,
            forall|y: Seq<u8>| y != symbol@ ==> #[trigger] final(self).supply_of(y) == old(self).supply_of(y),
    {
        let ghost s = self.rows();
        match self.find(account, symbol) {
            Some(i) => {
                proof { lemma_balance_at(s, i as int); }
                let rest = self.entries[i].amount.sub(amount);
                let e = Entry { account: account.duplicate(), symbol: symbol.duplicate(), amount: rest };
                proof {
                    assert forall|a: Seq<u8>, y: Seq<u8>| true implies
                        #[trigger] balance_in(s.update(i as int, e), a, y) == (if holds_key(s[i as int], a, y) { e.amount@ } else { balance_in(s, a, y) }) by {
                        lemma_update(s, i as int, e, a, y);
                    }
                    assert forall|y: Seq<u8>| y != symbol@ implies
                        #[trigger] supply_in(s.update(i as int, e), y) == supply_in(s, y) by {
                        lemma_update(s, i as int, e, account@, y);
                    }
                    lemma_update(s, i as int, e, account@, symbol@);
                }
                self.entries.set(i, e);
                assert(self.rows() == s.update(i as int, e));
            },
            None => {
                proof { lemma_balance_absent(s, account@, symbol@); }
            },
        }
    }

    /// Moves `amount` of `symbol` from `from` to `to`. It is refused, with
    /// nothing changed, when `from` holds less than `amount`. The total of
    /// every symbol is kept; a transfer to oneself changes no balance.
    pub fn send(&mut self, from: &Address, to: &Address, amount: &Amount, symbol: &Address) -> (r: Result<(), LedgerError>)
        requires
            old(self).wf(),
        ensures
            final(self).wf(),
            r is Ok <==> amount@ <= old(self).balance_of(from@, symbol@),
            r is Err ==> r == Err::<(), LedgerError>(LedgerError::InsufficientFunds) && final(self).rows() == old(self).rows(),
            r is Err ==> forall|a: Seq<u8>, y: Seq<u8>| #[trigger] final(self).balance_of(a, y)
                    == old(self).balance_of(a, y),
            r is Ok && from@ != to@ ==> {
                &&& final(self).balance_of(from@, symbol@) == old(self).balance_of(from@, symbol@) - amount@
                &&& final(self).balance_of(to@, symbol@) == old(self).balance_of(to@, symbol@) + amount@
            },
            forall|a: Seq<u8>, y: Seq<u8>|
                !((a == from@ || a == to@) && y == symbol@) ==> #[trigger] final(self).balance_of(a, y)
                    == old(self).balance_of(a, y),
            from@ == to@ ==> forall|a: Seq<u8>, y: Seq<u8>| #[trigger] final(self).balance_of(a, y)
                    == old(self).balance_of(a, y),
            forall|y: Seq<u8>| #[trigger] final(self).supply_of(y) == old(self).supply_of(y),
    {
        let held = self.balance(from, symbol);
        if !amount.le(&held) {
            return Err(LedgerError::InsufficientFunds);
        }
        if from.same_as(to) {
            return Ok(());
        }
        self.debit(from, symbol, amount);
        self.credit(to, symbol, amount);
        Ok(())
    }
}

} // verus!
