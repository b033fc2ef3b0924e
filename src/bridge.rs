use vstd::prelude::*;

verus! {

/// Where the bridge stands in the block-execution lifecycle.
#[derive(Clone, Copy, Debug, PartialEq, Eq, Structural)]
pub enum Phase {
    /// Not yet told of the application's state.
    Uninitialized,
    /// Between blocks.
    Ready,
    /// Inside the block at the given height: transactions are delivered.
    InBlock(u64),
    /// The block at the given height has ended and awaits its commit.
    Ended(u64),
}

/// What the backend application did with a delivered transaction.
#[derive(Clone, Copy, Debug, PartialEq, Eq, Structural)]
pub enum Delivery {
    /// It executed the transaction.
    Executed,
    /// It refused the transaction, deterministically, as every replica will.
    Rejected,
    /// It could not be reached.
    Unreachable,
}

/// Why a lifecycle call was refused.
#[derive(Clone, Copy, Debug, PartialEq, Eq, Structural)]
pub enum BridgeError {
    /// The call does not belong in the current phase.
    OutOfOrder,
    /// The block does not directly follow the last committed height.
    WrongHeight,
    /// The backend could not execute a transaction that consensus already ordered.
    BackendUnreachable,
    /// The post-block state was not durably flushed, so the commit cannot be acknowledged.
    FlushFailed,
}

impl BridgeError {
    pub open spec fn fatal(&self) -> bool {
        *self == BridgeError::BackendUnreachable || *self == BridgeError::FlushFailed
    }

    /// Whether the process must stop: a replica that cannot apply an
    /// ordered block or persist its state fails loudly.
    pub fn is_fatal(&self) -> (r: bool)
        ensures
            r == self.fatal(),
    {
        match self {
            BridgeError::BackendUnreachable => true,
            BridgeError::FlushFailed => true,
            _ => false,
        }
    }
}

/// The consensus-facing side of the bridge: it orders the lifecycle calls
/// of the consensus engine and keeps the last committed height and hash.
pub struct Bridge {
    phase: Phase,
    height: u64,
    app_hash: Vec<u8>,
}

impl Bridge {
    pub closed spec fn phase(&self) -> Phase {
        self.phase
    }

    /// The last committed height.
    pub closed spec fn height(&self) -> u64 {
        self.height
    }

    /// The application hash of the last committed block.
    pub closed spec fn app_hash(&self) -> Seq<u8> {
        self.app_hash@
    }

    pub fn new() -> (r: Bridge)
        ensures
            r.phase() == Phase::Uninitialized,
            r.height() == 0,
            r.app_hash() == Seq::<u8>::empty(),
    {
        Bridge { phase: Phase::Uninitialized, height: 0, app_hash: Vec::new() }
    }

    pub fn current_phase(&self) -> (r: Phase)
        ensures
            r == self.phase(),
    {
        self.phase
    }

    /// The last committed height and application hash, as `Info` reports them.
    pub fn info(&self) -> (r: (u64, Vec<u8>))
        ensures
            r.0 == self.height(),
            r.1@ == self.app_hash(),
    {
        (self.height, self.app_hash.clone())
    }

    /// Takes the application's committed height and hash, once, at start.
    pub fn init(&mut self, height: u64, app_hash: Vec<u8>) -> (r: Result<(), BridgeError>)
        ensures
            heights_consistent(*old(self)) ==> heights_consistent(*final(self)),
            old(self).phase() == Phase::Uninitialized <==> r is Ok,
            r is Ok ==> final(self).phase() == Phase::Ready && final(self).height() == height
                && final(self).app_hash() == app_hash@,
            r is Err ==> r == Err::<(), BridgeError>(BridgeError::OutOfOrder) && *final(self) == *old(self),
    {
        if self.phase != Phase::Uninitialized {
            return Err(BridgeError::OutOfOrder);
        }
        self.phase = Phase::Ready;
        self.height = height;
        self.app_hash = app_hash;
        Ok(())
    }

    /// Whether `CheckTx` may be served now: at any time after `init`. It
    /// never changes the bridge.
    pub fn check_tx(&self) -> (r: Result<(), BridgeError>)
        ensures
            r is Ok <==> self.phase() != Phase::Uninitialized,
            r is Err ==> r == Err::<(), BridgeError>(BridgeError::OutOfOrder),
    {
        if self.phase == Phase::Uninitialized {
            Err(BridgeError::OutOfOrder)
        } else {
            Ok(())
        }
    }

    /// Opens the block at `height`, which must follow the last committed one.
    pub fn begin_block(&mut self, height: u64) -> (r: Result<(), BridgeError>)
        ensures
            heights_consistent(*old(self)) ==> heights_consistent(*final(self)),
            old(self).phase() != Phase::Ready ==> r == Err::<(), BridgeError>(BridgeError::OutOfOrder),
            old(self).phase() == Phase::Ready && height != old(self).height() + 1 ==> r == Err::<
                (),
                BridgeError,
            >(BridgeError::WrongHeight),
            r is Ok <==> old(self).phase() == Phase::Ready && height == old(self).height() + 1,
            r is Ok ==> final(self).phase() == Phase::InBlock(height),
            r is Err ==> *final(self) == *old(self),
            final(self).height() == old(self).height(),
            final(self).app_hash() == old(self).app_hash(),
    {
        if self.phase != Phase::Ready {
            return Err(BridgeError::OutOfOrder);
        }
        if height <= self.height || height - self.height != 1 {
            return Err(BridgeError::WrongHeight);
        }
        self.phase = Phase::InBlock(height);
        Ok(())
    }

    /// Accounts for one delivered transaction: a refused one is part of the
    /// block like an executed one, but a backend that cannot be reached is fatal.
    pub fn deliver_tx(&mut self, outcome: Delivery) -> (r: Result<(), BridgeError>)
        ensures
            heights_consistent(*old(self)) ==> heights_consistent(*final(self)),
            !(old(self).phase() is InBlock) ==> r == Err::<(), BridgeError>(BridgeError::OutOfOrder),
            old(self).phase() is InBlock && outcome == Delivery::Unreachable ==> r == Err::<
                (),
                BridgeError,
            >(BridgeError::BackendUnreachable),
            r is Ok <==> old(self).phase() is InBlock && outcome != Delivery::Unreachable,
            *final(self) == *old(self),
    {
        match self.phase {
            Phase::InBlock(_) => match outcome {
                Delivery::Unreachable => Err(BridgeError::BackendUnreachable),
                _ => Ok(()),
            },
            _ => Err(BridgeError::OutOfOrder),
        }
    }

    /// Closes the open block.
    pub fn end_block(&mut self) -> (r: Result<(), BridgeError>)
        ensures
            heights_consistent(*old(self)) ==> heights_consistent(*final(self)),
            r is Ok <==> old(self).phase() is InBlock,
            r is Err ==> r == Err::<(), BridgeError>(BridgeError::OutOfOrder) && *final(self) == *old(self),
            old(self).phase() matches Phase::InBlock(h) ==> final(self).phase() == Phase::Ended(h),
            final(self).height() == old(self).height(),
            final(self).app_hash() == old(self).app_hash(),
    {
        match self.phase {
            Phase::InBlock(h) => {
                self.phase = Phase::Ended(h);
                Ok(())
            },
            _ => Err(BridgeError::OutOfOrder),
        }
    }

    /// Commits the ended block with the hash of the post-block state, and
    /// hands back the hash to acknowledge. Only state that was durably
    /// flushed is acknowledged: without the flush the commit is fatal and
    /// nothing changes.
    pub fn commit(&mut self, app_hash: Vec<u8>, flushed: bool) -> (r: Result<Vec<u8>, BridgeError>)
        ensures
            heights_consistent(*old(self)) ==> heights_consistent(*final(self)),
            !(old(self).phase() is Ended) ==> r == Err::<Vec<u8>, BridgeError>(BridgeError::OutOfOrder),
            old(self).phase() is Ended && !flushed ==> r == Err::<Vec<u8>, BridgeError>(
                BridgeError::FlushFailed,
            ),
            r is Ok <==> old(self).phase() is Ended && flushed,
            r is Err ==> *final(self) == *old(self),
            r matches Ok(ack) ==> (old(self).phase() matches Phase::Ended(h) && ack@ == app_hash@
                && final(self).phase() == Phase::Ready && final(self).height() == h
                && final(self).app_hash() == app_hash@),
    {
        match self.phase {
            Phase::Ended(h) => {
                if !flushed {
                    return Err(BridgeError::FlushFailed);
                }
                let ack = app_hash.clone();
                self.phase = Phase::Ready;
                self.height = h;
                self.app_hash = app_hash;
                Ok(ack)
            },
            _ => Err(BridgeError::OutOfOrder),
        }
    }
}

/// Where a phase's block height must stand relative to the last committed one.
pub open spec fn heights_consistent(b: Bridge) -> bool {
    match b.phase() {
        Phase::InBlock(h) => h == b.height() + 1,
        Phase::Ended(h) => h == b.height() + 1,
        _ => true,
    }
}

/// Committed heights have no gaps: an open or ended block is always the one
/// right after the last committed height, so a commit raises the committed
/// height by exactly one.
pub proof fn lemma_commit_is_next_height(before: Bridge, after: Bridge)
    requires
        heights_consistent(before),
        before.phase() is Ended,
        after.phase() == Phase::Ready,
        before.phase() matches Phase::Ended(h) && after.height() == h,
    ensures
        after.height() == before.height() + 1,
        heights_consistent(after),
{
}

} // verus!
