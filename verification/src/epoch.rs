//! The generation counter.

use vstd::prelude::*;

verus! {

/// Number of distinct counter values: the counter wraps at this bound.
pub open spec fn modulus() -> int {
    usize::MAX as int + 1
}

/// The counter value that follows `value`, wrapping at the modulus.
pub open spec fn next_value(value: int) -> int {
    if value + 1 == modulus() {
        0
    } else {
        value + 1
    }
}

/// Signed distance from `earlier` to `later` on the wrapping counter: the
/// representative of `later - earlier` modulo the modulus that lies in
/// `isize::MIN ..= isize::MAX`.
pub open spec fn distance(later: int, earlier: int) -> int {
    let forward = if later >= earlier {
        later - earlier
    } else {
        later - earlier + modulus()
    };
    if forward > isize::MAX as int {
        forward - modulus()
    } else {
        forward
    }
}

/// A generation of the reclamation engine.
#[derive(Clone, Copy, Debug, PartialEq, Eq, Structural)]
pub struct Epoch {
    value: usize,
}

impl View for Epoch {
    type V = int;

    closed spec fn view(&self) -> int {
        self.value as int
    }
}

impl Epoch {
    /// The epoch a new collector starts in.
    pub fn starting() -> (epoch: Epoch)
        ensures
            epoch@ == 0,
    {
        Epoch { value: 0 }
    }

    /// The epoch with counter value `value`.
    pub fn from_value(value: usize) -> (epoch: Epoch)
        ensures
            epoch@ == value as int,
    {
        Epoch { value }
    }

    /// The counter value.
    pub fn value(&self) -> (value: usize)
        ensures
            value as int == self@,
    {
        self.value
    }

    /// The epoch one advance later.
    pub fn successor(&self) -> (next: Epoch)
        ensures
            next@ == next_value(self@),
    {
        if self.value == usize::MAX {
            Epoch { value: 0 }
        } else {
            Epoch { value: self.value + 1 }
        }
    }

    /// How many advances `self` is ahead of `rhs`, negative when it is behind.
    pub fn wrapping_sub(&self, rhs: Epoch) -> (ahead: isize)
        ensures
            ahead as int == distance(self@, rhs@),
    {
        let forward: usize = if self.value >= rhs.value {
            self.value - rhs.value
        } else {
            usize::MAX - (rhs.value - self.value) + 1
        };
        if forward <= isize::MAX as usize {
            forward as isize
        } else {
            let back: usize = usize::MAX - forward;
            -(back as isize) - 1
        }
    }

    /// Whether two epochs are the same generation.
    pub fn same(&self, rhs: Epoch) -> (same: bool)
        ensures
            same == (self@ == rhs@),
    {
        self.value == rhs.value
    }
}

/// The cell that holds the global epoch.
#[derive(Debug)]
pub struct EpochCounter {
    current: Epoch,
}

impl View for EpochCounter {
    type V = int;

    closed spec fn view(&self) -> int {
        self.current@
    }
}

impl EpochCounter {
    /// A counter at the starting epoch.
    pub fn new() -> (counter: EpochCounter)
        ensures
            counter@ == 0,
    {
        EpochCounter { current: Epoch::starting() }
    }

    /// The epoch the counter is at.
    pub fn load(&self) -> (epoch: Epoch)
        ensures
            epoch@ == self@,
    {
        self.current
    }

    /// Moves the counter from `snapshot` to its successor. Where the counter
    /// is no longer at `snapshot`, somebody else has advanced it: nothing
    /// changes and the result is `false`.
    pub fn advance(&mut self, snapshot: Epoch) -> (advanced: bool)
        ensures
            advanced == (old(self)@ == snapshot@),
            advanced ==> final(self)@ == next_value(old(self)@),
            !advanced ==> final(self)@ == old(self)@,
    {
        if self.current.same(snapshot) {
            self.current = snapshot.successor();
            true
        } else {
            false
        }
    }
}

/// An epoch's counter value lies below the modulus.
pub proof fn lemma_epoch_range(epoch: Epoch)
    ensures
        0 <= epoch@ < modulus(),
{
}

} // verus!
