//! Business readiness state.
//!
//! Control-plane lifecycle of the order hub: `BOOTING -> RESTORING -> READY`,
//! and any state -> `HALTED`. New order admission is only permitted in
//! `READY`.

use vstd::prelude::*;

verus! {

/// Readiness states of the order hub.
#[derive(Debug, Clone, Copy, PartialEq, Eq, Structural)]
pub enum Readiness {
    /// Process starting, nothing available yet.
    Booting,
    /// Restoring journal and reconciling state; queries stale, no admission.
    Restoring,
    /// All gates satisfied; admission open.
    Ready,
    /// Unrecoverable or operator-initiated stop; admission closed.
    Halted,
}

impl Readiness {
    /// The number under which the state is stored.
    pub open spec fn code(self) -> u8 {
        match self {
            Readiness::Booting => 0,
            Readiness::Restoring => 1,
            Readiness::Ready => 2,
            Readiness::Halted => 3,
        }
    }

    /// The lowercase name under which the state is reported.
    pub open spec fn name(self) -> Seq<char> {
        match self {
            Readiness::Booting => "booting"@,
            Readiness::Restoring => "restoring"@,
            Readiness::Ready => "ready"@,
            Readiness::Halted => "halted"@,
        }
    }

    /// Parses the stored number of a state; an unknown number is handed back.
    pub fn from_u8(value: u8) -> (r: Result<Self, u8>)
        ensures
            match r {
                Ok(state) => state.code() == value,
                Err(other) => other == value && value > 3,
            },
    {
        match value {
            0 => Ok(Readiness::Booting),
            1 => Ok(Readiness::Restoring),
            2 => Ok(Readiness::Ready),
            3 => Ok(Readiness::Halted),
            other => Err(other),
        }
    }

    /// Lowercase wire name.
    pub fn as_str(self) -> (r: &'static str)
        ensures
            r@ == self.name(),
    {
        match self {
            Readiness::Booting => "booting",
            Readiness::Restoring => "restoring",
            Readiness::Ready => "ready",
            Readiness::Halted => "halted",
        }
    }
}

/// Readiness gate consulted before every admission.
pub struct ReadinessGate {
    state: Readiness,
    state_reason: String,
    halted_reason: String,
}

impl ReadinessGate {
    /// The state that admission is checked against.
    pub closed spec fn state(&self) -> Readiness {
        self.state
    }

    /// The reason given at the move to the current state.
    pub closed spec fn reason(&self) -> Seq<char> {
        self.state_reason@
    }

    /// The reason given at the last halt.
    pub closed spec fn halted_for(&self) -> Seq<char> {
        self.halted_reason@
    }

    /// Creates a gate in [`Readiness::Booting`].
    pub fn new() -> (r: Self)
        ensures
            r.state() == Readiness::Booting,
            r.reason() == Seq::<char>::empty(),
            r.halted_for() == Seq::<char>::empty(),
    {
        ReadinessGate {
            state: Readiness::Booting,
            state_reason: String::new(),
            halted_reason: String::new(),
        }
    }

    /// Current readiness.
    pub fn get(&self) -> (r: Readiness)
        ensures
            r == self.state(),
    {
        self.state
    }

    /// Whether new order admission is permitted: in `READY` and in no other
    /// state.
    pub fn is_admissible(&self) -> (r: bool)
        ensures
            r == (self.state() == Readiness::Ready),
    {
        self.state == Readiness::Ready
    }

    /// Moves to `state` for a reason; `HALTED` records it as the halt reason too.
    pub fn set(&mut self, state: Readiness, reason: &str)
        ensures
            final(self).state() == state,
            final(self).reason() == reason@,
            final(self).halted_for() == (if state == Readiness::Halted {
                reason@
            } else {
                old(self).halted_for()
            }),
    {
        self.state = state;
        self.state_reason = reason.to_owned();
        if state == Readiness::Halted {
            self.halted_reason = reason.to_owned();
        }
    }

    /// Why the hub is in its current state; empty if no reason was given.
    pub fn current_reason(&self) -> (r: String)
        ensures
            r@ == self.reason(),
    {
        self.state_reason.clone()
    }

    /// The reason recorded by the last halt; empty before the first one.
    pub fn halt_reason(&self) -> (r: String)
        ensures
            r@ == self.halted_for(),
    {
        self.halted_reason.clone()
    }
}

/// Stored numbers and states correspond one to one.
pub proof fn law_stored_numbers_are_distinct(a: Readiness, b: Readiness)
    requires
        a.code() == b.code(),
    ensures
        a == b,
{
}

} // verus!
