//! The recommendation vocabulary of an analysis.

use vstd::prelude::*;

verus! {

/// What the advisor recommends.
#[derive(Debug, Clone, Copy, PartialEq, Eq)]
pub enum Action {
    Buy,
    Sell,
    Hold,
}

impl Action {
    /// The lowercase word for the action, as stored and serialised.
    pub open spec fn label_spec(self) -> Seq<char> {
        match self {
            Action::Buy => "buy"@,
            Action::Sell => "sell"@,
            Action::Hold => "hold"@,
        }
    }

    /// The lowercase word for the action, as stored and serialised.
    pub fn label(&self) -> (s: &'static str)
        ensures
            s@ == self.label_spec(),
    {
        match self {
            Action::Buy => "buy",
            Action::Sell => "sell",
            Action::Hold => "hold",
        }
    }
}

/// How far ahead a recommendation looks.
#[derive(Debug, Clone, Copy, PartialEq, Eq)]
pub enum Horizon {
    H1,
    H4,
    D1,
    D3,
    W1,
}

impl Horizon {
    /// The length of the horizon in seconds.
    pub open spec fn seconds_spec(self) -> int {
        match self {
            Horizon::H1 => 3600int,
            Horizon::H4 => 14_400int,
            Horizon::D1 => 86_400int,
            Horizon::D3 => 259_200int,
            Horizon::W1 => 604_800int,
        }
    }

    /// The length of the horizon in seconds.
    pub fn seconds(&self) -> (s: i64)
        ensures
            s == self.seconds_spec(),
    {
        match self {
            Horizon::H1 => 3600,
            Horizon::H4 => 4 * 3600,
            Horizon::D1 => 86_400,
            Horizon::D3 => 3 * 86_400,
            Horizon::W1 => 7 * 86_400,
        }
    }

    /// The position of the horizon among `1h < 4h < 1d < 3d < 1w`.
    pub open spec fn rank(self) -> int {
        match self {
            Horizon::H1 => 0,
            Horizon::H4 => 1,
            Horizon::D1 => 2,
            Horizon::D3 => 3,
            Horizon::W1 => 4,
        }
    }
}

/// A longer horizon is a longer span of time: every horizon is positive and
/// the lengths grow strictly from `1h` to `1w`.
pub proof fn lemma_horizons_ordered(a: Horizon, b: Horizon)
    ensures
        a.seconds_spec() > 0,
        a.rank() < b.rank() <==> a.seconds_spec() < b.seconds_spec(),
{
}

/// A document passage that an analysis relies on.
#[derive(Debug, Clone, PartialEq)]
pub struct Citation {
    pub doc: String,
    pub page: Option<u32>,
}

} // verus!
