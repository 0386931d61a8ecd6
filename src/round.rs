use vstd::prelude::*;

verus! {

/// 2 to the 128th power: the weight of the high half of a [`Word256`].
pub open spec fn half_base() -> nat {
    0x1_0000_0000_0000_0000_0000_0000_0000_0000nat
}

/// An unsigned 256-bit integer, held as two 128-bit halves.
#[derive(Debug, Clone, Copy, PartialEq, Eq, Structural)]
pub struct Word256 {
    pub hi: u128,
    pub lo: u128,
}

impl Word256 {
    /// The number this word stands for.
    pub open spec fn value(self) -> nat {
        self.hi as nat * half_base() + self.lo as nat
    }

    /// A word that holds a number below 2^128.
    pub fn from_u128(lo: u128) -> (w: Word256)
        ensures
            w.value() == lo as nat,
    {
        Word256 { hi: 0, lo }
    }
}

/// What a [`Round`] says, as mathematical values.
pub struct RoundView {
    pub identifier: Seq<char>,
    pub round_id: nat,
    pub answered_in_round: nat,
    pub started_at: nat,
    pub updated_at: nat,
    pub answer: nat,
    pub decimals: nat,
}

/// One price observation of a feed, as the oracle contract reported it.
///
/// The price is `answer / 10^decimals`; both parts are kept as integers.
#[derive(Debug, Clone, PartialEq, Eq)]
pub struct Round {
    /// Identifier of the feed that was read.
    pub identifier: String,
    /// Id of the aggregator's submission.
    pub round_id: u128,
    /// Round in which the answer was computed.
    pub answered_in_round: u128,
    /// When the aggregator started collecting data.
    pub started_at: Word256,
    /// When the aggregator posted the answer.
    pub updated_at: Word256,
    /// The answer, scaled by `10^decimals`.
    pub answer: u128,
    /// How many decimal places `answer` carries.
    pub decimals: u8,
}

impl View for Round {
    type V = RoundView;

    open spec fn view(&self) -> RoundView {
        RoundView {
            identifier: self.identifier@,
            round_id: self.round_id as nat,
            answered_in_round: self.answered_in_round as nat,
            started_at: self.started_at.value(),
            updated_at: self.updated_at.value(),
            answer: self.answer as nat,
            decimals: self.decimals as nat,
        }
    }
}

} // verus!
