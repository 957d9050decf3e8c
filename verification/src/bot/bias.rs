//! A taker's directional bias and how it rotates.
use crate::constants::TICKER_STATE_CYCLE;
use crate::decimal::Dec;
use crate::utils::maths::random_number;
use vstd::prelude::*;
use vstd::string::StringExecFns;

verus! {

/// Which way a taker leans: the bias sets the chance of a buy and the share of
/// the balance each side spends.
#[derive(Clone, Copy, Debug, PartialEq, Eq, Structural)]
pub enum Bias {
    Bullish,
    Bearish,
    Neutral,
}

/// The bias a draw of 1, 2 or 3 names.
pub open spec fn to_bias_spec(n: u8) -> Option<Bias> {
    if n == 1 {
        Some(Bias::Bearish)
    } else if n == 2 {
        Some(Bias::Bullish)
    } else if n == 3 {
        Some(Bias::Neutral)
    } else {
        None
    }
}

/// The bias a draw names, bullish for a draw that names none.
pub open spec fn bias_for_draw(n: u8) -> Bias {
    match to_bias_spec(n) {
        Some(b) => b,
        None => Bias::Bullish,
    }
}

impl Bias {
    /// The chance of a buy: 0.7 bullish, 0.5 neutral, 0.3 bearish.
    pub open spec fn buy_chance(self) -> (int, nat) {
        match self {
            Bias::Bearish => (3, 1),
            Bias::Bullish => (7, 1),
            Bias::Neutral => (5, 1),
        }
    }

    /// The share of the quote balance a buy spends, from and to.
    pub open spec fn buy_size_spec(self) -> ((int, nat), (int, nat)) {
        match self {
            Bias::Bullish => ((6, 1), (10, 1)),
            Bias::Neutral => ((3, 1), (6, 1)),
            Bias::Bearish => ((1, 1), (3, 1)),
        }
    }

    /// The share of the base balance's worth a sell spends, from and to.
    pub open spec fn sell_size_spec(self) -> ((int, nat), (int, nat)) {
        match self {
            Bias::Bullish => ((1, 1), (3, 1)),
            Bias::Neutral => ((3, 1), (6, 1)),
            Bias::Bearish => ((6, 1), (10, 1)),
        }
    }

    /// The chance of a buy under this bias.
    pub fn to_dec(&self) -> (d: Dec)
        ensures
            d@ == self.buy_chance(),
    {
        match self {
            Bias::Bearish => Dec::new(3, 1),
            Bias::Bullish => Dec::new(7, 1),
            Bias::Neutral => Dec::new(5, 1),
        }
    }

    /// The bias a number names: 1 bearish, 2 bullish, 3 neutral.
    pub fn to_bias(n: u8) -> (r: Option<Bias>)
        ensures
            r == to_bias_spec(n),
    {
        if n == 1 {
            Some(Bias::Bearish)
        } else if n == 2 {
            Some(Bias::Bullish)
        } else if n == 3 {
            Some(Bias::Neutral)
        } else {
            None
        }
    }

    /// The bias a draw names, bullish for a draw that names none.
    pub fn for_draw(n: u8) -> (b: Bias)
        ensures
            b == bias_for_draw(n),
    {
        match Bias::to_bias(n) {
            Some(b) => b,
            None => Bias::Bullish,
        }
    }

    /// A bias drawn at random among the three.
    pub fn random_bias() -> (b: Bias)
        ensures
            exists|n: u8| 1 <= n <= 3 && to_bias_spec(n) == Some(b),
    {
        let num = random_number(1, 3);
        let n = num as u8;
        assert(to_bias_spec(n) is Some);
        Bias::for_draw(n)
    }

    /// The share of the quote balance a buy spends: from 0.6 to 1.0 bullish,
    /// 0.3 to 0.6 neutral, 0.1 to 0.3 bearish.
    pub fn buy_size(&self) -> (r: (Dec, Dec))
        ensures
            (r.0@, r.1@) == self.buy_size_spec(),
    {
        match self {
            Bias::Bullish => (Dec::new(6, 1), Dec::new(10, 1)),
            Bias::Neutral => (Dec::new(3, 1), Dec::new(6, 1)),
            Bias::Bearish => (Dec::new(1, 1), Dec::new(3, 1)),
        }
    }

    /// The share of the base balance's worth a sell spends: from 0.1 to 0.3
    /// bullish, 0.3 to 0.6 neutral, 0.6 to 1.0 bearish.
    pub fn sell_size(&self) -> (r: (Dec, Dec))
        ensures
            (r.0@, r.1@) == self.sell_size_spec(),
    {
        match self {
            Bias::Bullish => (Dec::new(1, 1), Dec::new(3, 1)),
            Bias::Neutral => (Dec::new(3, 1), Dec::new(6, 1)),
            Bias::Bearish => (Dec::new(6, 1), Dec::new(10, 1)),
        }
    }

    /// The bias's name.
    pub fn to_string(&self) -> (s: String)
        ensures
            s@ == (match self {
                Bias::Bearish => "Bearish"@,
                Bias::Bullish => "Bullish"@,
                Bias::Neutral => "Neutral"@,
            }),
    {
        match self {
            Bias::Bearish => String::from_str("Bearish"),
            Bias::Bullish => String::from_str("Bullish"),
            Bias::Neutral => String::from_str("Neutral"),
        }
    }
}

/// A taker's bias and the cycles left before it is drawn again.
#[derive(Clone, Copy, Debug)]
pub struct TakerState {
    pub bias: Bias,
    pub remaining_cycle: u8,
}

impl TakerState {
    /// The state after one full cycle: with no cycles left, the bias is drawn
    /// again (from `draw`) and the count restarts; otherwise one cycle less.
    pub open spec fn rotated(self, draw: u8) -> TakerState {
        if self.remaining_cycle == 0 {
            TakerState { bias: bias_for_draw(draw), remaining_cycle: TICKER_STATE_CYCLE }
        } else {
            TakerState { bias: self.bias, remaining_cycle: (self.remaining_cycle - 1) as u8 }
        }
    }

    /// A fresh state: the bias that `draw` names, held for the full count of
    /// cycles.
    pub fn with_draw(draw: u8) -> (s: TakerState)
        ensures
            s == (TakerState { bias: bias_for_draw(draw), remaining_cycle: TICKER_STATE_CYCLE }),
    {
        TakerState { bias: Bias::for_draw(draw), remaining_cycle: TICKER_STATE_CYCLE }
    }

    /// Counts one full cycle, drawing a new bias from `draw` when none is left.
    pub fn rotate(&mut self, draw: u8)
        ensures
            *final(self) == old(self).rotated(draw),
    {
        if self.remaining_cycle == 0 {
            self.bias = Bias::for_draw(draw);
            self.remaining_cycle = TICKER_STATE_CYCLE;
        } else {
            self.remaining_cycle = self.remaining_cycle - 1;
        }
    }
}

impl Default for TakerState {
    /// A random bias, held for the full count of cycles.
    fn default() -> (s: TakerState)
        ensures
            s.remaining_cycle == TICKER_STATE_CYCLE,
            exists|n: u8| 1 <= n <= 3 && to_bias_spec(n) == Some(s.bias),
    {
        TakerState { bias: Bias::random_bias(), remaining_cycle: TICKER_STATE_CYCLE }
    }
}

/// Rotation counts down: a state with cycles left keeps its bias and has one
/// cycle less; a state with none left gets the full count back.
pub proof fn law_rotation(s: TakerState, draw: u8)
    ensures
        s.remaining_cycle > 0 ==> s.rotated(draw).bias == s.bias && s.rotated(draw).remaining_cycle
            == s.remaining_cycle - 1,
        s.remaining_cycle == 0 ==> s.rotated(draw).remaining_cycle == TICKER_STATE_CYCLE,
        s.remaining_cycle == 0 && to_bias_spec(draw) is Some ==> Some(s.rotated(draw).bias)
            == to_bias_spec(draw),
{
}

} // verus!
