use vstd::prelude::*;

verus! {

/// Describes a cutoff event.
#[derive(Clone, Copy, Debug, PartialEq, Eq, Structural)]
pub enum Cutoff {
    /// No value was cut off.
    Neither,
    /// An alpha cutoff was observed.
    Alpha,
    /// A beta cutoff was observed.
    Beta,
}

/// A score, counted in tenths of a health point, or one of the two
/// infinities that bound every score.
#[derive(Clone, Copy, Debug, PartialEq, Eq, Structural)]
pub enum Score {
    /// Below every finite score.
    NegInfinity,
    /// A number of tenths of a health point.
    Finite(i128),
    /// Above every finite score.
    Infinity,
}

impl Score {
    /// The position of the score on the integer line. Scores are ordered
    /// by this number.
    pub open spec fn key(self) -> int {
        match self {
            Score::NegInfinity => i128::MIN - 1,
            Score::Finite(tenths) => tenths as int,
            Score::Infinity => i128::MAX + 1,
        }
    }

    /// Whether the score is a number rather than an infinity.
    pub open spec fn finite(self) -> bool {
        self is Finite
    }

    /// The larger of two scores; the first one on a tie.
    pub open spec fn spec_max(self, other: Score) -> Score {
        if other.key() > self.key() {
            other
        } else {
            self
        }
    }

    /// The smaller of two scores; the first one on a tie.
    pub open spec fn spec_min(self, other: Score) -> Score {
        if other.key() < self.key() {
            other
        } else {
            self
        }
    }

    /// Returns `true` unless the score is an infinity.
    pub fn is_finite(&self) -> (finite: bool)
        ensures
            finite == self.finite(),
    {
        match self {
            Score::Finite(_) => true,
            _ => false,
        }
    }

    /// Returns `true` if the score is below zero.
    pub fn is_negative(&self) -> (negative: bool)
        ensures
            negative == (self.key() < 0),
    {
        match self {
            Score::NegInfinity => true,
            Score::Finite(tenths) => *tenths < 0,
            Score::Infinity => false,
        }
    }

    /// Returns `true` if this score is strictly below the other.
    pub fn lt(&self, other: &Score) -> (below: bool)
        ensures
            below == (self.key() < other.key()),
    {
        match (self, other) {
            (Score::NegInfinity, Score::NegInfinity) => false,
            (Score::NegInfinity, _) => true,
            (Score::Finite(_), Score::NegInfinity) => false,
            (Score::Finite(a), Score::Finite(b)) => *a < *b,
            (Score::Finite(_), Score::Infinity) => true,
            (Score::Infinity, _) => false,
        }
    }

    /// Returns `true` if this score is below or equal to the other.
    pub fn le(&self, other: &Score) -> (below: bool)
        ensures
            below == (self.key() <= other.key()),
    {
        !other.lt(self)
    }

    /// Returns the larger of the two scores.
    pub fn max(self, other: Score) -> (larger: Score)
        ensures
            larger == self.spec_max(other),
    {
        if self.lt(&other) {
            other
        } else {
            self
        }
    }

    /// Returns the smaller of the two scores.
    pub fn min(self, other: Score) -> (smaller: Score)
        ensures
            smaller == self.spec_min(other),
    {
        if other.lt(&self) {
            other
        } else {
            self
        }
    }
}

/// A terminal state.
#[derive(Clone, Copy, Debug)]
pub enum TerminalState {
    /// The maximizing player wins.
    Win(Score),
    /// The maximizing player loses.
    Defeat(Score),
    /// The player remained after the other player retreated.
    Remain(Score),
    /// The player retreated.
    Retreat(Score),
    /// No clear decision can be made.
    Heuristic(Score),
    /// The branch is unexplored and has a default value.
    OpenUnexplored(Score),
}

impl TerminalState {
    /// The score that the state carries.
    pub open spec fn score(self) -> Score {
        match self {
            TerminalState::Win(score) => score,
            TerminalState::Defeat(score) => score,
            TerminalState::Remain(score) => score,
            TerminalState::Retreat(score) => score,
            TerminalState::Heuristic(score) => score,
            TerminalState::OpenUnexplored(score) => score,
        }
    }

    /// The position of the state's score on the integer line.
    pub open spec fn key(self) -> int {
        self.score().key()
    }

    /// Whether the state's score is a number rather than an infinity.
    pub open spec fn finite(self) -> bool {
        self.score().finite()
    }

    /// The sign that each kind of state owes: a win and a stand against a
    /// retreating opponent never score below zero, a defeat and a retreat
    /// never above, and an estimate never below.
    pub open spec fn sign_respected(self) -> bool {
        match self {
            TerminalState::Win(score) => score.finite() && score.key() >= 0,
            TerminalState::Remain(score) => score.finite() && score.key() >= 0,
            TerminalState::Defeat(score) => score.finite() && score.key() <= 0,
            TerminalState::Retreat(score) => score.finite() && score.key() <= 0,
            TerminalState::Heuristic(score) => score.finite() && score.key() >= 0,
            TerminalState::OpenUnexplored(_) => false,
        }
    }

    /// Returns the score of the state.
    pub fn value(&self) -> (score: Score)
        ensures
            score == self.score(),
    {
        match self {
            TerminalState::Win(value) => *value,
            TerminalState::Defeat(value) => *value,
            TerminalState::Remain(value) => *value,
            TerminalState::Retreat(value) => *value,
            TerminalState::Heuristic(value) => *value,
            TerminalState::OpenUnexplored(value) => *value,
        }
    }

    /// Returns `true` if the score is below zero.
    pub fn is_negative(&self) -> (negative: bool)
        ensures
            negative == (self.key() < 0),
    {
        self.value().is_negative()
    }

    /// Returns `true` unless the score is an infinity.
    pub fn is_finite(&self) -> (finite: bool)
        ensures
            finite == self.finite(),
    {
        self.value().is_finite()
    }

    /// Returns `true` if this state scores strictly below the other.
    pub fn lt(&self, other: &TerminalState) -> (below: bool)
        ensures
            below == (self.key() < other.key()),
    {
        self.value().lt(&other.value())
    }

    /// Returns `true` if this state scores strictly above the other.
    pub fn gt(&self, other: &TerminalState) -> (above: bool)
        ensures
            above == (self.key() > other.key()),
    {
        other.value().lt(&self.value())
    }
}

/// Two states are equal when their scores are, whatever their kinds.
impl PartialEq for TerminalState {
    fn eq(&self, other: &Self) -> (equal: bool) {
        let a = self.value();
        let b = other.value();
        !a.lt(&b) && !b.lt(&a)
    }
}

impl vstd::std_specs::cmp::PartialEqSpecImpl for TerminalState {
    open spec fn obeys_eq_spec() -> bool {
        true
    }

    open spec fn eq_spec(&self, other: &Self) -> bool {
        self.key() == other.key()
    }
}

/// A value triplet in Alpha-Beta pruning.
#[derive(Clone, Copy, Debug)]
pub struct Value {
    /// The current value. This value lies between `alpha`, the lowest
    /// guaranteed value, and `beta`, the highest possible value.
    pub value: TerminalState,
    /// The lower bound, i.e. the lowest `value` that can be reached by a
    /// minimizing player.
    pub alpha: Score,
    /// The upper bound, i.e. the highest `value` that can be reached by a
    /// maximizing player.
    pub beta: Score,
}

impl Value {
    /// Whether the current score is a number at or below the lower bound.
    pub open spec fn alpha_cutoff(self) -> bool {
        self.value.finite() && self.value.key() <= self.alpha.key()
    }

    /// Whether the current score is a number at or above the upper bound.
    pub open spec fn beta_cutoff(self) -> bool {
        self.value.finite() && self.value.key() >= self.beta.key()
    }

    /// Initializes a new value with default alpha and beta bounds.
    pub fn new(value: TerminalState) -> (triplet: Self)
        ensures
            triplet == (Value { value, alpha: Score::NegInfinity, beta: Score::Infinity }),
    {
        Self::new_with(Score::NegInfinity, value, Score::Infinity)
    }

    /// Initializes a new value with provided alpha and beta bounds.
    pub fn new_with(alpha: Score, value: TerminalState, beta: Score) -> (triplet: Self)
        ensures
            triplet == (Value { value, alpha, beta }),
    {
        Self { alpha, value, beta }
    }

    /// Creates a new instance, overwriting the current value and keeping
    /// the bounds.
    pub fn with_value(&self, value: TerminalState) -> (triplet: Self)
        ensures
            triplet == (Value { value, alpha: self.alpha, beta: self.beta }),
    {
        Self::new_with(self.alpha, value, self.beta)
    }

    /// Tests whether the current score results in an alpha cutoff.
    pub fn is_alpha_cutoff(&self) -> (cutoff: bool)
        ensures
            cutoff == self.alpha_cutoff(),
    {
        self.value.is_finite() && self.value.value().le(&self.alpha)
    }

    /// Tests whether the current score results in a beta cutoff.
    ///
    /// A beta cutoff happens when a maximizer node finds a value that is
    /// at least the current beta value. Since the beta value resembles the
    /// highest value the parent minimizer node will allow, the search in
    /// this branch can be stopped.
    pub fn is_beta_cutoff(&self) -> (cutoff: bool)
        ensures
            cutoff == self.beta_cutoff(),
    {
        self.value.is_finite() && self.beta.le(&self.value.value())
    }
}

} // verus!
