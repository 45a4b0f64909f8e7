//! How many users moved from one spam score to another.
use crate::spam_score::SpamScore;
use vstd::prelude::*;
use vstd::std_specs::convert::FromSpecImpl;
use vstd::std_specs::convert::TryFromSpecImpl;

verus! {

/// The spam score a user moved from; `New` for a user that had no score yet.
#[derive(Clone, Copy, PartialEq, Eq, Structural, Debug, Hash)]
pub enum ShiftSource {
    Zero,
    One,
    Two,
    New,
}

/// The spam score a user moved to.
#[derive(Clone, Copy, PartialEq, Eq, Structural, Debug, Hash)]
pub enum ShiftTarget {
    Zero,
    One,
    Two,
    Removed,
}

/// A move from a source to a target spam score, and how many users made it.
#[derive(Clone, Copy, PartialEq, Debug, Hash, Eq, Structural)]
pub struct FidScoreShift {
    source: ShiftSource,
    target: ShiftTarget,
    count: usize,
}

/// Error of a number that names no shift, source or target.
#[derive(Debug, Clone, Copy, PartialEq, Eq, Structural)]
pub struct InvalidNumberError;

/// The number of a shift source: 0, 1, 2, or 3 for `New`.
pub open spec fn source_number(s: ShiftSource) -> int {
    match s {
        ShiftSource::Zero => 0,
        ShiftSource::One => 1,
        ShiftSource::Two => 2,
        ShiftSource::New => 3,
    }
}

/// The number of a shift target: 0, 1, 2, or 3 for `Removed`.
pub open spec fn target_number(t: ShiftTarget) -> int {
    match t {
        ShiftTarget::Zero => 0,
        ShiftTarget::One => 1,
        ShiftTarget::Two => 2,
        ShiftTarget::Removed => 3,
    }
}

/// The shift source with number `n`, if there is one.
pub open spec fn source_of_number(n: int) -> Option<ShiftSource> {
    if n == 0 {
        Some(ShiftSource::Zero)
    } else if n == 1 {
        Some(ShiftSource::One)
    } else if n == 2 {
        Some(ShiftSource::Two)
    } else if n == 3 {
        Some(ShiftSource::New)
    } else {
        None
    }
}

/// The shift target with number `n`, if there is one.
pub open spec fn target_of_number(n: int) -> Option<ShiftTarget> {
    if n == 0 {
        Some(ShiftTarget::Zero)
    } else if n == 1 {
        Some(ShiftTarget::One)
    } else if n == 2 {
        Some(ShiftTarget::Two)
    } else if n == 3 {
        Some(ShiftTarget::Removed)
    } else {
        None
    }
}

/// The index of a move between scores: three per source, in the order of the sources and then
/// of the targets; moves to `Removed` have none.
pub open spec fn shift_index(source: ShiftSource, target: ShiftTarget) -> Option<int> {
    if target == ShiftTarget::Removed {
        None
    } else {
        Some(source_number(source) * 3 + target_number(target))
    }
}

/// The move with index `i`, for `0 <= i < 12`.
pub open spec fn shift_of_index(i: int) -> Option<(ShiftSource, ShiftTarget)> {
    if 0 <= i < 12 {
        Some((source_of_number(i / 3).unwrap(), target_of_number(i % 3).unwrap()))
    } else {
        None
    }
}

impl FidScoreShift {
    pub closed spec fn spec_source(self) -> ShiftSource {
        self.source
    }

    pub closed spec fn spec_target(self) -> ShiftTarget {
        self.target
    }

    pub closed spec fn spec_count(self) -> usize {
        self.count
    }

    pub fn new(source: ShiftSource, target: ShiftTarget, count: usize) -> (r: Self)
        ensures
            r.spec_source() == source,
            r.spec_target() == target,
            r.spec_count() == count,
    {
        FidScoreShift { source, target, count }
    }

    pub fn source(&self) -> (r: ShiftSource)
        ensures
            r == self.spec_source(),
    {
        self.source
    }

    /// Count one more user.
    pub fn add(&mut self)
        requires
            old(self).spec_count() < usize::MAX,
        ensures
            final(self).spec_source() == old(self).spec_source(),
            final(self).spec_target() == old(self).spec_target(),
            final(self).spec_count() == old(self).spec_count() + 1,
    {
        self.count = self.count + 1;
    }

    pub fn target(&self) -> (r: ShiftTarget)
        ensures
            r == self.spec_target(),
    {
        self.target
    }

    pub fn count(&self) -> (r: usize)
        ensures
            r == self.spec_count(),
    {
        self.count
    }

    /// Count one more user.
    pub fn increment(&mut self)
        requires
            old(self).spec_count() < usize::MAX,
        ensures
            final(self).spec_source() == old(self).spec_source(),
            final(self).spec_target() == old(self).spec_target(),
            final(self).spec_count() == old(self).spec_count() + 1,
    {
        self.count = self.count + 1;
    }

    /// The move with index `value` (see [`shift_index`]), with a count of zero.
    pub fn from_index(value: usize) -> (r: Result<FidScoreShift, InvalidNumberError>)
        ensures
            r is Ok <==> value < 12,
            r matches Ok(s) ==> Some((s.spec_source(), s.spec_target())) == shift_of_index(
                value as int,
            ) && s.spec_count() == 0,
    {
        match value {
            0 => Ok(FidScoreShift::new(ShiftSource::Zero, ShiftTarget::Zero, 0)),
            1 => Ok(FidScoreShift::new(ShiftSource::Zero, ShiftTarget::One, 0)),
            2 => Ok(FidScoreShift::new(ShiftSource::Zero, ShiftTarget::Two, 0)),
            3 => Ok(FidScoreShift::new(ShiftSource::One, ShiftTarget::Zero, 0)),
            4 => Ok(FidScoreShift::new(ShiftSource::One, ShiftTarget::One, 0)),
            5 => Ok(FidScoreShift::new(ShiftSource::One, ShiftTarget::Two, 0)),
            6 => Ok(FidScoreShift::new(ShiftSource::Two, ShiftTarget::Zero, 0)),
            7 => Ok(FidScoreShift::new(ShiftSource::Two, ShiftTarget::One, 0)),
            8 => Ok(FidScoreShift::new(ShiftSource::Two, ShiftTarget::Two, 0)),
            9 => Ok(FidScoreShift::new(ShiftSource::New, ShiftTarget::Zero, 0)),
            10 => Ok(FidScoreShift::new(ShiftSource::New, ShiftTarget::One, 0)),
            11 => Ok(FidScoreShift::new(ShiftSource::New, ShiftTarget::Two, 0)),
            _ => Err(InvalidNumberError),
        }
    }

    /// The index of the move (see [`shift_index`]); an error for a move to `Removed`.
    pub fn index(&self) -> (r: Result<usize, InvalidNumberError>)
        ensures
            r is Ok <==> shift_index(self.spec_source(), self.spec_target()) is Some,
            r matches Ok(i) ==> Some(i as int) == shift_index(
                self.spec_source(),
                self.spec_target(),
            ),
    {
        match (self.source, self.target) {
            (ShiftSource::Zero, ShiftTarget::Zero) => Ok(0),
            (ShiftSource::Zero, ShiftTarget::One) => Ok(1),
            (ShiftSource::Zero, ShiftTarget::Two) => Ok(2),
            (ShiftSource::One, ShiftTarget::Zero) => Ok(3),
            (ShiftSource::One, ShiftTarget::One) => Ok(4),
            (ShiftSource::One, ShiftTarget::Two) => Ok(5),
            (ShiftSource::Two, ShiftTarget::Zero) => Ok(6),
            (ShiftSource::Two, ShiftTarget::One) => Ok(7),
            (ShiftSource::Two, ShiftTarget::Two) => Ok(8),
            (ShiftSource::New, ShiftTarget::Zero) => Ok(9),
            (ShiftSource::New, ShiftTarget::One) => Ok(10),
            (ShiftSource::New, ShiftTarget::Two) => Ok(11),
            _ => Err(InvalidNumberError),
        }
    }
}

impl TryFrom<usize> for FidScoreShift {
    type Error = InvalidNumberError;

    fn try_from(value: usize) -> (r: Result<Self, InvalidNumberError>)
        ensures
            r is Ok <==> value < 12,
            r matches Ok(s) ==> Some((s.spec_source(), s.spec_target())) == shift_of_index(
                value as int,
            ) && s.spec_count() == 0,
    {
        FidScoreShift::from_index(value)
    }
}

impl TryFromSpecImpl<usize> for FidScoreShift {
    /// The conversion is stated by the `ensures` of `try_from` itself.
    open spec fn obeys_try_from_spec() -> bool {
        false
    }

    open spec fn try_from_spec(v: usize) -> Result<FidScoreShift, InvalidNumberError> {
        arbitrary()
    }
}

impl TryFrom<FidScoreShift> for usize {
    type Error = InvalidNumberError;

    fn try_from(value: FidScoreShift) -> (r: Result<usize, InvalidNumberError>)
        ensures
            r is Ok <==> shift_index(value.spec_source(), value.spec_target()) is Some,
            r matches Ok(i) ==> Some(i as int) == shift_index(
                value.spec_source(),
                value.spec_target(),
            ),
    {
        value.index()
    }
}

impl TryFromSpecImpl<FidScoreShift> for usize {
    /// The conversion is stated by the `ensures` of `try_from` itself.
    open spec fn obeys_try_from_spec() -> bool {
        false
    }

    open spec fn try_from_spec(v: FidScoreShift) -> Result<usize, InvalidNumberError> {
        arbitrary()
    }
}

impl TryFrom<u8> for ShiftSource {
    type Error = InvalidNumberError;

    fn try_from(value: u8) -> (r: Result<Self, InvalidNumberError>) {
        match value {
            0 => Ok(ShiftSource::Zero),
            1 => Ok(ShiftSource::One),
            2 => Ok(ShiftSource::Two),
            3 => Ok(ShiftSource::New),
            _ => Err(InvalidNumberError),
        }
    }
}

impl TryFromSpecImpl<u8> for ShiftSource {
    open spec fn obeys_try_from_spec() -> bool {
        true
    }

    open spec fn try_from_spec(v: u8) -> Result<ShiftSource, InvalidNumberError> {
        match source_of_number(v as int) {
            Some(s) => Ok(s),
            None => Err(InvalidNumberError),
        }
    }
}

impl TryFrom<u8> for ShiftTarget {
    type Error = InvalidNumberError;

    fn try_from(value: u8) -> (r: Result<Self, InvalidNumberError>) {
        match value {
            0 => Ok(ShiftTarget::Zero),
            1 => Ok(ShiftTarget::One),
            2 => Ok(ShiftTarget::Two),
            3 => Ok(ShiftTarget::Removed),
            _ => Err(InvalidNumberError),
        }
    }
}

impl TryFromSpecImpl<u8> for ShiftTarget {
    open spec fn obeys_try_from_spec() -> bool {
        true
    }

    open spec fn try_from_spec(v: u8) -> Result<ShiftTarget, InvalidNumberError> {
        match target_of_number(v as int) {
            Some(t) => Ok(t),
            None => Err(InvalidNumberError),
        }
    }
}

/// The shift source of a spam score.
pub open spec fn source_of_score(s: SpamScore) -> ShiftSource {
    match s {
        SpamScore::Zero => ShiftSource::Zero,
        SpamScore::One => ShiftSource::One,
        SpamScore::Two => ShiftSource::Two,
    }
}

/// The shift target of a spam score.
pub open spec fn target_of_score(s: SpamScore) -> ShiftTarget {
    match s {
        SpamScore::Zero => ShiftTarget::Zero,
        SpamScore::One => ShiftTarget::One,
        SpamScore::Two => ShiftTarget::Two,
    }
}

impl From<SpamScore> for ShiftSource {
    fn from(value: SpamScore) -> (r: Self) {
        match value {
            SpamScore::Zero => ShiftSource::Zero,
            SpamScore::One => ShiftSource::One,
            SpamScore::Two => ShiftSource::Two,
        }
    }
}

impl FromSpecImpl<SpamScore> for ShiftSource {
    open spec fn obeys_from_spec() -> bool {
        true
    }

    open spec fn from_spec(v: SpamScore) -> ShiftSource {
        source_of_score(v)
    }
}

impl From<SpamScore> for ShiftTarget {
    fn from(value: SpamScore) -> (r: Self) {
        match value {
            SpamScore::Zero => ShiftTarget::Zero,
            SpamScore::One => ShiftTarget::One,
            SpamScore::Two => ShiftTarget::Two,
        }
    }
}

impl FromSpecImpl<SpamScore> for ShiftTarget {
    open spec fn obeys_from_spec() -> bool {
        true
    }

    open spec fn from_spec(v: SpamScore) -> ShiftTarget {
        target_of_score(v)
    }
}

/// The index of a move and the move at an index undo each other: every index below twelve
/// names one move, whose index it is, and every move to a score has an index below twelve
/// that names it.
pub proof fn lemma_shift_index_roundtrip(i: int, source: ShiftSource, target: ShiftTarget)
    ensures
        0 <= i < 12 ==> ({
            let (s, t) = shift_of_index(i).unwrap();
            shift_index(s, t) == Some(i)
        }),
        target != ShiftTarget::Removed ==> ({
            let j = shift_index(source, target).unwrap();
            &&& 0 <= j < 12
            &&& shift_of_index(j) == Some((source, target))
        }),
{
}

/// A move between two scores is numbered by its scores: the move from score `s` to score `t`
/// has index `3 * s + t` (with the numbers of the scores) and the move from no score to `t` has
/// index `9 + t`; each of these indices names that move, and no other index below twelve is
/// a move's.
pub proof fn lemma_shift_index_of_scores(s: SpamScore, t: SpamScore)
    ensures
        shift_index(source_of_score(s), target_of_score(t)) == Some(3 * s.spec_number()
            + t.spec_number()),
        shift_of_index(3 * s.spec_number() + t.spec_number()) == Some(
            (source_of_score(s), target_of_score(t)),
        ),
        shift_index(ShiftSource::New, target_of_score(t)) == Some(9 + t.spec_number()),
        shift_of_index(9 + t.spec_number()) == Some((ShiftSource::New, target_of_score(t))),
{
}

} // verus!
