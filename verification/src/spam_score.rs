//! Spam scores (the warpcast spam labels) and counts of them.
use crate::dated::Dated;
use crate::date::Date;
use vstd::prelude::*;
use vstd::std_specs::convert::FromSpec;
use vstd::std_specs::convert::FromSpecImpl;
use vstd::std_specs::convert::TryFromSpecImpl;
use vstd::string::StrSliceExecFns;
use vstd::string::StringSliceAdditionalSpecFns;
use vstd::utf8::encode_utf8;

verus! {

/// The spam label of a user: zero is spam, one is maybe spam and two is not spam.
#[derive(Debug, Clone, Copy, PartialEq, Eq, Structural, Hash)]
pub enum SpamScore {
    Zero,
    One,
    Two,
}

impl SpamScore {
    /// The number of the label: 0, 1 or 2.
    pub open spec fn spec_number(self) -> int {
        match self {
            SpamScore::Zero => 0,
            SpamScore::One => 1,
            SpamScore::Two => 2,
        }
    }

    /// The number of the label: 0, 1 or 2.
    pub fn number(&self) -> (r: usize)
        ensures
            r == self.spec_number(),
    {
        match self {
            SpamScore::Zero => 0,
            SpamScore::One => 1,
            SpamScore::Two => 2,
        }
    }
}

/// Error of a spam score made from a number other than 0, 1 or 2.
#[derive(Debug, Clone, Copy, PartialEq, Eq, Structural)]
#[non_exhaustive]
pub enum SpamScoreError {
    OutOfBoundsError { value: usize },
}

/// The spam score with number `value`, if there is one.
pub open spec fn spam_score_from_number(value: usize) -> Result<SpamScore, SpamScoreError> {
    if value == 0 {
        Ok(SpamScore::Zero)
    } else if value == 1 {
        Ok(SpamScore::One)
    } else if value == 2 {
        Ok(SpamScore::Two)
    } else {
        Err(SpamScoreError::OutOfBoundsError { value })
    }
}

impl TryFrom<usize> for SpamScore {
    type Error = SpamScoreError;

    fn try_from(value: usize) -> (r: Result<Self, SpamScoreError>) {
        match value {
            0 => Ok(SpamScore::Zero),
            1 => Ok(SpamScore::One),
            2 => Ok(SpamScore::Two),
            _ => Err(SpamScoreError::OutOfBoundsError { value }),
        }
    }
}

impl TryFromSpecImpl<usize> for SpamScore {
    open spec fn obeys_try_from_spec() -> bool {
        true
    }

    open spec fn try_from_spec(v: usize) -> Result<SpamScore, SpamScoreError> {
        spam_score_from_number(v)
    }
}

/// How many users carry each spam score.
#[derive(Debug, Clone, Copy, PartialEq, Eq, Structural)]
pub struct SpamScoreCount {
    nonspam: u64,
    maybe: u64,
    spam: u64,
}

impl SpamScoreCount {
    /// The count of score zero (spam).
    pub closed spec fn spec_spam(self) -> u64 {
        self.spam
    }

    /// The count of score one (maybe spam).
    pub closed spec fn spec_maybe(self) -> u64 {
        self.maybe
    }

    /// The count of score two (not spam).
    pub closed spec fn spec_nonspam(self) -> u64 {
        self.nonspam
    }

    /// The count of score `score`.
    pub open spec fn count_of(self, score: SpamScore) -> u64 {
        match score {
            SpamScore::Zero => self.spec_spam(),
            SpamScore::One => self.spec_maybe(),
            SpamScore::Two => self.spec_nonspam(),
        }
    }

    /// The sum of all three counts.
    pub open spec fn spec_total(self) -> int {
        self.spec_spam() + self.spec_maybe() + self.spec_nonspam()
    }

    /// Two counts are equal when their three counts are.
    pub proof fn lemma_ext_equal(a: Self, b: Self)
        requires
            a.spec_spam() == b.spec_spam(),
            a.spec_maybe() == b.spec_maybe(),
            a.spec_nonspam() == b.spec_nonspam(),
        ensures
            a == b,
    {
    }

    pub fn new(spam_count: u64, maybe_count: u64, nonspam_count: u64) -> (r: Self)
        ensures
            r.spec_spam() == spam_count,
            r.spec_maybe() == maybe_count,
            r.spec_nonspam() == nonspam_count,
    {
        SpamScoreCount { spam: spam_count, maybe: maybe_count, nonspam: nonspam_count }
    }

    /// Count one more user with score `score`.
    pub fn add(&mut self, score: SpamScore)
        requires
            old(self).count_of(score) < u64::MAX,
        ensures
            final(self).count_of(score) == old(self).count_of(score) + 1,
            forall|s: SpamScore| s != score ==> final(self).count_of(s) == old(self).count_of(s),
    {
        match score {
            SpamScore::Zero => self.spam = self.spam + 1,
            SpamScore::One => self.maybe = self.maybe + 1,
            SpamScore::Two => self.nonspam = self.nonspam + 1,
        }
    }

    /// The number of users counted.
    pub fn total(&self) -> (r: u64)
        requires
            self.spec_total() <= u64::MAX,
        ensures
            r == self.spec_total(),
    {
        self.spam + self.maybe + self.nonspam
    }

    pub fn spam(&self) -> (r: u64)
        ensures
            r == self.spec_spam(),
    {
        self.spam
    }

    pub fn maybe_spam(&self) -> (r: u64)
        ensures
            r == self.spec_maybe(),
    {
        self.maybe
    }

    pub fn non_spam(&self) -> (r: u64)
        ensures
            r == self.spec_nonspam(),
    {
        self.nonspam
    }
}

impl Default for SpamScoreCount {
    fn default() -> (r: Self)
        ensures
            r.spec_spam() == 0 && r.spec_maybe() == 0 && r.spec_nonspam() == 0,
    {
        SpamScoreCount { spam: 0, maybe: 0, nonspam: 0 }
    }
}

impl From<[u64; 3]> for SpamScoreCount {
    /// The counts of spam, maybe spam and not spam, in that order.
    fn from(value: [u64; 3]) -> (r: Self)
        ensures
            r.spec_spam() == value@[0],
            r.spec_maybe() == value@[1],
            r.spec_nonspam() == value@[2],
    {
        SpamScoreCount { spam: value[0], maybe: value[1], nonspam: value[2] }
    }
}

/// What the `From<[u64; 3]>` impl of [`SpamScoreCount`] builds.
pub proof fn lemma_count_from_array(v: [u64; 3])
    ensures
        <SpamScoreCount as FromSpec<[u64; 3]>>::from_spec(v).spec_spam() == v@[0],
        <SpamScoreCount as FromSpec<[u64; 3]>>::from_spec(v).spec_maybe() == v@[1],
        <SpamScoreCount as FromSpec<[u64; 3]>>::from_spec(v).spec_nonspam() == v@[2],
{
}

impl FromSpecImpl<[u64; 3]> for SpamScoreCount {
    open spec fn obeys_from_spec() -> bool {
        true
    }

    closed spec fn from_spec(v: [u64; 3]) -> Self {
        SpamScoreCount { spam: v@[0], maybe: v@[1], nonspam: v@[2] }
    }
}

impl From<SpamScoreCount> for [u64; 3] {
    fn from(value: SpamScoreCount) -> (r: [u64; 3])
        ensures
            r@ == seq![value.spec_spam(), value.spec_maybe(), value.spec_nonspam()],
    {
        [value.spam, value.maybe, value.nonspam]
    }
}

impl FromSpecImpl<SpamScoreCount> for [u64; 3] {
    /// The conversion is stated by the `ensures` of `from` itself.
    open spec fn obeys_from_spec() -> bool {
        false
    }

    open spec fn from_spec(v: SpamScoreCount) -> [u64; 3] {
        arbitrary()
    }
}

/// The value of a hexadecimal digit.
pub open spec fn hex_digit_value(c: char) -> Option<int> {
    if '0' <= c && c <= '9' {
        Some(c as int - '0' as int)
    } else if 'a' <= c && c <= 'f' {
        Some(c as int - 'a' as int + 10)
    } else if 'A' <= c && c <= 'F' {
        Some(c as int - 'A' as int + 10)
    } else {
        None
    }
}

/// The value of a sequence of hexadecimal digits; `None` if one is not a digit.
pub open spec fn hex_digits_value(s: Seq<char>) -> Option<int>
    decreases s.len(),
{
    if s.len() == 0 {
        Some(0)
    } else {
        match (hex_digits_value(s.drop_last()), hex_digit_value(s.last())) {
            (Some(v), Some(d)) => Some(v * 16 + d),
            _ => None,
        }
    }
}

/// What `u32::from_str_radix(s, 16)` returns: the value of an optional `+` followed by at
/// least one hexadecimal digit, if it fits in a `u32`.
pub open spec fn parse_hex_u32(s: Seq<char>) -> Option<u32> {
    let digits = if s.len() > 0 && s[0] == '+' {
        s.drop_first()
    } else {
        s
    };
    if digits.len() == 0 {
        None
    } else {
        match hex_digits_value(digits) {
            Some(v) => if v <= u32::MAX {
                Some(v as u32)
            } else {
                None
            },
            None => None,
        }
    }
}

/// Calls `u32::from_str_radix` with radix 16. Its documentation: an optional `+` sign
/// followed by digits of the radix (either case), the value in range; anything else is an
/// error.
#[verifier::external_body]
fn hex_str_to_u32(s: &str) -> (r: Option<u32>)
    ensures
        r == parse_hex_u32(s@),
{
    u32::from_str_radix(s, 16).ok()
}

/// The short form of a git commit hash: the number of its first four hexadecimal digits.
#[derive(Debug, Copy, Clone, Eq, PartialEq, Structural, Hash)]
pub struct CommitHash(u32);

impl CommitHash {
    /// The number held.
    pub closed spec fn spec_value(self) -> u32 {
        self.0
    }

    pub fn value(&self) -> (r: u32)
        ensures
            r == self.spec_value(),
    {
        self.0
    }

    /// The short hash with number `value`, as it was stored.
    pub fn new(value: u32) -> (r: CommitHash)
        ensures
            r.spec_value() == value,
    {
        CommitHash(value)
    }
}

/// The first `n` characters of `s`, or all of them when it has fewer.
pub open spec fn first_chars(s: Seq<char>, n: int) -> Seq<char> {
    if s.len() < n {
        s
    } else {
        s.subrange(0, n)
    }
}

/// The length in bytes of the UTF-8 encoding of `s`, as `str::len` gives it.
pub open spec fn utf8_byte_len(s: Seq<char>) -> usize {
    encode_utf8(s).len() as usize
}

/// What a full commit hash `s` shortens to: none unless it is 40 bytes long, else the hexadecimal
/// value of its first four characters.
pub open spec fn commit_hash_value(s: Seq<char>) -> Option<u32> {
    if utf8_byte_len(s) != 40 {
        None
    } else {
        parse_hex_u32(first_chars(s, 4))
    }
}

/// Error of a spam score distribution made from a count of no users.
#[derive(Debug, Clone, Copy, PartialEq, Eq, Structural, Hash)]
pub struct EmptyScoreCountError;

/// Error of spam entries made from no entries.
#[derive(Debug, Clone, Copy, PartialEq, Eq, Structural, Hash)]
pub struct EmptyEntriesError;

/// Error of a string that is not a commit hash; it holds the string.
#[derive(Debug)]
pub struct InvalidHashError(String);

impl InvalidHashError {
    /// The string that was refused.
    pub closed spec fn spec_input(self) -> Seq<char> {
        self.0@
    }

    pub fn input(&self) -> (r: &str)
        ensures
            r@ == self.spec_input(),
    {
        self.0.as_str()
    }
}

impl TryFrom<String> for CommitHash {
    type Error = InvalidHashError;

    fn try_from(full_commit_value: String) -> (r: Result<Self, InvalidHashError>)
        ensures
            r is Ok <==> commit_hash_value(full_commit_value@) is Some,
            r matches Ok(h) ==> Some(h.spec_value()) == commit_hash_value(full_commit_value@),
            r matches Err(e) ==> e.spec_input() == full_commit_value@,
    {
        let byte_len = full_commit_value.as_str().len();
        assert(byte_len == utf8_byte_len(full_commit_value@));
        if byte_len != 40 {
            return Err(InvalidHashError(full_commit_value));
        }
        let parsed = {
            let s = full_commit_value.as_str();
            let n = s.unicode_len();
            let k = if n < 4 {
                n
            } else {
                4
            };
            let shortened = s.substring_char(0, k);
            assert(shortened@ =~= first_chars(full_commit_value@, 4));
            hex_str_to_u32(shortened)
        };
        match parsed {
            Some(v) => Ok(CommitHash(v)),
            None => Err(InvalidHashError(full_commit_value)),
        }
    }
}

impl TryFromSpecImpl<String> for CommitHash {
    /// The conversion is stated by the `ensures` of `try_from` itself.
    open spec fn obeys_try_from_spec() -> bool {
        false
    }

    open spec fn try_from_spec(v: String) -> Result<CommitHash, InvalidHashError> {
        arbitrary()
    }
}

/// A spam score of a user, with or without the commit of the label data it was read from.
#[derive(Debug, Clone, Copy, PartialEq, Eq, Structural, Hash)]
pub enum SpamUpdate {
    WithSourceCommit(SpamScore, CommitHash),
    WithoutSourceCommit(SpamScore),
}

impl SpamUpdate {
    pub open spec fn spec_score(self) -> SpamScore {
        match self {
            SpamUpdate::WithSourceCommit(score, _) => score,
            SpamUpdate::WithoutSourceCommit(x) => x,
        }
    }

    /// The spam score of the update.
    pub fn score(&self) -> (r: SpamScore)
        ensures
            r == self.spec_score(),
    {
        match self {
            SpamUpdate::WithSourceCommit(score, _) => *score,
            SpamUpdate::WithoutSourceCommit(x) => *x,
        }
    }
}

impl From<SpamScore> for SpamUpdate {
    fn from(value: SpamScore) -> (r: Self) {
        SpamUpdate::WithoutSourceCommit(value)
    }
}

impl FromSpecImpl<SpamScore> for SpamUpdate {
    open spec fn obeys_from_spec() -> bool {
        true
    }

    open spec fn from_spec(v: SpamScore) -> SpamUpdate {
        SpamUpdate::WithoutSourceCommit(v)
    }
}

/// A spam score count at a date.
pub type DatedSpamScoreCount = Dated<SpamScoreCount>;

impl Dated<SpamScoreCount> {
    /// An empty count at `date`.
    pub fn default_with_date(date: Date) -> (r: Self)
        ensures
            r.spec_date() == date,
            r.spec_inner().spec_total() == 0,
    {
        Dated::new(SpamScoreCount::default(), date)
    }

    pub fn spam(&self) -> (r: u64)
        ensures
            r == self.spec_inner().spec_spam(),
    {
        self.inner().spam()
    }

    pub fn maybe_spam(&self) -> (r: u64)
        ensures
            r == self.spec_inner().spec_maybe(),
    {
        self.inner().maybe_spam()
    }

    pub fn non_spam(&self) -> (r: u64)
        ensures
            r == self.spec_inner().spec_nonspam(),
    {
        self.inner().non_spam()
    }

    pub fn total(&self) -> (r: u64)
        requires
            self.spec_inner().spec_total() <= u64::MAX,
        ensures
            r == self.spec_inner().spec_total(),
    {
        self.inner().total()
    }
}

} // verus!
