//! One line of warpcast spam label data, as it is read, and its conversion to a spam update
//! of a user.
use crate::date::{Date, MAX_DAY, MIN_DAY, SECONDS_PER_DAY, UNIX_EPOCH_DAY};
use crate::fid::Fid;
use crate::fidded::Fidded;
use crate::spam_score::{spam_score_from_number, SpamScore, SpamScoreError, SpamUpdate};
use crate::user_value::DatedSpamUpdate;
use vstd::prelude::*;
use vstd::std_specs::convert::FromSpecImpl;
use vstd::std_specs::convert::TryFromSpecImpl;

verus! {

/// The target of a label: the fid of the labelled user.
#[derive(Debug, Clone, PartialEq)]
struct Type {
    fid: u64,
    target: String,
}

/// A line of spam label data: the provider of the label, the labelled fid, the kind and
/// value of the label, and the unix time at which it was given.
#[derive(Debug, PartialEq)]
pub struct UnprocessedUserLine {
    provider: usize,
    line_type: Type,
    label_type: String,
    label_value: usize,
    timestamp: usize,
}

/// Error of a line that cannot be turned into a spam update.
#[derive(Debug, Clone, Copy, PartialEq, Eq, Structural)]
pub enum SpamDataParseError {
    /// The label value is not a spam score.
    SpamScoreError(SpamScoreError),
    /// No date can hold the day of the timestamp.
    DateError { timestamp: usize },
}

impl From<SpamScoreError> for SpamDataParseError {
    fn from(value: SpamScoreError) -> (r: Self)
        ensures
            r == SpamDataParseError::SpamScoreError(value),
    {
        SpamDataParseError::SpamScoreError(value)
    }
}

impl FromSpecImpl<SpamScoreError> for SpamDataParseError {
    open spec fn obeys_from_spec() -> bool {
        true
    }

    open spec fn from_spec(v: SpamScoreError) -> SpamDataParseError {
        SpamDataParseError::SpamScoreError(v)
    }
}

/// The day number of the UTC date of the unix time `timestamp`, if a date can hold it.
pub open spec fn timestamp_day(timestamp: int) -> Option<int> {
    let day = timestamp / (SECONDS_PER_DAY as int) + UNIX_EPOCH_DAY;
    if MIN_DAY <= day <= MAX_DAY {
        Some(day)
    } else {
        None
    }
}

impl UnprocessedUserLine {
    pub closed spec fn spec_provider(self) -> usize {
        self.provider
    }

    /// The labelled fid.
    pub closed spec fn spec_fid(self) -> u64 {
        self.line_type.fid
    }

    pub closed spec fn spec_target(self) -> Seq<char> {
        self.line_type.target@
    }

    pub closed spec fn spec_label_type(self) -> Seq<char> {
        self.label_type@
    }

    pub closed spec fn spec_label_value(self) -> usize {
        self.label_value
    }

    pub closed spec fn spec_timestamp(self) -> usize {
        self.timestamp
    }

    /// What converting the line to a spam update fails with, if it fails: first a timestamp
    /// without a date, then a label value that is not a spam score.
    pub open spec fn conversion_error(self) -> Option<SpamDataParseError> {
        if timestamp_day(self.spec_timestamp() as int) is None {
            Some(SpamDataParseError::DateError { timestamp: self.spec_timestamp() })
        } else {
            match spam_score_from_number(self.spec_label_value()) {
                Err(e) => Some(SpamDataParseError::SpamScoreError(e)),
                Ok(_) => None,
            }
        }
    }

    /// Whether `update` is the spam update that the line stands for: the fid of the line,
    /// the date of its timestamp and the spam score of its label value.
    pub open spec fn converts_to(self, update: Fidded<DatedSpamUpdate>) -> bool {
        &&& update.spec_fid()@ == (self.spec_fid() as usize) as u64
        &&& Some(update.spec_unfid().spec_date().day_number()) == timestamp_day(
            self.spec_timestamp() as int,
        )
        &&& spam_score_from_number(self.spec_label_value()) matches Ok(score)
            && update.spec_unfid().spec_inner() == SpamUpdate::WithoutSourceCommit(score)
    }

    /// A line with the given fields.
    pub fn new(
        provider: usize,
        fid: u64,
        target: String,
        label_type: String,
        label_value: usize,
        timestamp: usize,
    ) -> (r: Self)
        ensures
            r.spec_provider() == provider,
            r.spec_fid() == fid,
            r.spec_target() == target@,
            r.spec_label_type() == label_type@,
            r.spec_label_value() == label_value,
            r.spec_timestamp() == timestamp,
    {
        UnprocessedUserLine {
            provider,
            line_type: Type { fid, target },
            label_type,
            label_value,
            timestamp,
        }
    }

    pub fn provider(&self) -> (r: usize)
        ensures
            r == self.spec_provider(),
    {
        self.provider
    }

    /// The labelled fid.
    pub fn fid(&self) -> (r: usize)
        ensures
            r == self.spec_fid() as usize,
    {
        self.line_type.fid as usize
    }

    /// The fid of the labelled user, as it was read.
    pub fn fid_value(&self) -> (r: u64)
        ensures
            r == self.spec_fid(),
    {
        self.line_type.fid
    }

    /// The target of the label.
    pub fn target(&self) -> (r: &String)
        ensures
            r@ == self.spec_target(),
    {
        &self.line_type.target
    }

    /// The kind of the label.
    pub fn label_type(&self) -> (r: &String)
        ensures
            r@ == self.spec_label_type(),
    {
        &self.label_type
    }

    pub fn label_value(&self) -> (r: usize)
        ensures
            r == self.spec_label_value(),
    {
        self.label_value
    }

    pub fn timestamp(&self) -> (r: usize)
        ensures
            r == self.spec_timestamp(),
    {
        self.timestamp
    }

    /// The UTC date of the timestamp, or a [`SpamDataParseError::DateError`] where no date
    /// can hold it. The timestamp must fit in an `i64`, as unix times do.
    pub fn date(&self) -> (r: Result<Date, SpamDataParseError>)
        requires
            self.spec_timestamp() <= i64::MAX,
        ensures
            timestamp_day(self.spec_timestamp() as int) matches Some(day) ==> (r matches Ok(d)
                && d.day_number() == day),
            timestamp_day(self.spec_timestamp() as int) is None ==> r == Err::<
                Date,
                SpamDataParseError,
            >(SpamDataParseError::DateError { timestamp: self.spec_timestamp() }),
    {
        let secs: i64 = self.timestamp as i64;
        match Date::from_timestamp(secs) {
            Some(date) => Ok(date),
            None => Err(SpamDataParseError::DateError { timestamp: self.timestamp }),
        }
    }
}

impl Clone for UnprocessedUserLine {
    fn clone(&self) -> (r: Self)
        ensures
            r.spec_provider() == self.spec_provider(),
            r.spec_fid() == self.spec_fid(),
            r.spec_target() == self.spec_target(),
            r.spec_label_type() == self.spec_label_type(),
            r.spec_label_value() == self.spec_label_value(),
            r.spec_timestamp() == self.spec_timestamp(),
    {
        UnprocessedUserLine {
            provider: self.provider,
            line_type: Type { fid: self.line_type.fid, target: self.line_type.target.clone() },
            label_type: self.label_type.clone(),
            label_value: self.label_value,
            timestamp: self.timestamp,
        }
    }
}

impl TryFrom<UnprocessedUserLine> for Fidded<DatedSpamUpdate> {
    type Error = SpamDataParseError;

    /// The spam update of a line: at the date of its timestamp, with the spam score of its
    /// label value, for its fid.
    fn try_from(value: UnprocessedUserLine) -> (r: Result<Self, SpamDataParseError>)
        ensures
            value.conversion_error() matches Some(e) ==> r == Err::<Self, SpamDataParseError>(e),
            value.conversion_error() is None ==> (r matches Ok(update) && value.converts_to(
                update,
            )),
    {
        let fid = value.fid();
        let timestamp: u64 = value.timestamp() as u64;
        if timestamp > 9223372036854775807u64 {
            assert(timestamp_day(value.spec_timestamp() as int) is None);
            return Err(SpamDataParseError::DateError { timestamp: value.timestamp() });
        }
        let date = match value.date() {
            Ok(date) => date,
            Err(e) => {
                return Err(e);
            },
        };
        let spam_score = match SpamScore::try_from(value.label_value()) {
            Ok(score) => score,
            Err(e) => {
                return Err(SpamDataParseError::from(e));
            },
        };
        let dated_spam_update = DatedSpamUpdate::new(SpamUpdate::from(spam_score), date);
        let fid = Fid::from(fid);
        Ok(Fidded::new(dated_spam_update, fid))
    }
}

impl TryFromSpecImpl<UnprocessedUserLine> for Fidded<DatedSpamUpdate> {
    /// The conversion is stated by the `ensures` of `try_from` itself.
    open spec fn obeys_try_from_spec() -> bool {
        false
    }

    open spec fn try_from_spec(v: UnprocessedUserLine) -> Result<
        Fidded<DatedSpamUpdate>,
        SpamDataParseError,
    > {
        arbitrary()
    }
}

} // verus!
