//! Farmap: a library to hold and analyze farcaster user data, in particular the
//! warpcast spam labels of each user, with verified contracts on its logic.
pub mod date;

pub use date::Date;
mod fid;
pub use fid::Fid;
mod dated;
pub use dated::Dated;
pub mod time_utils;
pub use time_utils::{Daily, IterInterval, Monthly, Ready, TimeIterator, Unstarted, Weekly};
pub mod spam_score;
pub use spam_score::{
    DatedSpamScoreCount, EmptyEntriesError, EmptyScoreCountError, SpamScore, SpamScoreCount,
};
mod cast_type;
pub use cast_type::{CastMeta, CastType, InvalidCastInputError};
mod follow_count;
pub use follow_count::FollowCount;
mod user_value;
pub use user_value::{
    AnyNativeUserValue, AnyUserValue, Collidable, DatedSpamUpdate, HasTag, NativeUserValue,
    UserValue,
};
mod fidded;
pub use fidded::Fidded;
mod user_store;
pub use user_store::{UserError, UserStore};
pub mod user;
pub use user::{User, UserStoreWithNativeUserValue};
pub mod user_collection;
pub use user_collection::{CollectionError, DataCreationError, UserCollection};
mod is_user;
pub use is_user::IsUser;
pub mod subset;
pub use subset::UsersSubset;
pub mod fid_score_shift;
pub use fid_score_shift::FidScoreShift;
mod user_with_spam_data;
pub use user_with_spam_data::{
    first_spam_update_at_or_after, first_spam_update_at_or_before, latest_spam_score_is,
    spam_score_at_date_of, spam_score_at_is, ConversionError, UserWithSpamData,
};
mod analyze_spam_entry;
pub use analyze_spam_entry::{move_request_scores, EmptySetError, SetWithSpamEntries};
mod cast_fetch;
pub use cast_fetch::fetch_list;
mod unprocessed_user_line;
pub use unprocessed_user_line::{SpamDataParseError, UnprocessedUserLine};
pub mod fetch;
mod user_with_cast_data;
pub use user_with_cast_data::{NoCastDataError, TryFromUser, UserWithCastData};
mod set_with_cast_data;
pub use set_with_cast_data::{SetWithCastData, SetWithCastDataError, TryFromUserSet};
mod user_set;
pub use user_set::UserSet;
