//! Events, and what becomes of them.

use vstd::prelude::*;

use crate::json::Json;

verus! {

broadcast use vstd::string::group_string_axioms;

/// A UUID of this version in its usual form: 32 lower-case hexadecimal digits
/// with hyphens after the 8th, 12th, 16th and 20th, and the version and the
/// variant where they belong.
pub open spec fn is_uuid(s: Seq<char>, version: char) -> bool {
    &&& s.len() == 36
    &&& s[8] == '-' && s[13] == '-' && s[18] == '-' && s[23] == '-'
    &&& s[14] == version
    &&& s[19] == '8' || s[19] == '9' || s[19] == 'a' || s[19] == 'b'
    &&& forall|i: int|
        0 <= i < 36 && i != 8 && i != 13 && i != 18 && i != 23 ==> {
            ||| '0' <= #[trigger] s[i] <= '9'
            ||| 'a' <= s[i] <= 'f'
        }
}

/// `uuid::Uuid::new_v4`, written out: a random identifier.  Every outcome is a
/// UUID of version four in lower-case hyphenated form; which one it is, and
/// that two calls give different ones, is left to chance.
#[verifier::external_body]
pub(crate) fn random_id() -> (out: String)
    ensures
        is_uuid(out@, '4'),
{
    uuid::Uuid::new_v4().to_string()
}

/// Something that happened, on its way to a handler.
pub struct Event {
    pub kind: String,
    pub id: String,
    pub payload: Json,
    pub meta: Json,
}

/// What a handler's answer is: the value it returned, or the text of its
/// error.
pub type AckResult = Result<Json, String>;

/// What waiting for the answer to an event came to.
pub enum AckOutcome {
    /// The event could not be handed to the bus.
    ChannelClosed,
    /// The handler returned a value.
    Answered(Json),
    /// The handler returned an error.
    Failed(String),
    /// The answer's channel was dropped without an answer.
    Dropped,
    /// No answer came in time.
    TimedOut,
}

/// What is said of an event that was not answered with a value.
pub open spec fn failure_words(outcome: AckOutcome) -> Option<Seq<char>> {
    match outcome {
        AckOutcome::ChannelClosed => Some("bus channel closed"@),
        AckOutcome::Answered(_) => None,
        AckOutcome::Failed(e) => Some(e@),
        AckOutcome::Dropped => Some("ack dropped"@),
        AckOutcome::TimedOut => Some("handler timeout"@),
    }
}

/// The answer to an event as a value, or what is said when there is none.
pub fn ack_value(outcome: AckOutcome) -> (out: Result<Json, String>)
    ensures
        match out {
            Ok(v) => outcome == AckOutcome::Answered(v),
            Err(e) => failure_words(outcome) == Some(e@),
        },
{
    match outcome {
        AckOutcome::ChannelClosed => Err("bus channel closed".to_owned()),
        AckOutcome::Answered(v) => Ok(v),
        AckOutcome::Failed(e) => Err(e),
        AckOutcome::Dropped => Err("ack dropped".to_owned()),
        AckOutcome::TimedOut => Err("handler timeout".to_owned()),
    }
}

/// An event that was answered has nothing said of it; of every other it is said
/// what became of it, a handler's own error in its own words.
pub proof fn law_an_event_without_an_answer_is_told_why(value: Json, error: String)
    ensures
        failure_words(AckOutcome::Answered(value)) is None,
        failure_words(AckOutcome::Failed(error)) == Some(error@),
        failure_words(AckOutcome::ChannelClosed) == Some("bus channel closed"@),
        failure_words(AckOutcome::Dropped) == Some("ack dropped"@),
        failure_words(AckOutcome::TimedOut) == Some("handler timeout"@),
{
}

} // verus!
