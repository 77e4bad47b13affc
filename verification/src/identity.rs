//! Identifiers and the clock.
use vstd::prelude::*;

use crate::error::{invalid_field, ErrorView, SpindleError};
use crate::text::is_ascii_alphanumeric;
use crate::validate::name_check;

verus! {

/// A lower-case hexadecimal digit.
pub open spec fn is_hex_digit(c: char) -> bool {
    '0' <= c <= '9' || 'a' <= c <= 'f'
}

/// The hyphenated text of a version 7 UUID.
pub open spec fn is_uuid_text(id: Seq<char>) -> bool {
    &&& id.len() == 36
    &&& id[14] == '7'
    &&& forall|i: int|
        0 <= i < 36 ==> if i == 8 || i == 13 || i == 18 || i == 23 {
            #[trigger] id[i] == '-'
        } else {
            is_hex_digit(id[i])
        }
}

/// An identifier is a valid name.
pub proof fn law_uuid_is_name(field: Seq<char>, id: Seq<char>)
    requires
        is_uuid_text(id),
    ensures
        name_check(field, id) is Ok,
{
    assert(is_hex_digit(id[0]));
    assert(is_ascii_alphanumeric(id[0]));
    assert(!crate::text::is_whitespace(id[0]));
    assert forall|i: int| 0 <= i < id.len() implies !crate::text::is_control(#[trigger] id[i])
        && crate::validate::is_name_char(id[i]) by {}
}

/// There are identifiers.
pub(crate) proof fn lemma_some_uuid() -> (id: Seq<char>)
    ensures
        is_uuid_text(id),
{
    let id = Seq::new(
        36,
        |i: int|
            if i == 8 || i == 13 || i == 18 || i == 23 {
                '-'
            } else {
                '7'
            },
    );
    assert(is_hex_digit('7'));
    id
}

/// `uuid::Uuid::now_v7` and its `Display`: a fresh version 7 UUID as hyphenated
/// lower-case text. Which one it is depends on the clock and on random bits, so
/// only the shape of the text is stated. It counts on a clock that is not before
/// the Unix epoch.
#[verifier::external_body]
pub(crate) fn new_id() -> (id: String)
    ensures
        is_uuid_text(id@),
{
    uuid::Uuid::now_v7().to_string()
}

/// What becomes of the milliseconds that the clock shows since the Unix epoch;
/// none for a clock before it.
pub open spec fn clock_outcome(since_epoch_ms: Option<u128>) -> Result<u64, ErrorView> {
    match since_epoch_ms {
        None => Err(ErrorView::Clock),
        Some(millis) => if millis <= u64::MAX {
            Ok(millis as u64)
        } else {
            Err(
                ErrorView::InvalidField {
                    field: "time_unix_ms"@,
                    reason: "system clock exceeds u64 millisecond range"@,
                },
            )
        },
    }
}

/// The time in milliseconds since the Unix epoch, from what the clock shows.
pub fn now_unix_ms(since_epoch_ms: Option<u128>) -> (result: Result<u64, SpindleError>)
    ensures
        match result {
            Ok(millis) => clock_outcome(since_epoch_ms) == Ok::<u64, ErrorView>(millis),
            Err(error) => clock_outcome(since_epoch_ms) == Err::<u64, ErrorView>(error@),
        },
{
    match since_epoch_ms {
        None => Err(SpindleError::Clock),
        Some(millis) => if millis <= u64::MAX as u128 {
            Ok(millis as u64)
        } else {
            Err(invalid_field("time_unix_ms", "system clock exceeds u64 millisecond range"))
        },
    }
}

/// A timeout in whole milliseconds, as far as it fits.
pub fn timeout_millis(timeout_ms: u128) -> (millis: u64)
    ensures
        millis == if timeout_ms <= u64::MAX {
            timeout_ms
        } else {
            u64::MAX as u128
        },
{
    if timeout_ms <= u64::MAX as u128 {
        timeout_ms as u64
    } else {
        u64::MAX
    }
}

/// The time is what the clock shows, unless it shows a time before the epoch or one
/// that cannot be told.
pub proof fn law_time_is_what_the_clock_shows(since_epoch_ms: Option<u128>)
    ensures
        clock_outcome(since_epoch_ms) is Ok <==> since_epoch_ms is Some && since_epoch_ms->0
            <= u64::MAX,
        clock_outcome(since_epoch_ms) matches Ok(millis) ==> since_epoch_ms == Some(millis as u128),
        since_epoch_ms is None ==> clock_outcome(since_epoch_ms) == Err::<u64, ErrorView>(
            ErrorView::Clock,
        ),
{
}

} // verus!
