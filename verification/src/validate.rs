//! Rules for names, free text and lists of names.
use vstd::prelude::*;

use crate::error::{
    checked, each_checked, first_error, invalid_field, lemma_each_fails_at, lemma_each_next,
    Checked, ErrorView, SpindleError,
};
use crate::text::{
    char_is_ascii_alphanumeric, char_is_control, chars_of, contains_text, has_control,
    is_ascii_alphanumeric, is_blank, text_is_blank, views,
};

verus! {

/// The rule for free text: not blank, and no control characters.
pub open spec fn text_check(field: Seq<char>, value: Seq<char>) -> Checked {
    if is_blank(value) {
        Err(ErrorView::InvalidField { field, reason: "must not be empty"@ })
    } else if has_control(value) {
        Err(ErrorView::InvalidField { field, reason: "must not contain control characters"@ })
    } else {
        Ok(())
    }
}

/// The characters a name may hold behind its first one.
pub open spec fn is_name_char(c: char) -> bool {
    is_ascii_alphanumeric(c) || c == '.' || c == '_' || c == ':' || c == '-'
}

/// The rule for the characters of a name.
pub open spec fn name_chars_check(field: Seq<char>, value: Seq<char>) -> Checked {
    if !is_ascii_alphanumeric(value[0]) {
        Err(
            ErrorView::InvalidField {
                field,
                reason: "must start with an ASCII letter or number"@,
            },
        )
    } else if exists|i: int| 1 <= i < value.len() && !is_name_char(#[trigger] value[i]) {
        Err(
            ErrorView::InvalidField {
                field,
                reason: "must contain only ASCII letters, numbers, '.', '_', ':', or '-'"@,
            },
        )
    } else {
        Ok(())
    }
}

/// The rule for a name: text that starts with an ASCII letter or digit and goes
/// on with letters, digits, `.`, `_`, `:` and `-`.
pub open spec fn name_check(field: Seq<char>, value: Seq<char>) -> Checked {
    first_error(text_check(field, value), name_chars_check(field, value))
}

/// The rule for a name, as a check of one value.
pub open spec fn name_checker(field: Seq<char>) -> spec_fn(Seq<char>) -> Checked {
    |value: Seq<char>| name_check(field, value)
}

/// The rule for a path: text without NUL.
pub open spec fn path_check(field: Seq<char>, value: Seq<char>) -> Checked {
    first_error(
        text_check(field, value),
        if value.contains('\0') {
            Err(ErrorView::InvalidField { field, reason: "must not contain NUL bytes"@ })
        } else {
            Ok(())
        },
    )
}

/// The rule for a list: no value twice.
pub open spec fn unique_check(field: Seq<char>, values: Seq<Seq<char>>) -> Checked {
    if values.no_duplicates() {
        Ok(())
    } else {
        Err(ErrorView::InvalidField { field, reason: "must not contain duplicate values"@ })
    }
}

/// Whether two lists have a value in common.
pub open spec fn overlap(left: Seq<Seq<char>>, right: Seq<Seq<char>>) -> bool {
    exists|i: int| 0 <= i < right.len() && left.contains(#[trigger] right[i])
}

/// The rule for two lists: no value in both.
pub open spec fn disjoint_check(
    left: Seq<Seq<char>>,
    right_field: Seq<char>,
    right: Seq<Seq<char>>,
) -> Checked {
    if overlap(left, right) {
        Err(
            ErrorView::InvalidField {
                field: right_field,
                reason: "must not overlap with emits"@,
            },
        )
    } else {
        Ok(())
    }
}

/// A name is text, and may stand where a path or a subject may.
pub proof fn law_name_is_text(field: Seq<char>, value: Seq<char>)
    requires
        name_check(field, value) is Ok,
    ensures
        text_check(field, value) is Ok,
        path_check(field, value) is Ok,
        value.len() > 0,
        forall|i: int| 0 <= i < value.len() ==> is_name_char(#[trigger] value[i]),
{
    law_path_is_text(field, value);
}

/// A NUL is a control character, so the rule for paths is the rule for text.
pub proof fn law_path_is_text(field: Seq<char>, value: Seq<char>)
    ensures
        path_check(field, value) == text_check(field, value),
{
    if value.contains('\0') {
        let i = choose|i: int| 0 <= i < value.len() && value[i] == '\0';
        assert(crate::text::is_control(value[i]));
    }
}

/// Check free text.
pub fn validate_non_empty_text(field: &'static str, value: &str) -> (result: Result<
    (),
    SpindleError,
>)
    ensures
        checked(result) == text_check(field@, value@),
{
    if text_is_blank(value) {
        return Err(invalid_field(field, "must not be empty"));
    }
    let chars: Vec<char> = chars_of(value);
    let mut i: usize = 0;
    while i < chars.len()
        invariant
            i <= chars@.len(),
            chars@ == value@,
            !is_blank(value@),
            forall|j: int| 0 <= j < i ==> !crate::text::is_control(#[trigger] value@[j]),
        decreases chars@.len() - i,
    {
        if char_is_control(chars[i]) {
            assert(crate::text::is_control(value@[i as int]));
            return Err(invalid_field(field, "must not contain control characters"));
        }
        i = i + 1;
    }
    Ok(())
}

/// Check a name of the capability policy.
pub fn validate_token(field: &'static str, value: &str) -> (result: Result<(), SpindleError>)
    ensures
        checked(result) == text_check(field@, value@),
{
    validate_non_empty_text(field, value)
}

/// Check a name.
pub fn validate_name(field: &'static str, value: &str) -> (result: Result<(), SpindleError>)
    ensures
        checked(result) == name_check(field@, value@),
{
    match validate_non_empty_text(field, value) {
        Ok(()) => {},
        Err(error) => {
            return Err(error);
        },
    }
    let chars: Vec<char> = chars_of(value);
    assert(chars@.len() > 0);
    if !char_is_ascii_alphanumeric(chars[0]) {
        return Err(invalid_field(field, "must start with an ASCII letter or number"));
    }
    let mut i: usize = 1;
    while i < chars.len()
        invariant
            1 <= i <= chars@.len(),
            chars@ == value@,
            text_check(field@, value@) is Ok,
            is_ascii_alphanumeric(value@[0]),
            forall|j: int| 1 <= j < i ==> is_name_char(#[trigger] value@[j]),
        decreases chars@.len() - i,
    {
        let c: char = chars[i];
        if !(char_is_ascii_alphanumeric(c) || c == '.' || c == '_' || c == ':' || c == '-') {
            assert(!is_name_char(value@[i as int]));
            return Err(
                invalid_field(
                    field,
                    "must contain only ASCII letters, numbers, '.', '_', ':', or '-'",
                ),
            );
        }
        i = i + 1;
    }
    Ok(())
}

/// Check the subject of an event.
pub fn validate_subject(field: &'static str, value: &str) -> (result: Result<(), SpindleError>)
    ensures
        checked(result) == text_check(field@, value@),
{
    validate_non_empty_text(field, value)
}

/// Check a path given as text.
pub fn validate_path_string(field: &'static str, value: &str) -> (result: Result<
    (),
    SpindleError,
>)
    ensures
        checked(result) == path_check(field@, value@),
{
    match validate_non_empty_text(field, value) {
        Ok(()) => {},
        Err(error) => {
            return Err(error);
        },
    }
    let chars: Vec<char> = chars_of(value);
    let mut i: usize = 0;
    while i < chars.len()
        invariant
            i <= chars@.len(),
            chars@ == value@,
            text_check(field@, value@) is Ok,
            forall|j: int| 0 <= j < i ==> value@[j] != '\0',
        decreases chars@.len() - i,
    {
        if chars[i] == '\0' {
            assert(value@.contains('\0'));
            return Err(invalid_field(field, "must not contain NUL bytes"));
        }
        i = i + 1;
    }
    Ok(())
}

/// Check each of a list of names.
pub fn validate_names(field: &'static str, values: &[String]) -> (result: Result<
    (),
    SpindleError,
>)
    ensures
        checked(result) == each_checked(views(values@), name_checker(field@)),
{
    let ghost all = views(values@);
    let mut i: usize = 0;
    assert(all.take(0) =~= Seq::empty());
    while i < values.len()
        invariant
            i <= values@.len(),
            all == views(values@),
            each_checked(all.take(i as int), name_checker(field@)) is Ok,
        decreases values@.len() - i,
    {
        let outcome: Result<(), SpindleError> = validate_name(field, values[i].as_str());
        assert(name_checker(field@)(all[i as int]) == checked(outcome));
        match outcome {
            Ok(()) => {},
            Err(error) => {
                proof {
                    lemma_each_fails_at(all, name_checker(field@), i as int);
                }
                return Err(error);
            },
        }
        proof {
            lemma_each_next(all, name_checker(field@), i as int);
        }
        i = i + 1;
    }
    assert(all.take(values@.len() as int) =~= all);
    Ok(())
}

/// Check that no value of a list occurs twice.
pub fn validate_unique_values(field: &'static str, values: &[String]) -> (result: Result<
    (),
    SpindleError,
>)
    ensures
        checked(result) == unique_check(field@, views(values@)),
{
    if has_duplicates(values) {
        Err(invalid_field(field, "must not contain duplicate values"))
    } else {
        Ok(())
    }
}

/// Whether a value of a list occurs twice.
pub fn has_duplicates(values: &[String]) -> (found: bool)
    ensures
        found == !views(values@).no_duplicates(),
{
    let ghost all = views(values@);
    let mut i: usize = 0;
    while i < values.len()
        invariant
            i <= values@.len(),
            all == views(values@),
            forall|a: int, b: int| 0 <= a < b < i ==> all[a] != all[b],
        decreases values@.len() - i,
    {
        let mut j: usize = 0;
        while j < i
            invariant
                j <= i < values@.len(),
                all == views(values@),
                forall|a: int| 0 <= a < j ==> all[a] != all[i as int],
            decreases i - j,
        {
            if values[j] == values[i] {
                assert(all[j as int] == all[i as int]);
                return true;
            }
            j = j + 1;
        }
        i = i + 1;
    }
    false
}

/// Check that two lists have no value in common.
pub fn validate_disjoint_values(
    left: &[String],
    right_field: &'static str,
    right: &[String],
) -> (result: Result<(), SpindleError>)
    ensures
        checked(result) == disjoint_check(views(left@), right_field@, views(right@)),
{
    let ghost all = views(right@);
    let mut i: usize = 0;
    while i < right.len()
        invariant
            i <= right@.len(),
            all == views(right@),
            forall|j: int| 0 <= j < i ==> !views(left@).contains(#[trigger] all[j]),
        decreases right@.len() - i,
    {
        assert(all[i as int] == right@[i as int]@);
        if contains_text(left, right[i].as_str()) {
            return Err(invalid_field(right_field, "must not overlap with emits"));
        }
        i = i + 1;
    }
    Ok(())
}

/// A name is one or more characters: first a letter or a digit of ASCII, then
/// letters, digits, dots, underscores, colons and hyphens. Whatever is refused is
/// refused under the name of its field.
pub proof fn law_what_a_name_is(field: Seq<char>, value: Seq<char>)
    ensures
        name_check(field, value) is Ok <==> {
            &&& value.len() > 0
            &&& value[0] != '.' && value[0] != '_' && value[0] != ':' && value[0] != '-'
            &&& forall|i: int|
                0 <= i < value.len() ==> {
                    ||| 'a' <= #[trigger] value[i] <= 'z'
                    ||| 'A' <= value[i] <= 'Z'
                    ||| '0' <= value[i] <= '9'
                    ||| value[i] == '.' || value[i] == '_' || value[i] == ':' || value[i] == '-'
                }
        },
        name_check(field, value) matches Err(error) ==> error is InvalidField && error->field
            == field,
{
    if name_check(field, value) is Ok {
        assert(!is_blank(value));
        assert(value.len() > 0);
        assert forall|i: int| 0 <= i < value.len() implies {
            ||| 'a' <= #[trigger] value[i] <= 'z'
            ||| 'A' <= value[i] <= 'Z'
            ||| '0' <= value[i] <= '9'
            ||| value[i] == '.' || value[i] == '_' || value[i] == ':' || value[i] == '-'
        } by {
            if i > 0 {
                assert(is_name_char(value[i]));
            }
        }
    }
    if value.len() > 0 && value[0] != '.' && value[0] != '_' && value[0] != ':' && value[0] != '-'
        && (forall|i: int|
        0 <= i < value.len() ==> {
            ||| 'a' <= #[trigger] value[i] <= 'z'
            ||| 'A' <= value[i] <= 'Z'
            ||| '0' <= value[i] <= '9'
            ||| value[i] == '.' || value[i] == '_' || value[i] == ':' || value[i] == '-'
        }) {
        assert(is_ascii_alphanumeric(value[0]));
        assert(!crate::text::is_whitespace(value[0]));
        assert(!is_blank(value));
        assert forall|i: int| 0 <= i < value.len() implies !crate::text::is_control(
            #[trigger] value[i],
        ) && is_name_char(value[i]) by {}
    }
}

/// Free text shows something: it holds a character that is no white space, and no
/// control character.
pub proof fn law_what_text_is(field: Seq<char>, value: Seq<char>)
    ensures
        text_check(field, value) is Ok <==> {
            &&& exists|i: int|
                0 <= i < value.len() && !crate::text::is_whitespace(#[trigger] value[i])
            &&& forall|i: int|
                0 <= i < value.len() ==> (#[trigger] value[i]) as u32 > 0x1f && !(0x7f
                    <= value[i] as u32 <= 0x9f)
        },
        text_check(field, value) matches Err(error) ==> error is InvalidField && error->field
            == field,
{
    if has_control(value) {
        let i = choose|i: int| 0 <= i < value.len() && crate::text::is_control(#[trigger] value[i]);
        assert(value[i] as u32 <= 0x1f || 0x7f <= value[i] as u32 <= 0x9f);
    }
    assert forall|i: int| 0 <= i < value.len() && !has_control(value) implies (
    #[trigger] value[i]) as u32 > 0x1f && !(0x7f <= value[i] as u32 <= 0x9f) by {
        assert(!crate::text::is_control(value[i]));
    }
}

/// A list is accepted where its values differ from one another, and two lists where
/// the values of the one differ from those of the other.
pub proof fn law_what_lists_are(
    field: Seq<char>,
    left: Seq<Seq<char>>,
    right_field: Seq<char>,
    right: Seq<Seq<char>>,
)
    ensures
        unique_check(field, left) is Ok <==> forall|i: int, j: int|
            0 <= i < j < left.len() ==> #[trigger] left[i] != #[trigger] left[j],
        disjoint_check(left, right_field, right) is Ok <==> forall|i: int, j: int|
            0 <= i < left.len() && 0 <= j < right.len() ==> #[trigger] left[i]
                != #[trigger] right[j],
        unique_check(field, left) matches Err(error) ==> error is InvalidField && error->field
            == field,
        disjoint_check(left, right_field, right) matches Err(error) ==> error is InvalidField
            && error->field == right_field,
{
    if overlap(left, right) {
        let j = choose|j: int| 0 <= j < right.len() && left.contains(#[trigger] right[j]);
        let i = choose|i: int| 0 <= i < left.len() && left[i] == right[j];
        assert(left[i] == right[j]);
    } else {
        assert forall|i: int, j: int| 0 <= i < left.len() && 0 <= j < right.len() implies
            #[trigger] left[i] != #[trigger] right[j] by {
            assert(!left.contains(right[j]));
        }
    }
}

} // verus!
