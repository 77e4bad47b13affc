//! JSON values as the kernel reads them.
use serde_json::Value;
use vstd::prelude::*;

use crate::error::{checked, invalid_field, Checked, ErrorView, SpindleError};
use crate::name_map::{ascending, inserted, keyed, lookup, names, NameMap};
use crate::text::views;

verus! {

/// A JSON number: an unsigned integer, a negative integer, or a floating-point
/// number given by the bits of its double precision encoding.
#[derive(Debug, Clone, Copy, Eq)]
pub enum JsonNumber {
    /// Zero or a positive integer.
    Unsigned(u64),
    /// A negative integer.
    Negative(i64),
    /// The bits of a finite floating-point number.
    Float(u64),
}

/// A JSON value.
#[derive(Debug, PartialEq, Eq)]
pub enum Json {
    /// `null`.
    Null,
    /// `true` or `false`.
    Bool(bool),
    /// A number.
    Number(JsonNumber),
    /// A string.
    Text(String),
    /// An array.
    Array(Vec<Json>),
    /// An object.
    Object(NameMap<Json>),
}

/// A JSON value with its strings as characters.
pub enum JsonView {
    /// `null`.
    Null,
    /// `true` or `false`.
    Bool(bool),
    /// A number.
    Number(JsonNumber),
    /// A string.
    Text(Seq<char>),
    /// An array.
    Array(Seq<JsonView>),
    /// The members of an object.
    Object(Seq<(Seq<char>, JsonView)>),
}

/// A JSON value with its strings as characters. Numbers keep every bit.
pub open spec fn json_view(json: Json) -> JsonView
    decreases json,
{
    match json {
        Json::Null => JsonView::Null,
        Json::Bool(flag) => JsonView::Bool(flag),
        Json::Number(number) => JsonView::Number(number),
        Json::Text(text) => JsonView::Text(text@),
        Json::Array(items) => JsonView::Array(
            Seq::new(
                items@.len(),
                |i: int|
                    if 0 <= i < items@.len() {
                        json_view(items@[i])
                    } else {
                        JsonView::Null
                    },
            ),
        ),
        Json::Object(members) => JsonView::Object(
            Seq::new(
                members.entries@.len(),
                |i: int|
                    if 0 <= i < members.entries@.len() {
                        (members.entries@[i].0@, json_view(members.entries@[i].1))
                    } else {
                        (Seq::empty(), JsonView::Null)
                    },
            ),
        ),
    }
}

impl View for Json {
    type V = JsonView;

    open spec fn view(&self) -> JsonView {
        json_view(*self)
    }
}

/// The number that is meant: negative zero equals zero.
pub open spec fn number_value(number: JsonNumber) -> JsonNumber {
    if number == JsonNumber::Float(0x8000_0000_0000_0000) {
        JsonNumber::Float(0)
    } else {
        number
    }
}

/// What a JSON value means where values are compared: each number in it counts as
/// the number that is meant.
pub open spec fn json_value(json: JsonView) -> JsonView
    decreases json,
{
    match json {
        JsonView::Number(number) => JsonView::Number(number_value(number)),
        JsonView::Array(items) => JsonView::Array(
            Seq::new(
                items.len(),
                |i: int|
                    if 0 <= i < items.len() {
                        json_value(items[i])
                    } else {
                        JsonView::Null
                    },
            ),
        ),
        JsonView::Object(members) => JsonView::Object(
            Seq::new(
                members.len(),
                |i: int|
                    if 0 <= i < members.len() {
                        (members[i].0, json_value(members[i].1))
                    } else {
                        (Seq::empty(), JsonView::Null)
                    },
            ),
        ),
        _ => json,
    }
}

/// What serde_json reads from a text: the value, or the message of its error.
pub uninterp spec fn parsed_json(text: Seq<char>) -> Result<JsonView, Seq<char>>;

/// The members of an object; of any other value, none.
pub open spec fn members_of(json: JsonView) -> Seq<(Seq<char>, JsonView)> {
    match json {
        JsonView::Object(members) => members,
        _ => Seq::empty(),
    }
}

/// The member of an object with a name.
pub open spec fn member(json: JsonView, name: Seq<char>) -> Option<JsonView> {
    lookup(members_of(json), name)
}

/// The members of one object, with the members of a second one set on top.
pub open spec fn merged(
    base: Seq<(Seq<char>, JsonView)>,
    over: Seq<(Seq<char>, JsonView)>,
) -> Seq<(Seq<char>, JsonView)>
    decreases over.len(),
{
    if over.len() == 0 {
        base
    } else {
        inserted(merged(base, over.drop_last()), over.last().0, over.last().1)
    }
}

/// The rule for a value that must be an object.
pub open spec fn object_check(field: Seq<char>, json: JsonView) -> Checked {
    if json is Object {
        Ok(())
    } else {
        Err(ErrorView::InvalidField { field, reason: "must be a JSON object"@ })
    }
}

/// What becomes of a text that must hold a JSON object, given how it was read.
pub open spec fn object_outcome(
    field: Seq<char>,
    parsed: Result<JsonView, Seq<char>>,
) -> Result<JsonView, ErrorView> {
    match parsed {
        Err(message) => Err(ErrorView::Json { message }),
        Ok(json) => match object_check(field, json) {
            Ok(_) => Ok(json),
            Err(error) => Err(error),
        },
    }
}

/// The view of an array is the views of its items.
pub proof fn lemma_array_view(items: Vec<Json>)
    ensures
        Json::Array(items)@ == JsonView::Array(views(items@)),
{
    assert(Json::Array(items)@->Array_0 =~= views(items@));
}

/// The view of an object is the view of its members.
pub proof fn lemma_object_view(members: NameMap<Json>)
    ensures
        Json::Object(members)@ == JsonView::Object(members@),
{
    assert(Json::Object(members)@->Object_0 =~= members@);
}

/// In an object merged from two, a member of the second one wins; the others are
/// those of the first.
pub proof fn law_merge_prefers_second(
    base: Seq<(Seq<char>, JsonView)>,
    over: Seq<(Seq<char>, JsonView)>,
    name: Seq<char>,
)
    requires
        ascending(names(over)),
    ensures
        lookup(merged(base, over), name) == match lookup(over, name) {
            Some(value) => Some(value),
            None => lookup(base, name),
        },
    decreases over.len(),
{
    if over.len() > 0 {
        let front = over.drop_last();
        let last = over.last();
        assert forall|i: int, j: int| 0 <= i < j < names(front).len() implies crate::text::less_text(
            #[trigger] names(front)[i],
            #[trigger] names(front)[j],
        ) by {
            assert(names(front)[i] == names(over)[i]);
            assert(names(front)[j] == names(over)[j]);
        }
        law_merge_prefers_second(base, front, name);
        crate::name_map::law_lookup_after_insert(merged(base, front), last.0, last.1, name);
        if name == last.0 {
            crate::name_map::law_ascending_unique(over, over.len() - 1);
        }
    }
}

/// Merging keeps the members in order.
pub proof fn law_merge_keeps_order(
    base: Seq<(Seq<char>, JsonView)>,
    over: Seq<(Seq<char>, JsonView)>,
)
    requires
        ascending(names(base)),
    ensures
        ascending(names(merged(base, over))),
    decreases over.len(),
{
    if over.len() > 0 {
        law_merge_keeps_order(base, over.drop_last());
        crate::name_map::law_insert_keeps_order(
            merged(base, over.drop_last()),
            over.last().0,
            over.last().1,
        );
    }
}

/// Merging with an object without members changes nothing.
pub proof fn law_merge_nothing(base: Seq<(Seq<char>, JsonView)>)
    ensures
        merged(base, Seq::empty()) == base,
{
}

impl Clone for Json {
    fn clone(&self) -> (copy: Self)
        ensures
            copy@ == self@,
    {
        copy_json(self)
    }
}

fn copy_json(json: &Json) -> (copy: Json)
    ensures
        copy@ == json@,
    decreases json,
{
    match json {
        Json::Null => Json::Null,
        Json::Bool(flag) => Json::Bool(*flag),
        Json::Number(number) => Json::Number(*number),
        Json::Text(text) => Json::Text(text.clone()),
        Json::Array(items) => {
            let mut copies: Vec<Json> = Vec::new();
            let mut i: usize = 0;
            while i < items.len()
                invariant
                    i <= items@.len(),
                    json is Array,
                    json->Array_0 == *items,
                    views(copies@) =~= views(items@).take(i as int),
                decreases items@.len() - i,
            {
                let ghost before = views(copies@);
                let copy: Json = copy_json(&items[i]);
                copies.push(copy);
                assert(views(copies@) =~= before.push(items@[i as int]@));
                assert(views(items@).take(i + 1) =~= views(items@).take(i as int).push(
                    items@[i as int]@,
                ));
                i = i + 1;
            }
            proof {
                lemma_array_view(*items);
                lemma_array_view(copies);
                assert(views(copies@) =~= views(items@));
            }
            Json::Array(copies)
        },
        Json::Object(members) => {
            let mut copies: Vec<(String, Json)> = Vec::new();
            let mut i: usize = 0;
            while i < members.entries.len()
                invariant
                    i <= members.entries@.len(),
                    json is Object,
                    json->Object_0 == *members,
                    keyed(copies@) =~= members@.take(i as int),
                decreases members.entries@.len() - i,
            {
                let ghost before = keyed(copies@);
                let copy: Json = copy_json(&members.entries[i].1);
                copies.push((members.entries[i].0.clone(), copy));
                assert(keyed(copies@) =~= before.push(members@[i as int]));
                assert(members@.take(i + 1) =~= members@.take(i as int).push(members@[i as int]));
                i = i + 1;
            }
            let copy: NameMap<Json> = NameMap { entries: copies };
            proof {
                lemma_object_view(*members);
                lemma_object_view(copy);
                assert(copy@ =~= members@);
            }
            Json::Object(copy)
        },
    }
}

impl PartialEq for JsonNumber {
    fn eq(&self, other: &Self) -> (same: bool) {
        same_number(*self, *other)
    }
}

impl vstd::std_specs::cmp::PartialEqSpecImpl for JsonNumber {
    open spec fn obeys_eq_spec() -> bool {
        true
    }

    open spec fn eq_spec(&self, other: &Self) -> bool {
        number_value(*self) == number_value(*other)
    }
}

/// Whether two numbers are equal.
pub fn same_number(left: JsonNumber, right: JsonNumber) -> (same: bool)
    ensures
        same == (number_value(left) == number_value(right)),
{
    match (left, right) {
        (JsonNumber::Unsigned(a), JsonNumber::Unsigned(b)) => a == b,
        (JsonNumber::Negative(a), JsonNumber::Negative(b)) => a == b,
        (JsonNumber::Float(a), JsonNumber::Float(b)) => {
            let negative_zero: u64 = 0x8000_0000_0000_0000;
            let a_is_zero: bool = a == 0 || a == negative_zero;
            let b_is_zero: bool = b == 0 || b == negative_zero;
            a == b || a_is_zero && b_is_zero
        },
        _ => false,
    }
}

/// Whether two JSON values are equal.
pub fn same_json(left: &Json, right: &Json) -> (same: bool)
    ensures
        same == (json_value(left@) == json_value(right@)),
    decreases left,
{
    match (left, right) {
        (Json::Null, Json::Null) => true,
        (Json::Bool(a), Json::Bool(b)) => *a == *b,
        (Json::Number(a), Json::Number(b)) => same_number(*a, *b),
        (Json::Text(a), Json::Text(b)) => *a == *b,
        (Json::Array(a), Json::Array(b)) => {
            proof {
                lemma_array_view(*a);
                lemma_array_view(*b);
            }
            let ghost here = json_value(left@)->Array_0;
            let ghost there = json_value(right@)->Array_0;
            if a.len() != b.len() {
                assert(here.len() != there.len());
                return false;
            }
            let mut i: usize = 0;
            while i < a.len()
                invariant
                    i <= a@.len(),
                    a@.len() == b@.len(),
                    *left == Json::Array(*a),
                    left@ == JsonView::Array(views(a@)),
                    right@ == JsonView::Array(views(b@)),
                    json_value(left@) == JsonView::Array(here),
                    json_value(right@) == JsonView::Array(there),
                    here.len() == a@.len(),
                    there.len() == b@.len(),
                    forall|j: int| 0 <= j < i ==> here[j] == there[j],
                decreases a@.len() - i,
            {
                assert(here[i as int] == json_value(a@[i as int]@));
                assert(there[i as int] == json_value(b@[i as int]@));
                if !same_json(&a[i], &b[i]) {
                    return false;
                }
                i = i + 1;
            }
            assert(here =~= there);
            true
        },
        (Json::Object(a), Json::Object(b)) => {
            proof {
                lemma_object_view(*a);
                lemma_object_view(*b);
            }
            let ghost here = json_value(left@)->Object_0;
            let ghost there = json_value(right@)->Object_0;
            if a.entries.len() != b.entries.len() {
                assert(here.len() != there.len());
                return false;
            }
            let mut i: usize = 0;
            while i < a.entries.len()
                invariant
                    i <= a.entries@.len(),
                    a.entries@.len() == b.entries@.len(),
                    *left == Json::Object(*a),
                    left@ == JsonView::Object(a@),
                    right@ == JsonView::Object(b@),
                    json_value(left@) == JsonView::Object(here),
                    json_value(right@) == JsonView::Object(there),
                    here.len() == a.entries@.len(),
                    there.len() == b.entries@.len(),
                    forall|j: int| 0 <= j < i ==> here[j] == there[j],
                decreases a.entries@.len() - i,
            {
                assert(here[i as int] == (a@[i as int].0, json_value(a@[i as int].1)));
                assert(there[i as int] == (b@[i as int].0, json_value(b@[i as int].1)));
                if a.entries[i].0 != b.entries[i].0 || !same_json(
                    &a.entries[i].1,
                    &b.entries[i].1,
                ) {
                    return false;
                }
                i = i + 1;
            }
            assert(here =~= there);
            true
        },
        _ => false,
    }
}

/// An object without members.
pub fn empty_object() -> (json: Json)
    ensures
        json@ == JsonView::Object(Seq::empty()),
{
    let members: NameMap<Json> = NameMap::new();
    proof {
        lemma_object_view(members);
    }
    Json::Object(members)
}

/// Check that a value is an object.
pub fn validate_json_object(field: &'static str, value: &Json) -> (result: Result<
    (),
    SpindleError,
>)
    ensures
        checked(result) == object_check(field@, value@),
{
    match value {
        Json::Object(_) => Ok(()),
        _ => Err(invalid_field(field, "must be a JSON object")),
    }
}

/// The arguments of a routed action: the payload of the event with the static
/// arguments of the route on top. What is not an object counts as an empty one.
pub fn merge_args(event_data: &Json, route_args: &Json) -> (args: Json)
    ensures
        args@ == JsonView::Object(merged(members_of(event_data@), members_of(route_args@))),
{
    let mut members: NameMap<Json> = match event_data.clone() {
        Json::Object(members) => {
            proof {
                lemma_object_view(members);
            }
            members
        },
        _ => NameMap::new(),
    };
    let ghost base = members_of(event_data@);
    assert(members@ == base);
    if let Json::Object(over) = route_args {
        proof {
            lemma_object_view(*over);
        }
        let mut i: usize = 0;
        assert(over@.take(0) =~= Seq::empty());
        while i < over.entries.len()
            invariant
                i <= over.entries@.len(),
                members@ == merged(base, over@.take(i as int)),
            decreases over.entries@.len() - i,
        {
            assert(over@.take(i + 1).drop_last() =~= over@.take(i as int));
            assert(over@.take(i + 1).last() == over@[i as int]);
            members.insert(over.entries[i].0.clone(), over.entries[i].1.clone());
            i = i + 1;
        }
        assert(over@.take(over@.len() as int) =~= over@);
    }
    proof {
        lemma_object_view(members);
    }
    Json::Object(members)
}

/// `serde_json::Value`, a parsed JSON document.
#[verifier::external_type_specification]
#[verifier::external_body]
pub struct ExSerdeJsonValue(serde_json::Value);

/// Moves a `serde_json::Value` into a [`Json`], variant by variant. Nothing is
/// claimed of the result here: [`parse_json_text`] says what it stands for.
#[verifier::external_body]
fn json_of_value(value: Value) -> (json: Json)
{
    match value {
        Value::Null => Json::Null,
        Value::Bool(flag) => Json::Bool(flag),
        Value::Number(number) => Json::Number(match (number.as_u64(), number.as_i64()) {
            (Some(unsigned), _) => JsonNumber::Unsigned(unsigned),
            (None, Some(negative)) => JsonNumber::Negative(negative),
            (None, None) => JsonNumber::Float(number.as_f64().unwrap_or_default().to_bits()),
        }),
        Value::String(text) => Json::Text(text),
        Value::Array(items) => Json::Array(items.into_iter().map(json_of_value).collect()),
        Value::Object(members) => Json::Object(NameMap {
            entries: members.into_iter().map(|(name, item)| (name, json_of_value(item))).collect(),
        }),
    }
}

/// `serde_json::from_str` for a `serde_json::Value`: reads a text as one JSON
/// document. What it reads, and the message of the error where it rejects the
/// text, depends on the text alone; `parsed_json` names it. The members of the
/// outermost object come in the order of their names, as `serde_json::Map`
/// keeps them.
#[verifier::external_body]
fn parse_json_text(input: &str) -> (result: Result<Json, String>)
    ensures
        match result {
            Ok(json) => parsed_json(input@) == Ok::<JsonView, Seq<char>>(json@) && ascending(
                names(members_of(json@)),
            ),
            Err(message) => parsed_json(input@) == Err::<JsonView, Seq<char>>(message@),
        },
{
    serde_json::from_str(input).map(json_of_value).map_err(|error| error.to_string())
}

/// The object in a parsed text, or why there is none.
pub fn object_from(field: &'static str, parsed: Result<Json, String>) -> (result: Result<
    Json,
    SpindleError,
>)
    ensures
        match result {
            Ok(json) => parsed is Ok && json == parsed->Ok_0 && json@ is Object,
            Err(error) => object_outcome(
                field@,
                match parsed {
                    Ok(json) => Ok(json@),
                    Err(message) => Err(message@),
                },
            ) == Err::<JsonView, ErrorView>(error@),
        },
{
    match parsed {
        Err(message) => Err(SpindleError::Json { message }),
        Ok(json) => match validate_json_object(field, &json) {
            Ok(()) => Ok(json),
            Err(error) => Err(error),
        },
    }
}

/// Read a text that must hold a JSON object.
pub fn parse_json_object(field: &'static str, input: &str) -> (result: Result<Json, SpindleError>)
    ensures
        match result {
            Ok(json) => object_outcome(field@, parsed_json(input@)) == Ok::<JsonView, ErrorView>(
                json@,
            ) && ascending(names(members_of(json@))),
            Err(error) => object_outcome(field@, parsed_json(input@)) == Err::<
                JsonView,
                ErrorView,
            >(error@),
        },
{
    object_from(field, parse_json_text(input))
}

/// Two numbers are equal exactly where they are the same, or both are a zero.
pub proof fn law_equal_numbers(left: JsonNumber, right: JsonNumber)
    ensures
        number_value(left) == number_value(right) <==> {
            ||| left == right
            ||| {
                &&& left == JsonNumber::Float(0) || left == JsonNumber::Float(
                    0x8000_0000_0000_0000,
                )
                &&& right == JsonNumber::Float(0) || right == JsonNumber::Float(
                    0x8000_0000_0000_0000,
                )
            }
        },
{
}

/// Whether a negative zero stands somewhere in a value.
pub open spec fn has_negative_zero(json: JsonView) -> bool
    decreases json,
{
    match json {
        JsonView::Number(number) => number == JsonNumber::Float(0x8000_0000_0000_0000),
        JsonView::Array(items) => exists|i: int|
            0 <= i < items.len() && has_negative_zero(#[trigger] items[i]),
        JsonView::Object(members) => exists|i: int|
            0 <= i < members.len() && has_negative_zero((#[trigger] members[i]).1),
        _ => false,
    }
}

/// Values are compared as they are, but for negative zeros: values without any are
/// equal exactly where they are the same.
pub proof fn law_equal_values(left: JsonView, right: JsonView)
    requires
        !has_negative_zero(left),
        !has_negative_zero(right),
    ensures
        json_value(left) == json_value(right) <==> left == right,
{
    lemma_plain_value(left);
    lemma_plain_value(right);
}

proof fn lemma_plain_value(json: JsonView)
    requires
        !has_negative_zero(json),
    ensures
        json_value(json) == json,
    decreases json,
{
    match json {
        JsonView::Array(items) => {
            let values = json_value(json)->Array_0;
            assert forall|i: int| 0 <= i < items.len() implies values[i] == items[i] by {
                assert(!has_negative_zero(items[i]));
                lemma_plain_value(items[i]);
            }
            assert(values =~= items);
        },
        JsonView::Object(members) => {
            let values = json_value(json)->Object_0;
            assert forall|i: int| 0 <= i < members.len() implies values[i] == members[i] by {
                assert(!has_negative_zero(members[i].1));
                lemma_plain_value(members[i].1);
            }
            assert(values =~= members);
        },
        _ => {},
    }
}

/// Reading an object gives the value that the text holds where that is an object, and
/// an error in every other case: that of the parser, or one about the field.
pub proof fn law_only_objects_are_read(field: Seq<char>, parsed: Result<JsonView, Seq<char>>)
    ensures
        object_outcome(field, parsed) is Ok <==> parsed is Ok && parsed->Ok_0 is Object,
        object_outcome(field, parsed) matches Ok(json) ==> parsed == Ok::<JsonView, Seq<char>>(
            json,
        ),
        parsed matches Err(message) ==> object_outcome(field, parsed) == Err::<
            JsonView,
            ErrorView,
        >(ErrorView::Json { message }),
        parsed is Ok && !(parsed->Ok_0 is Object) ==> object_outcome(field, parsed) is Err
            && object_outcome(field, parsed)->Err_0 is InvalidField && object_outcome(
            field,
            parsed,
        )->Err_0->field == field,
{
}

/// A value shows all that it holds.
pub proof fn law_value_shows_all(json: Json)
    ensures
        json is Null <==> json@ is Null,
        json matches Json::Bool(flag) ==> json@ == JsonView::Bool(flag),
        json matches Json::Number(number) ==> json@ == JsonView::Number(number),
        json matches Json::Text(text) ==> json@ == JsonView::Text(text@),
        json matches Json::Array(items) ==> json@ == JsonView::Array(views(items@)),
        json matches Json::Object(members) ==> json@ == JsonView::Object(members@),
{
    match json {
        Json::Array(items) => {
            lemma_array_view(items);
        },
        Json::Object(members) => {
            lemma_object_view(members);
        },
        _ => {},
    }
}

} // verus!
