//! Text as sequences of characters: classes, order, search.
use vstd::prelude::*;

verus! {

/// The views of the items of a sequence.
pub open spec fn views<T: View>(items: Seq<T>) -> Seq<T::V> {
    Seq::new(items.len(), |i: int| items[i]@)
}

/// The view of an optional value.
pub open spec fn optional_view<T: View>(value: Option<T>) -> Option<T::V> {
    match value {
        Some(inner) => Some(inner@),
        None => None,
    }
}

/// The characters with the Unicode property `White_Space`.
pub open spec fn is_whitespace(c: char) -> bool {
    let u = c as u32;
    ||| 0x09 <= u <= 0x0d
    ||| u == 0x20
    ||| u == 0x85
    ||| u == 0xa0
    ||| u == 0x1680
    ||| 0x2000 <= u <= 0x200a
    ||| u == 0x2028
    ||| u == 0x2029
    ||| u == 0x202f
    ||| u == 0x205f
    ||| u == 0x3000
}

/// The characters of the Unicode general category `Cc`.
pub open spec fn is_control(c: char) -> bool {
    let u = c as u32;
    u <= 0x1f || 0x7f <= u <= 0x9f
}

/// ASCII letters and digits.
pub open spec fn is_ascii_alphanumeric(c: char) -> bool {
    ||| 'A' <= c <= 'Z'
    ||| 'a' <= c <= 'z'
    ||| '0' <= c <= '9'
}

/// Text that consists of whitespace only; the empty text is blank.
pub open spec fn is_blank(text: Seq<char>) -> bool {
    forall|i: int| 0 <= i < text.len() ==> is_whitespace(#[trigger] text[i])
}

/// Text that holds a control character.
pub open spec fn has_control(text: Seq<char>) -> bool {
    exists|i: int| 0 <= i < text.len() && is_control(#[trigger] text[i])
}

/// The order of texts: by the first character that differs, a proper prefix first.
pub open spec fn less_text(left: Seq<char>, right: Seq<char>) -> bool
    decreases left.len(),
{
    if right.len() == 0 {
        false
    } else if left.len() == 0 {
        true
    } else if left[0] != right[0] {
        left[0] < right[0]
    } else {
        less_text(left.drop_first(), right.drop_first())
    }
}

/// No text comes before itself.
pub proof fn lemma_less_text_irreflexive(text: Seq<char>)
    ensures
        !less_text(text, text),
    decreases text.len(),
{
    if text.len() > 0 {
        lemma_less_text_irreflexive(text.drop_first());
    }
}

/// The order of texts is transitive.
pub proof fn lemma_less_text_transitive(a: Seq<char>, b: Seq<char>, c: Seq<char>)
    requires
        less_text(a, b),
        less_text(b, c),
    ensures
        less_text(a, c),
    decreases a.len(),
{
    if a.len() > 0 && a[0] == b[0] && b[0] == c[0] {
        lemma_less_text_transitive(a.drop_first(), b.drop_first(), c.drop_first());
    }
}

/// Of two different texts, one comes before the other.
pub proof fn lemma_less_text_total(a: Seq<char>, b: Seq<char>)
    ensures
        less_text(a, b) || less_text(b, a) || a == b,
    decreases a.len(),
{
    if a.len() == 0 || b.len() == 0 {
        if a.len() == 0 && b.len() == 0 {
            assert(a =~= b);
        }
    } else if a[0] == b[0] {
        lemma_less_text_total(a.drop_first(), b.drop_first());
        if a.drop_first() == b.drop_first() {
            assert(a =~= seq![a[0]] + a.drop_first());
            assert(b =~= seq![b[0]] + b.drop_first());
        }
    }
}

/// The characters of a text.
pub fn chars_of(text: &str) -> (chars: Vec<char>)
    ensures
        chars@ == text@,
{
    let mut chars: Vec<char> = Vec::new();
    for c in iter: text.chars()
        invariant
            iter.seq() == text@,
            chars@ =~= text@.take(iter.index() as int),
    {
        chars.push(c);
    }
    chars
}

/// Whether two texts hold the same characters.
pub fn same_text(left: &str, right: &str) -> (same: bool)
    ensures
        same == (left@ == right@),
{
    left.to_owned() == right.to_owned()
}

/// Whether a character is whitespace.
pub fn char_is_whitespace(c: char) -> (answer: bool)
    ensures
        answer == is_whitespace(c),
{
    let u: u32 = c as u32;
    (0x09 <= u && u <= 0x0d) || u == 0x20 || u == 0x85 || u == 0xa0 || u == 0x1680
        || (0x2000 <= u && u <= 0x200a) || u == 0x2028 || u == 0x2029 || u == 0x202f
        || u == 0x205f || u == 0x3000
}

/// Whether a character is a control character.
pub fn char_is_control(c: char) -> (answer: bool)
    ensures
        answer == is_control(c),
{
    let u: u32 = c as u32;
    u <= 0x1f || (0x7f <= u && u <= 0x9f)
}

/// Whether a character is an ASCII letter or digit.
pub fn char_is_ascii_alphanumeric(c: char) -> (answer: bool)
    ensures
        answer == is_ascii_alphanumeric(c),
{
    ('A' <= c && c <= 'Z') || ('a' <= c && c <= 'z') || ('0' <= c && c <= '9')
}

/// Whether a text is empty or whitespace only.
pub fn text_is_blank(text: &str) -> (blank: bool)
    ensures
        blank == is_blank(text@),
{
    let chars: Vec<char> = chars_of(text);
    let mut i: usize = 0;
    while i < chars.len()
        invariant
            i <= chars.len(),
            chars@ == text@,
            forall|j: int| 0 <= j < i ==> is_whitespace(#[trigger] text@[j]),
        decreases chars.len() - i,
    {
        if !char_is_whitespace(chars[i]) {
            assert(!is_whitespace(text@[i as int]));
            return false;
        }
        i = i + 1;
    }
    true
}

/// Whether the left text comes before the right one.
pub fn text_less(left: &str, right: &str) -> (less: bool)
    ensures
        less == less_text(left@, right@),
{
    let a: Vec<char> = chars_of(left);
    let b: Vec<char> = chars_of(right);
    let mut i: usize = 0;
    assert(a@.skip(0) =~= a@);
    assert(b@.skip(0) =~= b@);
    while i < a.len() && i < b.len() && a[i] == b[i]
        invariant
            i <= a.len(),
            i <= b.len(),
            a@ == left@,
            b@ == right@,
            less_text(left@, right@) == less_text(a@.skip(i as int), b@.skip(i as int)),
        decreases a.len() - i,
    {
        assert(a@.skip(i as int).drop_first() =~= a@.skip(i + 1));
        assert(b@.skip(i as int).drop_first() =~= b@.skip(i + 1));
        i = i + 1;
    }
    if i == b.len() {
        false
    } else if i == a.len() {
        true
    } else {
        a[i] < b[i]
    }
}

/// The position of the first item that holds the given text.
pub fn position_of_text(values: &[String], value: &str) -> (position: Option<usize>)
    ensures
        match position {
            Some(at) => {
                &&& at < values@.len()
                &&& values@[at as int]@ == value@
                &&& forall|j: int| 0 <= j < at ==> values@[j]@ != value@
            },
            None => forall|j: int| 0 <= j < values@.len() ==> values@[j]@ != value@,
        },
{
    let mut i: usize = 0;
    while i < values.len()
        invariant
            i <= values@.len(),
            forall|j: int| 0 <= j < i ==> values@[j]@ != value@,
        decreases values@.len() - i,
    {
        if same_text(values[i].as_str(), value) {
            return Some(i);
        }
        i = i + 1;
    }
    None
}

/// Whether one of the items holds the given text.
pub fn contains_text(values: &[String], value: &str) -> (found: bool)
    ensures
        found == views(values@).contains(value@),
{
    let position: Option<usize> = position_of_text(values, value);
    match position {
        Some(at) => {
            assert(views(values@)[at as int] == value@);
            true
        },
        None => {
            assert forall|j: int| 0 <= j < views(values@).len() implies views(values@)[j]
                != value@ by {
                assert(views(values@)[j] == values@[j]@);
            }
            false
        },
    }
}

/// A copy of the items.
pub fn owned_texts(values: &[String]) -> (copy: Vec<String>)
    ensures
        copy@ == values@,
{
    let mut copy: Vec<String> = Vec::new();
    let mut i: usize = 0;
    while i < values.len()
        invariant
            i <= values@.len(),
            copy@ =~= values@.take(i as int),
        decreases values@.len() - i,
    {
        copy.push(values[i].clone());
        i = i + 1;
    }
    copy
}

/// One text comes before another where it is the beginning of the other, or has the
/// smaller character at the first place where they differ.
pub proof fn law_text_order(left: Seq<char>, right: Seq<char>)
    ensures
        less_text(left, right) <==> exists|k: int|
            {
                &&& 0 <= k <= left.len()
                &&& k < right.len()
                &&& #[trigger] left.take(k) == right.take(k)
                &&& k == left.len() || left[k] < right[k]
            },
    decreases left.len(),
{
    if right.len() > 0 && left.len() > 0 && left[0] == right[0] {
        let a = left.drop_first();
        let b = right.drop_first();
        law_text_order(a, b);
        if less_text(left, right) {
            let k = choose|k: int|
                {
                    &&& 0 <= k <= a.len()
                    &&& k < b.len()
                    &&& #[trigger] a.take(k) == b.take(k)
                    &&& k == a.len() || a[k] < b[k]
                };
            assert(left.take(k + 1) =~= seq![left[0]] + a.take(k));
            assert(right.take(k + 1) =~= seq![right[0]] + b.take(k));
        }
        if exists|k: int|
            {
                &&& 0 <= k <= left.len()
                &&& k < right.len()
                &&& #[trigger] left.take(k) == right.take(k)
                &&& k == left.len() || left[k] < right[k]
            } {
            let k = choose|k: int|
                {
                    &&& 0 <= k <= left.len()
                    &&& k < right.len()
                    &&& #[trigger] left.take(k) == right.take(k)
                    &&& k == left.len() || left[k] < right[k]
                };
            assert(k > 0);
            assert forall|i: int| 0 <= i < k - 1 implies a[i] == b[i] by {
                assert(left.take(k)[i + 1] == right.take(k)[i + 1]);
            }
            assert(a.take(k - 1) =~= b.take(k - 1));
        }
    } else if right.len() > 0 {
        assert(left.take(0) =~= right.take(0));
        if exists|k: int|
            {
                &&& 0 <= k <= left.len()
                &&& k < right.len()
                &&& #[trigger] left.take(k) == right.take(k)
                &&& k == left.len() || left[k] < right[k]
            } {
            let k = choose|k: int|
                {
                    &&& 0 <= k <= left.len()
                    &&& k < right.len()
                    &&& #[trigger] left.take(k) == right.take(k)
                    &&& k == left.len() || left[k] < right[k]
                };
            if k > 0 {
                assert(left.take(k)[0] == right.take(k)[0]);
            }
        }
    }
}

} // verus!
