//! Sets of texts, kept as lists in ascending order.
use vstd::prelude::*;

use crate::name_map::ascending;
use crate::text::{
    contains_text, lemma_less_text_irreflexive, lemma_less_text_total,
    lemma_less_text_transitive, less_text, text_less, views,
};

verus! {

/// How many texts at the front come before a text.
pub open spec fn text_place(texts: Seq<Seq<char>>, text: Seq<char>) -> int
    decreases texts.len(),
{
    if texts.len() == 0 || !less_text(texts[0], text) {
        0
    } else {
        1 + text_place(texts.drop_first(), text)
    }
}

/// A set with a text in it.
pub open spec fn set_with(texts: Seq<Seq<char>>, text: Seq<char>) -> Seq<Seq<char>> {
    if texts.contains(text) {
        texts
    } else {
        texts.insert(text_place(texts, text), text)
    }
}

/// A set with the texts of a list in it.
pub open spec fn set_with_all(texts: Seq<Seq<char>>, additions: Seq<Seq<char>>) -> Seq<Seq<char>>
    decreases additions.len(),
{
    if additions.len() == 0 {
        texts
    } else {
        set_with(set_with_all(texts, additions.drop_last()), additions.last())
    }
}

/// The texts of a list as a set.
pub open spec fn text_set(texts: Seq<Seq<char>>) -> Seq<Seq<char>> {
    set_with_all(Seq::empty(), texts)
}

proof fn lemma_text_place(texts: Seq<Seq<char>>, text: Seq<char>)
    ensures
        0 <= text_place(texts, text) <= texts.len(),
        forall|j: int| 0 <= j < text_place(texts, text) ==> less_text(#[trigger] texts[j], text),
        text_place(texts, text) < texts.len() ==> !less_text(
            texts[text_place(texts, text)],
            text,
        ),
    decreases texts.len(),
{
    if texts.len() > 0 && less_text(texts[0], text) {
        let rest = texts.drop_first();
        lemma_text_place(rest, text);
        assert forall|j: int| 0 <= j < text_place(texts, text) implies less_text(
            #[trigger] texts[j],
            text,
        ) by {
            if j > 0 {
                assert(rest[j - 1] == texts[j]);
            }
        }
    }
}

proof fn lemma_text_place_is(texts: Seq<Seq<char>>, text: Seq<char>, at: int)
    requires
        0 <= at <= texts.len(),
        forall|j: int| 0 <= j < at ==> less_text(#[trigger] texts[j], text),
        at < texts.len() ==> !less_text(texts[at], text),
    ensures
        text_place(texts, text) == at,
    decreases at,
{
    if at > 0 {
        assert(less_text(texts[0], text));
        let rest = texts.drop_first();
        assert forall|j: int| 0 <= j < at - 1 implies less_text(#[trigger] rest[j], text) by {
            assert(rest[j] == texts[j + 1]);
        }
        lemma_text_place_is(rest, text, at - 1);
    }
}

/// A set with a text in it is in order, and holds that text and what it held.
pub proof fn law_set_with(texts: Seq<Seq<char>>, text: Seq<char>)
    requires
        ascending(texts),
    ensures
        ascending(set_with(texts, text)),
        forall|other: Seq<char>|
            set_with(texts, text).contains(other) <==> texts.contains(other) || other == text,
{
    if !texts.contains(text) {
        let spot = text_place(texts, text);
        let after = set_with(texts, text);
        lemma_text_place(texts, text);
        assert forall|i: int, j: int| 0 <= i < j < after.len() implies less_text(
            #[trigger] after[i],
            #[trigger] after[j],
        ) by {
            if j == spot {
                assert(after[i] == texts[i]);
            } else if i == spot {
                assert(after[j] == texts[j - 1]);
                assert(texts[spot] != text);
                lemma_less_text_total(texts[spot], text);
                if j - 1 > spot {
                    lemma_less_text_transitive(text, texts[spot], texts[j - 1]);
                }
            } else {
                let a = if i < spot {
                    i
                } else {
                    i - 1
                };
                let b = if j < spot {
                    j
                } else {
                    j - 1
                };
                assert(after[i] == texts[a]);
                assert(after[j] == texts[b]);
            }
        }
        assert forall|other: Seq<char>|
            after.contains(other) <==> texts.contains(other) || other == text by {
            if texts.contains(other) {
                let k = choose|k: int| 0 <= k < texts.len() && texts[k] == other;
                if k < spot {
                    assert(after[k] == other);
                } else {
                    assert(after[k + 1] == other);
                }
            }
            if other == text {
                assert(after[spot] == text);
            }
            if after.contains(other) && other != text {
                let k = choose|k: int| 0 <= k < after.len() && after[k] == other;
                if k < spot {
                    assert(texts[k] == other);
                } else {
                    assert(texts[k - 1] == other);
                }
            }
        }
    }
}

/// A set with the texts of a list in it is in order, and holds exactly those
/// texts and what it held.
pub proof fn law_set_with_all(texts: Seq<Seq<char>>, additions: Seq<Seq<char>>)
    requires
        ascending(texts),
    ensures
        ascending(set_with_all(texts, additions)),
        forall|other: Seq<char>|
            set_with_all(texts, additions).contains(other) <==> texts.contains(other)
                || additions.contains(other),
    decreases additions.len(),
{
    if additions.len() > 0 {
        let front = additions.drop_last();
        let last = additions.last();
        law_set_with_all(texts, front);
        law_set_with(set_with_all(texts, front), last);
        assert forall|other: Seq<char>|
            set_with_all(texts, additions).contains(other) <==> texts.contains(other)
                || additions.contains(other) by {
            if front.contains(other) {
                let k = choose|k: int| 0 <= k < front.len() && front[k] == other;
                assert(additions[k] == other);
            }
            if other == last {
                assert(additions[additions.len() - 1] == other);
            }
            if additions.contains(other) && other != last {
                let k = choose|k: int| 0 <= k < additions.len() && additions[k] == other;
                assert(front[k] == other);
            }
        }
    }
}

/// The texts of a list as a set are in order, and are the texts of the list.
pub proof fn law_text_set(texts: Seq<Seq<char>>)
    ensures
        ascending(text_set(texts)),
        text_set(texts).no_duplicates(),
        forall|text: Seq<char>| text_set(texts).contains(text) <==> texts.contains(text),
{
    law_set_with_all(Seq::empty(), texts);
    lemma_ascending_distinct(text_set(texts));
}

/// Ascending texts are distinct.
pub proof fn lemma_ascending_distinct(texts: Seq<Seq<char>>)
    requires
        ascending(texts),
    ensures
        texts.no_duplicates(),
{
    assert forall|i: int, j: int| 0 <= i < texts.len() && 0 <= j < texts.len() && i != j implies
        texts[i] != texts[j] by {
        lemma_less_text_irreflexive(texts[i]);
        if i < j {
            assert(less_text(texts[i], texts[j]));
        } else {
            assert(less_text(texts[j], texts[i]));
        }
    }
}

/// Put a text into a set.
pub fn insert_text(texts: &mut Vec<String>, text: String)
    ensures
        views(final(texts)@) == set_with(views(old(texts)@), text@),
{
    let ghost before = views(texts@);
    if contains_text(texts.as_slice(), text.as_str()) {
        return;
    }
    let mut spot: usize = 0;
    while spot < texts.len() && text_less(texts[spot].as_str(), text.as_str())
        invariant
            spot <= texts@.len(),
            views(texts@) == before,
            forall|j: int| 0 <= j < spot ==> less_text(#[trigger] before[j], text@),
        decreases texts@.len() - spot,
    {
        assert(before[spot as int] == texts@[spot as int]@);
        spot = spot + 1;
    }
    proof {
        if spot < before.len() {
            assert(before[spot as int] == texts@[spot as int]@);
        }
        lemma_text_place_is(before, text@, spot as int);
    }
    texts.insert(spot, text);
    assert(views(texts@) =~= before.insert(spot as int, text@));
}

/// Put the texts of a list into a set.
pub fn insert_texts(texts: &mut Vec<String>, additions: &[String])
    ensures
        views(final(texts)@) == set_with_all(views(old(texts)@), views(additions@)),
{
    let ghost before = views(texts@);
    let ghost all = views(additions@);
    let mut i: usize = 0;
    assert(all.take(0) =~= Seq::empty());
    while i < additions.len()
        invariant
            i <= additions@.len(),
            all == views(additions@),
            views(texts@) == set_with_all(before, all.take(i as int)),
        decreases additions@.len() - i,
    {
        assert(all.take(i + 1).drop_last() =~= all.take(i as int));
        assert(all.take(i + 1).last() == additions@[i as int]@);
        insert_text(texts, additions[i].clone());
        i = i + 1;
    }
    assert(all.take(all.len() as int) =~= all);
}

/// The texts of a list in ascending order, each as often as it occurs.
pub open spec fn in_text_order(texts: Seq<Seq<char>>) -> Seq<Seq<char>>
    decreases texts.len(),
{
    if texts.len() == 0 {
        Seq::empty()
    } else {
        let before = in_text_order(texts.drop_last());
        before.insert(text_place(before, texts.last()), texts.last())
    }
}

/// The texts of a list in order are the texts of the list, as often as they occur
/// in it, and none comes before an earlier one.
pub proof fn law_in_text_order(texts: Seq<Seq<char>>)
    ensures
        in_text_order(texts).to_multiset() =~= texts.to_multiset(),
        in_text_order(texts).len() == texts.len(),
        forall|i: int, j: int|
            0 <= i < j < in_text_order(texts).len() ==> !less_text(
                #[trigger] in_text_order(texts)[j],
                #[trigger] in_text_order(texts)[i],
            ),
    decreases texts.len(),
{
    broadcast use vstd::seq_lib::group_to_multiset_ensures;

    if texts.len() > 0 {
        let front = texts.drop_last();
        let last = texts.last();
        let before = in_text_order(front);
        let after = in_text_order(texts);
        law_in_text_order(front);
        lemma_text_place(before, last);
        let spot = text_place(before, last);
        assert(front.push(last) =~= texts);
        assert forall|i: int, j: int| 0 <= i < j < after.len() implies !less_text(
            #[trigger] after[j],
            #[trigger] after[i],
        ) by {
            if j == spot {
                assert(after[i] == before[i]);
                if less_text(last, before[i]) {
                    lemma_less_text_transitive(last, before[i], last);
                    lemma_less_text_irreflexive(last);
                }
            } else if i == spot {
                assert(after[j] == before[j - 1]);
                if less_text(before[j - 1], last) {
                    lemma_less_text_total(before[spot], last);
                    if j - 1 > spot {
                        assert(!less_text(before[j - 1], before[spot]));
                        if less_text(last, before[spot]) {
                            lemma_less_text_transitive(before[j - 1], last, before[spot]);
                        }
                    }
                }
            } else {
                let a = if i < spot {
                    i
                } else {
                    i - 1
                };
                let b = if j < spot {
                    j
                } else {
                    j - 1
                };
                assert(after[i] == before[a]);
                assert(after[j] == before[b]);
            }
        }
    }
}

/// Sort texts.
pub fn sort_texts(texts: &[String]) -> (sorted: Vec<String>)
    ensures
        views(sorted@) == in_text_order(views(texts@)),
{
    let ghost all = views(texts@);
    let mut sorted: Vec<String> = Vec::new();
    let mut i: usize = 0;
    assert(all.take(0) =~= Seq::empty());
    assert(views(sorted@) =~= in_text_order(all.take(0)));
    while i < texts.len()
        invariant
            i <= texts@.len(),
            all == views(texts@),
            views(sorted@) == in_text_order(all.take(i as int)),
        decreases texts@.len() - i,
    {
        let ghost before = views(sorted@);
        let ghost text = texts@[i as int]@;
        assert(all.take(i + 1).drop_last() =~= all.take(i as int));
        assert(all.take(i + 1).last() == text);
        let mut spot: usize = 0;
        while spot < sorted.len() && text_less(sorted[spot].as_str(), texts[i].as_str())
            invariant
                i < texts@.len(),
                text == texts@[i as int]@,
                spot <= sorted@.len(),
                views(sorted@) == before,
                forall|j: int| 0 <= j < spot ==> less_text(#[trigger] before[j], text),
            decreases sorted@.len() - spot,
        {
            assert(before[spot as int] == sorted@[spot as int]@);
            spot = spot + 1;
        }
        proof {
            if spot < before.len() {
                assert(before[spot as int] == sorted@[spot as int]@);
            }
            lemma_text_place_is(before, text, spot as int);
        }
        sorted.insert(spot, texts[i].clone());
        assert(views(sorted@) =~= before.insert(spot as int, text));
        i = i + 1;
    }
    assert(all.take(all.len() as int) =~= all);
    sorted
}

} // verus!
