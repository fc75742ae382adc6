//! Texts in order.
use vstd::prelude::*;
use vstd::utf8::*;
use crate::dict::views;
use crate::text::{bytes_less, lemma_bytes_determine_text, str_less, text_less};

verus! {

proof fn lemma_bytes_less_irreflexive(a: Seq<u8>)
    ensures
        !bytes_less(a, a),
    decreases a.len(),
{
    if a.len() > 0 {
        lemma_bytes_less_irreflexive(a.drop_first());
    }
}

proof fn lemma_bytes_less_transitive(a: Seq<u8>, b: Seq<u8>, c: Seq<u8>)
    requires
        bytes_less(a, b),
        bytes_less(b, c),
    ensures
        bytes_less(a, c),
    decreases a.len(),
{
    if a.len() > 0 && b.len() > 0 && c.len() > 0 && a[0] == b[0] && b[0] == c[0] {
        lemma_bytes_less_transitive(a.drop_first(), b.drop_first(), c.drop_first());
    }
}

proof fn lemma_bytes_less_total(a: Seq<u8>, b: Seq<u8>)
    ensures
        a == b || bytes_less(a, b) || bytes_less(b, a),
    decreases a.len(),
{
    if a.len() > 0 && b.len() > 0 && a[0] == b[0] {
        lemma_bytes_less_total(a.drop_first(), b.drop_first());
        if a.drop_first() == b.drop_first() {
            assert(a =~= seq![a[0]] + a.drop_first());
            assert(b =~= seq![b[0]] + b.drop_first());
        }
    } else if a.len() == 0 && b.len() == 0 {
        assert(a =~= b);
    }
}

/// No text comes before itself.
pub proof fn law_text_order_irreflexive(a: Seq<char>)
    ensures
        !text_less(a, a),
{
    lemma_bytes_less_irreflexive(encode_utf8(a));
}

/// What comes before a text comes before whatever that text comes before.
pub proof fn law_text_order_transitive(a: Seq<char>, b: Seq<char>, c: Seq<char>)
    requires
        text_less(a, b),
        text_less(b, c),
    ensures
        text_less(a, c),
{
    lemma_bytes_less_transitive(encode_utf8(a), encode_utf8(b), encode_utf8(c));
}

/// Of two different texts one comes before the other.
pub proof fn law_text_order_total(a: Seq<char>, b: Seq<char>)
    ensures
        a == b || text_less(a, b) || text_less(b, a),
{
    lemma_bytes_less_total(encode_utf8(a), encode_utf8(b));
    lemma_bytes_determine_text(a, b);
}

/// Each text comes before those that follow it.
pub open spec fn ascending(texts: Seq<Seq<char>>) -> bool {
    forall|i: int, j: int|
        0 <= i < j < texts.len() ==> text_less(#[trigger] texts[i], #[trigger] texts[j])
}

/// The texts of a set, in order.
pub open spec fn is_listing(texts: Seq<Seq<char>>, set: Set<Seq<char>>) -> bool {
    ascending(texts) && texts.to_set() == set
}

/// The texts of a finite set, in order.
pub open spec fn listing(set: Set<Seq<char>>) -> Seq<Seq<char>> {
    choose|texts: Seq<Seq<char>>| is_listing(texts, set)
}

proof fn lemma_ascending_first(a: Seq<Seq<char>>, b: Seq<Seq<char>>)
    requires
        ascending(a),
        ascending(b),
        a.to_set() == b.to_set(),
        a.len() > 0,
    ensures
        b.len() > 0,
        a[0] == b[0],
{
    assert(a.to_set().contains(a[0]));
    assert(b.contains(a[0]));
    assert(b.to_set().contains(b[0]));
    assert(a.contains(b[0]));
    let k = choose|k: int| 0 <= k < b.len() && b[k] == a[0];
    let m = choose|m: int| 0 <= m < a.len() && a[m] == b[0];
    if k > 0 && m > 0 {
        law_text_order_transitive(a[0], a[m], a[0]);
        law_text_order_irreflexive(a[0]);
    }
}

/// There is but one way to put the texts of a set in order.
pub proof fn law_listing_is_unique(a: Seq<Seq<char>>, b: Seq<Seq<char>>, set: Set<Seq<char>>)
    requires
        is_listing(a, set),
        is_listing(b, set),
    ensures
        a == b,
    decreases a.len(),
{
    if a.len() == 0 {
        if b.len() > 0 {
            assert(b.to_set().contains(b[0]));
            assert(a.contains(b[0]));
        }
        assert(a =~= b);
    } else {
        lemma_ascending_first(a, b);
        let rest = set.remove(a[0]);
        lemma_rest_is_listing(a, set);
        lemma_rest_is_listing(b, set);
        law_listing_is_unique(a.drop_first(), b.drop_first(), rest);
        assert(a =~= seq![a[0]] + a.drop_first());
        assert(b =~= seq![b[0]] + b.drop_first());
    }
}

proof fn lemma_rest_is_listing(a: Seq<Seq<char>>, set: Set<Seq<char>>)
    requires
        is_listing(a, set),
        a.len() > 0,
    ensures
        is_listing(a.drop_first(), set.remove(a[0])),
{
    let rest = a.drop_first();
    assert forall|x: Seq<char>| #[trigger]
        rest.to_set().contains(x) <==> set.remove(a[0]).contains(x) by {
        if rest.contains(x) {
            let i = choose|i: int| 0 <= i < rest.len() && rest[i] == x;
            assert(a[i + 1] == x);
            assert(a.to_set().contains(x));
            if x == a[0] {
                law_text_order_irreflexive(a[0]);
            }
        }
        if set.remove(a[0]).contains(x) {
            assert(a.to_set().contains(x));
            let i = choose|i: int| 0 <= i < a.len() && a[i] == x;
            assert(rest[i - 1] == x);
        }
    }
    assert(rest.to_set() =~= set.remove(a[0]));
}

/// Puts a text that is not there yet into its place.
fn insert_in_order(sorted: &mut Vec<String>, text: String)
    requires
        ascending(views(old(sorted)@)),
        !views(old(sorted)@).contains(text@),
    ensures
        ascending(views(final(sorted)@)),
        views(final(sorted)@).to_set() == views(old(sorted)@).to_set().insert(text@),
{
    let ghost before = views(sorted@);
    let mut i: usize = 0;
    while i < sorted.len() && str_less(sorted[i].as_str(), text.as_str())
        invariant
            0 <= i <= sorted@.len(),
            before == views(sorted@),
            sorted@ == old(sorted)@,
            forall|j: int| 0 <= j < i ==> text_less(#[trigger] before[j], text@),
        decreases sorted@.len() - i,
    {
        assert(before[i as int] == sorted@[i as int]@);
        i += 1;
    }
    proof {
        assert forall|j: int| i <= j < before.len() implies text_less(
            text@,
            #[trigger] before[j],
        ) by {
            assert(before[i as int] == sorted@[i as int]@);
            law_text_order_total(text@, before[i as int]);
            assert(before.contains(before[i as int]));
            if j > i {
                law_text_order_transitive(text@, before[i as int], before[j]);
            }
        }
    }
    sorted.insert(i, text);
    proof {
        let after = views(sorted@);
        assert(after =~= before.insert(i as int, text@));
        assert forall|x: Seq<char>| #[trigger]
            after.to_set().contains(x) <==> before.to_set().insert(text@).contains(x) by {
            if after.contains(x) {
                let j = choose|j: int| 0 <= j < after.len() && after[j] == x;
                if j < i {
                    assert(before[j] == x);
                } else if j > i {
                    assert(before[j - 1] == x);
                }
            }
            if before.contains(x) {
                let j = choose|j: int| 0 <= j < before.len() && before[j] == x;
                if j < i {
                    assert(after[j] == x);
                } else {
                    assert(after[j + 1] == x);
                }
            }
            assert(after[i as int] == text@);
        }
        assert(after.to_set() =~= before.to_set().insert(text@));
    }
}

/// Pushing a text adds it to the set of the texts.
pub proof fn lemma_to_set_push(s: Seq<Seq<char>>, x: Seq<char>)
    ensures
        s.push(x).to_set() == s.to_set().insert(x),
{
    let t = s.push(x);
    assert forall|y: Seq<char>| #[trigger] t.to_set().contains(y) <==> s.to_set().insert(
        x,
    ).contains(y) by {
        if t.contains(y) {
            let j = choose|j: int| 0 <= j < t.len() && t[j] == y;
            if j < s.len() {
                assert(s[j] == y);
            }
        }
        if s.contains(y) {
            let j = choose|j: int| 0 <= j < s.len() && s[j] == y;
            assert(t[j] == y);
        }
        assert(t[s.len() as int] == x);
    }
    assert(t.to_set() =~= s.to_set().insert(x));
}

/// Puts different texts in order.
pub fn sort_texts(texts: &Vec<String>) -> (r: Vec<String>)
    requires
        views(texts@).no_duplicates(),
    ensures
        views(r@) == listing(views(texts@).to_set()),
        is_listing(views(r@), views(texts@).to_set()),
{
    let ghost all = views(texts@);
    let mut r: Vec<String> = Vec::new();
    let mut i: usize = 0;
    assert(views(r@).to_set() =~= all.take(0).to_set());
    while i < texts.len()
        invariant
            0 <= i <= texts@.len(),
            all == views(texts@),
            all.no_duplicates(),
            ascending(views(r@)),
            views(r@).to_set() == all.take(i as int).to_set(),
        decreases texts@.len() - i,
    {
        proof {
            let text = all[i as int];
            if views(r@).contains(text) {
                assert(views(r@).to_set().contains(text));
                assert(all.take(i as int).contains(text));
                let j = choose|j: int| 0 <= j < i && all.take(i as int)[j] == text;
                assert(all[j] == all[i as int]);
            }
            lemma_to_set_push(all.take(i as int), text);
            assert(all.take(i + 1) =~= all.take(i as int).push(text));
        }
        insert_in_order(&mut r, texts[i].clone());
        i += 1;
    }
    proof {
        assert(all.take(i as int) =~= all);
        assert(is_listing(views(r@), all.to_set()));
        law_listing_is_unique(views(r@), listing(all.to_set()), all.to_set());
    }
    r
}

/// Sorting keeps the texts and puts each one before those that it is less than.
pub proof fn law_texts_are_sorted(texts: &Vec<String>, sorted: Vec<String>, text: Seq<char>)
    requires
        call_ensures(sort_texts, (texts,), sorted),
    ensures
        views(sorted@).contains(text) <==> views(texts@).contains(text),
        forall|i: int, j: int|
            0 <= i < j < sorted@.len() ==> text_less(
                (#[trigger] sorted@[i])@,
                (#[trigger] sorted@[j])@,
            ),
{
    let all = views(sorted@);
    assert(all.to_set().contains(text) <==> all.contains(text));
    assert(views(texts@).to_set().contains(text) <==> views(texts@).contains(text));
    assert forall|i: int, j: int| 0 <= i < j < sorted@.len() implies text_less(
        (#[trigger] sorted@[i])@,
        (#[trigger] sorted@[j])@,
    ) by {
        assert(all[i] == sorted@[i]@ && all[j] == sorted@[j]@);
    }
}

/// What is left of texts in order is in order.
pub proof fn lemma_filtered_texts_stay_in_order(texts: Seq<Seq<char>>, kept: spec_fn(Seq<char>) -> bool)
    requires
        ascending(texts),
    ensures
        ascending(texts.filter(kept)),
        forall|text: Seq<char>| #[trigger]
            texts.filter(kept).contains(text) <==> texts.contains(text) && kept(text),
    decreases texts.len(),
{
    reveal(Seq::filter);
    if texts.len() > 0 {
        let before = texts.drop_last();
        let last = texts.last();
        assert forall|i: int, j: int| 0 <= i < j < before.len() implies text_less(
            #[trigger] before[i],
            #[trigger] before[j],
        ) by {
            assert(texts[i] == before[i] && texts[j] == before[j]);
        }
        lemma_filtered_texts_stay_in_order(before, kept);
        let left = before.filter(kept);
        let all = texts.filter(kept);
        assert(all == if kept(last) {
            left.push(last)
        } else {
            left
        });
        assert forall|i: int, j: int| 0 <= i < j < all.len() implies text_less(
            #[trigger] all[i],
            #[trigger] all[j],
        ) by {
            if j == left.len() {
                assert(left.contains(left[i]));
                let k = choose|k: int| 0 <= k < before.len() && before[k] == left[i];
                assert(texts[k] == all[i] && texts[texts.len() - 1] == all[j]);
            } else {
                assert(left[i] == all[i] && left[j] == all[j]);
            }
        }
        assert forall|text: Seq<char>| #[trigger] all.contains(text) <==> texts.contains(text)
            && kept(text) by {
            if all.contains(text) {
                let i = choose|i: int| 0 <= i < all.len() && all[i] == text;
                if i < left.len() {
                    assert(left[i] == text);
                    assert(left.contains(text));
                    let k = choose|k: int| 0 <= k < before.len() && before[k] == text;
                    assert(texts[k] == text);
                } else {
                    assert(texts[texts.len() - 1] == text);
                }
            }
            if texts.contains(text) && kept(text) {
                let k = choose|k: int| 0 <= k < texts.len() && texts[k] == text;
                if k < before.len() {
                    assert(before[k] == text);
                    assert(left.contains(text));
                    let i = choose|i: int| 0 <= i < left.len() && left[i] == text;
                    assert(all[i] == text);
                } else {
                    assert(all[left.len() as int] == text);
                }
            }
        }
    } else {
        assert(texts.filter(kept) =~= Seq::empty());
    }
}

} // verus!
