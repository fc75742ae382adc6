//! The parts of a variable: a name, and the attributes to look up in turn.
use vstd::prelude::*;
use vstd::utf8::*;
use crate::lexer::tag::char_width;
use crate::text::{is_span, lemma_bytes_split, lemma_sub_span, span, At, TemplateString};
use crate::types::Variable;
use crate::words::{
    chars_of, joined_by, law_pieces_make_up_the_text, law_texts_are_joined_in_order, split_on,
};

verus! {

/// The number of bytes up to one of some pieces of text, with a byte between each two of them.
pub open spec fn piece_offset(pieces: Seq<Seq<char>>, i: int) -> int
    decreases i,
{
    if i <= 0 {
        0
    } else {
        piece_offset(pieces, i - 1) + encode_utf8(pieces[i - 1]).len() + 1
    }
}

/// One of some pieces of a text that starts at an offset, and where it lies.
pub open spec fn located_piece(pieces: Seq<Seq<char>>, start: int, i: int) -> (Seq<char>, At) {
    (
        pieces[i],
        (
            (start + piece_offset(pieces, i)) as usize,
            encode_utf8(pieces[i]).len() as usize,
        ),
    )
}

/// The parts of a variable, and where they lie.
pub open spec fn parts_of(template: Seq<char>, at: At) -> Seq<(Seq<char>, At)> {
    let pieces = split_on(span(template, at), '.');
    Seq::new(pieces.len(), |i: int| located_piece(pieces, at.0 as int, i))
}

proof fn lemma_same_offset(a: Seq<Seq<char>>, b: Seq<Seq<char>>, i: int)
    requires
        forall|j: int| 0 <= j < i ==> a[j] == b[j],
    ensures
        piece_offset(a, i) == piece_offset(b, i),
    decreases i,
{
    if i > 0 {
        lemma_same_offset(a, b, i - 1);
    }
}

/// The bytes of a text up to a character, and of that character.
proof fn lemma_bytes_step(s: Seq<char>, i: int)
    requires
        0 <= i < s.len(),
    ensures
        encode_utf8(s.take(i + 1)).len() == encode_utf8(s.take(i)).len() + encode_scalar(
            s[i] as u32,
        ).len(),
{
    let head = s.take(i + 1);
    lemma_bytes_split(head, i);
    assert(head.take(i) =~= s.take(i));
    let tail = head.skip(i);
    assert(tail =~= seq![s[i]]);
    assert(tail.drop_first() =~= Seq::empty());
    reveal_with_fuel(encode_utf8, 2);
}

/// The view of located pieces of text.
pub open spec fn located_texts(parts: Seq<(&str, At)>) -> Seq<(Seq<char>, At)> {
    parts.map_values(|part: (&str, At)| (part.0@, part.1))
}

impl Variable {
    /// The parts of the variable, and where they lie.
    pub fn parts<'t>(&self, template: TemplateString<'t>) -> (r: Vec<(&'t str, At)>)
        requires
            is_span(template@, self.at),
        ensures
            located_texts(r@) == parts_of(template@, self.at),
    {
        let at = self.at;
        let chars = chars_of(template.content(at));
        let ghost all = chars@;
        let ghost start = at.0 as int;
        let mut parts: Vec<(&'t str, At)> = Vec::new();
        let mut i: usize = 0;
        let mut first: usize = 0;
        let mut offset: usize = 0;
        let mut width: usize = 0;
        assert(all.take(0) =~= Seq::empty());
        assert(all.subrange(0, 0) =~= Seq::empty());
        while i < chars.len()
            invariant
                0 <= first <= i <= chars@.len(),
                all == chars@,
                at == self.at,
                start == at.0,
                is_span(template@, at),
                all == span(template@, at),
                offset == encode_utf8(all.take(first as int)).len(),
                width == encode_utf8(all.subrange(first as int, i as int)).len(),
                ({
                    let pieces = split_on(all.take(i as int), '.');
                    &&& pieces.len() == parts@.len() + 1
                    &&& pieces.last() == all.subrange(first as int, i as int)
                    &&& offset == piece_offset(pieces, parts@.len() as int)
                    &&& forall|k: int|
                        0 <= k < parts@.len() ==> (#[trigger] located_texts(parts@)[k])
                            == located_piece(pieces, start, k)
                }),
            decreases chars@.len() - i,
        {
            let c = chars[i];
            let ghost pieces = split_on(all.take(i as int), '.');
            let ghost next = split_on(all.take(i + 1), '.');
            let ghost before = parts@;
            proof {
                assert(all.take(i + 1).drop_last() =~= all.take(i as int));
                lemma_sub_span(template@, at, first as int, i as int);
                lemma_sub_span(template@, at, first as int, i + 1);
                lemma_sub_span(template@, at, i as int, i + 1);
                lemma_bytes_step(all.subrange(first as int, i + 1), i - first);
                assert(all.subrange(first as int, i + 1).take(i - first) =~= all.subrange(
                    first as int,
                    i as int,
                ));
                assert(all.subrange(first as int, i + 1).take(i - first + 1) =~= all.subrange(
                    first as int,
                    i + 1,
                ));
                assert forall|k: int| 0 <= k <= before.len() implies #[trigger] piece_offset(
                    next,
                    k,
                ) == piece_offset(pieces, k) by {
                    lemma_same_offset(next, pieces, k);
                }
            }
            if c == '.' {
                let part_at = (at.0 + offset, width);
                parts.push((template.content(part_at), part_at));
                proof {
                    lemma_bytes_split(all.take(i + 1), first as int);
                    assert(all.take(i + 1).take(first as int) =~= all.take(first as int));
                    assert(all.take(i + 1).skip(first as int) =~= all.subrange(
                        first as int,
                        i + 1,
                    ));
                    assert(next == pieces.push(Seq::empty()));
                    assert(encode_scalar('.' as u32).len() == 1);
                    assert(next[before.len() as int] == pieces.last());
                    assert(piece_offset(next, before.len() as int) == offset);
                    assert(piece_offset(next, before.len() as int + 1) == offset + width + 1);
                    assert(all.subrange(i + 1, i + 1) =~= Seq::empty());
                    assert forall|k: int| 0 <= k < parts@.len() implies (
                    #[trigger] located_texts(parts@)[k]) == located_piece(next, start, k) by {
                        if k < before.len() {
                            assert(located_texts(parts@)[k] == located_texts(before)[k]);
                        }
                    }
                }
                first = i + 1;
                offset = offset + width + 1;
                width = 0;
            } else {
                proof {
                    assert(next == pieces.drop_last().push(pieces.last().push(c)));
                    assert(next.last() =~= all.subrange(first as int, i + 1));
                    assert forall|k: int| 0 <= k < parts@.len() implies (
                    #[trigger] located_texts(parts@)[k]) == located_piece(next, start, k) by {}
                }
                width = width + char_width(c);
            }
            i += 1;
        }
        let ghost before = parts@;
        let ghost pieces = split_on(all, '.');
        proof {
            assert(all.take(i as int) =~= all);
            lemma_sub_span(template@, at, first as int, i as int);
        }
        let part_at = (at.0 + offset, width);
        parts.push((template.content(part_at), part_at));
        assert(located_texts(parts@) =~= parts_of(template@, at)) by {
            assert forall|k: int| 0 <= k < parts@.len() implies (
            #[trigger] located_texts(parts@)[k]) == located_piece(pieces, start, k) by {
                if k < before.len() {
                    assert(located_texts(parts@)[k] == located_texts(before)[k]);
                }
            }
        }
        parts
    }
}

proof fn lemma_bytes_concat(a: Seq<char>, b: Seq<char>)
    ensures
        encode_utf8(a + b).len() == encode_utf8(a).len() + encode_utf8(b).len(),
{
    lemma_bytes_split(a + b, a.len() as int);
    assert((a + b).take(a.len() as int) =~= a);
    assert((a + b).skip(a.len() as int) =~= b);
}

proof fn lemma_bytes_of_a_dot()
    ensures
        encode_utf8(seq!['.']).len() == 1,
{
    lemma_bytes_step(seq!['.'], 0);
    assert(seq!['.'].take(1) =~= seq!['.']);
    assert(seq!['.'].take(0) =~= Seq::empty());
    reveal_with_fuel(encode_utf8, 2);
}

proof fn lemma_joined_bytes(pieces: Seq<Seq<char>>)
    requires
        pieces.len() > 0,
    ensures
        piece_offset(pieces, pieces.len() as int) == encode_utf8(
            joined_by(pieces, seq!['.']),
        ).len() + 1,
    decreases pieces.len(),
{
    let short = pieces.drop_last();
    let last = pieces.last();
    assert(short.push(last) =~= pieces);
    law_texts_are_joined_in_order(short, seq!['.'], last);
    lemma_same_offset(pieces, short, pieces.len() - 1);
    if short.len() > 0 {
        lemma_joined_bytes(short);
        let before = joined_by(short, seq!['.']);
        lemma_bytes_of_a_dot();
        lemma_bytes_concat(before, seq!['.']);
        lemma_bytes_concat(before + seq!['.'], last);
    } else {
        reveal_with_fuel(piece_offset, 2);
    }
}

/// Where a piece lies in the text that the pieces make up.
proof fn find_piece(pieces: Seq<Seq<char>>, i: int) -> (found: (int, int))
    requires
        0 <= i < pieces.len(),
    ensures
        ({
            let text = joined_by(pieces, seq!['.']);
            &&& 0 <= found.0 <= found.1 <= text.len()
            &&& text.subrange(found.0, found.1) == pieces[i]
            &&& encode_utf8(text.take(found.0)).len() == piece_offset(pieces, i)
        }),
    decreases pieces.len(),
{
    let short = pieces.drop_last();
    let last = pieces.last();
    let text = joined_by(pieces, seq!['.']);
    let before = joined_by(short, seq!['.']);
    assert(short.push(last) =~= pieces);
    law_texts_are_joined_in_order(short, seq!['.'], last);
    lemma_same_offset(pieces, short, i);
    if i < short.len() {
        let (from, to) = find_piece(short, i);
        assert(text.subrange(from, to) =~= before.subrange(from, to));
        assert(text.take(from) =~= before.take(from));
        (from, to)
    } else if short.len() == 0 {
        assert(text.subrange(0, text.len() as int) =~= last);
        assert(text.take(0) =~= Seq::empty());
        (0, text.len() as int)
    } else {
        let from: int = before.len() as int + 1;
        assert(text.subrange(from, text.len() as int) =~= last);
        assert(text.take(from) =~= before + seq!['.']);
        lemma_joined_bytes(short);
        lemma_bytes_of_a_dot();
        lemma_bytes_concat(before, seq!['.']);
        (from, text.len() as int)
    }
}

/// The parts of a variable make it up again with a dot between each two of them, none of them holds
/// a dot, and each of them stands in the template where it is said to.
pub proof fn law_parts_stand_where_they_are_said_to(template: Seq<char>, at: At, i: int)
    requires
        is_span(template, at),
        0 <= i < parts_of(template, at).len(),
    ensures
        ({
            let parts = parts_of(template, at);
            &&& is_span(template, parts[i].1)
            &&& span(template, parts[i].1) == parts[i].0
            &&& at.0 <= parts[i].1.0
            &&& parts[i].1.0 + parts[i].1.1 <= at.0 + at.1
            &&& !parts[i].0.contains('.')
            &&& joined_by(Seq::new(parts.len(), |j: int| parts[j].0), seq!['.']) == span(
                template,
                at,
            )
        }),
{
    let text = span(template, at);
    let pieces = split_on(text, '.');
    let parts = parts_of(template, at);
    law_pieces_make_up_the_text(text, '.');
    let (from, to) = find_piece(pieces, i);
    lemma_sub_span(template, at, from, to);
    assert(Seq::new(parts.len(), |j: int| parts[j].0) =~= pieces);
    assert(!pieces[i].contains('.'));
}

} // verus!
