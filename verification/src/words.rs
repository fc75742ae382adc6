//! Splitting and trimming text.
use vstd::prelude::*;
use vstd::string::*;
use crate::dict::views;
use crate::lexer::tag::white_space;

verus! {

/// The pieces of a text between the occurrences of a character.
pub open spec fn split_on(s: Seq<char>, separator: char) -> Seq<Seq<char>>
    decreases s.len(),
{
    if s.len() == 0 {
        seq![Seq::empty()]
    } else {
        let pieces = split_on(s.drop_last(), separator);
        if s.last() == separator {
            pieces.push(Seq::empty())
        } else {
            pieces.drop_last().push(pieces.last().push(s.last()))
        }
    }
}

/// A text without the whitespace at its start.
pub open spec fn trim_start(s: Seq<char>) -> Seq<char>
    decreases s.len(),
{
    if s.len() > 0 && white_space(s[0]) {
        trim_start(s.drop_first())
    } else {
        s
    }
}

/// A text without the whitespace at its end.
pub open spec fn trim_end(s: Seq<char>) -> Seq<char>
    decreases s.len(),
{
    if s.len() > 0 && white_space(s.last()) {
        trim_end(s.drop_last())
    } else {
        s
    }
}

/// A text without the whitespace at either end.
pub open spec fn trim(s: Seq<char>) -> Seq<char> {
    trim_end(trim_start(s))
}

/// What a text starts with, up to the first whitespace.
pub open spec fn up_to_whitespace(s: Seq<char>) -> Seq<char>
    decreases s.len(),
{
    if s.len() == 0 || white_space(s[0]) {
        Seq::empty()
    } else {
        seq![s[0]] + up_to_whitespace(s.drop_first())
    }
}

/// The first word of a text, if it holds anything but whitespace.
pub open spec fn first_word(s: Seq<char>) -> Option<Seq<char>> {
    let start = trim_start(s);
    if start.len() == 0 {
        None
    } else {
        Some(up_to_whitespace(start))
    }
}

/// The characters of a text.
pub fn chars_of(s: &str) -> (r: Vec<char>)
    ensures
        r@ == s@,
{
    let mut r: Vec<char> = Vec::new();
    for c in it: s.chars()
        invariant
            r@ == it.seq().take(it.index()),
            it.seq() == s@,
    {
        r.push(c);
        assert(it.seq().take(it.index() + 1) =~= it.seq().take(it.index()).push(c));
    }
    assert(r@ =~= s@);
    r
}

/// The views of a list of lists of characters.
pub open spec fn char_lists(v: Seq<Vec<char>>) -> Seq<Seq<char>> {
    v.map_values(|x: Vec<char>| x@)
}

/// The pieces of a text between the occurrences of a character.
pub fn split(s: &str, separator: char) -> (r: Vec<Vec<char>>)
    ensures
        char_lists(r@) == split_on(s@, separator),
        r@.len() > 0,
{
    let chars = chars_of(s);
    let mut pieces: Vec<Vec<char>> = Vec::new();
    let mut last: Vec<char> = Vec::new();
    let mut i: usize = 0;
    assert(char_lists(pieces@).push(last@) =~= split_on(chars@.take(0), separator));
    while i < chars.len()
        invariant
            0 <= i <= chars.len(),
            char_lists(pieces@).push(last@) == split_on(chars@.take(i as int), separator),
        decreases chars.len() - i,
    {
        let c = chars[i];
        let ghost before = char_lists(pieces@).push(last@);
        assert(chars@.take(i + 1).drop_last() =~= chars@.take(i as int));
        if c == separator {
            let mut next: Vec<char> = Vec::new();
            std::mem::swap(&mut next, &mut last);
            pieces.push(next);
            assert(char_lists(pieces@) =~= before);
            assert(char_lists(pieces@).push(last@) =~= before.push(Seq::empty()));
        } else {
            last.push(c);
            assert(before.drop_last() =~= char_lists(pieces@));
            assert(char_lists(pieces@).push(last@) =~= before.drop_last().push(
                before.last().push(c),
            ));
        }
        i += 1;
    }
    assert(chars@.take(i as int) =~= chars@);
    let ghost before = char_lists(pieces@).push(last@);
    pieces.push(last);
    assert(char_lists(pieces@) =~= before);
    pieces
}

proof fn lemma_trim_start(s: Seq<char>, n: int)
    requires
        0 <= n <= s.len(),
        forall|i: int| 0 <= i < n ==> white_space(#[trigger] s[i]),
        n < s.len() ==> !white_space(s[n]),
    ensures
        trim_start(s) == s.skip(n),
    decreases s.len(),
{
    if n > 0 {
        assert forall|i: int| 0 <= i < n - 1 implies white_space(
            #[trigger] s.drop_first()[i],
        ) by {
            assert(white_space(s[i + 1]));
        }
        assert(white_space(s[0]));
        lemma_trim_start(s.drop_first(), n - 1);
        assert(s.drop_first().skip(n - 1) =~= s.skip(n));
    } else {
        assert(s.skip(0) =~= s);
    }
}

proof fn lemma_trim_end(s: Seq<char>, n: int)
    requires
        0 <= n <= s.len(),
        forall|i: int| n <= i < s.len() ==> white_space(#[trigger] s[i]),
        n > 0 ==> !white_space(s[n - 1]),
    ensures
        trim_end(s) == s.take(n),
    decreases s.len(),
{
    if n < s.len() {
        assert(white_space(s[s.len() - 1]));
        assert forall|i: int| n <= i < s.len() - 1 implies white_space(
            #[trigger] s.drop_last()[i],
        ) by {
            assert(white_space(s[i]));
        }
        lemma_trim_end(s.drop_last(), n);
        assert(s.drop_last().take(n) =~= s.take(n));
    } else {
        assert(s.take(n) =~= s);
    }
}

/// The first position that holds no whitespace.
fn skip_whitespace(chars: &Vec<char>) -> (r: usize)
    ensures
        r <= chars@.len(),
        trim_start(chars@) == chars@.skip(r as int),
        r < chars@.len() ==> !white_space(chars@[r as int]),
{
    let mut r: usize = 0;
    while r < chars.len() && chars[r].is_whitespace()
        invariant
            r <= chars@.len(),
            forall|i: int| 0 <= i < r ==> white_space(#[trigger] chars@[i]),
        decreases chars@.len() - r,
    {
        r += 1;
    }
    proof {
        lemma_trim_start(chars@, r as int);
    }
    r
}

/// Whether the characters from one position up to another are those of a word.
fn range_equals(chars: &Vec<char>, from: usize, to: usize, word: &str) -> (r: bool)
    requires
        from <= to <= chars@.len(),
    ensures
        r == (chars@.subrange(from as int, to as int) == word@),
{
    let expected = chars_of(word);
    let ghost range = chars@.subrange(from as int, to as int);
    if to - from != expected.len() {
        return false;
    }
    let mut i: usize = 0;
    while i < expected.len()
        invariant
            0 <= i <= expected@.len(),
            from <= to <= chars@.len(),
            to - from == expected@.len(),
            expected@ == word@,
            range == chars@.subrange(from as int, to as int),
            forall|j: int| 0 <= j < i ==> range[j] == word@[j],
        decreases expected@.len() - i,
    {
        if chars[from + i] != expected[i] {
            assert(range[i as int] != word@[i as int]);
            return false;
        }
        i += 1;
    }
    assert(range =~= word@);
    true
}

/// Whether what is left without the whitespace at either end is a word.
pub fn trimmed_equals(chars: &Vec<char>, word: &str) -> (r: bool)
    ensures
        r == (trim(chars@) == word@),
{
    let start = skip_whitespace(chars);
    let mut end: usize = chars.len();
    while end > start && chars[end - 1].is_whitespace()
        invariant
            start <= end <= chars@.len(),
            forall|i: int| end <= i < chars@.len() ==> white_space(#[trigger] chars@[i]),
        decreases end,
    {
        end -= 1;
    }
    proof {
        let rest = chars@.skip(start as int);
        assert forall|i: int| end - start <= i < rest.len() implies white_space(
            #[trigger] rest[i],
        ) by {
            assert(white_space(chars@[start + i]));
        }
        lemma_trim_end(rest, end - start);
        assert(rest.take(end - start) =~= chars@.subrange(start as int, end as int));
    }
    range_equals(chars, start, end, word)
}

proof fn lemma_up_to_whitespace(s: Seq<char>, n: int)
    requires
        0 <= n <= s.len(),
        forall|i: int| 0 <= i < n ==> !white_space(#[trigger] s[i]),
        n < s.len() ==> white_space(s[n]),
    ensures
        up_to_whitespace(s) == s.take(n),
    decreases s.len(),
{
    if n > 0 {
        assert(!white_space(s[0]));
        assert forall|i: int| 0 <= i < n - 1 implies !white_space(
            #[trigger] s.drop_first()[i],
        ) by {
            assert(!white_space(s[i + 1]));
        }
        lemma_up_to_whitespace(s.drop_first(), n - 1);
        assert(seq![s[0]] + s.drop_first().take(n - 1) =~= s.take(n));
    } else {
        assert(s.take(0) =~= Seq::<char>::empty());
    }
}

/// Whether the first word of a text is the given one.
pub fn first_word_is(text: &str, word: &str) -> (r: bool)
    ensures
        r == (first_word(text@) == Some(word@)),
{
    let chars = chars_of(text);
    let start = skip_whitespace(&chars);
    if start == chars.len() {
        return false;
    }
    let mut end: usize = start;
    while end < chars.len() && !chars[end].is_whitespace()
        invariant
            start <= end <= chars@.len(),
            forall|i: int| start <= i < end ==> !white_space(#[trigger] chars@[i]),
        decreases chars@.len() - end,
    {
        end += 1;
    }
    proof {
        let rest = chars@.skip(start as int);
        assert forall|i: int| 0 <= i < end - start implies !white_space(#[trigger] rest[i]) by {
            assert(!white_space(chars@[start + i]));
        }
        lemma_up_to_whitespace(rest, end - start);
        assert(rest.take(end - start) =~= chars@.subrange(start as int, end as int));
    }
    range_equals(&chars, start, end, word)
}

/// Texts put together, with a separator between each two of them.
pub open spec fn joined_by(texts: Seq<Seq<char>>, separator: Seq<char>) -> Seq<char>
    decreases texts.len(),
{
    if texts.len() == 0 {
        Seq::empty()
    } else if texts.len() == 1 {
        texts[0]
    } else {
        joined_by(texts.drop_last(), separator) + separator + texts.last()
    }
}

/// Puts texts together, with a separator between each two of them.
pub fn join(texts: &Vec<String>, separator: &str) -> (r: String)
    ensures
        r@ == joined_by(views(texts@), separator@),
{
    let mut r = String::new();
    let mut i: usize = 0;
    let ghost all = views(texts@);
    assert(r@ =~= joined_by(all.take(0), separator@));
    while i < texts.len()
        invariant
            0 <= i <= texts@.len(),
            all == views(texts@),
            r@ == joined_by(all.take(i as int), separator@),
        decreases texts@.len() - i,
    {
        let ghost next = all.take(i + 1);
        assert(next.drop_last() =~= all.take(i as int));
        assert(next.last() == texts@[i as int]@);
        if i > 0 {
            r.append(separator);
        }
        r.append(texts[i].as_str());
        assert(r@ =~= joined_by(next, separator@));
        i += 1;
    }
    assert(all.take(i as int) =~= all);
    r
}

/// A text in single quotes.
pub open spec fn quoted(s: Seq<char>) -> Seq<char> {
    "'"@ + s + "'"@
}

/// Puts a text in single quotes.
pub fn quote(s: &str) -> (r: String)
    ensures
        r@ == quoted(s@),
{
    let mut r = "'".to_owned();
    r.append(s);
    r.append("'");
    r
}

/// One more text comes last, after the separator unless it is the only one.
pub proof fn law_texts_are_joined_in_order(texts: Seq<Seq<char>>, separator: Seq<char>, text: Seq<char>)
    ensures
        joined_by(texts.push(text), separator) == (if texts.len() == 0 {
            text
        } else {
            joined_by(texts, separator) + separator + text
        }),
{
    assert(texts.push(text).drop_last() =~= texts);
}

/// The pieces of a text make it up again with the character between them, which none of them holds.
pub proof fn law_pieces_make_up_the_text(s: Seq<char>, separator: char)
    ensures
        joined_by(split_on(s, separator), seq![separator]) == s,
        split_on(s, separator).len() > 0,
        forall|i: int|
            0 <= i < split_on(s, separator).len() ==> !(#[trigger] split_on(
                s,
                separator,
            )[i]).contains(separator),
    decreases s.len(),
{
    let pieces = split_on(s, separator);
    let between = seq![separator];
    if s.len() == 0 {
        assert(pieces[0] =~= s);
    } else {
        let before = s.drop_last();
        let shorter = split_on(before, separator);
        law_pieces_make_up_the_text(before, separator);
        if s.last() == separator {
            law_texts_are_joined_in_order(shorter, between, Seq::empty());
            assert(before + between + Seq::<char>::empty() =~= s);
        } else {
            let head = shorter.drop_last();
            let tail = shorter.last();
            law_texts_are_joined_in_order(head, between, tail);
            law_texts_are_joined_in_order(head, between, tail.push(s.last()));
            assert(head.push(tail) =~= shorter);
            if head.len() == 0 {
                assert(before.push(s.last()) =~= s);
            } else {
                let start = joined_by(head, between) + between;
                assert(start + tail.push(s.last()) =~= (start + tail).push(s.last()));
                assert(before.push(s.last()) =~= s);
            }
            assert forall|i: int| 0 <= i < pieces.len() implies !(
            #[trigger] pieces[i]).contains(separator) by {
                if i == pieces.len() - 1 {
                    assert(!shorter[i].contains(separator));
                    if pieces[i].contains(separator) {
                        let j = choose|j: int|
                            0 <= j < pieces[i].len() && pieces[i][j] == separator;
                        assert(tail[j] == separator);
                    }
                } else {
                    assert(pieces[i] == shorter[i]);
                }
            }
        }
    }
}

/// Where the text without the whitespace at its start lies.
proof fn find_trim_start(s: Seq<char>) -> (from: int)
    ensures
        0 <= from <= s.len(),
        trim_start(s) == s.skip(from),
        forall|i: int| 0 <= i < from ==> white_space(#[trigger] s[i]),
        from < s.len() ==> !white_space(s[from]),
    decreases s.len(),
{
    if s.len() > 0 && white_space(s[0]) {
        let rest = s.drop_first();
        let from = find_trim_start(rest);
        assert(rest.skip(from) =~= s.skip(from + 1));
        assert forall|i: int| 0 <= i < from + 1 implies white_space(#[trigger] s[i]) by {
            if i > 0 {
                assert(rest[i - 1] == s[i]);
            }
        }
        from + 1
    } else {
        assert(s.skip(0) =~= s);
        0
    }
}

/// Where the text without the whitespace at its end lies.
proof fn find_trim_end(s: Seq<char>) -> (to: int)
    ensures
        0 <= to <= s.len(),
        trim_end(s) == s.take(to),
        forall|i: int| to <= i < s.len() ==> white_space(#[trigger] s[i]),
        to > 0 ==> !white_space(s[to - 1]),
    decreases s.len(),
{
    if s.len() > 0 && white_space(s.last()) {
        let rest = s.drop_last();
        let to = find_trim_end(rest);
        assert(rest.take(to) =~= s.take(to));
        assert forall|i: int| to <= i < s.len() implies white_space(#[trigger] s[i]) by {
            if i < rest.len() {
                assert(rest[i] == s[i]);
            }
        }
        to
    } else {
        assert(s.take(s.len() as int) =~= s);
        s.len() as int
    }
}

/// A text lies within another one from one position up to another.
pub open spec fn lies_from_to(part: Seq<char>, s: Seq<char>, from: int, to: int) -> bool {
    0 <= from <= to <= s.len() && part == s.subrange(from, to)
}

/// What is left of a text neither starts nor ends with whitespace, and what is cut off is nothing
/// else.
pub proof fn law_trimming_takes_whitespace_off(s: Seq<char>)
    ensures
        exists|from: int, to: int|
            {
                &&& #[trigger] lies_from_to(trim(s), s, from, to)
                &&& forall|i: int| 0 <= i < from || to <= i < s.len() ==> white_space(#[trigger] s[i])
                &&& from < to ==> !white_space(s[from]) && !white_space(s[to - 1])
            },
{
    let from = find_trim_start(s);
    let rest = s.skip(from);
    let to = find_trim_end(rest);
    assert(rest.take(to) =~= s.subrange(from, from + to));
    assert forall|i: int| 0 <= i < from || from + to <= i < s.len() implies white_space(
        #[trigger] s[i],
    ) by {
        if i >= from {
            assert(rest[i - from] == s[i]);
        }
    }
    if to > 0 {
        assert(rest[to - 1] == s[from + to - 1]);
    }
    assert(lies_from_to(trim(s), s, from, from + to));
}

proof fn find_up_to_whitespace(s: Seq<char>) -> (to: int)
    ensures
        0 <= to <= s.len(),
        up_to_whitespace(s) == s.take(to),
        forall|i: int| 0 <= i < to ==> !white_space(#[trigger] s[i]),
        to < s.len() ==> white_space(s[to]),
    decreases s.len(),
{
    if s.len() == 0 || white_space(s[0]) {
        assert(s.take(0) =~= Seq::empty());
        0
    } else {
        let rest = s.drop_first();
        let to = find_up_to_whitespace(rest);
        assert(seq![s[0]] + rest.take(to) =~= s.take(to + 1));
        assert forall|i: int| 0 <= i < to + 1 implies !white_space(#[trigger] s[i]) by {
            if i > 0 {
                assert(rest[i - 1] == s[i]);
            }
        }
        to + 1
    }
}

/// A text is a run without whitespace within another one, with nothing but whitespace before it
/// and whitespace or nothing after it.
pub open spec fn is_first_word(word: Seq<char>, s: Seq<char>) -> bool {
    exists|from: int, to: int|
        {
            &&& #[trigger] lies_from_to(word, s, from, to)
            &&& from < to
            &&& forall|i: int| 0 <= i < from ==> white_space(#[trigger] s[i])
            &&& forall|i: int| from <= i < to ==> !white_space(#[trigger] s[i])
            &&& to < s.len() ==> white_space(s[to])
        }
}

/// The first word of a text is a run without whitespace, with nothing but whitespace before it and
/// whitespace or nothing after it; only a text of whitespace has none.
pub proof fn law_first_words(s: Seq<char>)
    ensures
        first_word(s) is None ==> forall|i: int| 0 <= i < s.len() ==> white_space(#[trigger] s[i]),
        first_word(s) is Some ==> is_first_word(first_word(s)->0, s),
{
    let from = find_trim_start(s);
    let rest = s.skip(from);
    if rest.len() > 0 {
        assert(rest[0] == s[from]);
        let to = find_up_to_whitespace(rest);
        assert(to != 0);
        assert(rest.take(to) =~= s.subrange(from, from + to));
        assert forall|i: int| from <= i < from + to implies !white_space(#[trigger] s[i]) by {
            assert(rest[i - from] == s[i]);
        }
        if from + to < s.len() {
            assert(rest[to] == s[from + to]);
        }
        assert(trim_start(s) == rest);
        let word = up_to_whitespace(rest);
        assert(lies_from_to(word, s, from, from + to));
        assert(first_word(s) == Some(word));
        assert(is_first_word(word, s));
    }
}

/// Whitespace before a text is taken off it.
proof fn lemma_whitespace_is_taken_off(before: Seq<char>, rest: Seq<char>)
    requires
        forall|i: int| 0 <= i < before.len() ==> white_space(#[trigger] before[i]),
        rest.len() > 0,
        !white_space(rest[0]),
    ensures
        trim_start(before + rest) == rest,
    decreases before.len(),
{
    if before.len() == 0 {
        assert(before + rest =~= rest);
    } else {
        assert(white_space(before[0]));
        assert((before + rest)[0] == before[0]);
        assert((before + rest).drop_first() =~= before.drop_first() + rest);
        assert forall|i: int| 0 <= i < before.drop_first().len() implies white_space(
            #[trigger] before.drop_first()[i],
        ) by {
            assert(before[i + 1] == before.drop_first()[i]);
        }
        lemma_whitespace_is_taken_off(before.drop_first(), rest);
    }
}

proof fn lemma_word_goes_up_to_whitespace(word: Seq<char>, after: Seq<char>)
    requires
        forall|i: int| 0 <= i < word.len() ==> !white_space(#[trigger] word[i]),
        after.len() > 0 ==> white_space(after[0]),
    ensures
        up_to_whitespace(word + after) == word,
    decreases word.len(),
{
    if word.len() == 0 {
        assert(word + after =~= after);
        assert(up_to_whitespace(after) =~= word);
    } else {
        assert(!white_space(word[0]));
        assert((word + after)[0] == word[0]);
        assert((word + after).drop_first() =~= word.drop_first() + after);
        assert forall|i: int| 0 <= i < word.drop_first().len() implies !white_space(
            #[trigger] word.drop_first()[i],
        ) by {
            assert(word[i + 1] == word.drop_first()[i]);
        }
        lemma_word_goes_up_to_whitespace(word.drop_first(), after);
        assert(seq![word[0]] + word.drop_first() =~= word);
    }
}

/// A run without whitespace is the first word wherever nothing but whitespace stands before it and
/// whitespace or nothing after it.
pub proof fn law_words_stand_apart(before: Seq<char>, word: Seq<char>, after: Seq<char>)
    requires
        forall|i: int| 0 <= i < before.len() ==> white_space(#[trigger] before[i]),
        word.len() > 0,
        forall|i: int| 0 <= i < word.len() ==> !white_space(#[trigger] word[i]),
        after.len() > 0 ==> white_space(after[0]),
    ensures
        first_word(before + word + after) == Some(word),
{
    assert(before + word + after =~= before + (word + after));
    assert((word + after)[0] == word[0]);
    lemma_whitespace_is_taken_off(before, word + after);
    lemma_word_goes_up_to_whitespace(word, after);
}

} // verus!
