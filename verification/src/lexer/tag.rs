//! Splitting the source of a tag into its name and the rest.
use vstd::prelude::*;
use vstd::utf8::*;
use vstd::string::*;
use crate::text::{is_span, lemma_bytes_split, lemma_sub_span, span, At, TemplateString};
use crate::{END_TAG_LEN, START_TAG_LEN};

verus! {

/// The Unicode `White_Space` property.
pub uninterp spec fn white_space(c: char) -> bool;

/// `char::is_whitespace` tells whether a character has the `White_Space` property; which
/// characters have it is left to the Unicode tables.
pub assume_specification[ char::is_whitespace ](c: char) -> (r: bool)
    ensures
        r == white_space(c),
;

/// The Unicode `XID_Continue` property.
pub uninterp spec fn xid_continue(c: char) -> bool;

/// `UnicodeXID::is_xid_continue` tells whether a character has the `XID_Continue` property; which
/// characters have it is left to the Unicode tables.
#[verifier::external_body]
fn is_xid_continue(c: char) -> (r: bool)
    ensures
        r == xid_continue(c),
{
    unicode_xid::UnicodeXID::is_xid_continue(c)
}

/// What the lexer of tags needs to know of one character.
#[derive(Clone, Copy, Debug, PartialEq, Eq, Structural)]
pub struct CharClass {
    /// The number of bytes of its UTF-8 encoding.
    pub width: usize,
    pub whitespace: bool,
    /// Whether it may stand in a tag name.
    pub name: bool,
}

/// The class of a character.
pub open spec fn class_of(c: char) -> CharClass {
    CharClass {
        width: encode_scalar(c as u32).len() as usize,
        whitespace: white_space(c),
        name: xid_continue(c),
    }
}

/// The classes of the characters of a text.
pub open spec fn classes_of(s: Seq<char>) -> Seq<CharClass> {
    s.map_values(|c: char| class_of(c))
}

/// The number of bytes of a run of characters.
pub open spec fn width_of(s: Seq<CharClass>) -> nat
    decreases s.len(),
{
    if s.len() == 0 {
        0
    } else {
        width_of(s.drop_last()) + s.last().width as nat
    }
}

/// The length of the longest prefix of whitespace.
pub open spec fn leading_whitespace(s: Seq<CharClass>) -> nat
    decreases s.len(),
{
    if s.len() > 0 && s[0].whitespace {
        1 + leading_whitespace(s.drop_first())
    } else {
        0
    }
}

/// The length of the longest suffix of whitespace.
pub open spec fn trailing_whitespace(s: Seq<CharClass>) -> nat
    decreases s.len(),
{
    if s.len() > 0 && s.last().whitespace {
        1 + trailing_whitespace(s.drop_last())
    } else {
        0
    }
}

/// The length of the longest prefix of name characters.
pub open spec fn leading_name(s: Seq<CharClass>) -> nat
    decreases s.len(),
{
    if s.len() > 0 && s[0].name {
        1 + leading_name(s.drop_first())
    } else {
        0
    }
}

/// The length of the longest prefix without whitespace.
pub open spec fn leading_word(s: Seq<CharClass>) -> nat
    decreases s.len(),
{
    if s.len() > 0 && !s[0].whitespace {
        1 + leading_word(s.drop_first())
    } else {
        0
    }
}

/// What is left without the whitespace at either end.
pub open spec fn trimmed(s: Seq<CharClass>) -> Seq<CharClass> {
    let rest = s.skip(leading_whitespace(s) as int);
    rest.take(rest.len() - trailing_whitespace(rest))
}

/// There is nothing but whitespace.
pub open spec fn blank(s: Seq<CharClass>) -> bool {
    leading_whitespace(s) == s.len()
}

#[derive(Clone, Copy, Debug, PartialEq, Eq)]
pub enum TagLexerError {
    /// Invalid block tag name.
    InvalidTagName { at: At },
    /// Empty block tag.
    EmptyTag { at: At },
}

/// The location of the source of a tag after its name.
#[derive(Clone, Copy, Debug, PartialEq, Eq)]
pub struct TagParts {
    pub at: At,
}

impl TagParts {
    /// The source of the parts.
    pub fn content<'t>(&self, template: TemplateString<'t>) -> (r: &'t str)
        requires
            is_span(template@, self.at),
        ensures
            r@ == span(template@, self.at),
    {
        template.content(self.at)
    }
}

/// A tag: the location of its name, and its parts.
#[derive(Clone, Copy, Debug, PartialEq, Eq)]
pub struct Tag {
    pub at: At,
    pub parts: TagParts,
}

impl Tag {
    /// The name of the tag.
    pub fn content<'t>(&self, template: TemplateString<'t>) -> (r: &'t str)
        requires
            is_span(template@, self.at),
        ensures
            r@ == span(template@, self.at),
    {
        template.content(self.at)
    }
}

/// The tag that a run of characters after an opening delimiter holds; `start` is the byte offset
/// of the first of them.
///
/// The name is the longest prefix of name characters once the surrounding whitespace is gone, and
/// nothing but whitespace may follow it directly.
pub open spec fn tag_of(s: Seq<CharClass>, start: nat) -> Result<Tag, TagLexerError> {
    let body = trimmed(s);
    let first = start + width_of(s.take(leading_whitespace(s) as int));
    let name = leading_name(body);
    let name_width = width_of(body.take(name as int));
    let word_width = width_of(body.take(leading_word(body) as int));
    let rest = body.skip(name as int);
    let gap = width_of(rest.take(leading_whitespace(rest) as int));
    if blank(s) {
        Err(
            TagLexerError::EmptyTag {
                at: (
                    (start - START_TAG_LEN) as usize,
                    (START_TAG_LEN + width_of(s) + END_TAG_LEN) as usize,
                ),
            },
        )
    } else if name < body.len() && word_width > name_width {
        Err(TagLexerError::InvalidTagName { at: (first as usize, word_width as usize) })
    } else {
        Ok(
            Tag {
                at: (first as usize, name_width as usize),
                parts: TagParts {
                    at: (
                        (first + name_width + gap) as usize,
                        (width_of(rest) - gap) as usize,
                    ),
                },
            },
        )
    }
}

proof fn lemma_leading_whitespace(s: Seq<CharClass>, n: nat)
    requires
        n <= s.len(),
        forall|i: int| 0 <= i < n ==> s[i].whitespace,
        n < s.len() ==> !s[n as int].whitespace,
    ensures
        leading_whitespace(s) == n,
    decreases s.len(),
{
    if n > 0 {
        lemma_leading_whitespace(s.drop_first(), (n - 1) as nat);
    }
}

proof fn lemma_trailing_whitespace(s: Seq<CharClass>, n: nat)
    requires
        n <= s.len(),
        forall|i: int| s.len() - n <= i < s.len() ==> s[i].whitespace,
        n < s.len() ==> !s[s.len() - n - 1].whitespace,
    ensures
        trailing_whitespace(s) == n,
    decreases s.len(),
{
    if n > 0 {
        lemma_trailing_whitespace(s.drop_last(), (n - 1) as nat);
    }
}

proof fn lemma_leading_name(s: Seq<CharClass>, n: nat)
    requires
        n <= s.len(),
        forall|i: int| 0 <= i < n ==> s[i].name,
        n < s.len() ==> !s[n as int].name,
    ensures
        leading_name(s) == n,
    decreases s.len(),
{
    if n > 0 {
        lemma_leading_name(s.drop_first(), (n - 1) as nat);
    }
}

proof fn lemma_leading_word(s: Seq<CharClass>, n: nat)
    requires
        n <= s.len(),
        forall|i: int| 0 <= i < n ==> !s[i].whitespace,
        n < s.len() ==> s[n as int].whitespace,
    ensures
        leading_word(s) == n,
    decreases s.len(),
{
    if n > 0 {
        lemma_leading_word(s.drop_first(), (n - 1) as nat);
    }
}

/// The width of a run is the sum of the widths of its two parts.
pub proof fn lemma_width_split(s: Seq<CharClass>, n: int)
    requires
        0 <= n <= s.len(),
    ensures
        width_of(s) == width_of(s.take(n)) + width_of(s.skip(n)),
    decreases s.len(),
{
    if n == s.len() {
        assert(s.take(n) =~= s);
        assert(s.skip(n) =~= Seq::<CharClass>::empty());
    } else {
        lemma_width_split(s.drop_last(), n);
        assert(s.drop_last().take(n) =~= s.take(n));
        assert(s.drop_last().skip(n) =~= s.skip(n).drop_last());
    }
}

/// The bytes of a text are those of its characters, one after the other.
pub proof fn lemma_width_is_bytes(s: Seq<char>)
    ensures
        width_of(classes_of(s)) == encode_utf8(s).len(),
    decreases s.len(),
{
    if s.len() > 0 {
        let cs = classes_of(s);
        lemma_width_is_bytes(s.drop_first());
        lemma_width_split(cs, 1);
        assert(cs.skip(1) =~= classes_of(s.drop_first()));
        assert(cs.take(1).drop_last() =~= Seq::<CharClass>::empty());
        assert(width_of(cs.take(1)) == cs[0].width) by {
            reveal_with_fuel(width_of, 2);
        }
    }
}

/// The number of bytes from position `from` up to position `to`.
fn width_between(s: &Vec<CharClass>, from: usize, to: usize) -> (r: usize)
    requires
        from <= to <= s.len(),
        width_of(s@) <= usize::MAX,
    ensures
        r == width_of(s@.subrange(from as int, to as int)),
{
    let mut r: usize = 0;
    let mut i = from;
    while i < to
        invariant
            from <= i <= to <= s.len(),
            width_of(s@) <= usize::MAX,
            r == width_of(s@.subrange(from as int, i as int)),
        decreases to - i,
    {
        proof {
            let next = s@.subrange(from as int, i + 1);
            assert(next.drop_last() =~= s@.subrange(from as int, i as int));
            lemma_width_split(s@, i + 1);
            lemma_width_split(s@.take(i + 1), from as int);
            assert(s@.take(i + 1).skip(from as int) =~= next);
        }
        r += s[i].width;
        i += 1;
    }
    r
}

/// The first position from `from` on, before `to`, that holds no whitespace.
fn skip_whitespace(s: &Vec<CharClass>, from: usize, to: usize) -> (r: usize)
    requires
        from <= to <= s.len(),
    ensures
        from <= r <= to,
        r - from == leading_whitespace(s@.subrange(from as int, to as int)),
        r < to ==> !s@[r as int].whitespace,
{
    let mut r = from;
    while r < to && s[r].whitespace
        invariant
            from <= r <= to <= s.len(),
            forall|i: int| from <= i < r ==> s@[i].whitespace,
        decreases to - r,
    {
        r += 1;
    }
    proof {
        lemma_leading_whitespace(s@.subrange(from as int, to as int), (r - from) as nat);
    }
    r
}

/// The position after the last character from `from` on that is no whitespace.
fn trim_end(s: &Vec<CharClass>, from: usize) -> (r: usize)
    requires
        from < s.len(),
        !s@[from as int].whitespace,
    ensures
        from < r <= s.len(),
        s.len() - r == trailing_whitespace(s@.skip(from as int)),
{
    let mut r: usize = s.len();
    while s[r - 1].whitespace
        invariant
            from < r <= s.len(),
            !s@[from as int].whitespace,
            forall|i: int| r <= i < s.len() ==> s@[i].whitespace,
        decreases r,
    {
        r -= 1;
    }
    proof {
        lemma_trailing_whitespace(s@.skip(from as int), (s.len() - r) as nat);
    }
    r
}

/// The first position from `from` on, before `to`, that holds no name character.
fn skip_name(s: &Vec<CharClass>, from: usize, to: usize) -> (r: usize)
    requires
        from <= to <= s.len(),
    ensures
        from <= r <= to,
        r - from == leading_name(s@.subrange(from as int, to as int)),
{
    let mut r = from;
    while r < to && s[r].name
        invariant
            from <= r <= to <= s.len(),
            forall|i: int| from <= i < r ==> s@[i].name,
        decreases to - r,
    {
        r += 1;
    }
    proof {
        lemma_leading_name(s@.subrange(from as int, to as int), (r - from) as nat);
    }
    r
}

/// The first position from `from` on, before `to`, that holds whitespace.
fn next_whitespace(s: &Vec<CharClass>, from: usize, to: usize) -> (r: usize)
    requires
        from <= to <= s.len(),
    ensures
        from <= r <= to,
        r - from == leading_word(s@.subrange(from as int, to as int)),
{
    let mut r = from;
    while r < to && !s[r].whitespace
        invariant
            from <= r <= to <= s.len(),
            forall|i: int| from <= i < r ==> !s@[i].whitespace,
        decreases to - r,
    {
        r += 1;
    }
    proof {
        lemma_leading_word(s@.subrange(from as int, to as int), (r - from) as nat);
    }
    r
}

/// Finds the name and the parts of a tag in the classes of its characters.
#[verifier::spinoff_prover]
#[verifier::rlimit(30)]
pub fn lex_tag_classes(s: &Vec<CharClass>, start: usize) -> (r: Result<Tag, TagLexerError>)
    requires
        blank(s@) ==> start >= START_TAG_LEN,
        start + width_of(s@) + END_TAG_LEN <= usize::MAX,
    ensures
        r == tag_of(s@, start as nat),
{
    let len = s.len();
    let lead = skip_whitespace(s, 0, len);
    proof {
        assert(s@.subrange(0, len as int) =~= s@);
        assert(s@.subrange(0, lead as int) =~= s@.take(lead as int));
    }
    if lead == len {
        let width = width_between(s, 0, len);
        return Err(
            TagLexerError::EmptyTag {
                at: (start - START_TAG_LEN, START_TAG_LEN + width + END_TAG_LEN),
            },
        );
    }
    let end = trim_end(s, lead);
    let ghost body = trimmed(s@);
    assert(body =~= s@.subrange(lead as int, end as int));
    let first_width = width_between(s, 0, lead);
    let name = skip_name(s, lead, end);
    let word = next_whitespace(s, lead, end);
    let name_width = width_between(s, lead, name);
    let word_width = width_between(s, lead, word);
    let gap = skip_whitespace(s, name, end);
    let gap_width = width_between(s, name, gap);
    let rest_width = width_between(s, gap, end);
    let ghost rest = body.skip(name - lead);
    assert(body.take(name - lead) =~= s@.subrange(lead as int, name as int));
    assert(body.take(word - lead) =~= s@.subrange(lead as int, word as int));
    assert(rest =~= s@.subrange(name as int, end as int));
    assert(rest.take(gap - name) =~= s@.subrange(name as int, gap as int));
    assert(rest.skip(gap - name) =~= s@.subrange(gap as int, end as int));
    assert(width_of(rest) == gap_width + rest_width) by {
        lemma_width_split(rest, gap - name);
    }
    assert(first_width + name_width + gap_width + rest_width <= width_of(s@)) by {
        lemma_width_split(s@, lead as int);
        lemma_width_split(s@.skip(lead as int), end - lead);
        assert(s@.skip(lead as int).take(end - lead) =~= body);
        lemma_width_split(body, name - lead);
    }
    assert(first_width + word_width <= width_of(s@)) by {
        lemma_width_split(s@, lead as int);
        lemma_width_split(s@.skip(lead as int), end - lead);
        assert(s@.skip(lead as int).take(end - lead) =~= body);
        lemma_width_split(body, word - lead);
    }
    if name < end && word_width > name_width {
        return Err(TagLexerError::InvalidTagName { at: (start + first_width, word_width) });
    }
    Ok(
        Tag {
            at: (start + first_width, name_width),
            parts: TagParts { at: (start + first_width + name_width + gap_width, rest_width) },
        },
    )
}

/// The number of bytes of the UTF-8 encoding of a character.
pub(crate) fn char_width(c: char) -> (r: usize)
    ensures
        r == encode_scalar(c as u32).len(),
{
    let v = c as u32;
    if v <= 0x7f {
        1
    } else if v <= 0x7ff {
        2
    } else if v <= 0xffff {
        3
    } else {
        4
    }
}

/// Tokenize the template source between `{%` and `%}` into a `Tag`.
///
/// A `Tag` has two pieces:
/// * `at` representing the location of the tag name
/// * `parts` representing the location of the rest of the tag source
///
/// Both pieces are trimmed to have no leading or trailing whitespace.
///
/// Returns a `TagLexerError` when the tag is empty or has an invalid name.
pub fn lex_tag(tag: &str, start: usize) -> (r: Result<Tag, TagLexerError>)
    requires
        blank(classes_of(tag@)) ==> start >= START_TAG_LEN,
        start + encode_utf8(tag@).len() + END_TAG_LEN <= usize::MAX,
    ensures
        r == tag_of(classes_of(tag@), start as nat),
{
    let mut classes: Vec<CharClass> = Vec::new();
    for c in it: tag.chars()
        invariant
            it.seq() == tag@,
            classes@ == classes_of(tag@.take(it.index() as int)),
    {
        let class = CharClass {
            width: char_width(c),
            whitespace: c.is_whitespace(),
            name: is_xid_continue(c),
        };
        classes.push(class);
        assert(classes@ =~= classes_of(tag@.take(it.index() + 1)));
    }
    proof {
        assert(tag@.take(tag@.len() as int) =~= tag@);
        lemma_width_is_bytes(tag@);
    }
    lex_tag_classes(&classes, start)
}

/// The name of a tag and its parts lie in the template.
pub proof fn law_tag_lies_in_template(template: Seq<char>, at: At)
    requires
        is_span(template, at),
        tag_of(classes_of(span(template, at)), at.0 as nat) is Ok,
    ensures
        ({
            let tag = tag_of(classes_of(span(template, at)), at.0 as nat)->Ok_0;
            &&& is_span(template, tag.at)
            &&& is_span(template, tag.parts.at)
            &&& at.0 <= tag.at.0
            &&& tag.at.0 + tag.at.1 <= tag.parts.at.0
            &&& tag.parts.at.0 + tag.parts.at.1 <= at.0 + at.1
        }),
{
    lemma_pieces(span(template, at));
    lemma_tag_pieces(template, at);
}

/// The name of a tag is a non-empty run of characters that may stand in a name.
pub proof fn law_tag_name_is_a_name(template: Seq<char>, at: At)
    requires
        is_span(template, at),
        tag_of(classes_of(span(template, at)), at.0 as nat) is Ok,
    ensures
        ({
            let name = span(
                template,
                (tag_of(classes_of(span(template, at)), at.0 as nat)->Ok_0).at,
            );
            &&& name.len() > 0
            &&& forall|i: int| 0 <= i < name.len() ==> xid_continue(#[trigger] name[i])
        }),
{
    lemma_pieces(span(template, at));
    lemma_tag_pieces(template, at);
}

/// The name of a tag does not start with whitespace. It does not end with whitespace either where
/// nothing follows it, nor where no character is both whitespace and one that may stand in a name.
pub proof fn law_tag_name_is_trimmed(template: Seq<char>, at: At)
    requires
        is_span(template, at),
        tag_of(classes_of(span(template, at)), at.0 as nat) is Ok,
    ensures
        ({
            let tag = tag_of(classes_of(span(template, at)), at.0 as nat)->Ok_0;
            let name = span(template, tag.at);
            &&& !white_space(name[0])
            &&& span(template, tag.parts.at).len() == 0 ==> !white_space(name.last())
            &&& (forall|c: char| xid_continue(c) ==> !(#[trigger] white_space(c)))
                ==> !white_space(name.last())
        }),
{
    let s = span(template, at);
    lemma_pieces(s);
    lemma_tag_pieces(template, at);
    let (name_from, name_to, _, _) = pieces(classes_of(s));
    assert(xid_continue(s[name_to - 1]));
}

/// The parts of a tag neither start nor end with whitespace.
pub proof fn law_tag_parts_are_trimmed(template: Seq<char>, at: At)
    requires
        is_span(template, at),
        tag_of(classes_of(span(template, at)), at.0 as nat) is Ok,
    ensures
        ({
            let parts = span(
                template,
                (tag_of(classes_of(span(template, at)), at.0 as nat)->Ok_0).parts.at,
            );
            parts.len() > 0 ==> !white_space(parts[0]) && !white_space(parts.last())
        }),
{
    lemma_pieces(span(template, at));
    lemma_tag_pieces(template, at);
}

proof fn lemma_prefixes(s: Seq<CharClass>)
    ensures
        leading_whitespace(s) <= s.len(),
        forall|i: int| 0 <= i < leading_whitespace(s) ==> s[i].whitespace,
        leading_whitespace(s) < s.len() ==> !s[leading_whitespace(s) as int].whitespace,
        leading_name(s) <= s.len(),
        forall|i: int| 0 <= i < leading_name(s) ==> s[i].name,
        leading_word(s) <= s.len(),
        leading_word(s) > 0 <==> s.len() > 0 && !s[0].whitespace,
    decreases s.len(),
{
    if s.len() > 0 {
        let rest = s.drop_first();
        lemma_prefixes(rest);
        assert forall|i: int| 0 <= i < leading_whitespace(s) implies s[i].whitespace by {
            if i > 0 {
                assert(s[i] == rest[i - 1]);
            }
        }
        assert forall|i: int| 0 <= i < leading_name(s) implies s[i].name by {
            if i > 0 {
                assert(s[i] == rest[i - 1]);
            }
        }
    }
}

proof fn lemma_suffix(s: Seq<CharClass>)
    ensures
        trailing_whitespace(s) <= s.len(),
        trailing_whitespace(s) < s.len() ==> !s[s.len() - trailing_whitespace(s) - 1].whitespace,
        s.len() > 0 && !s[0].whitespace ==> trailing_whitespace(s) < s.len(),
    decreases s.len(),
{
    if s.len() > 0 {
        lemma_suffix(s.drop_last());
    }
}

proof fn lemma_width_positive(s: Seq<char>, n: int)
    requires
        0 < n <= s.len(),
    ensures
        width_of(classes_of(s).take(n)) > 0,
{
    let cs = classes_of(s).take(n);
    assert(cs.last().width > 0) by {
        char_is_scalar(s[n - 1]);
    }
}

/// The positions, among the characters of a tag, where its name starts and ends and where its
/// parts start and end.
spec fn pieces(cs: Seq<CharClass>) -> (int, int, int, int) {
    let lead = leading_whitespace(cs) as int;
    let body = trimmed(cs);
    let name_to = lead + leading_name(body);
    let rest = body.skip(leading_name(body) as int);
    (lead, name_to, name_to + leading_whitespace(rest), lead + body.len())
}

/// The positions are in order, the name is made of name characters and is not empty, and the
/// parts are trimmed.
proof fn lemma_pieces(s: Seq<char>)
    requires
        tag_of(classes_of(s), 0) is Ok,
    ensures
        ({
            let (name_from, name_to, parts_from, parts_to) = pieces(classes_of(s));
            &&& 0 <= name_from < name_to <= parts_from <= parts_to <= s.len()
            &&& forall|i: int| name_from <= i < name_to ==> xid_continue(#[trigger] s[i])
            &&& parts_from < parts_to ==> !white_space(s[parts_from]) && !white_space(
                s[parts_to - 1],
            )
            &&& !white_space(s[name_from])
            &&& parts_from == parts_to ==> name_to == parts_to && !white_space(s[name_to - 1])
            &&& trimmed(classes_of(s)) == classes_of(s.subrange(name_from, parts_to))
        }),
{
    let cs = classes_of(s);
    let lead = leading_whitespace(cs) as int;
    let after = cs.skip(lead);
    lemma_prefixes(cs);
    lemma_suffix(after);
    let body = trimmed(cs);
    let end = lead + body.len();
    assert(body =~= classes_of(s.subrange(lead, end)));
    lemma_prefixes(body);
    let name_to = lead + leading_name(body);
    let rest = body.skip(leading_name(body) as int);
    lemma_prefixes(rest);
    let parts_from = name_to + leading_whitespace(rest);
    if name_to == lead {
        assert(body.take(0) =~= Seq::<CharClass>::empty());
        lemma_width_positive(s.subrange(lead, end), leading_word(body) as int);
        assert(false);
    }
    assert forall|i: int| lead <= i < name_to implies xid_continue(#[trigger] s[i]) by {
        assert(body[i - lead].name);
    }
    assert(!cs[lead].whitespace);
    assert(!after[end - lead - 1].whitespace);
    if name_to < end {
        assert(!rest[end - name_to - 1].whitespace);
    }
    if parts_from < end {
        assert(!rest[parts_from - name_to].whitespace);
        assert(!after[end - lead - 1].whitespace);
    }
}

/// Where the pieces of a tag lie in the template.
proof fn lemma_tag_pieces(template: Seq<char>, at: At)
    requires
        is_span(template, at),
        tag_of(classes_of(span(template, at)), at.0 as nat) is Ok,
    ensures
        ({
            let s = span(template, at);
            let tag = tag_of(classes_of(s), at.0 as nat)->Ok_0;
            let (name_from, name_to, parts_from, parts_to) = pieces(classes_of(s));
            &&& is_span(template, tag.at)
            &&& span(template, tag.at) == s.subrange(name_from, name_to)
            &&& is_span(template, tag.parts.at)
            &&& span(template, tag.parts.at) == s.subrange(parts_from, parts_to)
            &&& at.0 <= tag.at.0
            &&& tag.at.0 + tag.at.1 <= tag.parts.at.0
            &&& tag.parts.at.0 + tag.parts.at.1 <= at.0 + at.1
        }),
{
    let s = span(template, at);
    let cs = classes_of(s);
    lemma_pieces(s);
    let (lead, name_to, parts_from, end) = pieces(cs);
    let body = trimmed(cs);
    let rest = body.skip(name_to - lead);
    assert(cs.take(lead) =~= classes_of(s.take(lead)));
    lemma_width_is_bytes(s.take(lead));
    assert(body.take(name_to - lead) =~= classes_of(s.subrange(lead, name_to)));
    lemma_width_is_bytes(s.subrange(lead, name_to));
    assert(rest.take(parts_from - name_to) =~= classes_of(s.subrange(name_to, parts_from)));
    lemma_width_is_bytes(s.subrange(name_to, parts_from));
    assert(rest.skip(parts_from - name_to) =~= classes_of(s.subrange(parts_from, end)));
    lemma_width_is_bytes(s.subrange(parts_from, end));
    lemma_width_split(rest, parts_from - name_to);
    lemma_sub_span(template, at, lead, name_to);
    lemma_sub_span(template, at, parts_from, end);
    let before = s.take(parts_from);
    lemma_bytes_split(before, name_to);
    assert(before.take(name_to) =~= s.take(name_to));
    assert(before.skip(name_to) =~= s.subrange(name_to, parts_from));
    lemma_bytes_split(s.take(name_to), lead);
    assert(s.take(name_to).take(lead) =~= s.take(lead));
    assert(s.take(name_to).skip(lead) =~= s.subrange(lead, name_to));
}

/// Characters that are all whitespace, of which none may stand in a name.
pub open spec fn is_space(s: Seq<CharClass>) -> bool {
    forall|i: int| 0 <= i < s.len() ==> (#[trigger] s[i]).whitespace && !s[i].name
}

/// A tag as it is written: whitespace, a name, and what follows after whitespace of its own, if
/// anything does.
pub open spec fn spells_tag(
    before: Seq<CharClass>,
    name: Seq<CharClass>,
    gap: Seq<CharClass>,
    parts: Seq<CharClass>,
    after: Seq<CharClass>,
) -> bool {
    &&& is_space(before)
    &&& is_space(gap)
    &&& is_space(after)
    &&& name.len() > 0
    &&& forall|i: int| 0 <= i < name.len() ==> (#[trigger] name[i]).name && !name[i].whitespace
    &&& parts.len() > 0 ==> gap.len() > 0 && !parts[0].whitespace && !parts.last().whitespace
    &&& parts.len() == 0 ==> gap.len() == 0
}

proof fn lemma_width_concat(a: Seq<CharClass>, b: Seq<CharClass>)
    ensures
        width_of(a + b) == width_of(a) + width_of(b),
    decreases b.len(),
{
    if b.len() == 0 {
        assert(a + b =~= a);
    } else {
        assert((a + b).drop_last() =~= a + b.drop_last());
        lemma_width_concat(a, b.drop_last());
    }
}

/// A tag that is written by the rules is read as it is written: its name stands after the
/// whitespace, and its parts after the whitespace that follows the name.
pub proof fn law_tags_are_read_as_written(
    before: Seq<CharClass>,
    name: Seq<CharClass>,
    gap: Seq<CharClass>,
    parts: Seq<CharClass>,
    after: Seq<CharClass>,
    start: nat,
)
    requires
        spells_tag(before, name, gap, parts, after),
        start + width_of(before + name + gap + parts + after) <= usize::MAX,
    ensures
        tag_of(before + name + gap + parts + after, start) matches Ok(tag) && {
            &&& tag.at.0 == start + width_of(before)
            &&& tag.at.1 == width_of(name)
            &&& tag.parts.at.0 == tag.at.0 + tag.at.1 + width_of(gap)
            &&& tag.parts.at.1 == width_of(parts)
        },
{
    let s = before + name + gap + parts + after;
    let body = name + gap + parts;
    let w = before.len();
    assert(s[w as int] == name[0]);
    assert forall|i: int| 0 <= i < w implies s[i].whitespace by {
        assert(s[i] == before[i]);
    }
    lemma_leading_whitespace(s, w);
    let rest = s.skip(w as int);
    assert(rest =~= body + after);
    assert forall|i: int| rest.len() - after.len() <= i < rest.len() implies rest[i].whitespace by {
        assert(rest[i] == after[i - body.len()]);
    }
    assert(!body.last().whitespace) by {
        if parts.len() > 0 {
            assert(body.last() == parts.last());
        } else {
            assert(body =~= name);
            assert(!name[name.len() - 1].whitespace);
        }
    }
    assert(rest[body.len() - 1] == body.last());
    lemma_trailing_whitespace(rest, after.len());
    assert(trimmed(s) =~= body);
    assert forall|i: int| 0 <= i < name.len() implies body[i].name by {
        assert(body[i] == name[i]);
    }
    if gap.len() > 0 {
        assert(body[name.len() as int] == gap[0]);
    }
    lemma_leading_name(body, name.len());
    assert forall|i: int| 0 <= i < name.len() implies !body[i].whitespace by {
        assert(body[i] == name[i]);
    }
    lemma_leading_word(body, name.len());
    assert(body.take(name.len() as int) =~= name);
    let tail = body.skip(name.len() as int);
    assert(tail =~= gap + parts);
    assert forall|i: int| 0 <= i < gap.len() implies tail[i].whitespace by {
        assert(tail[i] == gap[i]);
    }
    if parts.len() > 0 {
        assert(tail[gap.len() as int] == parts[0]);
    }
    lemma_leading_whitespace(tail, gap.len());
    assert(tail.take(gap.len() as int) =~= gap);
    assert(s.take(w as int) =~= before);
    lemma_width_concat(gap, parts);
    lemma_width_concat(name, gap + parts);
    assert(name + (gap + parts) =~= body);
    lemma_width_concat(body, after);
    lemma_width_concat(before, body + after);
    assert(before + (body + after) =~= s);
}

/// A tag of nothing but whitespace is refused as empty, from its opening delimiter to its closing
/// one, and no other tag is.
pub proof fn law_empty_tags_are_refused(s: Seq<CharClass>, start: nat)
    requires
        START_TAG_LEN <= start,
        start + width_of(s) + END_TAG_LEN <= usize::MAX,
    ensures
        (forall|i: int| 0 <= i < s.len() ==> (#[trigger] s[i]).whitespace) <==> tag_of(s, start)
            matches Err(TagLexerError::EmptyTag { .. }),
        tag_of(s, start) matches Err(TagLexerError::EmptyTag { at }) ==> {
            &&& at.0 + 2 == start
            &&& at.0 + at.1 == start + width_of(s) + 2
        },
{
    lemma_prefixes(s);
    if forall|i: int| 0 <= i < s.len() ==> (#[trigger] s[i]).whitespace {
        lemma_leading_whitespace(s, s.len());
    }
}

/// A name that something other than whitespace follows is refused, with all of the word that it
/// stands in.
pub proof fn law_wrong_names_are_refused(
    before: Seq<CharClass>,
    name: Seq<CharClass>,
    more: Seq<CharClass>,
    rest: Seq<CharClass>,
    start: nat,
)
    requires
        is_space(before),
        forall|i: int| 0 <= i < name.len() ==> (#[trigger] name[i]).name && !name[i].whitespace,
        more.len() > 0,
        !more[0].name,
        more[0].width > 0,
        forall|i: int| 0 <= i < more.len() ==> !(#[trigger] more[i]).whitespace,
        rest.len() > 0 ==> rest[0].whitespace,
        rest.len() > 0 ==> !rest.last().whitespace,
        start + width_of(before + name + more + rest) <= usize::MAX,
    ensures
        tag_of(before + name + more + rest, start) matches Err(
            TagLexerError::InvalidTagName { at },
        ) && at.0 == start + width_of(before) && at.1 == width_of(name + more),
{
    let s = before + name + more + rest;
    let word = name + more;
    let body = word + rest;
    let w = before.len();
    assert(s[w as int] == word[0]);
    assert(!word[0].whitespace) by {
        if name.len() > 0 {
            assert(word[0] == name[0]);
        } else {
            assert(word[0] == more[0]);
        }
    }
    assert forall|i: int| 0 <= i < w implies s[i].whitespace by {
        assert(s[i] == before[i]);
    }
    lemma_leading_whitespace(s, w);
    let left = s.skip(w as int);
    assert(left =~= body);
    assert(!body.last().whitespace) by {
        if rest.len() > 0 {
            assert(body.last() == rest.last());
        } else {
            assert(body.last() == more[more.len() - 1]);
        }
    }
    lemma_trailing_whitespace(left, 0);
    assert(trimmed(s) =~= body);
    assert forall|i: int| 0 <= i < name.len() implies body[i].name by {
        assert(body[i] == name[i]);
    }
    assert(body[name.len() as int] == more[0]);
    lemma_leading_name(body, name.len());
    assert forall|i: int| 0 <= i < word.len() implies !body[i].whitespace by {
        if i < name.len() {
            assert(body[i] == name[i]);
        } else {
            assert(body[i] == more[i - name.len()]);
        }
    }
    if rest.len() > 0 {
        assert(body[word.len() as int] == rest[0]);
    }
    lemma_leading_word(body, word.len());
    assert(body.take(name.len() as int) =~= name);
    assert(body.take(word.len() as int) =~= word);
    assert(s.take(w as int) =~= before);
    lemma_width_concat(name, more);
    lemma_width_concat(word, rest);
    lemma_width_concat(before, body);
    assert(before + body =~= s);
    lemma_width_split(more, 1);
    assert(more.take(1).drop_last() =~= Seq::<CharClass>::empty());
    assert(width_of(more.take(1)) >= more[0].width) by {
        reveal_with_fuel(width_of, 2);
    }
}

} // verus!
