//! Template source text, byte spans into it, and string helpers.
use vstd::prelude::*;
use vstd::utf8::*;
use vstd::string::*;

verus! {

/// A location in a template: the byte offset where it starts, and its length in bytes.
pub type At = (usize, usize);

/// `at` lies within text `s` and both of its ends fall between two characters.
pub open spec fn is_span(s: Seq<char>, at: At) -> bool {
    &&& at.0 + at.1 <= encode_utf8(s).len()
    &&& at.0 + at.1 <= usize::MAX
    &&& is_char_boundary(encode_utf8(s), at.0 as int)
    &&& is_char_boundary(encode_utf8(s), at.0 + at.1)
}

/// The characters of `s` that lie at `at`.
pub open spec fn span(s: Seq<char>, at: At) -> Seq<char> {
    decode_utf8(encode_utf8(s).subrange(at.0 as int, at.0 + at.1))
}

/// Two texts with the same bytes are the same text.
pub proof fn lemma_bytes_determine_text(a: Seq<char>, b: Seq<char>)
    ensures
        encode_utf8(a) == encode_utf8(b) ==> a == b,
{
    encode_utf8_decode_utf8(a);
    encode_utf8_decode_utf8(b);
}

/// A boundary of the whole is a boundary of what precedes a later boundary.
proof fn lemma_boundary_of_prefix(bytes: Seq<u8>, start: int, end: int)
    requires
        valid_utf8(bytes),
        0 <= start <= end <= bytes.len(),
        is_char_boundary(bytes, start),
        is_char_boundary(bytes, end),
    ensures
        valid_utf8(bytes.subrange(0, end)),
        is_char_boundary(bytes.subrange(0, end), start),
{
    valid_utf8_split(bytes, end);
    let head = bytes.subrange(0, end);
    if start == end {
        is_char_boundary_start_end_of_seq(head);
    } else {
        is_char_boundary_iff_not_is_continuation_byte(bytes, start);
        is_char_boundary_iff_not_is_continuation_byte(head, start);
    }
}

/// The bytes of a text are the bytes of its two parts, one after the other.
pub proof fn lemma_bytes_split(s: Seq<char>, n: int)
    requires
        0 <= n <= s.len(),
    ensures
        encode_utf8(s) == encode_utf8(s.take(n)) + encode_utf8(s.skip(n)),
    decreases s.len(),
{
    if n == 0 {
        assert(s.skip(0) =~= s);
        assert(encode_utf8(s) =~= encode_utf8(s.take(0)) + encode_utf8(s));
    } else {
        lemma_bytes_split(s.drop_first(), n - 1);
        assert(s.drop_first().take(n - 1) =~= s.take(n).drop_first());
        assert(s.drop_first().skip(n - 1) =~= s.skip(n));
        assert(encode_utf8(s) =~= encode_utf8(s.take(n)) + encode_utf8(s.skip(n)));
    }
}

/// Between two characters of a text lies a boundary of its bytes.
proof fn lemma_boundary_between(s: Seq<char>, n: int)
    requires
        0 <= n <= s.len(),
    ensures
        encode_utf8(s.take(n)).len() <= encode_utf8(s).len(),
        is_char_boundary(encode_utf8(s), encode_utf8(s.take(n)).len() as int),
{
    lemma_bytes_split(s, n);
    encode_utf8_valid_utf8(s);
    let bytes = encode_utf8(s);
    let k = encode_utf8(s.take(n)).len() as int;
    if k == bytes.len() {
        is_char_boundary_start_end_of_seq(bytes);
    } else {
        let rest = encode_utf8(s.skip(n));
        encode_utf8_valid_utf8(s.skip(n));
        is_char_boundary_iff_not_is_continuation_byte(bytes, k);
        is_char_boundary_iff_not_is_continuation_byte(rest, 0);
        is_char_boundary_start_end_of_seq(rest);
        assert(bytes[k] == rest[0]);
    }
}

/// The text at a location has the bytes that lie there.
pub proof fn lemma_span_bytes(s: Seq<char>, at: At)
    requires
        is_span(s, at),
    ensures
        encode_utf8(span(s, at)) == encode_utf8(s).subrange(at.0 as int, at.0 + at.1),
        encode_utf8(span(s, at)).len() == at.1,
{
    let bytes = encode_utf8(s);
    encode_utf8_valid_utf8(s);
    lemma_boundary_of_prefix(bytes, at.0 as int, at.0 + at.1);
    let head = bytes.subrange(0, at.0 + at.1);
    valid_utf8_split(head, at.0 as int);
    assert(head.subrange(at.0 as int, head.len() as int) =~= bytes.subrange(
        at.0 as int,
        at.0 + at.1,
    ));
    decode_utf8_encode_utf8(bytes.subrange(at.0 as int, at.0 + at.1));
}

/// A run of characters within a located text is itself located: it starts after the bytes of
/// what precedes it.
pub proof fn lemma_sub_span(s: Seq<char>, at: At, from: int, to: int)
    requires
        is_span(s, at),
        0 <= from <= to <= span(s, at).len(),
    ensures
        ({
            let inner = span(s, at);
            let skipped = encode_utf8(inner.take(from)).len();
            let taken = encode_utf8(inner.subrange(from, to)).len();
            &&& skipped + taken <= at.1
            &&& is_span(s, ((at.0 + skipped) as usize, taken as usize))
            &&& span(s, ((at.0 + skipped) as usize, taken as usize)) == inner.subrange(from, to)
        }),
{
    let bytes = encode_utf8(s);
    let inner = span(s, at);
    let inner_bytes = bytes.subrange(at.0 as int, at.0 + at.1);
    encode_utf8_valid_utf8(s);
    lemma_boundary_of_prefix(bytes, at.0 as int, at.0 + at.1);
    let head = bytes.subrange(0, at.0 + at.1);
    valid_utf8_split(head, at.0 as int);
    assert(head.subrange(at.0 as int, head.len() as int) =~= inner_bytes);
    decode_utf8_encode_utf8(inner_bytes);
    lemma_bytes_split(inner, to);
    lemma_bytes_split(inner.take(to), from);
    assert(inner.take(to).take(from) =~= inner.take(from));
    assert(inner.take(to).skip(from) =~= inner.subrange(from, to));
    let p = encode_utf8(inner.take(from)).len() as int;
    let q = encode_utf8(inner.subrange(from, to)).len() as int;
    lemma_boundary_between(inner, from);
    lemma_boundary_between(inner, to);
    lemma_boundary_outward(bytes, at.0 as int, at.0 + at.1, p);
    lemma_boundary_outward(bytes, at.0 as int, at.0 + at.1, p + q);
    let whole = encode_utf8(inner);
    assert(whole == inner_bytes);
    assert(whole.subrange(p, p + q) =~= encode_utf8(inner.subrange(from, to)));
    assert(bytes.subrange(at.0 + p, at.0 + p + q) =~= inner_bytes.subrange(p, p + q));
    encode_utf8_decode_utf8(inner.subrange(from, to));
}

/// A boundary within a part is a boundary of the whole.
proof fn lemma_boundary_outward(bytes: Seq<u8>, start: int, end: int, k: int)
    requires
        valid_utf8(bytes),
        0 <= start <= end <= bytes.len(),
        is_char_boundary(bytes, start),
        is_char_boundary(bytes, end),
        valid_utf8(bytes.subrange(start, end)),
        0 <= k <= end - start,
        is_char_boundary(bytes.subrange(start, end), k),
    ensures
        is_char_boundary(bytes, start + k),
{
    if k < end - start {
        is_char_boundary_iff_not_is_continuation_byte(bytes.subrange(start, end), k);
        is_char_boundary_iff_not_is_continuation_byte(bytes, start + k);
    }
}

/// The part of `s` that lies at `at`.
pub fn slice<'a>(s: &'a str, at: At) -> (r: &'a str)
    requires
        is_span(s@, at),
    ensures
        r@ == span(s@, at),
{
    let len = s.as_bytes().len();
    proof {
        encode_utf8_valid_utf8(s@);
        lemma_boundary_of_prefix(s.spec_bytes(), at.0 as int, at.0 + at.1);
    }
    let (head, _) = s.split_at(at.0 + at.1);
    let (_, part) = head.split_at(at.0);
    proof {
        assert(part.spec_bytes() =~= s.spec_bytes().subrange(at.0 as int, at.0 + at.1));
        encode_utf8_decode_utf8(part@);
    }
    part
}

/// Whether two strings hold the same text.
pub fn str_eq(a: &str, b: &str) -> (r: bool)
    ensures
        r == (a@ == b@),
{
    let x = a.as_bytes();
    let y = b.as_bytes();
    proof {
        lemma_bytes_determine_text(a@, b@);
    }
    if x.len() != y.len() {
        return false;
    }
    let mut i: usize = 0;
    while i < x.len()
        invariant
            0 <= i <= x.len(),
            x.len() == y.len(),
            x@ == encode_utf8(a@),
            y@ == encode_utf8(b@),
            forall|j: int| 0 <= j < i ==> x@[j] == y@[j],
        decreases x.len() - i,
    {
        if x[i] != y[i] {
            return false;
        }
        i += 1;
    }
    assert(x@ =~= y@);
    true
}

/// `a` comes strictly before `b` in lexicographic order of bytes.
pub open spec fn bytes_less(a: Seq<u8>, b: Seq<u8>) -> bool
    decreases a.len(),
{
    if b.len() == 0 {
        false
    } else if a.len() == 0 {
        true
    } else if a[0] != b[0] {
        a[0] < b[0]
    } else {
        bytes_less(a.drop_first(), b.drop_first())
    }
}

/// Strings are ordered by their UTF-8 bytes.
pub open spec fn text_less(a: Seq<char>, b: Seq<char>) -> bool {
    bytes_less(encode_utf8(a), encode_utf8(b))
}

/// Whether `a` sorts before `b`.
pub fn str_less(a: &str, b: &str) -> (r: bool)
    ensures
        r == text_less(a@, b@),
{
    let x = a.as_bytes();
    let y = b.as_bytes();
    let mut i: usize = 0;
    assert(x@.skip(0) =~= x@);
    assert(y@.skip(0) =~= y@);
    while i < x.len() && i < y.len()
        invariant
            0 <= i <= x.len(),
            0 <= i <= y.len(),
            x@ == encode_utf8(a@),
            y@ == encode_utf8(b@),
            bytes_less(x@, y@) == bytes_less(x@.skip(i as int), y@.skip(i as int)),
        decreases x.len() - i,
    {
        assert(x@.skip(i as int).drop_first() =~= x@.skip(i + 1));
        assert(y@.skip(i as int).drop_first() =~= y@.skip(i + 1));
        if x[i] != y[i] {
            return x[i] < y[i];
        }
        i += 1;
    }
    i < y.len()
}

/// The source text of a template.
#[derive(Clone, Copy, Debug, PartialEq, Eq)]
pub struct TemplateString<'t>(pub &'t str);

impl<'t> View for TemplateString<'t> {
    type V = Seq<char>;

    open spec fn view(&self) -> Seq<char> {
        self.0@
    }
}

impl<'t> TemplateString<'t> {
    /// The source text at a location.
    pub fn content(&self, at: At) -> (r: &'t str)
        requires
            is_span(self@, at),
        ensures
            r@ == span(self@, at),
    {
        slice(self.0, at)
    }

    /// The source text at a location, if there is one.
    pub fn get(&self, at: At) -> (r: Option<&'t str>)
        ensures
            match r {
                Some(text) => is_span(self@, at) && text@ == span(self@, at),
                None => !is_span(self@, at),
            },
    {
        let len = self.0.as_bytes().len();
        if at.0 > len || at.1 > len - at.0 {
            return None;
        }
        if self.0.is_char_boundary(at.0) && self.0.is_char_boundary(at.0 + at.1) {
            Some(self.content(at))
        } else {
            None
        }
    }
}

/// The bytes of two texts are the same up to a position, where one of them decides the order.
pub open spec fn decides_at(a: Seq<u8>, b: Seq<u8>, i: int) -> bool {
    &&& 0 <= i <= a.len()
    &&& i < b.len()
    &&& a.take(i) == b.take(i)
    &&& i < a.len() ==> a[i] < b[i]
}

/// One text comes before another just if it is the start of it, or has the smaller byte where they
/// first differ.
pub proof fn law_first_difference_decides(a: Seq<u8>, b: Seq<u8>)
    ensures
        bytes_less(a, b) <==> exists|i: int| #[trigger] decides_at(a, b, i),
    decreases a.len(),
{
    if b.len() > 0 && a.len() > 0 && a[0] == b[0] {
        let (c, d) = (a.drop_first(), b.drop_first());
        law_first_difference_decides(c, d);
        if bytes_less(c, d) {
            let i = choose|i: int| #[trigger] decides_at(c, d, i);
            assert(a.take(i + 1) =~= seq![a[0]] + c.take(i));
            assert(b.take(i + 1) =~= seq![b[0]] + d.take(i));
            assert(decides_at(a, b, i + 1));
        }
        if exists|i: int| #[trigger] decides_at(a, b, i) {
            let i = choose|i: int| #[trigger] decides_at(a, b, i);
            assert(i > 0);
            assert(c.take(i - 1) =~= a.take(i).drop_first());
            assert(d.take(i - 1) =~= b.take(i).drop_first());
            assert(decides_at(c, d, i - 1));
        }
    } else if b.len() > 0 {
        assert(a.take(0) =~= b.take(0));
        if bytes_less(a, b) {
            assert(decides_at(a, b, 0));
        }
        if exists|i: int| #[trigger] decides_at(a, b, i) {
            let i = choose|i: int| #[trigger] decides_at(a, b, i);
            if i > 0 {
                assert(a.take(i)[0] == b.take(i)[0]);
            }
        }
    }
}

} // verus!
