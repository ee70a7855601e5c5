//! Character-level text primitives shared by the parsers.
//!
//! Text is handled as a sequence of Unicode scalar values. The executable
//! functions work on a `[char]` buffer that holds the characters of the text
//! and hand back spans into it, so that a caller can slice the text it was
//! given.

use vstd::prelude::*;
use vstd::std_specs::iter::IteratorSpec;

verus! {

/// A half-open range of positions in a buffer of characters.
#[derive(Clone, Copy, Debug, PartialEq, Eq, Structural)]
pub struct Span {
    pub start: usize,
    pub end: usize,
}

impl Span {
    /// The span lies inside a buffer of `len` characters.
    pub open spec fn fits(self, len: nat) -> bool {
        self.start <= self.end <= len
    }

    /// The characters of `s` that the span covers.
    pub open spec fn of(self, s: Seq<char>) -> Seq<char> {
        s.subrange(self.start as int, self.end as int)
    }
}

/// Every span of `spans` lies inside a buffer of `len` characters.
pub open spec fn all_fit(spans: Seq<Span>, len: nat) -> bool {
    forall|k: int| 0 <= k < spans.len() ==> (#[trigger] spans[k]).fits(len)
}

/// The pieces of `s` that `spans` cover, in order.
pub open spec fn pieces(s: Seq<char>, spans: Seq<Span>) -> Seq<Seq<char>> {
    Seq::new(spans.len(), |k: int| spans[k].of(s))
}

/// What separates the fields of a text.
#[derive(Clone, Copy, Debug, PartialEq, Eq, Structural)]
pub enum Delimiter {
    /// One given character.
    Char(char),
    /// Any character with the Unicode property `White_Space`.
    Whitespace,
}

/// The characters with the Unicode property `White_Space`.
pub open spec fn is_whitespace(c: char) -> bool {
    let n = c as u32;
    ||| 0x09 <= n <= 0x0D
    ||| n == 0x20
    ||| n == 0x85
    ||| n == 0xA0
    ||| n == 0x1680
    ||| 0x2000 <= n <= 0x200A
    ||| n == 0x2028
    ||| n == 0x2029
    ||| n == 0x202F
    ||| n == 0x205F
    ||| n == 0x3000
}

/// Tells whether `c` has the Unicode property `White_Space`.
pub fn whitespace(c: char) -> (b: bool)
    ensures
        b == is_whitespace(c),
{
    let n: u32 = c as u32;
    (0x09 <= n && n <= 0x0D) || n == 0x20 || n == 0x85 || n == 0xA0 || n == 0x1680 || (0x2000 <= n
        && n <= 0x200A) || n == 0x2028 || n == 0x2029 || n == 0x202F || n == 0x205F || n == 0x3000
}

impl Delimiter {
    /// The delimiter matches the character `c`.
    pub open spec fn matches(self, c: char) -> bool {
        match self {
            Delimiter::Char(d) => c == d,
            Delimiter::Whitespace => is_whitespace(c),
        }
    }

    /// Tells whether the delimiter matches `c`.
    pub fn is_match(&self, c: char) -> (b: bool)
        ensures
            b == self.matches(c),
    {
        match self {
            Delimiter::Char(d) => c == *d,
            Delimiter::Whitespace => whitespace(c),
        }
    }
}

/// The fields of `s` between the characters that `d` matches. A text with
/// `n` delimiters has `n + 1` fields, some of which may be empty.
pub open spec fn split(s: Seq<char>, d: Delimiter) -> Seq<Seq<char>>
    decreases s.len(),
{
    if s.len() == 0 {
        seq![Seq::<char>::empty()]
    } else {
        let before = split(s.drop_last(), d);
        if d.matches(s.last()) {
            before.push(Seq::<char>::empty())
        } else {
            before.drop_last().push(before.last().push(s.last()))
        }
    }
}

/// The characters of `s`, in order.
pub fn to_chars(s: &str) -> (v: Vec<char>)
    ensures
        v@ == s@,
{
    broadcast use vstd::string::group_string_axioms;

    let mut v: Vec<char> = Vec::new();
    let mut it = s.chars();
    loop
        invariant
            v@ + it.remaining() == s@,
            it.decrease() is Some,
        ensures
            v@ == s@,
        decreases it.decrease()->0,
    {
        match it.next() {
            Some(c) => {
                v.push(c);
            },
            None => {
                break;
            },
        }
    }
    v
}

/// The string that holds the characters of `text` which `span` covers.
pub fn string_of(text: &str, span: Span) -> (s: String)
    requires
        span.fits(text@.len()),
    ensures
        s@ == span.of(text@),
{
    text.substring_char(span.start, span.end).to_owned()
}

/// The spans of the fields of `s` between the characters that `d` matches.
pub fn split_spans(s: &[char], d: Delimiter) -> (spans: Vec<Span>)
    ensures
        all_fit(spans@, s@.len()),
        pieces(s@, spans@) == split(s@, d),
{
    let mut spans: Vec<Span> = Vec::new();
    let mut start: usize = 0;
    let mut i: usize = 0;
    assert(s@.take(0).len() == 0);
    assert(pieces(s@, spans@).push(s@.subrange(0, 0)) =~~= seq![Seq::<char>::empty()]);
    while i < s.len()
        invariant
            start <= i <= s@.len(),
            all_fit(spans@, i as nat),
            pieces(s@, spans@).push(s@.subrange(start as int, i as int)) == split(
                s@.take(i as int),
                d,
            ),
        decreases s@.len() - i,
    {
        let ghost before = split(s@.take(i as int), d);
        let ghost done = pieces(s@, spans@);
        let ghost open = s@.subrange(start as int, i as int);
        let c = s[i];
        assert(s@.take(i + 1).drop_last() =~= s@.take(i as int));
        assert(s@.take(i + 1).last() == c);
        assert(before.last() == open);
        assert(before.drop_last() =~~= done);
        if d.is_match(c) {
            spans.push(Span { start, end: i });
            start = i + 1;
            assert(pieces(s@, spans@) =~~= before);
            assert(pieces(s@, spans@).push(s@.subrange(start as int, i + 1)) =~~= before.push(
                Seq::<char>::empty(),
            ));
        } else {
            assert(s@.subrange(start as int, i + 1) =~= open.push(c));
            assert(pieces(s@, spans@).push(s@.subrange(start as int, i + 1)) =~~= before.drop_last().push(
                open.push(c),
            ));
        }
        i += 1;
    }
    assert(s@.take(i as int) =~= s@);
    let ghost done = pieces(s@, spans@);
    let ghost open = s@.subrange(start as int, i as int);
    spans.push(Span { start, end: i });
    assert(pieces(s@, spans@) =~~= done.push(open));
    spans
}


/// `s` begins with `prefix`.
pub open spec fn starts_with(s: Seq<char>, prefix: Seq<char>) -> bool {
    prefix.len() <= s.len() && s.subrange(0, prefix.len() as int) == prefix
}

/// `s` ends with `suffix`.
pub open spec fn ends_with(s: Seq<char>, suffix: Seq<char>) -> bool {
    suffix.len() <= s.len() && s.subrange(s.len() - suffix.len(), s.len() as int) == suffix
}

/// `pattern` occurs in `s` as a run of adjacent characters.
pub open spec fn contains_run(s: Seq<char>, pattern: Seq<char>) -> bool {
    exists|i: int|
        0 <= i && i + pattern.len() <= s.len() && #[trigger] s.subrange(i, i + pattern.len())
            == pattern
}

/// `i` is the first position of `s` at which `d` matches.
pub open spec fn is_first_match(s: Seq<char>, d: Delimiter, i: int) -> bool {
    &&& 0 <= i < s.len()
    &&& d.matches(s[i])
    &&& forall|j: int| 0 <= j < i ==> !d.matches(#[trigger] s[j])
}

/// `d` matches no character of `s`.
pub open spec fn no_match(s: Seq<char>, d: Delimiter) -> bool {
    forall|j: int| 0 <= j < s.len() ==> !d.matches(#[trigger] s[j])
}

/// `s` without one carriage return at its end, if it has one.
pub open spec fn strip_cr(s: Seq<char>) -> Seq<char> {
    if s.len() > 0 && s.last() == '\r' {
        s.drop_last()
    } else {
        s
    }
}

/// The lines of `s`. A line ends at a line feed; a carriage return just
/// before that line feed belongs to the line ending. Text after the last line
/// feed is a line of its own unless it is empty.
pub open spec fn lines(s: Seq<char>) -> Seq<Seq<char>> {
    let fields = split(s, Delimiter::Char('\n'));
    let ended = Seq::new((fields.len() - 1) as nat, |k: int| strip_cr(fields[k]));
    if fields.last().len() == 0 {
        ended
    } else {
        ended.push(fields.last())
    }
}

/// The members of `fields` that hold at least one character, in order.
pub open spec fn nonempty(fields: Seq<Seq<char>>) -> Seq<Seq<char>>
    decreases fields.len(),
{
    if fields.len() == 0 {
        Seq::empty()
    } else {
        let before = nonempty(fields.drop_last());
        if fields.last().len() > 0 {
            before.push(fields.last())
        } else {
            before
        }
    }
}

/// The words of `s`: its maximal runs of characters that are not white space.
pub open spec fn words(s: Seq<char>) -> Seq<Seq<char>> {
    nonempty(split(s, Delimiter::Whitespace))
}

/// `s` without the white space at its start.
pub open spec fn trim_start(s: Seq<char>) -> Seq<char>
    decreases s.len(),
{
    if s.len() > 0 && is_whitespace(s[0]) {
        trim_start(s.drop_first())
    } else {
        s
    }
}

/// `s` without the white space at its end.
pub open spec fn trim_end(s: Seq<char>) -> Seq<char>
    decreases s.len(),
{
    if s.len() > 0 && is_whitespace(s.last()) {
        trim_end(s.drop_last())
    } else {
        s
    }
}

/// `s` without the white space at its start and at its end.
pub open spec fn trim(s: Seq<char>) -> Seq<char> {
    trim_end(trim_start(s))
}

/// `a` comes before `b` in the lexicographic order of their scalar values.
pub open spec fn precedes(a: Seq<char>, b: Seq<char>) -> bool {
    exists|k: int| #[trigger] differ_at(a, b, k)
}

/// `a` and `b` agree on their first `k` characters, and at position `k`
/// either `a` ends while `b` goes on, or `a` holds the smaller character.
pub open spec fn differ_at(a: Seq<char>, b: Seq<char>, k: int) -> bool {
    &&& 0 <= k <= a.len()
    &&& k < b.len()
    &&& a.take(k) == b.take(k)
    &&& (k == a.len() || (a[k] as int) < (b[k] as int))
}

/// A text has at least one field.
pub proof fn lemma_split_nonempty(s: Seq<char>, d: Delimiter)
    ensures
        split(s, d).len() >= 1,
    decreases s.len(),
{
    if s.len() > 0 {
        lemma_split_nonempty(s.drop_last(), d);
    }
}

/// A text in which the delimiter matches nothing is one field.
pub proof fn lemma_split_single(s: Seq<char>, d: Delimiter)
    requires
        no_match(s, d),
    ensures
        split(s, d) == seq![s],
    decreases s.len(),
{
    if s.len() > 0 {
        lemma_split_single(s.drop_last(), d);
        assert(seq![s.drop_last()].drop_last().push(s.drop_last().push(s.last())) =~~= seq![s]);
    } else {
        assert(seq![Seq::<char>::empty()] =~~= seq![s]);
    }
}

/// Splitting two texts joined by one delimiter gives the fields of the first
/// followed by the fields of the second.
pub proof fn lemma_split_join(a: Seq<char>, c: char, b: Seq<char>, d: Delimiter)
    requires
        d.matches(c),
    ensures
        split(a.push(c) + b, d) == split(a, d) + split(b, d),
    decreases b.len(),
{
    lemma_split_nonempty(a, d);
    if b.len() == 0 {
        assert(a.push(c) + b =~= a.push(c));
        assert(a.push(c).drop_last() =~= a);
        assert(split(a, d).push(Seq::<char>::empty()) =~~= split(a, d) + split(b, d));
    } else {
        let whole = a.push(c) + b;
        lemma_split_join(a, c, b.drop_last(), d);
        lemma_split_nonempty(b.drop_last(), d);
        assert(whole.drop_last() =~= a.push(c) + b.drop_last());
        assert(whole.last() == b.last());
        let left = split(a, d);
        let right = split(b.drop_last(), d);
        assert((left + right).last() == right.last());
        assert((left + right).drop_last() =~~= left + right.drop_last());
        if d.matches(b.last()) {
            assert((left + right).push(Seq::<char>::empty()) =~~= left + right.push(
                Seq::<char>::empty(),
            ));
        } else {
            assert((left + right.drop_last()).push(right.last().push(b.last())) =~~= left
                + right.drop_last().push(right.last().push(b.last())));
        }
    }
}

/// Tells whether the characters that `span` covers are exactly `other`.
pub fn span_equals(chars: &[char], span: Span, other: &[char]) -> (b: bool)
    requires
        span.fits(chars@.len()),
    ensures
        b == (span.of(chars@) == other@),
{
    if span.end - span.start != other.len() {
        return false;
    }
    let mut i: usize = 0;
    while i < other.len()
        invariant
            span.fits(chars@.len()),
            span.end - span.start == other@.len(),
            i <= other@.len(),
            span.of(chars@).take(i as int) == other@.take(i as int),
        decreases other@.len() - i,
    {
        if chars[span.start + i] != other[i] {
            assert(span.of(chars@)[i as int] != other@[i as int]);
            return false;
        }
        assert(span.of(chars@).take(i + 1) =~= span.of(chars@).take(i as int).push(
            chars@[span.start + i],
        ));
        assert(other@.take(i + 1) =~= other@.take(i as int).push(other@[i as int]));
        i += 1;
    }
    assert(span.of(chars@).take(i as int) =~= span.of(chars@));
    assert(other@.take(i as int) =~= other@);
    true
}

/// Tells whether the characters that `span` covers begin with `prefix`.
pub fn span_starts_with(chars: &[char], span: Span, prefix: &[char]) -> (b: bool)
    requires
        span.fits(chars@.len()),
    ensures
        b == starts_with(span.of(chars@), prefix@),
{
    if span.end - span.start < prefix.len() {
        return false;
    }
    let head = Span { start: span.start, end: span.start + prefix.len() };
    assert(head.of(chars@) =~= span.of(chars@).subrange(0, prefix@.len() as int));
    span_equals(chars, head, prefix)
}

/// Tells whether the characters that `span` covers end with `suffix`.
pub fn span_ends_with(chars: &[char], span: Span, suffix: &[char]) -> (b: bool)
    requires
        span.fits(chars@.len()),
    ensures
        b == ends_with(span.of(chars@), suffix@),
{
    if span.end - span.start < suffix.len() {
        return false;
    }
    let tail = Span { start: span.end - suffix.len(), end: span.end };
    assert(tail.of(chars@) =~= span.of(chars@).subrange(
        span.of(chars@).len() - suffix@.len(),
        span.of(chars@).len() as int,
    ));
    span_equals(chars, tail, suffix)
}

/// Tells whether `pattern` occurs among the characters that `span` covers.
pub fn span_contains(chars: &[char], span: Span, pattern: &[char]) -> (b: bool)
    requires
        span.fits(chars@.len()),
    ensures
        b == contains_run(span.of(chars@), pattern@),
{
    let ghost s = span.of(chars@);
    if pattern.len() == 0 {
        assert(s.subrange(0int, 0int + pattern@.len()) =~= pattern@);
        return true;
    }
    if span.end - span.start < pattern.len() {
        return false;
    }
    let last: usize = span.end - pattern.len();
    let mut i: usize = span.start;
    while i <= last
        invariant
            span.fits(chars@.len()),
            s == span.of(chars@),
            pattern@.len() > 0,
            last == span.end - pattern@.len(),
            span.start <= i <= last + 1,
            forall|j: int|
                0 <= j < i - span.start ==> #[trigger] s.subrange(j, j + pattern@.len())
                    != pattern@,
        decreases last + 1 - i,
    {
        let here = Span { start: i, end: i + pattern.len() };
        assert(here.of(chars@) =~= s.subrange(i - span.start, i - span.start + pattern@.len()));
        if span_equals(chars, here, pattern) {
            return true;
        }
        i += 1;
    }
    false
}

/// The first position in `span` at which `d` matches, if there is one.
pub fn find_match(chars: &[char], span: Span, d: Delimiter) -> (at: Option<usize>)
    requires
        span.fits(chars@.len()),
    ensures
        match at {
            Some(i) => span.start <= i < span.end && is_first_match(
                span.of(chars@),
                d,
                i - span.start,
            ),
            None => no_match(span.of(chars@), d),
        },
{
    let mut i: usize = span.start;
    while i < span.end
        invariant
            span.fits(chars@.len()),
            span.start <= i <= span.end,
            forall|j: int| 0 <= j < i - span.start ==> !d.matches(#[trigger] span.of(chars@)[j]),
        decreases span.end - i,
    {
        if d.is_match(chars[i]) {
            assert(span.of(chars@)[i - span.start] == chars@[i as int]);
            return Some(i);
        }
        assert(span.of(chars@)[i - span.start] == chars@[i as int]);
        i += 1;
    }
    None
}

/// The span of `span` without the white space at its two ends.
pub fn trim_span(chars: &[char], span: Span) -> (inner: Span)
    requires
        span.fits(chars@.len()),
    ensures
        inner.fits(chars@.len()),
        span.start <= inner.start,
        inner.end <= span.end,
        inner.of(chars@) == trim(span.of(chars@)),
{
    let mut lo: usize = span.start;
    while lo < span.end && whitespace(chars[lo])
        invariant
            span.fits(chars@.len()),
            span.start <= lo <= span.end,
            trim_start(span.of(chars@)) == trim_start(chars@.subrange(lo as int, span.end as int)),
        decreases span.end - lo,
    {
        assert(chars@.subrange(lo as int, span.end as int).drop_first() =~= chars@.subrange(
            lo + 1,
            span.end as int,
        ));
        lo += 1;
    }
    assert(trim_start(span.of(chars@)) == chars@.subrange(lo as int, span.end as int));
    let mut hi: usize = span.end;
    while lo < hi && whitespace(chars[hi - 1])
        invariant
            span.fits(chars@.len()),
            lo <= hi <= span.end,
            trim(span.of(chars@)) == trim_end(chars@.subrange(lo as int, hi as int)),
        decreases hi - lo,
    {
        assert(chars@.subrange(lo as int, hi as int).drop_last() =~= chars@.subrange(
            lo as int,
            hi - 1,
        ));
        hi -= 1;
    }
    Span { start: lo, end: hi }
}

/// The spans of the lines of `s`.
pub fn line_spans(s: &[char]) -> (spans: Vec<Span>)
    ensures
        all_fit(spans@, s@.len()),
        pieces(s@, spans@) == lines(s@),
{
    let fields = split_spans(s, Delimiter::Char('\n'));
    let ghost all = split(s@, Delimiter::Char('\n'));
    proof {
        lemma_split_nonempty(s@, Delimiter::Char('\n'));
    }
    let mut spans: Vec<Span> = Vec::new();
    let n: usize = fields.len() - 1;
    let mut k: usize = 0;
    while k < n
        invariant
            n + 1 == fields@.len(),
            k <= n,
            all_fit(fields@, s@.len()),
            all_fit(spans@, s@.len()),
            pieces(s@, fields@) == all,
            pieces(s@, spans@) == Seq::new(k as nat, |j: int| strip_cr(all[j])),
        decreases n - k,
    {
        let field = fields[k];
        let ghost before = pieces(s@, spans@);
        assert(field.fits(s@.len()));
        assert(all[k as int] == field.of(s@));
        let line = if field.start < field.end && s[field.end - 1] == '\r' {
            Span { start: field.start, end: (field.end - 1) as usize }
        } else {
            field
        };
        assert(line.of(s@) =~= strip_cr(field.of(s@)));
        spans.push(line);
        assert(pieces(s@, spans@) =~~= before.push(line.of(s@)));
        k += 1;
        assert(pieces(s@, spans@) =~~= Seq::new(k as nat, |j: int| strip_cr(all[j])));
    }
    let rest = fields[n];
    assert(rest.fits(s@.len()));
    assert(all.last() == rest.of(s@));
    if rest.start < rest.end {
        let ghost before = pieces(s@, spans@);
        spans.push(rest);
        assert(pieces(s@, spans@) =~~= before.push(rest.of(s@)));
    }
    spans
}

/// The spans of the words of the part of `s` that `within` covers.
pub fn word_spans(s: &[char], within: Span) -> (spans: Vec<Span>)
    requires
        within.fits(s@.len()),
    ensures
        all_fit(spans@, s@.len()),
        pieces(s@, spans@) == words(within.of(s@)),
{
    let ghost text = within.of(s@);
    let mut spans: Vec<Span> = Vec::new();
    let mut start: usize = within.start;
    let mut i: usize = within.start;
    assert(text.take(0).len() == 0);
    assert(text.subrange(0, 0) =~= Seq::<char>::empty());
    assert(split(text.take(0), Delimiter::Whitespace) =~~= seq![Seq::<char>::empty()]);
    assert(seq![Seq::<char>::empty()].drop_last() =~~= Seq::<Seq<char>>::empty());
    assert(nonempty(split(text.take(0), Delimiter::Whitespace).drop_last()) =~~= pieces(
        s@,
        spans@,
    )) by {
        reveal_with_fuel(nonempty, 2);
    }
    while i < within.end
        invariant
            within.fits(s@.len()),
            text == within.of(s@),
            within.start <= start <= i <= within.end,
            all_fit(spans@, s@.len()),
            split(text.take(i - within.start), Delimiter::Whitespace).len() >= 1,
            split(text.take(i - within.start), Delimiter::Whitespace).last() == s@.subrange(
                start as int,
                i as int,
            ),
            pieces(s@, spans@) == nonempty(
                split(text.take(i - within.start), Delimiter::Whitespace).drop_last(),
            ),
        decreases within.end - i,
    {
        let ghost at = i - within.start;
        let ghost before = split(text.take(at), Delimiter::Whitespace);
        let ghost done = pieces(s@, spans@);
        let ghost open = s@.subrange(start as int, i as int);
        let c = s[i];
        assert(text[at] == c);
        assert(text.take(at + 1).drop_last() =~= text.take(at));
        assert(text.take(at + 1).last() == c);
        let ghost after = split(text.take(at + 1), Delimiter::Whitespace);
        if whitespace(c) {
            assert(after == before.push(Seq::<char>::empty()));
            assert(after.drop_last() =~~= before);
            assert(before.drop_last().push(before.last()) =~~= before);
            if start < i {
                spans.push(Span { start, end: i });
                assert(pieces(s@, spans@) =~~= done.push(open));
            }
            start = i + 1;
            assert(after.last() =~= s@.subrange(start as int, i + 1));
        } else {
            assert(after == before.drop_last().push(before.last().push(c)));
            assert(after.drop_last() =~~= before.drop_last());
            assert(after.last() =~= s@.subrange(start as int, i + 1));
        }
        i += 1;
    }
    assert(text.take(i - within.start) =~= text);
    let ghost all = split(text, Delimiter::Whitespace);
    assert(all.drop_last().push(all.last()) =~~= all);
    if start < i {
        let ghost done = pieces(s@, spans@);
        spans.push(Span { start, end: i });
        assert(pieces(s@, spans@) =~~= done.push(all.last()));
    }
    spans
}


/// The field before the first delimiter is the text before it, and the
/// fields after it are those of the rest of the text.
pub proof fn lemma_split_at_first(s: Seq<char>, d: Delimiter, i: int)
    requires
        is_first_match(s, d, i),
    ensures
        split(s, d) == seq![s.take(i)] + split(s.skip(i + 1), d),
        split(s, d).len() >= 2,
        split(s, d)[0] == s.take(i),
{
    let head = s.take(i);
    let rest = s.skip(i + 1);
    assert(s =~= head.push(s[i]) + rest);
    assert(no_match(head, d));
    lemma_split_join(head, s[i], rest, d);
    lemma_split_single(head, d);
    lemma_split_nonempty(rest, d);
}

/// Tells whether the characters that `span` covers are those of `literal`.
pub fn span_is(chars: &[char], span: Span, literal: &str) -> (b: bool)
    requires
        span.fits(chars@.len()),
    ensures
        b == (span.of(chars@) == literal@),
{
    let other = to_chars(literal);
    span_equals(chars, span, other.as_slice())
}

/// The span that covers all of `chars`.
pub fn whole(chars: &[char]) -> (span: Span)
    ensures
        span.fits(chars@.len()),
        span.start == 0,
        span.end == chars@.len(),
        span.of(chars@) == chars@,
{
    let span = Span { start: 0, end: chars.len() };
    assert(span.of(chars@) =~= chars@);
    span
}


/// The lower-case form of a text, as `str::to_lowercase` gives it.
pub uninterp spec fn lowercase(s: Seq<char>) -> Seq<char>;

/// The lower-case form of `s`. Trusted: `str::to_lowercase` returns the
/// lower-case equivalent of the string slice, which depends on the
/// characters of the slice alone.
#[verifier::external_body]
pub(crate) fn to_lowercase(s: &str) -> (lower: String)
    ensures
        lower@ == lowercase(s@),
{
    s.to_lowercase()
}


/// Tells whether two strings hold the same characters.
pub fn same_text(a: &str, b: &str) -> (same: bool)
    ensures
        same == (a@ == b@),
{
    let left = to_chars(a);
    let right = to_chars(b);
    let all = whole(left.as_slice());
    span_equals(left.as_slice(), all, right.as_slice())
}

} // verus!
