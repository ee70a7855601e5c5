//! Reading of what the start-up analysis of the manager prints: how long
//! each unit took to start, and how long the start-up took as a whole.

use crate::text::{
    all_fit, ends_with, find_match, lemma_split_at_first, lemma_split_single, line_spans, lines,
    pieces, span_ends_with, split, string_of, to_chars, whole, word_spans, words, Delimiter, Span,
};
use vstd::prelude::*;

verus! {

/// How long a unit took to start.
#[derive(Clone, Debug, PartialEq)]
pub struct Analyze {
    /// The time in milliseconds.
    pub time: u32,
    /// The name of the unit.
    pub service: String,
}

/// What a start-up time holds.
pub struct AnalyzeView {
    pub time: u32,
    pub service: Seq<char>,
}

impl View for Analyze {
    type V = AnalyzeView;

    open spec fn view(&self) -> AnalyzeView {
        AnalyzeView { time: self.time, service: self.service@ }
    }
}

/// What the times of `list` hold, in order.
pub open spec fn analyze_views(list: Seq<Analyze>) -> Seq<AnalyzeView> {
    Seq::new(list.len(), |i: int| list[i]@)
}

/// `c` is one of the digits `0` to `9`.
pub open spec fn is_digit(c: char) -> bool {
    '0' <= c <= '9'
}

/// The value of the digit `c`.
pub open spec fn digit_value(c: char) -> nat {
    (c as int - '0' as int) as nat
}

/// Every character of `s` is a digit.
pub open spec fn all_digits(s: Seq<char>) -> bool {
    forall|i: int| 0 <= i < s.len() ==> is_digit(#[trigger] s[i])
}

/// The number that the digits `s` write in base ten.
pub open spec fn number_of(s: Seq<char>) -> nat
    decreases s.len(),
{
    if s.len() == 0 {
        0
    } else {
        number_of(s.drop_last()) * 10 + digit_value(s.last())
    }
}

/// `s` without a plus sign at its start, if it has one.
pub open spec fn unsigned(s: Seq<char>) -> Seq<char> {
    if s.len() > 0 && s[0] == '+' {
        s.skip(1)
    } else {
        s
    }
}

/// The whole number that `s` writes: digits, with or without a plus sign in
/// front, whose value fits in 32 bits.
pub open spec fn whole_number(s: Seq<char>) -> Option<nat> {
    let digits = unsigned(s);
    if digits.len() > 0 && all_digits(digits) && number_of(digits) <= u32::MAX {
        Some(number_of(digits))
    } else {
        None
    }
}

/// The digit of `s` at the place `i`, or nought where `s` ends before it.
pub open spec fn digit_at(s: Seq<char>, i: int) -> nat {
    if 0 <= i < s.len() {
        digit_value(s[i])
    } else {
        0
    }
}

/// The thousandths that the digits behind a decimal point write; digits
/// behind the third are dropped.
pub open spec fn thousandths(fraction: Seq<char>) -> nat {
    digit_at(fraction, 0) * 100 + digit_at(fraction, 1) * 10 + digit_at(fraction, 2)
}

/// The milliseconds that a decimal number of seconds comes to: digits, with
/// or without a plus sign in front, a decimal point and digits behind it;
/// what lies below a millisecond is dropped.
pub open spec fn seconds_as_millis(s: Seq<char>) -> Option<nat> {
    let body = unsigned(s);
    let fields = split(body, Delimiter::Char('.'));
    let whole = fields[0];
    let fraction = if fields.len() >= 2 {
        body.skip(whole.len() as int + 1)
    } else {
        Seq::empty()
    };
    if all_digits(whole) && all_digits(fraction) && whole.len() + fraction.len() > 0 {
        Some(number_of(whole) * 1000 + thousandths(fraction))
    } else {
        None
    }
}

/// `n`, or the greatest number of 32 bits where `n` is greater.
pub open spec fn capped(n: nat) -> nat {
    if n > u32::MAX {
        u32::MAX as nat
    } else {
        n
    }
}

/// `option`'s number, or nought where there is none.
pub open spec fn or_zero(option: Option<nat>) -> nat {
    match option {
        Some(n) => n,
        None => 0,
    }
}

/// The time in milliseconds that one field of a line writes: a number of
/// milliseconds before `ms`, of seconds before `s`, of minutes before
/// `min`. A field of another form, or whose number cannot be read, counts
/// for nothing; a time too great for 32 bits counts as the greatest.
pub open spec fn time_of(field: Seq<char>) -> nat {
    if ends_with(field, "ms"@) {
        or_zero(whole_number(field.take(field.len() - 2)))
    } else if ends_with(field, "s"@) {
        capped(or_zero(seconds_as_millis(field.take(field.len() - 1))))
    } else if ends_with(field, "min"@) {
        capped(or_zero(whole_number(field.take(field.len() - 3))) * 60000)
    } else {
        0
    }
}

/// The sum of the times that `fields` write.
pub open spec fn total_time(fields: Seq<Seq<char>>) -> nat
    decreases fields.len(),
{
    if fields.len() == 0 {
        0
    } else {
        total_time(fields.drop_last()) + time_of(fields.last())
    }
}

/// The start-up time that a line gives: its last word is the unit, the
/// words before it are times that add up. A line without a word gives none.
pub open spec fn blame_of(row: Seq<char>) -> Option<AnalyzeView> {
    let fields = words(row);
    if fields.len() == 0 {
        None
    } else {
        Some(
            AnalyzeView {
                time: capped(total_time(fields.drop_last())) as u32,
                service: fields.last(),
            },
        )
    }
}

/// The start-up times that the lines of `stdout` give, last line first;
/// none at all where one of the lines gives none.
pub open spec fn blames_of(stdout: Seq<char>) -> Option<Seq<AnalyzeView>> {
    let rows = lines(stdout);
    if forall|k: int| 0 <= k < rows.len() ==> blame_of(#[trigger] rows[k]) is Some {
        Some(Seq::new(rows.len(), |i: int| blame_of(rows[rows.len() - 1 - i])->0))
    } else {
        None
    }
}

/// The word of `fields` at the place `i`, or `N/A` where there is none.
pub open spec fn word_or_na(fields: Seq<Seq<char>>, i: int) -> Seq<char> {
    if 0 <= i < fields.len() {
        fields[i]
    } else {
        "N/A"@
    }
}

/// What was read of a run of digits.
enum Number {
    /// A character that is no digit stands among them.
    Invalid,
    /// The digits write this number.
    Small(u32),
    /// The digits write a number too great for 32 bits.
    Large,
}

/// A number does not shrink when a digit is put behind it.
proof fn lemma_number_grows(s: Seq<char>)
    requires
        s.len() > 0,
    ensures
        number_of(s) >= number_of(s.drop_last()),
{
}

/// Reads the run of digits that `span` covers.
fn read_digits(chars: &[char], span: Span) -> (number: Number)
    requires
        span.fits(chars@.len()),
    ensures
        match number {
            Number::Invalid => !all_digits(span.of(chars@)),
            Number::Small(v) => all_digits(span.of(chars@)) && number_of(span.of(chars@)) == v,
            Number::Large => all_digits(span.of(chars@)) && number_of(span.of(chars@))
                > u32::MAX,
        },
{
    let ghost text = span.of(chars@);
    let mut value: u64 = 0;
    let mut large: bool = false;
    let mut i: usize = span.start;
    assert(text.take(0) =~= Seq::empty());
    while i < span.end
        invariant
            span.fits(chars@.len()),
            text == span.of(chars@),
            span.start <= i <= span.end,
            all_digits(text.take(i - span.start)),
            large ==> number_of(text.take(i - span.start)) > u32::MAX,
            !large ==> value == number_of(text.take(i - span.start)) && value <= u32::MAX,
        decreases span.end - i,
    {
        let c = chars[i];
        let ghost at = i - span.start;
        assert(text[at] == c);
        if !('0' <= c && c <= '9') {
            return Number::Invalid;
        }
        proof {
            assert(text.take(at + 1).drop_last() =~= text.take(at));
            assert(text.take(at + 1).last() == c);
            lemma_number_grows(text.take(at + 1));
            assert forall|k: int| 0 <= k < at + 1 implies is_digit(
                #[trigger] text.take(at + 1)[k],
            ) by {
                if k < at {
                    assert(text.take(at)[k] == text.take(at + 1)[k]);
                }
            }
        }
        if !large {
            let digit: u64 = (c as u32 - '0' as u32) as u64;
            value = value * 10 + digit;
            if value > 0xffff_ffff {
                large = true;
            }
        }
        i += 1;
    }
    assert(text.take(i - span.start) =~= text);
    if large {
        Number::Large
    } else {
        Number::Small(value as u32)
    }
}

/// The span of `span` without a plus sign at its start.
fn skip_sign(chars: &[char], span: Span) -> (body: Span)
    requires
        span.fits(chars@.len()),
    ensures
        body.fits(chars@.len()),
        body.of(chars@) == unsigned(span.of(chars@)),
{
    if span.start < span.end && chars[span.start] == '+' {
        let body = Span { start: span.start + 1, end: span.end };
        assert(span.of(chars@)[0] == chars@[span.start as int]);
        assert(body.of(chars@) =~= span.of(chars@).skip(1));
        body
    } else {
        assert(span.start < span.end ==> span.of(chars@)[0] == chars@[span.start as int]);
        span
    }
}

/// Reads the whole number that `span` covers.
fn read_whole(chars: &[char], span: Span) -> (value: u32)
    requires
        span.fits(chars@.len()),
    ensures
        value == or_zero(whole_number(span.of(chars@))),
{
    let body = skip_sign(chars, span);
    if body.start == body.end {
        return 0;
    }
    match read_digits(chars, body) {
        Number::Small(v) => v,
        Number::Invalid => 0,
        Number::Large => 0,
    }
}

/// Reads the digit of `span` at the place `i` behind its start.
fn read_digit(chars: &[char], span: Span, i: usize) -> (value: u64)
    requires
        span.fits(chars@.len()),
        all_digits(span.of(chars@)),
        i < 3,
    ensures
        value == digit_at(span.of(chars@), i as int),
        value <= 9,
{
    if span.end - span.start > i {
        let c = chars[span.start + i];
        assert(span.of(chars@)[i as int] == c);
        (c as u32 - '0' as u32) as u64
    } else {
        0
    }
}

/// Reads the decimal number of seconds that `span` covers, in milliseconds.
fn read_seconds(chars: &[char], span: Span) -> (value: u32)
    requires
        span.fits(chars@.len()),
    ensures
        value == capped(or_zero(seconds_as_millis(span.of(chars@)))),
{
    let body = skip_sign(chars, span);
    let point = Delimiter::Char('.');
    let ghost text = body.of(chars@);
    let (whole, fraction) = match find_match(chars, body, point) {
        Some(at) => {
            proof {
                lemma_split_at_first(text, point, at - body.start);
                assert(text.take(at - body.start).len() == at - body.start);
            }
            (Span { start: body.start, end: at }, Span { start: at + 1, end: body.end })
        },
        None => {
            proof {
                lemma_split_single(text, point);
            }
            (body, Span { start: body.end, end: body.end })
        },
    };
    proof {
        let fields = split(text, point);
        assert(whole.of(chars@) =~= fields[0]);
        if fields.len() >= 2 {
            assert(fraction.of(chars@) =~= text.skip(fields[0].len() as int + 1));
        } else {
            assert(fraction.of(chars@) =~= Seq::<char>::empty());
        }
    }
    if (whole.end - whole.start) + (fraction.end - fraction.start) == 0 {
        return 0;
    }
    let seconds = read_digits(chars, whole);
    if let Number::Invalid = seconds {
        return 0;
    }
    if let Number::Invalid = read_digits(chars, fraction) {
        return 0;
    }
    let below: u64 = read_digit(chars, fraction, 0) * 100 + read_digit(chars, fraction, 1) * 10
        + read_digit(chars, fraction, 2);
    match seconds {
        Number::Small(v) => {
            let total: u64 = (v as u64) * 1000 + below;
            if total > 0xffff_ffff {
                0xffff_ffff
            } else {
                total as u32
            }
        },
        _ => 0xffff_ffff,
    }
}

/// Reads the time that the field which `span` covers writes.
fn time_at(chars: &[char], span: Span) -> (value: u32)
    requires
        span.fits(chars@.len()),
    ensures
        value == time_of(span.of(chars@)),
{
    let ghost field = span.of(chars@);
    let ms = to_chars("ms");
    let s = to_chars("s");
    let min = to_chars("min");
    proof {
        reveal_strlit("ms");
        reveal_strlit("s");
        reveal_strlit("min");
    }
    if span_ends_with(chars, span, ms.as_slice()) {
        let number = Span { start: span.start, end: (span.end - 2) as usize };
        assert(number.of(chars@) =~= field.take(field.len() - 2));
        read_whole(chars, number)
    } else if span_ends_with(chars, span, s.as_slice()) {
        let number = Span { start: span.start, end: (span.end - 1) as usize };
        assert(number.of(chars@) =~= field.take(field.len() - 1));
        read_seconds(chars, number)
    } else if span_ends_with(chars, span, min.as_slice()) {
        let number = Span { start: span.start, end: (span.end - 3) as usize };
        assert(number.of(chars@) =~= field.take(field.len() - 3));
        let minutes: u64 = read_whole(chars, number) as u64;
        let total: u64 = minutes * 60000;
        if total > 0xffff_ffff {
            0xffff_ffff
        } else {
            total as u32
        }
    } else {
        0
    }
}

/// Parses a unit of time, in milliseconds: a number of milliseconds before
/// `ms`, of seconds before `s`, of minutes before `min`.
pub fn parse_time(input: &str) -> (value: u32)
    ensures
        value == time_of(input@),
{
    let chars = to_chars(input);
    let all = whole(chars.as_slice());
    time_at(chars.as_slice(), all)
}

/// The start-up time that the part `row` of `text` gives; `chars` holds the
/// characters of `text`.
fn blame_at(text: &str, chars: &[char], row: Span) -> (blame: Option<Analyze>)
    requires
        chars@ == text@,
        row.fits(chars@.len()),
    ensures
        match blame {
            Some(b) => blame_of(row.of(chars@)) == Some(b@),
            None => blame_of(row.of(chars@)) is None,
        },
{
    let fields = word_spans(chars, row);
    let ghost all = words(row.of(chars@));
    if fields.len() == 0 {
        return None;
    }
    let last: usize = fields.len() - 1;
    let mut time: u32 = 0;
    let mut i: usize = 0;
    assert(all.drop_last().take(0) =~= Seq::empty());
    while i < last
        invariant
            all_fit(fields@, chars@.len()),
            pieces(chars@, fields@) == all,
            last + 1 == fields@.len(),
            i <= last,
            time == capped(total_time(all.drop_last().take(i as int))),
        decreases last - i,
    {
        let field = fields[i];
        assert(field.fits(chars@.len()));
        assert(all[i as int] == field.of(chars@));
        assert(all.drop_last().take(i + 1).drop_last() =~= all.drop_last().take(i as int));
        assert(all.drop_last().take(i + 1).last() == all[i as int]);
        let more = time_at(chars, field);
        let sum: u64 = time as u64 + more as u64;
        time = if sum > 0xffff_ffff {
            0xffff_ffff
        } else {
            sum as u32
        };
        i += 1;
    }
    assert(all.drop_last().take(i as int) =~= all.drop_last());
    let service = fields[last];
    assert(service.fits(chars@.len()));
    assert(all.last() == service.of(chars@));
    Some(Analyze { time, service: string_of(text, service) })
}

/// Reads one line of the list of start-up times: the last word is the name
/// of the unit, the words before it are times, `3min 38.514s` for one,
/// which are added up in milliseconds.
pub fn parse_blame(x: &str) -> (blame: Option<Analyze>)
    ensures
        match blame {
            Some(b) => blame_of(x@) == Some(b@),
            None => blame_of(x@) is None,
        },
{
    let chars = to_chars(x);
    let all = whole(chars.as_slice());
    blame_at(x, chars.as_slice(), all)
}

/// Reads the list of start-up times. The times come out in the reverse of
/// the order of the lines. A line that cannot be read leaves nothing of the
/// list.
pub fn map_blames(stdout: &str) -> (blames: Option<Vec<Analyze>>)
    ensures
        match blames {
            Some(list) => blames_of(stdout@) == Some(analyze_views(list@)),
            None => blames_of(stdout@) is None,
        },
{
    let chars = to_chars(stdout);
    let rows = line_spans(chars.as_slice());
    let ghost all = lines(stdout@);
    let n: usize = rows.len();
    let mut output: Vec<Analyze> = Vec::new();
    let mut i: usize = 0;
    while i < n
        invariant
            chars@ == stdout@,
            all == lines(stdout@),
            all_fit(rows@, chars@.len()),
            pieces(chars@, rows@) == all,
            n == rows@.len(),
            i <= n,
            output@.len() == i,
            forall|k: int| 0 <= k < i ==> blame_of(#[trigger] all[n - 1 - k]) is Some,
            forall|k: int| 0 <= k < i ==> Some((#[trigger] output@[k])@) == blame_of(all[n - 1 - k]),
        decreases n - i,
    {
        let row = rows[n - 1 - i];
        assert(row.fits(chars@.len()));
        assert(all[n - 1 - i] == row.of(chars@));
        match blame_at(stdout, chars.as_slice(), row) {
            Some(item) => {
                output.push(item);
            },
            None => {
                return None;
            },
        }
        i += 1;
    }
    proof {
        assert forall|k: int| 0 <= k < all.len() implies blame_of(#[trigger] all[k]) is Some by {
            assert(blame_of(all[n - 1 - (n - 1 - k)]) is Some);
        }
        assert(analyze_views(output@) =~= Seq::new(
            all.len(),
            |i: int| blame_of(all[all.len() - 1 - i])->0,
        ));
    }
    Some(output)
}

/// The word of `fields` at the place `i`, or `N/A` where there is none.
fn word_at(text: &str, fields: &Vec<Span>, i: usize) -> (word: String)
    requires
        all_fit(fields@, text@.len()),
    ensures
        word@ == word_or_na(pieces(text@, fields@), i as int),
{
    if i < fields.len() {
        let field = fields[i];
        assert(field.fits(text@.len()));
        string_of(text, field)
    } else {
        "N/A".to_owned()
    }
}

/// Reads the line that sums the start-up up, `Startup finished in 7.621s
/// (kernel) + 23.949s (userspace) = 31.571s` for one, and gives the times of
/// the kernel, of the user space and of both together as they are written:
/// the fourth, the seventh and the tenth word. A time whose word is missing
/// reads `N/A`.
pub fn map_times(stdout: &str) -> (times: (String, String, String))
    ensures
        times.0@ == word_or_na(words(stdout@), 3),
        times.1@ == word_or_na(words(stdout@), 6),
        times.2@ == word_or_na(words(stdout@), 9),
{
    let chars = to_chars(stdout);
    let all = whole(chars.as_slice());
    let fields = word_spans(chars.as_slice(), all);
    let kernel = word_at(stdout, &fields, 3);
    let userspace = word_at(stdout, &fields, 6);
    let total = word_at(stdout, &fields, 9);
    (kernel, userspace, total)
}

} // verus!
