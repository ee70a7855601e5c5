//! Reading of the replies that the service manager sends: the list of unit
//! files, as the printed form of an array of (path, state) structures, and
//! the answers to requests that enable or disable a unit.

use crate::classify::{unit_state_of, ParseFailure, UnitState};
use crate::classify::STATE_LEAD;
use crate::text::{
    all_fit, find_match, is_first_match, lemma_split_at_first, lemma_split_single, no_match,
    pieces, span_is, split, split_spans, string_of, to_chars, Delimiter, Span,
};
use vstd::prelude::*;
use vstd::slice::slice_subrange;

verus! {

/// The number of characters that open the printed reply, before its body.
pub const WRAPPER_HEAD: usize = 7;

/// The number of characters that close the printed reply, behind its body.
pub const WRAPPER_TAIL: usize = 10;

/// The number of characters that stand before the path in a path segment.
pub const PATH_LEAD: usize = 14;

/// One entry of the list of unit files: the path of the file and the state
/// that the manager reports for it.
#[derive(Debug)]
pub struct UnitFile {
    pub path: String,
    pub state: UnitState,
}

/// What an entry holds: its path and its state.
pub struct UnitFileView {
    pub path: Seq<char>,
    pub state: UnitState,
}

impl View for UnitFile {
    type V = UnitFileView;

    open spec fn view(&self) -> UnitFileView {
        UnitFileView { path: self.path@, state: self.state }
    }
}

/// What the entries of `files` hold, in order.
pub open spec fn file_views(files: Seq<UnitFile>) -> Seq<UnitFileView> {
    Seq::new(files.len(), |i: int| files[i]@)
}

/// The body of a printed reply: the text between its opening and its
/// closing characters.
pub open spec fn body_of(input: Seq<char>) -> Seq<char> {
    input.subrange(WRAPPER_HEAD as int, input.len() - WRAPPER_TAIL)
}

/// The path that a path segment holds: the text between the segment's lead
/// and the next quote. A segment that ends before a quote holds none.
pub open spec fn entry_path(segment: Seq<char>) -> Option<Seq<char>> {
    if segment.len() < PATH_LEAD {
        None
    } else {
        let fields = split(segment.skip(PATH_LEAD as int), Delimiter::Char('"'));
        if fields.len() >= 2 {
            Some(fields[0])
        } else {
            None
        }
    }
}

/// The entry that a path segment and the state segment behind it hold.
pub open spec fn parse_entry(path: Seq<char>, state: Seq<char>) -> Result<
    UnitFileView,
    ParseFailure,
> {
    match entry_path(path) {
        None => Err(ParseFailure::UnterminatedPath),
        Some(p) => match unit_state_of(state) {
            None => Err(ParseFailure::UnrecognizedStateChar),
            Some(s) => Ok(UnitFileView { path: p, state: s }),
        },
    }
}

/// The entries that a run of segments holds, two segments to an entry. The
/// empty segment behind the last comma holds nothing; any other segment
/// left over at the end is an entry that was cut off inside its path. The
/// first entry that cannot be read decides the failure.
pub open spec fn parse_segments(segments: Seq<Seq<char>>) -> Result<
    Seq<UnitFileView>,
    ParseFailure,
>
    decreases segments.len(),
{
    if segments.len() == 0 {
        Ok(Seq::empty())
    } else if segments.len() == 1 {
        if segments[0].len() == 0 {
            Ok(Seq::empty())
        } else {
            Err(ParseFailure::UnterminatedPath)
        }
    } else {
        match parse_entry(segments[0], segments[1]) {
            Err(e) => Err(e),
            Ok(entry) => match parse_segments(segments.skip(2)) {
                Err(e) => Err(e),
                Ok(rest) => Ok(seq![entry] + rest),
            },
        }
    }
}

/// The entries that a printed reply holds. A reply of no characters lists
/// nothing; any other reply must be long enough to hold the characters that
/// open and close it. The body of an empty list is empty or reads `[],`;
/// any other body is a run of segments between commas.
pub open spec fn parse_reply(input: Seq<char>) -> Result<Seq<UnitFileView>, ParseFailure> {
    if input.len() == 0 {
        Ok(Seq::empty())
    } else if input.len() < WRAPPER_HEAD + WRAPPER_TAIL {
        Err(ParseFailure::TruncatedReply)
    } else {
        let body = body_of(input);
        if body.len() == 0 || body == "[],"@ {
            Ok(Seq::empty())
        } else {
            parse_segments(split(body, Delimiter::Char(',')))
        }
    }
}

/// The span of the path that the path segment `segment` holds.
fn path_span(chars: &[char], segment: Span) -> (path: Option<Span>)
    requires
        segment.fits(chars@.len()),
    ensures
        match path {
            Some(span) => span.fits(chars@.len()) && entry_path(segment.of(chars@)) == Some(
                span.of(chars@),
            ),
            None => entry_path(segment.of(chars@)) is None,
        },
{
    if segment.end - segment.start < PATH_LEAD {
        return None;
    }
    let quote = Delimiter::Char('"');
    let rest = Span { start: segment.start + PATH_LEAD, end: segment.end };
    assert(rest.of(chars@) =~= segment.of(chars@).skip(PATH_LEAD as int));
    match find_match(chars, rest, quote) {
        Some(at) => {
            let path = Span { start: rest.start, end: at };
            proof {
                lemma_split_at_first(rest.of(chars@), quote, at - rest.start);
                assert(path.of(chars@) =~= rest.of(chars@).take(at - rest.start));
            }
            Some(path)
        },
        None => {
            proof {
                lemma_split_single(rest.of(chars@), quote);
            }
            None
        },
    }
}

/// Reads the printed form of the manager's list of unit files. The entries
/// come out in the order in which the reply holds them.
pub fn parse_message(input: &str) -> (files: Result<Vec<UnitFile>, ParseFailure>)
    ensures
        match files {
            Ok(list) => parse_reply(input@) == Ok::<Seq<UnitFileView>, ParseFailure>(
                file_views(list@),
            ),
            Err(e) => parse_reply(input@) == Err::<Seq<UnitFileView>, ParseFailure>(e),
        },
{
    let all = to_chars(input);
    let mut files: Vec<UnitFile> = Vec::new();
    if all.len() == 0 {
        assert(file_views(files@) =~= Seq::empty());
        return Ok(files);
    }
    if all.len() < WRAPPER_HEAD + WRAPPER_TAIL {
        return Err(ParseFailure::TruncatedReply);
    }
    let text = input.substring_char(WRAPPER_HEAD, all.len() - WRAPPER_TAIL);
    let body = slice_subrange(all.as_slice(), WRAPPER_HEAD, all.len() - WRAPPER_TAIL);
    assert(body@ == body_of(input@));
    let everything = Span { start: 0, end: body.len() };
    assert(everything.of(body@) =~= body@);
    if body.len() == 0 || span_is(body, everything, "[],") {
        assert(file_views(files@) =~= Seq::empty());
        return Ok(files);
    }
    let comma = Delimiter::Char(',');
    let segments = split_spans(body, comma);
    let ghost texts = split(body@, comma);
    let mut k: usize = 0;
    assert(texts.skip(0) =~= texts);
    assert(Seq::<UnitFileView>::empty() + parse_segments(texts)->Ok_0 =~= parse_segments(
        texts,
    )->Ok_0);
    while segments.len() - k >= 2
        invariant
            k <= segments@.len(),
            text@ == body@,
            all_fit(segments@, body@.len()),
            pieces(body@, segments@) == texts,
            parse_reply(input@) == parse_segments(texts),
            parse_segments(texts) == match parse_segments(texts.skip(k as int)) {
                Ok(rest) => Ok::<Seq<UnitFileView>, ParseFailure>(file_views(files@) + rest),
                Err(e) => Err(e),
            },
        decreases segments@.len() - k,
    {
        let ghost remaining = texts.skip(k as int);
        let ghost done = file_views(files@);
        let first = segments[k];
        let second = segments[k + 1];
        proof {
            assert(first.fits(body@.len()) && second.fits(body@.len()));
            assert(remaining[0] == first.of(body@));
            assert(remaining[1] == second.of(body@));
            assert(remaining.skip(2) =~= texts.skip(k + 2));
            assert(remaining.len() >= 2);
        }
        let path = match path_span(body, first) {
            Some(span) => span,
            None => {
                return Err(ParseFailure::UnterminatedPath);
            },
        };
        let state = match UnitState::at(body, second) {
            Ok(s) => s,
            Err(e) => {
                return Err(e);
            },
        };
        files.push(UnitFile { path: string_of(text, path), state });
        proof {
            let entry = UnitFileView { path: path.of(body@), state };
            assert(file_views(files@) =~= done.push(entry));
            match parse_segments(texts.skip(k + 2)) {
                Ok(rest) => {
                    assert(done + (seq![entry] + rest) =~= done.push(entry) + rest);
                },
                Err(_) => {},
            }
        }
        k += 2;
    }
    proof {
        assert(texts.skip(k as int).len() < 2);
        assert(file_views(files@) + Seq::<UnitFileView>::empty() =~= file_views(files@));
    }
    if k < segments.len() {
        let last = segments[k];
        assert(last.fits(body@.len()));
        assert(texts.skip(k as int)[0] == last.of(body@));
        if last.end > last.start {
            return Err(ParseFailure::UnterminatedPath);
        }
    }
    Ok(files)
}

/// Tells whether the printed answer to a request to enable a unit says that
/// the unit was enabled already: no link was made.
pub fn is_enabled(reply: &str) -> (already: bool)
    ensures
        already == (reply@ == "[Bool(true), Array([], \"(sss)\")]"@),
{
    let chars = to_chars(reply);
    let everything = Span { start: 0, end: chars.len() };
    assert(everything.of(chars@) =~= chars@);
    span_is(chars.as_slice(), everything, "[Bool(true), Array([], \"(sss)\")]")
}

/// Tells whether the printed answer to a request to disable a unit says that
/// the unit was disabled already: no link was removed.
pub fn is_disabled(reply: &str) -> (already: bool)
    ensures
        already == (reply@ == "[Array([], \"(sss)\")]"@),
{
    let chars = to_chars(reply);
    let everything = Span { start: 0, end: chars.len() };
    assert(everything.of(chars@) =~= chars@);
    span_is(chars.as_slice(), everything, "[Array([], \"(sss)\")]")
}


/// The name by which the manager prints a state.
pub open spec fn state_name(state: UnitState) -> Seq<char> {
    match state {
        UnitState::Bad => "bad"@,
        UnitState::Disabled => "disabled"@,
        UnitState::Enabled => "enabled"@,
        UnitState::Generated => "generated"@,
        UnitState::Indirect => "indirect"@,
        UnitState::Linked => "linked"@,
        UnitState::Masked => "masked"@,
        UnitState::Static => "static"@,
        UnitState::Transient => "transient"@,
        UnitState::Alias => "alias"@,
    }
}

/// The printed form of one entry.
pub open spec fn entry_text(entry: UnitFileView) -> Seq<char> {
    "Struct([Str(\""@ + entry.path + "\"), Str(\""@ + state_name(entry.state) + "\")])"@
}

/// The printed forms of `entries`, a comma and a blank between two of them.
pub open spec fn joined(entries: Seq<UnitFileView>) -> Seq<char>
    decreases entries.len(),
{
    if entries.len() == 0 {
        Seq::empty()
    } else if entries.len() == 1 {
        entry_text(entries[0])
    } else {
        entry_text(entries[0]) + ", "@ + joined(entries.drop_first())
    }
}

/// The printed form of a reply that lists `entries`.
pub open spec fn render_reply(entries: Seq<UnitFileView>) -> Seq<char> {
    "[Array(["@ + joined(entries) + "], \"a(ss)\")]"@
}

/// No path among `entries` holds a comma or a quote.
pub open spec fn plain_paths(entries: Seq<UnitFileView>) -> bool {
    forall|k: int|
        0 <= k < entries.len() ==> {
            &&& no_match((#[trigger] entries[k]).path, Delimiter::Char(','))
            &&& no_match(entries[k].path, Delimiter::Char('"'))
        }
}

/// The path segment of an entry that stands behind the character `lead`.
spec fn path_segment(lead: char, entry: UnitFileView) -> Seq<char> {
    seq![lead] + "Struct([Str(\""@ + entry.path + "\")"@
}

/// The state segment of an entry; that of the last entry also holds the
/// bracket that closes the list.
spec fn state_segment(entry: UnitFileView, last: bool) -> Seq<char> {
    let open = " Str(\""@ + state_name(entry.state) + "\")])"@;
    if last {
        open.push(']')
    } else {
        open
    }
}

/// The characters of the fixed parts of a printed reply.
proof fn lemma_fixed_parts()
    ensures
        "[Array(["@ == seq!['[', 'A', 'r', 'r', 'a', 'y', '(', '['],
        "], \"a(ss)\")]"@ == seq![']', ',', ' ', '"', 'a', '(', 's', 's', ')', '"', ')', ']'],
        "Struct([Str(\""@ == seq![
            'S',
            't',
            'r',
            'u',
            'c',
            't',
            '(',
            '[',
            'S',
            't',
            'r',
            '(',
            '"',
        ],
        "\"), Str(\""@ == seq!['"', ')', ',', ' ', 'S', 't', 'r', '(', '"'],
        "\")])"@ == seq!['"', ')', ']', ')'],
        "\")"@ == seq!['"', ')'],
        " Str(\""@ == seq![' ', 'S', 't', 'r', '(', '"'],
        ", "@ == seq![',', ' '],
        "[],"@ == seq!['[', ']', ','],
{
    reveal_strlit("[Array([");
    reveal_strlit("], \"a(ss)\")]");
    reveal_strlit("Struct([Str(\"");
    reveal_strlit("\"), Str(\"");
    reveal_strlit("\")])");
    reveal_strlit("\")");
    reveal_strlit(" Str(\"");
    reveal_strlit(", ");
    reveal_strlit("[],");
    assert("[Array(["@ =~= seq!['[', 'A', 'r', 'r', 'a', 'y', '(', '[']);
    assert("], \"a(ss)\")]"@ =~= seq![']', ',', ' ', '"', 'a', '(', 's', 's', ')', '"', ')', ']']);
    assert("Struct([Str(\""@ =~= seq![
        'S',
        't',
        'r',
        'u',
        'c',
        't',
        '(',
        '[',
        'S',
        't',
        'r',
        '(',
        '"',
    ]);
    assert("\"), Str(\""@ =~= seq!['"', ')', ',', ' ', 'S', 't', 'r', '(', '"']);
    assert("\")])"@ =~= seq!['"', ')', ']', ')']);
    assert("\")"@ =~= seq!['"', ')']);
    assert(" Str(\""@ =~= seq![' ', 'S', 't', 'r', '(', '"']);
    assert(", "@ =~= seq![',', ' ']);
    assert("[],"@ =~= seq!['[', ']', ',']);
}

/// The name of a state begins with the state's lead character and holds
/// neither a comma nor a quote.
proof fn lemma_state_name(state: UnitState)
    ensures
        state_name(state).len() > 0,
        crate::classify::state_of_lead(state_name(state)[0]) == Some(state),
        no_match(state_name(state), Delimiter::Char(',')),
        no_match(state_name(state), Delimiter::Char('"')),
{
    reveal_strlit("bad");
    reveal_strlit("disabled");
    reveal_strlit("enabled");
    reveal_strlit("generated");
    reveal_strlit("indirect");
    reveal_strlit("linked");
    reveal_strlit("masked");
    reveal_strlit("static");
    reveal_strlit("transient");
    reveal_strlit("alias");
}

/// The text of a list of entries behind a lead character, cut at the two
/// commas of its first entry.
proof fn lemma_first_entry(lead: char, entries: Seq<UnitFileView>)
    requires
        entries.len() >= 1,
    ensures
        seq![lead] + joined(entries) + "],"@ == path_segment(lead, entries[0]).push(',') + (
        state_segment(entries[0], entries.len() == 1).push(',') + (if entries.len() == 1 {
            Seq::<char>::empty()
        } else {
            seq![' '] + joined(entries.drop_first()) + "],"@
        })),
{
    lemma_fixed_parts();
    reveal_strlit("],");
    let e = entries[0];
    let name = state_name(e.state);
    let text = seq![lead] + joined(entries) + "],"@;
    let cut = path_segment(lead, e).push(',') + (state_segment(e, entries.len() == 1).push(',')
        + (if entries.len() == 1 {
        Seq::<char>::empty()
    } else {
        seq![' '] + joined(entries.drop_first()) + "],"@
    }));
    assert(text.len() == cut.len());
    assert forall|i: int| 0 <= i < text.len() implies text[i] == cut[i] by {}
    assert(text =~= cut);
}

/// The segments of a list of entries behind a lead character give the
/// entries back.
proof fn lemma_entries_round_trip(lead: char, entries: Seq<UnitFileView>)
    requires
        entries.len() >= 1,
        plain_paths(entries),
        lead != ',',
        lead != '"',
    ensures
        parse_segments(split(seq![lead] + joined(entries) + "],"@, Delimiter::Char(',')))
            == Ok::<Seq<UnitFileView>, ParseFailure>(entries),
    decreases entries.len(),
{
    let comma = Delimiter::Char(',');
    let quote = Delimiter::Char('"');
    let e = entries[0];
    let only = entries.len() == 1;
    let name = state_name(e.state);
    let first = path_segment(lead, e);
    let second = state_segment(e, only);
    let remainder = if only {
        Seq::<char>::empty()
    } else {
        seq![' '] + joined(entries.drop_first()) + "],"@
    };
    let text = seq![lead] + joined(entries) + "],"@;
    lemma_fixed_parts();
    lemma_state_name(e.state);
    lemma_first_entry(lead, entries);
    assert(no_match(first, comma));
    assert(no_match(second, comma));
    crate::text::lemma_split_join(first, ',', second.push(',') + remainder, comma);
    crate::text::lemma_split_join(second, ',', remainder, comma);
    lemma_split_single(first, comma);
    lemma_split_single(second, comma);
    crate::text::lemma_split_nonempty(remainder, comma);
    let segments = split(text, comma);
    assert(segments =~= seq![first, second] + split(remainder, comma));
    assert(segments[0] == first);
    assert(segments[1] == second);
    assert(segments.skip(2) =~= split(remainder, comma));
    // the path
    let behind = first.skip(PATH_LEAD as int);
    assert(behind =~= e.path + "\")"@);
    assert(is_first_match(behind, quote, e.path.len() as int));
    lemma_split_at_first(behind, quote, e.path.len() as int);
    assert(behind.take(e.path.len() as int) =~= e.path);
    assert(entry_path(first) == Some(e.path));
    // the state
    assert(second[STATE_LEAD as int] == name[0]);
    assert(unit_state_of(second) == Some(e.state));
    assert(parse_entry(first, second) == Ok::<UnitFileView, ParseFailure>(e));
    if only {
        assert(split(remainder, comma) =~~= seq![Seq::<char>::empty()]);
        assert(seq![e] + Seq::<UnitFileView>::empty() =~= entries);
    } else {
        let rest = entries.drop_first();
        assert(plain_paths(rest)) by {
            assert forall|k: int| 0 <= k < rest.len() implies {
                &&& no_match((#[trigger] rest[k]).path, comma)
                &&& no_match(rest[k].path, quote)
            } by {
                assert(rest[k] == entries[k + 1]);
            }
        }
        lemma_entries_round_trip(' ', rest);
        assert(seq![e] + rest =~= entries);
    }
}

/// Reading gives back what was printed: the printed form of a reply that
/// lists `entries`, none of whose paths holds a comma or a quote, is read as
/// exactly those entries in their order.
pub proof fn lemma_reply_round_trip(entries: Seq<UnitFileView>)
    requires
        plain_paths(entries),
    ensures
        parse_reply(render_reply(entries)) == Ok::<Seq<UnitFileView>, ParseFailure>(entries),
{
    lemma_fixed_parts();
    reveal_strlit("],");
    let text = render_reply(entries);
    let body = body_of(text);
    assert(body =~= seq!['['] + joined(entries) + "],"@);
    if entries.len() == 0 {
        assert(body =~= "[],"@);
        assert(entries =~= Seq::empty());
    } else {
        assert(body.len() > 3);
        lemma_entries_round_trip('[', entries);
    }
}

} // verus!
