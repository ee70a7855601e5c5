//! Classification of a unit by the suffix of its file name and by the state
//! token that the manager reports for it.

use crate::text::{
    all_fit, lemma_split_join, lemma_split_nonempty, lemma_split_single, no_match, pieces,
    span_is, split, split_spans, to_chars, whole, Delimiter, Span,
};
use vstd::prelude::*;
use vstd::slice::slice_subrange;

verus! {

/// Why a text could not be read.
#[derive(Clone, Copy, Debug, PartialEq, Eq, Structural)]
pub enum ParseFailure {
    /// The file name has no suffix, or one that names no kind of unit.
    UnrecognizedExtension,
    /// The state token is too short, or its lead character names no state.
    UnrecognizedStateChar,
    /// The quoted path of an entry is not closed before its segment ends.
    UnterminatedPath,
    /// The reply is too short to hold the characters that open and close it.
    TruncatedReply,
    /// The answer to the question which units run has fewer lines than
    /// units were asked about.
    ShortAnswer,
}

/// The kinds of unit, told apart by the suffix of the unit file's name.
#[derive(Clone, Copy, Debug, PartialEq, Eq, Structural)]
pub enum UnitType {
    Automount,
    Busname,
    Mount,
    Path,
    Scope,
    Service,
    Slice,
    Socket,
    Swap,
    Target,
    Timer,
}

/// The enablement states that the manager reports for a unit file.
#[derive(Clone, Copy, Debug, PartialEq, Eq, Structural)]
pub enum UnitState {
    Bad,
    Disabled,
    Enabled,
    Generated,
    Indirect,
    Linked,
    Masked,
    Static,
    Transient,
    Alias,
}

/// The number of characters that stand before the state's name in a state
/// token.
pub const STATE_LEAD: usize = 6;

/// `piece`, a part of a path between two slashes, names a file or a
/// directory: it is neither empty nor the single dot that stands for the
/// directory it is in.
pub open spec fn is_component(piece: Seq<char>) -> bool {
    piece.len() > 0 && piece != seq!['.']
}

/// The last of `pieces` that names a file or a directory.
pub open spec fn last_component(pieces: Seq<Seq<char>>) -> Option<Seq<char>>
    decreases pieces.len(),
{
    if pieces.len() == 0 {
        None
    } else if is_component(pieces.last()) {
        Some(pieces.last())
    } else {
        last_component(pieces.drop_last())
    }
}

/// The file name of `path`, as the standard library's `Path::file_name`
/// tells it for a path whose parts are set apart by slashes: the last
/// component of the path. Slashes at the end, doubled slashes and
/// components that are a single dot are passed over. A path without a
/// component has no file name, nor has one whose last component is `..`.
pub open spec fn file_name(path: Seq<char>) -> Option<Seq<char>> {
    match last_component(split(path, Delimiter::Char('/'))) {
        Some(piece) => if piece == seq!['.', '.'] {
            None
        } else {
            Some(piece)
        },
        None => None,
    }
}

/// The suffix of the file name of `path`, as the standard library's
/// `Path::extension` tells it: what follows the last dot of the name. A path
/// without a file name has none, nor has a name without a dot, nor one
/// whose only dot is its first character.
pub open spec fn extension(path: Seq<char>) -> Option<Seq<char>> {
    match file_name(path) {
        Some(name) => {
            let parts = split(name, Delimiter::Char('.'));
            if parts.len() > 2 || (parts.len() == 2 && parts[0].len() > 0) {
                Some(parts.last())
            } else {
                None
            }
        },
        None => None,
    }
}

/// The kind of unit that a suffix names.
pub open spec fn type_of_suffix(suffix: Seq<char>) -> Option<UnitType> {
    if suffix == "automount"@ {
        Some(UnitType::Automount)
    } else if suffix == "busname"@ {
        Some(UnitType::Busname)
    } else if suffix == "mount"@ {
        Some(UnitType::Mount)
    } else if suffix == "path"@ {
        Some(UnitType::Path)
    } else if suffix == "scope"@ {
        Some(UnitType::Scope)
    } else if suffix == "service"@ {
        Some(UnitType::Service)
    } else if suffix == "slice"@ {
        Some(UnitType::Slice)
    } else if suffix == "socket"@ {
        Some(UnitType::Socket)
    } else if suffix == "swap"@ {
        Some(UnitType::Swap)
    } else if suffix == "target"@ {
        Some(UnitType::Target)
    } else if suffix == "timer"@ {
        Some(UnitType::Timer)
    } else {
        None
    }
}

/// The kind of the unit whose file is at `path`, if the suffix names one.
pub open spec fn unit_type_of(path: Seq<char>) -> Option<UnitType> {
    match extension(path) {
        Some(suffix) => type_of_suffix(suffix),
        None => None,
    }
}

/// The state that a lead character names.
pub open spec fn state_of_lead(c: char) -> Option<UnitState> {
    if c == 's' {
        Some(UnitState::Static)
    } else if c == 'd' {
        Some(UnitState::Disabled)
    } else if c == 'e' {
        Some(UnitState::Enabled)
    } else if c == 'i' {
        Some(UnitState::Indirect)
    } else if c == 'l' {
        Some(UnitState::Linked)
    } else if c == 'm' {
        Some(UnitState::Masked)
    } else if c == 'b' {
        Some(UnitState::Bad)
    } else if c == 'g' {
        Some(UnitState::Generated)
    } else if c == 't' {
        Some(UnitState::Transient)
    } else if c == 'a' {
        Some(UnitState::Alias)
    } else {
        None
    }
}

/// The lead character of a state token: the one that follows the token's
/// first six characters, unless the token ends there or the quoted name is
/// empty.
pub open spec fn state_lead(token: Seq<char>) -> Option<char> {
    if token.len() > STATE_LEAD && token[STATE_LEAD as int] != '"' {
        Some(token[STATE_LEAD as int])
    } else {
        None
    }
}

/// The state that a state token names.
pub open spec fn unit_state_of(token: Seq<char>) -> Option<UnitState> {
    match state_lead(token) {
        Some(c) => state_of_lead(c),
        None => None,
    }
}

/// The span of the file name of the path that `path` covers.
pub fn file_name_span(chars: &[char], path: Span) -> (name: Option<Span>)
    requires
        path.fits(chars@.len()),
    ensures
        match name {
            Some(span) => {
                &&& span.fits(chars@.len())
                &&& path.start <= span.start
                &&& span.end <= path.end
                &&& file_name(path.of(chars@)) == Some(span.of(chars@))
            },
            None => file_name(path.of(chars@)) is None,
        },
{
    let text = slice_subrange(chars, path.start, path.end);
    let slash = Delimiter::Char('/');
    let parts = split_spans(text, slash);
    let ghost all = split(text@, slash);
    let mut k: usize = parts.len();
    assert(all.take(k as int) =~= all);
    while k > 0
        invariant
            path.fits(chars@.len()),
            text@ == path.of(chars@),
            all == split(text@, Delimiter::Char('/')),
            all_fit(parts@, text@.len()),
            pieces(text@, parts@) == all,
            k <= parts@.len(),
            last_component(all) == last_component(all.take(k as int)),
        decreases k,
    {
        let piece = parts[k - 1];
        let len: usize = piece.end - piece.start;
        proof {
            assert(piece.fits(text@.len()));
            assert(all.take(k as int).last() == piece.of(text@));
            assert(all.take(k as int).drop_last() =~= all.take(k - 1));
            if len > 0 {
                assert(piece.of(text@)[0] == text@[piece.start as int]);
            }
            if len > 1 {
                assert(piece.of(text@)[1] == text@[piece.start + 1]);
            }
        }
        let dot = len == 1 && text[piece.start] == '.';
        assert(dot <==> piece.of(text@) =~= seq!['.']);
        if len > 0 && !dot {
            let dots = len == 2 && text[piece.start] == '.' && text[piece.start + 1] == '.';
            assert(dots <==> piece.of(text@) =~= seq!['.', '.']);
            if dots {
                return None;
            }
            let name = Span { start: path.start + piece.start, end: path.start + piece.end };
            assert(name.of(chars@) =~= piece.of(text@));
            return Some(name);
        }
        k -= 1;
    }
    None
}

/// The span of the suffix of the file name of the path that `path` covers.
pub fn extension_span(chars: &[char], path: Span) -> (suffix: Option<Span>)
    requires
        path.fits(chars@.len()),
    ensures
        match suffix {
            Some(span) => span.fits(chars@.len()) && extension(path.of(chars@)) == Some(
                span.of(chars@),
            ),
            None => extension(path.of(chars@)) is None,
        },
{
    let name = match file_name_span(chars, path) {
        Some(span) => span,
        None => {
            return None;
        },
    };
    let ghost text = name.of(chars@);
    let dot = Delimiter::Char('.');
    let mut last: Option<usize> = None;
    let mut several: bool = false;
    let mut i: usize = name.start;
    proof {
        assert(text.take(0) =~= Seq::<char>::empty());
        assert(text.subrange(0, 0) =~= Seq::<char>::empty());
    }
    while i < name.end
        invariant
            name.fits(chars@.len()),
            text == name.of(chars@),
            dot == Delimiter::Char('.'),
            name.start <= i <= name.end,
            match last {
                Some(at) => {
                    &&& name.start <= at < i
                    &&& split(text.take(i - name.start), dot).len() >= 2
                    &&& several == (split(text.take(i - name.start), dot).len() > 2)
                    &&& split(text.take(i - name.start), dot).last() == chars@.subrange(
                        at + 1,
                        i as int,
                    )
                    &&& (split(text.take(i - name.start), dot).len() == 2 ==> split(
                        text.take(i - name.start),
                        dot,
                    )[0].len() == at - name.start)
                },
                None => split(text.take(i - name.start), dot).len() == 1,
            },
        decreases name.end - i,
    {
        let ghost at = i - name.start;
        let ghost before = split(text.take(at), dot);
        let c = chars[i];
        proof {
            assert(text[at] == c);
            assert(text.take(at + 1).drop_last() =~= text.take(at));
            assert(text.take(at + 1).last() == c);
        }
        if c == '.' {
            proof {
                if last is None {
                    assert(no_match(text.take(at), dot)) by {
                        lemma_single_field_has_no_match(text.take(at), dot);
                    }
                    lemma_split_single(text.take(at), dot);
                    assert(before[0] == text.take(at));
                }
            }
            several = last.is_some();
            last = Some(i);
            assert(chars@.subrange(i + 1, i + 1) =~= Seq::<char>::empty());
        } else {
            proof {
                match last {
                    Some(from) => {
                        assert(chars@.subrange(from + 1, i + 1) =~= chars@.subrange(
                            from + 1,
                            i as int,
                        ).push(c));
                    },
                    None => {},
                }
            }
        }
        i += 1;
    }
    assert(text.take(i - name.start) =~= text);
    match last {
        Some(at) => {
            if at == name.start && !several {
                None
            } else {
                Some(Span { start: at + 1, end: name.end })
            }
        },
        None => None,
    }
}

/// A text that is one field holds no delimiter.
pub proof fn lemma_single_field_has_no_match(s: Seq<char>, d: Delimiter)
    requires
        split(s, d).len() == 1,
    ensures
        no_match(s, d),
    decreases s.len(),
{
    if s.len() > 0 {
        lemma_split_nonempty(s.drop_last(), d);
        lemma_single_field_has_no_match(s.drop_last(), d);
        assert forall|j: int| 0 <= j < s.len() implies !d.matches(#[trigger] s[j]) by {
            if j < s.len() - 1 {
                assert(s.drop_last()[j] == s[j]);
            }
        }
    }
}


impl UnitType {
    /// The suffix that unit files of this kind carry.
    pub open spec fn suffix(self) -> Seq<char> {
        match self {
            UnitType::Automount => "automount"@,
            UnitType::Busname => "busname"@,
            UnitType::Mount => "mount"@,
            UnitType::Path => "path"@,
            UnitType::Scope => "scope"@,
            UnitType::Service => "service"@,
            UnitType::Slice => "slice"@,
            UnitType::Socket => "socket"@,
            UnitType::Swap => "swap"@,
            UnitType::Target => "target"@,
            UnitType::Timer => "timer"@,
        }
    }

    /// The suffix that unit files of this kind carry.
    pub fn suffix_str(&self) -> (suffix: &'static str)
        ensures
            suffix@ == self.suffix(),
    {
        match self {
            UnitType::Automount => "automount",
            UnitType::Busname => "busname",
            UnitType::Mount => "mount",
            UnitType::Path => "path",
            UnitType::Scope => "scope",
            UnitType::Service => "service",
            UnitType::Slice => "slice",
            UnitType::Socket => "socket",
            UnitType::Swap => "swap",
            UnitType::Target => "target",
            UnitType::Timer => "timer",
        }
    }

    /// The kind of the unit whose file is at the path that `path` covers.
    pub fn at(chars: &[char], path: Span) -> (kind: Result<UnitType, ParseFailure>)
        requires
            path.fits(chars@.len()),
        ensures
            kind == match unit_type_of(path.of(chars@)) {
                Some(t) => Ok::<UnitType, ParseFailure>(t),
                None => Err(ParseFailure::UnrecognizedExtension),
            },
    {
        let suffix = match extension_span(chars, path) {
            Some(span) => span,
            None => {
                return Err(ParseFailure::UnrecognizedExtension);
            },
        };
        if span_is(chars, suffix, "automount") {
            Ok(UnitType::Automount)
        } else if span_is(chars, suffix, "busname") {
            Ok(UnitType::Busname)
        } else if span_is(chars, suffix, "mount") {
            Ok(UnitType::Mount)
        } else if span_is(chars, suffix, "path") {
            Ok(UnitType::Path)
        } else if span_is(chars, suffix, "scope") {
            Ok(UnitType::Scope)
        } else if span_is(chars, suffix, "service") {
            Ok(UnitType::Service)
        } else if span_is(chars, suffix, "slice") {
            Ok(UnitType::Slice)
        } else if span_is(chars, suffix, "socket") {
            Ok(UnitType::Socket)
        } else if span_is(chars, suffix, "swap") {
            Ok(UnitType::Swap)
        } else if span_is(chars, suffix, "target") {
            Ok(UnitType::Target)
        } else if span_is(chars, suffix, "timer") {
            Ok(UnitType::Timer)
        } else {
            Err(ParseFailure::UnrecognizedExtension)
        }
    }

    /// The kind of the unit whose file is at `pathname`. The kind is read
    /// from the suffix of the file name alone; a path without a suffix, or
    /// with one that names no kind, is refused.
    pub fn new(pathname: &str) -> (kind: Result<UnitType, ParseFailure>)
        ensures
            kind == match unit_type_of(pathname@) {
                Some(t) => Ok::<UnitType, ParseFailure>(t),
                None => Err(ParseFailure::UnrecognizedExtension),
            },
    {
        let chars = to_chars(pathname);
        let all = whole(chars.as_slice());
        UnitType::at(chars.as_slice(), all)
    }
}

impl UnitState {
    /// The state that the token which `token` covers names.
    pub fn at(chars: &[char], token: Span) -> (state: Result<UnitState, ParseFailure>)
        requires
            token.fits(chars@.len()),
        ensures
            state == match unit_state_of(token.of(chars@)) {
                Some(s) => Ok::<UnitState, ParseFailure>(s),
                None => Err(ParseFailure::UnrecognizedStateChar),
            },
    {
        if token.end - token.start <= STATE_LEAD {
            return Err(ParseFailure::UnrecognizedStateChar);
        }
        let c = chars[token.start + STATE_LEAD];
        assert(token.of(chars@)[STATE_LEAD as int] == c);
        if c == 's' {
            Ok(UnitState::Static)
        } else if c == 'd' {
            Ok(UnitState::Disabled)
        } else if c == 'e' {
            Ok(UnitState::Enabled)
        } else if c == 'i' {
            Ok(UnitState::Indirect)
        } else if c == 'l' {
            Ok(UnitState::Linked)
        } else if c == 'm' {
            Ok(UnitState::Masked)
        } else if c == 'b' {
            Ok(UnitState::Bad)
        } else if c == 'g' {
            Ok(UnitState::Generated)
        } else if c == 't' {
            Ok(UnitState::Transient)
        } else if c == 'a' {
            Ok(UnitState::Alias)
        } else {
            Err(ParseFailure::UnrecognizedStateChar)
        }
    }

    /// The state that a state token of the manager's reply names. The token
    /// is the text of one field, ` Str("enabled")` for one; the state is told
    /// by the character that follows the token's first six. A token that is
    /// too short, or whose lead character names no state, is refused.
    pub fn new(x: &str) -> (state: Result<UnitState, ParseFailure>)
        ensures
            state == match unit_state_of(x@) {
                Some(s) => Ok::<UnitState, ParseFailure>(s),
                None => Err(ParseFailure::UnrecognizedStateChar),
            },
    {
        let chars = to_chars(x);
        let all = whole(chars.as_slice());
        UnitState::at(chars.as_slice(), all)
    }
}

/// The kind of a unit is told by the file name alone: the directory in
/// front of the name does not change it. This holds of every name that is
/// one component, so of every name whose suffix names a kind.
pub proof fn lemma_type_ignores_directory(directory: Seq<char>, name: Seq<char>)
    requires
        no_match(name, Delimiter::Char('/')),
    ensures
        is_component(name) ==> file_name(directory.push('/') + name) == file_name(name),
        is_component(name) ==> unit_type_of(directory.push('/') + name) == unit_type_of(name),
        unit_type_of(name) is Some ==> unit_type_of(directory.push('/') + name) == unit_type_of(
            name,
        ),
{
    let slash = Delimiter::Char('/');
    lemma_split_join(directory, '/', name, slash);
    lemma_split_single(name, slash);
    lemma_split_nonempty(directory, slash);
    assert(seq![name].last() == name);
    assert(seq![name].drop_last() =~= Seq::<Seq<char>>::empty());
    assert((split(directory, slash) + seq![name]).last() == name);
    assert(last_component(seq![name]) == if is_component(name) {
        Some(name)
    } else {
        None::<Seq<char>>
    }) by {
        reveal_with_fuel(last_component, 2);
    }
}

/// A suffix names a kind of unit exactly when it is one of the eleven known
/// suffixes, and then the kind's own suffix is that one.
pub proof fn lemma_suffix_table(suffix: Seq<char>)
    ensures
        match type_of_suffix(suffix) {
            Some(t) => t.suffix() == suffix,
            None => forall|t: UnitType| #[trigger] t.suffix() != suffix,
        },
{
    assert forall|t: UnitType| type_of_suffix(suffix) is None implies #[trigger] t.suffix()
        != suffix by {
        match t {
            UnitType::Automount => {},
            UnitType::Busname => {},
            UnitType::Mount => {},
            UnitType::Path => {},
            UnitType::Scope => {},
            UnitType::Service => {},
            UnitType::Slice => {},
            UnitType::Socket => {},
            UnitType::Swap => {},
            UnitType::Target => {},
            UnitType::Timer => {},
        }
    }
}

/// Ten lead characters name a state, each its own; every other character
/// names none.
pub proof fn lemma_state_leads(c: char)
    ensures
        state_of_lead(c) is Some <==> (c == 's' || c == 'd' || c == 'e' || c == 'i' || c == 'l'
            || c == 'm' || c == 'b' || c == 'g' || c == 't' || c == 'a'),
        forall|other: char|
            state_of_lead(c) is Some && #[trigger] state_of_lead(other) == state_of_lead(c)
                ==> other == c,
{
}

} // verus!
