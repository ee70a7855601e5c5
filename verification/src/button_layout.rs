//! On which side of a window's title bar the desktop puts the controls.

use crate::text::{
    contains_run, find_match, lemma_split_at_first, lemma_split_single, span_contains, split,
    to_chars, whole, Delimiter, Span,
};
use vstd::prelude::*;

verus! {

/// Signifies that the window controls are on the left or on the right.
#[derive(Debug, Clone, Copy, PartialEq, Eq, Structural)]
pub enum ButtonLayout {
    Left,
    Right,
}

/// The characters that the bytes stand for, each byte taken as the scalar
/// value of its character.
pub open spec fn byte_chars(bytes: Seq<u8>) -> Seq<char> {
    Seq::new(bytes.len(), |i: int| bytes[i] as char)
}

/// The side that a setting of the button layout puts the controls on. The
/// setting names the buttons of the left side, a colon, and those of the
/// right side: the controls are on the left where `close` stands before the
/// first colon.
pub open spec fn side_of(setting: Seq<u8>) -> ButtonLayout {
    let left = split(byte_chars(setting), Delimiter::Char(':'))[0];
    if contains_run(left, "close"@) {
        ButtonLayout::Left
    } else {
        ButtonLayout::Right
    }
}

/// Reads the setting of the button layout as the settings tool prints it,
/// and tells on which side the window controls are.
pub fn parse_button_layout(stdout: &[u8]) -> (side: ButtonLayout)
    ensures
        side == side_of(stdout@),
{
    let mut chars: Vec<char> = Vec::new();
    let mut i: usize = 0;
    while i < stdout.len()
        invariant
            i <= stdout@.len(),
            chars@ == byte_chars(stdout@).take(i as int),
        decreases stdout@.len() - i,
    {
        chars.push(stdout[i] as char);
        assert(chars@ =~= byte_chars(stdout@).take(i + 1));
        i += 1;
    }
    assert(chars@ =~= byte_chars(stdout@));
    let all = whole(chars.as_slice());
    let colon = Delimiter::Char(':');
    let left = match find_match(chars.as_slice(), all, colon) {
        Some(at) => {
            proof {
                lemma_split_at_first(chars@, colon, at as int);
            }
            Span { start: 0, end: at }
        },
        None => {
            proof {
                lemma_split_single(chars@, colon);
            }
            all
        },
    };
    assert(left.of(chars@) =~= split(chars@, colon)[0]);
    let close = to_chars("close");
    if span_contains(chars.as_slice(), left, close.as_slice()) {
        ButtonLayout::Left
    } else {
        ButtonLayout::Right
    }
}

/// The side of the window controls, from what the settings tool printed;
/// `None` stands for a tool that could not be run, and then the controls
/// are taken to be on the right.
pub fn get(output: Option<&[u8]>) -> (side: ButtonLayout)
    ensures
        side == match output {
            Some(stdout) => side_of(stdout@),
            None => ButtonLayout::Right,
        },
{
    match output {
        Some(stdout) => parse_button_layout(stdout),
        None => ButtonLayout::Right,
    }
}

} // verus!
