use vstd::prelude::*;

verus! {

/// The character for a lone dot.
pub const DOT: char = '\u{b7}';

/// The vertical line character.
pub const LINE_V: char = '\u{2502}';

/// The horizontal line character.
pub const LINE_H: char = '\u{2500}';

/// A box-drawing character together with the four directions in which
/// it connects to its neighbours.
#[derive(Default, Copy, Clone, Debug)]
pub struct BoxChar {
    pub value: char,
    pub up: bool,
    pub right: bool,
    pub down: bool,
    pub left: bool,
}

/// The box-drawing character that connects in exactly the given
/// directions: a dot for none, line ends for one, corners, lines and
/// junctions for the rest.
pub open spec fn spec_box_char_value(up: bool, right: bool, down: bool, left: bool) -> char {
    if !up && !right && !down && !left {
        DOT
    } else if up && !right && !down && !left {
        '\u{2575}'
    } else if !up && right && !down && !left {
        '\u{2576}'
    } else if !up && !right && down && !left {
        '\u{2577}'
    } else if !up && !right && !down && left {
        '\u{2574}'
    } else if up && right && !down && !left {
        '\u{2514}'
    } else if !up && right && down && !left {
        '\u{250c}'
    } else if !up && !right && down && left {
        '\u{2510}'
    } else if up && !right && !down && left {
        '\u{2518}'
    } else if up && !right && down && !left {
        LINE_V
    } else if !up && right && !down && left {
        LINE_H
    } else if up && right && down && !left {
        '\u{251c}'
    } else if !up && right && down && left {
        '\u{252c}'
    } else if up && !right && down && left {
        '\u{2524}'
    } else if up && right && !down && left {
        '\u{2534}'
    } else {
        '\u{253c}'
    }
}

/// Fill in the drawing character that matches the query's connection
/// flags; the flags come through unchanged.
pub fn lookup(query: BoxChar) -> (r: BoxChar)
    ensures
        r.up == query.up,
        r.right == query.right,
        r.down == query.down,
        r.left == query.left,
        r.value == spec_box_char_value(query.up, query.right, query.down, query.left),
{
    let value = if !query.up && !query.right && !query.down && !query.left {
        DOT
    } else if query.up && !query.right && !query.down && !query.left {
        '\u{2575}'
    } else if !query.up && query.right && !query.down && !query.left {
        '\u{2576}'
    } else if !query.up && !query.right && query.down && !query.left {
        '\u{2577}'
    } else if !query.up && !query.right && !query.down && query.left {
        '\u{2574}'
    } else if query.up && query.right && !query.down && !query.left {
        '\u{2514}'
    } else if !query.up && query.right && query.down && !query.left {
        '\u{250c}'
    } else if !query.up && !query.right && query.down && query.left {
        '\u{2510}'
    } else if query.up && !query.right && !query.down && query.left {
        '\u{2518}'
    } else if query.up && !query.right && query.down && !query.left {
        LINE_V
    } else if !query.up && query.right && !query.down && query.left {
        LINE_H
    } else if query.up && query.right && query.down && !query.left {
        '\u{251c}'
    } else if !query.up && query.right && query.down && query.left {
        '\u{252c}'
    } else if query.up && !query.right && query.down && query.left {
        '\u{2524}'
    } else if query.up && query.right && !query.down && query.left {
        '\u{2534}'
    } else {
        '\u{253c}'
    };
    BoxChar { value, up: query.up, right: query.right, down: query.down, left: query.left }
}

} // verus!
