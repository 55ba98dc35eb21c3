//! Text of the developer overlays: the 3x5 bitmap font and the names shown
//! for node kinds and roles.

use vstd::prelude::*;

use crate::tree::NodeKind;
use crate::widget::NodeRole;

verus! {

/// ASCII upper-casing: lower-case ASCII letters map to upper case, every
/// other character to itself.
pub open spec fn ascii_upper(c: char) -> char {
    if 'a' <= c && c <= 'z' {
        ((c as u32) - 32) as char
    } else {
        c
    }
}

/// The rows of the 3x5 overlay glyph for an upper-case character, top row
/// first; bit 2 of a row is its left column.
pub open spec fn overlay_glyph(c: char) -> Option<Seq<u8>> {
    match c {
        '0' => Some(seq![0b111u8, 0b101, 0b101, 0b101, 0b111]),
        '1' => Some(seq![0b010u8, 0b110, 0b010, 0b010, 0b111]),
        '2' => Some(seq![0b111u8, 0b001, 0b111, 0b100, 0b111]),
        '3' => Some(seq![0b111u8, 0b001, 0b111, 0b001, 0b111]),
        '4' => Some(seq![0b101u8, 0b101, 0b111, 0b001, 0b001]),
        '5' => Some(seq![0b111u8, 0b100, 0b111, 0b001, 0b111]),
        '6' => Some(seq![0b111u8, 0b100, 0b111, 0b101, 0b111]),
        '7' => Some(seq![0b111u8, 0b001, 0b001, 0b001, 0b001]),
        '8' => Some(seq![0b111u8, 0b101, 0b111, 0b101, 0b111]),
        '9' => Some(seq![0b111u8, 0b101, 0b111, 0b001, 0b111]),
        ' ' => Some(seq![0b000u8, 0b000, 0b000, 0b000, 0b000]),
        '.' => Some(seq![0b000u8, 0b000, 0b000, 0b000, 0b010]),
        ':' => Some(seq![0b000u8, 0b010, 0b000, 0b010, 0b000]),
        ',' => Some(seq![0b000u8, 0b000, 0b000, 0b010, 0b100]),
        '-' => Some(seq![0b000u8, 0b000, 0b111, 0b000, 0b000]),
        '/' => Some(seq![0b001u8, 0b001, 0b010, 0b100, 0b100]),
        '_' => Some(seq![0b000u8, 0b000, 0b000, 0b000, 0b111]),
        '=' => Some(seq![0b000u8, 0b111, 0b000, 0b111, 0b000]),
        'A' => Some(seq![0b010u8, 0b101, 0b111, 0b101, 0b101]),
        'B' => Some(seq![0b110u8, 0b101, 0b110, 0b101, 0b110]),
        'C' => Some(seq![0b111u8, 0b100, 0b100, 0b100, 0b111]),
        'D' => Some(seq![0b110u8, 0b101, 0b101, 0b101, 0b110]),
        'E' => Some(seq![0b111u8, 0b100, 0b111, 0b100, 0b111]),
        'F' => Some(seq![0b111u8, 0b100, 0b111, 0b100, 0b100]),
        'G' => Some(seq![0b111u8, 0b100, 0b101, 0b101, 0b111]),
        'H' => Some(seq![0b101u8, 0b101, 0b111, 0b101, 0b101]),
        'I' => Some(seq![0b111u8, 0b010, 0b010, 0b010, 0b111]),
        'J' => Some(seq![0b011u8, 0b001, 0b001, 0b101, 0b011]),
        'K' => Some(seq![0b101u8, 0b101, 0b110, 0b101, 0b101]),
        'L' => Some(seq![0b100u8, 0b100, 0b100, 0b100, 0b111]),
        'M' => Some(seq![0b101u8, 0b111, 0b101, 0b101, 0b101]),
        'N' => Some(seq![0b101u8, 0b111, 0b101, 0b101, 0b101]),
        'O' => Some(seq![0b111u8, 0b101, 0b101, 0b101, 0b111]),
        'P' => Some(seq![0b111u8, 0b101, 0b111, 0b100, 0b100]),
        'Q' => Some(seq![0b011u8, 0b101, 0b101, 0b111, 0b001]),
        'R' => Some(seq![0b111u8, 0b101, 0b111, 0b110, 0b101]),
        'S' => Some(seq![0b111u8, 0b100, 0b111, 0b001, 0b111]),
        'T' => Some(seq![0b111u8, 0b010, 0b010, 0b010, 0b010]),
        'U' => Some(seq![0b101u8, 0b101, 0b101, 0b101, 0b111]),
        'V' => Some(seq![0b101u8, 0b101, 0b101, 0b010, 0b010]),
        'W' => Some(seq![0b101u8, 0b101, 0b111, 0b111, 0b101]),
        'X' => Some(seq![0b101u8, 0b101, 0b010, 0b101, 0b101]),
        'Y' => Some(seq![0b101u8, 0b101, 0b010, 0b010, 0b010]),
        'Z' => Some(seq![0b111u8, 0b001, 0b010, 0b100, 0b111]),
        _ => None,
    }
}

/// The 3x5 overlay glyph for `c`, read case-insensitively, or `None` for a
/// character the overlay font lacks.
pub fn char_pixels(c: char) -> (rows: Option<[u8; 5]>)
    ensures
        match rows {
            Some(r) => overlay_glyph(ascii_upper(c)) == Some(r@),
            None => overlay_glyph(ascii_upper(c)) is None,
        },
{
    let upper = if 'a' <= c && c <= 'z' {
        upper_letter(c)
    } else {
        c
    };
    match upper {
        '0' => Some([0b111u8, 0b101, 0b101, 0b101, 0b111]),
        '1' => Some([0b010u8, 0b110, 0b010, 0b010, 0b111]),
        '2' => Some([0b111u8, 0b001, 0b111, 0b100, 0b111]),
        '3' => Some([0b111u8, 0b001, 0b111, 0b001, 0b111]),
        '4' => Some([0b101u8, 0b101, 0b111, 0b001, 0b001]),
        '5' => Some([0b111u8, 0b100, 0b111, 0b001, 0b111]),
        '6' => Some([0b111u8, 0b100, 0b111, 0b101, 0b111]),
        '7' => Some([0b111u8, 0b001, 0b001, 0b001, 0b001]),
        '8' => Some([0b111u8, 0b101, 0b111, 0b101, 0b111]),
        '9' => Some([0b111u8, 0b101, 0b111, 0b001, 0b111]),
        ' ' => Some([0b000u8, 0b000, 0b000, 0b000, 0b000]),
        '.' => Some([0b000u8, 0b000, 0b000, 0b000, 0b010]),
        ':' => Some([0b000u8, 0b010, 0b000, 0b010, 0b000]),
        ',' => Some([0b000u8, 0b000, 0b000, 0b010, 0b100]),
        '-' => Some([0b000u8, 0b000, 0b111, 0b000, 0b000]),
        '/' => Some([0b001u8, 0b001, 0b010, 0b100, 0b100]),
        '_' => Some([0b000u8, 0b000, 0b000, 0b000, 0b111]),
        '=' => Some([0b000u8, 0b111, 0b000, 0b111, 0b000]),
        'A' => Some([0b010u8, 0b101, 0b111, 0b101, 0b101]),
        'B' => Some([0b110u8, 0b101, 0b110, 0b101, 0b110]),
        'C' => Some([0b111u8, 0b100, 0b100, 0b100, 0b111]),
        'D' => Some([0b110u8, 0b101, 0b101, 0b101, 0b110]),
        'E' => Some([0b111u8, 0b100, 0b111, 0b100, 0b111]),
        'F' => Some([0b111u8, 0b100, 0b111, 0b100, 0b100]),
        'G' => Some([0b111u8, 0b100, 0b101, 0b101, 0b111]),
        'H' => Some([0b101u8, 0b101, 0b111, 0b101, 0b101]),
        'I' => Some([0b111u8, 0b010, 0b010, 0b010, 0b111]),
        'J' => Some([0b011u8, 0b001, 0b001, 0b101, 0b011]),
        'K' => Some([0b101u8, 0b101, 0b110, 0b101, 0b101]),
        'L' => Some([0b100u8, 0b100, 0b100, 0b100, 0b111]),
        'M' => Some([0b101u8, 0b111, 0b101, 0b101, 0b101]),
        'N' => Some([0b101u8, 0b111, 0b101, 0b101, 0b101]),
        'O' => Some([0b111u8, 0b101, 0b101, 0b101, 0b111]),
        'P' => Some([0b111u8, 0b101, 0b111, 0b100, 0b100]),
        'Q' => Some([0b011u8, 0b101, 0b101, 0b111, 0b001]),
        'R' => Some([0b111u8, 0b101, 0b111, 0b110, 0b101]),
        'S' => Some([0b111u8, 0b100, 0b111, 0b001, 0b111]),
        'T' => Some([0b111u8, 0b010, 0b010, 0b010, 0b010]),
        'U' => Some([0b101u8, 0b101, 0b101, 0b101, 0b111]),
        'V' => Some([0b101u8, 0b101, 0b101, 0b010, 0b010]),
        'W' => Some([0b101u8, 0b101, 0b111, 0b111, 0b101]),
        'X' => Some([0b101u8, 0b101, 0b010, 0b101, 0b101]),
        'Y' => Some([0b101u8, 0b101, 0b010, 0b010, 0b010]),
        'Z' => Some([0b111u8, 0b001, 0b010, 0b100, 0b111]),
        _ => None,
    }
}

fn upper_letter(c: char) -> (u: char)
    requires
        'a' <= c && c <= 'z',
    ensures
        u == ascii_upper(c),
{
    match c {
        'a' => 'A',
        'b' => 'B',
        'c' => 'C',
        'd' => 'D',
        'e' => 'E',
        'f' => 'F',
        'g' => 'G',
        'h' => 'H',
        'i' => 'I',
        'j' => 'J',
        'k' => 'K',
        'l' => 'L',
        'm' => 'M',
        'n' => 'N',
        'o' => 'O',
        'p' => 'P',
        'q' => 'Q',
        'r' => 'R',
        's' => 'S',
        't' => 'T',
        'u' => 'U',
        'v' => 'V',
        'w' => 'W',
        'x' => 'X',
        'y' => 'Y',
        _ => 'Z',
    }
}

/// Whether column `col` (0 = left) of an overlay glyph row is set.
pub fn overlay_pixel(bits: u8, col: u8) -> (on: bool)
    requires
        col < 3,
    ensures
        on == (bits & (4u8 >> col) != 0),
{
    bits & (4u8 >> col) != 0
}

/// The name the inspector shows for a node kind.
pub open spec fn kind_name(k: NodeKind) -> Seq<char> {
    match k {
        NodeKind::Container => "CONTAINER"@,
        NodeKind::Text => "TEXT"@,
        NodeKind::Image => "IMAGE"@,
    }
}

/// The name the inspector shows for a node kind.
pub fn kind_str(k: NodeKind) -> (s: &'static str)
    ensures
        s@ == kind_name(k),
{
    match k {
        NodeKind::Container => "CONTAINER",
        NodeKind::Text => "TEXT",
        NodeKind::Image => "IMAGE",
    }
}

/// The name the inspector shows for a node role.
pub open spec fn role_name(r: NodeRole) -> Seq<char> {
    match r {
        NodeRole::NoRole => "NONE"@,
        NodeRole::Button => "BUTTON"@,
        NodeRole::TextBox => "TEXTBOX"@,
        NodeRole::Tab => "TAB"@,
        NodeRole::Dialog => "DIALOG"@,
        NodeRole::Menu => "MENU"@,
    }
}

/// The name the inspector shows for a node role.
pub fn role_str(r: NodeRole) -> (s: &'static str)
    ensures
        s@ == role_name(r),
{
    match r {
        NodeRole::NoRole => "NONE",
        NodeRole::Button => "BUTTON",
        NodeRole::TextBox => "TEXTBOX",
        NodeRole::Tab => "TAB",
        NodeRole::Dialog => "DIALOG",
        NodeRole::Menu => "MENU",
    }
}

} // verus!
