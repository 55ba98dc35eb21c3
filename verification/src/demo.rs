//! The basic demo screen: a labelled text box, a submit button, back-end
//! selector buttons and an on-screen keyboard, drawn with a 5x7 bitmap font.
//! The application measures the layout, hit-tests the pointer and draws;
//! this module holds the font, the key names and what each frame's input
//! does to the widgets.

use vstd::prelude::*;

use crate::compat::types::str_eq;
use crate::input::KeyCode;
use crate::render::{
    backend_named, joined_names, render_error_view, BackendFeatures, BackendSelector, RenderError,
    RenderErrorView,
};
use crate::widget::{
    button_after_focus, button_after_hover, resting_state, string_views, Button, ButtonView,
    CursorMove, Label, LabelView, TextAlign, TextInput, TextInputView, WidgetState,
};

verus! {

/// Glyph cell width of the bitmap font, in font pixels.
pub const FONT_W: usize = 5;

/// Glyph cell height of the bitmap font, in font pixels.
pub const FONT_H: usize = 7;

/// Most characters the demo text box accepts.
pub const MAX_TEXT_LEN: usize = 24;

// ---------------------------------------------------------------------------
// Bitmap font
// ---------------------------------------------------------------------------

/// The rows of the 5x7 glyph for `ch`, top row first; bit 4 of a row is its
/// leftmost pixel.  Characters without a glyph get a placeholder box.
pub open spec fn glyph(ch: char) -> Seq<u8> {
    match ch {
        'A' => seq![0b01110u8, 0b10001, 0b10001, 0b11111, 0b10001, 0b10001, 0b10001],
        'B' => seq![0b11110u8, 0b10001, 0b10001, 0b11110, 0b10001, 0b10001, 0b11110],
        'C' => seq![0b01111u8, 0b10000, 0b10000, 0b10000, 0b10000, 0b10000, 0b01111],
        'D' => seq![0b11110u8, 0b10001, 0b10001, 0b10001, 0b10001, 0b10001, 0b11110],
        'E' => seq![0b11111u8, 0b10000, 0b10000, 0b11110, 0b10000, 0b10000, 0b11111],
        'F' => seq![0b11111u8, 0b10000, 0b10000, 0b11110, 0b10000, 0b10000, 0b10000],
        'G' => seq![0b01111u8, 0b10000, 0b10000, 0b10111, 0b10001, 0b10001, 0b01111],
        'H' => seq![0b10001u8, 0b10001, 0b10001, 0b11111, 0b10001, 0b10001, 0b10001],
        'I' => seq![0b11111u8, 0b00100, 0b00100, 0b00100, 0b00100, 0b00100, 0b11111],
        'J' => seq![0b00111u8, 0b00010, 0b00010, 0b00010, 0b00010, 0b10010, 0b01100],
        'K' => seq![0b10001u8, 0b10010, 0b10100, 0b11000, 0b10100, 0b10010, 0b10001],
        'L' => seq![0b10000u8, 0b10000, 0b10000, 0b10000, 0b10000, 0b10000, 0b11111],
        'M' => seq![0b10001u8, 0b11011, 0b10101, 0b10101, 0b10001, 0b10001, 0b10001],
        'N' => seq![0b10001u8, 0b11001, 0b10101, 0b10011, 0b10001, 0b10001, 0b10001],
        'O' => seq![0b01110u8, 0b10001, 0b10001, 0b10001, 0b10001, 0b10001, 0b01110],
        'P' => seq![0b11110u8, 0b10001, 0b10001, 0b11110, 0b10000, 0b10000, 0b10000],
        'Q' => seq![0b01110u8, 0b10001, 0b10001, 0b10001, 0b10101, 0b10010, 0b01101],
        'R' => seq![0b11110u8, 0b10001, 0b10001, 0b11110, 0b10100, 0b10010, 0b10001],
        'S' => seq![0b01111u8, 0b10000, 0b10000, 0b01110, 0b00001, 0b00001, 0b11110],
        'T' => seq![0b11111u8, 0b00100, 0b00100, 0b00100, 0b00100, 0b00100, 0b00100],
        'U' => seq![0b10001u8, 0b10001, 0b10001, 0b10001, 0b10001, 0b10001, 0b01110],
        'V' => seq![0b10001u8, 0b10001, 0b10001, 0b10001, 0b10001, 0b01010, 0b00100],
        'W' => seq![0b10001u8, 0b10001, 0b10001, 0b10101, 0b10101, 0b10101, 0b01010],
        'X' => seq![0b10001u8, 0b10001, 0b01010, 0b00100, 0b01010, 0b10001, 0b10001],
        'Y' => seq![0b10001u8, 0b10001, 0b01010, 0b00100, 0b00100, 0b00100, 0b00100],
        'Z' => seq![0b11111u8, 0b00001, 0b00010, 0b00100, 0b01000, 0b10000, 0b11111],
        '0' => seq![0b01110u8, 0b10011, 0b10101, 0b10101, 0b11001, 0b10001, 0b01110],
        '1' => seq![0b00100u8, 0b01100, 0b00100, 0b00100, 0b00100, 0b00100, 0b01110],
        '2' => seq![0b01110u8, 0b10001, 0b00001, 0b00010, 0b00100, 0b01000, 0b11111],
        '3' => seq![0b11110u8, 0b00001, 0b00001, 0b01110, 0b00001, 0b00001, 0b11110],
        '4' => seq![0b00010u8, 0b00110, 0b01010, 0b10010, 0b11111, 0b00010, 0b00010],
        '5' => seq![0b11111u8, 0b10000, 0b10000, 0b11110, 0b00001, 0b00001, 0b11110],
        '6' => seq![0b01110u8, 0b10000, 0b10000, 0b11110, 0b10001, 0b10001, 0b01110],
        '7' => seq![0b11111u8, 0b00001, 0b00010, 0b00100, 0b01000, 0b01000, 0b01000],
        '8' => seq![0b01110u8, 0b10001, 0b10001, 0b01110, 0b10001, 0b10001, 0b01110],
        '9' => seq![0b01110u8, 0b10001, 0b10001, 0b01111, 0b00001, 0b00001, 0b01110],
        ':' => seq![0b00000u8, 0b00100, 0b00100, 0b00000, 0b00100, 0b00100, 0b00000],
        '+' => seq![0b00000u8, 0b00100, 0b00100, 0b11111, 0b00100, 0b00100, 0b00000],
        '-' => seq![0b00000u8, 0b00000, 0b00000, 0b11111, 0b00000, 0b00000, 0b00000],
        '<' => seq![0b00010u8, 0b00100, 0b01000, 0b10000, 0b01000, 0b00100, 0b00010],
        '>' => seq![0b01000u8, 0b00100, 0b00010, 0b00001, 0b00010, 0b00100, 0b01000],
        '^' => seq![0b00100u8, 0b01010, 0b10001, 0b00000, 0b00000, 0b00000, 0b00000],
        ' ' => seq![0b00000u8, 0b00000, 0b00000, 0b00000, 0b00000, 0b00000, 0b00000],
        _ => seq![0b11111u8, 0b10001, 0b00100, 0b00100, 0b00100, 0b10001, 0b11111],
    }
}

/// The glyph rows for `ch` (upper-case letters, digits and a few symbols).
pub fn glyph_rows(ch: char) -> (rows: [u8; 7])
    ensures
        rows@ == glyph(ch),
        forall|r: int| 0 <= r < 7 ==> #[trigger] rows@[r] < 32,
{
    match ch {
        'A' => [0b01110u8, 0b10001, 0b10001, 0b11111, 0b10001, 0b10001, 0b10001],
        'B' => [0b11110u8, 0b10001, 0b10001, 0b11110, 0b10001, 0b10001, 0b11110],
        'C' => [0b01111u8, 0b10000, 0b10000, 0b10000, 0b10000, 0b10000, 0b01111],
        'D' => [0b11110u8, 0b10001, 0b10001, 0b10001, 0b10001, 0b10001, 0b11110],
        'E' => [0b11111u8, 0b10000, 0b10000, 0b11110, 0b10000, 0b10000, 0b11111],
        'F' => [0b11111u8, 0b10000, 0b10000, 0b11110, 0b10000, 0b10000, 0b10000],
        'G' => [0b01111u8, 0b10000, 0b10000, 0b10111, 0b10001, 0b10001, 0b01111],
        'H' => [0b10001u8, 0b10001, 0b10001, 0b11111, 0b10001, 0b10001, 0b10001],
        'I' => [0b11111u8, 0b00100, 0b00100, 0b00100, 0b00100, 0b00100, 0b11111],
        'J' => [0b00111u8, 0b00010, 0b00010, 0b00010, 0b00010, 0b10010, 0b01100],
        'K' => [0b10001u8, 0b10010, 0b10100, 0b11000, 0b10100, 0b10010, 0b10001],
        'L' => [0b10000u8, 0b10000, 0b10000, 0b10000, 0b10000, 0b10000, 0b11111],
        'M' => [0b10001u8, 0b11011, 0b10101, 0b10101, 0b10001, 0b10001, 0b10001],
        'N' => [0b10001u8, 0b11001, 0b10101, 0b10011, 0b10001, 0b10001, 0b10001],
        'O' => [0b01110u8, 0b10001, 0b10001, 0b10001, 0b10001, 0b10001, 0b01110],
        'P' => [0b11110u8, 0b10001, 0b10001, 0b11110, 0b10000, 0b10000, 0b10000],
        'Q' => [0b01110u8, 0b10001, 0b10001, 0b10001, 0b10101, 0b10010, 0b01101],
        'R' => [0b11110u8, 0b10001, 0b10001, 0b11110, 0b10100, 0b10010, 0b10001],
        'S' => [0b01111u8, 0b10000, 0b10000, 0b01110, 0b00001, 0b00001, 0b11110],
        'T' => [0b11111u8, 0b00100, 0b00100, 0b00100, 0b00100, 0b00100, 0b00100],
        'U' => [0b10001u8, 0b10001, 0b10001, 0b10001, 0b10001, 0b10001, 0b01110],
        'V' => [0b10001u8, 0b10001, 0b10001, 0b10001, 0b10001, 0b01010, 0b00100],
        'W' => [0b10001u8, 0b10001, 0b10001, 0b10101, 0b10101, 0b10101, 0b01010],
        'X' => [0b10001u8, 0b10001, 0b01010, 0b00100, 0b01010, 0b10001, 0b10001],
        'Y' => [0b10001u8, 0b10001, 0b01010, 0b00100, 0b00100, 0b00100, 0b00100],
        'Z' => [0b11111u8, 0b00001, 0b00010, 0b00100, 0b01000, 0b10000, 0b11111],
        '0' => [0b01110u8, 0b10011, 0b10101, 0b10101, 0b11001, 0b10001, 0b01110],
        '1' => [0b00100u8, 0b01100, 0b00100, 0b00100, 0b00100, 0b00100, 0b01110],
        '2' => [0b01110u8, 0b10001, 0b00001, 0b00010, 0b00100, 0b01000, 0b11111],
        '3' => [0b11110u8, 0b00001, 0b00001, 0b01110, 0b00001, 0b00001, 0b11110],
        '4' => [0b00010u8, 0b00110, 0b01010, 0b10010, 0b11111, 0b00010, 0b00010],
        '5' => [0b11111u8, 0b10000, 0b10000, 0b11110, 0b00001, 0b00001, 0b11110],
        '6' => [0b01110u8, 0b10000, 0b10000, 0b11110, 0b10001, 0b10001, 0b01110],
        '7' => [0b11111u8, 0b00001, 0b00010, 0b00100, 0b01000, 0b01000, 0b01000],
        '8' => [0b01110u8, 0b10001, 0b10001, 0b01110, 0b10001, 0b10001, 0b01110],
        '9' => [0b01110u8, 0b10001, 0b10001, 0b01111, 0b00001, 0b00001, 0b01110],
        ':' => [0b00000u8, 0b00100, 0b00100, 0b00000, 0b00100, 0b00100, 0b00000],
        '+' => [0b00000u8, 0b00100, 0b00100, 0b11111, 0b00100, 0b00100, 0b00000],
        '-' => [0b00000u8, 0b00000, 0b00000, 0b11111, 0b00000, 0b00000, 0b00000],
        '<' => [0b00010u8, 0b00100, 0b01000, 0b10000, 0b01000, 0b00100, 0b00010],
        '>' => [0b01000u8, 0b00100, 0b00010, 0b00001, 0b00010, 0b00100, 0b01000],
        '^' => [0b00100u8, 0b01010, 0b10001, 0b00000, 0b00000, 0b00000, 0b00000],
        ' ' => [0b00000u8, 0b00000, 0b00000, 0b00000, 0b00000, 0b00000, 0b00000],
        _ => [0b11111u8, 0b10001, 0b00100, 0b00100, 0b00100, 0b10001, 0b11111],
    }
}

/// Whether pixel `col` (0 = leftmost) of a glyph row is set.
pub fn row_pixel(bits: u8, col: usize) -> (on: bool)
    requires
        col < FONT_W,
    ensures
        on == ((bits >> ((4 - col) as u8)) & 1u8 == 1u8),
{
    let shift: u8 = (4 - col) as u8;
    (bits >> shift) & 1u8 == 1u8
}

// ---------------------------------------------------------------------------
// Key names
// ---------------------------------------------------------------------------

/// The name the demo logs for a key.
pub open spec fn key_name_of(key: KeyCode) -> Seq<char> {
    match key {
        KeyCode::A => "A"@,
        KeyCode::B => "B"@,
        KeyCode::C => "C"@,
        KeyCode::D => "D"@,
        KeyCode::E => "E"@,
        KeyCode::F => "F"@,
        KeyCode::G => "G"@,
        KeyCode::H => "H"@,
        KeyCode::I => "I"@,
        KeyCode::J => "J"@,
        KeyCode::K => "K"@,
        KeyCode::L => "L"@,
        KeyCode::M => "M"@,
        KeyCode::N => "N"@,
        KeyCode::O => "O"@,
        KeyCode::P => "P"@,
        KeyCode::Q => "Q"@,
        KeyCode::R => "R"@,
        KeyCode::S => "S"@,
        KeyCode::T => "T"@,
        KeyCode::U => "U"@,
        KeyCode::V => "V"@,
        KeyCode::W => "W"@,
        KeyCode::X => "X"@,
        KeyCode::Y => "Y"@,
        KeyCode::Z => "Z"@,
        KeyCode::Digit0 => "0"@,
        KeyCode::Digit1 => "1"@,
        KeyCode::Digit2 => "2"@,
        KeyCode::Digit3 => "3"@,
        KeyCode::Digit4 => "4"@,
        KeyCode::Digit5 => "5"@,
        KeyCode::Digit6 => "6"@,
        KeyCode::Digit7 => "7"@,
        KeyCode::Digit8 => "8"@,
        KeyCode::Digit9 => "9"@,
        KeyCode::Backspace => "Backspace"@,
        KeyCode::Enter => "Enter"@,
        KeyCode::Space => "Space"@,
        KeyCode::ArrowLeft => "ArrowLeft"@,
        KeyCode::ArrowRight => "ArrowRight"@,
        KeyCode::ArrowUp => "ArrowUp"@,
        KeyCode::ArrowDown => "ArrowDown"@,
        _ => "Other"@,
    }
}

/// The name the demo logs for a key.
pub fn key_name(key: KeyCode) -> (name: &'static str)
    ensures
        name@ == key_name_of(key),
{
    match key {
        KeyCode::A => "A",
        KeyCode::B => "B",
        KeyCode::C => "C",
        KeyCode::D => "D",
        KeyCode::E => "E",
        KeyCode::F => "F",
        KeyCode::G => "G",
        KeyCode::H => "H",
        KeyCode::I => "I",
        KeyCode::J => "J",
        KeyCode::K => "K",
        KeyCode::L => "L",
        KeyCode::M => "M",
        KeyCode::N => "N",
        KeyCode::O => "O",
        KeyCode::P => "P",
        KeyCode::Q => "Q",
        KeyCode::R => "R",
        KeyCode::S => "S",
        KeyCode::T => "T",
        KeyCode::U => "U",
        KeyCode::V => "V",
        KeyCode::W => "W",
        KeyCode::X => "X",
        KeyCode::Y => "Y",
        KeyCode::Z => "Z",
        KeyCode::Digit0 => "0",
        KeyCode::Digit1 => "1",
        KeyCode::Digit2 => "2",
        KeyCode::Digit3 => "3",
        KeyCode::Digit4 => "4",
        KeyCode::Digit5 => "5",
        KeyCode::Digit6 => "6",
        KeyCode::Digit7 => "7",
        KeyCode::Digit8 => "8",
        KeyCode::Digit9 => "9",
        KeyCode::Backspace => "Backspace",
        KeyCode::Enter => "Enter",
        KeyCode::Space => "Space",
        KeyCode::ArrowLeft => "ArrowLeft",
        KeyCode::ArrowRight => "ArrowRight",
        KeyCode::ArrowUp => "ArrowUp",
        KeyCode::ArrowDown => "ArrowDown",
        _ => "Other",
    }
}

/// The caption printed on an on-screen key.
pub open spec fn key_label_of(key: KeyCode) -> Seq<char> {
    match key {
        KeyCode::Backspace => "BSP"@,
        KeyCode::Enter => "ENT"@,
        KeyCode::Space => "SPACE"@,
        KeyCode::ArrowLeft => "<"@,
        KeyCode::ArrowRight => ">"@,
        KeyCode::ArrowUp => "^"@,
        KeyCode::ArrowDown => "V"@,
        _ => key_name_of(key),
    }
}

/// The caption printed on an on-screen key.
pub fn key_label(key: KeyCode) -> (label: &'static str)
    ensures
        label@ == key_label_of(key),
{
    match key {
        KeyCode::Backspace => "BSP",
        KeyCode::Enter => "ENT",
        KeyCode::Space => "SPACE",
        KeyCode::ArrowLeft => "<",
        KeyCode::ArrowRight => ">",
        KeyCode::ArrowUp => "^",
        KeyCode::ArrowDown => "V",
        _ => key_name(key),
    }
}

/// The letter key with alphabet index `i` (0 for A).
pub open spec fn letter_key_of(i: u32) -> KeyCode {
    match i {
        0 => KeyCode::A,
        1 => KeyCode::B,
        2 => KeyCode::C,
        3 => KeyCode::D,
        4 => KeyCode::E,
        5 => KeyCode::F,
        6 => KeyCode::G,
        7 => KeyCode::H,
        8 => KeyCode::I,
        9 => KeyCode::J,
        10 => KeyCode::K,
        11 => KeyCode::L,
        12 => KeyCode::M,
        13 => KeyCode::N,
        14 => KeyCode::O,
        15 => KeyCode::P,
        16 => KeyCode::Q,
        17 => KeyCode::R,
        18 => KeyCode::S,
        19 => KeyCode::T,
        20 => KeyCode::U,
        21 => KeyCode::V,
        22 => KeyCode::W,
        23 => KeyCode::X,
        24 => KeyCode::Y,
        25 => KeyCode::Z,
        _ => KeyCode::Unknown,
    }
}

/// The digit key for digit `i`.
pub open spec fn digit_key_of(i: u32) -> KeyCode {
    match i {
        0 => KeyCode::Digit0,
        1 => KeyCode::Digit1,
        2 => KeyCode::Digit2,
        3 => KeyCode::Digit3,
        4 => KeyCode::Digit4,
        5 => KeyCode::Digit5,
        6 => KeyCode::Digit6,
        7 => KeyCode::Digit7,
        8 => KeyCode::Digit8,
        9 => KeyCode::Digit9,
        _ => KeyCode::Unknown,
    }
}

/// The key a typed character stands for: a letter key for an ASCII letter of
/// either case, a digit key for an ASCII digit, `Unknown` otherwise.
pub open spec fn key_of_char(c: char) -> KeyCode {
    let u = c as u32;
    if 0x61 <= u <= 0x7a {
        letter_key_of((u - 0x61) as u32)
    } else if 0x41 <= u <= 0x5a {
        letter_key_of((u - 0x41) as u32)
    } else if 0x30 <= u <= 0x39 {
        digit_key_of((u - 0x30) as u32)
    } else {
        KeyCode::Unknown
    }
}

/// The key for the text a character key produced: its first character
/// decides; empty text is `Unknown`.
pub open spec fn key_of_text(s: Seq<char>) -> KeyCode {
    if s.len() == 0 {
        KeyCode::Unknown
    } else {
        key_of_char(s[0])
    }
}

fn letter_key(i: u32) -> (k: KeyCode)
    ensures
        k == letter_key_of(i),
{
    match i {
        0 => KeyCode::A,
        1 => KeyCode::B,
        2 => KeyCode::C,
        3 => KeyCode::D,
        4 => KeyCode::E,
        5 => KeyCode::F,
        6 => KeyCode::G,
        7 => KeyCode::H,
        8 => KeyCode::I,
        9 => KeyCode::J,
        10 => KeyCode::K,
        11 => KeyCode::L,
        12 => KeyCode::M,
        13 => KeyCode::N,
        14 => KeyCode::O,
        15 => KeyCode::P,
        16 => KeyCode::Q,
        17 => KeyCode::R,
        18 => KeyCode::S,
        19 => KeyCode::T,
        20 => KeyCode::U,
        21 => KeyCode::V,
        22 => KeyCode::W,
        23 => KeyCode::X,
        24 => KeyCode::Y,
        25 => KeyCode::Z,
        _ => KeyCode::Unknown,
    }
}

fn digit_key(i: u32) -> (k: KeyCode)
    ensures
        k == digit_key_of(i),
{
    match i {
        0 => KeyCode::Digit0,
        1 => KeyCode::Digit1,
        2 => KeyCode::Digit2,
        3 => KeyCode::Digit3,
        4 => KeyCode::Digit4,
        5 => KeyCode::Digit5,
        6 => KeyCode::Digit6,
        7 => KeyCode::Digit7,
        8 => KeyCode::Digit8,
        9 => KeyCode::Digit9,
        _ => KeyCode::Unknown,
    }
}

/// Maps the text of a character key event to a key code.
pub fn key_from_text(s: &str) -> (k: KeyCode)
    ensures
        k == key_of_text(s@),
{
    if s.unicode_len() == 0 {
        return KeyCode::Unknown;
    }
    let c = s.get_char(0);
    let u = c as u32;
    if 0x61 <= u && u <= 0x7a {
        letter_key(u - 0x61)
    } else if 0x41 <= u && u <= 0x5a {
        letter_key(u - 0x41)
    } else if 0x30 <= u && u <= 0x39 {
        digit_key(u - 0x30)
    } else {
        KeyCode::Unknown
    }
}

/// The keys whose edges the demo tracks from frame to frame.
pub open spec fn is_tracked_key(k: KeyCode) -> bool {
    match k {
        KeyCode::Escape | KeyCode::Delete | KeyCode::Home | KeyCode::End | KeyCode::PageUp
        | KeyCode::PageDown | KeyCode::Control | KeyCode::Alt | KeyCode::Meta | KeyCode::F1
        | KeyCode::F2 | KeyCode::F3 | KeyCode::F4 | KeyCode::F5 | KeyCode::F6 | KeyCode::F7
        | KeyCode::F8 | KeyCode::F9 | KeyCode::F10 | KeyCode::F11 | KeyCode::F12
        | KeyCode::Unknown => false,
        _ => true,
    }
}

/// Whether the demo tracks `k` (letters, digits, editing keys, arrows, Tab
/// and Shift).
pub fn is_tracked(k: KeyCode) -> (b: bool)
    ensures
        b == is_tracked_key(k),
{
    match k {
        KeyCode::Escape | KeyCode::Delete | KeyCode::Home | KeyCode::End | KeyCode::PageUp
        | KeyCode::PageDown | KeyCode::Control | KeyCode::Alt | KeyCode::Meta | KeyCode::F1
        | KeyCode::F2 | KeyCode::F3 | KeyCode::F4 | KeyCode::F5 | KeyCode::F6 | KeyCode::F7
        | KeyCode::F8 | KeyCode::F9 | KeyCode::F10 | KeyCode::F11 | KeyCode::F12
        | KeyCode::Unknown => false,
        _ => true,
    }
}

/// Number of keys that type a character into the text box.
pub const CHAR_KEY_COUNT: usize = 37;

/// The `i`-th typing key and its character: a to z, 0 to 9, then space.
pub open spec fn char_key_of(i: usize) -> (KeyCode, char) {
    match i {
        0 => (KeyCode::A, 'a'),
        1 => (KeyCode::B, 'b'),
        2 => (KeyCode::C, 'c'),
        3 => (KeyCode::D, 'd'),
        4 => (KeyCode::E, 'e'),
        5 => (KeyCode::F, 'f'),
        6 => (KeyCode::G, 'g'),
        7 => (KeyCode::H, 'h'),
        8 => (KeyCode::I, 'i'),
        9 => (KeyCode::J, 'j'),
        10 => (KeyCode::K, 'k'),
        11 => (KeyCode::L, 'l'),
        12 => (KeyCode::M, 'm'),
        13 => (KeyCode::N, 'n'),
        14 => (KeyCode::O, 'o'),
        15 => (KeyCode::P, 'p'),
        16 => (KeyCode::Q, 'q'),
        17 => (KeyCode::R, 'r'),
        18 => (KeyCode::S, 's'),
        19 => (KeyCode::T, 't'),
        20 => (KeyCode::U, 'u'),
        21 => (KeyCode::V, 'v'),
        22 => (KeyCode::W, 'w'),
        23 => (KeyCode::X, 'x'),
        24 => (KeyCode::Y, 'y'),
        25 => (KeyCode::Z, 'z'),
        26 => (KeyCode::Digit0, '0'),
        27 => (KeyCode::Digit1, '1'),
        28 => (KeyCode::Digit2, '2'),
        29 => (KeyCode::Digit3, '3'),
        30 => (KeyCode::Digit4, '4'),
        31 => (KeyCode::Digit5, '5'),
        32 => (KeyCode::Digit6, '6'),
        33 => (KeyCode::Digit7, '7'),
        34 => (KeyCode::Digit8, '8'),
        35 => (KeyCode::Digit9, '9'),
        _ => (KeyCode::Space, ' '),
    }
}

fn char_key(i: usize) -> (r: (KeyCode, char))
    ensures
        r == char_key_of(i),
{
    match i {
        0 => (KeyCode::A, 'a'),
        1 => (KeyCode::B, 'b'),
        2 => (KeyCode::C, 'c'),
        3 => (KeyCode::D, 'd'),
        4 => (KeyCode::E, 'e'),
        5 => (KeyCode::F, 'f'),
        6 => (KeyCode::G, 'g'),
        7 => (KeyCode::H, 'h'),
        8 => (KeyCode::I, 'i'),
        9 => (KeyCode::J, 'j'),
        10 => (KeyCode::K, 'k'),
        11 => (KeyCode::L, 'l'),
        12 => (KeyCode::M, 'm'),
        13 => (KeyCode::N, 'n'),
        14 => (KeyCode::O, 'o'),
        15 => (KeyCode::P, 'p'),
        16 => (KeyCode::Q, 'q'),
        17 => (KeyCode::R, 'r'),
        18 => (KeyCode::S, 's'),
        19 => (KeyCode::T, 't'),
        20 => (KeyCode::U, 'u'),
        21 => (KeyCode::V, 'v'),
        22 => (KeyCode::W, 'w'),
        23 => (KeyCode::X, 'x'),
        24 => (KeyCode::Y, 'y'),
        25 => (KeyCode::Z, 'z'),
        26 => (KeyCode::Digit0, '0'),
        27 => (KeyCode::Digit1, '1'),
        28 => (KeyCode::Digit2, '2'),
        29 => (KeyCode::Digit3, '3'),
        30 => (KeyCode::Digit4, '4'),
        31 => (KeyCode::Digit5, '5'),
        32 => (KeyCode::Digit6, '6'),
        33 => (KeyCode::Digit7, '7'),
        34 => (KeyCode::Digit8, '8'),
        35 => (KeyCode::Digit9, '9'),
        _ => (KeyCode::Space, ' '),
    }
}

// ---------------------------------------------------------------------------
// Key edges
// ---------------------------------------------------------------------------

/// Whether `k` went down this frame: held now and not held last frame.
pub open spec fn new_press(prev: Seq<KeyCode>, pressed: Seq<KeyCode>, k: KeyCode) -> bool {
    pressed.contains(k) && !prev.contains(k)
}

/// Whether `keys` holds `k`.
pub fn has_key(keys: &Vec<KeyCode>, k: KeyCode) -> (b: bool)
    ensures
        b == keys@.contains(k),
{
    let mut i: usize = 0;
    while i < keys.len()
        invariant
            i <= keys@.len(),
            forall|j: int| 0 <= j < i ==> keys@[j] != k,
        decreases keys@.len() - i,
    {
        if keys[i] == k {
            return true;
        }
        i = i + 1;
    }
    false
}

/// Whether `k` went down this frame.
pub fn is_new_press(prev: &Vec<KeyCode>, pressed: &Vec<KeyCode>, k: KeyCode) -> (b: bool)
    ensures
        b == new_press(prev@, pressed@, k),
{
    has_key(pressed, k) && !has_key(prev, k)
}

/// The tracked keys among `pressed`, in order.
pub fn tracked_keys(pressed: &Vec<KeyCode>) -> (keys: Vec<KeyCode>)
    ensures
        keys@ == pressed@.filter(|k: KeyCode| is_tracked_key(k)),
{
    let ghost f = |k: KeyCode| is_tracked_key(k);
    let mut keys: Vec<KeyCode> = Vec::new();
    let mut i: usize = 0;
    while i < pressed.len()
        invariant
            i <= pressed@.len(),
            f == (|k: KeyCode| is_tracked_key(k)),
            keys@ == pressed@.take(i as int).filter(f),
        decreases pressed@.len() - i,
    {
        proof {
            assert(pressed@.take(i + 1) =~= pressed@.take(i as int).push(pressed@[i as int]));
            pressed@.take(i as int).lemma_filter_push(pressed@[i as int], f);
        }
        let k = pressed[i];
        if is_tracked(k) {
            keys.push(k);
        }
        i = i + 1;
    }
    assert(pressed@.take(pressed@.len() as int) =~= pressed@);
    keys
}

// ---------------------------------------------------------------------------
// The demo screen
// ---------------------------------------------------------------------------

/// Which of the two form controls holds keyboard focus.
#[derive(Debug, Clone, Copy, PartialEq, Eq, Structural)]
pub enum DemoFocus {
    Textbox,
    Button,
}

/// What the pointer is over, in hit-test order: the back-end buttons of the
/// header first, then the text box, then the submit button.
#[derive(Debug, Clone, Copy, PartialEq, Eq, Structural)]
pub enum PointerTarget {
    Backend(BackendSelector),
    Textbox,
    Button,
    Elsewhere,
}

/// One frame's input, as the demo reads it.
pub struct FrameInput {
    /// Whether the left mouse button is down.
    pub mouse_down: bool,
    /// Whether the pointer is over the submit button.
    pub over_button: bool,
    /// The control under the pointer.
    pub target: PointerTarget,
    /// The keys held down.
    pub pressed: Vec<KeyCode>,
    /// The back end that renders this frame.
    pub current_backend: BackendSelector,
    /// The back ends this build carries.
    pub features: BackendFeatures,
}

/// What a frame asked of the application.
pub struct Interaction {
    /// The text box value at each submit of the frame, in order.
    pub submitted: Vec<String>,
    /// The back end the user asked to switch to.
    pub switch_to: Option<BackendSelector>,
}

/// Frames the submit button flashes after a submit.
pub const SUBMIT_FLASH_FRAMES: u8 = 18;

/// Frames a notice stays on screen.
pub const NOTICE_FRAMES: u8 = 180;

/// Abstract state of the demo screen.
pub struct DemoView {
    pub label: LabelView,
    pub text: TextInputView,
    pub button: ButtonView,
    pub focus: DemoFocus,
    /// Frames left of the submit flash.
    pub submit_flash: u8,
    pub frame_index: u64,
    pub prev_mouse_down: bool,
    /// Whether the submit button is held down by the mouse.
    pub button_mouse_held: bool,
    /// The tracked keys held last frame.
    pub prev_keys: Seq<KeyCode>,
    /// Frames left of the notice.
    pub notice_frames: u8,
    pub notice_text: Seq<char>,
}

/// Text box state after a focus gain or loss.
pub open spec fn text_focus(t: TextInputView, focused: bool) -> TextInputView {
    if t.state == WidgetState::Disabled {
        t
    } else {
        TextInputView {
            state: resting_state(focused),
            anchor: if focused { t.anchor } else { Option::None },
            ..t
        }
    }
}

/// Button state after a focus gain or loss.
pub open spec fn button_focus(b: ButtonView, focused: bool) -> ButtonView {
    ButtonView {
        state: button_after_focus(b, focused),
        focused: if b.state == WidgetState::Disabled { b.focused } else { focused },
        ..b
    }
}

/// Button state after a hover change.
pub open spec fn button_hover(b: ButtonView, hovered: bool) -> ButtonView {
    ButtonView { state: button_after_hover(b, hovered), ..b }
}

/// Button state after a press.
pub open spec fn button_press(b: ButtonView) -> ButtonView {
    ButtonView {
        state: if b.state == WidgetState::Disabled {
            WidgetState::Disabled
        } else {
            WidgetState::Pressed
        },
        ..b
    }
}

/// Button state after a release.
pub open spec fn button_release(b: ButtonView) -> ButtonView {
    ButtonView {
        state: if b.state == WidgetState::Disabled {
            WidgetState::Disabled
        } else {
            resting_state(b.focused)
        },
        ..b
    }
}

/// Moves focus to `f`: the text box and the button learn whether they hold it.
pub open spec fn with_focus(v: DemoView, f: DemoFocus) -> DemoView {
    DemoView {
        focus: f,
        text: text_focus(v.text, f == DemoFocus::Textbox),
        button: button_focus(v.button, f == DemoFocus::Button),
        ..v
    }
}

/// A submit starts the button flash.
pub open spec fn flashed(v: DemoView) -> DemoView {
    DemoView { submit_flash: SUBMIT_FLASH_FRAMES, ..v }
}

/// The notice shown for a back end the build does not carry.
pub open spec fn notice_of(b: BackendSelector) -> Seq<char> {
    match b {
        BackendSelector::Wgpu => "wgpu not compiled in (add --features backend-wgpu)"@,
        BackendSelector::Cuda => "CUDA not compiled in (add --features backend-cuda)"@,
        BackendSelector::Cpu => "CPU not compiled in (add --features backend-cpu)"@,
    }
}

/// Hover, then the release of a button the mouse held: a release of a
/// pressed button submits.
pub open spec fn pointer_release(v: DemoView, input: FrameInput) -> (DemoView, Seq<Seq<char>>) {
    let v1 = DemoView { button: button_hover(v.button, input.over_button), ..v };
    if !input.mouse_down && v.prev_mouse_down && v1.button_mouse_held {
        let v2 = DemoView {
            button_mouse_held: false,
            button: button_release(v1.button),
            ..v1
        };
        if v1.button.state == WidgetState::Pressed {
            (flashed(v2), seq![v2.text.chars])
        } else {
            (v2, Seq::empty())
        }
    } else {
        (v1, Seq::empty())
    }
}

/// A fresh mouse press: on a back-end button it asks for that back end (or
/// shows a notice when the build lacks it); on the text box it focuses it;
/// on the submit button it focuses and presses it.
pub open spec fn pointer_press(v: DemoView, input: FrameInput) -> (DemoView, Option<BackendSelector>) {
    if input.mouse_down && !v.prev_mouse_down {
        match input.target {
            PointerTarget::Backend(b) => if b == input.current_backend {
                (v, Option::None)
            } else if input.features.has(b) {
                (v, Option::Some(b))
            } else {
                (DemoView { notice_text: notice_of(b), notice_frames: NOTICE_FRAMES, ..v }, Option::None)
            },
            PointerTarget::Textbox => (with_focus(v, DemoFocus::Textbox), Option::None),
            PointerTarget::Button => {
                let w = with_focus(v, DemoFocus::Button);
                (DemoView { button: button_press(w.button), button_mouse_held: true, ..w }, Option::None)
            },
            PointerTarget::Elsewhere => (v, Option::None),
        }
    } else {
        (v, Option::None)
    }
}

/// Tab moves focus to the other control.
pub open spec fn tab_focus(v: DemoView, input: FrameInput) -> DemoView {
    if new_press(v.prev_keys, input.pressed@, KeyCode::Tab) {
        with_focus(
            v,
            if v.focus == DemoFocus::Textbox {
                DemoFocus::Button
            } else {
                DemoFocus::Textbox
            },
        )
    } else {
        v
    }
}

/// The text after the first `n` typing keys: each one that went down types
/// its character while the text is shorter than the limit.
pub open spec fn typed(t: TextInputView, prev: Seq<KeyCode>, pressed: Seq<KeyCode>, n: nat) -> TextInputView
    decreases n,
{
    if n == 0 {
        t
    } else {
        let t0 = typed(t, prev, pressed, (n - 1) as nat);
        let kc = char_key_of((n - 1) as usize);
        if new_press(prev, pressed, kc.0) && t0.chars.len() < MAX_TEXT_LEN {
            t0.after_insert(kc.1)
        } else {
            t0
        }
    }
}

/// The text after the editing keys of a frame: typing, then Backspace, then
/// the arrows (which extend the selection while Shift is held).
pub open spec fn edited(t: TextInputView, prev: Seq<KeyCode>, pressed: Seq<KeyCode>) -> TextInputView {
    let shift = pressed.contains(KeyCode::Shift);
    let t1 = typed(t, prev, pressed, CHAR_KEY_COUNT as nat);
    let t2 = if new_press(prev, pressed, KeyCode::Backspace) {
        t1.after_delete_backward()
    } else {
        t1
    };
    let t3 = if new_press(prev, pressed, KeyCode::ArrowLeft) {
        t2.after_move(CursorMove::Left, shift)
    } else {
        t2
    };
    if new_press(prev, pressed, KeyCode::ArrowRight) {
        t3.after_move(CursorMove::Right, shift)
    } else {
        t3
    }
}

/// Keys on the text box: editing, and Enter submits.
pub open spec fn text_keys(v: DemoView, input: FrameInput) -> (DemoView, Seq<Seq<char>>) {
    let prev = v.prev_keys;
    let pressed = input.pressed@;
    let w = DemoView { text: edited(v.text, prev, pressed), ..v };
    if new_press(prev, pressed, KeyCode::Enter) {
        (flashed(w), seq![w.text.chars])
    } else {
        (w, Seq::empty())
    }
}

/// Keys on the button: Enter or Space presses and releases it, and the
/// release of a pressed button submits.
pub open spec fn button_keys(v: DemoView, input: FrameInput) -> (DemoView, Seq<Seq<char>>) {
    let prev = v.prev_keys;
    let pressed = input.pressed@;
    if new_press(prev, pressed, KeyCode::Enter) || new_press(prev, pressed, KeyCode::Space) {
        let w = DemoView { button: button_release(button_press(v.button)), ..v };
        if button_press(v.button).state == WidgetState::Pressed {
            (flashed(w), seq![w.text.chars])
        } else {
            (w, Seq::empty())
        }
    } else {
        (v, Seq::empty())
    }
}

/// Keys act on the focused control.
pub open spec fn key_actions(v: DemoView, input: FrameInput) -> (DemoView, Seq<Seq<char>>) {
    if v.focus == DemoFocus::Textbox {
        text_keys(v, input)
    } else {
        button_keys(v, input)
    }
}

/// The state before the keys act: hover, release, press and Tab applied.
pub open spec fn before_keys(v: DemoView, input: FrameInput) -> DemoView {
    tab_focus(pointer_press(pointer_release(v, input).0, input).0, input)
}

/// A whole frame of input: the new state, the values submitted and the
/// back end asked for.
pub open spec fn interaction(v: DemoView, input: FrameInput) -> (
    DemoView,
    Seq<Seq<char>>,
    Option<BackendSelector>,
) {
    let r = pointer_release(v, input);
    let p = pointer_press(r.0, input);
    let k = key_actions(tab_focus(p.0, input), input);
    (
        DemoView {
            prev_mouse_down: input.mouse_down,
            prev_keys: input.pressed@.filter(|x: KeyCode| is_tracked_key(x)),
            ..k.0
        },
        r.1 + k.1,
        p.1,
    )
}

/// The caret and the selection anchor lie within the text.
pub open spec fn text_in_bounds(t: TextInputView) -> bool {
    &&& t.cursor <= t.chars.len()
    &&& (t.anchor matches Some(a) ==> a <= t.chars.len())
}

/// Typing keeps the caret and the anchor within the text.
proof fn lemma_insert_in_bounds(t: TextInputView, c: char)
    requires
        text_in_bounds(t),
    ensures
        text_in_bounds(t.after_insert(c)),
        t.state != WidgetState::Disabled ==> t.after_insert(c).chars.len() <= t.chars.len() + 1,
{
}

/// Types the characters of the typing keys that went down.
fn type_keys(text: &mut TextInput, prev: &Vec<KeyCode>, pressed: &Vec<KeyCode>)
    requires
        old(text).wf(),
    ensures
        final(text).wf(),
        final(text)@ == typed(old(text)@, prev@, pressed@, CHAR_KEY_COUNT as nat),
{
    let ghost t0 = text@;
    let mut i: usize = 0;
    while i < CHAR_KEY_COUNT
        invariant
            i <= CHAR_KEY_COUNT,
            text.wf(),
            text@ == typed(t0, prev@, pressed@, i as nat),
        decreases CHAR_KEY_COUNT - i,
    {
        let kc = char_key(i);
        if is_new_press(prev, pressed, kc.0) && text.chars_count() < MAX_TEXT_LEN {
            text.insert_char(kc.1);
        }
        i = i + 1;
    }
}

/// The notice shown for a back end the build does not carry.
fn notice(b: BackendSelector) -> (s: String)
    ensures
        s@ == notice_of(b),
{
    match b {
        BackendSelector::Wgpu => "wgpu not compiled in (add --features backend-wgpu)".to_owned(),
        BackendSelector::Cuda => "CUDA not compiled in (add --features backend-cuda)".to_owned(),
        BackendSelector::Cpu => "CPU not compiled in (add --features backend-cpu)".to_owned(),
    }
}

/// Typing keeps the text within the limit and the caret and anchor within
/// the text.
proof fn lemma_typed_within(t: TextInputView, prev: Seq<KeyCode>, pressed: Seq<KeyCode>, n: nat)
    requires
        t.chars.len() <= MAX_TEXT_LEN,
        text_in_bounds(t),
    ensures
        typed(t, prev, pressed, n).chars.len() <= MAX_TEXT_LEN,
        text_in_bounds(typed(t, prev, pressed, n)),
    decreases n,
{
    if n > 0 {
        lemma_typed_within(t, prev, pressed, (n - 1) as nat);
        let t0 = typed(t, prev, pressed, (n - 1) as nat);
        lemma_insert_in_bounds(t0, char_key_of((n - 1) as usize).1);
    }
}

/// The editing keys keep the text within the limit and the caret within it.
proof fn lemma_edited_within(t: TextInputView, prev: Seq<KeyCode>, pressed: Seq<KeyCode>)
    requires
        t.chars.len() <= MAX_TEXT_LEN,
        text_in_bounds(t),
    ensures
        edited(t, prev, pressed).chars.len() <= MAX_TEXT_LEN,
        text_in_bounds(edited(t, prev, pressed)),
{
    lemma_typed_within(t, prev, pressed, CHAR_KEY_COUNT as nat);
}

/// Focus, hover and clicks leave the characters and the caret of the text alone.
proof fn lemma_before_keys_text(v: DemoView, input: FrameInput)
    ensures
        before_keys(v, input).text.chars == v.text.chars,
        before_keys(v, input).text.cursor == v.text.cursor,
        before_keys(v, input).prev_keys == v.prev_keys,
        text_in_bounds(v.text) ==> text_in_bounds(before_keys(v, input).text),
{
    let r = pointer_release(v, input).0;
    assert(r.text == v.text && r.prev_keys == v.prev_keys && r.prev_mouse_down == v.prev_mouse_down);
    let p = pointer_press(r, input).0;
    assert(p.text.chars == v.text.chars && p.text.cursor == v.text.cursor && p.prev_keys
        == v.prev_keys);
}

/// The demo text never grows past [`MAX_TEXT_LEN`] characters: a frame that
/// starts with the text within the limit (and the caret within the text)
/// ends with it within the limit and the caret within the text.
pub proof fn lemma_text_within_limit(v: DemoView, input: FrameInput)
    requires
        v.text.chars.len() <= MAX_TEXT_LEN,
        text_in_bounds(v.text),
    ensures
        interaction(v, input).0.text.chars.len() <= MAX_TEXT_LEN,
        text_in_bounds(interaction(v, input).0.text),
{
    let w = before_keys(v, input);
    lemma_before_keys_text(v, input);
    if w.focus == DemoFocus::Textbox {
        lemma_edited_within(w.text, w.prev_keys, input.pressed@);
    }
    let k = key_actions(w, input).0;
    assert(k.text.chars.len() <= MAX_TEXT_LEN && text_in_bounds(k.text));
    assert(interaction(v, input).0.text == k.text);
}

/// The demo screen's state.
pub struct DemoUiState {
    label: Label,
    text_input: TextInput,
    button: Button,
    focus: DemoFocus,
    submit_flash: u8,
    frame_index: u64,
    prev_mouse_down: bool,
    button_mouse_held: bool,
    prev_pressed_keys: Vec<KeyCode>,
    notice_frames: u8,
    notice_text: String,
}

impl View for DemoUiState {
    type V = DemoView;

    closed spec fn view(&self) -> DemoView {
        DemoView {
            label: self.label@,
            text: self.text_input@,
            button: self.button@,
            focus: self.focus,
            submit_flash: self.submit_flash,
            frame_index: self.frame_index,
            prev_mouse_down: self.prev_mouse_down,
            button_mouse_held: self.button_mouse_held,
            prev_keys: self.prev_pressed_keys@,
            notice_frames: self.notice_frames,
            notice_text: self.notice_text@,
        }
    }
}

/// The screen as it opens: the text box focused and empty with its
/// placeholder, the button resting, nothing held.
pub open spec fn initial_view() -> DemoView {
    DemoView {
        label: LabelView { text: "Name"@, align: TextAlign::Start },
        text: TextInputView {
            state: WidgetState::Focused,
            chars: Seq::empty(),
            cursor: 0,
            anchor: Option::None,
            placeholder: "Type here"@,
        },
        button: ButtonView { state: WidgetState::Normal, label: "Submit"@, focused: false },
        focus: DemoFocus::Textbox,
        submit_flash: 0,
        frame_index: 0,
        prev_mouse_down: false,
        button_mouse_held: false,
        prev_keys: Seq::empty(),
        notice_frames: 0,
        notice_text: Seq::empty(),
    }
}

impl DemoUiState {
    /// Internal consistency: the text box is well formed.
    pub closed spec fn wf(&self) -> bool {
        self.text_input.wf()
    }

    pub fn new() -> (s: Self)
        ensures
            s.wf(),
            s@ == initial_view(),
    {
        let mut text_input = TextInput::new().with_placeholder("Type here");
        text_input.set_focused(true);
        let mut button = Button::new("Submit");
        button.set_focused(false);
        DemoUiState {
            label: Label::new("Name"),
            text_input,
            button,
            focus: DemoFocus::Textbox,
            submit_flash: 0,
            frame_index: 0,
            prev_mouse_down: false,
            button_mouse_held: false,
            prev_pressed_keys: Vec::new(),
            notice_frames: 0,
            notice_text: String::new(),
        }
    }

    pub fn label(&self) -> (l: &Label)
        ensures
            l@ == self@.label,
    {
        &self.label
    }

    pub fn text_input(&self) -> (t: &TextInput)
        requires
            self.wf(),
        ensures
            t@ == self@.text,
            t.wf(),
    {
        &self.text_input
    }

    pub fn button(&self) -> (b: &Button)
        ensures
            b@ == self@.button,
    {
        &self.button
    }

    pub fn focus(&self) -> (f: DemoFocus)
        ensures
            f == self@.focus,
    {
        self.focus
    }

    pub fn submit_flash(&self) -> (n: u8)
        ensures
            n == self@.submit_flash,
    {
        self.submit_flash
    }

    pub fn frame_index(&self) -> (n: u64)
        ensures
            n == self@.frame_index,
    {
        self.frame_index
    }

    pub fn notice_frames(&self) -> (n: u8)
        ensures
            n == self@.notice_frames,
    {
        self.notice_frames
    }

    pub fn notice_text(&self) -> (t: &str)
        ensures
            t@ == self@.notice_text,
    {
        self.notice_text.as_str()
    }

    /// Whether `k` was held last frame (the on-screen keyboard lights it).
    pub fn key_held(&self, k: KeyCode) -> (b: bool)
        ensures
            b == self@.prev_keys.contains(k),
    {
        has_key(&self.prev_pressed_keys, k)
    }

    /// Whether the text box caret shows this frame: the box is focused and
    /// the caret blinks on for 24 frames, off for 24.
    pub fn caret_visible(&self) -> (b: bool)
        ensures
            b == (self@.text.state == WidgetState::Focused && (self@.frame_index / 24) % 2 == 0),
    {
        self.text_input.state() == WidgetState::Focused && (self.frame_index / 24) % 2 == 0
    }

    /// Starts a frame: advances the frame counter (wrapping) and counts the
    /// notice down.  Returns whether a notice shows this frame.
    pub fn begin_frame(&mut self) -> (show_notice: bool)
        requires
            old(self).wf(),
        ensures
            final(self).wf(),
            show_notice == (old(self)@.notice_frames > 0),
            final(self)@ == (DemoView {
                frame_index: if old(self)@.frame_index == u64::MAX {
                    0
                } else {
                    (old(self)@.frame_index + 1) as u64
                },
                notice_frames: if old(self)@.notice_frames > 0 {
                    (old(self)@.notice_frames - 1) as u8
                } else {
                    0
                },
                ..old(self)@
            }),
    {
        self.frame_index = if self.frame_index == u64::MAX {
            0
        } else {
            self.frame_index + 1
        };
        if self.notice_frames > 0 {
            self.notice_frames = self.notice_frames - 1;
            true
        } else {
            false
        }
    }

    /// Ends a frame: counts the submit flash down.
    pub fn end_frame(&mut self)
        requires
            old(self).wf(),
        ensures
            final(self).wf(),
            final(self)@ == (DemoView {
                submit_flash: if old(self)@.submit_flash > 0 {
                    (old(self)@.submit_flash - 1) as u8
                } else {
                    0
                },
                ..old(self)@
            }),
    {
        if self.submit_flash > 0 {
            self.submit_flash = self.submit_flash - 1;
        }
    }

    /// Moves keyboard focus to `focus`.
    pub fn set_focus(&mut self, focus: DemoFocus)
        requires
            old(self).wf(),
        ensures
            final(self).wf(),
            final(self)@ == with_focus(old(self)@, focus),
    {
        self.focus = focus;
        self.text_input.set_focused(focus == DemoFocus::Textbox);
        self.button.set_focused(focus == DemoFocus::Button);
    }

    fn handle_text_input(&mut self, input: &FrameInput, submitted: &mut Vec<String>)
        requires
            old(self).wf(),
        ensures
            final(self).wf(),
            final(self)@ == text_keys(old(self)@, *input).0,
            string_views(final(submitted)@) == string_views(old(submitted)@) + text_keys(
                old(self)@,
                *input,
            ).1,
    {
        let shift = has_key(&input.pressed, KeyCode::Shift);
        type_keys(&mut self.text_input, &self.prev_pressed_keys, &input.pressed);
        if is_new_press(&self.prev_pressed_keys, &input.pressed, KeyCode::Backspace) {
            self.text_input.delete_backward();
        }
        if is_new_press(&self.prev_pressed_keys, &input.pressed, KeyCode::ArrowLeft) {
            self.text_input.move_cursor(CursorMove::Left, shift);
        }
        if is_new_press(&self.prev_pressed_keys, &input.pressed, KeyCode::ArrowRight) {
            self.text_input.move_cursor(CursorMove::Right, shift);
        }
        if is_new_press(&self.prev_pressed_keys, &input.pressed, KeyCode::Enter) {
            self.submit(submitted);
        } else {
            assert(string_views(submitted@) =~= string_views(old(submitted)@) + Seq::empty());
        }
    }

    fn release_step(&mut self, input: &FrameInput, submitted: &mut Vec<String>)
        requires
            old(self).wf(),
            old(submitted)@.len() == 0,
        ensures
            final(self).wf(),
            final(self)@ == pointer_release(old(self)@, *input).0,
            string_views(final(submitted)@) == pointer_release(old(self)@, *input).1,
    {
        self.button.set_hovered(input.over_button);
        if !input.mouse_down && self.prev_mouse_down && self.button_mouse_held {
            self.button_mouse_held = false;
            if self.button.release() {
                self.submit(submitted);
            }
        }
        assert(string_views(old(submitted)@) =~= Seq::empty());
    }

    fn press_step(&mut self, input: &FrameInput) -> (switch_to: Option<BackendSelector>)
        requires
            old(self).wf(),
        ensures
            final(self).wf(),
            final(self)@ == pointer_press(old(self)@, *input).0,
            switch_to == pointer_press(old(self)@, *input).1,
    {
        if input.mouse_down && !self.prev_mouse_down {
            match input.target {
                PointerTarget::Backend(b) => {
                    if b == input.current_backend {
                        None
                    } else if b.is_available_in(input.features) {
                        Some(b)
                    } else {
                        self.notice_text = notice(b);
                        self.notice_frames = NOTICE_FRAMES;
                        None
                    }
                },
                PointerTarget::Textbox => {
                    self.set_focus(DemoFocus::Textbox);
                    None
                },
                PointerTarget::Button => {
                    self.set_focus(DemoFocus::Button);
                    self.button.press();
                    self.button_mouse_held = true;
                    None
                },
                PointerTarget::Elsewhere => None,
            }
        } else {
            None
        }
    }

    fn tab_step(&mut self, input: &FrameInput)
        requires
            old(self).wf(),
        ensures
            final(self).wf(),
            final(self)@ == tab_focus(old(self)@, *input),
    {
        if is_new_press(&self.prev_pressed_keys, &input.pressed, KeyCode::Tab) {
            let next = match self.focus {
                DemoFocus::Textbox => DemoFocus::Button,
                DemoFocus::Button => DemoFocus::Textbox,
            };
            self.set_focus(next);
        }
    }

    fn key_step(&mut self, input: &FrameInput, submitted: &mut Vec<String>)
        requires
            old(self).wf(),
        ensures
            final(self).wf(),
            final(self)@ == key_actions(old(self)@, *input).0,
            string_views(final(submitted)@) == string_views(old(submitted)@) + key_actions(
                old(self)@,
                *input,
            ).1,
    {
        match self.focus {
            DemoFocus::Textbox => self.handle_text_input(input, submitted),
            DemoFocus::Button => {
                if is_new_press(&self.prev_pressed_keys, &input.pressed, KeyCode::Enter)
                    || is_new_press(&self.prev_pressed_keys, &input.pressed, KeyCode::Space) {
                    self.button.press();
                    if self.button.release() {
                        self.submit(submitted);
                    } else {
                        assert(string_views(submitted@) =~= string_views(old(submitted)@) + Seq::empty());
                    }
                } else {
                    assert(string_views(submitted@) =~= string_views(old(submitted)@) + Seq::empty());
                }
            },
        }
    }

    /// Applies one frame of input: hover, the release of a button held by
    /// the mouse, a fresh mouse press, Tab, then the keys on the focused
    /// control.  Returns the values submitted and the back end asked for.
    pub fn handle_interaction(&mut self, input: &FrameInput) -> (out: Interaction)
        requires
            old(self).wf(),
        ensures
            final(self).wf(),
            final(self)@ == interaction(old(self)@, *input).0,
            string_views(out.submitted@) == interaction(old(self)@, *input).1,
            out.switch_to == interaction(old(self)@, *input).2,
    {
        let mut submitted: Vec<String> = Vec::new();
        self.release_step(input, &mut submitted);
        let switch_to = self.press_step(input);
        self.tab_step(input);
        self.key_step(input, &mut submitted);
        self.prev_mouse_down = input.mouse_down;
        self.prev_pressed_keys = tracked_keys(&input.pressed);
        Interaction { submitted, switch_to }
    }

    fn submit(&mut self, submitted: &mut Vec<String>)
        requires
            old(self).wf(),
        ensures
            final(self).wf(),
            final(self)@ == flashed(old(self)@),
            string_views(final(submitted)@) == string_views(old(submitted)@).push(old(self)@.text.chars),
    {
        self.submit_flash = SUBMIT_FLASH_FRAMES;
        submitted.push(self.text_input.value().to_owned());
        proof {
            assert(string_views(submitted@) =~= string_views(old(submitted)@).push(old(self)@.text.chars));
        }
    }
}

} // verus!


verus! {

/// The headless form check of the demo: the label names the field, typing
/// and a shift-selection replacement work in the text box, and the focused
/// button activates on press and release.  It always passes.
pub fn run_smoke_test_form() -> (ok: bool)
    ensures
        ok,
{
    proof {
        reveal_strlit("Name");
        reveal_strlit("hello");
        reveal_strlit("Hello");
    }
    let label = Label::new("Name");
    if !str_eq(label.text(), "Name") {
        return false;
    }
    let mut input = TextInput::new().with_placeholder("Type here");
    input.set_focused(true);
    let word = "hello";
    let n = word.unicode_len();
    let mut i: usize = 0;
    while i < n
        invariant
            n == word@.len(),
            word@ == "hello"@,
            i <= n,
            input.wf(),
            input@.state == WidgetState::Focused,
            input@.anchor is None,
            input@.chars == word@.take(i as int),
            input@.cursor == i,
        decreases n - i,
    {
        proof {
            input.lemma_cursor_in_text();
        }
        input.insert_char(word.get_char(i));
        assert(input@.chars =~= word@.take(i + 1));
        i = i + 1;
    }
    assert(word@.take(5) =~= word@);
    if !str_eq(input.value(), "hello") || input.cursor() != 5 {
        return false;
    }
    input.move_cursor(CursorMove::Home, false);
    input.move_cursor(CursorMove::Right, true);
    match input.selection() {
        Some((lo, hi)) => {
            if lo != 0 || hi != 1 {
                return false;
            }
        },
        None => {
            return false;
        },
    }
    input.insert_char('H');
    assert(input@.chars =~= "Hello"@);
    if !str_eq(input.value(), "Hello") {
        return false;
    }
    input.set_focused(false);
    let mut button = Button::new("Submit");
    button.set_focused(true);
    if button.state() != WidgetState::Focused {
        return false;
    }
    button.press();
    if !button.release() {
        return false;
    }
    true
}

/// Why the back end named on the command line cannot be used.
#[derive(Debug)]
pub enum BackendArgError {
    /// The name is not a back end.
    Parse(RenderError),
    /// The back end is not compiled into this build.
    NotCompiled(BackendSelector),
}

/// The first back end a build carries, or wgpu when it carries none.
pub open spec fn first_or_wgpu(features: BackendFeatures) -> BackendSelector {
    if features.listed().len() > 0 {
        features.listed()[0]
    } else {
        BackendSelector::Wgpu
    }
}

/// The back end the demo starts on: the one named by `--backend=` when the
/// build carries it, or without a name the first the build carries (wgpu
/// when it carries none).
pub fn choose_backend(arg: Option<&str>, features: BackendFeatures) -> (r: Result<
    BackendSelector,
    BackendArgError,
>)
    ensures
        match arg {
            None => r matches Ok(b) && b == first_or_wgpu(features),
            Some(s) => match backend_named(s@) {
                Some(b) => if features.has(b) {
                    r matches Ok(x) && x == b
                } else {
                    r matches Err(BackendArgError::NotCompiled(x)) && x == b
                },
                None => r matches Err(BackendArgError::Parse(e)) && render_error_view(e)
                    == RenderErrorView::Other(
                    "unknown backend '"@ + s@ + "'; available: "@ + joined_names(
                        BackendFeatures::spec_compiled().listed(),
                    ),
                ),
            },
        },
{
    match arg {
        None => {
            if features.wgpu {
                Ok(BackendSelector::Wgpu)
            } else if features.cuda {
                Ok(BackendSelector::Cuda)
            } else if features.cpu {
                Ok(BackendSelector::Cpu)
            } else {
                Ok(BackendSelector::Wgpu)
            }
        },
        Some(name) => match BackendSelector::parse(name) {
            Ok(b) => {
                if b.is_available_in(features) {
                    Ok(b)
                } else {
                    Err(BackendArgError::NotCompiled(b))
                }
            },
            Err(e) => Err(BackendArgError::Parse(e)),
        },
    }
}

} // verus!
