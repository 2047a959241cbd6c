//! The PS/2 keyboard: scan codes of the US QWERTY layout, the shift keys,
//! and what the interrupt handler does with each code.
use vstd::prelude::*;

verus! {

/// The data port that the keyboard controller hands scan codes in on.
pub const INPUT_PORT: u16 = 0x60;

/// The character that a scan code below 58 stands for on the US QWERTY
/// layout, `'\0'` where it stands for none.
pub open spec fn qwerty(scan_code: u8) -> char {
    match scan_code {
        0 => '\0',
        1 => '\0',
        2 => '1',
        3 => '2',
        4 => '3',
        5 => '4',
        6 => '5',
        7 => '6',
        8 => '7',
        9 => '8',
        10 => '9',
        11 => '0',
        12 => '-',
        13 => '=',
        14 => '\0',
        15 => '\0',
        16 => 'q',
        17 => 'w',
        18 => 'e',
        19 => 'r',
        20 => 't',
        21 => 'y',
        22 => 'u',
        23 => 'i',
        24 => 'o',
        25 => 'p',
        26 => '[',
        27 => ']',
        28 => '\0',
        29 => '\0',
        30 => 'a',
        31 => 's',
        32 => 'd',
        33 => 'f',
        34 => 'g',
        35 => 'h',
        36 => 'j',
        37 => 'k',
        38 => 'l',
        39 => ';',
        40 => '\'',
        41 => '`',
        42 => '\0',
        43 => '\\',
        44 => 'z',
        45 => 'x',
        46 => 'c',
        47 => 'v',
        48 => 'b',
        49 => 'n',
        50 => 'm',
        51 => ',',
        52 => '.',
        53 => '/',
        54 => '\0',
        55 => '*',
        56 => '\0',
        57 => ' ',
        _ => '\0',
    }
}

/// The character a shifted key gives in place of a non-letter.
pub open spec fn shifted(c: char) -> char {
    match c {
        '1' => '!',
        '2' => '@',
        '3' => '#',
        '4' => '$',
        '5' => '%',
        '6' => '^',
        '7' => '&',
        '8' => '*',
        '9' => '(',
        '0' => ')',
        '-' => '_',
        '=' => '+',
        '[' => '{',
        ']' => '}',
        '\\' => '|',
        '/' => '?',
        '\'' => '\"',
        ';' => ':',
        '.' => '>',
        ',' => '<',
        _ => c,
    }
}

/// Whether a character is a lowercase letter.
pub open spec fn is_lower(c: char) -> bool {
    'a' <= c && c <= 'z'
}

/// What a scan code types, with the shift keys held or not.
pub open spec fn key_char(scan_code: u8, is_upper_case: bool) -> char {
    if scan_code > 58 {
        '\0'
    } else {
        let c = qwerty(scan_code);
        if is_upper_case && is_lower(c) {
            ((c as u8) - 32) as char
        } else if is_upper_case {
            shifted(c)
        } else {
            c
        }
    }
}

fn scan_code_char(scan_code: u8) -> (c: char)
    requires
        scan_code < 58,
    ensures
        c == qwerty(scan_code),
{
    match scan_code {
        0 => '\0',
        1 => '\0',
        2 => '1',
        3 => '2',
        4 => '3',
        5 => '4',
        6 => '5',
        7 => '6',
        8 => '7',
        9 => '8',
        10 => '9',
        11 => '0',
        12 => '-',
        13 => '=',
        14 => '\0',
        15 => '\0',
        16 => 'q',
        17 => 'w',
        18 => 'e',
        19 => 'r',
        20 => 't',
        21 => 'y',
        22 => 'u',
        23 => 'i',
        24 => 'o',
        25 => 'p',
        26 => '[',
        27 => ']',
        28 => '\0',
        29 => '\0',
        30 => 'a',
        31 => 's',
        32 => 'd',
        33 => 'f',
        34 => 'g',
        35 => 'h',
        36 => 'j',
        37 => 'k',
        38 => 'l',
        39 => ';',
        40 => '\'',
        41 => '`',
        42 => '\0',
        43 => '\\',
        44 => 'z',
        45 => 'x',
        46 => 'c',
        47 => 'v',
        48 => 'b',
        49 => 'n',
        50 => 'm',
        51 => ',',
        52 => '.',
        53 => '/',
        54 => '\0',
        55 => '*',
        56 => '\0',
        57 => ' ',
        _ => '\0',
    }
}

fn shift_char(c: char) -> (s: char)
    ensures
        s == shifted(c),
{
    match c {
        '1' => '!',
        '2' => '@',
        '3' => '#',
        '4' => '$',
        '5' => '%',
        '6' => '^',
        '7' => '&',
        '8' => '*',
        '9' => '(',
        '0' => ')',
        '-' => '_',
        '=' => '+',
        '[' => '{',
        ']' => '}',
        '\\' => '|',
        '/' => '?',
        '\'' => '\"',
        ';' => ':',
        '.' => '>',
        ',' => '<',
        _ => c,
    }
}

/// The character that a scan code types, `'\0'` for codes that type none;
/// held shift gives uppercase letters and the shifted symbols.
pub fn parse_key_input(scan_code: u8, is_upper_case: bool) -> (c: char)
    requires
        scan_code != 58,
    ensures
        c == key_char(scan_code, is_upper_case),
{
    if scan_code > 58 {
        return '\0';
    }
    let scan_code_char = scan_code_char(scan_code);
    if is_upper_case && 'a' <= scan_code_char && scan_code_char <= 'z' {
        return ((scan_code_char as u8) - 32) as char;
    } else if is_upper_case {
        return shift_char(scan_code_char);
    }
    scan_code_char
}

/// Which shift keys are held.
#[derive(Clone, Copy, PartialEq, Eq, Structural, Debug)]
pub struct ShiftState {
    pub left_shift: bool,
    pub right_shift: bool,
}

/// What the terminal is to do about a key event.
#[derive(Clone, Copy, PartialEq, Eq, Structural, Debug)]
pub enum KeyAction {
    Nothing,
    ClearChar,
    MoveCursor(i32),
    PutChar(char),
}

/// What a scan code does to the shift state and the terminal.
pub open spec fn key_event(state: ShiftState, scan_code: u8) -> (ShiftState, KeyAction) {
    if scan_code == 0x2A {
        (ShiftState { left_shift: true, ..state }, KeyAction::Nothing)
    } else if scan_code == 0xAA {
        (ShiftState { left_shift: false, ..state }, KeyAction::Nothing)
    } else if scan_code == 0x36 {
        (ShiftState { right_shift: true, ..state }, KeyAction::Nothing)
    } else if scan_code == 0xB6 {
        (ShiftState { right_shift: false, ..state }, KeyAction::Nothing)
    } else if scan_code == 0x0E {
        (state, KeyAction::ClearChar)
    } else if scan_code == 0x4D {
        (state, KeyAction::MoveCursor(1))
    } else if scan_code == 0x4B {
        (state, KeyAction::MoveCursor(-1i32))
    } else if scan_code == 0xE0 {
        (state, KeyAction::Nothing)
    } else {
        let key = key_char(scan_code, state.left_shift || state.right_shift);
        (state, if key != '\0' { KeyAction::PutChar(key) } else { KeyAction::Nothing })
    }
}

impl ShiftState {
    /// No shift key held.
    pub fn new() -> (state: Self)
        ensures
            !state.left_shift && !state.right_shift,
    {
        ShiftState { left_shift: false, right_shift: false }
    }
}

/// Handles one scan code from the keyboard: the shift keys change the shift
/// state; backspace, the arrow keys and the other keys become terminal actions.
pub fn keyboard_interrupt_handler(state: &mut ShiftState, scan_code: u8) -> (action: KeyAction)
    requires
        scan_code != 58,
    ensures
        (*final(state), action) == key_event(*old(state), scan_code),
{
    match scan_code {
        0x2A => {
            state.left_shift = true;
            KeyAction::Nothing
        },
        0xAA => {
            state.left_shift = false;
            KeyAction::Nothing
        },
        0x36 => {
            state.right_shift = true;
            KeyAction::Nothing
        },
        0xB6 => {
            state.right_shift = false;
            KeyAction::Nothing
        },
        0x0E => KeyAction::ClearChar,
        0x4D => KeyAction::MoveCursor(1),
        0x4B => KeyAction::MoveCursor(-1),
        0xE0 => KeyAction::Nothing,
        _ => {
            let right_shift: bool = state.right_shift;
            let left_shift: bool = state.left_shift;
            let is_upper_case: bool = left_shift || right_shift;
            let key = parse_key_input(scan_code, is_upper_case);
            if key != '\0' {
                KeyAction::PutChar(key)
            } else {
                KeyAction::Nothing
            }
        },
    }
}

/// Pressing a shift key and letting it go leaves the shift state as it was
/// when that key was up, and neither event puts anything on the terminal.
pub proof fn lemma_shift_press_release(state: ShiftState, press: u8, release: u8)
    requires
        (press == 0x2A && release == 0xAA && !state.left_shift) || (press == 0x36 && release == 0xB6
            && !state.right_shift),
    ensures
        key_event(key_event(state, press).0, release).0 == state,
        key_event(state, press).1 == KeyAction::Nothing,
        key_event(key_event(state, press).0, release).1 == KeyAction::Nothing,
{
}

/// The US QWERTY layout of the main key block. Without shift: the number row
/// (scan codes 2 to 13), the top letter row (16 to 27), the home row (30 to
/// 41), the bottom row (43 to 53), `*` (55) and the space bar (57); with
/// shift, the same keys give the shifted row. The remaining codes up to 58
/// (escape, backspace, tab, enter, control, the shift keys, alt) type
/// nothing, shifted or not.
pub proof fn lemma_us_qwerty_layout()
    ensures
        forall|c: u8|
            2 <= c <= 13 ==> #[trigger] key_char(c, false) == seq![
                '1', '2', '3', '4', '5', '6', '7', '8', '9', '0', '-', '=',
            ][c - 2],
        forall|c: u8|
            2 <= c <= 13 ==> #[trigger] key_char(c, true) == seq![
                '!', '@', '#', '$', '%', '^', '&', '*', '(', ')', '_', '+',
            ][c - 2],
        forall|c: u8|
            16 <= c <= 27 ==> #[trigger] key_char(c, false) == seq![
                'q', 'w', 'e', 'r', 't', 'y', 'u', 'i', 'o', 'p', '[', ']',
            ][c - 16],
        forall|c: u8|
            16 <= c <= 27 ==> #[trigger] key_char(c, true) == seq![
                'Q', 'W', 'E', 'R', 'T', 'Y', 'U', 'I', 'O', 'P', '{', '}',
            ][c - 16],
        forall|c: u8|
            30 <= c <= 41 ==> #[trigger] key_char(c, false) == seq![
                'a', 's', 'd', 'f', 'g', 'h', 'j', 'k', 'l', ';', '\'', '`',
            ][c - 30],
        forall|c: u8|
            30 <= c <= 41 ==> #[trigger] key_char(c, true) == seq![
                'A', 'S', 'D', 'F', 'G', 'H', 'J', 'K', 'L', ':', '"', '`',
            ][c - 30],
        forall|c: u8|
            43 <= c <= 53 ==> #[trigger] key_char(c, false) == seq![
                '\\', 'z', 'x', 'c', 'v', 'b', 'n', 'm', ',', '.', '/',
            ][c - 43],
        forall|c: u8|
            43 <= c <= 53 ==> #[trigger] key_char(c, true) == seq![
                '|', 'Z', 'X', 'C', 'V', 'B', 'N', 'M', '<', '>', '?',
            ][c - 43],
        key_char(55, false) == '*' && key_char(55, true) == '*',
        key_char(57, false) == ' ' && key_char(57, true) == ' ',
        forall|c: u8, shift: bool|
            (c <= 1 || c == 14 || c == 15 || c == 28 || c == 29 || c == 42 || c == 54 || c == 56 || c
                >= 58) ==> #[trigger] key_char(c, shift) == '\0',
{
}

} // verus!
