//! The keyboard of the legacy controller: scan codes of set 1 to key codes.
//!
//! A byte read from the controller is handed in; a write to the controller
//! is handed out for the caller to send.

use vstd::prelude::*;
use crate::arch::port::{Port, PortWrite, byte_write};

verus! {

#[allow(non_camel_case_types)]
#[derive(Debug, Clone, Copy, PartialEq, Eq, Structural)]
pub enum KeyCode {
    KEY_INVALID,
    KEY_SPACE,
    KEY_0,
    KEY_1,
    KEY_2,
    KEY_3,
    KEY_4,
    KEY_5,
    KEY_6,
    KEY_7,
    KEY_8,
    KEY_9,
    KEY_A,
    KEY_B,
    KEY_C,
    KEY_D,
    KEY_E,
    KEY_F,
    KEY_G,
    KEY_H,
    KEY_I,
    KEY_J,
    KEY_K,
    KEY_L,
    KEY_M,
    KEY_N,
    KEY_O,
    KEY_P,
    KEY_Q,
    KEY_R,
    KEY_S,
    KEY_T,
    KEY_U,
    KEY_V,
    KEY_W,
    KEY_X,
    KEY_Y,
    KEY_Z,
    KEY_DOT,
    KEY_COMMA,
    KEY_COLON,
    KEY_SEMICOLON,
    KEY_SLASH,
    KEY_BACKSLASH,
    KEY_PLUS,
    KEY_MINUS,
    KEY_ASTERISK,
    KEY_EXCLAMATION,
    KEY_QUESTION,
    KEY_QUOTEDOUBLE,
    KEY_QUOTE,
    KEY_EQUAL,
    KEY_HASH,
    KEY_PERCENT,
    KEY_AMPERSAND,
    KEY_UNDERSCORE,
    KEY_LEFTPARENTHESIS,
    KEY_RIGHTPARENTHESIS,
    KEY_LEFTBRACKET,
    KEY_RIGHTBRACKET,
    KEY_LEFTCURL,
    KEY_RIGHTCURL,
    KEY_DOLLAR,
    KEY_LESS,
    KEY_GREATER,
    KEY_BAR,
    KEY_GRAVE,
    KEY_TILDE,
    KEY_AT,
    KEY_CARRET,
    KEY_RETURN,
    KEY_BACKSPACE,
    KEY_ESCAPE,
    KEY_UP,
    KEY_DOWN,
    KEY_LEFT,
    KEY_RIGHT,
    KEY_F1,
    KEY_F2,
    KEY_F3,
    KEY_F4,
    KEY_F5,
    KEY_F6,
    KEY_F7,
    KEY_F8,
    KEY_F9,
    KEY_F10,
    KEY_F11,
    KEY_F12,
    KEY_F13,
    KEY_F14,
    KEY_F15,
    KEY_KP_0,
    KEY_KP_1,
    KEY_KP_2,
    KEY_KP_3,
    KEY_KP_4,
    KEY_KP_5,
    KEY_KP_6,
    KEY_KP_7,
    KEY_KP_8,
    KEY_KP_9,
    KEY_KP_PLUS,
    KEY_KP_MINUS,
    KEY_KP_DECIMAL,
    KEY_KP_DIVIDE,
    KEY_KP_ASTERISK,
    KEY_KP_NUMLOCK,
    KEY_KP_ENTER,
    KEY_TAB,
    KEY_CAPSLOCK,
    KEY_LSHIFT,
    KEY_LCTRL,
    KEY_LALT,
    KEY_LWIN,
    KEY_RSHIFT,
    KEY_RCTRL,
    KEY_RALT,
    KEY_RWIN,
    KEY_INSERT,
    KEY_DELETE,
    KEY_HOME,
    KEY_END,
    KEY_PAGEUP,
    KEY_PAGEDOWN,
    KEY_SCROLLLOCK,
    KEY_PAUSE,
    KEY_UNKNOWN,
}

impl KeyCode {
    /// The number of the key: for a printable key the character it prints.
    pub open spec fn spec_code(self) -> u16 {
        match self {
            KeyCode::KEY_INVALID => 0,
            KeyCode::KEY_SPACE => 32,
            KeyCode::KEY_0 => 48,
            KeyCode::KEY_1 => 49,
            KeyCode::KEY_2 => 50,
            KeyCode::KEY_3 => 51,
            KeyCode::KEY_4 => 52,
            KeyCode::KEY_5 => 53,
            KeyCode::KEY_6 => 54,
            KeyCode::KEY_7 => 55,
            KeyCode::KEY_8 => 56,
            KeyCode::KEY_9 => 57,
            KeyCode::KEY_A => 97,
            KeyCode::KEY_B => 98,
            KeyCode::KEY_C => 99,
            KeyCode::KEY_D => 100,
            KeyCode::KEY_E => 101,
            KeyCode::KEY_F => 102,
            KeyCode::KEY_G => 103,
            KeyCode::KEY_H => 104,
            KeyCode::KEY_I => 105,
            KeyCode::KEY_J => 106,
            KeyCode::KEY_K => 107,
            KeyCode::KEY_L => 108,
            KeyCode::KEY_M => 109,
            KeyCode::KEY_N => 110,
            KeyCode::KEY_O => 111,
            KeyCode::KEY_P => 112,
            KeyCode::KEY_Q => 113,
            KeyCode::KEY_R => 114,
            KeyCode::KEY_S => 115,
            KeyCode::KEY_T => 116,
            KeyCode::KEY_U => 117,
            KeyCode::KEY_V => 118,
            KeyCode::KEY_W => 119,
            KeyCode::KEY_X => 120,
            KeyCode::KEY_Y => 121,
            KeyCode::KEY_Z => 122,
            KeyCode::KEY_DOT => 46,
            KeyCode::KEY_COMMA => 44,
            KeyCode::KEY_COLON => 58,
            KeyCode::KEY_SEMICOLON => 59,
            KeyCode::KEY_SLASH => 47,
            KeyCode::KEY_BACKSLASH => 92,
            KeyCode::KEY_PLUS => 43,
            KeyCode::KEY_MINUS => 45,
            KeyCode::KEY_ASTERISK => 42,
            KeyCode::KEY_EXCLAMATION => 33,
            KeyCode::KEY_QUESTION => 63,
            KeyCode::KEY_QUOTEDOUBLE => 34,
            KeyCode::KEY_QUOTE => 39,
            KeyCode::KEY_EQUAL => 61,
            KeyCode::KEY_HASH => 35,
            KeyCode::KEY_PERCENT => 37,
            KeyCode::KEY_AMPERSAND => 38,
            KeyCode::KEY_UNDERSCORE => 95,
            KeyCode::KEY_LEFTPARENTHESIS => 40,
            KeyCode::KEY_RIGHTPARENTHESIS => 41,
            KeyCode::KEY_LEFTBRACKET => 91,
            KeyCode::KEY_RIGHTBRACKET => 93,
            KeyCode::KEY_LEFTCURL => 123,
            KeyCode::KEY_RIGHTCURL => 125,
            KeyCode::KEY_DOLLAR => 36,
            KeyCode::KEY_LESS => 60,
            KeyCode::KEY_GREATER => 62,
            KeyCode::KEY_BAR => 124,
            KeyCode::KEY_GRAVE => 96,
            KeyCode::KEY_TILDE => 126,
            KeyCode::KEY_AT => 64,
            KeyCode::KEY_CARRET => 94,
            KeyCode::KEY_RETURN => 13,
            KeyCode::KEY_BACKSPACE => 8,
            KeyCode::KEY_ESCAPE => 4097,
            KeyCode::KEY_UP => 4352,
            KeyCode::KEY_DOWN => 4353,
            KeyCode::KEY_LEFT => 4354,
            KeyCode::KEY_RIGHT => 4355,
            KeyCode::KEY_F1 => 4609,
            KeyCode::KEY_F2 => 4610,
            KeyCode::KEY_F3 => 4611,
            KeyCode::KEY_F4 => 4612,
            KeyCode::KEY_F5 => 4613,
            KeyCode::KEY_F6 => 4614,
            KeyCode::KEY_F7 => 4615,
            KeyCode::KEY_F8 => 4616,
            KeyCode::KEY_F9 => 4617,
            KeyCode::KEY_F10 => 4618,
            KeyCode::KEY_F11 => 4619,
            KeyCode::KEY_F12 => 4620,
            KeyCode::KEY_F13 => 4621,
            KeyCode::KEY_F14 => 4622,
            KeyCode::KEY_F15 => 4623,
            KeyCode::KEY_KP_0 => 12289,
            KeyCode::KEY_KP_1 => 12290,
            KeyCode::KEY_KP_2 => 12291,
            KeyCode::KEY_KP_3 => 12292,
            KeyCode::KEY_KP_4 => 12293,
            KeyCode::KEY_KP_5 => 12294,
            KeyCode::KEY_KP_6 => 12295,
            KeyCode::KEY_KP_7 => 12296,
            KeyCode::KEY_KP_8 => 12297,
            KeyCode::KEY_KP_9 => 12298,
            KeyCode::KEY_KP_PLUS => 12299,
            KeyCode::KEY_KP_MINUS => 12300,
            KeyCode::KEY_KP_DECIMAL => 12301,
            KeyCode::KEY_KP_DIVIDE => 12302,
            KeyCode::KEY_KP_ASTERISK => 12303,
            KeyCode::KEY_KP_NUMLOCK => 12304,
            KeyCode::KEY_KP_ENTER => 12305,
            KeyCode::KEY_TAB => 16384,
            KeyCode::KEY_CAPSLOCK => 16385,
            KeyCode::KEY_LSHIFT => 16386,
            KeyCode::KEY_LCTRL => 16387,
            KeyCode::KEY_LALT => 16388,
            KeyCode::KEY_LWIN => 16389,
            KeyCode::KEY_RSHIFT => 16390,
            KeyCode::KEY_RCTRL => 16391,
            KeyCode::KEY_RALT => 16392,
            KeyCode::KEY_RWIN => 16393,
            KeyCode::KEY_INSERT => 16394,
            KeyCode::KEY_DELETE => 16395,
            KeyCode::KEY_HOME => 16396,
            KeyCode::KEY_END => 16397,
            KeyCode::KEY_PAGEUP => 16398,
            KeyCode::KEY_PAGEDOWN => 16399,
            KeyCode::KEY_SCROLLLOCK => 16400,
            KeyCode::KEY_PAUSE => 16401,
            KeyCode::KEY_UNKNOWN => 16402,
        }
    }

    pub fn code(self) -> (c: u16)
        ensures
            c == self.spec_code(),
    {
        match self {
            KeyCode::KEY_INVALID => 0,
            KeyCode::KEY_SPACE => 32,
            KeyCode::KEY_0 => 48,
            KeyCode::KEY_1 => 49,
            KeyCode::KEY_2 => 50,
            KeyCode::KEY_3 => 51,
            KeyCode::KEY_4 => 52,
            KeyCode::KEY_5 => 53,
            KeyCode::KEY_6 => 54,
            KeyCode::KEY_7 => 55,
            KeyCode::KEY_8 => 56,
            KeyCode::KEY_9 => 57,
            KeyCode::KEY_A => 97,
            KeyCode::KEY_B => 98,
            KeyCode::KEY_C => 99,
            KeyCode::KEY_D => 100,
            KeyCode::KEY_E => 101,
            KeyCode::KEY_F => 102,
            KeyCode::KEY_G => 103,
            KeyCode::KEY_H => 104,
            KeyCode::KEY_I => 105,
            KeyCode::KEY_J => 106,
            KeyCode::KEY_K => 107,
            KeyCode::KEY_L => 108,
            KeyCode::KEY_M => 109,
            KeyCode::KEY_N => 110,
            KeyCode::KEY_O => 111,
            KeyCode::KEY_P => 112,
            KeyCode::KEY_Q => 113,
            KeyCode::KEY_R => 114,
            KeyCode::KEY_S => 115,
            KeyCode::KEY_T => 116,
            KeyCode::KEY_U => 117,
            KeyCode::KEY_V => 118,
            KeyCode::KEY_W => 119,
            KeyCode::KEY_X => 120,
            KeyCode::KEY_Y => 121,
            KeyCode::KEY_Z => 122,
            KeyCode::KEY_DOT => 46,
            KeyCode::KEY_COMMA => 44,
            KeyCode::KEY_COLON => 58,
            KeyCode::KEY_SEMICOLON => 59,
            KeyCode::KEY_SLASH => 47,
            KeyCode::KEY_BACKSLASH => 92,
            KeyCode::KEY_PLUS => 43,
            KeyCode::KEY_MINUS => 45,
            KeyCode::KEY_ASTERISK => 42,
            KeyCode::KEY_EXCLAMATION => 33,
            KeyCode::KEY_QUESTION => 63,
            KeyCode::KEY_QUOTEDOUBLE => 34,
            KeyCode::KEY_QUOTE => 39,
            KeyCode::KEY_EQUAL => 61,
            KeyCode::KEY_HASH => 35,
            KeyCode::KEY_PERCENT => 37,
            KeyCode::KEY_AMPERSAND => 38,
            KeyCode::KEY_UNDERSCORE => 95,
            KeyCode::KEY_LEFTPARENTHESIS => 40,
            KeyCode::KEY_RIGHTPARENTHESIS => 41,
            KeyCode::KEY_LEFTBRACKET => 91,
            KeyCode::KEY_RIGHTBRACKET => 93,
            KeyCode::KEY_LEFTCURL => 123,
            KeyCode::KEY_RIGHTCURL => 125,
            KeyCode::KEY_DOLLAR => 36,
            KeyCode::KEY_LESS => 60,
            KeyCode::KEY_GREATER => 62,
            KeyCode::KEY_BAR => 124,
            KeyCode::KEY_GRAVE => 96,
            KeyCode::KEY_TILDE => 126,
            KeyCode::KEY_AT => 64,
            KeyCode::KEY_CARRET => 94,
            KeyCode::KEY_RETURN => 13,
            KeyCode::KEY_BACKSPACE => 8,
            KeyCode::KEY_ESCAPE => 4097,
            KeyCode::KEY_UP => 4352,
            KeyCode::KEY_DOWN => 4353,
            KeyCode::KEY_LEFT => 4354,
            KeyCode::KEY_RIGHT => 4355,
            KeyCode::KEY_F1 => 4609,
            KeyCode::KEY_F2 => 4610,
            KeyCode::KEY_F3 => 4611,
            KeyCode::KEY_F4 => 4612,
            KeyCode::KEY_F5 => 4613,
            KeyCode::KEY_F6 => 4614,
            KeyCode::KEY_F7 => 4615,
            KeyCode::KEY_F8 => 4616,
            KeyCode::KEY_F9 => 4617,
            KeyCode::KEY_F10 => 4618,
            KeyCode::KEY_F11 => 4619,
            KeyCode::KEY_F12 => 4620,
            KeyCode::KEY_F13 => 4621,
            KeyCode::KEY_F14 => 4622,
            KeyCode::KEY_F15 => 4623,
            KeyCode::KEY_KP_0 => 12289,
            KeyCode::KEY_KP_1 => 12290,
            KeyCode::KEY_KP_2 => 12291,
            KeyCode::KEY_KP_3 => 12292,
            KeyCode::KEY_KP_4 => 12293,
            KeyCode::KEY_KP_5 => 12294,
            KeyCode::KEY_KP_6 => 12295,
            KeyCode::KEY_KP_7 => 12296,
            KeyCode::KEY_KP_8 => 12297,
            KeyCode::KEY_KP_9 => 12298,
            KeyCode::KEY_KP_PLUS => 12299,
            KeyCode::KEY_KP_MINUS => 12300,
            KeyCode::KEY_KP_DECIMAL => 12301,
            KeyCode::KEY_KP_DIVIDE => 12302,
            KeyCode::KEY_KP_ASTERISK => 12303,
            KeyCode::KEY_KP_NUMLOCK => 12304,
            KeyCode::KEY_KP_ENTER => 12305,
            KeyCode::KEY_TAB => 16384,
            KeyCode::KEY_CAPSLOCK => 16385,
            KeyCode::KEY_LSHIFT => 16386,
            KeyCode::KEY_LCTRL => 16387,
            KeyCode::KEY_LALT => 16388,
            KeyCode::KEY_LWIN => 16389,
            KeyCode::KEY_RSHIFT => 16390,
            KeyCode::KEY_RCTRL => 16391,
            KeyCode::KEY_RALT => 16392,
            KeyCode::KEY_RWIN => 16393,
            KeyCode::KEY_INSERT => 16394,
            KeyCode::KEY_DELETE => 16395,
            KeyCode::KEY_HOME => 16396,
            KeyCode::KEY_END => 16397,
            KeyCode::KEY_PAGEUP => 16398,
            KeyCode::KEY_PAGEDOWN => 16399,
            KeyCode::KEY_SCROLLLOCK => 16400,
            KeyCode::KEY_PAUSE => 16401,
            KeyCode::KEY_UNKNOWN => 16402,
        }
    }

    /// Whether the key prints a character.
    pub open spec fn spec_printable(self) -> bool {
        match self {
            KeyCode::KEY_SPACE | KeyCode::KEY_0 | KeyCode::KEY_1 | KeyCode::KEY_2 | KeyCode::KEY_3 | KeyCode::KEY_4 | KeyCode::KEY_5 | KeyCode::KEY_6 | KeyCode::KEY_7 | KeyCode::KEY_8 | KeyCode::KEY_9 | KeyCode::KEY_A | KeyCode::KEY_B | KeyCode::KEY_C | KeyCode::KEY_D | KeyCode::KEY_E | KeyCode::KEY_F | KeyCode::KEY_G | KeyCode::KEY_H | KeyCode::KEY_I | KeyCode::KEY_J | KeyCode::KEY_K | KeyCode::KEY_L | KeyCode::KEY_M | KeyCode::KEY_N | KeyCode::KEY_O | KeyCode::KEY_P | KeyCode::KEY_Q | KeyCode::KEY_R | KeyCode::KEY_S | KeyCode::KEY_T | KeyCode::KEY_U | KeyCode::KEY_V | KeyCode::KEY_W | KeyCode::KEY_X | KeyCode::KEY_Y | KeyCode::KEY_Z | KeyCode::KEY_DOT | KeyCode::KEY_COMMA | KeyCode::KEY_COLON | KeyCode::KEY_SEMICOLON | KeyCode::KEY_SLASH | KeyCode::KEY_BACKSLASH | KeyCode::KEY_PLUS | KeyCode::KEY_MINUS | KeyCode::KEY_ASTERISK | KeyCode::KEY_EXCLAMATION | KeyCode::KEY_QUESTION | KeyCode::KEY_QUOTEDOUBLE | KeyCode::KEY_QUOTE | KeyCode::KEY_EQUAL | KeyCode::KEY_HASH | KeyCode::KEY_PERCENT | KeyCode::KEY_AMPERSAND | KeyCode::KEY_UNDERSCORE | KeyCode::KEY_LEFTPARENTHESIS | KeyCode::KEY_RIGHTPARENTHESIS | KeyCode::KEY_LEFTBRACKET | KeyCode::KEY_RIGHTBRACKET | KeyCode::KEY_LEFTCURL | KeyCode::KEY_RIGHTCURL | KeyCode::KEY_DOLLAR | KeyCode::KEY_LESS | KeyCode::KEY_GREATER | KeyCode::KEY_BAR | KeyCode::KEY_GRAVE | KeyCode::KEY_TILDE | KeyCode::KEY_AT | KeyCode::KEY_CARRET | KeyCode::KEY_RETURN | KeyCode::KEY_BACKSPACE => true,
            _ => false,
        }
    }

    pub fn printable(&self) -> (r: bool)
        ensures
            r == self.spec_printable(),
    {
        match *self {
            KeyCode::KEY_SPACE | KeyCode::KEY_0 | KeyCode::KEY_1 | KeyCode::KEY_2 | KeyCode::KEY_3 | KeyCode::KEY_4 | KeyCode::KEY_5 | KeyCode::KEY_6 | KeyCode::KEY_7 | KeyCode::KEY_8 | KeyCode::KEY_9 | KeyCode::KEY_A | KeyCode::KEY_B | KeyCode::KEY_C | KeyCode::KEY_D | KeyCode::KEY_E | KeyCode::KEY_F | KeyCode::KEY_G | KeyCode::KEY_H | KeyCode::KEY_I | KeyCode::KEY_J | KeyCode::KEY_K | KeyCode::KEY_L | KeyCode::KEY_M | KeyCode::KEY_N | KeyCode::KEY_O | KeyCode::KEY_P | KeyCode::KEY_Q | KeyCode::KEY_R | KeyCode::KEY_S | KeyCode::KEY_T | KeyCode::KEY_U | KeyCode::KEY_V | KeyCode::KEY_W | KeyCode::KEY_X | KeyCode::KEY_Y | KeyCode::KEY_Z | KeyCode::KEY_DOT | KeyCode::KEY_COMMA | KeyCode::KEY_COLON | KeyCode::KEY_SEMICOLON | KeyCode::KEY_SLASH | KeyCode::KEY_BACKSLASH | KeyCode::KEY_PLUS | KeyCode::KEY_MINUS | KeyCode::KEY_ASTERISK | KeyCode::KEY_EXCLAMATION | KeyCode::KEY_QUESTION | KeyCode::KEY_QUOTEDOUBLE | KeyCode::KEY_QUOTE | KeyCode::KEY_EQUAL | KeyCode::KEY_HASH | KeyCode::KEY_PERCENT | KeyCode::KEY_AMPERSAND | KeyCode::KEY_UNDERSCORE | KeyCode::KEY_LEFTPARENTHESIS | KeyCode::KEY_RIGHTPARENTHESIS | KeyCode::KEY_LEFTBRACKET | KeyCode::KEY_RIGHTBRACKET | KeyCode::KEY_LEFTCURL | KeyCode::KEY_RIGHTCURL | KeyCode::KEY_DOLLAR | KeyCode::KEY_LESS | KeyCode::KEY_GREATER | KeyCode::KEY_BAR | KeyCode::KEY_GRAVE | KeyCode::KEY_TILDE | KeyCode::KEY_AT | KeyCode::KEY_CARRET | KeyCode::KEY_RETURN | KeyCode::KEY_BACKSPACE => true,
            _ => false,
        }
    }

    /// The key that this key stands for while shift is held.
    pub open spec fn spec_shifted(self) -> KeyCode {
        match self {
            KeyCode::KEY_0 => KeyCode::KEY_RIGHTPARENTHESIS,
            KeyCode::KEY_1 => KeyCode::KEY_EXCLAMATION,
            KeyCode::KEY_2 => KeyCode::KEY_AT,
            KeyCode::KEY_3 => KeyCode::KEY_HASH,
            KeyCode::KEY_4 => KeyCode::KEY_DOLLAR,
            KeyCode::KEY_5 => KeyCode::KEY_PERCENT,
            KeyCode::KEY_6 => KeyCode::KEY_CARRET,
            KeyCode::KEY_7 => KeyCode::KEY_AMPERSAND,
            KeyCode::KEY_8 => KeyCode::KEY_ASTERISK,
            KeyCode::KEY_9 => KeyCode::KEY_LEFTPARENTHESIS,
            KeyCode::KEY_UNDERSCORE => KeyCode::KEY_MINUS,
            KeyCode::KEY_EQUAL => KeyCode::KEY_PLUS,
            KeyCode::KEY_GRAVE => KeyCode::KEY_TILDE,
            KeyCode::KEY_COMMA => KeyCode::KEY_LESS,
            KeyCode::KEY_DOT => KeyCode::KEY_GREATER,
            KeyCode::KEY_SLASH => KeyCode::KEY_QUESTION,
            KeyCode::KEY_LEFTBRACKET => KeyCode::KEY_LEFTCURL,
            KeyCode::KEY_RIGHTBRACKET => KeyCode::KEY_RIGHTCURL,
            KeyCode::KEY_BACKSLASH => KeyCode::KEY_BAR,
            KeyCode::KEY_QUOTE => KeyCode::KEY_QUOTEDOUBLE,
            _ => self,
        }
    }

    pub fn shifted(self) -> (k: KeyCode)
        ensures
            k == self.spec_shifted(),
    {
        match self {
            KeyCode::KEY_0 => KeyCode::KEY_RIGHTPARENTHESIS,
            KeyCode::KEY_1 => KeyCode::KEY_EXCLAMATION,
            KeyCode::KEY_2 => KeyCode::KEY_AT,
            KeyCode::KEY_3 => KeyCode::KEY_HASH,
            KeyCode::KEY_4 => KeyCode::KEY_DOLLAR,
            KeyCode::KEY_5 => KeyCode::KEY_PERCENT,
            KeyCode::KEY_6 => KeyCode::KEY_CARRET,
            KeyCode::KEY_7 => KeyCode::KEY_AMPERSAND,
            KeyCode::KEY_8 => KeyCode::KEY_ASTERISK,
            KeyCode::KEY_9 => KeyCode::KEY_LEFTPARENTHESIS,
            KeyCode::KEY_UNDERSCORE => KeyCode::KEY_MINUS,
            KeyCode::KEY_EQUAL => KeyCode::KEY_PLUS,
            KeyCode::KEY_GRAVE => KeyCode::KEY_TILDE,
            KeyCode::KEY_COMMA => KeyCode::KEY_LESS,
            KeyCode::KEY_DOT => KeyCode::KEY_GREATER,
            KeyCode::KEY_SLASH => KeyCode::KEY_QUESTION,
            KeyCode::KEY_LEFTBRACKET => KeyCode::KEY_LEFTCURL,
            KeyCode::KEY_RIGHTBRACKET => KeyCode::KEY_RIGHTCURL,
            KeyCode::KEY_BACKSLASH => KeyCode::KEY_BAR,
            KeyCode::KEY_QUOTE => KeyCode::KEY_QUOTEDOUBLE,
            _ => self,
        }
    }
}

/// The key of a make code of scan code set 1; codes from 89 on have none.
pub open spec fn spec_scancode_std(code: u8) -> KeyCode {
    match code {
        0u8 => KeyCode::KEY_UNKNOWN,
        1u8 => KeyCode::KEY_ESCAPE,
        2u8 => KeyCode::KEY_1,
        3u8 => KeyCode::KEY_2,
        4u8 => KeyCode::KEY_3,
        5u8 => KeyCode::KEY_4,
        6u8 => KeyCode::KEY_5,
        7u8 => KeyCode::KEY_6,
        8u8 => KeyCode::KEY_7,
        9u8 => KeyCode::KEY_8,
        10u8 => KeyCode::KEY_9,
        11u8 => KeyCode::KEY_0,
        12u8 => KeyCode::KEY_MINUS,
        13u8 => KeyCode::KEY_EQUAL,
        14u8 => KeyCode::KEY_BACKSPACE,
        15u8 => KeyCode::KEY_TAB,
        16u8 => KeyCode::KEY_Q,
        17u8 => KeyCode::KEY_W,
        18u8 => KeyCode::KEY_E,
        19u8 => KeyCode::KEY_R,
        20u8 => KeyCode::KEY_T,
        21u8 => KeyCode::KEY_Y,
        22u8 => KeyCode::KEY_U,
        23u8 => KeyCode::KEY_I,
        24u8 => KeyCode::KEY_O,
        25u8 => KeyCode::KEY_P,
        26u8 => KeyCode::KEY_LEFTBRACKET,
        27u8 => KeyCode::KEY_RIGHTBRACKET,
        28u8 => KeyCode::KEY_RETURN,
        29u8 => KeyCode::KEY_LCTRL,
        30u8 => KeyCode::KEY_A,
        31u8 => KeyCode::KEY_S,
        32u8 => KeyCode::KEY_D,
        33u8 => KeyCode::KEY_F,
        34u8 => KeyCode::KEY_G,
        35u8 => KeyCode::KEY_H,
        36u8 => KeyCode::KEY_J,
        37u8 => KeyCode::KEY_K,
        38u8 => KeyCode::KEY_L,
        39u8 => KeyCode::KEY_SEMICOLON,
        40u8 => KeyCode::KEY_QUOTE,
        41u8 => KeyCode::KEY_GRAVE,
        42u8 => KeyCode::KEY_LSHIFT,
        43u8 => KeyCode::KEY_BACKSLASH,
        44u8 => KeyCode::KEY_Z,
        45u8 => KeyCode::KEY_X,
        46u8 => KeyCode::KEY_C,
        47u8 => KeyCode::KEY_V,
        48u8 => KeyCode::KEY_B,
        49u8 => KeyCode::KEY_N,
        50u8 => KeyCode::KEY_M,
        51u8 => KeyCode::KEY_COMMA,
        52u8 => KeyCode::KEY_DOT,
        53u8 => KeyCode::KEY_SLASH,
        54u8 => KeyCode::KEY_RSHIFT,
        55u8 => KeyCode::KEY_KP_ASTERISK,
        56u8 => KeyCode::KEY_LALT,
        57u8 => KeyCode::KEY_SPACE,
        58u8 => KeyCode::KEY_CAPSLOCK,
        59u8 => KeyCode::KEY_F1,
        60u8 => KeyCode::KEY_F2,
        61u8 => KeyCode::KEY_F3,
        62u8 => KeyCode::KEY_F4,
        63u8 => KeyCode::KEY_F5,
        64u8 => KeyCode::KEY_F6,
        65u8 => KeyCode::KEY_F7,
        66u8 => KeyCode::KEY_F8,
        67u8 => KeyCode::KEY_F9,
        68u8 => KeyCode::KEY_F10,
        69u8 => KeyCode::KEY_KP_NUMLOCK,
        70u8 => KeyCode::KEY_SCROLLLOCK,
        71u8 => KeyCode::KEY_HOME,
        72u8 => KeyCode::KEY_KP_8,
        73u8 => KeyCode::KEY_PAGEUP,
        74u8 => KeyCode::KEY_KP_MINUS,
        75u8 => KeyCode::KEY_KP_4,
        76u8 => KeyCode::KEY_KP_5,
        77u8 => KeyCode::KEY_KP_6,
        78u8 => KeyCode::KEY_KP_PLUS,
        79u8 => KeyCode::KEY_KP_1,
        80u8 => KeyCode::KEY_KP_2,
        81u8 => KeyCode::KEY_KP_3,
        82u8 => KeyCode::KEY_KP_0,
        83u8 => KeyCode::KEY_KP_DECIMAL,
        84u8 => KeyCode::KEY_UNKNOWN,
        85u8 => KeyCode::KEY_UNKNOWN,
        86u8 => KeyCode::KEY_UNKNOWN,
        87u8 => KeyCode::KEY_F11,
        88u8 => KeyCode::KEY_F12,
        _ => KeyCode::KEY_UNKNOWN,
    }
}

pub fn scancode_std(code: u8) -> (k: KeyCode)
    ensures
        k == spec_scancode_std(code),
{
    match code {
        0u8 => KeyCode::KEY_UNKNOWN,
        1u8 => KeyCode::KEY_ESCAPE,
        2u8 => KeyCode::KEY_1,
        3u8 => KeyCode::KEY_2,
        4u8 => KeyCode::KEY_3,
        5u8 => KeyCode::KEY_4,
        6u8 => KeyCode::KEY_5,
        7u8 => KeyCode::KEY_6,
        8u8 => KeyCode::KEY_7,
        9u8 => KeyCode::KEY_8,
        10u8 => KeyCode::KEY_9,
        11u8 => KeyCode::KEY_0,
        12u8 => KeyCode::KEY_MINUS,
        13u8 => KeyCode::KEY_EQUAL,
        14u8 => KeyCode::KEY_BACKSPACE,
        15u8 => KeyCode::KEY_TAB,
        16u8 => KeyCode::KEY_Q,
        17u8 => KeyCode::KEY_W,
        18u8 => KeyCode::KEY_E,
        19u8 => KeyCode::KEY_R,
        20u8 => KeyCode::KEY_T,
        21u8 => KeyCode::KEY_Y,
        22u8 => KeyCode::KEY_U,
        23u8 => KeyCode::KEY_I,
        24u8 => KeyCode::KEY_O,
        25u8 => KeyCode::KEY_P,
        26u8 => KeyCode::KEY_LEFTBRACKET,
        27u8 => KeyCode::KEY_RIGHTBRACKET,
        28u8 => KeyCode::KEY_RETURN,
        29u8 => KeyCode::KEY_LCTRL,
        30u8 => KeyCode::KEY_A,
        31u8 => KeyCode::KEY_S,
        32u8 => KeyCode::KEY_D,
        33u8 => KeyCode::KEY_F,
        34u8 => KeyCode::KEY_G,
        35u8 => KeyCode::KEY_H,
        36u8 => KeyCode::KEY_J,
        37u8 => KeyCode::KEY_K,
        38u8 => KeyCode::KEY_L,
        39u8 => KeyCode::KEY_SEMICOLON,
        40u8 => KeyCode::KEY_QUOTE,
        41u8 => KeyCode::KEY_GRAVE,
        42u8 => KeyCode::KEY_LSHIFT,
        43u8 => KeyCode::KEY_BACKSLASH,
        44u8 => KeyCode::KEY_Z,
        45u8 => KeyCode::KEY_X,
        46u8 => KeyCode::KEY_C,
        47u8 => KeyCode::KEY_V,
        48u8 => KeyCode::KEY_B,
        49u8 => KeyCode::KEY_N,
        50u8 => KeyCode::KEY_M,
        51u8 => KeyCode::KEY_COMMA,
        52u8 => KeyCode::KEY_DOT,
        53u8 => KeyCode::KEY_SLASH,
        54u8 => KeyCode::KEY_RSHIFT,
        55u8 => KeyCode::KEY_KP_ASTERISK,
        56u8 => KeyCode::KEY_LALT,
        57u8 => KeyCode::KEY_SPACE,
        58u8 => KeyCode::KEY_CAPSLOCK,
        59u8 => KeyCode::KEY_F1,
        60u8 => KeyCode::KEY_F2,
        61u8 => KeyCode::KEY_F3,
        62u8 => KeyCode::KEY_F4,
        63u8 => KeyCode::KEY_F5,
        64u8 => KeyCode::KEY_F6,
        65u8 => KeyCode::KEY_F7,
        66u8 => KeyCode::KEY_F8,
        67u8 => KeyCode::KEY_F9,
        68u8 => KeyCode::KEY_F10,
        69u8 => KeyCode::KEY_KP_NUMLOCK,
        70u8 => KeyCode::KEY_SCROLLLOCK,
        71u8 => KeyCode::KEY_HOME,
        72u8 => KeyCode::KEY_KP_8,
        73u8 => KeyCode::KEY_PAGEUP,
        74u8 => KeyCode::KEY_KP_MINUS,
        75u8 => KeyCode::KEY_KP_4,
        76u8 => KeyCode::KEY_KP_5,
        77u8 => KeyCode::KEY_KP_6,
        78u8 => KeyCode::KEY_KP_PLUS,
        79u8 => KeyCode::KEY_KP_1,
        80u8 => KeyCode::KEY_KP_2,
        81u8 => KeyCode::KEY_KP_3,
        82u8 => KeyCode::KEY_KP_0,
        83u8 => KeyCode::KEY_KP_DECIMAL,
        84u8 => KeyCode::KEY_UNKNOWN,
        85u8 => KeyCode::KEY_UNKNOWN,
        86u8 => KeyCode::KEY_UNKNOWN,
        87u8 => KeyCode::KEY_F11,
        88u8 => KeyCode::KEY_F12,
        _ => KeyCode::KEY_UNKNOWN,
    }
}

/// The key of a code that follows the prefix `0xE0`, without its release bit.
pub open spec fn spec_extend_keycode(data: u8) -> KeyCode {
    match data & 0x7f {
        28u8 => KeyCode::KEY_KP_ENTER,
        29u8 => KeyCode::KEY_RCTRL,
        53u8 => KeyCode::KEY_KP_DIVIDE,
        56u8 => KeyCode::KEY_RALT,
        71u8 => KeyCode::KEY_HOME,
        79u8 => KeyCode::KEY_END,
        81u8 => KeyCode::KEY_PAGEDOWN,
        82u8 => KeyCode::KEY_INSERT,
        83u8 => KeyCode::KEY_DELETE,
        _ => KeyCode::KEY_UNKNOWN,
    }
}

pub fn get_extend_keycode(data: u8) -> (k: KeyCode)
    ensures
        k == spec_extend_keycode(data),
{
    match data & 0x7f {
        28u8 => KeyCode::KEY_KP_ENTER,
        29u8 => KeyCode::KEY_RCTRL,
        53u8 => KeyCode::KEY_KP_DIVIDE,
        56u8 => KeyCode::KEY_RALT,
        71u8 => KeyCode::KEY_HOME,
        79u8 => KeyCode::KEY_END,
        81u8 => KeyCode::KEY_PAGEDOWN,
        82u8 => KeyCode::KEY_INSERT,
        83u8 => KeyCode::KEY_DELETE,
        _ => KeyCode::KEY_UNKNOWN,
    }
}

pub const KB_SCROLL_LOCK: u16 = 0x0001;
pub const KB_NUM_LOCK: u16 = 0x0002;
pub const KB_CAPS_LOCK: u16 = 0x0004;
pub const KB_PRESS: u16 = 0x0010;
pub const KB_RELEASE: u16 = 0x0020;
pub const KB_SHIFT_DOWN: u16 = 0x0100;
pub const KB_CTRL_DOWN: u16 = 0x0200;
pub const KB_ALT_DOWN: u16 = 0x0400;
pub const KB_META_DOWN: u16 = 0x0800;

/// The port of the keyboard itself.
pub const KB_ENC_CMD_REG: u16 = 0x60;

/// The port of the keyboard controller.
pub const KB_CTRL_CMD_REG: u16 = 0x64;

/// In the controller's status: a byte is there to be read.
pub const STATS_MASK_OUT_BUF: u8 = 0x01;

/// In the controller's status: the controller has not yet taken the last byte.
pub const STATS_MASK_IN_BUF: u8 = 0x02;

/// The prefix of the keys that were added to the first keyboards.
pub const EXTENDED_PREFIX: u8 = 0xE0;

/// How often the status is polled at most.
pub const POLL_RETRIES: u8 = 60;

/// A key that went down or up, with the state of the keyboard.
#[derive(Debug, Clone, Copy, PartialEq, Eq, Structural)]
pub struct KeyPacket {
    pub keycode: KeyCode,
    pub status: u16,
}

#[allow(non_camel_case_types)]
pub enum MouseStatus {
    MOUSE_LEFT_DOWN,
    MOUSE_RIGHT_DOWN,
    MOUSE_MID_DOWN,
}

#[derive(Debug, Clone, Copy, PartialEq, Eq, Structural)]
pub struct MousePacket {
    pub flags: u16,
    pub relx: u16,
    pub rely: i16,
}

/// Commands to the keyboard.
#[allow(non_camel_case_types)]
#[derive(Debug, Clone, Copy, PartialEq, Eq, Structural)]
pub enum KeyboardEncoderCommand {
    SET_LEDS,
    ECHO,
    SCAN_CODE_SET,
    ID,
    AUTODELAY,
    ENABLE,
    RESETWAIT,
    RESETSCAN,
    ALL_AUTO,
    ALL_MAKEBREAK,
    ALL_MAKEONLY,
    ALL_MAKEBREAK_AUTO,
    SINGLE_AUTOREPEAT,
    SINGLE_MAKEBREAK,
    SINGLE_BREAKONLY,
    RESEND,
    RESET,
}

impl KeyboardEncoderCommand {
    pub open spec fn spec_value(self) -> u8 {
        match self {
            KeyboardEncoderCommand::SET_LEDS => 0xED,
            KeyboardEncoderCommand::ECHO => 0xEE,
            KeyboardEncoderCommand::SCAN_CODE_SET => 0xF0,
            KeyboardEncoderCommand::ID => 0xF2,
            KeyboardEncoderCommand::AUTODELAY => 0xF3,
            KeyboardEncoderCommand::ENABLE => 0xF4,
            KeyboardEncoderCommand::RESETWAIT => 0xF5,
            KeyboardEncoderCommand::RESETSCAN => 0xF6,
            KeyboardEncoderCommand::ALL_AUTO => 0xF7,
            KeyboardEncoderCommand::ALL_MAKEBREAK => 0xF8,
            KeyboardEncoderCommand::ALL_MAKEONLY => 0xF9,
            KeyboardEncoderCommand::ALL_MAKEBREAK_AUTO => 0xFA,
            KeyboardEncoderCommand::SINGLE_AUTOREPEAT => 0xFB,
            KeyboardEncoderCommand::SINGLE_MAKEBREAK => 0xFC,
            KeyboardEncoderCommand::SINGLE_BREAKONLY => 0xFD,
            KeyboardEncoderCommand::RESEND => 0xFE,
            KeyboardEncoderCommand::RESET => 0xFF,
        }
    }

    pub fn value(self) -> (v: u8)
        ensures
            v == self.spec_value(),
    {
        match self {
            KeyboardEncoderCommand::SET_LEDS => 0xED,
            KeyboardEncoderCommand::ECHO => 0xEE,
            KeyboardEncoderCommand::SCAN_CODE_SET => 0xF0,
            KeyboardEncoderCommand::ID => 0xF2,
            KeyboardEncoderCommand::AUTODELAY => 0xF3,
            KeyboardEncoderCommand::ENABLE => 0xF4,
            KeyboardEncoderCommand::RESETWAIT => 0xF5,
            KeyboardEncoderCommand::RESETSCAN => 0xF6,
            KeyboardEncoderCommand::ALL_AUTO => 0xF7,
            KeyboardEncoderCommand::ALL_MAKEBREAK => 0xF8,
            KeyboardEncoderCommand::ALL_MAKEONLY => 0xF9,
            KeyboardEncoderCommand::ALL_MAKEBREAK_AUTO => 0xFA,
            KeyboardEncoderCommand::SINGLE_AUTOREPEAT => 0xFB,
            KeyboardEncoderCommand::SINGLE_MAKEBREAK => 0xFC,
            KeyboardEncoderCommand::SINGLE_BREAKONLY => 0xFD,
            KeyboardEncoderCommand::RESEND => 0xFE,
            KeyboardEncoderCommand::RESET => 0xFF,
        }
    }
}

/// Commands to the keyboard controller.
#[allow(non_camel_case_types)]
#[derive(Debug, Clone, Copy, PartialEq, Eq, Structural)]
pub enum KeyboardCtrlCommand {
    READ,
    WRITE,
    SELF_TEST,
    INTERFACE_TEST,
    DISABLE,
    ENABLE,
    READ_IN_PORT,
    READ_OUT_PORT,
    WRITE_OUT_PORT,
    READ_TEST_INPUTS,
    SYSTEM_RESET,
    MOUSE_DISABLE,
    MOUSE_ENABLE,
    MOUSE_PORT_TEST,
    MOUSE_WRITE,
}

impl KeyboardCtrlCommand {
    pub open spec fn spec_value(self) -> u8 {
        match self {
            KeyboardCtrlCommand::READ => 0x20,
            KeyboardCtrlCommand::WRITE => 0x60,
            KeyboardCtrlCommand::SELF_TEST => 0xAA,
            KeyboardCtrlCommand::INTERFACE_TEST => 0xAB,
            KeyboardCtrlCommand::DISABLE => 0xAD,
            KeyboardCtrlCommand::ENABLE => 0xAE,
            KeyboardCtrlCommand::READ_IN_PORT => 0xC0,
            KeyboardCtrlCommand::READ_OUT_PORT => 0xD0,
            KeyboardCtrlCommand::WRITE_OUT_PORT => 0xD1,
            KeyboardCtrlCommand::READ_TEST_INPUTS => 0xE0,
            KeyboardCtrlCommand::SYSTEM_RESET => 0xFE,
            KeyboardCtrlCommand::MOUSE_DISABLE => 0xA7,
            KeyboardCtrlCommand::MOUSE_ENABLE => 0xA8,
            KeyboardCtrlCommand::MOUSE_PORT_TEST => 0xA9,
            KeyboardCtrlCommand::MOUSE_WRITE => 0xD4,
        }
    }

    pub fn value(self) -> (v: u8)
        ensures
            v == self.spec_value(),
    {
        match self {
            KeyboardCtrlCommand::READ => 0x20,
            KeyboardCtrlCommand::WRITE => 0x60,
            KeyboardCtrlCommand::SELF_TEST => 0xAA,
            KeyboardCtrlCommand::INTERFACE_TEST => 0xAB,
            KeyboardCtrlCommand::DISABLE => 0xAD,
            KeyboardCtrlCommand::ENABLE => 0xAE,
            KeyboardCtrlCommand::READ_IN_PORT => 0xC0,
            KeyboardCtrlCommand::READ_OUT_PORT => 0xD0,
            KeyboardCtrlCommand::WRITE_OUT_PORT => 0xD1,
            KeyboardCtrlCommand::READ_TEST_INPUTS => 0xE0,
            KeyboardCtrlCommand::SYSTEM_RESET => 0xFE,
            KeyboardCtrlCommand::MOUSE_DISABLE => 0xA7,
            KeyboardCtrlCommand::MOUSE_ENABLE => 0xA8,
            KeyboardCtrlCommand::MOUSE_PORT_TEST => 0xA9,
            KeyboardCtrlCommand::MOUSE_WRITE => 0xD4,
        }
    }
}

/// What is to be done after one look at the controller's status while
/// waiting for it to take a byte.
#[derive(Debug, Clone, Copy, PartialEq, Eq, Structural)]
pub enum PollStep {
    /// The controller is ready, or the waiting is given up: the result.
    Done(bool),
    /// Read the byte that is waiting, throw it away, and look again.
    Drain,
    /// Look again.
    Again,
}

/// What the keyboard reports of one byte from the controller.
#[derive(Debug, Clone, Copy, PartialEq, Eq, Structural)]
pub struct KeyEvent {
    /// The key that went down or up; none for a prefix byte.
    pub packet: Option<KeyPacket>,
    /// The character to print; none unless a printable key went down.
    pub print: Option<u8>,
}

/// The keyboard behind the legacy controller.
#[derive(Debug)]
pub struct Keyboard {
    pub encoder: Port<u8>,
    pub ctrl: Port<u8>,
    /// The lock and modifier flags; none while no lock is on.
    pub status: Option<u16>,
    /// Whether the last byte was the prefix of an extended key.
    pub extended: bool,
}

/// The flags with one of them set or cleared; where there are none,
/// there are none afterwards.
pub open spec fn spec_set_flag(status: Option<u16>, flag: u16, val: bool) -> Option<u16> {
    match status {
        Some(st) => Some(
            if val {
                st | flag
            } else {
                st & !flag
            },
        ),
        None => None,
    }
}

/// The flags after a key went down (`val`) or up.
pub open spec fn spec_modifiers(status: Option<u16>, key: KeyCode, val: bool) -> Option<u16> {
    match key {
        KeyCode::KEY_LSHIFT | KeyCode::KEY_RSHIFT => spec_set_flag(status, KB_SHIFT_DOWN, val),
        KeyCode::KEY_LCTRL | KeyCode::KEY_RCTRL => spec_set_flag(status, KB_CTRL_DOWN, val),
        KeyCode::KEY_LALT | KeyCode::KEY_RALT => spec_set_flag(status, KB_ALT_DOWN, val),
        _ => status,
    }
}

/// Whether a flag is among the flags.
pub open spec fn spec_has_flag(status: Option<u16>, flag: u16) -> bool {
    match status {
        Some(st) => st & flag == flag,
        None => false,
    }
}

/// The key of a byte, by the table of extended keys after a prefix and by
/// the table of make codes else.
pub open spec fn spec_key_of(data: u8, extended: bool) -> KeyCode {
    if extended {
        spec_extend_keycode(data)
    } else {
        spec_scancode_std(data & 0x7f)
    }
}

/// What a byte from the controller makes of the keyboard, and the event it
/// is reported as. The prefix `0xE0` is remembered for the next byte. A
/// byte with its high bit set is a key that went up, any other a key that
/// went down; shift, control and alt are noted in the flags. While shift is
/// held a key stands for its shifted key. The event carries the key and the
/// flags, and the key's character where a printable key went down.
pub open spec fn spec_handle(status: Option<u16>, extended: bool, data: u8) -> (
    Option<u16>,
    bool,
    KeyEvent,
) {
    if data == EXTENDED_PREFIX {
        (status, true, KeyEvent { packet: None, print: None })
    } else {
        let released = data & 0x80 != 0;
        let key = spec_key_of(data, extended);
        let status2 = spec_modifiers(status, key, !released);
        let key2 = if spec_has_flag(status2, KB_SHIFT_DOWN) {
            key.spec_shifted()
        } else {
            key
        };
        let flags = (if released {
            KB_RELEASE
        } else {
            KB_PRESS
        }) | (match status2 {
            Some(st) => st,
            None => 0,
        });
        (
            status2,
            false,
            KeyEvent {
                packet: Some(KeyPacket { keycode: key2, status: flags }),
                print: if flags & KB_PRESS == KB_PRESS && flags & !0x0f37u16 == 0
                    && key2.spec_printable() {
                    Some((key2.spec_code() % 256) as u8)
                } else {
                    None
                },
            },
        )
    }
}

impl Keyboard {
    pub open spec fn wf(self) -> bool {
        self.encoder.port == KB_ENC_CMD_REG && self.ctrl.port == KB_CTRL_CMD_REG
    }

    pub fn new() -> (k: Keyboard)
        ensures
            k.wf(),
            k.status.is_none(),
            !k.extended,
    {
        Keyboard {
            encoder: Port::new(KB_ENC_CMD_REG),
            ctrl: Port::new(KB_CTRL_CMD_REG),
            status: None,
            extended: false,
        }
    }

    /// What a reply of the keyboard means: 0 for an acknowledgement, 1 for
    /// a request to send again, 2 for anything else.
    pub fn check_reply(&self, d: u8) -> (r: i8)
        ensures
            r == if d == 0xFA {
                0int
            } else if d == 0xFE {
                1int
            } else {
                2int
            },
    {
        match d {
            0xFA => 0,
            0xFE => 1,
            _ => 2,
        }
    }

    /// Whether, by its status, the controller has not yet taken the last byte.
    pub fn can_write(&self, status: u8) -> (r: bool)
        ensures
            r == (status & STATS_MASK_IN_BUF == STATS_MASK_IN_BUF),
    {
        status & STATS_MASK_IN_BUF == STATS_MASK_IN_BUF
    }

    /// Whether, by its status, the controller has a byte to be read.
    pub fn can_read(&self, status: u8) -> (r: bool)
        ensures
            r == (status & STATS_MASK_OUT_BUF == STATS_MASK_OUT_BUF),
    {
        status & STATS_MASK_OUT_BUF == STATS_MASK_OUT_BUF
    }

    /// One step of waiting for the controller to take a byte: `status` is
    /// its status as just read, `retries` the number of looks before this.
    /// The controller is ready once neither of its buffers is full; after
    /// `POLL_RETRIES` looks the waiting is given up.
    pub fn poll_aux_status(&self, status: u8, retries: u8) -> (step: PollStep)
        ensures
            step == if status & 0x03 != 0 && retries < POLL_RETRIES {
                if status & STATS_MASK_OUT_BUF == STATS_MASK_OUT_BUF {
                    PollStep::Drain
                } else {
                    PollStep::Again
                }
            } else {
                PollStep::Done(retries != POLL_RETRIES)
            },
    {
        if status & 0x03 != 0 && retries < POLL_RETRIES {
            if self.can_read(status) {
                PollStep::Drain
            } else {
                PollStep::Again
            }
        } else {
            PollStep::Done(retries != POLL_RETRIES)
        }
    }

    /// The write of a command to the keyboard.
    pub fn kbe_send(&self, cmd: u8) -> (w: PortWrite)
        ensures
            w == byte_write(self.encoder.port, cmd),
    {
        self.encoder.write(cmd)
    }

    /// The write of a command to the controller.
    pub fn kbc_send(&self, cmd: u8) -> (w: PortWrite)
        ensures
            w == byte_write(self.ctrl.port, cmd),
    {
        self.ctrl.write(cmd)
    }

    /// Notes which locks are on, in addition to those that are, and
    /// returns the two writes that light the keyboard's lamps.
    pub fn set_leds(&mut self, scroll: bool, num: bool, caps: bool) -> (w: Vec<PortWrite>)
        requires
            old(self).wf(),
        ensures
            final(self).wf(),
            final(self).extended == old(self).extended,
            ({
                let before = match old(self).status {
                    Some(st) => st,
                    None => 0,
                };
                let s1 = if scroll {
                    before | KB_SCROLL_LOCK
                } else {
                    before
                };
                let s2 = if num {
                    s1 | KB_NUM_LOCK
                } else {
                    s1
                };
                let s3 = if caps {
                    s2 | KB_CAPS_LOCK
                } else {
                    s2
                };
                &&& final(self).status == if s3 == 0 {
                    None::<u16>
                } else {
                    Some(s3)
                }
                &&& w@ == seq![byte_write(0x60, 0xED), byte_write(0x60, (s3 % 256) as u8)]
            }),
    {
        let mut status: u16 = match self.status {
            Some(st) => st,
            None => 0,
        };
        if scroll {
            status = status | KB_SCROLL_LOCK;
        }
        if num {
            status = status | KB_NUM_LOCK;
        }
        if caps {
            status = status | KB_CAPS_LOCK;
        }
        if status == 0 {
            self.status = None;
        } else {
            self.status = Some(status);
        }
        let mut w: Vec<PortWrite> = Vec::new();
        w.push(self.kbe_send(KeyboardEncoderCommand::SET_LEDS.value()));
        w.push(self.kbe_send((status % 256) as u8));
        assert(w@ =~= seq![byte_write(0x60, 0xED), byte_write(0x60, (status % 256) as u8)]);
        w
    }

    /// The writes that set the keyboard up: scanning on, the controller's
    /// command byte, and the lamps off. Before each write the controller
    /// must be ready to take it.
    pub fn init(&mut self) -> (w: Vec<PortWrite>)
        requires
            old(self).wf(),
        ensures
            final(self).wf(),
            final(self).extended == old(self).extended,
            final(self).status == match old(self).status {
                Some(st) => if st == 0 {
                    None::<u16>
                } else {
                    Some(st)
                },
                None => None::<u16>,
            },
            w@ == seq![
                byte_write(0x60, 0xF4),
                byte_write(0x64, 0x60),
                byte_write(0x60, 0x47),
                byte_write(0x60, 0xED),
                byte_write(
                    0x60,
                    ((match old(self).status {
                        Some(st) => st,
                        None => 0,
                    }) % 256) as u8,
                ),
            ],
    {
        let mut w: Vec<PortWrite> = Vec::new();
        w.push(self.kbe_send(KeyboardEncoderCommand::ENABLE.value()));
        w.push(self.kbc_send(KeyboardCtrlCommand::WRITE.value()));
        w.push(self.kbe_send(0x47));
        let mut leds = self.set_leds(false, false, false);
        w.append(&mut leds);
        assert(w@ =~= seq![
            byte_write(0x60, 0xF4),
            byte_write(0x64, 0x60),
            byte_write(0x60, 0x47),
            byte_write(0x60, 0xED),
            byte_write(
                0x60,
                ((match old(self).status {
                    Some(st) => st,
                    None => 0,
                }) % 256) as u8,
            ),
        ]);
        w
    }

    fn set_flag(&mut self, flag: u16, val: bool)
        ensures
            final(self).status == spec_set_flag(old(self).status, flag, val),
            final(self).encoder == old(self).encoder,
            final(self).ctrl == old(self).ctrl,
            final(self).extended == old(self).extended,
    {
        match self.status {
            Some(st) => {
                if val {
                    self.status = Some(st | flag);
                } else {
                    self.status = Some(st & !flag);
                }
            },
            None => {},
        }
    }

    pub fn set_shift_down(&mut self, val: bool)
        ensures
            final(self).status == spec_set_flag(old(self).status, KB_SHIFT_DOWN, val),
            final(self).encoder == old(self).encoder,
            final(self).ctrl == old(self).ctrl,
            final(self).extended == old(self).extended,
    {
        self.set_flag(KB_SHIFT_DOWN, val);
    }

    pub fn set_ctrl_down(&mut self, val: bool)
        ensures
            final(self).status == spec_set_flag(old(self).status, KB_CTRL_DOWN, val),
            final(self).encoder == old(self).encoder,
            final(self).ctrl == old(self).ctrl,
            final(self).extended == old(self).extended,
    {
        self.set_flag(KB_CTRL_DOWN, val);
    }

    pub fn set_alt_down(&mut self, val: bool)
        ensures
            final(self).status == spec_set_flag(old(self).status, KB_ALT_DOWN, val),
            final(self).encoder == old(self).encoder,
            final(self).ctrl == old(self).ctrl,
            final(self).extended == old(self).extended,
    {
        self.set_flag(KB_ALT_DOWN, val);
    }

    pub fn alt_down(&self) -> (r: bool)
        ensures
            r == spec_has_flag(self.status, KB_ALT_DOWN),
    {
        match self.status {
            Some(st) => st & KB_ALT_DOWN == KB_ALT_DOWN,
            None => false,
        }
    }

    pub fn ctrl_down(&self) -> (r: bool)
        ensures
            r == spec_has_flag(self.status, KB_CTRL_DOWN),
    {
        match self.status {
            Some(st) => st & KB_CTRL_DOWN == KB_CTRL_DOWN,
            None => false,
        }
    }

    pub fn shift_down(&self) -> (r: bool)
        ensures
            r == spec_has_flag(self.status, KB_SHIFT_DOWN),
    {
        match self.status {
            Some(st) => st & KB_SHIFT_DOWN == KB_SHIFT_DOWN,
            None => false,
        }
    }

    /// Takes a byte that was read from the keyboard after its interrupt.
    pub fn keyboard_irq(&mut self, data: u8) -> (event: KeyEvent)
        ensures
            final(self).encoder == old(self).encoder,
            final(self).ctrl == old(self).ctrl,
            (final(self).status, final(self).extended, event) == spec_handle(
                old(self).status,
                old(self).extended,
                data,
            ),
    {
        if data == EXTENDED_PREFIX {
            self.extended = true;
            return KeyEvent { packet: None, print: None };
        }
        let extended = self.extended;
        let released = data & 0x80 != 0;
        let mut keycode = if extended {
            get_extend_keycode(data)
        } else {
            scancode_std(data & 0x7f)
        };
        match keycode {
            KeyCode::KEY_LSHIFT | KeyCode::KEY_RSHIFT => self.set_shift_down(!released),
            KeyCode::KEY_LCTRL | KeyCode::KEY_RCTRL => self.set_ctrl_down(!released),
            KeyCode::KEY_LALT | KeyCode::KEY_RALT => self.set_alt_down(!released),
            _ => {},
        }
        if self.shift_down() {
            keycode = keycode.shifted();
        }
        let mut status: u16 = if released {
            KB_RELEASE
        } else {
            KB_PRESS
        };
        status = status | (match self.status {
            Some(st) => st,
            None => 0,
        });
        let print = if status & KB_PRESS == KB_PRESS && status & !0x0f37u16 == 0 && keycode.printable() {
            Some((keycode.code() % 256) as u8)
        } else {
            None
        };
        tty_enqueue();
        self.extended = false;
        KeyEvent { packet: Some(KeyPacket { keycode, status }), print }
    }
}

/// Hands a key on to the terminal line; there is none yet.
pub fn tty_enqueue() {
}

} // verus!
