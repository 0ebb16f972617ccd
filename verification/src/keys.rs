//! The terminal byte sequences of keys, for consoles that report key events
//! rather than the raw byte stream: what a session forwards for each key.

use vstd::prelude::*;
use crate::app::{KeyCode, KeyInput};
use crate::text::string_from_chars;

verus! {

/// `c.to_ascii_uppercase()` as a code point.
pub open spec fn ascii_upper(c: char) -> u32 {
    if 'a' <= c && c <= 'z' {
        (c as u32 - 32) as u32
    } else {
        c as u32
    }
}

/// The byte sent for Ctrl+`c`: `@`, the letters and `[ \ ] ^ _` give 0x00 to
/// 0x1f, space gives 0x00 and `?` gives 0x7f; any other character gives its
/// low five bits (of its low byte, as the cast to `u8` keeps).
pub open spec fn spec_control_byte(c: char) -> u8 {
    let u = ascii_upper(c) % 256;
    if 0x40 <= u <= 0x5f {
        (u % 32) as u8
    } else if u == 0x20 {
        0
    } else if u == 0x3f {
        0x7f
    } else {
        ((c as u32) % 32) as u8
    }
}

/// The byte sent for Ctrl+`c` (see [`spec_control_byte`]).
pub fn control_byte(c: char) -> (r: u8)
    ensures
        r == spec_control_byte(c),
{
    let cu = c as u32;
    let up: u32 = if 'a' <= c && c <= 'z' {
        cu - 32
    } else {
        cu
    };
    let u = up % 256;
    if 0x40 <= u && u <= 0x5f {
        (u % 32) as u8
    } else if u == 0x20 {
        0
    } else if u == 0x3f {
        0x7f
    } else {
        (cu % 32) as u8
    }
}

/// The xterm sequence of function key F`n` (empty beyond F12).
pub open spec fn spec_f_key(n: u8) -> Seq<u8> {
    if n == 1 {
        seq![0x1bu8, 0x4f, 0x50]
    } else if n == 2 {
        seq![0x1bu8, 0x4f, 0x51]
    } else if n == 3 {
        seq![0x1bu8, 0x4f, 0x52]
    } else if n == 4 {
        seq![0x1bu8, 0x4f, 0x53]
    } else if n == 5 {
        seq![0x1bu8, 0x5b, 0x31, 0x35, 0x7e]
    } else if n == 6 {
        seq![0x1bu8, 0x5b, 0x31, 0x37, 0x7e]
    } else if n == 7 {
        seq![0x1bu8, 0x5b, 0x31, 0x38, 0x7e]
    } else if n == 8 {
        seq![0x1bu8, 0x5b, 0x31, 0x39, 0x7e]
    } else if n == 9 {
        seq![0x1bu8, 0x5b, 0x32, 0x30, 0x7e]
    } else if n == 10 {
        seq![0x1bu8, 0x5b, 0x32, 0x31, 0x7e]
    } else if n == 11 {
        seq![0x1bu8, 0x5b, 0x32, 0x33, 0x7e]
    } else if n == 12 {
        seq![0x1bu8, 0x5b, 0x32, 0x34, 0x7e]
    } else {
        Seq::empty()
    }
}

/// The xterm sequence of function key F`n` (see [`spec_f_key`]).
pub fn f_key(n: u8) -> (r: Vec<u8>)
    ensures
        r@ == spec_f_key(n),
{
    let v: Vec<u8> = if n == 1 {
        vec![0x1bu8, 0x4f, 0x50]
    } else if n == 2 {
        vec![0x1bu8, 0x4f, 0x51]
    } else if n == 3 {
        vec![0x1bu8, 0x4f, 0x52]
    } else if n == 4 {
        vec![0x1bu8, 0x4f, 0x53]
    } else if n == 5 {
        vec![0x1bu8, 0x5b, 0x31, 0x35, 0x7e]
    } else if n == 6 {
        vec![0x1bu8, 0x5b, 0x31, 0x37, 0x7e]
    } else if n == 7 {
        vec![0x1bu8, 0x5b, 0x31, 0x38, 0x7e]
    } else if n == 8 {
        vec![0x1bu8, 0x5b, 0x31, 0x39, 0x7e]
    } else if n == 9 {
        vec![0x1bu8, 0x5b, 0x32, 0x30, 0x7e]
    } else if n == 10 {
        vec![0x1bu8, 0x5b, 0x32, 0x31, 0x7e]
    } else if n == 11 {
        vec![0x1bu8, 0x5b, 0x32, 0x33, 0x7e]
    } else if n == 12 {
        vec![0x1bu8, 0x5b, 0x32, 0x34, 0x7e]
    } else {
        Vec::new()
    };
    assert(v@ =~= spec_f_key(n));
    v
}

/// The bytes a session sends for `key`: a character as UTF-8 (its control byte
/// with Ctrl, prefixed by ESC with Alt), the usual xterm sequences for the
/// editing and cursor keys, nothing for the other keys.
pub open spec fn spec_encode_key(key: KeyInput) -> Seq<u8> {
    match key.code {
        KeyCode::Char(c) => (if key.mods.alt {
            seq![0x1bu8]
        } else {
            Seq::empty()
        }) + (if key.mods.control {
            seq![spec_control_byte(c)]
        } else {
            vstd::utf8::encode_utf8(seq![c])
        }),
        KeyCode::Enter => seq![0x0du8],
        KeyCode::Tab => seq![0x09u8],
        KeyCode::BackTab => seq![0x1bu8, 0x5b, 0x5a],
        KeyCode::Backspace => seq![0x7fu8],
        KeyCode::Esc => seq![0x1bu8],
        KeyCode::Left => seq![0x1bu8, 0x5b, 0x44],
        KeyCode::Right => seq![0x1bu8, 0x5b, 0x43],
        KeyCode::Up => seq![0x1bu8, 0x5b, 0x41],
        KeyCode::Down => seq![0x1bu8, 0x5b, 0x42],
        KeyCode::Home => seq![0x1bu8, 0x5b, 0x48],
        KeyCode::End => seq![0x1bu8, 0x5b, 0x46],
        KeyCode::PageUp => seq![0x1bu8, 0x5b, 0x35, 0x7e],
        KeyCode::PageDown => seq![0x1bu8, 0x5b, 0x36, 0x7e],
        KeyCode::Delete => seq![0x1bu8, 0x5b, 0x33, 0x7e],
        KeyCode::Insert => seq![0x1bu8, 0x5b, 0x32, 0x7e],
        KeyCode::F(n) => spec_f_key(n),
        KeyCode::Other => Seq::empty(),
    }
}

/// The bytes a session sends for `key` (see [`spec_encode_key`]).
pub fn encode_key(key: KeyInput) -> (r: Vec<u8>)
    ensures
        r@ == spec_encode_key(key),
{
    let v: Vec<u8> = match key.code {
        KeyCode::Char(c) => {
            let mut out: Vec<u8> = Vec::new();
            if key.mods.alt {
                out.push(0x1b);
            }
            let ghost pre = out@;
            if key.mods.control {
                out.push(control_byte(c));
            } else {
                let one = string_from_chars(&[c]);
                let bytes = one.as_str().as_bytes_vec();
                let mut i: usize = 0;
                while i < bytes.len()
                    invariant
                        0 <= i <= bytes@.len(),
                        out@ == pre + bytes@.take(i as int),
                    decreases bytes@.len() - i,
                {
                    out.push(bytes[i]);
                    i = i + 1;
                    assert(out@ =~= pre + bytes@.take(i as int));
                }
                assert(bytes@.take(bytes@.len() as int) =~= bytes@);
                assert(one@ =~= seq![c]);
            }
            out
        },
        KeyCode::Enter => vec![0x0du8],
        KeyCode::Tab => vec![0x09u8],
        KeyCode::BackTab => vec![0x1bu8, 0x5b, 0x5a],
        KeyCode::Backspace => vec![0x7fu8],
        KeyCode::Esc => vec![0x1bu8],
        KeyCode::Left => vec![0x1bu8, 0x5b, 0x44],
        KeyCode::Right => vec![0x1bu8, 0x5b, 0x43],
        KeyCode::Up => vec![0x1bu8, 0x5b, 0x41],
        KeyCode::Down => vec![0x1bu8, 0x5b, 0x42],
        KeyCode::Home => vec![0x1bu8, 0x5b, 0x48],
        KeyCode::End => vec![0x1bu8, 0x5b, 0x46],
        KeyCode::PageUp => vec![0x1bu8, 0x5b, 0x35, 0x7e],
        KeyCode::PageDown => vec![0x1bu8, 0x5b, 0x36, 0x7e],
        KeyCode::Delete => vec![0x1bu8, 0x5b, 0x33, 0x7e],
        KeyCode::Insert => vec![0x1bu8, 0x5b, 0x32, 0x7e],
        KeyCode::F(n) => f_key(n),
        KeyCode::Other => Vec::new(),
    };
    assert(v@ =~= spec_encode_key(key));
    v
}

/// A console input event.
#[derive(Debug)]
pub enum TermEvent {
    /// A key press, repeat or (`release`) release.
    Key { key: KeyInput, release: bool },
    /// Pasted text.
    Paste(String),
    /// Anything else (focus, mouse, resize).
    Other,
}

/// The bytes a session sends for `ev`: a pressed or repeated key's sequence,
/// the pasted text as UTF-8, nothing for a key release or any other event.
pub fn encode_event(ev: &TermEvent) -> (r: Vec<u8>)
    ensures
        r@ == match ev {
            TermEvent::Key { key, release } => if *release {
                Seq::empty()
            } else {
                spec_encode_key(*key)
            },
            TermEvent::Paste(s) => vstd::utf8::encode_utf8(s@),
            TermEvent::Other => Seq::<u8>::empty(),
        },
{
    match ev {
        TermEvent::Key { key, release } => {
            if *release {
                Vec::new()
            } else {
                encode_key(*key)
            }
        },
        TermEvent::Paste(s) => s.as_str().as_bytes_vec(),
        TermEvent::Other => Vec::new(),
    }
}

} // verus!
