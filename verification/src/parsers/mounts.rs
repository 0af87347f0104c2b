//! Mount table entries, and the escapes in their paths.
//!
//! The kernel writes a byte that would break the table's layout (a space,
//! a tab, a line feed, a backslash) as a backslash and three octal digits.

use vstd::prelude::*;
use crate::parsers::push_char;

verus! {

/// The value of an octal digit.
pub open spec fn spec_octal_digit(c: char) -> Option<int> {
    if '0' <= c <= '7' {
        Some(c as int - 48)
    } else {
        None
    }
}

/// The value of an octal digit, if the character is one.
pub fn octal_digit(c: char) -> (digit: Option<u32>)
    ensures
        match digit {
            Some(d) => spec_octal_digit(c) == Some(d as int),
            None => spec_octal_digit(c) is None,
        },
{
    if '0' <= c && c <= '7' {
        Some(c as u32 - 48)
    } else {
        None
    }
}

/// The byte that the three characters behind a backslash stand for, if
/// they are octal digits and spell no more than 255.
pub open spec fn spec_escaped(a: char, b: char, c: char) -> Option<u8> {
    match (spec_octal_digit(a), spec_octal_digit(b), spec_octal_digit(c)) {
        (Some(x), Some(y), Some(z)) => if x * 64 + y * 8 + z <= 255 {
            Some((x * 64 + y * 8 + z) as u8)
        } else {
            None
        },
        _ => None,
    }
}

/// The path that the escaped text stands for: every backslash is followed
/// by three octal digits and stands with them for one byte, every other
/// character stands for itself. There is no path where a backslash is
/// followed by anything else.
pub open spec fn spec_decode_path(s: Seq<char>) -> Option<Seq<char>>
    decreases s.len(),
{
    if s.len() == 0 {
        Some(Seq::empty())
    } else if s[0] == '\\' {
        if s.len() < 4 {
            None
        } else {
            match spec_escaped(s[1], s[2], s[3]) {
                Some(byte) => match spec_decode_path(s.skip(4)) {
                    Some(rest) => Some(seq![byte as char] + rest),
                    None => None,
                },
                None => None,
            }
        }
    } else {
        match spec_decode_path(s.drop_first()) {
            Some(rest) => Some(seq![s[0]] + rest),
            None => None,
        }
    }
}

/// The byte that three octal digits spell, if they do and it is one.
fn escaped(a: char, b: char, c: char) -> (byte: Option<u8>)
    ensures
        byte == spec_escaped(a, b, c),
{
    let x = match octal_digit(a) {
        Some(x) => x,
        None => {
            return None;
        },
    };
    let y = match octal_digit(b) {
        Some(y) => y,
        None => {
            return None;
        },
    };
    let z = match octal_digit(c) {
        Some(z) => z,
        None => {
            return None;
        },
    };
    let code: u32 = x * 64 + y * 8 + z;
    if code > 255 {
        return None;
    }
    Some(code as u8)
}

/// What is decoded of `s` once `done` stands for everything before
/// position `at`.
spec fn decoded_from(s: Seq<char>, at: int, done: Seq<char>) -> Option<Seq<char>> {
    match spec_decode_path(s.skip(at)) {
        Some(rest) => Some(done + rest),
        None => None,
    }
}

/// Decodes the escapes of a path.
pub fn decode_path(input: &str) -> (r: Result<String, ()>)
    ensures
        match r {
            Ok(path) => spec_decode_path(input@) == Some(path@),
            Err(_) => spec_decode_path(input@) is None,
        },
{
    let len = input.unicode_len();
    let mut out = String::new();
    let mut i: usize = 0;
    proof {
        assert(input@.skip(0) =~= input@);
        assert(Seq::<char>::empty() + spec_decode_path(input@)->0 =~= spec_decode_path(input@)->0);
    }
    while i < len
        invariant
            len == input@.len(),
            i <= len,
            spec_decode_path(input@) == decoded_from(input@, i as int, out@),
        decreases len - i,
    {
        let ghost rest = input@.skip(i as int);
        let c = input.get_char(i);
        assert(rest[0] == c);
        if c == '\\' {
            if len - i < 4 {
                return Err(());
            }
            let a = input.get_char(i + 1);
            let b = input.get_char(i + 2);
            let d = input.get_char(i + 3);
            proof {
                assert(rest[1] == a && rest[2] == b && rest[3] == d);
                assert(rest.skip(4) =~= input@.skip(i + 4));
            }
            match escaped(a, b, d) {
                Some(byte) => {
                    let ghost before = out@;
                    push_char(&mut out, byte as char);
                    proof {
                        if spec_decode_path(input@.skip(i + 4)) is Some {
                            let tail = spec_decode_path(input@.skip(i + 4))->0;
                            assert(before + (seq![byte as char] + tail) =~= out@ + tail);
                        }
                    }
                    i = i + 4;
                },
                None => {
                    return Err(());
                },
            }
        } else {
            let ghost before = out@;
            push_char(&mut out, c);
            proof {
                assert(rest.drop_first() =~= input@.skip(i + 1));
                if spec_decode_path(input@.skip(i + 1)) is Some {
                    let tail = spec_decode_path(input@.skip(i + 1))->0;
                    assert(before + (seq![c] + tail) =~= out@ + tail);
                }
            }
            i = i + 1;
        }
    }
    proof {
        assert(input@.skip(len as int) =~= Seq::<char>::empty());
        assert(out@ + Seq::<char>::empty() =~= out@);
    }
    Ok(out)
}

/// One mounted file system.
#[derive(Debug, Default, PartialEq)]
pub struct Mount {
    /// Device
    pub device: String,
    /// Mountpoint
    pub mountpoint: String,
}

} // verus!
