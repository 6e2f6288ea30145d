//! The output side: turning the confirmed record into the text the caller
//! prints or copies — the symbol with a replacement glyph for invalid
//! scalars, decimal and hexadecimal codepoint text, and the combined line.

use vstd::prelude::*;
use vstd::string::StringExecFns;
use crate::data::UnicodeData;
use crate::is_scalar_value;
use crate::text::push_char;

verus! {

broadcast use vstd::string::group_string_axioms;

/// Relies on char::from_u32: `Some` exactly for Unicode scalar values, and
/// the returned character has that value.
#[verifier::external_body]
fn char_from_u32(u: u32) -> (r: Option<char>)
    ensures
        r is Some <==> is_scalar_value(u),
        r matches Some(c) ==> c as u32 == u,
{
    char::from_u32(u)
}

/// The character a stored codepoint denotes, or the replacement glyph when
/// the codepoint is not a valid scalar value.
pub fn symbol_of(codepoint: u32) -> (c: char)
    ensures
        is_scalar_value(codepoint) ==> c as u32 == codepoint,
        !is_scalar_value(codepoint) ==> c == '\u{FFFD}',
{
    match char_from_u32(codepoint) {
        Some(c) => c,
        None => '\u{FFFD}',
    }
}

/// The one-character string of a symbol, as handed to the clipboard.
pub fn symbol_string(c: char) -> (r: String)
    ensures
        r@ == seq![c],
{
    let mut s = String::new();
    push_char(&mut s, c);
    proof {
        assert(s@ =~= seq![c]);
    }
    s
}

/// The digit character for a value below sixteen.
pub open spec fn digit_char(d: nat) -> char {
    if d == 0 {
        '0'
    } else if d == 1 {
        '1'
    } else if d == 2 {
        '2'
    } else if d == 3 {
        '3'
    } else if d == 4 {
        '4'
    } else if d == 5 {
        '5'
    } else if d == 6 {
        '6'
    } else if d == 7 {
        '7'
    } else if d == 8 {
        '8'
    } else if d == 9 {
        '9'
    } else if d == 10 {
        'a'
    } else if d == 11 {
        'b'
    } else if d == 12 {
        'c'
    } else if d == 13 {
        'd'
    } else if d == 14 {
        'e'
    } else {
        'f'
    }
}

/// `n` written in lowercase hexadecimal, no leading zeroes.
pub open spec fn hex_chars(n: nat) -> Seq<char>
    decreases n,
{
    if n < 16 {
        seq![digit_char(n)]
    } else {
        hex_chars(n / 16).push(digit_char(n % 16))
    }
}

/// `n` written in decimal, no leading zeroes.
pub open spec fn dec_chars(n: nat) -> Seq<char>
    decreases n,
{
    if n < 10 {
        seq![digit_char(n)]
    } else {
        dec_chars(n / 10).push(digit_char(n % 10))
    }
}

fn digit_char_exec(d: u32) -> (c: char)
    requires
        d < 16,
    ensures
        c == digit_char(d as nat),
{
    match d {
        0 => '0',
        1 => '1',
        2 => '2',
        3 => '3',
        4 => '4',
        5 => '5',
        6 => '6',
        7 => '7',
        8 => '8',
        9 => '9',
        10 => 'a',
        11 => 'b',
        12 => 'c',
        13 => 'd',
        14 => 'e',
        _ => 'f',
    }
}

fn push_hex_chars(s: &mut String, n: u32)
    ensures
        final(s)@ == old(s)@ + hex_chars(n as nat),
    decreases n,
{
    if n < 16 {
        push_char(s, digit_char_exec(n));
        proof {
            assert(final(s)@ =~= old(s)@ + hex_chars(n as nat));
        }
    } else {
        push_hex_chars(s, n / 16);
        push_char(s, digit_char_exec(n % 16));
        proof {
            assert(final(s)@ =~= old(s)@ + hex_chars(n as nat));
        }
    }
}

fn push_dec_chars(s: &mut String, n: u32)
    ensures
        final(s)@ == old(s)@ + dec_chars(n as nat),
    decreases n,
{
    if n < 10 {
        push_char(s, digit_char_exec(n));
        proof {
            assert(final(s)@ =~= old(s)@ + dec_chars(n as nat));
        }
    } else {
        push_dec_chars(s, n / 10);
        push_char(s, digit_char_exec(n % 10));
        proof {
            assert(final(s)@ =~= old(s)@ + dec_chars(n as nat));
        }
    }
}

/// The codepoint as decimal text, for the codepoint output mode.
pub fn codepoint_decimal(codepoint: u32) -> (r: String)
    ensures
        r@ == dec_chars(codepoint as nat),
{
    let mut s = String::new();
    push_dec_chars(&mut s, codepoint);
    proof {
        assert(s@ =~= dec_chars(codepoint as nat));
    }
    s
}

/// The default human-readable line: the symbol, the codepoint in
/// hexadecimal, and the name.
pub fn format_default_line(symbol: char, data: &UnicodeData) -> (r: String)
    ensures
        r@ == seq![symbol] + " (0x"@ + hex_chars(data.codepoint as nat) + ") - "@ + data.name@,
{
    let mut s = String::new();
    push_char(&mut s, symbol);
    s.append(" (0x");
    push_hex_chars(&mut s, data.codepoint);
    s.append(") - ");
    s.append(data.name.as_str());
    proof {
        assert(s@ =~= seq![symbol] + " (0x"@ + hex_chars(data.codepoint as nat) + ") - "@
            + data.name@);
    }
    s
}

/// A requested way of emitting the confirmed record.
#[derive(Clone, Copy, PartialEq, Eq, Structural, Debug)]
pub enum OutputMode {
    Symbol,
    Codepoint,
    Name,
}

/// Reads a requested output mode; `None` for anything but the three valid
/// choices, on which the caller reports the usage error.
pub fn parse_output_mode(mode: &str) -> (r: Option<OutputMode>)
    ensures
        mode@ == "symbol"@ ==> r == Some(OutputMode::Symbol),
        mode@ == "codepoint"@ ==> r == Some(OutputMode::Codepoint),
        mode@ == "name"@ ==> r == Some(OutputMode::Name),
        mode@ != "symbol"@ && mode@ != "codepoint"@ && mode@ != "name"@ ==> r is None,
    {
    proof {
        reveal_strlit("symbol");
        reveal_strlit("codepoint");
        reveal_strlit("name");
        assert("symbol"@.len() == 6);
        assert("codepoint"@.len() == 9);
        assert("symbol"@ != "codepoint"@);
        assert("symbol"@ != "name"@);
        assert("codepoint"@ != "name"@);
    }
    let m = mode.to_owned();
    if m == String::from_str("symbol") {
        Some(OutputMode::Symbol)
    } else if m == String::from_str("codepoint") {
        Some(OutputMode::Codepoint)
    } else if m == String::from_str("name") {
        Some(OutputMode::Name)
    } else {
        None
    }
}

/// The usage message for an unrecognized output mode, naming the valid
/// choices.
pub fn invalid_mode_message(mode: &str) -> (r: String)
    ensures
        r@ == "invalid display type \""@ + mode@ + "\". Choose one of: symbol, codepoint, name"@,
{
    let s = String::from_str("invalid display type \"").concat(mode).concat(
        "\". Choose one of: symbol, codepoint, name",
    );
    proof {
        assert(s@ =~= "invalid display type \""@ + mode@
            + "\". Choose one of: symbol, codepoint, name"@);
    }
    s
}

} // verus!
