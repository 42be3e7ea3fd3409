//! Escaping strings for interpolation into quoted YAML values.
//!
//! The actual template rendering that produces cluster manifests happens
//! outside the verified core; the escaping rule is the core's own logic.

use vstd::prelude::*;

use crate::text::push_char;

verus! {

/// A printable ASCII character other than space.
pub open spec fn is_ascii_graphic_char(c: char) -> bool {
    0x21 <= c as u32 <= 0x7e
}

/// The lower-case hex digit for a value below sixteen.
pub open spec fn spec_hex_digit(n: u32) -> char {
    if n == 0 {
        '0'
    } else if n == 1 {
        '1'
    } else if n == 2 {
        '2'
    } else if n == 3 {
        '3'
    } else if n == 4 {
        '4'
    } else if n == 5 {
        '5'
    } else if n == 6 {
        '6'
    } else if n == 7 {
        '7'
    } else if n == 8 {
        '8'
    } else if n == 9 {
        '9'
    } else if n == 10 {
        'a'
    } else if n == 11 {
        'b'
    } else if n == 12 {
        'c'
    } else if n == 13 {
        'd'
    } else if n == 14 {
        'e'
    } else {
        'f'
    }
}

/// Four lower-case hex digits, most significant first.
pub open spec fn spec_hex4(v: u32) -> Seq<char> {
    seq![
        spec_hex_digit((v >> 12) & 0xf),
        spec_hex_digit((v >> 8) & 0xf),
        spec_hex_digit((v >> 4) & 0xf),
        spec_hex_digit(v & 0xf),
    ]
}

/// Eight lower-case hex digits, most significant first.
pub open spec fn spec_hex8(v: u32) -> Seq<char> {
    seq![
        spec_hex_digit((v >> 28) & 0xf),
        spec_hex_digit((v >> 24) & 0xf),
        spec_hex_digit((v >> 20) & 0xf),
        spec_hex_digit((v >> 16) & 0xf),
    ] + spec_hex4(v)
}

/// How one character is escaped inside a quoted YAML value: backslash
/// escapes for the characters YAML treats specially, the character itself
/// for printable ASCII, and a `\u`/`\U` hex escape for everything else.
pub open spec fn spec_yaml_escape_char(c: char) -> Seq<char> {
    if c == '\\' {
        "\\\\"@
    } else if c == '"' {
        "\\\""@
    } else if c == '\'' {
        "\\'"@
    } else if c == '\n' {
        "\\n"@
    } else if c == '\r' {
        "\\r"@
    } else if c == '\t' {
        "\\t"@
    } else if c == '\0' {
        "\\0"@
    } else if c == ' ' || is_ascii_graphic_char(c) {
        seq![c]
    } else if c as u32 <= 0xffff {
        "\\u"@ + spec_hex4(c as u32)
    } else {
        "\\U"@ + spec_hex8(c as u32)
    }
}

/// The escaping of a whole string: each character escaped, in order.
pub open spec fn spec_yaml_escape(s: Seq<char>) -> Seq<char>
    decreases s.len(),
{
    if s.len() == 0 {
        Seq::empty()
    } else {
        spec_yaml_escape(s.drop_last()) + spec_yaml_escape_char(s.last())
    }
}

/// The lower-case hex digit for a value below sixteen.
fn hex_digit(n: u32) -> (c: char)
    requires
        n < 16,
    ensures
        c == spec_hex_digit(n),
{
    if n == 0 {
        '0'
    } else if n == 1 {
        '1'
    } else if n == 2 {
        '2'
    } else if n == 3 {
        '3'
    } else if n == 4 {
        '4'
    } else if n == 5 {
        '5'
    } else if n == 6 {
        '6'
    } else if n == 7 {
        '7'
    } else if n == 8 {
        '8'
    } else if n == 9 {
        '9'
    } else if n == 10 {
        'a'
    } else if n == 11 {
        'b'
    } else if n == 12 {
        'c'
    } else if n == 13 {
        'd'
    } else if n == 14 {
        'e'
    } else {
        'f'
    }
}

/// Escape a string as a YAML value, assuming the value is quoted in the
/// YAML.
pub fn yaml_escape(s: &str) -> (r: String)
    ensures
        r@ == spec_yaml_escape(s@),
{
    let len = s.unicode_len();
    let mut out = String::new();
    let mut i: usize = 0;
    while i < len
        invariant
            0 <= i <= len,
            len == s@.len(),
            out@ == spec_yaml_escape(s@.take(i as int)),
        decreases len - i,
    {
        proof {
            assert(s@.take(i + 1).drop_last() =~= s@.take(i as int));
            assert(s@.take(i + 1).last() == s@[i as int]);
        }
        let c = s.get_char(i);
        if c == '\\' {
            out.append("\\\\");
        } else if c == '"' {
            out.append("\\\"");
        } else if c == '\'' {
            out.append("\\'");
        } else if c == '\n' {
            out.append("\\n");
        } else if c == '\r' {
            out.append("\\r");
        } else if c == '\t' {
            out.append("\\t");
        } else if c == '\0' {
            out.append("\\0");
        } else if c == ' ' || (0x21 <= c as u32 && c as u32 <= 0x7e) {
            push_char(&mut out, c);
            proof {
                assert(out@ =~= spec_yaml_escape(s@.take(i as int)) + seq![c]);
            }
        } else if c as u32 <= 0xffff {
            let v = c as u32;
            proof {
                assert((v >> 12) & 0xf < 16 && (v >> 8) & 0xf < 16 && (v >> 4) & 0xf < 16 && v
                    & 0xf < 16) by (bit_vector);
            }
            out.append("\\u");
            push_char(&mut out, hex_digit((v >> 12) & 0xf));
            push_char(&mut out, hex_digit((v >> 8) & 0xf));
            push_char(&mut out, hex_digit((v >> 4) & 0xf));
            push_char(&mut out, hex_digit(v & 0xf));
            proof {
                assert(out@ =~= spec_yaml_escape(s@.take(i as int)) + ("\\u"@ + spec_hex4(v)));
            }
        } else {
            let v = c as u32;
            proof {
                assert((v >> 28) & 0xf < 16 && (v >> 24) & 0xf < 16 && (v >> 20) & 0xf < 16 && (v
                    >> 16) & 0xf < 16 && (v >> 12) & 0xf < 16 && (v >> 8) & 0xf < 16 && (v >> 4)
                    & 0xf < 16 && v & 0xf < 16) by (bit_vector);
            }
            out.append("\\U");
            push_char(&mut out, hex_digit((v >> 28) & 0xf));
            push_char(&mut out, hex_digit((v >> 24) & 0xf));
            push_char(&mut out, hex_digit((v >> 20) & 0xf));
            push_char(&mut out, hex_digit((v >> 16) & 0xf));
            push_char(&mut out, hex_digit((v >> 12) & 0xf));
            push_char(&mut out, hex_digit((v >> 8) & 0xf));
            push_char(&mut out, hex_digit((v >> 4) & 0xf));
            push_char(&mut out, hex_digit(v & 0xf));
            proof {
                assert(out@ =~= spec_yaml_escape(s@.take(i as int)) + ("\\U"@ + spec_hex8(v)));
            }
        }
        i += 1;
    }
    proof {
        assert(s@.take(len as int) =~= s@);
    }
    out
}

} // verus!
