//! Parsing textual palettes: one 6-hex-digit RGB triple per line.

use vstd::prelude::*;
use vstd::string::StringSliceAdditionalSpecFns;
use vstd::utf8::{encode_utf8, valid_utf8, is_char_boundary, is_continuation_byte,
    is_leading_byte_width_1, encode_utf8_valid_utf8, valid_utf8_split,
    is_char_boundary_iff_not_is_continuation_byte, is_char_boundary_start_end_of_seq};
use crate::palette::Color;

verus! {

/// A line that fails to parse as a color, with the offending input.
#[derive(Debug, PartialEq, Eq)]
pub enum ParseHexColorError {
    /// The line does not hold exactly six bytes.
    WrongColorStringLength { input_str: String, actual_length: usize, expected_length: usize },
    /// The line holds a byte that is not a hexadecimal digit; `offset` is
    /// the first such position.
    InvalidHexDigit { input_str: String, offset: usize },
}

/// The value of a hexadecimal digit byte, or -1 for any other byte.
pub open spec fn spec_hex_val(b: u8) -> int {
    if 48 <= b <= 57 {
        b - 48
    } else if 97 <= b <= 102 {
        b - 87
    } else if 65 <= b <= 70 {
        b - 55
    } else {
        -1
    }
}

pub open spec fn spec_is_hex(b: u8) -> bool {
    spec_hex_val(b) >= 0
}

/// A valid color line: exactly six hexadecimal digit bytes.
pub open spec fn spec_line_valid(line: Seq<u8>) -> bool {
    line.len() == 6 && forall|k: int| 0 <= k < 6 ==> spec_is_hex(#[trigger] line[k])
}

/// The color a valid line denotes: three big-endian hex byte pairs, opaque.
pub open spec fn spec_color_of_line(line: Seq<u8>) -> Color {
    Color {
        r: (spec_hex_val(line[0]) * 16 + spec_hex_val(line[1])) as u8,
        g: (spec_hex_val(line[2]) * 16 + spec_hex_val(line[3])) as u8,
        b: (spec_hex_val(line[4]) * 16 + spec_hex_val(line[5])) as u8,
        a: 255,
    }
}

/// The error an invalid line produces: a length error carrying the line and
/// its byte length, or a digit error carrying the line and the first
/// non-hexadecimal position.
pub open spec fn spec_line_error_matches(line: Seq<u8>, e: ParseHexColorError) -> bool {
    if line.len() != 6 {
        &&& e matches ParseHexColorError::WrongColorStringLength {
            input_str, actual_length, expected_length }
        &&& encode_utf8(input_str@) == line
        &&& actual_length == line.len()
        &&& expected_length == 6
    } else {
        &&& e matches ParseHexColorError::InvalidHexDigit { input_str, offset }
        &&& encode_utf8(input_str@) == line
        &&& 0 <= offset < 6
        &&& !spec_is_hex(line[offset as int])
        &&& forall|k: int| 0 <= k < offset ==> spec_is_hex(#[trigger] line[k])
    }
}

/// The value of a hexadecimal digit byte.
fn hex_val(b: u8) -> (r: Option<u8>)
    ensures
        r is Some <==> spec_is_hex(b),
        r matches Some(v) ==> v == spec_hex_val(b),
{
    if 48 <= b && b <= 57 {
        Some(b - 48)
    } else if 97 <= b && b <= 102 {
        Some(b - 87)
    } else if 65 <= b && b <= 70 {
        Some(b - 55)
    } else {
        None
    }
}

/// Parse one line as a color: exactly six hexadecimal digits, two per
/// channel, alpha fixed at opaque.  Returns the offending input in the
/// error otherwise.
pub fn parse_hex_color(s: &str) -> (r: Result<Color, ParseHexColorError>)
    ensures
        spec_line_valid(s.spec_bytes()) ==> r == Ok::<Color, ParseHexColorError>(
            spec_color_of_line(s.spec_bytes())),
        !spec_line_valid(s.spec_bytes()) ==> (r matches Err(e) && spec_line_error_matches(
            s.spec_bytes(), e)),
{
    let bytes = s.as_bytes();
    if bytes.len() != 6 {
        return Err(ParseHexColorError::WrongColorStringLength {
            input_str: s.to_owned(),
            actual_length: bytes.len(),
            expected_length: 6,
        });
    }
    let mut k: usize = 0;
    while k < 6
        invariant
            bytes@ == s.spec_bytes(),
            bytes@.len() == 6,
            0 <= k <= 6,
            forall|j: int| 0 <= j < k ==> spec_is_hex(#[trigger] bytes@[j]),
        decreases 6 - k,
    {
        if hex_val(bytes[k]).is_none() {
            return Err(ParseHexColorError::InvalidHexDigit {
                input_str: s.to_owned(),
                offset: k,
            });
        }
        k = k + 1;
    }
    let r = pair_val(bytes[0], bytes[1]);
    let g = pair_val(bytes[2], bytes[3]);
    let b = pair_val(bytes[4], bytes[5]);
    Ok(Color { r, g, b, a: 255 })
}

/// Two hexadecimal digits as one byte, high digit first.
fn pair_val(hi: u8, lo: u8) -> (r: u8)
    requires
        spec_is_hex(hi),
        spec_is_hex(lo),
    ensures
        r == spec_hex_val(hi) * 16 + spec_hex_val(lo),
{
    let h = hex_val(hi).unwrap();
    let l = hex_val(lo).unwrap();
    h * 16 + l
}

/// The index of the first newline byte, or the length if there is none.
pub open spec fn first_nl(s: Seq<u8>) -> int
    decreases s.len(),
{
    if s.len() == 0 {
        0
    } else if s[0] == 10 {
        0
    } else {
        1 + first_nl(s.drop_first())
    }
}

/// A position before which no newline occurs, and which is a newline or the
/// end, is the first newline position.
proof fn lemma_first_nl_is(s: Seq<u8>, i: int)
    requires
        0 <= i <= s.len(),
        forall|k: int| 0 <= k < i ==> s[k] != 10,
        i < s.len() ==> s[i] == 10,
    ensures
        first_nl(s) == i,
    decreases s.len(),
{
    if s.len() > 0 && s[0] != 10 {
        lemma_first_nl_is(s.drop_first(), i - 1);
    }
}

/// A line with its optional trailing carriage return removed.
pub open spec fn strip_cr(line: Seq<u8>) -> Seq<u8> {
    if line.len() > 0 && line[line.len() - 1] == 13 {
        line.take(line.len() - 1)
    } else {
        line
    }
}

/// The first newline position is within the sequence.
pub proof fn lemma_first_nl_bounds(s: Seq<u8>)
    ensures
        0 <= first_nl(s) <= s.len(),
    decreases s.len(),
{
    if s.len() > 0 && s[0] != 10 {
        lemma_first_nl_bounds(s.drop_first());
    }
}

/// The lines of a byte sequence: split at each newline, a carriage return
/// before a newline stripped, and no empty final line after a trailing
/// newline.
pub open spec fn spec_lines(s: Seq<u8>) -> Seq<Seq<u8>>
    decreases s.len(),
    via spec_lines_decreases
{
    if s.len() == 0 {
        Seq::empty()
    } else {
        let i = first_nl(s);
        if i == s.len() {
            seq![s]
        } else {
            seq![strip_cr(s.take(i))] + spec_lines(s.skip(i + 1))
        }
    }
}

#[via_fn]
proof fn spec_lines_decreases(s: Seq<u8>) {
    lemma_first_nl_bounds(s);
}

/// The index of the first line that is not a valid color, or -1 when every
/// line is valid.
pub open spec fn first_invalid(lines: Seq<Seq<u8>>) -> int
    decreases lines.len(),
{
    if lines.len() == 0 {
        -1
    } else if !spec_line_valid(lines[0]) {
        0
    } else {
        let r = first_invalid(lines.drop_first());
        if r < 0 {
            -1
        } else {
            r + 1
        }
    }
}

/// When every line is valid, there is no first invalid line.
proof fn lemma_first_invalid_none(lines: Seq<Seq<u8>>)
    requires
        forall|t: int| 0 <= t < lines.len() ==> spec_line_valid(#[trigger] lines[t]),
    ensures
        first_invalid(lines) < 0,
    decreases lines.len(),
{
    if lines.len() > 0 {
        assert(forall|t: int|
            0 <= t < lines.drop_first().len() ==> #[trigger] lines.drop_first()[t]
                == lines[t + 1]);
        lemma_first_invalid_none(lines.drop_first());
    }
}

/// An invalid line preceded only by valid lines is the first invalid line.
proof fn lemma_first_invalid_at(lines: Seq<Seq<u8>>, t0: int)
    requires
        0 <= t0 < lines.len(),
        forall|u: int| 0 <= u < t0 ==> spec_line_valid(#[trigger] lines[u]),
        !spec_line_valid(lines[t0]),
    ensures
        first_invalid(lines) == t0,
    decreases t0,
{
    if t0 > 0 {
        assert(forall|t: int|
            0 <= t < lines.drop_first().len() ==> #[trigger] lines.drop_first()[t]
                == lines[t + 1]);
        lemma_first_invalid_at(lines.drop_first(), t0 - 1);
    }
}

/// After a one-byte character, position one is a character boundary.
proof fn lemma_boundary_after_ascii(bytes: Seq<u8>)
    requires
        valid_utf8(bytes),
        bytes.len() >= 1,
        is_leading_byte_width_1(bytes[0]),
    ensures
        is_char_boundary(bytes, 1),
{
    reveal_with_fuel(is_char_boundary, 3);
}

/// Parse a palette: one color per line.  Succeeds with the colors in line
/// order when every line is a valid color; otherwise fails with the first
/// offending line's error.
#[verifier::rlimit(100)]
pub fn parse_hex_palette(s: &str) -> (r: Result<Vec<Color>, ParseHexColorError>)
    ensures
        ({
            let lines = spec_lines(s.spec_bytes());
            &&& first_invalid(lines) < 0 ==> (r matches Ok(colors) && colors@.len()
                == lines.len() && forall|t: int|
                0 <= t < lines.len() ==> colors@[t] == spec_color_of_line(#[trigger] lines[t]))
            &&& first_invalid(lines) >= 0 ==> (r matches Err(e) && spec_line_error_matches(
                lines[first_invalid(lines)], e))
        }),
{
    let ghost bytes0 = s.spec_bytes();
    let ghost all_lines = spec_lines(bytes0);
    let n0 = s.as_bytes().len();
    proof {
        assert(s.spec_bytes().len() == n0);
    }
    let mut colors: Vec<Color> = Vec::new();
    let mut rest: &str = s;
    let ghost mut processed: Seq<Seq<u8>> = Seq::empty();
    proof {
        assert(processed + spec_lines(rest.spec_bytes()) =~= all_lines);
    }
    while rest.len() != 0
        invariant
            all_lines == spec_lines(s.spec_bytes()),
            processed + spec_lines(rest.spec_bytes()) =~= all_lines,
            rest.spec_bytes().len() <= usize::MAX,
            colors@.len() == processed.len(),
            forall|t: int|
                0 <= t < processed.len() ==> spec_line_valid(#[trigger] processed[t])
                    && colors@[t] == spec_color_of_line(processed[t]),
        decreases rest.spec_bytes().len(),
    {
        proof {
            encode_utf8_valid_utf8(rest@);
        }
        let rbytes = rest.as_bytes();
        let rlen = rbytes.len();
        // find the first newline byte
        let mut k: usize = 0;
        let mut found: bool = false;
        while k < rlen
            invariant
                rbytes@ == rest.spec_bytes(),
                rlen == rbytes@.len(),
                0 <= k <= rlen,
                forall|j: int| 0 <= j < k ==> rbytes@[j] != 10,
                found ==> k < rlen && rbytes@[k as int] == 10,
            ensures
                rbytes@ == rest.spec_bytes(),
                0 <= k <= rlen,
                forall|j: int| 0 <= j < k ==> rbytes@[j] != 10,
                found ==> k < rlen && rbytes@[k as int] == 10,
                !found ==> k == rlen,
            decreases rlen - k,
        {
            if rbytes[k] == 10 {
                found = true;
                break;
            }
            k = k + 1;
        }
        proof {
            lemma_first_nl_is(rbytes@, if found { k as int } else { rlen as int });
        }
        let ghost rest_before = rest.spec_bytes();
        let line_str: &str;
        let next_rest: &str;
        if found {
            proof {
                is_char_boundary_iff_not_is_continuation_byte(rbytes@, k as int);
                assert(!is_continuation_byte(rbytes@[k as int]));
            }
            let pieces = rest.split_at(k);
            let with_nl = pieces.1;
            proof {
                valid_utf8_split(rbytes@, k as int);
                assert(with_nl.spec_bytes()[0] == 10);
                assert(is_leading_byte_width_1(10u8));
                lemma_boundary_after_ascii(with_nl.spec_bytes());
            }
            let tail_pieces = with_nl.split_at(1);
            next_rest = tail_pieces.1;
            // strip one trailing carriage return from the line
            let raw_line = pieces.0;
            let raw_bytes = raw_line.as_bytes();
            let raw_len = raw_bytes.len();
            if raw_len > 0 && raw_bytes[raw_len - 1] == 13 {
                proof {
                    assert(valid_utf8(raw_line.spec_bytes())) by {
                        encode_utf8_valid_utf8(raw_line@);
                    }
                    is_char_boundary_iff_not_is_continuation_byte(raw_bytes@, raw_len - 1);
                    assert(!is_continuation_byte(raw_bytes@[raw_len - 1]));
                }
                line_str = raw_line.split_at(raw_len - 1).0;
            } else {
                line_str = raw_line;
            }
            proof {
                assert(line_str.spec_bytes() =~= strip_cr(rest_before.take(k as int)));
                assert(next_rest.spec_bytes() =~= rest_before.skip(k as int + 1));
            }
        } else {
            proof {
                is_char_boundary_start_end_of_seq(rbytes@);
            }
            let pieces = rest.split_at(rlen);
            line_str = pieces.0;
            next_rest = pieces.1;
            proof {
                assert(line_str.spec_bytes() =~= rest_before);
                assert(next_rest.spec_bytes() =~= rest_before.skip(rlen as int));
                assert(next_rest.spec_bytes().len() == 0);
            }
        }
        let ghost line_bytes = line_str.spec_bytes();
        proof {
            if found {
                assert(spec_lines(rest_before) == seq![line_bytes] + spec_lines(
                    next_rest.spec_bytes()));
            } else {
                assert(spec_lines(rest_before) =~= seq![line_bytes]);
                assert(spec_lines(next_rest.spec_bytes()) =~= Seq::<Seq<u8>>::empty());
            }
            assert(all_lines[processed.len() as int] == line_bytes);
        }
        match parse_hex_color(line_str) {
            Ok(c) => {
                colors.push(c);
                proof {
                    processed = processed + seq![line_bytes];
                    assert(processed + spec_lines(next_rest.spec_bytes()) =~= all_lines);
                }
            },
            Err(e) => {
                proof {
                    let t0 = processed.len() as int;
                    assert(0 <= t0 < all_lines.len());
                    assert(!spec_line_valid(all_lines[t0]));
                    assert(spec_line_error_matches(all_lines[t0], e));
                    lemma_first_invalid_at(all_lines, t0);
                }
                return Err(e);
            },
        }
        rest = next_rest;
    }
    proof {
        assert(rest.spec_bytes().len() == 0);
        assert(spec_lines(rest.spec_bytes()) =~= Seq::<Seq<u8>>::empty());
        assert(processed =~= all_lines);
        lemma_first_invalid_none(all_lines);
    }
    Ok(colors)
}

/// The palette used when no palette source is supplied: a small warm
/// sunset ramp, darkest first.
pub fn get_default_palette() -> (p: Vec<Color>)
    ensures
        p@.len() == 5,
        p@[0] == (Color { r: 0x2b, g: 0x12, b: 0x4c, a: 255 }),
        p@[1] == (Color { r: 0x89, g: 0x43, b: 0x89, a: 255 }),
        p@[2] == (Color { r: 0xd5, g: 0x6a, b: 0xa0, a: 255 }),
        p@[3] == (Color { r: 0xf2, g: 0xa6, b: 0x5a, a: 255 }),
        p@[4] == (Color { r: 0xf9, g: 0xdc, b: 0x5c, a: 255 }),
{
    let mut p: Vec<Color> = Vec::new();
    p.push(Color { r: 0x2b, g: 0x12, b: 0x4c, a: 255 });
    p.push(Color { r: 0x89, g: 0x43, b: 0x89, a: 255 });
    p.push(Color { r: 0xd5, g: 0x6a, b: 0xa0, a: 255 });
    p.push(Color { r: 0xf2, g: 0xa6, b: 0x5a, a: 255 });
    p.push(Color { r: 0xf9, g: 0xdc, b: 0x5c, a: 255 });
    p
}

} // verus!
