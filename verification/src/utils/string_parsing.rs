use vstd::prelude::*;

use crate::parsed_json::{overwrite, tape_word, write_at, ParsedJson, ParsedJsonModel};

verus! {

/// The value of a hexadecimal digit.
pub open spec fn hex_digit_value(b: u8) -> Option<u32> {
    if 0x30 <= b <= 0x39 {
        Some((b - 0x30) as u32)
    } else if 0x61 <= b <= 0x66 {
        Some((b - 0x61 + 10) as u32)
    } else if 0x41 <= b <= 0x46 {
        Some((b - 0x41 + 10) as u32)
    } else {
        None
    }
}

/// The value of the four hexadecimal digits at `p`, if there are four.
pub open spec fn hex4_at(s: Seq<u8>, p: int) -> Option<u32> {
    if 0 <= p && p + 4 <= s.len() {
        match (
            hex_digit_value(s[p]),
            hex_digit_value(s[p + 1]),
            hex_digit_value(s[p + 2]),
            hex_digit_value(s[p + 3]),
        ) {
            (Some(a), Some(b), Some(c), Some(d)) => Some((a * 4096 + b * 256 + c * 16 + d) as u32),
            _ => None,
        }
    } else {
        None
    }
}

/// The UTF-8 encoding of the code point `cp` (at most 0x10FFFF).
pub open spec fn utf8_encode(cp: u32) -> Seq<u8> {
    if cp < 0x80 {
        seq![cp as u8]
    } else if cp < 0x800 {
        seq![(0xc0 | (cp >> 6u32)) as u8, (0x80 | (cp & 0x3f)) as u8]
    } else if cp < 0x10000 {
        seq![
            (0xe0 | (cp >> 12u32)) as u8,
            (0x80 | ((cp >> 6u32) & 0x3f)) as u8,
            (0x80 | (cp & 0x3f)) as u8,
        ]
    } else {
        seq![
            (0xf0 | (cp >> 18u32)) as u8,
            (0x80 | ((cp >> 12u32) & 0x3f)) as u8,
            (0x80 | ((cp >> 6u32) & 0x3f)) as u8,
            (0x80 | (cp & 0x3f)) as u8,
        ]
    }
}

/// The byte that a backslash followed by `e` stands for, when `e` is not `u`.
pub open spec fn escape_byte(e: u8) -> Option<u8> {
    if e == 0x22 {
        Some(0x22u8)
    } else if e == 0x5c {
        Some(0x5cu8)
    } else if e == 0x2f {
        Some(0x2fu8)
    } else if e == 0x62 {
        Some(0x08u8)
    } else if e == 0x66 {
        Some(0x0cu8)
    } else if e == 0x6e {
        Some(0x0au8)
    } else if e == 0x72 {
        Some(0x0du8)
    } else if e == 0x74 {
        Some(0x09u8)
    } else {
        None
    }
}

/// `prefix` put in front of the bytes of a decoding result.
pub open spec fn prepend(prefix: Seq<u8>, r: Option<(Seq<u8>, int)>) -> Option<(Seq<u8>, int)> {
    match r {
        Some((rest, end)) => Some((prefix + rest, end)),
        None => None,
    }
}

/// The bytes that the `\u` escape at `p` stands for, and the position after it: one
/// code point, or a high surrogate followed by the `\u` escape of a low surrogate.
pub open spec fn unicode_escape(s: Seq<u8>, p: int) -> Option<(Seq<u8>, int)> {
    match hex4_at(s, p + 2) {
        None => None,
        Some(cp) => if 0xd800 <= cp < 0xdc00 {
            if p + 7 < s.len() && s[p + 6] == 0x5c && s[p + 7] == 0x75 {
                match hex4_at(s, p + 8) {
                    Some(lo) => if 0xdc00 <= lo < 0xe000 {
                        Some(
                            (
                                utf8_encode(((cp - 0xd800) * 1024 + (lo - 0xdc00) + 0x10000) as u32),
                                p + 12,
                            ),
                        )
                    } else {
                        None
                    },
                    None => None,
                }
            } else {
                None
            }
        } else {
            Some((utf8_encode(cp), p + 6))
        },
    }
}

/// Decodes the content of a string from position `p` up to its closing quote:
/// the decoded bytes and the position of the closing quote, or `None` when the
/// string is not closed or holds an invalid escape.
pub open spec fn decode_string(s: Seq<u8>, p: int) -> Option<(Seq<u8>, int)>
    decreases s.len() - p,
{
    if p < 0 || p >= s.len() {
        None
    } else if s[p] == 0x22 {
        Some((Seq::empty(), p))
    } else if s[p] != 0x5c {
        prepend(seq![s[p]], decode_string(s, p + 1))
    } else if p + 1 >= s.len() {
        None
    } else if s[p + 1] != 0x75 {
        match escape_byte(s[p + 1]) {
            Some(b) => prepend(seq![b], decode_string(s, p + 2)),
            None => None,
        }
    } else {
        match unicode_escape(s, p) {
            Some((bytes, q)) => if p < q {
                prepend(bytes, decode_string(s, q))
            } else {
                None
            },
            None => None,
        }
    }
}

/// The value of the hexadecimal digit `b`.
fn hex_digit(b: u8) -> (r: Option<u32>)
    ensures
        r == hex_digit_value(b),
{
    if 0x30 <= b && b <= 0x39 {
        Some((b - 0x30) as u32)
    } else if 0x61 <= b && b <= 0x66 {
        Some((b - 0x61 + 10) as u32)
    } else if 0x41 <= b && b <= 0x46 {
        Some((b - 0x41 + 10) as u32)
    } else {
        None
    }
}

/// The value of the four hexadecimal digits at `p`.
fn hex_to_u32(buf: &[u8], p: usize) -> (r: Option<u32>)
    ensures
        r == hex4_at(buf@, p as int),
{
    if p > buf.len() || buf.len() - p < 4 {
        return None;
    }
    match (hex_digit(buf[p]), hex_digit(buf[p + 1]), hex_digit(buf[p + 2]), hex_digit(buf[p + 3])) {
        (Some(a), Some(b), Some(c), Some(d)) => Some(a * 4096 + b * 256 + c * 16 + d),
        _ => None,
    }
}

/// Appends the UTF-8 encoding of `cp` to `out`.
fn codepoint_to_utf8(cp: u32, out: &mut Vec<u8>)
    requires
        cp <= 0x10ffff,
    ensures
        final(out)@ == old(out)@ + utf8_encode(cp),
{
    if cp < 0x80 {
        out.push(cp as u8);
    } else if cp < 0x800 {
        out.push((0xc0 | (cp >> 6u32)) as u8);
        out.push((0x80 | (cp & 0x3f)) as u8);
    } else if cp < 0x10000 {
        out.push((0xe0 | (cp >> 12u32)) as u8);
        out.push((0x80 | ((cp >> 6u32) & 0x3f)) as u8);
        out.push((0x80 | (cp & 0x3f)) as u8);
    } else {
        out.push((0xf0 | (cp >> 18u32)) as u8);
        out.push((0x80 | ((cp >> 12u32) & 0x3f)) as u8);
        out.push((0x80 | ((cp >> 6u32) & 0x3f)) as u8);
        out.push((0x80 | (cp & 0x3f)) as u8);
    }
    assert(final(out)@ =~= old(out)@ + utf8_encode(cp));
}

/// Decodes the `\u` escape at `p` (one code point, or a surrogate pair) into
/// `out`; returns the position after it.
fn handle_unicode_codepoint(buf: &[u8], p: usize, out: &mut Vec<u8>) -> (r: Option<usize>)
    requires
        p + 1 < buf@.len(),
    ensures
        r is None ==> unicode_escape(buf@, p as int) is None && final(out)@ == old(out)@,
        r matches Some(q) ==> unicode_escape(buf@, p as int) matches Some((bytes, e)) && e == q
            && p < q && final(out)@ == old(out)@ + bytes,
{
    let len = buf.len();
    let cp = match hex_to_u32(buf, p + 2) {
        Some(v) => v,
        None => return None,
    };
    assert(cp < 0x10000);
    if 0xd800 <= cp && cp < 0xdc00 {
        if len - p > 7 && buf[p + 6] == 0x5c && buf[p + 7] == 0x75 {
            let lo = match hex_to_u32(buf, p + 8) {
                Some(v) => v,
                None => return None,
            };
            if 0xdc00 <= lo && lo < 0xe000 {
                let hi_bits = cp - 0xd800;
                let lo_bits = lo - 0xdc00;
                assert((hi_bits << 10u32) | lo_bits == hi_bits * 1024 + lo_bits) by (bit_vector)
                    requires
                        hi_bits < 0x400,
                        lo_bits < 0x400,
                ;
                let code_point = ((hi_bits << 10u32) | lo_bits) + 0x10000;
                codepoint_to_utf8(code_point, out);
                Some(p + 12)
            } else {
                None
            }
        } else {
            None
        }
    } else {
        codepoint_to_utf8(cp, out);
        Some(p + 6)
    }
}

proof fn lemma_prepend_assoc(a: Seq<u8>, b: Seq<u8>, r: Option<(Seq<u8>, int)>)
    ensures
        prepend(a + b, r) == prepend(a, prepend(b, r)),
{
    if let Some((rest, end)) = r {
        assert(a + b + rest =~= a + (b + rest));
    }
}

/// A decoded string is no longer than its source, and ends before the end of the input.
proof fn lemma_decode_length(s: Seq<u8>, p: int)
    ensures
        decode_string(s, p) matches Some((b, e)) ==> p <= e < s.len() && b.len() <= e - p,
    decreases s.len() - p,
{
    if 0 <= p < s.len() && s[p] != 0x22 {
        if s[p] != 0x5c {
            lemma_decode_length(s, p + 1);
        } else if p + 1 < s.len() {
            if s[p + 1] != 0x75 {
                lemma_decode_length(s, p + 2);
            } else if let Some((bytes, q)) = unicode_escape(s, p) {
                if p < q {
                    lemma_decode_length(s, q);
                }
            }
        }
    }
}

/// Parses the string whose opening quote is at `offset`: writes at the tape's
/// write position a string word that points at the write position of the string
/// buffer, then, when the string is closed and its escapes are valid, writes its
/// decoded bytes and a zero byte into the string buffer from that position on.
/// Returns whether the string was valid.
pub fn parse_string(buf: &[u8], pj: &mut ParsedJson, offset: usize) -> (ok: bool)
    requires
        !old(pj)@.is_valid,
        offset < buf@.len(),
        old(pj)@.current_loc <= old(pj)@.tape.len(),
        old(pj)@.current_loc < u32::MAX,
        old(pj)@.current_string_buf_loc <= old(pj)@.string_buf.len(),
        old(pj)@.current_string_buf_loc + (buf@.len() - offset) <= usize::MAX,
    ensures
        ok == (decode_string(buf@, offset + 1) is Some),
        final(pj)@ == (ParsedJsonModel {
            tape: write_at(
                old(pj)@.tape,
                old(pj)@.current_loc as int,
                tape_word(old(pj)@.current_string_buf_loc as u64, 0x22),
            ),
            current_loc: old(pj)@.current_loc + 1,
            string_buf: if ok {
                overwrite(
                    old(pj)@.string_buf,
                    old(pj)@.current_string_buf_loc as int,
                    decode_string(buf@, offset + 1)->Some_0.0.push(0),
                )
            } else {
                old(pj)@.string_buf
            },
            current_string_buf_loc: if ok {
                old(pj)@.current_string_buf_loc + decode_string(buf@, offset + 1)->Some_0.0.len() + 1
            } else {
                old(pj)@.current_string_buf_loc
            },
            ..old(pj)@
        }),
{
    let len = buf.len();
    let start = pj.current_string_buf_loc();
    pj.write_tape(start as u64, 0x22);
    proof {
        lemma_decode_length(buf@, offset + 1);
    }
    let ghost s = buf@;
    let ghost pj1 = pj@;
    let mut out: Vec<u8> = Vec::new();
    let mut p = offset + 1;
    assert(prepend(out@, decode_string(s, p as int)) =~= decode_string(s, offset + 1)) by {
        if let Some((rest, end)) = decode_string(s, p as int) {
            assert(out@ + rest =~= rest);
        }
    }
    loop
        invariant
            s == buf@,
            len == s.len(),
            pj@ == pj1,
            pj1 == (ParsedJsonModel {
                tape: write_at(
                    old(pj)@.tape,
                    old(pj)@.current_loc as int,
                    tape_word(old(pj)@.current_string_buf_loc as u64, 0x22),
                ),
                current_loc: old(pj)@.current_loc + 1,
                ..old(pj)@
            }),
            pj1.current_string_buf_loc <= pj1.string_buf.len(),
            pj1.current_string_buf_loc + (len - offset) <= usize::MAX,
            decode_string(s, offset + 1) matches Some((b, e)) ==> b.len() <= e - (offset + 1) && e < len,
            !pj1.is_valid,
            offset < p,
            prepend(out@, decode_string(s, p as int)) == decode_string(s, offset + 1),
        decreases s.len() - p,
    {
        if p >= len {
            return false;
        }
        let b = buf[p];
        if b == 0x22 {
            assert(decode_string(s, offset + 1) == Some((out@, p as int)));
            out.push(0);
            pj.write_string(&out);
            return true;
        }
        let ghost before = out@;
        if b != 0x5c {
            out.push(b);
            proof {
                lemma_prepend_assoc(before, seq![b], decode_string(s, p + 1));
                assert(before + seq![b] =~= out@);
            }
            p = p + 1;
        } else {
            if len - p < 2 {
                return false;
            }
            let e = buf[p + 1];
            if e == 0x75 {
                match handle_unicode_codepoint(buf, p, &mut out) {
                    Some(q) => {
                        proof {
                            let bytes = unicode_escape(s, p as int)->Some_0.0;
                            lemma_prepend_assoc(before, bytes, decode_string(s, q as int));
                        }
                        p = q;
                    },
                    None => {
                        return false;
                    },
                }
            } else {
                let x = match escape_map(e) {
                    Some(x) => x,
                    None => {
                        return false;
                    },
                };
                out.push(x);
                proof {
                    lemma_prepend_assoc(before, seq![x], decode_string(s, p + 2));
                    assert(before + seq![x] =~= out@);
                }
                p = p + 2;
            }
        }
    }
}

/// The byte that a backslash followed by `e` stands for, when `e` is not `u`.
fn escape_map(e: u8) -> (r: Option<u8>)
    ensures
        r == escape_byte(e),
{
    if e == 0x22 {
        Some(0x22)
    } else if e == 0x5c {
        Some(0x5c)
    } else if e == 0x2f {
        Some(0x2f)
    } else if e == 0x62 {
        Some(0x08)
    } else if e == 0x66 {
        Some(0x0c)
    } else if e == 0x6e {
        Some(0x0a)
    } else if e == 0x72 {
        Some(0x0d)
    } else if e == 0x74 {
        Some(0x09)
    } else {
        None
    }
}

/// Whether `b` continues a UTF-8 sequence: `10xxxxxx`.
pub open spec fn utf8_continuation(b: u8) -> bool {
    0x80 <= b < 0xc0
}

/// The code point that the UTF-8 sequence `b` stands for: one byte below 0x80, or a
/// lead byte of two, three or four bytes followed by that many continuation bytes,
/// each contributing its low bits; `None` for anything else.
pub open spec fn utf8_decode(b: Seq<u8>) -> Option<int> {
    if b.len() == 1 && b[0] < 0x80 {
        Some(b[0] as int)
    } else if b.len() == 2 && 0xc0 <= b[0] < 0xe0 && utf8_continuation(b[1]) {
        Some((b[0] - 0xc0) * 64 + (b[1] - 0x80))
    } else if b.len() == 3 && 0xe0 <= b[0] < 0xf0 && utf8_continuation(b[1]) && utf8_continuation(
        b[2],
    ) {
        Some((b[0] - 0xe0) * 4096 + (b[1] - 0x80) * 64 + (b[2] - 0x80))
    } else if b.len() == 4 && 0xf0 <= b[0] < 0xf8 && utf8_continuation(b[1]) && utf8_continuation(
        b[2],
    ) && utf8_continuation(b[3]) {
        Some((b[0] - 0xf0) * 262144 + (b[1] - 0x80) * 4096 + (b[2] - 0x80) * 64 + (b[3] - 0x80))
    } else {
        None
    }
}

/// The bytes written for a code point are its shortest UTF-8 form: decoding them
/// gives the code point back, in one byte below 0x80, two below 0x800, three below
/// 0x10000 and four above.
pub proof fn lemma_utf8_roundtrip(cp: u32)
    requires
        cp <= 0x10ffff,
    ensures
        utf8_decode(utf8_encode(cp)) == Some(cp as int),
        utf8_encode(cp).len() == (if cp < 0x80 {
            1int
        } else if cp < 0x800 {
            2int
        } else if cp < 0x10000 {
            3int
        } else {
            4int
        }),
{
    let e = utf8_encode(cp);
    if cp < 0x80 {
        let b0 = cp as u8;
        assert(b0 < 0x80 && b0 == cp) by (bit_vector)
            requires
                b0 == cp as u8,
                cp < 0x80,
        ;
    } else if cp < 0x800 {
        let b0 = (0xc0 | (cp >> 6u32)) as u8;
        let b1 = (0x80 | (cp & 0x3f)) as u8;
        assert(0xc0 <= b0 < 0xe0 && 0x80 <= b1 < 0xc0 && (b0 - 0xc0) * 64 + (b1 - 0x80) == cp)
            by (bit_vector)
            requires
                b0 == (0xc0 | (cp >> 6u32)) as u8,
                b1 == (0x80 | (cp & 0x3f)) as u8,
                0x80 <= cp < 0x800,
        ;
        assert(e =~= seq![b0, b1]);
    } else if cp < 0x10000 {
        let b0 = (0xe0 | (cp >> 12u32)) as u8;
        let b1 = (0x80 | ((cp >> 6u32) & 0x3f)) as u8;
        let b2 = (0x80 | (cp & 0x3f)) as u8;
        assert(0xe0 <= b0 < 0xf0 && 0x80 <= b1 < 0xc0 && 0x80 <= b2 < 0xc0 && (b0 - 0xe0) * 4096
            + (b1 - 0x80) * 64 + (b2 - 0x80) == cp) by (bit_vector)
            requires
                b0 == (0xe0 | (cp >> 12u32)) as u8,
                b1 == (0x80 | ((cp >> 6u32) & 0x3f)) as u8,
                b2 == (0x80 | (cp & 0x3f)) as u8,
                0x800 <= cp < 0x10000,
        ;
        assert(e =~= seq![b0, b1, b2]);
    } else {
        let b0 = (0xf0 | (cp >> 18u32)) as u8;
        let b1 = (0x80 | ((cp >> 12u32) & 0x3f)) as u8;
        let b2 = (0x80 | ((cp >> 6u32) & 0x3f)) as u8;
        let b3 = (0x80 | (cp & 0x3f)) as u8;
        assert(0xf0 <= b0 < 0xf8 && 0x80 <= b1 < 0xc0 && 0x80 <= b2 < 0xc0 && 0x80 <= b3 < 0xc0 && (
        b0 - 0xf0) * 262144 + (b1 - 0x80) * 4096 + (b2 - 0x80) * 64 + (b3 - 0x80) == cp)
            by (bit_vector)
            requires
                b0 == (0xf0 | (cp >> 18u32)) as u8,
                b1 == (0x80 | ((cp >> 12u32) & 0x3f)) as u8,
                b2 == (0x80 | ((cp >> 6u32) & 0x3f)) as u8,
                b3 == (0x80 | (cp & 0x3f)) as u8,
                0x10000 <= cp <= 0x10ffff,
        ;
        assert(e =~= seq![b0, b1, b2, b3]);
    }
}

/// A `\u` escape of four hexadecimal digits that is not a high surrogate decodes to
/// the UTF-8 bytes of its code point, and decoding goes on after the six bytes of
/// the escape.
pub proof fn lemma_unicode_escape_utf8(s: Seq<u8>, p: int, cp: u32)
    requires
        0 <= p,
        p + 1 < s.len(),
        s[p] == 0x5c,
        s[p + 1] == 0x75,
        hex4_at(s, p + 2) == Some(cp),
        !(0xd800 <= cp < 0xdc00),
    ensures
        unicode_escape(s, p) matches Some((bytes, q)) && q == p + 6 && utf8_decode(bytes) == Some(
            cp as int,
        ) && decode_string(s, p) == prepend(bytes, decode_string(s, p + 6)),
{
    assert(cp < 0x10000);
    lemma_utf8_roundtrip(cp);
}

/// A `\u` escape of a high surrogate followed by the `\u` escape of a low surrogate
/// decodes to the UTF-8 bytes of the code point that the pair stands for, and
/// decoding goes on after the twelve bytes of the pair.
pub proof fn lemma_surrogate_pair_utf8(s: Seq<u8>, p: int, hi: u32, lo: u32)
    requires
        0 <= p,
        p + 7 < s.len(),
        s[p] == 0x5c,
        s[p + 1] == 0x75,
        s[p + 6] == 0x5c,
        s[p + 7] == 0x75,
        hex4_at(s, p + 2) == Some(hi),
        hex4_at(s, p + 8) == Some(lo),
        0xd800 <= hi < 0xdc00,
        0xdc00 <= lo < 0xe000,
    ensures
        unicode_escape(s, p) matches Some((bytes, q)) && q == p + 12 && utf8_decode(bytes) == Some(
            0x10000 + (hi - 0xd800) * 1024 + (lo - 0xdc00),
        ) && decode_string(s, p) == prepend(bytes, decode_string(s, p + 12)),
{
    let cp = ((hi - 0xd800) * 1024 + (lo - 0xdc00) + 0x10000) as u32;
    assert(cp <= 0x10ffff);
    lemma_utf8_roundtrip(cp);
}

/// The short escapes of JSON decode to the bytes they stand for: `\"` to 0x22, `\\`
/// to 0x5c, `\/` to 0x2f, `\b` to 0x08, `\f` to 0x0c, `\n` to 0x0a, `\r` to 0x0d and
/// `\t` to 0x09, and decoding goes on after the two bytes of the escape. Any other
/// byte after a backslash, but `u`, makes the string invalid.
pub proof fn lemma_short_escapes(s: Seq<u8>, p: int)
    requires
        0 <= p,
        p + 1 < s.len(),
        s[p] == 0x5c,
    ensures
        s[p + 1] == 0x22 ==> decode_string(s, p) == prepend(seq![0x22u8], decode_string(s, p + 2)),
        s[p + 1] == 0x5c ==> decode_string(s, p) == prepend(seq![0x5cu8], decode_string(s, p + 2)),
        s[p + 1] == 0x2f ==> decode_string(s, p) == prepend(seq![0x2fu8], decode_string(s, p + 2)),
        s[p + 1] == 0x62 ==> decode_string(s, p) == prepend(seq![0x08u8], decode_string(s, p + 2)),
        s[p + 1] == 0x66 ==> decode_string(s, p) == prepend(seq![0x0cu8], decode_string(s, p + 2)),
        s[p + 1] == 0x6e ==> decode_string(s, p) == prepend(seq![0x0au8], decode_string(s, p + 2)),
        s[p + 1] == 0x72 ==> decode_string(s, p) == prepend(seq![0x0du8], decode_string(s, p + 2)),
        s[p + 1] == 0x74 ==> decode_string(s, p) == prepend(seq![0x09u8], decode_string(s, p + 2)),
        !(s[p + 1] == 0x22 || s[p + 1] == 0x5c || s[p + 1] == 0x2f || s[p + 1] == 0x62 || s[p + 1]
            == 0x66 || s[p + 1] == 0x6e || s[p + 1] == 0x72 || s[p + 1] == 0x74 || s[p + 1]
            == 0x75) ==> decode_string(s, p) is None,
{
}

/// The hexadecimal digits `0`-`9`, `a`-`f` and `A`-`F` have the values 0 to 15, in
/// that order; no other byte is a hexadecimal digit. Four digits read as a number
/// in base 16, the first digit the most significant.
pub proof fn lemma_hex_digits(b: u8, s: Seq<u8>, p: int)
    ensures
        0x30 <= b <= 0x39 ==> hex_digit_value(b) == Some((b - 0x30) as u32),
        0x61 <= b <= 0x66 ==> hex_digit_value(b) == Some((b - 0x57) as u32),
        0x41 <= b <= 0x46 ==> hex_digit_value(b) == Some((b - 0x37) as u32),
        !((0x30 <= b <= 0x39) || (0x61 <= b <= 0x66) || (0x41 <= b <= 0x46)) ==> hex_digit_value(b)
            is None,
        hex4_at(s, p) matches Some(v) ==> 0 <= p && p + 4 <= s.len() && v == hex_digit_value(
            s[p],
        )->Some_0 * 4096 + hex_digit_value(s[p + 1])->Some_0 * 256 + hex_digit_value(
            s[p + 2],
        )->Some_0 * 16 + hex_digit_value(s[p + 3])->Some_0,
{
}

} // verus!
