use vstd::prelude::*;

use crate::error::SimdJsonError;
use crate::parsed_json::{overwrite, tape_word, write_at, ParsedJson, ParsedJsonModel};
use crate::utils::char::{is_not_structural_or_whitespace_or_null, is_structural_byte, is_whitespace_byte};
use crate::utils::string_parsing::{decode_string, parse_string};

verus! {

// ---------------------------------------------------------------------------
// Atoms.
// ---------------------------------------------------------------------------

/// The byte at position `p` of the input; past its end the input reads as zero bytes.
pub open spec fn input_byte(s: Seq<u8>, p: int) -> u8 {
    if 0 <= p < s.len() {
        s[p]
    } else {
        0u8
    }
}

/// Whether `b` may follow an atom: a structural or whitespace byte, or the zero
/// byte that stands past the end of the input.
pub open spec fn ends_atom(b: u8) -> bool {
    is_structural_byte(b) || is_whitespace_byte(b) || b == 0
}

/// The eight input bytes at `loc`, read as a little-endian word.
pub open spec fn input_word(s: Seq<u8>, loc: int) -> u64 {
    (input_byte(s, loc) as u64) | ((input_byte(s, loc + 1) as u64) << 8u64) | ((input_byte(s, loc + 2)
        as u64) << 16u64) | ((input_byte(s, loc + 3) as u64) << 24u64) | ((input_byte(s, loc + 4)
        as u64) << 32u64) | ((input_byte(s, loc + 5) as u64) << 40u64) | ((input_byte(s, loc + 6)
        as u64) << 48u64) | ((input_byte(s, loc + 7) as u64) << 56u64)
}

/// The byte at `loc + k`, a zero byte past the end of the input.
fn load_input_byte(buf: &[u8], loc: usize, k: usize) -> (b: u8)
    ensures
        b == input_byte(buf@, loc + k),
{
    if loc < buf.len() && k < buf.len() - loc {
        buf[loc + k]
    } else {
        0
    }
}

/// The eight bytes at `loc`, read as a little-endian word.
fn load_word(buf: &[u8], loc: usize) -> (w: u64)
    ensures
        w == input_word(buf@, loc as int),
{
    (load_input_byte(buf, loc, 0) as u64) | ((load_input_byte(buf, loc, 1) as u64) << 8u64) | ((
    load_input_byte(buf, loc, 2) as u64) << 16u64) | ((load_input_byte(buf, loc, 3) as u64)
        << 24u64) | ((load_input_byte(buf, loc, 4) as u64) << 32u64) | ((load_input_byte(buf, loc, 5)
        as u64) << 40u64) | ((load_input_byte(buf, loc, 6) as u64) << 48u64) | ((load_input_byte(
        buf,
        loc,
        7,
    ) as u64) << 56u64)
}

/// Whether `true` stands at `loc`, followed by a byte that may end an atom.
fn is_valid_true_atom(buf: &[u8], loc: usize) -> (ok: bool)
    ensures
        ok == true_atom_at(buf@, loc as int),
{
    // "true    " read as a little-endian word.
    let tv: u64 = 0x2020202065757274;
    let mask4: u64 = 0x00000000ffffffff;
    let locval = load_word(buf, loc);
    let mut error = ((locval & mask4) ^ tv) as u32;
    let ghost b0 = input_byte(buf@, loc as int);
    let ghost b1 = input_byte(buf@, loc + 1);
    let ghost b2 = input_byte(buf@, loc + 2);
    let ghost b3 = input_byte(buf@, loc + 3);
    let ghost b4 = input_byte(buf@, loc + 4);
    let ghost b5 = input_byte(buf@, loc + 5);
    let ghost b6 = input_byte(buf@, loc + 6);
    let ghost b7 = input_byte(buf@, loc + 7);
    assert((((locval & mask4) ^ tv) as u32 == 0) == (b0 == 0x74 && b1 == 0x72 && b2 == 0x75 && b3
        == 0x65)) by (bit_vector)
        requires
            locval == (b0 as u64) | ((b1 as u64) << 8u64) | ((b2 as u64) << 16u64) | ((b3 as u64)
                << 24u64) | ((b4 as u64) << 32u64) | ((b5 as u64) << 40u64) | ((b6 as u64) << 48u64)
                | ((b7 as u64) << 56u64),
            mask4 == 0x00000000ffffffff,
            tv == 0x2020202065757274,
    ;
    let e = is_not_structural_or_whitespace_or_null(load_input_byte(buf, loc, 4));
    error = error | e;
    assert((error == 0) == (((locval & mask4) ^ tv) as u32 == 0 && e == 0)) by (bit_vector)
        requires
            error == (((locval & mask4) ^ tv) as u32) | e,
    ;
    error == 0
}

/// Whether `false` stands at `loc`, followed by a byte that may end an atom.
fn is_valid_false_atom(buf: &[u8], loc: usize) -> (ok: bool)
    ensures
        ok == false_atom_at(buf@, loc as int),
{
    // "false   " read as a little-endian word.
    let fv: u64 = 0x20202065736c6166;
    let mask5: u64 = 0x000000ffffffffff;
    let locval = load_word(buf, loc);
    let mut error: u64 = (locval & mask5) ^ (fv & mask5);
    let ghost b0 = input_byte(buf@, loc as int);
    let ghost b1 = input_byte(buf@, loc + 1);
    let ghost b2 = input_byte(buf@, loc + 2);
    let ghost b3 = input_byte(buf@, loc + 3);
    let ghost b4 = input_byte(buf@, loc + 4);
    let ghost b5 = input_byte(buf@, loc + 5);
    let ghost b6 = input_byte(buf@, loc + 6);
    let ghost b7 = input_byte(buf@, loc + 7);
    assert(((locval & mask5) ^ (fv & mask5) == 0) == (b0 == 0x66 && b1 == 0x61 && b2 == 0x6c && b3
        == 0x73 && b4 == 0x65)) by (bit_vector)
        requires
            locval == (b0 as u64) | ((b1 as u64) << 8u64) | ((b2 as u64) << 16u64) | ((b3 as u64)
                << 24u64) | ((b4 as u64) << 32u64) | ((b5 as u64) << 40u64) | ((b6 as u64) << 48u64)
                | ((b7 as u64) << 56u64),
            mask5 == 0x000000ffffffffff,
            fv == 0x20202065736c6166,
    ;
    let e = is_not_structural_or_whitespace_or_null(load_input_byte(buf, loc, 5));
    error = error | (e as u64);
    assert((error == 0) == ((locval & mask5) ^ (fv & mask5) == 0 && e == 0)) by (bit_vector)
        requires
            error == ((locval & mask5) ^ (fv & mask5)) | (e as u64),
    ;
    error == 0
}

/// Whether `null` stands at `loc`, followed by a byte that may end an atom.
fn is_valid_null_atom(buf: &[u8], loc: usize) -> (ok: bool)
    ensures
        ok == null_atom_at(buf@, loc as int),
{
    // "null    " read as a little-endian word.
    let nv: u64 = 0x202020206c6c756e;
    let mask4: u64 = 0x00000000ffffffff;
    let locval = load_word(buf, loc);
    let mut error = ((locval & mask4) ^ nv) as u32;
    let ghost b0 = input_byte(buf@, loc as int);
    let ghost b1 = input_byte(buf@, loc + 1);
    let ghost b2 = input_byte(buf@, loc + 2);
    let ghost b3 = input_byte(buf@, loc + 3);
    let ghost b4 = input_byte(buf@, loc + 4);
    let ghost b5 = input_byte(buf@, loc + 5);
    let ghost b6 = input_byte(buf@, loc + 6);
    let ghost b7 = input_byte(buf@, loc + 7);
    assert((((locval & mask4) ^ nv) as u32 == 0) == (b0 == 0x6e && b1 == 0x75 && b2 == 0x6c && b3
        == 0x6c)) by (bit_vector)
        requires
            locval == (b0 as u64) | ((b1 as u64) << 8u64) | ((b2 as u64) << 16u64) | ((b3 as u64)
                << 24u64) | ((b4 as u64) << 32u64) | ((b5 as u64) << 40u64) | ((b6 as u64) << 48u64)
                | ((b7 as u64) << 56u64),
            mask4 == 0x00000000ffffffff,
            nv == 0x202020206c6c756e,
    ;
    let e = is_not_structural_or_whitespace_or_null(load_input_byte(buf, loc, 4));
    error = error | e;
    assert((error == 0) == (((locval & mask4) ^ nv) as u32 == 0 && e == 0)) by (bit_vector)
        requires
            error == (((locval & mask4) ^ nv) as u32) | e,
    ;
    error == 0
}

// ---------------------------------------------------------------------------
// What the tape builder does.
// ---------------------------------------------------------------------------

/// Where the tape builder goes when a scope closes.
#[derive(Clone, Copy, Debug, PartialEq, Eq, Structural)]
pub enum ReturnAddress {
    StartContinue,
    ObjectContinue,
    ArrayContinue,
}

/// The input position of the structural index `i`; past the index list, the end
/// of the input.
pub open spec fn index_at(m: ParsedJsonModel, s: Seq<u8>, i: int) -> int {
    if 0 <= i < m.structural_indexes.len() {
        m.structural_indexes[i] as int
    } else {
        s.len() as int
    }
}

/// The byte at the structural index `i`.
pub open spec fn char_at(m: ParsedJsonModel, s: Seq<u8>, i: int) -> u8 {
    input_byte(s, index_at(m, s, i))
}

/// `m` with the word `(v, c)` written at the write position of its tape.
pub open spec fn write_word(m: ParsedJsonModel, v: u64, c: u8) -> ParsedJsonModel {
    ParsedJsonModel {
        tape: write_at(m.tape, m.current_loc as int, tape_word(v, c)),
        current_loc: m.current_loc + 1,
        ..m
    }
}

/// `m` with the bits of `v` set in its tape word at `loc`.
pub open spec fn annotated(m: ParsedJsonModel, loc: int, v: u64) -> ParsedJsonModel {
    ParsedJsonModel { tape: m.tape.update(loc, m.tape[loc] | v), ..m }
}

/// `m` with `loc` recorded as the scope offset of level `d`.
pub open spec fn with_scope(m: ParsedJsonModel, d: int, loc: u32) -> ParsedJsonModel {
    ParsedJsonModel { containing_scope_offset: m.containing_scope_offset.take(d).push(loc), ..m }
}

/// `m` prepared for a new parse: write positions back at the start, not valid.
pub open spec fn init_model(m: ParsedJsonModel) -> ParsedJsonModel {
    ParsedJsonModel { current_loc: 0, current_string_buf_loc: 0, is_valid: false, ..m }
}

/// Whether the string opened at `offset` is closed and its escapes are valid.
pub open spec fn string_ok(s: Seq<u8>, offset: int) -> bool {
    decode_string(s, offset + 1) is Some
}

/// `m` after the string opened at `offset` is parsed.
pub open spec fn after_string(m: ParsedJsonModel, s: Seq<u8>, offset: int) -> ParsedJsonModel {
    let decoded = decode_string(s, offset + 1)->Some_0.0;
    ParsedJsonModel {
        tape: write_at(
            m.tape,
            m.current_loc as int,
            tape_word(m.current_string_buf_loc as u64, 0x22),
        ),
        current_loc: m.current_loc + 1,
        string_buf: if string_ok(s, offset) {
            overwrite(m.string_buf, m.current_string_buf_loc as int, decoded.push(0))
        } else {
            m.string_buf
        },
        current_string_buf_loc: if string_ok(s, offset) {
            m.current_string_buf_loc + decoded.len() + 1
        } else {
            m.current_string_buf_loc
        },
        ..m
    }
}

/// Whether `true`, followed by a byte that may end an atom, stands at `loc`.
pub open spec fn true_atom_at(s: Seq<u8>, loc: int) -> bool {
    input_byte(s, loc) == 0x74 && input_byte(s, loc + 1) == 0x72 && input_byte(s, loc + 2) == 0x75
        && input_byte(s, loc + 3) == 0x65 && ends_atom(input_byte(s, loc + 4))
}

/// Whether `false`, followed by a byte that may end an atom, stands at `loc`.
pub open spec fn false_atom_at(s: Seq<u8>, loc: int) -> bool {
    input_byte(s, loc) == 0x66 && input_byte(s, loc + 1) == 0x61 && input_byte(s, loc + 2) == 0x6c
        && input_byte(s, loc + 3) == 0x73 && input_byte(s, loc + 4) == 0x65 && ends_atom(
        input_byte(s, loc + 5),
    )
}

/// Whether `null`, followed by a byte that may end an atom, stands at `loc`.
pub open spec fn null_atom_at(s: Seq<u8>, loc: int) -> bool {
    input_byte(s, loc) == 0x6e && input_byte(s, loc + 1) == 0x75 && input_byte(s, loc + 2) == 0x6c
        && input_byte(s, loc + 3) == 0x6c && ends_atom(input_byte(s, loc + 4))
}

/// The root scope closes: its first word gets the write position of the tape, a
/// closing root word pointing at it is written there, and the parse is valid.
pub open spec fn succeed_model(m: ParsedJsonModel) -> ParsedJsonModel {
    let root = m.containing_scope_offset[0];
    ParsedJsonModel {
        is_valid: true,
        ..write_word(annotated(m, root as int, m.current_loc as u64), root as u64, 0x72)
    }
}

/// Back at the root, with `i` structural indexes read: the parse succeeds when
/// only the final pseudo-structural index is left.
pub open spec fn start_continue_outcome(m: ParsedJsonModel, i: int) -> (
    Result<(), SimdJsonError>,
    ParsedJsonModel,
) {
    if i + 1 == m.n_structural_indexes {
        (Ok(()), succeed_model(m))
    } else {
        (Err(SimdJsonError::TapeError), m)
    }
}

/// `m` once the scope of level `d` is closed by `c`: a closing word that points at
/// the opening word, whose payload gets the position after the closing word.
pub open spec fn closed_scope(m: ParsedJsonModel, d: int, c: u8) -> ParsedJsonModel {
    let open = m.containing_scope_offset[d];
    annotated(write_word(m, open as u64, c), open as int, (m.current_loc + 1) as u64)
}

/// The scope at nesting depth `depth` is closed by `c`, with `i` structural indexes
/// read; then the parse goes on where `ret[depth - 1]` says.
pub open spec fn scope_end_outcome(
    s: Seq<u8>,
    m: ParsedJsonModel,
    i: int,
    c: u8,
    depth: int,
    ret: Seq<ReturnAddress>,
) -> (Result<(), SimdJsonError>, ParsedJsonModel)
    decreases depth, 0int,
{
    if depth <= 0 {
        (Err(SimdJsonError::TapeError), m)
    } else {
        let m1 = closed_scope(m, depth - 1, c);
        match ret[depth - 1] {
            ReturnAddress::StartContinue => start_continue_outcome(m1, i),
            ReturnAddress::ObjectContinue => (Err(SimdJsonError::TapeError), m1),
            ReturnAddress::ArrayContinue => array_continue_outcome(s, m1, i, depth - 1, ret),
        }
    }
}

/// After a value inside an array at nesting depth `depth`, with `i` structural
/// indexes read: `]` closes the array, anything else is refused.
pub open spec fn array_continue_outcome(
    s: Seq<u8>,
    m: ParsedJsonModel,
    i: int,
    depth: int,
    ret: Seq<ReturnAddress>,
) -> (Result<(), SimdJsonError>, ParsedJsonModel)
    decreases depth, 1int,
{
    if depth <= 0 {
        (Err(SimdJsonError::TapeError), m)
    } else if char_at(m, s, i) == 0x5d {
        scope_end_outcome(s, m, i + 1, 0x5d, depth, ret)
    } else {
        (Err(SimdJsonError::TapeError), m)
    }
}

/// The return addresses while the top-level scope is open.
pub open spec fn top_level_returns() -> Seq<ReturnAddress> {
    seq![ReturnAddress::StartContinue, ReturnAddress::StartContinue]
}

/// Inside the top-level object, at structural index `i`: a key string is parsed
/// and refused, `}` closes the object, anything else is refused.
pub open spec fn object_begin_outcome(s: Seq<u8>, m: ParsedJsonModel, i: int) -> (
    Result<(), SimdJsonError>,
    ParsedJsonModel,
) {
    let c = char_at(m, s, i);
    if c == 0x22 {
        (Err(SimdJsonError::TapeError), after_string(m, s, index_at(m, s, i)))
    } else if c == 0x7d {
        scope_end_outcome(s, m, i + 1, c, 2, top_level_returns())
    } else {
        (Err(SimdJsonError::TapeError), m)
    }
}

/// Inside the top-level array, at structural index `i`: `]` closes the scope; a
/// value inside it is refused.
pub open spec fn array_begin_outcome(s: Seq<u8>, m: ParsedJsonModel, i: int) -> (
    Result<(), SimdJsonError>,
    ParsedJsonModel,
) {
    let c = char_at(m, s, i);
    if c == 0x5d {
        scope_end_outcome(s, m, i + 1, c, 2, top_level_returns())
    } else {
        (Err(SimdJsonError::TapeError), m)
    }
}

/// Whether `c` opens a number, which the tape builder accepts without checking it.
pub open spec fn unchecked_atom_start(c: u8) -> bool {
    (0x30 <= c <= 0x39) || c == 0x2d
}

/// What the tape builder returns on `s` from the state `m0`, and the state it leaves.
pub open spec fn machine_outcome(s: Seq<u8>, m0: ParsedJsonModel) -> (
    Result<(), SimdJsonError>,
    ParsedJsonModel,
) {
    let m = init_model(m0);
    if m.byte_capacity < s.len() {
        (Err(SimdJsonError::Capacity), m)
    } else {
        let m1 = write_word(with_scope(m, 0, 0), 0, 0x72);
        if m.depth_capacity < 1 {
            (Err(SimdJsonError::TapeError), m1)
        } else {
            let c = char_at(m1, s, 0);
            let idx = index_at(m1, s, 0);
            if c == 0x7b || c == 0x5b {
                let m2 = with_scope(m1, 1, 1);
                if m.depth_capacity < 2 {
                    (Err(SimdJsonError::TapeError), m2)
                } else if c == 0x7b {
                    object_begin_outcome(s, write_word(m2, 0, c), 1)
                } else {
                    array_begin_outcome(s, write_word(m2, 0, c), 1)
                }
            } else if c == 0x22 {
                if string_ok(s, idx) {
                    start_continue_outcome(after_string(m1, s, idx), 1)
                } else {
                    (Err(SimdJsonError::TapeError), after_string(m1, s, idx))
                }
            } else if c == 0x74 {
                if true_atom_at(s, idx) {
                    start_continue_outcome(write_word(m1, 0, c), 1)
                } else {
                    (Err(SimdJsonError::TapeError), m1)
                }
            } else if c == 0x66 {
                if false_atom_at(s, idx) {
                    start_continue_outcome(write_word(m1, 0, c), 1)
                } else {
                    (Err(SimdJsonError::TapeError), m1)
                }
            } else if c == 0x6e {
                if null_atom_at(s, idx) {
                    start_continue_outcome(write_word(m1, 0, c), 1)
                } else {
                    (Err(SimdJsonError::TapeError), m1)
                }
            } else if unchecked_atom_start(c) {
                (Ok(()), m1)
            } else {
                (Err(SimdJsonError::TapeError), m1)
            }
        }
    }
}

/// The bytes that may follow a literal: the JSON whitespace bytes space, tab, line
/// feed and carriage return, the structural bytes `{ } [ ] : ,`, and the zero byte.
pub open spec fn literal_follower(b: u8) -> bool {
    b == 0x20 || b == 0x09 || b == 0x0a || b == 0x0d || b == 0x7b || b == 0x7d || b == 0x5b || b
        == 0x5d || b == 0x3a || b == 0x2c || b == 0x00
}

/// The literals `true`, `false` and `null` are recognised at `loc` exactly when their
/// bytes stand there and are followed by the end of the input, whitespace, a
/// structural byte or the zero byte.
pub proof fn lemma_literals(s: Seq<u8>, loc: int)
    ensures
        true_atom_at(s, loc) <==> (0 <= loc && loc + 4 <= s.len() && s[loc] == 0x74 && s[loc + 1]
            == 0x72 && s[loc + 2] == 0x75 && s[loc + 3] == 0x65 && (loc + 4 == s.len()
            || literal_follower(s[loc + 4]))),
        false_atom_at(s, loc) <==> (0 <= loc && loc + 5 <= s.len() && s[loc] == 0x66 && s[loc + 1]
            == 0x61 && s[loc + 2] == 0x6c && s[loc + 3] == 0x73 && s[loc + 4] == 0x65 && (loc + 5
            == s.len() || literal_follower(s[loc + 5]))),
        null_atom_at(s, loc) <==> (0 <= loc && loc + 4 <= s.len() && s[loc] == 0x6e && s[loc + 1]
            == 0x75 && s[loc + 2] == 0x6c && s[loc + 3] == 0x6c && (loc + 4 == s.len()
            || literal_follower(s[loc + 4]))),
{
}

/// A document whose first structural byte is a digit `0` to `9` or `-` is accepted
/// at the root, without a tape word, when it fits the capacities.
pub proof fn lemma_number_root_accepted(s: Seq<u8>, m: ParsedJsonModel)
    requires
        s.len() <= m.byte_capacity,
        1 <= m.depth_capacity,
        (0x30 <= char_at(m, s, 0) <= 0x39) || char_at(m, s, 0) == 0x2d,
    ensures
        machine_outcome(s, m).0 == Ok::<(), SimdJsonError>(()),
        !machine_outcome(s, m).1.is_valid,
        machine_outcome(s, m).1.current_loc == 1,
{
}

/// A document made of one literal at its first structural position, and nothing
/// else, is accepted and leaves a valid parse.
pub proof fn lemma_literal_root_accepted(s: Seq<u8>, m: ParsedJsonModel)
    requires
        s.len() <= m.byte_capacity,
        1 <= m.depth_capacity,
        m.n_structural_indexes == 2,
        (char_at(m, s, 0) == 0x74 && true_atom_at(s, index_at(m, s, 0))) || (char_at(m, s, 0)
            == 0x66 && false_atom_at(s, index_at(m, s, 0))) || (char_at(m, s, 0) == 0x6e
            && null_atom_at(s, index_at(m, s, 0))),
    ensures
        machine_outcome(s, m).0 == Ok::<(), SimdJsonError>(()),
        machine_outcome(s, m).1.is_valid,
{
}

// ---------------------------------------------------------------------------
// The tape builder.
// ---------------------------------------------------------------------------

/// The abstract state of a tape builder.
pub ghost struct MachineModel {
    /// The number of structural indexes read.
    pub i: nat,
    /// The input position of the structural index read last.
    pub idx: nat,
    /// The byte at `idx`.
    pub c: u8,
    /// The nesting depth.
    pub depth: nat,
    /// The document.
    pub input: Seq<u8>,
    /// Its length.
    pub len: nat,
    /// Where each open scope returns to.
    pub ret_address: Seq<ReturnAddress>,
}

/// The tape builder: walks the structural indexes of a document and writes its tape.
pub struct UnifiedMachine<'a> {
    i: usize,
    idx: usize,
    c: u8,
    depth: usize,
    buf: &'a [u8],
    len: usize,
    ret_address: Vec<ReturnAddress>,
}

impl<'a> View for UnifiedMachine<'a> {
    type V = MachineModel;

    closed spec fn view(&self) -> MachineModel {
        MachineModel {
            i: self.i as nat,
            idx: self.idx as nat,
            c: self.c,
            depth: self.depth as nat,
            input: self.buf@,
            len: self.len as nat,
            ret_address: self.ret_address@,
        }
    }
}

/// Whether the return addresses of the scopes open up to `depth` can be taken:
/// back to the root only from level 1, into an array only from level 2 and up.
pub open spec fn returns_well_placed(ret: Seq<ReturnAddress>, depth: int) -> bool {
    &&& depth <= ret.len()
    &&& forall|k: int|
        1 <= k < depth ==> (#[trigger] ret[k] == ReturnAddress::StartContinue ==> k == 1) && (
        ret[k] == ReturnAddress::ArrayContinue ==> k >= 2)
}

/// The state of the `ParsedJson` under a tape builder at nesting `depth`: the open
/// scopes point before the write position, which is inside the tape and leaves
/// room for the closing words; the root word was written first, and only the root
/// scope points at it.
pub open spec fn tape_ready(m: ParsedJsonModel, depth: int) -> bool {
    &&& !m.is_valid
    &&& depth <= m.containing_scope_offset.len()
    &&& forall|k: int| 0 <= k < depth ==> #[trigger] m.containing_scope_offset[k] < m.current_loc
    &&& forall|k: int| 1 <= k < depth ==> #[trigger] m.containing_scope_offset[k] >= 1
    &&& m.containing_scope_offset[0] == 0
    &&& 1 <= m.current_loc <= m.tape.len()
    &&& m.current_loc + depth + 1 < u32::MAX
    &&& m.tape[0] == tape_word(0, 0x72)
}

impl<'a> UnifiedMachine<'a> {
    /// A tape builder that has not started.
    pub open spec fn is_fresh(&self) -> bool {
        &&& self@.i == 0
        &&& self@.depth == 0
        &&& self@.ret_address.len() == 0
        &&& self@.len == self@.input.len()
    }

    /// The state inside the top-level scope.
    spec fn in_scope(&self, m: ParsedJsonModel) -> bool {
        &&& self.len == self.buf@.len()
        &&& self.depth == 2
        &&& self.ret_address@ == top_level_returns()
        &&& m.containing_scope_offset == seq![0u32, 1u32]
        &&& m.current_loc == 2
        &&& m.tape.len() >= 2
        &&& m.tape[0] == tape_word(0, 0x72)
        &&& m.current_string_buf_loc == 0
        &&& m.string_buf.len() >= 0
        &&& !m.is_valid
    }

    /// A tape builder for `buf`: nothing read, depth 0, no open scope.
    pub fn new(buf: &'a [u8]) -> (m: UnifiedMachine<'a>)
        ensures
            m@ == (MachineModel {
                i: 0,
                idx: 0,
                c: 0,
                depth: 0,
                input: buf@,
                len: buf@.len(),
                ret_address: Seq::empty(),
            }),
    {
        UnifiedMachine { i: 0, idx: 0, c: 0, depth: 0, buf, len: buf.len(), ret_address: Vec::new() }
    }

    /// Builds the tape of the document into `pj`, from its structural indexes.
    pub fn run(&mut self, pj: &mut ParsedJson) -> (r: Result<(), SimdJsonError>)
        requires
            old(self).is_fresh(),
        ensures
            (r, final(pj)@) == machine_outcome(old(self)@.input, old(pj)@),
    {
        let ghost s = self.buf@;
        pj.init();
        if pj.byte_capacity() < self.len {
            return Err(SimdJsonError::Capacity);
        }
        self.ret_address = Vec::with_capacity(pj.depth_capacity());
        self.ret_address.push(ReturnAddress::StartContinue);
        let loc = pj.get_current_loc();
        pj.set_scope_offset(self.depth, loc);
        pj.write_tape(0, 0x72);
        self.depth = self.depth + 1;
        if self.depth > pj.depth_capacity() {
            return self.fail();
        }
        self.update_char(pj);
        if self.c == 0x7b || self.c == 0x5b {
            let loc = pj.get_current_loc();
            pj.set_scope_offset(self.depth, loc);
            self.ret_address.push(ReturnAddress::StartContinue);
            self.depth = self.depth + 1;
            if self.depth > pj.depth_capacity() {
                return self.fail();
            }
            pj.write_tape(0, self.c);
            assert(pj@.containing_scope_offset =~= seq![0u32, 1u32]);
            assert(self.ret_address@ =~= top_level_returns());
            if self.c == 0x7b {
                self.object_begin(pj)
            } else {
                self.array_begin(pj)
            }
        } else if self.c == 0x22 {
            if !parse_string(self.buf, pj, self.idx) {
                return self.fail();
            }
            self.start_continue(pj)
        } else if self.c == 0x74 {
            if !is_valid_true_atom(self.buf, self.idx) {
                return self.fail();
            }
            pj.write_tape(0, self.c);
            self.start_continue(pj)
        } else if self.c == 0x66 {
            if !is_valid_false_atom(self.buf, self.idx) {
                return self.fail();
            }
            pj.write_tape(0, self.c);
            self.start_continue(pj)
        } else if self.c == 0x6e {
            if !is_valid_null_atom(self.buf, self.idx) {
                return self.fail();
            }
            pj.write_tape(0, self.c);
            self.start_continue(pj)
        } else if (0x30 <= self.c && self.c <= 0x39) || self.c == 0x2d {
            Ok(())
        } else {
            self.fail()
        }
    }

    /// Reads the next structural index and the byte there.
    fn update_char(&mut self, pj: &ParsedJson)
        requires
            old(self).i < usize::MAX,
            old(self).len == old(self).buf@.len(),
        ensures
            final(self)@ == (MachineModel {
                i: old(self)@.i + 1,
                idx: index_at(pj@, old(self)@.input, old(self)@.i as int) as nat,
                c: char_at(pj@, old(self)@.input, old(self)@.i as int),
                ..old(self)@
            }),
            final(self).buf == old(self).buf,
    {
        if self.i < pj.structural_indexes_len() {
            self.idx = pj.structural_index(self.i) as usize;
        } else {
            self.idx = self.len;
        }
        self.i = self.i + 1;
        self.c = load_input_byte(self.buf, self.idx, 0);
    }

    /// Refuses the document.
    fn fail(&mut self) -> (r: Result<(), SimdJsonError>)
        ensures
            r == Err::<(), SimdJsonError>(SimdJsonError::TapeError),
            *final(self) == *old(self),
    {
        Err(SimdJsonError::TapeError)
    }

    /// Closes the root scope, which brings the depth to 0, and marks the parse valid.
    fn succeed(&mut self, pj: &mut ParsedJson) -> (r: Result<(), SimdJsonError>)
        requires
            old(self).depth == 1,
            old(pj)@.containing_scope_offset.len() >= 1,
            old(pj)@.containing_scope_offset[0] == 0,
            1 <= old(pj)@.current_loc <= old(pj)@.tape.len(),
            old(pj)@.current_loc < u32::MAX,
            old(pj)@.tape[0] == tape_word(0, 0x72),
            !old(pj)@.is_valid,
        ensures
            r == Ok::<(), SimdJsonError>(()),
            final(self)@ == (MachineModel { depth: 0, ..old(self)@ }),
            final(self).buf == old(self).buf,
            final(pj)@ == succeed_model(old(pj)@),
    {
        self.depth = self.depth - 1;
        let root = pj.scope_offset(self.depth);
        let loc = pj.get_current_loc();
        pj.annotate_previous_loc(root as usize, loc as u64);
        pj.write_tape(root as u64, 0x72);
        proof {
            let w = tape_word(0, 0x72) | (loc as u64);
            assert((w >> 56u64) as u8 == 0x72u8 && w & 0xFFFFFFFFFFFFFFu64 == loc as u64) by (bit_vector)
                requires
                    w == (0u64 | ((0x72u8 as u64) << 56u64)) | (loc as u64),
                    loc <= 0xffff_ffff,
            ;
        }
        pj.set_valid();
        Ok(())
    }

    /// Back at the root: succeeds when only the final pseudo-structural index is left.
    fn start_continue(&mut self, pj: &mut ParsedJson) -> (r: Result<(), SimdJsonError>)
        requires
            old(self).depth == 1,
            old(self).i < usize::MAX,
            old(pj)@.containing_scope_offset.len() >= 1,
            old(pj)@.containing_scope_offset[0] == 0,
            1 <= old(pj)@.current_loc <= old(pj)@.tape.len(),
            old(pj)@.current_loc < u32::MAX,
            old(pj)@.tape[0] == tape_word(0, 0x72),
            !old(pj)@.is_valid,
        ensures
            (r, final(pj)@) == start_continue_outcome(old(pj)@, old(self).i as int),
    {
        if self.i + 1 == pj.n_structural_indexes() as usize {
            self.succeed(pj)
        } else {
            self.fail()
        }
    }

    /// Inside the top-level object.
    fn object_begin(&mut self, pj: &mut ParsedJson) -> (r: Result<(), SimdJsonError>)
        requires
            old(self).in_scope(old(pj)@),
            old(self).i < 4,
        ensures
            (r, final(pj)@) == object_begin_outcome(old(self).buf@, old(pj)@, old(self).i as int),
    {
        self.update_char(pj);
        if self.c == 0x22 {
            if !parse_string(self.buf, pj, self.idx) {
                return self.fail();
            }
            self.object_key_state(pj)
        } else if self.c == 0x7d {
            proof {
                self.lemma_in_scope_ready(pj@);
            }
            self.scope_end(pj)
        } else {
            self.fail()
        }
    }

    proof fn lemma_in_scope_ready(&self, m: ParsedJsonModel)
        requires
            self.len == self.buf@.len(),
            self.depth == 2,
            self.ret_address@ == top_level_returns(),
            m.containing_scope_offset == seq![0u32, 1u32],
            m.current_loc == 2,
            m.tape.len() >= 2,
            m.tape[0] == tape_word(0, 0x72),
            !m.is_valid,
        ensures
            returns_well_placed(self.ret_address@, self.depth as int),
            tape_ready(m, self.depth as int),
    {
    }

    /// After a key: a colon and a value are expected; nothing is accepted.
    fn object_key_state(&mut self, pj: &ParsedJson) -> (r: Result<(), SimdJsonError>)
        requires
            old(self).i < 8,
            old(self).len == old(self).buf@.len(),
        ensures
            r == Err::<(), SimdJsonError>(SimdJsonError::TapeError),
    {
        self.update_char(pj);
        if self.c != 0x3a {
            return self.fail();
        }
        self.update_char(pj);
        self.fail()
    }

    /// After a value inside an object: nothing is accepted.
    fn object_continue(&mut self, pj: &ParsedJson) -> (r: Result<(), SimdJsonError>)
        requires
            old(self).i < usize::MAX,
            old(self).len == old(self).buf@.len(),
        ensures
            r == Err::<(), SimdJsonError>(SimdJsonError::TapeError),
    {
        self.update_char(pj);
        self.fail()
    }

    /// Closes the scope at the current depth with the byte `c`: a closing word that
    /// points at the opening word, whose payload gets the position after the
    /// closing word; then goes where the enclosing scope returns to.
    fn scope_end(&mut self, pj: &mut ParsedJson) -> (r: Result<(), SimdJsonError>)
        requires
            old(self).len == old(self).buf@.len(),
            old(self).depth >= 2,
            returns_well_placed(old(self)@.ret_address, old(self).depth as int),
            tape_ready(old(pj)@, old(self).depth as int),
            old(self).i + 2 * old(self).depth + 2 < usize::MAX,
        ensures
            (r, final(pj)@) == scope_end_outcome(
                old(self)@.input,
                old(pj)@,
                old(self).i as int,
                old(self).c,
                old(self).depth as int,
                old(self)@.ret_address,
            ),
        decreases old(self).depth, 0int,
    {
        self.depth = self.depth - 1;
        let open = pj.scope_offset(self.depth);
        pj.write_tape(open as u64, self.c);
        let loc = pj.get_current_loc();
        pj.annotate_previous_loc(open as usize, loc as u64);
        let ghost m1 = pj@;
        proof {
            assert(m1 == closed_scope(old(pj)@, self.depth as int, self.c));
            assert(old(pj)@.containing_scope_offset[self.depth as int] >= 1);
        }
        match self.ret_address[self.depth] {
            ReturnAddress::StartContinue => self.start_continue(pj),
            ReturnAddress::ObjectContinue => self.object_continue(pj),
            ReturnAddress::ArrayContinue => self.array_continue(pj),
        }
    }

    /// Inside the top-level array.
    fn array_begin(&mut self, pj: &mut ParsedJson) -> (r: Result<(), SimdJsonError>)
        requires
            old(self).in_scope(old(pj)@),
            old(self).i < 4,
        ensures
            (r, final(pj)@) == array_begin_outcome(old(self).buf@, old(pj)@, old(self).i as int),
    {
        self.update_char(pj);
        if self.c == 0x5d {
            proof {
                self.lemma_in_scope_ready(pj@);
            }
            return self.scope_end(pj);
        }
        self.main_array_switch()
    }

    /// A value inside an array: nothing is accepted.
    fn main_array_switch(&mut self) -> (r: Result<(), SimdJsonError>)
        ensures
            r == Err::<(), SimdJsonError>(SimdJsonError::TapeError),
    {
        self.fail()
    }

    /// After a value inside an array: `]` closes it, anything else is refused.
    fn array_continue(&mut self, pj: &mut ParsedJson) -> (r: Result<(), SimdJsonError>)
        requires
            old(self).len == old(self).buf@.len(),
            old(self).depth >= 2,
            returns_well_placed(old(self)@.ret_address, old(self).depth as int),
            tape_ready(old(pj)@, old(self).depth as int),
            old(self).i + 2 * old(self).depth + 4 < usize::MAX,
        ensures
            (r, final(pj)@) == array_continue_outcome(
                old(self)@.input,
                old(pj)@,
                old(self).i as int,
                old(self).depth as int,
                old(self)@.ret_address,
            ),
        decreases old(self).depth, 1int,
    {
        self.update_char(pj);
        if self.c == 0x2c {
            self.update_char(pj);
            self.main_array_switch()
        } else if self.c == 0x5d {
            self.scope_end(pj)
        } else {
            self.fail()
        }
    }
}

/// Builds the tape of `buf` into `pj`, from the structural indexes of `pj`.
pub fn unified_machine(buf: &[u8], pj: &mut ParsedJson) -> (r: Result<(), SimdJsonError>)
    ensures
        (r, final(pj)@) == machine_outcome(buf@, old(pj)@),
{
    UnifiedMachine::new(buf).run(pj)
}

} // verus!
