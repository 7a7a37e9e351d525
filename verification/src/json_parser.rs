use vstd::prelude::*;

use crate::error::SimdJsonError;
use crate::parsed_json::{
    allocated_model, empty_model, keeps_capacity, tape_payload, tape_type, tape_word, ParsedJson,
    ParsedJsonModel, DEFAULT_MAX_DEPTH,
};
use crate::parsed_json_iterator::iterator_start;
use crate::utils::SIMDJSON_PADDING;
use crate::stage1_find_marks::{find_structural_bits, structural_indexes_of, structural_positions};
use crate::stage2_build_tape::{char_at, machine_outcome, unchecked_atom_start, unified_machine};

verus! {

/// `m` holding the structural indexes that stage 1 finds in `s`.
pub open spec fn after_stage1(s: Seq<u8>, m: ParsedJsonModel) -> ParsedJsonModel {
    ParsedJsonModel {
        structural_indexes: structural_indexes_of(s),
        n_structural_indexes: (structural_indexes_of(s).len() - 1) as nat,
        ..m
    }
}

/// What `json_parse` returns on `s` from the state `m`, and the state it leaves:
/// a document larger than the capacity is refused with nothing changed; a document
/// without structural positions is accepted with nothing changed; otherwise the
/// structural indexes are stored and the tape is built.
pub open spec fn json_parse_outcome(s: Seq<u8>, m: ParsedJsonModel) -> (
    Result<(), SimdJsonError>,
    ParsedJsonModel,
) {
    if m.byte_capacity < s.len() {
        (Err(SimdJsonError::Capacity), m)
    } else if structural_positions(s, s.len() as int).len() == 0 {
        (Ok(()), m)
    } else {
        machine_outcome(s, after_stage1(s, m))
    }
}

/// Parses `buf` into `pj`: finds its structural positions, then builds its tape.
pub fn json_parse(buf: &[u8], pj: &mut ParsedJson) -> (r: Result<(), SimdJsonError>)
    requires
        buf@.len() + 64 <= u32::MAX,
    ensures
        (r, final(pj)@) == json_parse_outcome(buf@, old(pj)@),
{
    if pj.byte_capacity() < buf.len() {
        return Err(SimdJsonError::Capacity);
    }
    if find_structural_bits(buf, pj) {
        unified_machine(buf, pj)
    } else {
        Ok(())
    }
}

/// Whether a document whose last byte sits at `last_byte_address` ends less than
/// `SIMDJSON_PADDING` bytes into a memory page of `page_size` bytes, so that reading
/// past its end could leave the page: such a document is first copied into a
/// padded buffer.
pub fn needs_padding_copy(last_byte_address: usize, page_size: usize) -> (r: bool)
    requires
        page_size > 0,
    ensures
        r == (last_byte_address % page_size < SIMDJSON_PADDING),
{
    last_byte_address % page_size < SIMDJSON_PADDING
}

/// The state of a `ParsedJson` sized for `s` and then given `s` to parse.
pub open spec fn built_model(s: Seq<u8>) -> ParsedJsonModel {
    if s.len() == 0 {
        empty_model()
    } else {
        json_parse_outcome(s, allocated_model(empty_model(), s.len(), DEFAULT_MAX_DEPTH as nat)).1
    }
}

/// A `ParsedJson` sized for `buf`, into which `buf` is parsed.
pub fn build_parsed_json(buf: &[u8]) -> (r: Result<ParsedJson, SimdJsonError>)
    requires
        buf@.len() + 95 <= usize::MAX,
        buf@.len() + 64 <= u32::MAX,
    ensures
        r matches Ok(pj) && pj@ == built_model(buf@),
{
    let mut pj = ParsedJson::new();
    let ok = pj.allocate_capacity(buf.len(), DEFAULT_MAX_DEPTH);
    if ok {
        assert(!keeps_capacity(empty_model(), buf@.len() as nat, DEFAULT_MAX_DEPTH as nat));
        let _ = json_parse(buf, &mut pj);
    }
    Ok(pj)
}

/// A parse that leaves a `ParsedJson` valid, starting from one that is not, has
/// succeeded; a parse that fails leaves it not valid.
pub proof fn lemma_valid_parse_succeeded(s: Seq<u8>, m: ParsedJsonModel)
    requires
        !m.is_valid,
    ensures
        json_parse_outcome(s, m).1.is_valid ==> json_parse_outcome(s, m).0 is Ok,
        json_parse_outcome(s, m).0 is Err ==> !json_parse_outcome(s, m).1.is_valid,
{
}

/// A parse is refused for capacity exactly when the document is larger than the
/// `ParsedJson` was sized for.
pub proof fn lemma_capacity_error(s: Seq<u8>, m: ParsedJsonModel)
    ensures
        (json_parse_outcome(s, m).0 == Err::<(), SimdJsonError>(SimdJsonError::Capacity)) == (
        m.byte_capacity < s.len()),
{
}

/// The word with type byte `c` and payload `v` reads back as `c` and `v`, and
/// setting the bits of `v` in the word with payload 0 gives it.
proof fn lemma_word_fields(v: u64, c: u8)
    requires
        v < 0x100_0000_0000_0000,
    ensures
        tape_type(tape_word(v, c)) == c,
        tape_payload(tape_word(v, c)) == v,
        tape_word(0, c) | v == tape_word(v, c),
{
    assert(((v | ((c as u64) << 56u64)) >> 56u64) as u8 == c && (v | ((c as u64) << 56u64))
        & 0xFFFFFFFFFFFFFFu64 == v && (0u64 | ((c as u64) << 56u64)) | v == v | ((c as u64)
        << 56u64)) by (bit_vector)
        requires
            v < 0x100_0000_0000_0000u64,
    ;
}

/// When the tape builder returns `Ok`, the tape opens with a root word whose payload
/// `e` points at a closing root word, and the write position is one past it. A
/// valid tape holds either a top-level scope, whose opening word points past its
/// closing word and whose closing word points back at it (an object closed by `}`,
/// an array by `]`), or a single string or atom; a tape that is not valid holds the
/// root word alone, left by a number at the root.
pub proof fn lemma_machine_ok_tape(s: Seq<u8>, m: ParsedJsonModel)
    requires
        machine_outcome(s, m).0 is Ok,
    ensures
        ({
            let m1 = machine_outcome(s, m).1;
            let t = m1.tape;
            let e = tape_payload(t[0]) as int;
            &&& tape_type(t[0]) == 0x72
            &&& e < t.len()
            &&& t[e] == tape_word(0, 0x72)
            &&& m1.current_loc == e + 1
            &&& m1.is_valid ==> (e == 3 && tape_payload(t[1]) == 3 && tape_payload(t[2]) == 1 && (
            (tape_type(t[1]) == 0x7b && tape_type(t[2]) == 0x7d) || (tape_type(t[1]) == 0x5b
                && tape_type(t[2]) == 0x5d))) || (e == 2 && tape_payload(t[1]) == 0 && (
            tape_type(t[1]) == 0x22 || tape_type(t[1]) == 0x74 || tape_type(t[1]) == 0x66
                || tape_type(t[1]) == 0x6e))
            &&& !m1.is_valid ==> e == 0
        }),
{
    let m1 = machine_outcome(s, m).1;
    let t = m1.tape;
    lemma_word_fields(0, 0x72);
    lemma_word_fields(2, 0x72);
    lemma_word_fields(3, 0x72);
    lemma_word_fields(3, 0x7b);
    lemma_word_fields(3, 0x5b);
    lemma_word_fields(1, 0x7d);
    lemma_word_fields(1, 0x5d);
    lemma_word_fields(0, 0x22);
    lemma_word_fields(0, 0x74);
    lemma_word_fields(0, 0x66);
    lemma_word_fields(0, 0x6e);
    if m1.is_valid {
        if m1.current_loc == 4 {
            assert(t[0] == tape_word(3, 0x72));
            assert(t[3] == tape_word(0, 0x72));
            assert((t[1] == tape_word(3, 0x7b) && t[2] == tape_word(1, 0x7d)) || (t[1]
                == tape_word(3, 0x5b) && t[2] == tape_word(1, 0x5d)));
        } else {
            assert(m1.current_loc == 3);
            assert(t[0] == tape_word(2, 0x72));
            assert(t[2] == tape_word(0, 0x72));
            assert(t[1] == tape_word(0, 0x22) || t[1] == tape_word(0, 0x74) || t[1] == tape_word(
                0,
                0x66,
            ) || t[1] == tape_word(0, 0x6e));
        }
    } else {
        assert(t[0] == tape_word(0, 0x72));
    }
}

/// The tape builder leaves a valid parse exactly when it returns `Ok` on a document
/// that does not open with a number, which it accepts without a tape.
pub proof fn lemma_machine_valid(s: Seq<u8>, m: ParsedJsonModel)
    ensures
        machine_outcome(s, m).1.is_valid == (machine_outcome(s, m).0 is Ok && !unchecked_atom_start(
            char_at(m, s, 0),
        )),
{
}

/// A parse that leaves a `ParsedJson` valid, from one that is not, wrote a finished
/// tape: either a top-level scope of four words or a single value of three, each
/// opening word pointing past its closing word. An iterator over the tape starts
/// inside it, at depth 1.
pub proof fn lemma_valid_parse_tape(s: Seq<u8>, m: ParsedJsonModel)
    requires
        !m.is_valid,
        json_parse_outcome(s, m).1.is_valid,
    ensures
        ({
            let m1 = json_parse_outcome(s, m).1;
            let t = m1.tape;
            let e = tape_payload(t[0]) as int;
            &&& tape_type(t[0]) == 0x72
            &&& e == 2 || e == 3
            &&& e < t.len()
            &&& t[e] == tape_word(0, 0x72)
            &&& m1.current_loc == e + 1
            &&& iterator_start(t).depth == 1
            &&& iterator_start(t).location < iterator_start(t).tape_length
        }),
{
    lemma_machine_ok_tape(s, after_stage1(s, m));
}

/// Parsing a document again into the `ParsedJson` that it was parsed into gives the
/// same result and leaves the same state.
pub proof fn lemma_reparse(s: Seq<u8>, m: ParsedJsonModel)
    ensures
        json_parse_outcome(s, json_parse_outcome(s, m).1) == json_parse_outcome(s, m),
{
    let m1 = json_parse_outcome(s, m).1;
    if m.byte_capacity >= s.len() && structural_positions(s, s.len() as int).len() != 0 {
        let x = after_stage1(s, m);
        assert(after_stage1(s, m1) =~= m1);
        let y = machine_outcome(s, m1).1;
        assert(y.tape =~= m1.tape);
        assert(y.string_buf =~= m1.string_buf);
        assert(y.containing_scope_offset =~= m1.containing_scope_offset);
        assert(y =~= m1);
    }
}

/// A document copied into the front of a larger, padded buffer parses as the
/// document itself does, from equal states: the same result, and the same state
/// left behind.
pub proof fn lemma_padded_copy(
    s: Seq<u8>,
    padded: Seq<u8>,
    m_doc: ParsedJsonModel,
    m_copy: ParsedJsonModel,
)
    requires
        s.len() <= padded.len(),
        forall|i: int| 0 <= i < s.len() ==> padded[i] == s[i],
        m_doc == m_copy,
    ensures
        json_parse_outcome(padded.take(s.len() as int), m_copy).0 == json_parse_outcome(s, m_doc).0,
        json_parse_outcome(padded.take(s.len() as int), m_copy).1 == json_parse_outcome(s, m_doc).1,
{
    assert(padded.take(s.len() as int) =~= s);
}

} // verus!
