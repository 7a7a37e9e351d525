use simdjson::error::SimdJsonError;
use simdjson::json_parser::{build_parsed_json, json_parse};
use simdjson::parsed_json::{ParsedJson, DEFAULT_MAX_DEPTH, JSON_VALUE_MASK};
use simdjson::parsed_json_iterator::ParsedJsonIterator;
use simdjson::stage2_build_tape::{unified_machine, UnifiedMachine};
use simdjson::stage1_find_marks::find_structural_bits;

fn word(val: u64, c: u8) -> u64 {
    val | ((c as u64) << 56)
}

fn tape_of(pj: &ParsedJson) -> Vec<u64> {
    (0..pj.tape_len()).map(|i| pj.tape_at(i)).collect()
}

fn string_buf_of(pj: &ParsedJson) -> Vec<u8> {
    (0..pj.string_buf_len()).map(|i| pj.string_buf_at(i)).collect()
}

fn parse(doc: &[u8]) -> (Result<(), SimdJsonError>, ParsedJson) {
    let mut pj = ParsedJson::new();
    assert!(pj.allocate_capacity(doc.len().max(1), DEFAULT_MAX_DEPTH));
    let r = json_parse(doc, &mut pj);
    (r, pj)
}

#[test]
fn empty_object_is_valid() {
    let (r, pj) = parse(b"{}");
    assert_eq!(r, Ok(()));
    assert!(pj.is_valid());
    assert_eq!(
        tape_of(&pj),
        vec![word(3, b'r'), word(3, b'{'), word(1, b'}'), word(0, b'r')]
    );
}

#[test]
fn empty_array_is_valid() {
    let (r, pj) = parse(b"[]");
    assert_eq!(r, Ok(()));
    assert!(pj.is_valid());
    assert_eq!(
        tape_of(&pj),
        vec![word(3, b'r'), word(3, b'['), word(1, b']'), word(0, b'r')]
    );
    assert_eq!(pj.get_current_loc(), 4);
}

#[test]
fn array_with_a_value_is_refused() {
    let (r, pj) = parse(b"[[");
    assert_eq!(r, Err(SimdJsonError::TapeError));
    assert!(!pj.is_valid());
    assert_eq!(tape_of(&pj), vec![word(0, b'r'), word(0, b'[')]);
    let (r, pj) = parse(b"[1]");
    assert_eq!(r, Err(SimdJsonError::TapeError));
    assert!(!pj.is_valid());
}

#[test]
fn object_with_key_is_refused() {
    let (r, pj) = parse(br#"{"a": "b"}"#);
    assert_eq!(r, Err(SimdJsonError::TapeError));
    assert!(!pj.is_valid());
    assert_eq!(string_buf_of(&pj), b"a\0".to_vec());
}

#[test]
fn object_closed_twice_is_refused() {
    let (r, pj) = parse(b"{}}");
    assert_eq!(r, Err(SimdJsonError::TapeError));
    assert!(!pj.is_valid());
}

#[test]
fn unexpected_first_byte_is_refused() {
    assert_eq!(parse(b"}").0, Err(SimdJsonError::TapeError));
    assert_eq!(parse(b"x").0, Err(SimdJsonError::TapeError));
}

#[test]
fn root_string_is_decoded() {
    let (r, pj) = parse(br#""a\n\u00e9\ud83d\ude00""#);
    assert_eq!(r, Ok(()));
    assert!(pj.is_valid());
    assert_eq!(tape_of(&pj), vec![word(2, b'r'), word(0, b'"'), word(0, b'r')]);
    assert_eq!(pj.get_current_loc(), 3);
    assert_eq!(
        string_buf_of(&pj),
        vec![b'a', b'\n', 0xc3, 0xa9, 0xf0, 0x9f, 0x98, 0x80, 0]
    );
}

#[test]
fn invalid_escape_is_refused() {
    assert_eq!(parse(br#""a\x""#).0, Err(SimdJsonError::TapeError));
    assert_eq!(parse(br#""\ud83d""#).0, Err(SimdJsonError::TapeError));
    assert_eq!(parse(br#""open"#).0, Err(SimdJsonError::TapeError));
}

#[test]
fn root_atoms_are_checked() {
    for (doc, c) in [
        (&b"true "[..], b't'),
        (&b"true"[..], b't'),
        (&b"false"[..], b'f'),
        (&b"null "[..], b'n'),
        (&b"null\n"[..], b'n'),
    ] {
        let (r, pj) = parse(doc);
        assert_eq!(r, Ok(()));
        assert!(pj.is_valid());
        assert_eq!(tape_of(&pj), vec![word(2, b'r'), word(0, c), word(0, b'r')]);
        assert_eq!(pj.get_current_loc(), 3);
    }
    for doc in [&b"trux "[..], b"truex", b"falsy ", b"falsex", b"fals", b"nul", b"nulll"] {
        let (r, pj) = parse(doc);
        assert_eq!(r, Err(SimdJsonError::TapeError));
        assert_eq!(tape_of(&pj), vec![word(0, b'r')]);
    }
}

#[test]
fn root_value_followed_by_more_is_refused() {
    let (r, pj) = parse(b"false,");
    assert_eq!(r, Err(SimdJsonError::TapeError));
    assert!(!pj.is_valid());
    assert_eq!(tape_of(&pj), vec![word(0, b'r'), word(0, b'f')]);
    assert_eq!(parse(br#""a" "b""#).0, Err(SimdJsonError::TapeError));
    assert_eq!(parse(b"true null").0, Err(SimdJsonError::TapeError));
}

#[test]
fn numbers_are_accepted_unchecked() {
    for doc in [&b"-12"[..], b"7", b"-x"] {
        let (r, pj) = parse(doc);
        assert_eq!(r, Ok(()));
        assert!(!pj.is_valid());
        assert_eq!(tape_of(&pj), vec![word(0, b'r')]);
    }
}

#[test]
fn capacity_error_leaves_parsed_json_unchanged() {
    let (r, mut pj) = parse(b"{}");
    assert_eq!(r, Ok(()));
    assert_eq!(json_parse(b"{}  ", &mut pj), Err(SimdJsonError::Capacity));
    assert!(pj.is_valid());
    assert_eq!(pj.get_current_loc(), 4);
}

#[test]
fn depth_capacity_one_refuses_containers() {
    let mut pj = ParsedJson::new();
    assert!(pj.allocate_capacity(8, 1));
    assert_eq!(json_parse(b"{}", &mut pj), Err(SimdJsonError::TapeError));
    assert!(!pj.is_valid());
}

#[test]
fn document_without_structurals_is_accepted_unchanged() {
    let (r, pj) = parse(b"   ");
    assert_eq!(r, Ok(()));
    assert!(!pj.is_valid());
    assert_eq!(pj.tape_len(), 0);
}

#[test]
fn a_later_parse_writes_over_the_tape() {
    let (r, mut pj) = parse(b"{}  ");
    assert_eq!(r, Ok(()));
    assert_eq!(json_parse(b"true", &mut pj), Ok(()));
    assert!(pj.is_valid());
    assert_eq!(pj.get_current_loc(), 3);
    assert_eq!(
        tape_of(&pj),
        vec![word(2, b'r'), word(0, b't'), word(0, b'r'), word(0, b'r')]
    );
}

#[test]
fn reparsing_gives_the_same_tape() {
    let (r, mut pj) = parse(b"{}");
    let first = tape_of(&pj);
    assert_eq!(json_parse(b"{}", &mut pj), r);
    assert_eq!(tape_of(&pj), first);
    assert!(pj.is_valid());
}

#[test]
fn machine_runs_on_stage1_output() {
    let doc = b"[] ";
    let mut pj = ParsedJson::new();
    assert!(pj.allocate_capacity(doc.len(), 4));
    assert!(find_structural_bits(doc, &mut pj));
    assert_eq!(unified_machine(doc, &mut pj), Ok(()));
    assert!(pj.is_valid());
    let mut again = ParsedJson::new();
    assert!(again.allocate_capacity(doc.len(), 4));
    assert!(find_structural_bits(doc, &mut again));
    let mut machine = UnifiedMachine::new(doc);
    assert_eq!(machine.run(&mut again), Ok(()));
    assert_eq!(tape_of(&again), tape_of(&pj));
}

#[test]
fn machine_refuses_document_over_capacity() {
    let mut pj = ParsedJson::new();
    assert!(pj.allocate_capacity(1, 4));
    assert_eq!(unified_machine(b"{}", &mut pj), Err(SimdJsonError::Capacity));
}

#[test]
fn machine_refusal_for_capacity_keeps_the_tape() {
    let (r, mut pj) = parse(b"{}");
    assert_eq!(r, Ok(()));
    let before = tape_of(&pj);
    assert_eq!(unified_machine(b"{}  ", &mut pj), Err(SimdJsonError::Capacity));
    assert!(!pj.is_valid());
    assert_eq!(pj.get_current_loc(), 0);
    assert_eq!(tape_of(&pj), before);
}

#[test]
fn build_parsed_json_sizes_and_parses() {
    let pj = build_parsed_json(br#"{"a": "b"}"#).unwrap();
    assert!(!pj.is_valid());
    assert_eq!(pj.byte_capacity(), 10);
    assert_eq!(pj.depth_capacity(), DEFAULT_MAX_DEPTH);
    let pj = build_parsed_json(b"{}").unwrap();
    assert!(pj.is_valid());
    let pj = build_parsed_json(b"").unwrap();
    assert!(!pj.is_valid());
    assert_eq!(pj.byte_capacity(), 0);
}

#[test]
fn iterator_starts_on_top_level_scope() {
    let pj = build_parsed_json(b"{}").unwrap();
    let mut it = ParsedJsonIterator::new(&pj);
    assert_eq!(it.get_depth(), 1);
    assert!(it.is_ok());
    assert!(it.move_forward());
    assert_eq!(pj.tape_at(0) & JSON_VALUE_MASK, 3);
}

#[test]
fn iterator_with_smallest_depth_capacity() {
    let mut pj = ParsedJson::new();
    assert!(pj.allocate_capacity(2, 2));
    assert_eq!(json_parse(b"{}", &mut pj), Ok(()));
    assert!(pj.is_valid());
    let it = ParsedJsonIterator::new(&pj);
    assert_eq!(it.get_depth(), 1);
}

#[test]
fn padded_copy_parses_like_the_document() {
    let doc = b"[]";
    let (r, pj) = parse(doc);
    let mut padded = doc.to_vec();
    padded.extend_from_slice(&[b'x'; 64]);
    let mut copy_pj = ParsedJson::new();
    assert!(copy_pj.allocate_capacity(doc.len(), DEFAULT_MAX_DEPTH));
    let r2 = json_parse(&padded[..doc.len()], &mut copy_pj);
    assert_eq!(r, r2);
    assert_eq!(pj.is_valid(), copy_pj.is_valid());
    assert_eq!(tape_of(&pj), tape_of(&copy_pj));
}

#[test]
fn build_parsed_json_on_a_number_is_not_valid() {
    let pj = build_parsed_json(b"7").unwrap();
    assert!(!pj.is_valid());
    assert_eq!(pj.get_current_loc(), 1);
    assert_eq!(tape_of(&pj), vec![word(0, b'r')]);
    let pj = build_parsed_json(b"null").unwrap();
    assert!(pj.is_valid());
    let it = ParsedJsonIterator::new(&pj);
    assert_eq!(it.get_depth(), 1);
    assert!(it.is_ok());
}
