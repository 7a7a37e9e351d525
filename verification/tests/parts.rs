use simdjson::error::SimdJsonError;
use simdjson::parsed_json::ParsedJson;
use simdjson::utils::char::is_not_structural_or_whitespace;
use simdjson::utils::{hamming, roundup_64, trailing_zeroes, SIMDJSON_PADDING};

#[test]
fn hamming_counts_set_bits() {
    assert_eq!(hamming(0), 0);
    assert_eq!(hamming(0b1011), 3);
    assert_eq!(hamming(u64::MAX), 64);
    assert_eq!(hamming(1 << 63), 1);
}

#[test]
fn trailing_zeroes_counts_low_zero_bits() {
    assert_eq!(trailing_zeroes(0), 64);
    assert_eq!(trailing_zeroes(1), 0);
    assert_eq!(trailing_zeroes(0b1000), 3);
    assert_eq!(trailing_zeroes(1 << 63), 63);
}

#[test]
fn roundup_64_rounds_up() {
    assert_eq!(roundup_64(0), 0);
    assert_eq!(roundup_64(1), 64);
    assert_eq!(roundup_64(64), 64);
    assert_eq!(roundup_64(65), 128);
    assert_eq!(SIMDJSON_PADDING, 32);
}

#[test]
fn structural_or_whitespace_bytes() {
    for b in [b' ', b'\t', b'\n', b'\r', b'{', b'}', b'[', b']', b':', b','] {
        assert_eq!(is_not_structural_or_whitespace(b), 0);
    }
    for b in [b'"', b'a', b'0', 0u8, b'\\', 0x0b, 0xff] {
        assert_eq!(is_not_structural_or_whitespace(b), 1);
    }
}

#[test]
fn error_messages() {
    assert_eq!(
        SimdJsonError::Capacity.message(),
        "This ParsedJson can't support a document that big"
    );
    assert_eq!(
        SimdJsonError::Memalloc.message(),
        "Error allocating memory, we're most likely out of memory"
    );
    assert_eq!(
        SimdJsonError::TapeError.message(),
        "Something went wrong while writing to the tape"
    );
}

#[test]
fn new_parsed_json_is_empty() {
    let pj = ParsedJson::new();
    assert!(!pj.is_valid());
    assert_eq!(pj.byte_capacity(), 0);
    assert_eq!(pj.depth_capacity(), 0);
    assert_eq!(pj.n_structural_indexes(), 0);
    assert_eq!(pj.tape_len(), 0);
}

#[test]
fn allocate_capacity_refuses_zero() {
    let mut pj = ParsedJson::new();
    assert!(!pj.allocate_capacity(0, 4));
    assert!(!pj.allocate_capacity(4, 0));
    assert_eq!(pj.byte_capacity(), 0);
}

#[test]
fn allocate_capacity_sizes_and_keeps() {
    let mut pj = ParsedJson::new();
    assert!(pj.allocate_capacity(100, 8));
    assert_eq!(pj.byte_capacity(), 100);
    assert_eq!(pj.depth_capacity(), 8);
    // Deeper than the buffers were sized for: sized again.
    assert!(pj.allocate_capacity(50, 9));
    assert_eq!(pj.byte_capacity(), 50);
    assert_eq!(pj.depth_capacity(), 9);
    // Smaller and shallower: the buffers are kept.
    assert!(pj.allocate_capacity(40, 4));
    assert_eq!(pj.byte_capacity(), 50);
    assert_eq!(pj.depth_capacity(), 9);
    // Larger: sized again.
    assert!(pj.allocate_capacity(60, 4));
    assert_eq!(pj.byte_capacity(), 60);
    assert_eq!(pj.depth_capacity(), 4);
}

#[test]
fn init_forgets_the_parse_and_keeps_the_tape() {
    let mut pj = ParsedJson::new();
    assert!(pj.allocate_capacity(2, 4));
    assert_eq!(simdjson::json_parser::json_parse(b"{}", &mut pj), Ok(()));
    assert!(pj.is_valid());
    assert_eq!(pj.get_current_loc(), 4);
    let words: Vec<u64> = (0..pj.tape_len()).map(|i| pj.tape_at(i)).collect();
    pj.init();
    assert!(!pj.is_valid());
    assert_eq!(pj.get_current_loc(), 0);
    assert_eq!(pj.current_string_buf_loc(), 0);
    assert_eq!(pj.tape_len(), 4);
    let kept: Vec<u64> = (0..pj.tape_len()).map(|i| pj.tape_at(i)).collect();
    assert_eq!(kept, words);
    assert_eq!(pj.n_structural_indexes(), 3);
}
