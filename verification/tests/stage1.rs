use simdjson::parsed_json::ParsedJson;
use simdjson::stage1_find_marks::find_structural_bits;

fn indexes_of(pj: &ParsedJson) -> Vec<u32> {
    (0..pj.structural_indexes_len()).map(|i| pj.structural_index(i)).collect()
}

fn sized(len: usize) -> ParsedJson {
    let mut pj = ParsedJson::new();
    assert!(pj.allocate_capacity(len.max(1), 16));
    pj
}

fn stage1(doc: &[u8]) -> Option<Vec<u32>> {
    let mut pj = sized(doc.len());
    if find_structural_bits(doc, &mut pj) {
        assert_eq!(pj.n_structural_indexes() as usize + 1, pj.structural_indexes_len());
        Some(indexes_of(&pj))
    } else {
        None
    }
}

/// The structural positions of a document, found one byte at a time.
fn reference_positions(s: &[u8]) -> Vec<u32> {
    let is_structural = |b: u8| matches!(b, b'{' | b'}' | b'[' | b']' | b':' | b',');
    let is_whitespace = |b: u8| matches!(b, b' ' | b'\t' | b'\n' | b'\r');
    let mut out = Vec::new();
    let mut backslashes = 0usize;
    let mut in_string = false;
    let mut follows = true;
    for (p, &b) in s.iter().enumerate() {
        let is_backslash = b == b'\\';
        let escaped = !is_backslash && backslashes % 2 == 1;
        let quote = b == b'"' && !escaped;
        in_string ^= quote;
        let st = is_structural(b);
        let ws = is_whitespace(b);
        let primary = (st && !in_string) || quote;
        let structural = (primary || (follows && !ws && !in_string)) && !(quote && !in_string);
        if structural {
            out.push(p as u32);
        }
        follows = primary || ws;
        backslashes = if is_backslash { backslashes + 1 } else { 0 };
    }
    out
}

#[test]
fn stage1_small_object() {
    assert_eq!(stage1(br#"{"a": "b"}"#), Some(vec![0, 1, 4, 6, 9, 10, 0]));
}

#[test]
fn stage1_escaped_quote_stays_inside_string() {
    assert_eq!(stage1(br#""a\"b""#), Some(vec![0, 6, 0]));
}

#[test]
fn stage1_even_backslashes_do_not_escape() {
    assert_eq!(stage1(br#"["\\",1]"#), Some(vec![0, 1, 5, 6, 7, 8, 0]));
}

#[test]
fn stage1_atoms_start_pseudo_structurals() {
    assert_eq!(stage1(b"[true, 12]"), Some(vec![0, 1, 5, 7, 9, 10, 0]));
}

#[test]
fn stage1_nothing_structural() {
    assert_eq!(stage1(b"   \n\t "), None);
    assert_eq!(stage1(b""), None);
}

#[test]
fn stage1_refuses_document_over_capacity() {
    let mut pj = sized(4);
    assert!(!find_structural_bits(b"[1, 2, 3]", &mut pj));
    assert_eq!(pj.structural_indexes_len(), 0);
}

#[test]
fn stage1_failure_leaves_indexes() {
    let mut pj = sized(16);
    assert!(find_structural_bits(b"{}", &mut pj));
    assert!(!find_structural_bits(b"    ", &mut pj));
    assert_eq!(indexes_of(&pj), vec![0, 1, 2, 0]);
}

#[test]
fn stage1_string_across_blocks() {
    let mut doc = Vec::new();
    doc.extend_from_slice(b"[\"");
    doc.extend(std::iter::repeat(b'x').take(100));
    doc.extend_from_slice(b"\\\"{}\", 7]");
    let got = stage1(&doc).unwrap();
    let mut want = reference_positions(&doc);
    want.push(doc.len() as u32);
    want.push(0);
    assert_eq!(got, want);
    assert_eq!(got[..2], [0, 1]);
}

#[test]
fn stage1_backslash_run_across_blocks() {
    for run in 0..6 {
        let mut doc = vec![b' '; 64];
        doc[0] = b'"';
        for k in 0..run {
            doc[63 - k] = b'\\';
        }
        doc.extend_from_slice(b"\", [1]");
        let got = stage1(&doc).unwrap();
        let mut want = reference_positions(&doc);
        want.push(doc.len() as u32);
        want.push(0);
        assert_eq!(got, want, "backslash run of {}", run);
    }
}

#[test]
fn stage1_matches_byte_by_byte_scan() {
    let alphabet = b"\"\\{}[]:, a1\nt";
    let mut seed: u64 = 0x2545_f491_4f6c_dd1d;
    for len in 0..300usize {
        let mut doc = Vec::with_capacity(len);
        for _ in 0..len {
            seed = seed.wrapping_mul(6364136223846793005).wrapping_add(1442695040888963407);
            doc.push(alphabet[((seed >> 33) % alphabet.len() as u64) as usize]);
        }
        let want = reference_positions(&doc);
        match stage1(&doc) {
            None => assert!(want.is_empty(), "length {}", len),
            Some(got) => {
                let mut full = want.clone();
                full.push(len as u32);
                full.push(0);
                assert_eq!(got, full, "length {}", len);
            }
        }
    }
}
