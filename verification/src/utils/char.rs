use vstd::prelude::*;

verus! {

/// The four whitespace bytes of JSON: space, tab, line feed and carriage return.
pub open spec fn is_whitespace_byte(c: u8) -> bool {
    c == 0x20u8 || c == 0x09u8 || c == 0x0au8 || c == 0x0du8
}

/// The six structural bytes of JSON outside strings: `{ } [ ] : ,`.
pub open spec fn is_structural_byte(c: u8) -> bool {
    c == 0x7bu8 || c == 0x7du8 || c == 0x5bu8 || c == 0x5du8 || c == 0x3au8 || c == 0x2cu8
}

/// Returns 0 when `c` is a structural or whitespace byte, and 1 otherwise.
pub fn is_not_structural_or_whitespace(c: u8) -> (r: u32)
    ensures
        r == (if is_structural_byte(c) || is_whitespace_byte(c) { 0u32 } else { 1u32 }),
{
    if c == 0x20 || c == 0x09 || c == 0x0a || c == 0x0d || c == 0x7b || c == 0x7d || c == 0x5b
        || c == 0x5d || c == 0x3a || c == 0x2c {
        0
    } else {
        1
    }
}

/// Returns 0 when `c` is a structural or whitespace byte or the zero byte, and 1
/// otherwise.
pub fn is_not_structural_or_whitespace_or_null(c: u8) -> (r: u32)
    ensures
        r == (if is_structural_byte(c) || is_whitespace_byte(c) || c == 0 { 0u32 } else { 1u32 }),
{
    if c == 0 {
        0
    } else {
        is_not_structural_or_whitespace(c)
    }
}

} // verus!
