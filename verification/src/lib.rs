pub mod error;
pub mod json_parser;
pub mod parsed_json;
pub mod parsed_json_iterator;
pub mod simd_utf8_check;
pub mod stage1_find_marks;
pub mod stage2_build_tape;
pub mod utils;
