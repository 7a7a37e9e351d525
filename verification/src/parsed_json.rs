use vstd::prelude::*;

use crate::utils::{roundup_64, spec_roundup_64};

verus! {

/// The low 56 bits of a tape word: its payload.
pub const JSON_VALUE_MASK: u64 = 0xFFFFFFFFFFFFFF;

/// The nesting depth that `build_parsed_json` sizes a document for.
pub const DEFAULT_MAX_DEPTH: usize = 1024;

/// The tape word that holds the type byte `c` in its top 8 bits and `val` below.
pub open spec fn tape_word(val: u64, c: u8) -> u64 {
    val | ((c as u64) << 56u64)
}

/// The type byte of a tape word.
pub open spec fn tape_type(w: u64) -> u8 {
    (w >> 56u64) as u8
}

/// The payload of a tape word.
pub open spec fn tape_payload(w: u64) -> u64 {
    w & JSON_VALUE_MASK
}

/// A tape that a finished parse leaves: it opens with a root word whose payload
/// points inside the tape.
pub open spec fn root_is_closed(tape: Seq<u64>) -> bool {
    &&& tape.len() > 0
    &&& tape_type(tape[0]) == 0x72u8
    &&& tape_payload(tape[0]) < tape.len()
}

/// `s` with `x` written at `loc`: in place inside `s`, appended at its end.
pub open spec fn write_at<T>(s: Seq<T>, loc: int, x: T) -> Seq<T> {
    if loc < s.len() {
        s.update(loc, x)
    } else {
        s.push(x)
    }
}

/// `s` with the bytes `b` written from `loc` on (`loc <= s.len()`): what lies
/// beyond them is kept, and `s` grows when they reach past its end.
pub open spec fn overwrite(s: Seq<u8>, loc: int, b: Seq<u8>) -> Seq<u8> {
    if loc + b.len() <= s.len() {
        s.take(loc) + b + s.skip(loc + b.len())
    } else {
        s.take(loc) + b
    }
}

/// The abstract content of a `ParsedJson`.
#[verifier::ext_equal]
pub ghost struct ParsedJsonModel {
    pub byte_capacity: nat,
    pub depth_capacity: nat,
    pub tape_capacity: nat,
    pub string_capacity: nat,
    pub n_structural_indexes: nat,
    pub structural_indexes: Seq<u32>,
    pub tape: Seq<u64>,
    /// Where the next tape word is written.
    pub current_loc: nat,
    pub containing_scope_offset: Seq<u32>,
    pub ret_address: Seq<char>,
    pub string_buf: Seq<u8>,
    /// Where the next string byte is written.
    pub current_string_buf_loc: nat,
    pub is_valid: bool,
}

/// The state of a parse: its capacities, the structural indexes found by stage 1,
/// and the tape and string buffer written by stage 2.
pub struct ParsedJson {
    byte_capacity: usize,
    depth_capacity: usize,
    tape_capacity: usize,
    string_capacity: usize,
    current_loc: u32,
    n_structural_indexes: u32,
    structural_indexes: Vec<u32>,
    tape: Vec<u64>,
    containing_scope_offset: Vec<u32>,
    ret_address: Vec<char>,
    string_buf: Vec<u8>,
    current_string_buf_loc: usize,
    is_valid: bool,
}

impl View for ParsedJson {
    type V = ParsedJsonModel;

    closed spec fn view(&self) -> ParsedJsonModel {
        ParsedJsonModel {
            byte_capacity: self.byte_capacity as nat,
            depth_capacity: self.depth_capacity as nat,
            tape_capacity: self.tape_capacity as nat,
            string_capacity: self.string_capacity as nat,
            n_structural_indexes: self.n_structural_indexes as nat,
            structural_indexes: self.structural_indexes@,
            tape: self.tape@,
            current_loc: self.current_loc as nat,
            containing_scope_offset: self.containing_scope_offset@,
            ret_address: self.ret_address@,
            string_buf: self.string_buf@,
            current_string_buf_loc: self.current_string_buf_loc as nat,
            is_valid: self.is_valid,
        }
    }
}

/// The model of a `ParsedJson` that holds nothing.
pub open spec fn empty_model() -> ParsedJsonModel {
    ParsedJsonModel {
        byte_capacity: 0,
        depth_capacity: 0,
        tape_capacity: 0,
        string_capacity: 0,
        n_structural_indexes: 0,
        structural_indexes: Seq::empty(),
        tape: Seq::empty(),
        current_loc: 0,
        containing_scope_offset: Seq::empty(),
        ret_address: Seq::empty(),
        string_buf: Seq::empty(),
        current_string_buf_loc: 0,
        is_valid: false,
    }
}

/// The model of a `ParsedJson` freshly sized for documents of `len` bytes nested
/// `max_depth` deep; the write positions of `m` are kept.
pub open spec fn allocated_model(m: ParsedJsonModel, len: nat, max_depth: nat) -> ParsedJsonModel {
    ParsedJsonModel {
        byte_capacity: len,
        depth_capacity: max_depth,
        tape_capacity: spec_roundup_64(len),
        string_capacity: spec_roundup_64(len + 32),
        n_structural_indexes: 0,
        structural_indexes: Seq::empty(),
        tape: Seq::empty(),
        current_loc: m.current_loc,
        containing_scope_offset: Seq::empty(),
        ret_address: Seq::empty(),
        string_buf: Seq::empty(),
        current_string_buf_loc: m.current_string_buf_loc,
        is_valid: false,
    }
}

/// The model after the buffers of `m` are released: capacities zero, buffers empty,
/// not valid; the count of structural indexes and the write positions are kept.
pub open spec fn deallocated_model(m: ParsedJsonModel) -> ParsedJsonModel {
    ParsedJsonModel {
        n_structural_indexes: m.n_structural_indexes,
        current_loc: m.current_loc,
        current_string_buf_loc: m.current_string_buf_loc,
        ..empty_model()
    }
}

/// Whether `allocate_capacity(len, max_depth)` keeps the buffers it already has:
/// they are large enough for `len` bytes nested `max_depth` deep.
pub open spec fn keeps_capacity(m: ParsedJsonModel, len: nat, max_depth: nat) -> bool {
    len <= m.byte_capacity && max_depth <= m.depth_capacity
}

impl ParsedJson {
    /// A `ParsedJson` is only marked valid over a tape that a finished parse left.
    #[verifier::type_invariant]
    spec fn inv(self) -> bool {
        self.is_valid ==> root_is_closed(self.tape@)
    }

    /// An empty `ParsedJson` with no capacity.
    pub fn new() -> (pj: ParsedJson)
        ensures
            pj@ == empty_model(),
    {
        ParsedJson {
            byte_capacity: 0,
            depth_capacity: 0,
            tape_capacity: 0,
            string_capacity: 0,
            current_loc: 0,
            n_structural_indexes: 0,
            structural_indexes: Vec::new(),
            tape: Vec::new(),
            containing_scope_offset: Vec::new(),
            ret_address: Vec::new(),
            string_buf: Vec::new(),
            current_string_buf_loc: 0,
            is_valid: false,
        }
    }

    /// Whether the last parse finished and produced a tape.
    pub fn is_valid(&self) -> (r: bool)
        ensures
            r == self@.is_valid,
            r ==> root_is_closed(self@.tape),
    {
        proof {
            use_type_invariant(self);
        }
        self.is_valid
    }

    /// The largest document, in bytes, that this `ParsedJson` is sized for.
    pub fn byte_capacity(&self) -> (r: usize)
        ensures
            r == self@.byte_capacity,
    {
        self.byte_capacity
    }

    /// The deepest nesting that this `ParsedJson` is sized for.
    pub fn depth_capacity(&self) -> (r: usize)
        ensures
            r == self@.depth_capacity,
    {
        self.depth_capacity
    }

    /// Sizes the buffers for documents of `len` bytes nested up to `max_depth`.
    /// Returns false, changing nothing, when either is zero; keeps the buffers
    /// when `len` and `max_depth` fit the capacities it has.
    pub fn allocate_capacity(&mut self, len: usize, max_depth: usize) -> (ok: bool)
        requires
            max_depth != 0 && len != 0 && !keeps_capacity(old(self)@, len as nat, max_depth as nat)
                ==> len + 95 <= usize::MAX,
        ensures
            ok == (max_depth != 0 && len != 0),
            !ok ==> final(self)@ == old(self)@,
            ok && keeps_capacity(old(self)@, len as nat, max_depth as nat) ==> final(self)@ == old(
                self,
            )@,
            ok && !keeps_capacity(old(self)@, len as nat, max_depth as nat) ==> final(self)@
                == allocated_model(old(self)@, len as nat, max_depth as nat),
    {
        if max_depth == 0 || len == 0 {
            return false;
        }
        if len <= self.byte_capacity && max_depth <= self.depth_capacity {
            return true;
        }
        self.deallocate();
        self.is_valid = false;
        self.byte_capacity = 0;
        self.n_structural_indexes = 0;
        let max_structures = roundup_64(len) + 2 + 7;
        self.structural_indexes = Vec::with_capacity(max_structures);
        let local_tape_capacity = roundup_64(len);
        let local_string_capacity = roundup_64(len + 32);
        self.string_buf = Vec::with_capacity(local_string_capacity);
        self.tape = Vec::with_capacity(local_tape_capacity);
        self.containing_scope_offset = Vec::with_capacity(max_depth);
        self.ret_address = Vec::with_capacity(max_depth);
        self.byte_capacity = len;
        self.depth_capacity = max_depth;
        self.tape_capacity = local_tape_capacity;
        self.string_capacity = local_string_capacity;
        true
    }

    /// Prepares for a new parse: the write positions of the tape and of the string
    /// buffer go back to their starts and the `ParsedJson` is no longer valid; the
    /// words and bytes already there are kept.
    pub fn init(&mut self)
        ensures
            final(self)@ == (ParsedJsonModel {
                current_loc: 0,
                current_string_buf_loc: 0,
                is_valid: false,
                ..old(self)@
            }),
    {
        self.is_valid = false;
        self.current_string_buf_loc = 0;
        self.current_loc = 0;
    }

    /// Releases the buffers and zeroes the capacities.
    fn deallocate(&mut self)
        ensures
            final(self)@ == deallocated_model(old(self)@),
    {
        self.is_valid = false;
        self.byte_capacity = 0;
        self.depth_capacity = 0;
        self.tape_capacity = 0;
        self.string_capacity = 0;
        self.ret_address = Vec::new();
        self.containing_scope_offset = Vec::new();
        self.tape = Vec::new();
        self.string_buf = Vec::new();
        self.structural_indexes = Vec::new();
    }

    /// Where the next tape word is written.
    pub fn get_current_loc(&self) -> (r: u32)
        ensures
            r == self@.current_loc,
    {
        self.current_loc
    }

    /// Where the next string byte is written.
    pub fn current_string_buf_loc(&self) -> (r: usize)
        ensures
            r == self@.current_string_buf_loc,
    {
        self.current_string_buf_loc
    }

    /// Writes the word with type byte `c` and payload `val` at the write position of
    /// the tape, and moves the position past it.
    pub(crate) fn write_tape(&mut self, val: u64, c: u8)
        requires
            !old(self)@.is_valid,
            old(self)@.current_loc <= old(self)@.tape.len(),
            old(self)@.current_loc < u32::MAX,
        ensures
            final(self)@ == (ParsedJsonModel {
                tape: write_at(old(self)@.tape, old(self)@.current_loc as int, tape_word(val, c)),
                current_loc: old(self)@.current_loc + 1,
                ..old(self)@
            }),
    {
        let mut tape = Vec::new();
        std::mem::swap(&mut tape, &mut self.tape);
        let w = val | ((c as u64) << 56u64);
        let loc = self.current_loc as usize;
        if loc < tape.len() {
            tape.set(loc, w);
        } else {
            tape.push(w);
        }
        self.tape = tape;
        self.current_loc = self.current_loc + 1;
    }

    /// Sets in the tape word at `saved_loc` the bits of `val`.
    pub(crate) fn annotate_previous_loc(&mut self, saved_loc: usize, val: u64)
        requires
            saved_loc < old(self)@.tape.len(),
            !old(self)@.is_valid,
        ensures
            final(self)@ == (ParsedJsonModel {
                tape: old(self)@.tape.update(saved_loc as int, old(self)@.tape[saved_loc as int] | val),
                ..old(self)@
            }),
    {
        let mut tape = Vec::new();
        std::mem::swap(&mut tape, &mut self.tape);
        let w = tape[saved_loc];
        tape.set(saved_loc, w | val);
        self.tape = tape;
    }

    /// Marks the parse as finished.
    pub(crate) fn set_valid(&mut self)
        requires
            root_is_closed(old(self)@.tape),
        ensures
            final(self)@ == (ParsedJsonModel { is_valid: true, ..old(self)@ }),
    {
        self.is_valid = true;
    }

    /// The scope offset recorded for nesting level `depth`.
    pub fn scope_offset(&self, depth: usize) -> (r: u32)
        requires
            depth < self@.containing_scope_offset.len(),
        ensures
            r == self@.containing_scope_offset[depth as int],
    {
        self.containing_scope_offset[depth]
    }

    /// Records `loc` as the scope offset of nesting level `depth`, forgetting the
    /// levels above it.
    pub(crate) fn set_scope_offset(&mut self, depth: usize, loc: u32)
        requires
            depth <= old(self)@.containing_scope_offset.len(),
        ensures
            final(self)@ == (ParsedJsonModel {
                containing_scope_offset: old(self)@.containing_scope_offset.take(depth as int).push(
                    loc,
                ),
                ..old(self)@
            }),
    {
        proof {
            use_type_invariant(&*self);
        }
        let mut offsets = Vec::new();
        std::mem::swap(&mut offsets, &mut self.containing_scope_offset);
        offsets.truncate(depth);
        offsets.push(loc);
        self.containing_scope_offset = offsets;
    }

    /// The number of words on the tape.
    pub fn tape_len(&self) -> (r: usize)
        ensures
            r == self@.tape.len(),
    {
        self.tape.len()
    }

    /// The tape word at `loc`.
    pub fn tape_at(&self, loc: usize) -> (w: u64)
        requires
            loc < self@.tape.len(),
        ensures
            w == self@.tape[loc as int],
    {
        self.tape[loc]
    }

    /// The structural index at position `i`.
    pub fn structural_index(&self, i: usize) -> (r: u32)
        requires
            i < self@.structural_indexes.len(),
        ensures
            r == self@.structural_indexes[i as int],
    {
        self.structural_indexes[i]
    }

    /// The number of entries of the structural index list, sentinel included.
    pub fn structural_indexes_len(&self) -> (r: usize)
        ensures
            r == self@.structural_indexes.len(),
    {
        self.structural_indexes.len()
    }

    /// Stores the structural indexes of a document; the last entry is a sentinel
    /// and is not counted.
    pub(crate) fn set_structural_indexes(&mut self, indexes: Vec<u32>)
        requires
            1 <= indexes@.len() <= u32::MAX + 1,
        ensures
            final(self)@ == (ParsedJsonModel {
                structural_indexes: indexes@,
                n_structural_indexes: (indexes@.len() - 1) as nat,
                ..old(self)@
            }),
    {
        proof {
            use_type_invariant(&*self);
        }
        let n = (indexes.len() - 1) as u32;
        self.structural_indexes = indexes;
        self.n_structural_indexes = n;
    }

    /// The length of the string buffer.
    pub fn string_buf_len(&self) -> (r: usize)
        ensures
            r == self@.string_buf.len(),
    {
        self.string_buf.len()
    }

    /// The byte at `i` in the string buffer.
    pub fn string_buf_at(&self, i: usize) -> (b: u8)
        requires
            i < self@.string_buf.len(),
        ensures
            b == self@.string_buf[i as int],
    {
        self.string_buf[i]
    }

    /// Writes `bytes` at the write position of the string buffer, and moves the
    /// position past them.
    pub(crate) fn write_string(&mut self, bytes: &Vec<u8>)
        requires
            old(self)@.current_string_buf_loc <= old(self)@.string_buf.len(),
            old(self)@.current_string_buf_loc + bytes@.len() <= usize::MAX,
        ensures
            final(self)@ == (ParsedJsonModel {
                string_buf: overwrite(
                    old(self)@.string_buf,
                    old(self)@.current_string_buf_loc as int,
                    bytes@,
                ),
                current_string_buf_loc: old(self)@.current_string_buf_loc + bytes@.len(),
                ..old(self)@
            }),
    {
        proof {
            use_type_invariant(&*self);
        }
        let mut buf = Vec::new();
        std::mem::swap(&mut buf, &mut self.string_buf);
        let ghost start = buf@;
        let pos = self.current_string_buf_loc;
        let mut k: usize = 0;
        assert(overwrite(start, pos as int, bytes@.take(0)) =~= start);
        while k < bytes.len()
            invariant
                k <= bytes@.len(),
                pos <= start.len(),
                pos + bytes@.len() <= usize::MAX,
                buf@ == overwrite(start, pos as int, bytes@.take(k as int)),
                buf@.len() >= pos + k,
            decreases bytes@.len() - k,
        {
            let ghost prev = buf@;
            let at = pos + k;
            if at < buf.len() {
                buf.set(at, bytes[k]);
            } else {
                buf.push(bytes[k]);
            }
            k = k + 1;
            proof {
                let t = bytes@.take(k as int);
                assert(t == bytes@.take(k - 1).push(bytes@[k - 1]));
                assert(buf@ =~= overwrite(start, pos as int, t));
            }
        }
        assert(bytes@.take(bytes@.len() as int) == bytes@);
        self.string_buf = buf;
        self.current_string_buf_loc = pos + k;
    }

    /// The number of structural indexes found by stage 1, without the final sentinel.
    pub fn n_structural_indexes(&self) -> (r: u32)
        ensures
            r == self@.n_structural_indexes,
    {
        self.n_structural_indexes
    }
}

} // verus!
