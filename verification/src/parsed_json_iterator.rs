use vstd::prelude::*;

use crate::parsed_json::{
    root_is_closed, tape_payload, tape_type, ParsedJson, ParsedJsonModel, JSON_VALUE_MASK,
};

verus! {

/// Where a scope starts on the tape, and its type byte.
pub struct ScopeIndex {
    pub start_of_scope: usize,
    pub scope_type: u8,
}

impl Default for ScopeIndex {
    fn default() -> (r: ScopeIndex)
        ensures
            r.start_of_scope == 0,
            r.scope_type == 0,
    {
        ScopeIndex { start_of_scope: 0, scope_type: 0 }
    }
}

/// The abstract state of a `ParsedJsonIterator`.
pub ghost struct IteratorModel {
    pub depth: nat,
    pub location: nat,
    pub tape_length: nat,
    pub current_type: u8,
    pub current_val: u64,
    /// For each depth, where its scope starts and its type byte.
    pub scopes: Seq<(nat, u8)>,
}

/// The iterator over a tape that is not walked: everything zero.
pub open spec fn idle_iterator() -> IteratorModel {
    IteratorModel {
        depth: 0,
        location: 0,
        tape_length: 0,
        current_type: 0,
        current_val: 0,
        scopes: Seq::empty(),
    }
}

/// Where an iterator over the tape `tape` starts: after the root word, and, when the
/// root holds a value, on that value at depth 1.
pub open spec fn iterator_start(tape: Seq<u64>) -> IteratorModel {
    let w0 = tape[0];
    let t0 = tape_type(w0);
    let len = if t0 == 0x72 {
        tape_payload(w0) as nat
    } else {
        0
    };
    if t0 == 0x72 && 1 < len {
        IteratorModel {
            depth: 1,
            location: 1,
            tape_length: len,
            current_type: tape_type(tape[1]),
            current_val: tape[1],
            scopes: seq![(0nat, t0), (1nat, tape_type(tape[1]))],
        }
    } else {
        IteratorModel {
            depth: 0,
            location: 1,
            tape_length: len,
            current_type: t0,
            current_val: w0,
            scopes: seq![(0nat, t0)],
        }
    }
}

/// An iterator started on a tape that opens with a root word stands after the root
/// word, and its tape length is the payload of the root word, `tape[0] &
/// JSON_VALUE_MASK`: it can move forward exactly when that payload is above 2, so
/// not on the tape of a single root value.
pub proof fn lemma_iterator_start_length(tape: Seq<u64>)
    requires
        tape.len() > 0,
        tape[0] >> 56u64 == 0x72,
    ensures
        iterator_start(tape).location == 1,
        iterator_start(tape).tape_length == tape[0] & JSON_VALUE_MASK,
        (iterator_start(tape).location + 1 < iterator_start(tape).tape_length) == (tape[0]
            & JSON_VALUE_MASK > 2),
{
    let w = tape[0];
    assert((w >> 56u64) as u8 == 0x72u8) by (bit_vector)
        requires
            w >> 56u64 == 0x72u64,
    ;
}

/// An iterator over the tape of a valid `ParsedJson`.
pub struct ParsedJsonIterator<'a> {
    pj: &'a ParsedJson,
    depth: usize,
    location: usize,
    tape_length: usize,
    current_type: u8,
    current_val: u64,
    depth_index: Vec<ScopeIndex>,
}

impl<'a> View for ParsedJsonIterator<'a> {
    type V = IteratorModel;

    closed spec fn view(&self) -> IteratorModel {
        IteratorModel {
            depth: self.depth as nat,
            location: self.location as nat,
            tape_length: self.tape_length as nat,
            current_type: self.current_type,
            current_val: self.current_val,
            scopes: self.depth_index@.map_values(
                |s: ScopeIndex| (s.start_of_scope as nat, s.scope_type),
            ),
        }
    }
}

impl<'a> ParsedJsonIterator<'a> {
    /// The iterator never stands past the word after the root.
    #[verifier::type_invariant]
    spec fn inv(self) -> bool {
        self.location <= 1
    }

    /// An iterator over the tape of `pj`, which must be valid. When `pj` has no
    /// depth capacity, the iterator does not walk the tape.
    pub fn new(pj: &'a ParsedJson) -> (it: ParsedJsonIterator<'a>)
        requires
            pj@.is_valid,
        ensures
            pj@.depth_capacity == 0 ==> it@ == idle_iterator(),
            pj@.depth_capacity != 0 ==> it@ == iterator_start(pj@.tape),
            pj@.depth_capacity != 0 ==> it@.location == 1 && it@.tape_length == pj@.tape[0]
                & JSON_VALUE_MASK,
    {
        let mut depth: usize = 0;
        let mut location: usize = 0;
        let mut tape_length: usize = 0;
        let mut current_type: u8 = 0;
        let mut current_val: u64 = 0;
        let valid = pj.is_valid();
        assert(valid && root_is_closed(pj@.tape));
        let mut depth_index: Vec<ScopeIndex> = Vec::with_capacity(pj.depth_capacity());
        if pj.depth_capacity() == 0 {
            let it = ParsedJsonIterator {
                pj,
                depth,
                location,
                tape_length,
                current_type,
                current_val,
                depth_index,
            };
            assert(it@.scopes =~= Seq::<(nat, u8)>::empty());
            return it;
        }
        let mut scope_index = ScopeIndex::default();
        scope_index.start_of_scope = location;
        current_val = pj.tape_at(location);
        location = location + 1;
        current_type = (current_val >> 56u64) as u8;
        scope_index.scope_type = current_type;
        depth_index.push(scope_index);
        assert(current_type == tape_type(pj@.tape[0]));
        if current_type == 0x72 {
            let tape_words = pj.tape_len();
            assert(tape_payload(current_val) < tape_words);
            tape_length = (current_val & JSON_VALUE_MASK) as usize;
            assert(tape_length == tape_payload(pj@.tape[0]));
            if location < tape_length {
                current_val = pj.tape_at(location);
                current_type = (current_val >> 56u64) as u8;
                depth = depth + 1;
                // The scope of depth 1 is the next entry of `depth_index`.
                depth_index.push(ScopeIndex { start_of_scope: location, scope_type: current_type });
            }
        }
        let it = ParsedJsonIterator {
            pj,
            depth,
            location,
            tape_length,
            current_type,
            current_val,
            depth_index,
        };
        assert(it@.scopes =~= iterator_start(pj@.tape).scopes);
        it
    }

    /// Whether the iterator stands inside the tape.
    pub fn is_ok(&self) -> (r: bool)
        ensures
            r == (self@.location < self@.tape_length),
    {
        self.location < self.tape_length
    }

    /// The current depth (starting at 1, with 0 reserved for the fictitious root node).
    pub fn get_depth(&self) -> (r: usize)
        ensures
            r == self@.depth,
    {
        self.depth
    }

    /// Whether a word follows the current one inside the tape.
    pub fn move_forward(&mut self) -> (r: bool)
        ensures
            r == (old(self)@.location + 1 < old(self)@.tape_length),
            final(self)@ == old(self)@,
    {
        proof {
            use_type_invariant(&*self);
        }
        if self.location + 1 >= self.tape_length {
            return false;
        }
        true
    }
}

} // verus!
