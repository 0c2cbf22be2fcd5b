//! Object ids and the hash kind that produces them.

use vstd::prelude::*;
use crate::bytes::{lex_compare, lemma_lex_lt_neq, ByteCmp};
use vstd::slice::slice_to_vec;

verus! {

/// Number of bytes in an object id of the only supported hash kind.
pub const ID_LEN: usize = 20;

/// The kind of hash that identifies objects; only SHA-1 is supported.
#[derive(Clone, Copy, Debug, PartialEq, Eq, Structural)]
pub enum HashKind {
    Sha1,
}

impl HashKind {
    /// The byte length of an id of this kind.
    pub fn len_in_bytes(&self) -> (r: usize)
        ensures
            r == ID_LEN,
    {
        20
    }
}

/// A fixed-length hash identifying a stored object's content.
#[derive(Debug)]
pub struct ObjectId {
    bytes: Vec<u8>,
}

impl View for ObjectId {
    type V = Seq<u8>;

    closed spec fn view(&self) -> Seq<u8> {
        self.bytes@
    }
}

impl DeepView for ObjectId {
    type V = Seq<u8>;

    open spec fn deep_view(&self) -> Seq<u8> {
        self@
    }
}

impl ObjectId {
    /// An id holds exactly `ID_LEN` bytes.
    pub open spec fn wf(self) -> bool {
        self@.len() == ID_LEN
    }

    /// Wraps the given bytes as an id; fails unless exactly `ID_LEN` bytes
    /// are given.
    pub fn from_bytes(bytes: Vec<u8>) -> (r: Option<ObjectId>)
        ensures
            match r {
                Some(id) => id.wf() && id@ == bytes@,
                None => bytes@.len() != ID_LEN,
            },
    {
        if bytes.len() == 20 {
            Some(ObjectId { bytes })
        } else {
            None
        }
    }

    /// The id's raw bytes.
    pub fn as_bytes(&self) -> (r: &[u8])
        ensures
            r@ == self@,
    {
        self.bytes.as_slice()
    }

    /// The first byte of the id, which selects its fanout bucket.
    pub fn first_byte(&self) -> (r: u8)
        requires
            self.wf(),
        ensures
            r == self@[0],
    {
        self.bytes[0]
    }

    /// An owned copy of this id.
    pub fn duplicate(&self) -> (r: ObjectId)
        ensures
            r@ == self@,
    {
        ObjectId { bytes: slice_to_vec(self.bytes.as_slice()) }
    }
}

impl PartialEq for ObjectId {
    fn eq(&self, other: &Self) -> (r: bool) {
        let c = lex_compare(self.bytes.as_slice(), other.bytes.as_slice());
        proof {
            if c is Less || c is Greater {
                if c is Less {
                    lemma_lex_lt_neq(self@, other@);
                } else {
                    lemma_lex_lt_neq(other@, self@);
                }
            }
        }
        matches!(c, ByteCmp::Equal)
    }
}

impl vstd::std_specs::cmp::PartialEqSpecImpl for ObjectId {
    open spec fn obeys_eq_spec() -> bool {
        true
    }

    open spec fn eq_spec(&self, other: &Self) -> bool {
        self@ == other@
    }
}

} // verus!
