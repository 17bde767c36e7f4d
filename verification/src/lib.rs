//! A minimal virtual machine and compiler core for a stack-based language:
//! fixed-capacity stacks and arenas, a threaded-code interpreter, and a
//! compile-time permission checker for stack-resident values.
use crate::types::SigError;
use vstd::prelude::*;

pub mod buildins;
pub mod input;
pub mod intern;
pub mod ir;
pub mod lex;
pub mod modes;
pub mod report;
pub mod stack;
pub mod types;
pub mod vm;

verus! {

pub type PalInt = i64;

pub type PalBool = bool;

pub const TRUE: PalBool = true;

pub const FALSE: PalBool = false;

/// One cell of runtime storage: a fixed-width word without a tag. Whether it
/// holds an integer, a boolean or a code address is known to the signature
/// checker alone.
#[derive(Clone, Copy, Debug, PartialEq, Eq)]
pub struct PalData {
    pub word: i64,
}

/// The mask of the low `k` bytes of a word, for `k` from 0 to 8.
pub open spec fn spec_low_mask(k: nat) -> i64 {
    if k == 0 {
        0
    } else if k == 1 {
        0xff
    } else if k == 2 {
        0xffff
    } else if k == 3 {
        0xff_ffff
    } else if k == 4 {
        0xffff_ffff
    } else if k == 5 {
        0xff_ffff_ffff
    } else if k == 6 {
        0xffff_ffff_ffff
    } else if k == 7 {
        0xff_ffff_ffff_ffff
    } else {
        -1i64
    }
}

impl PalData {
    /// The cell that holds the integer `v`.
    pub fn from_int(v: PalInt) -> (c: Self)
        ensures
            c.word == v,
    {
        PalData { word: v }
    }

    /// The cell read as an integer.
    pub fn as_int(self) -> (v: PalInt)
        ensures
            v == self.word,
    {
        self.word
    }

    /// The cell read as a boolean: its lowest byte is not zero.
    pub open spec fn spec_as_bool(self) -> bool {
        self.word & 0xff != 0
    }

    /// The cell with its lowest byte set to `b`, which is how a boolean is
    /// written; the other bytes stay.
    pub open spec fn spec_with_bool(self, b: bool) -> PalData {
        PalData {
            word: (self.word & !0xffi64) | (if b {
                1i64
            } else {
                0i64
            }),
        }
    }

    pub fn as_bool(self) -> (b: PalBool)
        ensures
            b == self.spec_as_bool(),
    {
        self.word & 0xff != 0
    }

    pub fn with_bool(self, b: PalBool) -> (c: Self)
        ensures
            c == self.spec_with_bool(b),
    {
        let bit: i64 = if b {
            1
        } else {
            0
        };
        PalData { word: (self.word & !0xffi64) | bit }
    }

    /// The cell that holds the boolean `b` and zero elsewhere.
    pub fn from_bool(b: PalBool) -> (c: Self)
        ensures
            c == (PalData { word: 0 }).spec_with_bool(b),
            c.spec_as_bool() == b,
    {
        proof {
            lemma_bool_round_trip(PalData { word: 0 }, b);
        }
        PalData { word: 0 }.with_bool(b)
    }

    /// The cell read as a code address.
    pub open spec fn spec_as_code(self) -> usize {
        self.word as usize
    }

    pub fn as_code(self) -> (at: usize)
        ensures
            at == self.spec_as_code(),
    {
        #[verifier::truncate]
        (self.word as usize)
    }

    /// The cell that holds the code address `at`.
    pub fn from_code(at: usize) -> (c: Self)
        ensures
            c.word == at as i64,
    {
        PalData {
            word: #[verifier::truncate]
            (at as i64),
        }
    }

    /// The cell with its low `k` bytes taken from `src`; the other bytes
    /// stay.
    pub open spec fn spec_with_low_bytes(self, src: PalData, k: nat) -> PalData {
        PalData { word: (self.word & !spec_low_mask(k)) | (src.word & spec_low_mask(k)) }
    }

    pub fn with_low_bytes(self, src: PalData, k: usize) -> (c: Self)
        ensures
            c == self.spec_with_low_bytes(src, k as nat),
    {
        let mask: i64 = low_mask(k);
        PalData { word: (self.word & !mask) | (src.word & mask) }
    }
}

/// The mask of the low `k` bytes of a word.
pub fn low_mask(k: usize) -> (m: i64)
    ensures
        m == spec_low_mask(k as nat),
{
    if k == 0 {
        0
    } else if k == 1 {
        0xff
    } else if k == 2 {
        0xffff
    } else if k == 3 {
        0xff_ffff
    } else if k == 4 {
        0xffff_ffff
    } else if k == 5 {
        0xff_ffff_ffff
    } else if k == 6 {
        0xffff_ffff_ffff
    } else if k == 7 {
        0xff_ffff_ffff_ffff
    } else {
        -1
    }
}

/// A boolean that was written into a cell is the boolean that is read from
/// it.
pub proof fn lemma_bool_round_trip(c: PalData, b: bool)
    ensures
        c.spec_with_bool(b).spec_as_bool() == b,
{
    let w = c.word;
    assert((((w & !0xffi64) | 1i64) & 0xff) != 0) by (bit_vector);
    assert((((w & !0xffi64) | 0i64) & 0xff) == 0) by (bit_vector);
}

/// Taking all eight bytes from a cell gives that cell, and taking none gives
/// back the cell that was there.
pub proof fn lemma_low_bytes_ends(c: PalData, src: PalData)
    ensures
        c.spec_with_low_bytes(src, 8) == src,
        c.spec_with_low_bytes(src, 0) == c,
{
    let w = c.word;
    let v = src.word;
    assert(((w & !(-1i64)) | (v & -1i64)) == v) by (bit_vector);
    assert(((w & !0i64) | (v & 0i64)) == w) by (bit_vector);
}

/// Why the machine or the compiler stopped.
#[derive(Debug, Clone, PartialEq, Eq)]
pub enum PalError {
    /// A pop, a peek or a release found too few elements on a stack.
    StackUnderFlow,
    /// A push or a reservation found too little room on a stack.
    StackOverFlow,
    /// An integer division or remainder by zero, or one whose result does
    /// not fit.
    DivideByZero,
    /// A cell address or a code address outside the machine's memory.
    BadAddress,
    /// A copy that must not overlap was asked for overlapping ranges.
    Overlap,
    /// The step budget ran out before the program ended.
    StepLimit,
    /// Bytes that were to be put out as text are not UTF-8.
    BadText,
    /// A call was refused by the signature checker.
    SigError(SigError),
    /// A word that is not in the word table.
    Missingword(String),
}

impl From<SigError> for PalError {
    fn from(s: SigError) -> (e: PalError) {
        PalError::SigError(s)
    }
}

impl vstd::std_specs::convert::FromSpecImpl<SigError> for PalError {
    open spec fn obeys_from_spec() -> bool {
        true
    }

    open spec fn from_spec(s: SigError) -> PalError {
        PalError::SigError(s)
    }
}

} // verus!
