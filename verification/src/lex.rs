//! Arenas of the compile-time context: a byte arena with aligned allocation
//! and an append-only writer, a typed arena, and references that are kept as
//! offsets until the base they belong to is known.
use crate::ir::Word;
use crate::stack::StackVec;
use crate::types::Type;
use crate::types::TypeP;
use crate::vm::Code;
use vstd::string::StringSliceAdditionalSpecFns;
use vstd::prelude::*;

verus! {

/// The padding that brings `len` up to the next multiple of `align`.
pub open spec fn pad_to(len: nat, align: nat) -> nat {
    if len % align == 0 {
        0
    } else {
        (align - len % align) as nat
    }
}

/// A sequence of `n` zero bytes.
pub open spec fn zeros(n: nat) -> Seq<u8> {
    Seq::new(n, |i: int| 0u8)
}

/// The padded cursor is a multiple of the alignment, and the padding is as
/// small as that allows.
pub proof fn lemma_pad_to(len: nat, align: nat)
    requires
        align > 0,
    ensures
        (len + pad_to(len, align)) % align == 0,
        pad_to(len, align) < align,
{
    if len % align != 0 {
        let q = len as int / align as int;
        let r = len as int % align as int;
        vstd::arithmetic::div_mod::lemma_fundamental_div_mod(len as int, align as int);
        assert(len + pad_to(len, align) == align * (q + 1)) by (nonlinear_arith)
            requires
                len == align * q + r,
                pad_to(len, align) == align - r,
        ;
        vstd::arithmetic::div_mod::lemma_mod_multiples_basic(q + 1, align as int);
        assert(align * (q + 1) == (q + 1) * align) by (nonlinear_arith);
    }
}

// ───────────── byte arena ────────────────────────────
/// An untyped arena of bytes that grows by bumping its length.
pub struct StackAlloc(pub(crate) StackVec<u8>);

/// A saved length of a byte arena.
#[derive(Debug, Clone, Copy)]
pub struct StackAllocCheckPoint(pub(crate) usize);

impl StackAllocCheckPoint {
    /// The saved length.
    pub closed spec fn mark(self) -> nat {
        self.0 as nat
    }
}

impl View for StackAlloc {
    type V = Seq<u8>;

    closed spec fn view(&self) -> Seq<u8> {
        self.0@
    }
}

impl StackAlloc {
    pub closed spec fn capacity(&self) -> nat {
        self.0.capacity()
    }

    pub open spec fn wf(&self) -> bool {
        &&& self@.len() <= self.capacity()
        &&& self.capacity() <= usize::MAX
    }

    /// Empty arena of the given capacity.
    pub fn from_slice(capacity: usize) -> (a: Self)
        ensures
            a.wf(),
            a@ == Seq::<u8>::empty(),
            a.capacity() == capacity,
    {
        StackAlloc(StackVec::from_slice(capacity))
    }

    /// Reserves `size` zeroed bytes at the next offset that is a multiple of
    /// `align`, and gives that offset. Nothing changes when padding and
    /// payload do not fit.
    pub fn alloc_aligned(&mut self, size: usize, align: usize) -> (r: Option<usize>)
        requires
            old(self).wf(),
            align > 0,
        ensures
            final(self).wf(),
            final(self).capacity() == old(self).capacity(),
            match r {
                Some(at) => {
                    &&& at == old(self)@.len() + pad_to(old(self)@.len(), align as nat)
                    &&& at % align == 0
                    &&& at + size <= old(self).capacity()
                    &&& final(self)@ == old(self)@ + zeros((at - old(self)@.len() + size) as nat)
                },
                None => {
                    &&& old(self)@.len() + pad_to(old(self)@.len(), align as nat) + size > old(
                        self,
                    ).capacity()
                    &&& final(self)@ == old(self)@
                },
            },
    {
        let len: usize = self.0.len();
        let rest: usize = len % align;
        let pad: usize = if rest == 0 {
            0
        } else {
            align - rest
        };
        proof {
            lemma_pad_to(len as nat, align as nat);
        }
        let room: usize = self.0.room_left();
        if pad > room || size > room - pad {
            return None;
        }
        match self.0.alloc_n(pad + size, 0u8) {
            Some(_) => Some(len + pad),
            None => None,
        }
    }

    /// Saves the length.
    pub fn check_point(&self) -> (cp: StackAllocCheckPoint)
        ensures
            cp.mark() == self@.len(),
    {
        StackAllocCheckPoint(self.0.len())
    }

    /// Releases every byte reserved since the checkpoint.
    pub fn goto_checkpoint(&mut self, cp: StackAllocCheckPoint)
        requires
            old(self).wf(),
            cp.mark() <= old(self)@.len(),
        ensures
            final(self).wf(),
            final(self).capacity() == old(self).capacity(),
            final(self)@ == old(self)@.take(cp.mark() as int),
    {
        let to_free: usize = self.0.len() - cp.0;
        let _ = self.0.free(to_free);
    }

    pub fn len(&self) -> (n: usize)
        ensures
            n == self@.len(),
    {
        self.0.len()
    }

    pub fn is_empty(&self) -> (b: bool)
        ensures
            b == (self@.len() == 0),
    {
        self.0.is_empty()
    }

    /// The most bytes that the arena can hold.
    pub fn max_len(&self) -> (n: usize)
        ensures
            n == self.capacity(),
    {
        self.0.max_len()
    }

    /// Overwrites the bytes from offset `at` on with `bytes`, all of them or
    /// none: nothing changes where they would not lie inside what is
    /// reserved.
    pub fn put(&mut self, at: usize, bytes: &[u8]) -> (r: Option<()>)
        requires
            old(self).wf(),
        ensures
            final(self).wf(),
            final(self).capacity() == old(self).capacity(),
            match r {
                Some(_) => {
                    &&& at + bytes@.len() <= old(self)@.len()
                    &&& final(self)@ == old(self)@.take(at as int) + bytes@ + old(self)@.skip(
                        at + bytes@.len(),
                    )
                },
                None => at + bytes@.len() > old(self)@.len() && final(self)@ == old(self)@,
            },
    {
        let len: usize = self.0.len();
        let n: usize = bytes.len();
        if at > len || n > len - at {
            return None;
        }
        let mut i: usize = 0;
        while i < n
            invariant
                i <= n,
                n == bytes@.len(),
                at + n <= len,
                len == old(self)@.len(),
                self.wf(),
                self.capacity() == old(self).capacity(),
                self@ == old(self)@.take(at as int) + bytes@.take(i as int) + old(self)@.skip(
                    at + i,
                ),
            decreases n - i,
        {
            let _ = self.0.set(at + i, bytes[i]);
            i += 1;
            assert(self@ =~= old(self)@.take(at as int) + bytes@.take(i as int) + old(
                self,
            )@.skip(at + i));
        }
        assert(bytes@.take(n as int) =~= bytes@);
        Some(())
    }

    /// The bytes that `at` refers to.
    pub fn bytes(&self, at: &DelayedSlice) -> (r: Option<&[u8]>)
        ensures
            match r {
                Some(b) => at.within(self@.len()) && b@ == at.of(self@),
                None => !at.within(self@.len()),
            },
    {
        let len: usize = self.0.len();
        if at.start > len || at.len > len - at.start {
            None
        } else {
            let all = self.0.peek_many(len);
            match all {
                Some(all) => {
                    assert(all@ =~= self@);
                    Some(vstd::slice::slice_subrange(all, at.start, at.start + at.len))
                },
                None => None,
            }
        }
    }

    /// The text that `at` refers to, where its bytes are UTF-8.
    pub fn text(&self, at: &DelayedStr) -> (r: Option<&str>)
        ensures
            match r {
                Some(s) => {
                    &&& at.0.within(self@.len())
                    &&& vstd::utf8::valid_utf8(at.0.of(self@))
                    &&& s.spec_bytes() == at.0.of(self@)
                },
                None => !at.0.within(self@.len()) || !vstd::utf8::valid_utf8(at.0.of(self@)),
            },
    {
        match self.bytes(&at.0) {
            Some(b) => utf8_text(b),
            None => None,
        }
    }
}

/// `core::str::from_utf8` of std: the text that the bytes encode, where they
/// are valid UTF-8, and nothing where they are not.
#[verifier::external_body]
pub(crate) fn utf8_text(bytes: &[u8]) -> (r: Option<&str>)
    ensures
        match r {
            Some(s) => vstd::utf8::valid_utf8(bytes@) && s.spec_bytes() == bytes@,
            None => !vstd::utf8::valid_utf8(bytes@),
        },
{
    core::str::from_utf8(bytes).ok()
}

// ───────────── decimal numbers ───────────────────────
/// The decimal digits of `n`, as ASCII bytes, without leading zeros.
pub open spec fn digits(n: nat) -> Seq<u8>
    decreases n,
{
    if n < 10 {
        seq![(48 + n) as u8]
    } else {
        digits(n / 10).push((48 + n % 10) as u8)
    }
}

/// `n` in decimal, as ASCII bytes: a minus sign where it is negative, then
/// its digits.
pub open spec fn decimal(n: int) -> Seq<u8> {
    if n < 0 {
        seq![45u8] + digits((-n) as nat)
    } else {
        digits(n as nat)
    }
}

/// `n` in decimal.
pub fn decimal_text(n: i32) -> (out: Vec<u8>)
    ensures
        out@ == decimal(n as int),
{
    let whole: i64 = if n < 0 {
        -(n as i64)
    } else {
        n as i64
    };
    let mut rev: Vec<u8> = Vec::new();
    rev.push((48 + whole % 10) as u8);
    let mut m: i64 = whole / 10;
    assert(digits(whole as nat) =~= (if m > 0 {
        digits(m as nat)
    } else {
        Seq::<u8>::empty()
    }) + rev@.reverse());
    while m > 0
        invariant
            0 <= m <= whole,
            rev@.len() >= 1,
            digits(whole as nat) == (if m > 0 {
                digits(m as nat)
            } else {
                Seq::<u8>::empty()
            }) + rev@.reverse(),
        decreases m,
    {
        let ghost before = rev@;
        rev.push((48 + m % 10) as u8);
        assert(rev@.reverse() =~= seq![(48 + m % 10) as u8] + before.reverse());
        m = m / 10;
    }
    let mut out: Vec<u8> = Vec::new();
    if n < 0 {
        out.push(45u8);
    }
    let ghost sign = out@;
    let mut i: usize = rev.len();
    while i > 0
        invariant
            i <= rev@.len(),
            out@ == sign + rev@.reverse().take(rev@.len() - i),
        decreases i,
    {
        i -= 1;
        out.push(rev[i]);
        assert(out@ =~= sign + rev@.reverse().take(rev@.len() - i));
    }
    assert(rev@.reverse().take(rev@.len() as int) =~= rev@.reverse());
    assert(sign + digits(whole as nat) =~= decimal(n as int));
    out
}

// ───────────── writer ────────────────────────────────
/// An append-only writer into a byte arena. It remembers where it started;
/// `finish` gives the range written since.
pub struct StackWriter {
    pub(crate) start: usize,
}

impl StackWriter {
    /// The length of the arena when the writer was made.
    pub closed spec fn start(&self) -> nat {
        self.start as nat
    }

    pub fn new(alloc: &StackAlloc) -> (w: Self)
        ensures
            w.start() == alloc@.len(),
    {
        StackWriter { start: alloc.len() }
    }

    /// Appends `bytes`, all of them or none.
    pub fn write_bytes(&mut self, alloc: &mut StackAlloc, bytes: &[u8]) -> (r: Result<(), ()>)
        requires
            old(alloc).wf(),
        ensures
            final(alloc).wf(),
            final(alloc).capacity() == old(alloc).capacity(),
            final(self).start() == old(self).start(),
            match r {
                Ok(_) => {
                    &&& old(alloc)@.len() + bytes@.len() <= old(alloc).capacity()
                    &&& final(alloc)@ == old(alloc)@ + bytes@
                },
                Err(_) => {
                    &&& old(alloc)@.len() + bytes@.len() > old(alloc).capacity()
                    &&& final(alloc)@ == old(alloc)@
                },
            },
    {
        match alloc.0.push_slice(bytes) {
            Some(_) => Ok(()),
            None => Err(()),
        }
    }

    /// Appends the bytes of `s`, all of them or none.
    pub fn write_str(&mut self, alloc: &mut StackAlloc, s: &str) -> (r: Result<(), ()>)
        requires
            old(alloc).wf(),
        ensures
            final(alloc).wf(),
            final(alloc).capacity() == old(alloc).capacity(),
            final(self).start() == old(self).start(),
            match r {
                Ok(_) => {
                    &&& old(alloc)@.len() + s.spec_bytes().len() <= old(alloc).capacity()
                    &&& final(alloc)@ == old(alloc)@ + s.spec_bytes()
                },
                Err(_) => {
                    &&& old(alloc)@.len() + s.spec_bytes().len() > old(alloc).capacity()
                    &&& final(alloc)@ == old(alloc)@
                },
            },
    {
        self.write_bytes(alloc, s.as_bytes())
    }

    /// Appends `n` in decimal, all of it or nothing.
    pub fn write_int(&mut self, alloc: &mut StackAlloc, n: i32) -> (r: Result<(), ()>)
        requires
            old(alloc).wf(),
        ensures
            final(alloc).wf(),
            final(alloc).capacity() == old(alloc).capacity(),
            final(self).start() == old(self).start(),
            match r {
                Ok(_) => {
                    &&& old(alloc)@.len() + decimal(n as int).len() <= old(alloc).capacity()
                    &&& final(alloc)@ == old(alloc)@ + decimal(n as int)
                },
                Err(_) => {
                    &&& old(alloc)@.len() + decimal(n as int).len() > old(alloc).capacity()
                    &&& final(alloc)@ == old(alloc)@
                },
            },
    {
        let text = decimal_text(n);
        self.write_bytes(alloc, text.as_slice())
    }

    /// The range written since the writer was made.
    pub fn finish(self, alloc: &StackAlloc) -> (r: DelayedStr)
        requires
            self.start() <= alloc@.len(),
        ensures
            r.0.start() == self.start(),
            r.0.len() == alloc@.len() - self.start(),
            r.0.within(alloc@.len()),
            r.0.of(alloc@) == alloc@.skip(self.start() as int),
    {
        let r = DelayedStr(DelayedSlice { start: self.start, len: alloc.len() - self.start });
        assert(r.0.of(alloc@) =~= alloc@.skip(self.start() as int));
        r
    }
}

// ───────────── typed arena ───────────────────────────
/// A typed arena: each saved element gets the next index and keeps it until
/// the arena is rolled back past it.
pub struct StackAllocator<T>(pub(crate) StackVec<T>);

/// A saved length of a typed arena.
#[derive(Debug, Clone, Copy)]
pub struct StackAllocatorCheckPoint(pub(crate) usize);

impl StackAllocatorCheckPoint {
    /// The saved length, in elements.
    pub closed spec fn mark(self) -> nat {
        self.0 as nat
    }

    /// The saved length, in elements.
    pub fn at(&self) -> (n: usize)
        ensures
            n == self.mark(),
    {
        self.0
    }
}

impl<T> View for StackAllocator<T> {
    type V = Seq<T>;

    closed spec fn view(&self) -> Seq<T> {
        self.0@
    }
}

impl<T> StackAllocator<T> {
    pub closed spec fn capacity(&self) -> nat {
        self.0.capacity()
    }

    pub open spec fn wf(&self) -> bool {
        &&& self@.len() <= self.capacity()
        &&& self.capacity() <= usize::MAX
    }

    /// Empty arena of the given capacity.
    pub fn new(capacity: usize) -> (a: Self)
        ensures
            a.wf(),
            a@ == Seq::<T>::empty(),
            a.capacity() == capacity,
    {
        StackAllocator(StackVec::from_slice(capacity))
    }

    /// Saves `elem` and gives its index, or hands it back when the arena is
    /// full.
    pub fn save(&mut self, elem: T) -> (r: Result<usize, T>)
        requires
            old(self).wf(),
        ensures
            final(self).wf(),
            final(self).capacity() == old(self).capacity(),
            match r {
                Ok(at) => {
                    &&& old(self)@.len() < old(self).capacity()
                    &&& at == old(self)@.len()
                    &&& final(self)@ == old(self)@.push(elem)
                },
                Err(back) => {
                    &&& old(self)@.len() == old(self).capacity()
                    &&& back == elem
                    &&& final(self)@ == old(self)@
                },
            },
    {
        self.0.push(elem)
    }

    /// Saves the length.
    pub fn check_point(&self) -> (cp: StackAllocatorCheckPoint)
        ensures
            cp.mark() == self@.len(),
    {
        StackAllocatorCheckPoint(self.0.len())
    }

    /// The elements saved since the checkpoint, or nothing where the arena
    /// is shorter than the checkpoint.
    pub fn try_index_checkpoint(&self, cp: StackAllocatorCheckPoint) -> (r: Option<&[T]>)
        ensures
            match r {
                Some(out) => cp.mark() <= self@.len() && out@ == self@.skip(cp.mark() as int),
                None => cp.mark() > self@.len(),
            },
    {
        let len: usize = self.0.len();
        if cp.0 > len {
            None
        } else {
            self.0.peek_many(len - cp.0)
        }
    }

    /// The elements saved since the checkpoint.
    pub fn index_checkpoint(&self, cp: StackAllocatorCheckPoint) -> (out: &[T])
        requires
            cp.mark() <= self@.len(),
        ensures
            out@ == self@.skip(cp.mark() as int),
    {
        let len: usize = self.0.len();
        match self.0.peek_many(len - cp.0) {
            Some(out) => out,
            None => vstd::slice::slice_subrange(self.0.as_slice(), 0, 0),
        }
    }

    /// Drops every element saved since the checkpoint.
    pub fn goto_checkpoint(&mut self, cp: StackAllocatorCheckPoint)
        requires
            old(self).wf(),
            cp.mark() <= old(self)@.len(),
        ensures
            final(self).wf(),
            final(self).capacity() == old(self).capacity(),
            final(self)@ == old(self)@.take(cp.mark() as int),
    {
        let live: usize = self.0.len() - cp.0;
        let _ = self.0.flush(live);
    }

    /// All that the arena holds, in the order in which it was saved.
    pub fn as_slice(&self) -> (out: &[T])
        ensures
            out@ == self@,
    {
        self.0.as_slice()
    }

    /// An address inside this arena: its index.
    pub fn with_addr(&self, addr: usize) -> (at: usize)
        ensures
            at == addr,
    {
        addr
    }

    pub fn len(&self) -> (n: usize)
        ensures
            n == self@.len(),
    {
        self.0.len()
    }

    pub fn is_empty(&self) -> (b: bool)
        ensures
            b == (self@.len() == 0),
    {
        self.0.is_empty()
    }

    /// The most elements that the arena can hold.
    pub fn max_len(&self) -> (n: usize)
        ensures
            n == self.capacity(),
    {
        self.0.max_len()
    }

    /// The element saved with index `at`.
    pub fn get(&self, at: usize) -> (r: Option<&T>)
        ensures
            match r {
                Some(v) => at < self@.len() && *v == self@[at as int],
                None => at >= self@.len(),
            },
    {
        self.0.get(at)
    }

    /// Overwrites the element saved with index `at`.
    pub fn set(&mut self, at: usize, v: T) -> (r: Option<()>)
        ensures
            final(self).capacity() == old(self).capacity(),
            match r {
                Some(_) => at < old(self)@.len() && final(self)@ == old(self)@.update(at as int, v),
                None => at >= old(self)@.len() && final(self)@ == old(self)@,
            },
    {
        self.0.set(at, v)
    }
}

// ───────────── delayed references ────────────────────
/// A reference to one element, kept as an offset from a base until
/// `offset_from` turns it into an address.
#[derive(Debug, Clone, Copy, PartialEq, Eq, Structural)]
pub struct DelayedRef {
    pub inner: usize,
}

impl DelayedRef {
    /// The offset or, after `offset_from`, the address.
    pub open spec fn at(&self) -> usize {
        self.inner
    }

    /// A reference to the element at address `at`, as an offset from `base`.
    pub fn new_offset(base: usize, at: usize) -> (r: Self)
        ensures
            r.at() == vstd::wrapping::usize_specs::wrapping_sub(at, base),
            at >= base ==> r.at() == at - base,
    {
        DelayedRef { inner: at.wrapping_sub(base) }
    }

    /// Turns the offset into the address that it has under `base`.
    pub fn offset_from(&mut self, base: usize)
        ensures
            final(self).at() == vstd::wrapping::usize_specs::wrapping_add(base, old(self).at()),
    {
        self.inner = base.wrapping_add(self.inner);
    }
}

/// A reference to a run of elements, kept as an offset from a base until
/// `offset_from` turns it into an address.
#[derive(Debug, Clone, Copy, PartialEq, Eq, Structural)]
pub struct DelayedSlice {
    pub start: usize,
    pub len: usize,
}

impl DelayedSlice {
    /// The offset or, after `offset_from`, the address of the first element.
    pub open spec fn start(&self) -> usize {
        self.start
    }

    /// The number of elements.
    pub open spec fn len(&self) -> usize {
        self.len
    }

    /// The run lies inside a region of `n` elements.
    pub open spec fn within(&self, n: nat) -> bool {
        self.start() + self.len() <= n
    }

    /// The elements of `mem` that the run refers to.
    pub open spec fn of<T>(&self, mem: Seq<T>) -> Seq<T> {
        mem.subrange(self.start() as int, self.start() + self.len())
    }

    /// A reference to `len` elements from address `at`, as an offset from
    /// `base`.
    pub fn new_offset(base: usize, at: usize, len: usize) -> (r: Self)
        ensures
            r.start() == vstd::wrapping::usize_specs::wrapping_sub(at, base),
            at >= base ==> r.start() == at - base,
            r.len() == len,
    {
        DelayedSlice { start: at.wrapping_sub(base), len }
    }

    /// Turns the offset into the address that it has under `base`.
    pub fn offset_from(&mut self, base: usize)
        ensures
            final(self).start() == vstd::wrapping::usize_specs::wrapping_add(
                base,
                old(self).start(),
            ),
            final(self).len() == old(self).len(),
    {
        self.start = base.wrapping_add(self.start);
    }

    /// The address of the first element.
    pub fn first(&self) -> (at: usize)
        ensures
            at == self.start(),
    {
        self.start
    }

    /// The number of elements.
    pub fn count(&self) -> (n: usize)
        ensures
            n == self.len(),
    {
        self.len
    }
}

/// A reference to a run of bytes that hold text.
#[derive(Debug, Clone, Copy, PartialEq, Eq, Structural)]
pub struct DelayedStr(pub DelayedSlice);

impl DelayedStr {
    /// A reference to `len` bytes of text from address `at`, as an offset from
    /// `base`.
    pub fn new_offset(base: usize, at: usize, len: usize) -> (r: Self)
        ensures
            r.0.start() == vstd::wrapping::usize_specs::wrapping_sub(at, base),
            at >= base ==> r.0.start() == at - base,
            r.0.len() == len,
    {
        DelayedStr(DelayedSlice::new_offset(base, at, len))
    }

    /// Turns the offset into the address that it has under `base`.
    pub fn offset_from(&mut self, base: usize)
        ensures
            final(self).0.start() == vstd::wrapping::usize_specs::wrapping_add(
                base,
                old(self).0.start(),
            ),
            final(self).0.len() == old(self).0.len(),
    {
        self.0.offset_from(base);
    }
}

/// An offset taken from a base and put back under the same base is the
/// address that it was taken from.
pub proof fn lemma_offset_round_trip(base: usize, at: usize)
    ensures
        vstd::wrapping::usize_specs::wrapping_add(
            base,
            vstd::wrapping::usize_specs::wrapping_sub(at, base),
        ) == at,
{
}

// ───────────── tables ────────────────────────────────
/// A table from keys, which are sequences of numbers, to indices. It is held
/// in a `hashbrown::HashMap`.
#[verifier::external_body]
pub struct PalHash {
    map: hashbrown::HashMap<Vec<u64>, usize>,
}

/// What a table holds.
pub uninterp spec fn table_contents(t: PalHash) -> Map<Seq<u64>, usize>;

/// The contents of a table that holds nothing.
pub open spec fn empty_table() -> Map<Seq<u64>, usize> {
    Map::empty()
}

/// What a lookup in a table with these contents gives.
pub open spec fn lookup(contents: Map<Seq<u64>, usize>, key: Seq<u64>) -> Option<usize> {
    if contents.dom().contains(key) {
        Some(contents[key])
    } else {
        None
    }
}

impl PalHash {
    /// `HashMap::new` of hashbrown: a table that holds nothing.
    #[verifier::external_body]
    pub(crate) fn new() -> (t: PalHash)
        ensures
            table_contents(t) == empty_table(),
    {
        PalHash { map: hashbrown::HashMap::new() }
    }

    /// `HashMap::get` of hashbrown: the index kept under `key`, if the table
    /// holds the key.
    #[verifier::external_body]
    pub(crate) fn get(&self, key: &Vec<u64>) -> (r: Option<usize>)
        ensures
            r == lookup(table_contents(*self), key@),
    {
        self.map.get(key).copied()
    }

    /// `HashMap::insert` of hashbrown: keeps `at` under `key` and gives the
    /// index that was kept under the key before, if there was one.
    #[verifier::external_body]
    pub(crate) fn insert(&mut self, key: Vec<u64>, at: usize) -> (r: Option<usize>)
        ensures
            table_contents(*final(self)) == table_contents(*old(self)).insert(key@, at),
            r == lookup(table_contents(*old(self)), key@),
    {
        self.map.insert(key, at)
    }
}

/// The key under which a name is kept in a table: its bytes, each as a
/// number.
pub open spec fn spec_name_key(name: Seq<u8>) -> Seq<u64> {
    name.map_values(|b: u8| b as u64)
}

/// The key of a name.
pub fn name_key(name: &[u8]) -> (key: Vec<u64>)
    ensures
        key@ == spec_name_key(name@),
{
    let mut key: Vec<u64> = Vec::new();
    let mut i: usize = 0;
    while i < name.len()
        invariant
            i <= name@.len(),
            key@ == spec_name_key(name@.take(i as int)),
        decreases name@.len() - i,
    {
        key.push(name[i] as u64);
        i += 1;
        assert(key@ =~= spec_name_key(name@.take(i as int)));
    }
    assert(name@.take(name@.len() as int) =~= name@);
    key
}

/// Two names with the same key are the same name.
pub proof fn lemma_name_key_injective(a: Seq<u8>, b: Seq<u8>)
    requires
        spec_name_key(a) == spec_name_key(b),
    ensures
        a == b,
{
    assert(a.len() == spec_name_key(a).len());
    assert(b.len() == spec_name_key(b).len());
    assert forall|i: int| 0 <= i < a.len() implies a[i] == b[i] by {
        assert(spec_name_key(a)[i] == a[i] as u64);
        assert(spec_name_key(b)[i] == b[i] as u64);
    }
    assert(a =~= b);
}

// ───────────── the compile-time context's memory ─────
/// The mathematical model of what a compilation owns.
pub struct LexModel {
    /// The finished code cells.
    pub code: Seq<Code>,
    /// Data of the compiled program.
    pub data: Seq<u8>,
    /// The names, one after the other.
    pub names: Seq<u8>,
    /// The interned types; a type's index is its identity.
    pub types: Seq<Type>,
    /// The members of the cluster types, one list after the other.
    pub lists: Seq<TypeP>,
    /// From the key of a shape to the type that has the shape.
    pub type_map: Map<Seq<u64>, usize>,
    /// From the key of a name to the index of the word in `word_list`.
    pub words: Map<Seq<u64>, usize>,
    /// The words in the order in which they were stored.
    pub word_list: Seq<Word>,
}

impl LexModel {
    /// The word that is stored under the name, if there is one.
    pub open spec fn stored(self, name: Seq<u8>) -> Option<Word> {
        match lookup(self.words, spec_name_key(name)) {
            Some(at) => if at < self.word_list.len() {
                Some(self.word_list[at as int])
            } else {
                None
            },
            None => None,
        }
    }

    /// The name of every type lies in the name arena.
    pub open spec fn types_named(self) -> bool {
        forall|t: int|
            0 <= t < self.types.len() ==> (#[trigger] self.types[t]).name.0.within(
                self.names.len(),
            )
    }
}

/// What a compilation owns: the arenas for generated code, data, names and
/// types, the table that makes equal shapes one type, and the word table.
pub struct Lex {
    pub code_mem: StackAllocator<Code>,
    pub data_mem: StackAlloc,
    pub comp_data_mem: StackAlloc,
    pub types_mem: StackAllocator<Type>,
    pub type_lists: StackAllocator<TypeP>,
    pub type_map: PalHash,
    pub words: PalHash,
    pub word_list: Vec<Word>,
}

impl View for Lex {
    type V = LexModel;

    open spec fn view(&self) -> LexModel {
        LexModel {
            code: self.code_mem@,
            data: self.data_mem@,
            names: self.comp_data_mem@,
            types: self.types_mem@,
            lists: self.type_lists@,
            type_map: table_contents(self.type_map),
            words: table_contents(self.words),
            word_list: self.word_list@,
        }
    }
}

impl Lex {
    /// No arena holds more than its capacity, and the name of every type
    /// lies in the name arena.
    pub open spec fn wf(&self) -> bool {
        &&& self.code_mem.wf()
        &&& self.data_mem.wf()
        &&& self.comp_data_mem.wf()
        &&& self.types_mem.wf()
        &&& self.type_lists.wf()
        &&& self@.types_named()
    }

    /// The two have arenas of the same capacities.
    pub open spec fn same_limits(&self, other: &Lex) -> bool {
        &&& self.code_mem.capacity() == other.code_mem.capacity()
        &&& self.data_mem.capacity() == other.data_mem.capacity()
        &&& self.comp_data_mem.capacity() == other.comp_data_mem.capacity()
        &&& self.types_mem.capacity() == other.types_mem.capacity()
        &&& self.type_lists.capacity() == other.type_lists.capacity()
    }

    /// Empty arenas of the given capacities and empty tables. Code cell 0 is
    /// taken at once, by a cell that is never run: 0 is the null address.
    pub fn new(
        code_cells: usize,
        data_bytes: usize,
        name_bytes: usize,
        types: usize,
        list_slots: usize,
    ) -> (lex: Self)
        ensures
            lex.wf(),
            lex@.code.len() == (if code_cells > 0 {
                1nat
            } else {
                0nat
            }),
            code_cells > 0 ==> lex@.code[0] == (Code {
                f: crate::vm::BuildinPtr { inner: None },
                param: crate::vm::NULL_CODE,
            }),
            lex@.data.len() == 0,
            lex@.names.len() == 0,
            lex@.types.len() == 0,
            lex@.lists.len() == 0,
            lex@.type_map == empty_table(),
            lex@.words == empty_table(),
            lex@.word_list.len() == 0,
            lex.code_mem.capacity() == code_cells,
            lex.data_mem.capacity() == data_bytes,
            lex.comp_data_mem.capacity() == name_bytes,
            lex.types_mem.capacity() == types,
            lex.type_lists.capacity() == list_slots,
    {
        let mut code_mem: StackAllocator<Code> = StackAllocator::new(code_cells);
        let _ = code_mem.save(Code::word_raw(crate::vm::NULL_CODE));
        Lex {
            code_mem,
            data_mem: StackAlloc::from_slice(data_bytes),
            comp_data_mem: StackAlloc::from_slice(name_bytes),
            types_mem: StackAllocator::new(types),
            type_lists: StackAllocator::new(list_slots),
            type_map: PalHash::new(),
            words: PalHash::new(),
            word_list: Vec::new(),
        }
    }

    /// Writes a name into the name arena and gives its range, or nothing
    /// where it does not fit.
    pub fn intern_name(&mut self, name: &str) -> (r: Option<DelayedStr>)
        requires
            old(self).wf(),
        ensures
            final(self).wf(),
            final(self).same_limits(old(self)),
            match r {
                Some(at) => {
                    &&& old(self)@.names.len() + name.spec_bytes().len() <= old(
                        self,
                    ).comp_data_mem.capacity()
                    &&& final(self)@ == (LexModel {
                        names: old(self)@.names + name.spec_bytes(),
                        ..old(self)@
                    })
                    &&& at.0.start() == old(self)@.names.len()
                    &&& at.0.len() == name.spec_bytes().len()
                    &&& at.0.of(final(self)@.names) == name.spec_bytes()
                },
                None => {
                    &&& old(self)@.names.len() + name.spec_bytes().len() > old(
                        self,
                    ).comp_data_mem.capacity()
                    &&& final(self)@ == old(self)@
                },
            },
    {
        let mut writer = StackWriter::new(&self.comp_data_mem);
        match writer.write_str(&mut self.comp_data_mem, name) {
            Ok(_) => {
                let at = writer.finish(&self.comp_data_mem);
                assert(at.0.of(self@.names) =~= name.spec_bytes());
                Some(at)
            },
            Err(_) => None,
        }
    }

    /// The text of a name.
    pub fn name_text(&self, name: &DelayedStr) -> (r: Option<&str>)
        ensures
            match r {
                Some(s) => {
                    &&& name.0.within(self@.names.len())
                    &&& vstd::utf8::valid_utf8(name.0.of(self@.names))
                    &&& s.spec_bytes() == name.0.of(self@.names)
                },
                None => !name.0.within(self@.names.len()) || !vstd::utf8::valid_utf8(
                    name.0.of(self@.names),
                ),
            },
    {
        self.comp_data_mem.text(name)
    }

    /// The type that has the index `t`.
    pub fn type_at(&self, t: TypeP) -> (r: Option<&Type>)
        ensures
            match r {
                Some(ty) => t < self@.types.len() && *ty == self@.types[t as int],
                None => t >= self@.types.len(),
            },
    {
        self.types_mem.get(t)
    }

    /// The word that was stored under the name, if there is one.
    pub fn find_word(&self, name: &[u8]) -> (r: Option<&Word>)
        ensures
            match self@.stored(name@) {
                Some(word) => r == Some(&word),
                None => r is None,
            },
    {
        let key = name_key(name);
        match self.words.get(&key) {
            Some(at) => {
                if at < self.word_list.len() {
                    Some(&self.word_list[at])
                } else {
                    None
                }
            },
            None => None,
        }
    }
}

} // verus!
