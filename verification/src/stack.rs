//! Fixed-capacity, down-growing stacks over caller-supplied storage.
//!
//! A region is a buffer of `capacity` slots and a cursor `head`. The live
//! elements are the slots from `head` up to the end of the buffer, so the slot
//! at `head` is the top of the stack and pushing moves `head` towards zero.
use vstd::prelude::*;

verus! {

/// The mathematical model of a stack region: the whole storage, dead slots
/// included, and the live cursor.
pub struct StackModel<T> {
    pub store: Seq<T>,
    pub head: nat,
}

impl<T> StackModel<T> {
    /// The cursor lies inside the region.
    pub open spec fn wf(self) -> bool {
        self.head <= self.store.len()
    }

    pub open spec fn capacity(self) -> nat {
        self.store.len()
    }

    /// The live elements, top first.
    pub open spec fn live(self) -> Seq<T> {
        self.store.skip(self.head as int)
    }

    /// Number of live elements.
    pub open spec fn depth(self) -> nat {
        (self.store.len() - self.head) as nat
    }

    /// Number of free slots below the cursor.
    pub open spec fn room(self) -> nat {
        self.head
    }

    /// The region after one push.
    pub open spec fn push(self, v: T) -> Self {
        StackModel { store: self.store.update(self.head - 1, v), head: (self.head - 1) as nat }
    }

    /// The region after `vs` was written in one block; `vs[0]` is the new top.
    pub open spec fn push_run(self, vs: Seq<T>) -> Self {
        StackModel {
            store: Seq::new(
                self.store.len(),
                |i: int|
                    if self.head - vs.len() <= i < self.head {
                        vs[i - (self.head - vs.len())]
                    } else {
                        self.store[i]
                    },
            ),
            head: (self.head - vs.len()) as nat,
        }
    }

    /// The region after the top `n` slots were released. The storage keeps
    /// what it held.
    pub open spec fn release(self, n: nat) -> Self {
        StackModel { store: self.store, head: self.head + n }
    }

    /// The region after `n` slots were reserved without being written.
    pub open spec fn reserve(self, n: nat) -> Self {
        StackModel { store: self.store, head: (self.head - n) as nat }
    }

    /// The region with its cursor moved to `cursor`.
    pub open spec fn rewind(self, cursor: nat) -> Self {
        StackModel { store: self.store, head: cursor }
    }

    /// The region after the `count` slots that lie `skip` below the top were
    /// removed and the `skip` slots above them moved down.
    pub open spec fn drop_inside(self, skip: nat, count: nat) -> Self {
        StackModel {
            store: Seq::new(
                self.store.len(),
                |i: int|
                    if self.head + count <= i < self.head + count + skip {
                        self.store[i - count]
                    } else {
                        self.store[i]
                    },
            ),
            head: self.head + count,
        }
    }

    /// The region with the slot `n` below the top overwritten.
    pub open spec fn set_spot(self, n: nat, v: T) -> Self {
        StackModel { store: self.store.update((self.head + n) as int, v), head: self.head }
    }
}

/// A saved cursor of a stack region.
#[derive(Debug, Clone, Copy, PartialEq, Eq)]
pub struct StackCheckPoint {
    pub(crate) head: usize,
}

impl StackCheckPoint {
    /// The saved cursor.
    pub closed spec fn cursor(self) -> nat {
        self.head as nat
    }
}

/// A down-growing fixed-capacity LIFO stack that owns its storage.
pub struct StackRef<T> {
    pub(crate) buf: Vec<T>,
    pub(crate) head: usize,
}

impl<T> View for StackRef<T> {
    type V = StackModel<T>;

    closed spec fn view(&self) -> StackModel<T> {
        StackModel { store: self.buf@, head: self.head as nat }
    }
}

/// Storage of `n` slots, each holding `fill`.
pub fn make_storage<T: Copy>(n: usize, fill: T) -> (buf: Vec<T>)
    ensures
        buf@ == Seq::new(n as nat, |i: int| fill),
{
    let mut buf: Vec<T> = Vec::new();
    let mut i: usize = 0;
    while i < n
        invariant
            i <= n,
            buf@ == Seq::new(i as nat, |k: int| fill),
        decreases n - i,
    {
        buf.push(fill);
        i += 1;
        assert(buf@ =~= Seq::new(i as nat, |k: int| fill));
    }
    buf
}

impl<T: Copy> StackRef<T> {
    /// The cursor lies inside the storage, and every slot has an address.
    pub open spec fn wf(&self) -> bool {
        &&& self@.wf()
        &&& self@.capacity() <= usize::MAX
    }

    /// Empty stack over `buf`; what the slots hold is dead.
    pub fn from_slice(buf: Vec<T>) -> (s: Self)
        ensures
            s.wf(),
            s@.store == buf@,
            s@.head == buf@.len(),
            s@.live() == Seq::<T>::empty(),
    {
        let head = buf.len();
        let s = StackRef { buf, head };
        assert(s@.live() =~= Seq::<T>::empty());
        s
    }

    /// Stack that is full: every slot of `buf` is live and `buf[0]` is the top.
    pub fn new_full(buf: Vec<T>) -> (s: Self)
        ensures
            s.wf(),
            s@.store == buf@,
            s@.head == 0,
            s@.live() == buf@,
    {
        proof {
            vstd::std_specs::vec::axiom_spec_len(&buf);
        }
        let s = StackRef { buf, head: 0 };
        assert(s@.live() =~= buf@);
        s
    }

    /// Gives the storage back.
    pub fn to_slice(self) -> (buf: Vec<T>)
        ensures
            buf@ == self@.store,
    {
        self.buf
    }

    /// Number of live elements.
    pub fn write_index(&self) -> (n: usize)
        requires
            self.wf(),
        ensures
            n == self@.depth(),
            n == self@.live().len(),
    {
        self.buf.len() - self.head
    }

    /// Free capacity below the cursor.
    pub fn room_left(&self) -> (n: usize)
        ensures
            n == self@.room(),
    {
        self.head
    }

    /// Number of slots, live or free.
    pub fn max_len(&self) -> (n: usize)
        ensures
            n == self@.capacity(),
    {
        self.buf.len()
    }

    /// Sets the depth directly; the slots that become live keep what the
    /// storage held.
    pub fn set_write_index(&mut self, idx: usize)
        requires
            old(self).wf(),
            idx <= old(self)@.capacity(),
        ensures
            final(self).wf(),
            final(self)@ == old(self)@.rewind((old(self)@.capacity() - idx) as nat),
            final(self)@.depth() == idx,
    {
        self.head = self.buf.len() - idx;
    }

    pub fn len(&self) -> (n: usize)
        requires
            self.wf(),
        ensures
            n == self@.depth(),
    {
        self.write_index()
    }

    pub fn is_empty(&self) -> (b: bool)
        requires
            self.wf(),
        ensures
            b == (self@.depth() == 0),
    {
        self.len() == 0
    }

    /// Pushes `v`, or hands it back when the stack is full.
    pub fn push(&mut self, v: T) -> (r: Result<(), T>)
        requires
            old(self).wf(),
        ensures
            final(self).wf(),
            match r {
                Ok(_) => {
                    &&& old(self)@.room() > 0
                    &&& final(self)@ == old(self)@.push(v)
                    &&& final(self)@.live() == seq![v] + old(self)@.live()
                },
                Err(back) => {
                    &&& old(self)@.room() == 0
                    &&& back == v
                    &&& final(self)@ == old(self)@
                },
            },
    {
        if self.room_left() == 0 {
            return Err(v);
        }
        self.buf.set(self.head - 1, v);
        self.head = self.head - 1;
        assert(self@.live() =~= seq![v] + old(self)@.live());
        Ok(())
    }

    /// Pops the top, or `None` when the stack is empty.
    pub fn pop(&mut self) -> (r: Option<T>)
        requires
            old(self).wf(),
        ensures
            final(self).wf(),
            match r {
                Some(v) => {
                    &&& old(self)@.depth() > 0
                    &&& v == old(self)@.live()[0]
                    &&& final(self)@ == old(self)@.release(1)
                    &&& final(self)@.live() == old(self)@.live().skip(1)
                },
                None => {
                    &&& old(self)@.depth() == 0
                    &&& final(self)@ == old(self)@
                },
            },
    {
        if self.write_index() == 0 {
            return None;
        }
        let v = self.buf[self.head];
        assert(self.head < self.buf.len());
        self.head = self.head + 1;
        assert(self@.live() =~= old(self)@.live().skip(1));
        Some(v)
    }

    /// Pushes a whole array in one block; `arr[0]` becomes the top. Hands the
    /// array back when it does not fit.
    pub fn push_n<const N: usize>(&mut self, arr: [T; N]) -> (r: Result<(), [T; N]>)
        requires
            old(self).wf(),
        ensures
            final(self).wf(),
            match r {
                Ok(_) => {
                    &&& old(self)@.room() >= N
                    &&& final(self)@ == old(self)@.push_run(arr@)
                    &&& final(self)@.live() == arr@ + old(self)@.live()
                },
                Err(back) => {
                    &&& old(self)@.room() < N
                    &&& back == arr
                    &&& final(self)@ == old(self)@
                },
            },
    {
        if self.room_left() < N {
            return Err(arr);
        }
        let base: usize = self.head - N;
        let mut i: usize = 0;
        while i < N
            invariant
                i <= N,
                base + N == self.head,
                self.head == old(self).head,
                self.buf@.len() == old(self).buf@.len(),
                self.head <= self.buf@.len(),
                arr@.len() == N,
                forall|k: int|
                    0 <= k < self.buf@.len() ==> self.buf@[k] == (if base <= k < base + i {
                        arr@[k - base]
                    } else {
                        old(self).buf@[k]
                    }),
            decreases N - i,
        {
            self.buf.set(base + i, arr[i]);
            i += 1;
        }
        self.head = base;
        assert(self@.store =~= old(self)@.push_run(arr@).store);
        assert(self@.live() =~= arr@ + old(self)@.live());
        Ok(())
    }

    /// Pops the top `N` elements as an array, top first.
    pub fn pop_n<const N: usize>(&mut self) -> (r: Option<[T; N]>)
        requires
            old(self).wf(),
        ensures
            final(self).wf(),
            match r {
                Some(out) => {
                    &&& old(self)@.depth() >= N
                    &&& out@ == old(self)@.live().take(N as int)
                    &&& final(self)@ == old(self)@.release(N as nat)
                    &&& final(self)@.live() == old(self)@.live().skip(N as int)
                },
                None => {
                    &&& old(self)@.depth() < N
                    &&& final(self)@ == old(self)@
                },
            },
    {
        if self.write_index() < N {
            return None;
        }
        assert(self.head + N <= self.buf.len());
        let top = vstd::slice::slice_subrange(self.buf.as_slice(), self.head, self.head + N);
        let out: [T; N] = *slice_as_array::<T, N>(top);
        self.head = self.head + N;
        assert(out@ =~= old(self)@.live().take(N as int));
        assert(self@.live() =~= old(self)@.live().skip(N as int));
        Some(out)
    }

    /// Pushes a copy of `src` in one block; `src[0]` becomes the top.
    pub fn push_slice(&mut self, src: &[T]) -> (r: Option<()>)
        requires
            old(self).wf(),
        ensures
            final(self).wf(),
            match r {
                Some(_) => {
                    &&& old(self)@.room() >= src@.len()
                    &&& final(self)@ == old(self)@.push_run(src@)
                    &&& final(self)@.live() == src@ + old(self)@.live()
                },
                None => {
                    &&& old(self)@.room() < src@.len()
                    &&& final(self)@ == old(self)@
                },
            },
    {
        let n: usize = src.len();
        if self.room_left() < n {
            return None;
        }
        let base: usize = self.head - n;
        let mut i: usize = 0;
        while i < n
            invariant
                i <= n,
                n == src@.len(),
                base + n == self.head,
                self.head == old(self).head,
                self.buf@.len() == old(self).buf@.len(),
                self.head <= self.buf@.len(),
                forall|k: int|
                    0 <= k < self.buf@.len() ==> self.buf@[k] == (if base <= k < base + i {
                        src@[k - base]
                    } else {
                        old(self).buf@[k]
                    }),
            decreases n - i,
        {
            self.buf.set(base + i, src[i]);
            i += 1;
        }
        self.head = base;
        assert(self@.store =~= old(self)@.push_run(src@).store);
        assert(self@.live() =~= src@ + old(self)@.live());
        Some(())
    }

    /// Pops the top `n` elements and lends them, top first.
    pub fn pop_many(&mut self, n: usize) -> (r: Option<&[T]>)
        requires
            old(self).wf(),
        ensures
            final(self).wf(),
            match r {
                Some(out) => {
                    &&& old(self)@.depth() >= n
                    &&& out@ == old(self)@.live().take(n as int)
                    &&& final(self)@ == old(self)@.release(n as nat)
                    &&& final(self)@.live() == old(self)@.live().skip(n as int)
                },
                None => {
                    &&& old(self)@.depth() < n
                    &&& final(self)@ == old(self)@
                },
            },
    {
        if self.write_index() < n {
            return None;
        }
        assert(self.head + n <= self.buf.len());
        let from: usize = self.head;
        self.head = self.head + n;
        let out = vstd::slice::slice_subrange(self.buf.as_slice(), from, from + n);
        assert(out@ =~= old(self)@.live().take(n as int));
        assert(self@.live() =~= old(self)@.live().skip(n as int));
        Some(out)
    }

    /// Releases the top `len` slots as values that are dropped.
    pub fn flush(&mut self, len: usize) -> (r: Option<()>)
        requires
            old(self).wf(),
        ensures
            final(self).wf(),
            match r {
                Some(_) => {
                    &&& old(self)@.depth() >= len
                    &&& final(self)@ == old(self)@.release(len as nat)
                    &&& final(self)@.live() == old(self)@.live().skip(len as int)
                },
                None => {
                    &&& old(self)@.depth() < len
                    &&& final(self)@ == old(self)@
                },
            },
    {
        self.free(len)
    }

    /// Releases the top `len` slots.
    pub fn free(&mut self, len: usize) -> (r: Option<()>)
        requires
            old(self).wf(),
        ensures
            final(self).wf(),
            match r {
                Some(_) => {
                    &&& old(self)@.depth() >= len
                    &&& final(self)@ == old(self)@.release(len as nat)
                    &&& final(self)@.live() == old(self)@.live().skip(len as int)
                },
                None => {
                    &&& old(self)@.depth() < len
                    &&& final(self)@ == old(self)@
                },
            },
    {
        if self.write_index() < len {
            return None;
        }
        assert(self.head + len <= self.buf.len());
        self.head = self.head + len;
        assert(self@.live() =~= old(self)@.live().skip(len as int));
        Some(())
    }

    /// Reserves `len` slots on top without writing them: they hold whatever
    /// the storage held, and the caller writes them before reading.
    pub fn alloc_n(&mut self, len: usize) -> (r: Option<()>)
        requires
            old(self).wf(),
        ensures
            final(self).wf(),
            match r {
                Some(_) => {
                    &&& old(self)@.room() >= len
                    &&& final(self)@ == old(self)@.reserve(len as nat)
                    &&& final(self)@.live().skip(len as int) == old(self)@.live()
                },
                None => {
                    &&& old(self)@.room() < len
                    &&& final(self)@ == old(self)@
                },
            },
    {
        if self.room_left() < len {
            return None;
        }
        self.head = self.head - len;
        assert(self@.live().skip(len as int) =~= old(self)@.live());
        Some(())
    }

    /// Saves the cursor.
    pub fn check_point(&self) -> (cp: StackCheckPoint)
        ensures
            cp.cursor() == self@.head,
    {
        StackCheckPoint { head: self.head }
    }

    /// Moves the cursor back to a saved one.
    pub fn goto_checkpoint(&mut self, check_point: StackCheckPoint)
        requires
            old(self).wf(),
            check_point.cursor() <= old(self)@.capacity(),
        ensures
            final(self).wf(),
            final(self)@ == old(self)@.rewind(check_point.cursor()),
    {
        self.head = check_point.head;
    }

    /// The top of the stack.
    pub fn peek(&self) -> (r: Option<&T>)
        requires
            self.wf(),
        ensures
            match r {
                Some(v) => self@.depth() > 0 && *v == self@.live()[0],
                None => self@.depth() == 0,
            },
    {
        if self.write_index() == 0 {
            None
        } else {
            Some(&self.buf[self.head])
        }
    }

    /// The top `N` elements as an array, top first.
    pub fn peek_n<const N: usize>(&self) -> (r: Option<&[T; N]>)
        requires
            self.wf(),
        ensures
            match r {
                Some(out) => self@.depth() >= N && out@ == self@.live().take(N as int),
                None => self@.depth() < N,
            },
    {
        if self.write_index() < N {
            None
        } else {
            assert(self.head + N <= self.buf.len());
            let top = vstd::slice::slice_subrange(self.buf.as_slice(), self.head, self.head + N);
            let out = slice_as_array::<T, N>(top);
            assert(out@ =~= self@.live().take(N as int));
            Some(out)
        }
    }

    /// The top `n` elements, top first.
    pub fn peek_many(&self, n: usize) -> (r: Option<&[T]>)
        requires
            self.wf(),
        ensures
            match r {
                Some(out) => self@.depth() >= n && out@ == self@.live().take(n as int),
                None => self@.depth() < n,
            },
    {
        if self.write_index() < n {
            None
        } else {
            assert(self.head + n <= self.buf.len());
            let out = vstd::slice::slice_subrange(self.buf.as_slice(), self.head, self.head + n);
            assert(out@ =~= self@.live().take(n as int));
            Some(out)
        }
    }

    /// The element `n` slots below the top, for reading and writing.
    pub fn spot(&mut self, n: usize) -> (r: Option<&mut T>)
        requires
            old(self).wf(),
        ensures
            final(self).wf(),
            match r {
                Some(slot) => {
                    &&& n < old(self)@.depth()
                    &&& *slot == old(self)@.live()[n as int]
                    &&& final(self)@ == old(self)@.set_spot(n as nat, *final(slot))
                },
                None => {
                    &&& n >= old(self)@.depth()
                    &&& final(self)@ == old(self)@
                },
            },
    {
        if self.write_index() <= n {
            None
        } else {
            assert(self.head + n < self.buf.len());
            Some(&mut self.buf[self.head + n])
        }
    }

    /// The address, as an index into the storage, of the element `n` slots
    /// below the top.
    pub fn spot_raw(&self, n: usize) -> (r: Option<usize>)
        requires
            self.wf(),
        ensures
            match r {
                Some(at) => n < self@.depth() && at == self@.head + n,
                None => n >= self@.depth(),
            },
    {
        if self.write_index() <= n {
            None
        } else {
            assert(self.head + n < self.buf.len());
            Some(self.head + n)
        }
    }

    /// Reads the storage slot at address `at`, live or dead.
    pub fn read_slot(&self, at: usize) -> (r: Option<T>)
        ensures
            match r {
                Some(v) => at < self@.capacity() && v == self@.store[at as int],
                None => at >= self@.capacity(),
            },
    {
        if at < self.buf.len() {
            Some(self.buf[at])
        } else {
            None
        }
    }

    /// Overwrites the storage slot at address `at`, live or dead.
    pub fn write_slot(&mut self, at: usize, v: T) -> (r: Option<()>)
        ensures
            final(self)@.head == old(self)@.head,
            final(self).wf() == old(self).wf(),
            match r {
                Some(_) => at < old(self)@.capacity() && final(self)@.store == old(
                    self,
                )@.store.update(at as int, v),
                None => at >= old(self)@.capacity() && final(self)@ == old(self)@,
            },
    {
        if at < self.buf.len() {
            self.buf.set(at, v);
            Some(())
        } else {
            None
        }
    }

    /// Drops `count` elements located `skip` elements below the top, and moves
    /// the `skip` elements above them down onto the rest.
    pub fn drop_inside(&mut self, skip: usize, count: usize) -> (r: Option<()>)
        requires
            old(self).wf(),
        ensures
            final(self).wf(),
            match r {
                Some(_) => {
                    &&& skip + count <= old(self)@.depth()
                    &&& final(self)@ == old(self)@.drop_inside(skip as nat, count as nat)
                    &&& final(self)@.live() == old(self)@.live().take(skip as int) + old(
                        self,
                    )@.live().skip(skip + count)
                },
                None => {
                    &&& skip + count > old(self)@.depth()
                    &&& final(self)@ == old(self)@
                },
            },
    {
        let depth: usize = self.write_index();
        if skip > depth || count > depth - skip {
            return None;
        }
        assert(self.head + skip + count <= self.buf.len());
        let head: usize = self.head;
        let mut i: usize = skip;
        while i > 0
            invariant
                i <= skip,
                head == self.head,
                self.head == old(self).head,
                self.buf@.len() == old(self).buf@.len(),
                head + skip + count <= self.buf@.len(),
                head + skip + count <= usize::MAX,
                forall|k: int|
                    0 <= k < self.buf@.len() ==> self.buf@[k] == (if head + count + i <= k < head
                        + count + skip {
                        old(self).buf@[k - count]
                    } else {
                        old(self).buf@[k]
                    }),
            decreases i,
        {
            i -= 1;
            let v = self.buf[head + i];
            assert(self.buf@[head + i] == old(self).buf@[head + i]);
            self.buf.set(head + count + i, v);
        }
        self.head = head + count;
        assert(self@.store =~= old(self)@.drop_inside(skip as nat, count as nat).store);
        assert(self@.live() =~= old(self)@.live().take(skip as int) + old(self)@.live().skip(
            skip + count,
        ));
        Some(())
    }

    /// Parts the region in two: the live elements, top first, and a fresh empty
    /// stack over the free slots.
    pub fn split(self) -> (r: (Vec<T>, StackRef<T>))
        requires
            self.wf(),
        ensures
            r.0@ == self@.live(),
            r.1.wf(),
            r.1@.store == self@.store.take(self@.head as int),
            r.1@.head == self@.head,
            r.1@.live() == Seq::<T>::empty(),
    {
        let mut buf = self.buf;
        let head = self.head;
        let live = buf.split_off(head);
        let right = StackRef { buf, head };
        assert(live@ =~= self@.live());
        assert(right@.store =~= self@.store.take(self@.head as int));
        assert(right@.live() =~= Seq::<T>::empty());
        (live, right)
    }

    /// The address of the top of the live elements, and a fresh empty stack
    /// over a copy of the free slots.
    pub fn split_raw(&self) -> (r: (usize, StackRef<T>))
        requires
            self.wf(),
        ensures
            r.0 == self@.head,
            r.1.wf(),
            r.1@.store == self@.store.take(self@.head as int),
            r.1@.head == self@.head,
            r.1@.live() == Seq::<T>::empty(),
    {
        let free = vstd::slice::slice_subrange(self.buf.as_slice(), 0, self.head);
        let buf = vstd::slice::slice_to_vec(free);
        let right = StackRef { buf, head: self.head };
        assert(right@.store =~= self@.store.take(self@.head as int));
        assert(right@.live() =~= Seq::<T>::empty());
        (self.head, right)
    }
}

/// `core::mem::forget` of std: takes the value and does not run its destructor.
#[verifier::external_body]
fn forget_value<T>(v: T) {
    core::mem::forget(v)
}

/// `<&[T; N]>::try_from(&[T])` of std: a slice of exactly `N` elements seen as
/// an array of the same elements.
#[verifier::external_body]
fn slice_as_array<T, const N: usize>(s: &[T]) -> (r: &[T; N])
    requires
        s@.len() == N,
    ensures
        r@ == s@,
{
    s.try_into().unwrap()
}

/// One step of a push/pop sequence.
pub enum StackOp<T> {
    Push(T),
    Pop,
}

impl<T> StackModel<T> {
    /// The region after the elements of `vs` were pushed one by one, `vs[0]`
    /// first.
    pub open spec fn push_each(self, vs: Seq<T>) -> Self
        decreases vs.len(),
    {
        if vs.len() == 0 {
            self
        } else {
            self.push_each(vs.drop_last()).push(vs.last())
        }
    }

    /// The region after one step of a push/pop sequence.
    pub open spec fn step(self, op: StackOp<T>) -> Self {
        match op {
            StackOp::Push(v) => self.push(v),
            StackOp::Pop => self.release(1),
        }
    }

    /// The region after a whole push/pop sequence.
    pub open spec fn run(self, ops: Seq<StackOp<T>>) -> Self
        decreases ops.len(),
    {
        if ops.len() == 0 {
            self
        } else {
            self.run(ops.drop_last()).step(ops.last())
        }
    }

    /// Every step of `ops` succeeds and none pops an element that was live at
    /// the cursor `floor`.
    pub open spec fn stays_above(self, ops: Seq<StackOp<T>>, floor: nat) -> bool
        decreases ops.len(),
    {
        if ops.len() == 0 {
            true
        } else {
            &&& self.stays_above(ops.drop_last(), floor)
            &&& match ops.last() {
                StackOp::Push(_) => self.run(ops.drop_last()).head > 0,
                StackOp::Pop => self.run(ops.drop_last()).head < floor,
            }
        }
    }
}

/// The depth of a region is the number of its live elements, and releasing
/// takes them off the top.
pub proof fn lemma_depth<T>(s: StackModel<T>, n: nat)
    requires
        s.wf(),
    ensures
        s.depth() == s.live().len(),
        s.depth() + s.room() == s.capacity(),
        n <= s.depth() ==> s.release(n).wf() && s.release(n).live() == s.live().skip(n as int),
{
    if n <= s.depth() {
        assert(s.release(n).live() =~= s.live().skip(n as int));
    }
}

/// Last in, first out: after `vs[0]`, .., `vs[n - 1]` were pushed, the `i`-th
/// pop yields `vs[n - 1 - i]`, and after `n` pops the region is live as it was
/// before, with the cursor where it was.
pub proof fn lemma_lifo<T>(s: StackModel<T>, vs: Seq<T>)
    requires
        s.wf(),
        vs.len() <= s.room(),
    ensures
        s.push_each(vs).wf(),
        s.push_each(vs).head == s.head - vs.len(),
        s.push_each(vs).live() == vs.reverse() + s.live(),
        forall|i: int|
            0 <= i < vs.len() ==> (#[trigger] s.push_each(vs).release(i as nat)).live()[0]
                == vs[vs.len() - 1 - i],
        s.push_each(vs).release(vs.len()).live() == s.live(),
        s.push_each(vs).release(vs.len()).head == s.head,
    decreases vs.len(),
{
    let t = s.push_each(vs);
    if vs.len() == 0 {
        assert(t.live() =~= vs.reverse() + s.live());
        assert(t.release(0).live() =~= s.live());
    } else {
        let before = s.push_each(vs.drop_last());
        lemma_lifo(s, vs.drop_last());
        assert(t.live() =~= seq![vs.last()] + before.live());
        assert(t.live() =~= vs.reverse() + s.live());
        assert forall|i: int| 0 <= i < vs.len() implies (#[trigger] t.release(i as nat)).live()[0]
            == vs[vs.len() - 1 - i] by {
            assert(t.release(i as nat).live() =~= t.live().skip(i));
        }
        assert(t.release(vs.len()).live() =~= s.live());
    }
}

/// Checkpoint round trip: after any push/pop sequence that succeeds and never
/// pops below the checkpoint, going back to the checkpoint restores the cursor
/// and the live elements.
pub proof fn lemma_checkpoint_round_trip<T>(s: StackModel<T>, ops: Seq<StackOp<T>>)
    requires
        s.wf(),
        s.stays_above(ops, s.head),
    ensures
        s.run(ops).wf(),
        s.run(ops).head <= s.head,
        s.run(ops).rewind(s.head).head == s.head,
        s.run(ops).rewind(s.head).live() == s.live(),
        s.run(ops).store.len() == s.store.len(),
    decreases ops.len(),
{
    if ops.len() == 0 {
        assert(s.rewind(s.head).live() =~= s.live());
    } else {
        lemma_checkpoint_round_trip(s, ops.drop_last());
        let before = s.run(ops.drop_last());
        assert(before.rewind(s.head).live() == s.live());
        assert forall|k: int| s.head <= k < s.store.len() implies s.run(ops).store[k]
            == before.store[k] by {}
        assert(s.run(ops).rewind(s.head).live() =~= before.rewind(s.head).live());
    }
}

/// Reserving `n` slots and then releasing `n` slots leaves the region as it
/// was, the number of live elements included.
pub proof fn lemma_alloc_free<T>(s: StackModel<T>, n: nat)
    requires
        s.wf(),
        n <= s.room(),
    ensures
        s.reserve(n).wf(),
        s.reserve(n).depth() == s.depth() + n,
        s.reserve(n).release(n) == s,
        s.reserve(n).release(n).depth() == s.depth(),
{
}

/// A length-counted, up-growing region of at most `capacity` elements: the
/// element saved first has index 0 and keeps it.
pub struct StackVec<T> {
    pub(crate) items: Vec<T>,
    pub(crate) cap: usize,
}

impl<T> View for StackVec<T> {
    type V = Seq<T>;

    closed spec fn view(&self) -> Seq<T> {
        self.items@
    }
}

impl<T> StackVec<T> {
    /// The most elements that the region can hold.
    pub closed spec fn capacity(&self) -> nat {
        self.cap as nat
    }

    /// The region holds no more than its capacity, and every element has an
    /// index.
    pub open spec fn wf(&self) -> bool {
        &&& self@.len() <= self.capacity()
        &&& self.capacity() <= usize::MAX
    }

    /// Empty region of the given capacity.
    pub fn from_slice(capacity: usize) -> (s: Self)
        ensures
            s.wf(),
            s@ == Seq::<T>::empty(),
            s.capacity() == capacity,
    {
        StackVec { items: Vec::new(), cap: capacity }
    }

    pub fn len(&self) -> (n: usize)
        ensures
            n == self@.len(),
    {
        self.items.len()
    }

    pub fn is_empty(&self) -> (b: bool)
        ensures
            b == (self@.len() == 0),
    {
        self.items.len() == 0
    }

    /// The most elements that the region can hold.
    pub fn max_len(&self) -> (n: usize)
        ensures
            n == self.capacity(),
    {
        self.cap
    }

    /// Free capacity.
    pub fn room_left(&self) -> (n: usize)
        requires
            self.wf(),
        ensures
            n == self.capacity() - self@.len(),
    {
        self.cap - self.items.len()
    }

    /// Appends `v` and gives its index, or hands `v` back when the region is
    /// full.
    pub fn push(&mut self, v: T) -> (r: Result<usize, T>)
        requires
            old(self).wf(),
        ensures
            final(self).wf(),
            final(self).capacity() == old(self).capacity(),
            match r {
                Ok(at) => {
                    &&& old(self)@.len() < old(self).capacity()
                    &&& at == old(self)@.len()
                    &&& final(self)@ == old(self)@.push(v)
                },
                Err(back) => {
                    &&& old(self)@.len() == old(self).capacity()
                    &&& back == v
                    &&& final(self)@ == old(self)@
                },
            },
    {
        let at: usize = self.items.len();
        if at >= self.cap {
            return Err(v);
        }
        self.items.push(v);
        Ok(at)
    }

    /// Removes the element saved last.
    pub fn pop(&mut self) -> (r: Option<T>)
        requires
            old(self).wf(),
        ensures
            final(self).wf(),
            final(self).capacity() == old(self).capacity(),
            match r {
                Some(v) => {
                    &&& old(self)@.len() > 0
                    &&& v == old(self)@.last()
                    &&& final(self)@ == old(self)@.drop_last()
                },
                None => old(self)@.len() == 0 && final(self)@ == old(self)@,
            },
    {
        self.items.pop()
    }

    /// Releases the `n` elements saved last; each is dropped.
    pub fn flush(&mut self, n: usize) -> (r: Option<()>)
        requires
            old(self).wf(),
        ensures
            final(self).wf(),
            final(self).capacity() == old(self).capacity(),
            match r {
                Some(_) => {
                    &&& n <= old(self)@.len()
                    &&& final(self)@ == old(self)@.take(old(self)@.len() - n)
                },
                None => n > old(self)@.len() && final(self)@ == old(self)@,
            },
    {
        let len: usize = self.items.len();
        if len < n {
            return None;
        }
        self.items.truncate(len - n);
        Some(())
    }

    /// Releases the `n` elements saved last; none of them is dropped.
    pub fn free(&mut self, n: usize) -> (r: Option<()>)
        requires
            old(self).wf(),
        ensures
            final(self).wf(),
            final(self).capacity() == old(self).capacity(),
            match r {
                Some(_) => {
                    &&& n <= old(self)@.len()
                    &&& final(self)@ == old(self)@.take(old(self)@.len() - n)
                },
                None => n > old(self)@.len() && final(self)@ == old(self)@,
            },
    {
        let len: usize = self.items.len();
        if len < n {
            return None;
        }
        let mut i: usize = 0;
        while i < n
            invariant
                i <= n,
                n <= len,
                len == old(self).items@.len(),
                self.cap == old(self).cap,
                self.items@ == old(self).items@.take(len - i),
            decreases n - i,
        {
            match self.items.pop() {
                Some(v) => forget_value(v),
                None => {},
            }
            i += 1;
            assert(self.items@ =~= old(self).items@.take(len - i));
        }
        Some(())
    }

    /// The index of the element saved last.
    pub fn peek_raw(&self) -> (r: Option<usize>)
        ensures
            match r {
                Some(at) => self@.len() > 0 && at == self@.len() - 1,
                None => self@.len() == 0,
            },
    {
        let len: usize = self.items.len();
        if len == 0 {
            None
        } else {
            Some(len - 1)
        }
    }

    /// The `n` elements saved last, in the order in which they were saved.
    pub fn peek_many(&self, n: usize) -> (r: Option<&[T]>)
        ensures
            match r {
                Some(out) => n <= self@.len() && out@ == self@.skip(self@.len() - n),
                None => n > self@.len(),
            },
    {
        let len: usize = self.items.len();
        if len < n {
            None
        } else {
            let out = vstd::slice::slice_subrange(self.items.as_slice(), len - n, len);
            assert(out@ =~= self@.skip(self@.len() - n));
            Some(out)
        }
    }

    /// All elements, in the order in which they were saved.
    pub fn as_slice(&self) -> (out: &[T])
        ensures
            out@ == self@,
    {
        self.items.as_slice()
    }

    /// The element with index `at`.
    pub fn get(&self, at: usize) -> (r: Option<&T>)
        ensures
            match r {
                Some(v) => at < self@.len() && *v == self@[at as int],
                None => at >= self@.len(),
            },
    {
        if at < self.items.len() {
            Some(&self.items[at])
        } else {
            None
        }
    }

    /// Overwrites the element with index `at`.
    pub fn set(&mut self, at: usize, v: T) -> (r: Option<()>)
        ensures
            final(self).capacity() == old(self).capacity(),
            match r {
                Some(_) => at < old(self)@.len() && final(self)@ == old(self)@.update(at as int, v),
                None => at >= old(self)@.len() && final(self)@ == old(self)@,
            },
    {
        if at < self.items.len() {
            self.items.set(at, v);
            Some(())
        } else {
            None
        }
    }
}

impl<T: Copy> StackVec<T> {
    /// Appends `n` elements that each hold `fill`, and gives the index of the
    /// first.
    pub fn alloc_n(&mut self, n: usize, fill: T) -> (r: Option<usize>)
        requires
            old(self).wf(),
        ensures
            final(self).wf(),
            final(self).capacity() == old(self).capacity(),
            match r {
                Some(at) => {
                    &&& old(self)@.len() + n <= old(self).capacity()
                    &&& at == old(self)@.len()
                    &&& final(self)@ == old(self)@ + Seq::new(n as nat, |i: int| fill)
                },
                None => {
                    &&& old(self)@.len() + n > old(self).capacity()
                    &&& final(self)@ == old(self)@
                },
            },
    {
        let at: usize = self.items.len();
        if self.cap - at < n {
            return None;
        }
        let mut i: usize = 0;
        while i < n
            invariant
                i <= n,
                at + n <= self.cap,
                self.cap == old(self).cap,
                self.items@ == old(self).items@ + Seq::new(i as nat, |k: int| fill),
            decreases n - i,
        {
            self.items.push(fill);
            i += 1;
            assert(self.items@ =~= old(self).items@ + Seq::new(i as nat, |k: int| fill));
        }
        Some(at)
    }

    /// Appends a copy of `src`, all of it or nothing.
    pub fn push_slice(&mut self, src: &[T]) -> (r: Option<()>)
        requires
            old(self).wf(),
        ensures
            final(self).wf(),
            final(self).capacity() == old(self).capacity(),
            match r {
                Some(_) => {
                    &&& old(self)@.len() + src@.len() <= old(self).capacity()
                    &&& final(self)@ == old(self)@ + src@
                },
                None => {
                    &&& old(self)@.len() + src@.len() > old(self).capacity()
                    &&& final(self)@ == old(self)@
                },
            },
    {
        let n: usize = src.len();
        if self.cap - self.items.len() < n {
            return None;
        }
        let mut i: usize = 0;
        while i < n
            invariant
                i <= n,
                n == src@.len(),
                old(self).items@.len() + n <= self.cap,
                self.cap == old(self).cap,
                self.items@ == old(self).items@ + src@.take(i as int),
            decreases n - i,
        {
            self.items.push(src[i]);
            i += 1;
            assert(self.items@ =~= old(self).items@ + src@.take(i as int));
        }
        assert(src@.take(n as int) =~= src@);
        Some(())
    }
}

} // verus!
