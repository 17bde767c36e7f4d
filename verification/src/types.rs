//! Compile-time types, permission bit-sets and the signature checker: a
//! borrow-counted shadow of the parameter stack against which every word call
//! is verified before any code for it is kept.
use crate::lex::spec_name_key;
use crate::lex::DelayedSlice;
use crate::lex::DelayedStr;
use crate::lex::StackAlloc;
use crate::lex::StackAllocator;
use crate::stack::make_storage;
use crate::stack::StackRef;
use vstd::prelude::*;

verus! {

/// May read.
pub const READ_FLAG: u8 = 0x1;

/// May write.
pub const WRITE_FLAG: u8 = 0x2;

/// Must have exclusive access.
pub const UNIQUE_FLAG: u8 = 0x4;

/// Stays on the stack past the call, on the output side.
pub const OUTPUT_FLAG: u8 = 0x8;

/// Passed on the data stack itself rather than boxed.
pub const RAW_FLAG: u8 = 0x10;

/// The returned address may derive from an input.
pub const INDEX_FLAG: u8 = 0x20;

pub type RwT = u8;

/// An interned type, by its index in the type arena. Two types are the same
/// type exactly when their indices are equal.
pub type TypeP = usize;

/// How a value is passed, as the RAW and INDEX bits tell.
#[derive(Debug, Clone, Copy, PartialEq, Eq)]
pub enum AccessMode {
    Boxed,
    Indexed,
    Raw,
    Invalid,
}

impl AccessMode {
    pub open spec fn spec_from_bits(bits: RwT) -> AccessMode {
        if bits & RAW_FLAG != 0 {
            if bits & INDEX_FLAG != 0 {
                AccessMode::Invalid
            } else {
                AccessMode::Raw
            }
        } else {
            if bits & INDEX_FLAG != 0 {
                AccessMode::Indexed
            } else {
                AccessMode::Boxed
            }
        }
    }

    pub fn from_bits(bits: RwT) -> (m: Self)
        ensures
            m == Self::spec_from_bits(bits),
    {
        let raw = bits & RAW_FLAG != 0;
        let idx = bits & INDEX_FLAG != 0;
        match (raw, idx) {
            (false, false) => AccessMode::Boxed,
            (false, true) => AccessMode::Indexed,
            (true, false) => AccessMode::Raw,
            (true, true) => AccessMode::Invalid,
        }
    }

    pub open spec fn spec_name(self) -> Seq<char> {
        match self {
            AccessMode::Boxed => "boxed"@,
            AccessMode::Indexed => "indexed"@,
            AccessMode::Raw => "raw"@,
            AccessMode::Invalid => "invalid"@,
        }
    }

    pub fn name(self) -> (s: &'static str)
        ensures
            s@ == self.spec_name(),
    {
        match self {
            AccessMode::Boxed => "boxed",
            AccessMode::Indexed => "indexed",
            AccessMode::Raw => "raw",
            AccessMode::Invalid => "invalid",
        }
    }
}

/// The storage shape of a type. Types are referred to by their index in the
/// type arena, names by their range in the name arena, and the members of a
/// cluster by their range in the arena of type lists.
#[derive(Debug, Clone, Copy, PartialEq, Eq, Structural)]
pub enum TypeInner {
    Basic,
    Alias(TypeP, DelayedStr),
    Array(TypeP, Option<i32>),
    Cluster(DelayedSlice),
}

/// An interned type: a shape, its size in bytes and in cells, and its name.
#[derive(Debug, Clone, Copy, PartialEq, Eq)]
pub struct Type {
    pub inner: TypeInner,
    pub size: i32,
    pub cells: i32,
    pub name: DelayedStr,
}

/// The mathematical model of a shape: what `TypeInner` says, with the name
/// and the members written out.
pub enum Shape {
    Basic,
    Alias(TypeP, Seq<u8>),
    Array(TypeP, Option<i32>),
    Cluster(Seq<TypeP>),
}

/// The key under which a shape is kept in the type table: a number for the
/// kind of shape, then what the shape holds.
pub open spec fn spec_shape_key(shape: Shape) -> Seq<u64> {
    match shape {
        Shape::Basic => seq![0u64],
        Shape::Alias(parent, name) => seq![1u64, parent as u64] + spec_name_key(name),
        Shape::Array(elem, None) => seq![2u64, elem as u64],
        Shape::Array(elem, Some(n)) => seq![3u64, elem as u64, (n - i32::MIN) as u64],
        Shape::Cluster(elems) => seq![4u64] + elems.map_values(|t: TypeP| t as u64),
    }
}

/// The number that a key starts with, by the kind of shape.
pub open spec fn shape_tag(shape: Shape) -> u64 {
    match shape {
        Shape::Basic => 0,
        Shape::Alias(_, _) => 1,
        Shape::Array(_, None) => 2,
        Shape::Array(_, Some(_)) => 3,
        Shape::Cluster(_) => 4,
    }
}

/// A key starts with the number of its kind of shape.
pub proof fn lemma_shape_key_tag(shape: Shape)
    ensures
        spec_shape_key(shape).len() >= 1,
        spec_shape_key(shape)[0] == shape_tag(shape),
{
    match shape {
        Shape::Basic => {},
        Shape::Alias(parent, name) => {
            assert(spec_shape_key(shape)[0] == seq![1u64, parent as u64][0]);
        },
        Shape::Array(elem, None) => {},
        Shape::Array(elem, Some(n)) => {},
        Shape::Cluster(elems) => {
            assert(spec_shape_key(shape)[0] == seq![4u64][0]);
        },
    }
}

/// Two shapes with the same key are the same shape.
pub proof fn lemma_shape_key_injective(a: Shape, b: Shape)
    requires
        spec_shape_key(a) == spec_shape_key(b),
    ensures
        a == b,
{
    let ka = spec_shape_key(a);
    let kb = spec_shape_key(b);
    lemma_shape_key_tag(a);
    lemma_shape_key_tag(b);
    assert(shape_tag(a) == shape_tag(b));
    match (a, b) {
        (Shape::Basic, Shape::Basic) => {},
        (Shape::Alias(pa, na), Shape::Alias(pb, nb)) => {
            assert(ka[1] == seq![1u64, pa as u64][1]);
            assert(kb[1] == seq![1u64, pb as u64][1]);
            assert(spec_name_key(na) =~= ka.skip(2));
            assert(spec_name_key(nb) =~= kb.skip(2));
            crate::lex::lemma_name_key_injective(na, nb);
        },
        (Shape::Array(ea, None), Shape::Array(eb, None)) => {
            assert(ka[1] == kb[1]);
        },
        (Shape::Array(ea, Some(la)), Shape::Array(eb, Some(lb))) => {
            assert(ka[1] == kb[1]);
            assert(ka[2] == kb[2]);
        },
        (Shape::Cluster(ea), Shape::Cluster(eb)) => {
            let ma = ea.map_values(|t: TypeP| t as u64);
            let mb = eb.map_values(|t: TypeP| t as u64);
            assert(ma =~= ka.skip(1));
            assert(mb =~= kb.skip(1));
            assert(ea.len() == ma.len());
            assert(eb.len() == mb.len());
            assert forall|i: int| 0 <= i < ea.len() implies ea[i] == eb[i] by {
                assert(ma[i] == ea[i] as u64);
                assert(mb[i] == eb[i] as u64);
            }
            assert(ea =~= eb);
        },
        _ => {},
    }
}

impl TypeInner {
    /// The ranges of the shape lie inside the arenas, and the types it
    /// mentions are in the type arena.
    pub open spec fn valid_in(self, types: Seq<Type>, names: Seq<u8>, lists: Seq<TypeP>) -> bool {
        match self {
            TypeInner::Basic => true,
            TypeInner::Alias(parent, name) => parent < types.len() && name.0.within(names.len()),
            TypeInner::Array(elem, _) => elem < types.len(),
            TypeInner::Cluster(elems) => {
                &&& elems.within(lists.len())
                &&& forall|i: int|
                    0 <= i < elems.of(lists).len() ==> #[trigger] elems.of(lists)[i] < types.len()
            },
        }
    }

    /// The shape written out.
    pub open spec fn shape(self, names: Seq<u8>, lists: Seq<TypeP>) -> Shape {
        match self {
            TypeInner::Basic => Shape::Basic,
            TypeInner::Alias(parent, name) => Shape::Alias(parent, name.0.of(names)),
            TypeInner::Array(elem, len) => Shape::Array(elem, len),
            TypeInner::Cluster(elems) => Shape::Cluster(elems.of(lists)),
        }
    }

    /// The key under which the shape is kept in the type table.
    pub fn shape_key(&self, names: &StackAlloc, lists: &StackAllocator<TypeP>) -> (key: Vec<u64>)
        requires
            match *self {
                TypeInner::Alias(_, name) => name.0.within(names@.len()),
                TypeInner::Cluster(elems) => elems.within(lists@.len()),
                _ => true,
            },
        ensures
            key@ == spec_shape_key(self.shape(names@, lists@)),
    {
        match self {
            TypeInner::Basic => {
                let mut key: Vec<u64> = Vec::new();
                key.push(0u64);
                assert(key@ =~= seq![0u64]);
                key
            },
            TypeInner::Alias(parent, name) => {
                let mut key: Vec<u64> = Vec::new();
                key.push(1u64);
                key.push(*parent as u64);
                match names.bytes(&name.0) {
                    Some(text) => {
                        let mut i: usize = 0;
                        while i < text.len()
                            invariant
                                i <= text@.len(),
                                key@ == seq![1u64, *parent as u64] + spec_name_key(
                                    text@.take(i as int),
                                ),
                            decreases text@.len() - i,
                        {
                            key.push(text[i] as u64);
                            i += 1;
                            assert(key@ =~= seq![1u64, *parent as u64] + spec_name_key(
                                text@.take(i as int),
                            ));
                        }
                        assert(text@.take(text@.len() as int) =~= text@);
                    },
                    None => {},
                }
                key
            },
            TypeInner::Array(elem, None) => {
                let mut key: Vec<u64> = Vec::new();
                key.push(2u64);
                key.push(*elem as u64);
                assert(key@ =~= seq![2u64, *elem as u64]);
                key
            },
            TypeInner::Array(elem, Some(n)) => {
                let mut key: Vec<u64> = Vec::new();
                key.push(3u64);
                key.push(*elem as u64);
                key.push((*n as i64 - i32::MIN as i64) as u64);
                assert(key@ =~= seq![3u64, *elem as u64, (*n - i32::MIN) as u64]);
                key
            },
            TypeInner::Cluster(elems) => {
                let mut key: Vec<u64> = Vec::new();
                key.push(4u64);
                let n: usize = elems.count();
                let from: usize = elems.first();
                let total: usize = lists.len();
                let ghost members = elems.of(lists@);
                let mut i: usize = 0;
                while i < n
                    invariant
                        i <= n,
                        from + n <= total,
                        n == elems.len(),
                        from == elems.start(),
                        elems.within(lists@.len()),
                        members == elems.of(lists@),
                        key@ == seq![4u64] + members.take(i as int).map_values(
                            |t: TypeP| t as u64,
                        ),
                    decreases n - i,
                {
                    let t: TypeP = match lists.get(from + i) {
                        Some(t) => *t,
                        None => 0,
                    };
                    assert(t == members[i as int]);
                    key.push(t as u64);
                    i += 1;
                    assert(key@ =~= seq![4u64] + members.take(i as int).map_values(
                        |t: TypeP| t as u64,
                    ));
                }
                assert(members.take(n as int) =~= members);
                key
            },
        }
    }
}

/// A declared slot of a signature: a type and the permissions asked for it.
#[derive(Debug, Clone, Copy, PartialEq, Eq)]
pub struct SigItem {
    pub tp: TypeP,
    pub permissions: RwT,
}

/// The compile-time shadow of one stack slot. `num_borrowed` is the index of
/// the slot's borrow counter in the borrow arena; several slots may share one
/// counter.
#[derive(Debug, Clone, Copy, PartialEq, Eq)]
pub struct CompVar {
    pub tp: TypeP,
    pub offset_from_start: i32,
    pub num_borrowed: usize,
    pub permissions: RwT,
}

/// Why a use of a slot was refused.
#[derive(Debug, Clone, Copy, PartialEq, Eq)]
pub enum SigError {
    WrongType { found: TypeP, wanted: TypeP },
    NeedsUnique,
    AlreadyBorrowed,
    BasicSigError { clash: RwT, have: RwT },
    MissingArgument(SigItem),
}

/// The bits on which a request `sig` clashes with the granted set `have`:
/// READ, WRITE and UNIQUE where they are asked for and not granted; OUTPUT,
/// RAW and INDEX where the two differ.
pub open spec fn clash_bits(have: RwT, sig: RwT) -> RwT {
    ((sig & !have) & 0x07) | ((sig ^ have) & 0x38)
}

/// Holds every clashing bit of a request against what is granted, not only
/// the first.
pub fn check_subset(have: RwT, sig: RwT) -> (r: Result<(), SigError>)
    ensures
        match r {
            Ok(_) => clash_bits(have, sig) == 0,
            Err(e) => clash_bits(have, sig) != 0 && e == (SigError::BasicSigError {
                clash: clash_bits(have, sig),
                have,
            }),
        },
{
    let u: u8 = if (sig & UNIQUE_FLAG != 0) && (have & UNIQUE_FLAG == 0) {
        UNIQUE_FLAG
    } else {
        0
    };
    let w: u8 = if (sig & WRITE_FLAG != 0) && (have & WRITE_FLAG == 0) {
        WRITE_FLAG
    } else {
        0
    };
    let r: u8 = if (sig & READ_FLAG != 0) && (have & READ_FLAG == 0) {
        READ_FLAG
    } else {
        0
    };
    let o: u8 = if (sig & OUTPUT_FLAG) != (have & OUTPUT_FLAG) {
        OUTPUT_FLAG
    } else {
        0
    };
    let raw: u8 = if (sig & RAW_FLAG) != (have & RAW_FLAG) {
        RAW_FLAG
    } else {
        0
    };
    let idx: u8 = if (sig & INDEX_FLAG) != (have & INDEX_FLAG) {
        INDEX_FLAG
    } else {
        0
    };
    let clash: u8 = u | w | r | o | raw | idx;
    assert(clash == ((sig & !have) & 0x07) | ((sig ^ have) & 0x38)) by (bit_vector)
        requires
            u == (if (sig & 4 != 0) && (have & 4 == 0) {
                4u8
            } else {
                0u8
            }),
            w == (if (sig & 2 != 0) && (have & 2 == 0) {
                2u8
            } else {
                0u8
            }),
            r == (if (sig & 1 != 0) && (have & 1 == 0) {
                1u8
            } else {
                0u8
            }),
            o == (if (sig & 8) != (have & 8) {
                8u8
            } else {
                0u8
            }),
            raw == (if (sig & 16) != (have & 16) {
                16u8
            } else {
                0u8
            }),
            idx == (if (sig & 32) != (have & 32) {
                32u8
            } else {
                0u8
            }),
            clash == u | w | r | o | raw | idx,
    ;
    if clash != 0 {
        Err(SigError::BasicSigError { clash, have })
    } else {
        Ok(())
    }
}

/// The request asks for exclusive access.
pub open spec fn wants_unique(sig: RwT) -> bool {
    sig & UNIQUE_FLAG != 0
}

/// What a use of `var` as `sig` comes to when the slot's borrow counter is
/// `counter`: the new counter, or the reason for which the use is refused.
/// The checks come in this order: type, permissions, aliasing.
pub open spec fn use_as(var: CompVar, counter: i32, sig: SigItem) -> Result<i32, SigError> {
    if var.tp != sig.tp {
        Err(SigError::WrongType { found: var.tp, wanted: sig.tp })
    } else if clash_bits(var.permissions, sig.permissions) != 0 {
        Err(
            SigError::BasicSigError {
                clash: clash_bits(var.permissions, sig.permissions),
                have: var.permissions,
            },
        )
    } else if counter == -1 {
        Err(SigError::AlreadyBorrowed)
    } else if wants_unique(sig.permissions) && counter != 0 {
        Err(SigError::NeedsUnique)
    } else if wants_unique(sig.permissions) {
        Ok(-1i32)
    } else {
        Ok((counter + 1) as i32)
    }
}

/// The counter after a grant of `sig` was given back.
pub open spec fn released(counter: i32, sig: RwT) -> i32 {
    if wants_unique(sig) {
        0i32
    } else {
        (counter - 1) as i32
    }
}

/// Uses the slot `box_var` as the signature slot `sig` asks and commits the
/// borrow to the slot's counter in `borrows`. A refused use changes nothing.
pub fn use_box_as(box_var: &CompVar, borrows: &mut StackAllocator<i32>, sig: &SigItem) -> (r:
    Result<(), SigError>)
    requires
        box_var.num_borrowed < old(borrows)@.len(),
        use_as(*box_var, old(borrows)@[box_var.num_borrowed as int], *sig) is Ok && !wants_unique(
            sig.permissions,
        ) ==> old(borrows)@[box_var.num_borrowed as int] < i32::MAX,
    ensures
        final(borrows).capacity() == old(borrows).capacity(),
        match use_as(*box_var, old(borrows)@[box_var.num_borrowed as int], *sig) {
            Ok(counter) => r is Ok && final(borrows)@ == old(borrows)@.update(
                box_var.num_borrowed as int,
                counter,
            ),
            Err(e) => r == Err::<(), SigError>(e) && final(borrows)@ == old(borrows)@,
        },
{
    if box_var.tp != sig.tp {
        return Err(SigError::WrongType { found: box_var.tp, wanted: sig.tp });
    }
    match check_subset(box_var.permissions, sig.permissions) {
        Err(e) => {
            return Err(e);
        },
        Ok(_) => {},
    }
    let counter: i32 = match borrows.get(box_var.num_borrowed) {
        Some(c) => *c,
        None => 0,
    };
    if counter == -1 {
        return Err(SigError::AlreadyBorrowed);
    }
    if (sig.permissions & UNIQUE_FLAG != 0) && counter != 0 {
        return Err(SigError::NeedsUnique);
    }
    if sig.permissions & UNIQUE_FLAG != 0 {
        let _ = borrows.set(box_var.num_borrowed, -1);
    } else {
        let _ = borrows.set(box_var.num_borrowed, counter + 1);
    }
    Ok(())
}

/// Gives back a grant of `sig` on the slot `box_var`: an exclusive grant
/// resets the counter, a shared one takes one off it.
pub fn free_box_use(box_var: &CompVar, borrows: &mut StackAllocator<i32>, sig: RwT)
    requires
        box_var.num_borrowed < old(borrows)@.len(),
        !wants_unique(sig) ==> old(borrows)@[box_var.num_borrowed as int] >= 1,
    ensures
        final(borrows).capacity() == old(borrows).capacity(),
        final(borrows)@ == old(borrows)@.update(
            box_var.num_borrowed as int,
            released(old(borrows)@[box_var.num_borrowed as int], sig),
        ),
{
    if sig & UNIQUE_FLAG != 0 {
        let _ = borrows.set(box_var.num_borrowed, 0);
    } else {
        let counter: i32 = match borrows.get(box_var.num_borrowed) {
            Some(c) => *c,
            None => 1,
        };
        let _ = borrows.set(box_var.num_borrowed, counter - 1);
    }
}

/// The permission law. A use succeeds exactly when the types are the same,
/// no bit clashes, the slot is not exclusively borrowed, and an exclusive
/// request finds the counter at zero.
pub proof fn lemma_use_as_succeeds_iff(var: CompVar, counter: i32, sig: SigItem)
    ensures
        use_as(var, counter, sig) is Ok <==> {
            &&& var.tp == sig.tp
            &&& clash_bits(var.permissions, sig.permissions) == 0
            &&& counter != -1
            &&& (wants_unique(sig.permissions) ==> counter == 0)
        },
{
}

/// No bit clashes exactly when every requested READ, WRITE and UNIQUE bit is
/// granted and the OUTPUT, RAW and INDEX bits of request and grant are equal.
pub proof fn lemma_clash_free_iff(have: RwT, sig: RwT)
    ensures
        clash_bits(have, sig) == 0 <==> {
            &&& sig & 0x07 & !have == 0
            &&& sig & 0x38 == have & 0x38
        },
{
    assert((((sig & !have) & 0x07) | ((sig ^ have) & 0x38)) == 0 <==> (sig & 0x07 & !have == 0
        && sig & 0x38 == have & 0x38)) by (bit_vector);
}

/// With the types the same and no bit clashing: an exclusive request on a
/// shared slot fails with `NeedsUnique`; any request on an exclusively
/// borrowed slot fails with `AlreadyBorrowed`; an exclusive request on a free
/// slot succeeds and leaves the counter at -1; a shared request on a slot that
/// is not exclusively borrowed succeeds and adds one.
pub proof fn lemma_borrow_rules(var: CompVar, counter: i32, sig: SigItem)
    requires
        var.tp == sig.tp,
        clash_bits(var.permissions, sig.permissions) == 0,
    ensures
        counter == -1 ==> use_as(var, counter, sig) == Err::<i32, SigError>(
            SigError::AlreadyBorrowed,
        ),
        wants_unique(sig.permissions) && counter != 0 && counter != -1 ==> use_as(var, counter, sig)
            == Err::<i32, SigError>(SigError::NeedsUnique),
        wants_unique(sig.permissions) && counter == 0 ==> use_as(var, counter, sig) == Ok::<
            i32,
            SigError,
        >(-1i32),
        !wants_unique(sig.permissions) && counter != -1 && counter < i32::MAX ==> use_as(
            var,
            counter,
            sig,
        ) == Ok::<i32, SigError>((counter + 1) as i32),
{
}

/// A grant that is given back leaves the counter as it was before the grant.
pub proof fn lemma_use_then_release(var: CompVar, counter: i32, sig: SigItem)
    requires
        0 <= counter < i32::MAX,
        use_as(var, counter, sig) is Ok,
    ensures
        released(use_as(var, counter, sig)->Ok_0, sig.permissions) == counter,
{
}

// ───────────── signature stack ───────────────────────
/// The mathematical model of a signature stack.
pub struct SigModel {
    /// The slots on the stack, top first, each by its index in `vars`.
    pub stack: Seq<usize>,
    /// Every slot that was ever declared.
    pub vars: Seq<CompVar>,
    /// The borrow counters.
    pub borrows: Seq<i32>,
    /// The cells taken by the locals declared so far.
    pub cells_locals: int,
}

impl SigModel {
    /// Every slot on the stack is declared, every declared slot has a
    /// counter, and no counter is below -1.
    pub open spec fn wf(self) -> bool {
        &&& forall|i: int| 0 <= i < self.stack.len() ==> #[trigger] self.stack[i] < self.vars.len()
        &&& forall|i: int|
            0 <= i < self.vars.len() ==> (#[trigger] self.vars[i]).num_borrowed
                < self.borrows.len()
        &&& forall|i: int| 0 <= i < self.borrows.len() ==> #[trigger] self.borrows[i] >= -1
    }
}

/// What is left after a run of signature slots was checked against a stack.
pub struct Checked {
    /// The stack below the slots that were taken.
    pub stack: Seq<usize>,
    /// The borrow counters with every granted use committed.
    pub borrows: Seq<i32>,
    /// The first refusal, if any.
    pub error: Option<SigError>,
}

/// Checks `items` against `stack`, last item against the top: each item takes
/// one slot off the stack and uses it. Stops at the first refusal, with the
/// refused slot taken; an item that finds the stack empty is a missing
/// argument.
pub open spec fn consume(
    stack: Seq<usize>,
    vars: Seq<CompVar>,
    borrows: Seq<i32>,
    items: Seq<SigItem>,
) -> Checked
    decreases items.len(),
{
    if items.len() == 0 {
        Checked { stack, borrows, error: None }
    } else if stack.len() == 0 {
        Checked { stack, borrows, error: Some(SigError::MissingArgument(items.last())) }
    } else {
        let var = vars[stack[0] as int];
        match use_as(var, borrows[var.num_borrowed as int], items.last()) {
            Err(e) => Checked { stack: stack.skip(1), borrows, error: Some(e) },
            Ok(counter) => consume(
                stack.skip(1),
                vars,
                borrows.update(var.num_borrowed as int, counter),
                items.drop_last(),
            ),
        }
    }
}

/// Every counter that the check of `items` against `stack` adds one to has
/// room for it: a shared use that is granted finds its counter below the
/// greatest number that a counter can hold.
pub open spec fn consume_fits(
    stack: Seq<usize>,
    vars: Seq<CompVar>,
    borrows: Seq<i32>,
    items: Seq<SigItem>,
) -> bool
    decreases items.len(),
{
    if items.len() == 0 || stack.len() == 0 {
        true
    } else {
        let var = vars[stack[0] as int];
        match use_as(var, borrows[var.num_borrowed as int], items.last()) {
            Err(_) => true,
            Ok(counter) => {
                &&& wants_unique(items.last().permissions) || borrows[var.num_borrowed as int]
                    < i32::MAX
                &&& consume_fits(
                    stack.skip(1),
                    vars,
                    borrows.update(var.num_borrowed as int, counter),
                    items.drop_last(),
                )
            },
        }
    }
}

/// Every counter that the check of a call adds one to has room for it.
pub open spec fn call_fits(m: SigModel, outputs: Seq<SigItem>, inputs: Seq<SigItem>) -> bool {
    &&& consume_fits(m.stack, m.vars, m.borrows, inputs)
    &&& consume(m.stack, m.vars, m.borrows, inputs).error is None ==> consume_fits(
        consume(m.stack, m.vars, m.borrows, inputs).stack,
        m.vars,
        consume(m.stack, m.vars, m.borrows, inputs).borrows,
        outputs,
    )
}

/// The signature stack after a call with the given signature, and whether the
/// call is accepted. The inputs are taken off the stack. The outputs are then
/// checked against the slots that stay, which are not taken off.
pub open spec fn call_sig_model(m: SigModel, outputs: Seq<SigItem>, inputs: Seq<SigItem>) -> (
    SigModel,
    Result<(), SigError>,
) {
    let a = consume(m.stack, m.vars, m.borrows, inputs);
    match a.error {
        Some(e) => (SigModel { stack: a.stack, borrows: a.borrows, ..m }, Err(e)),
        None => {
            let b = consume(a.stack, m.vars, a.borrows, outputs);
            (
                SigModel { stack: a.stack, borrows: b.borrows, ..m },
                match b.error {
                    Some(e) => Err(e),
                    None => Ok(()),
                },
            )
        },
    }
}

/// The compile-time mirror of the parameter stack, with the arenas that own
/// its slots and their borrow counters.
pub struct SigStack {
    pub cells_locals: i32,
    pub var_arena: StackAllocator<CompVar>,
    pub borrows_arena: StackAllocator<i32>,
    pub stack: StackRef<usize>,
}

impl View for SigStack {
    type V = SigModel;

    open spec fn view(&self) -> SigModel {
        SigModel {
            stack: self.stack@.live(),
            vars: self.var_arena@,
            borrows: self.borrows_arena@,
            cells_locals: self.cells_locals as int,
        }
    }
}

impl SigStack {
    pub open spec fn wf(&self) -> bool {
        &&& self.stack.wf()
        &&& self.var_arena.wf()
        &&& self.borrows_arena.wf()
        &&& self@.wf()
    }

    /// Declares a borrow counter that starts at `num`, and gives its index.
    pub fn add_borrows(&mut self, num: i32) -> (at: usize)
        requires
            old(self).wf(),
            old(self)@.borrows.len() < old(self).borrows_arena.capacity(),
            num >= -1,
        ensures
            final(self).wf(),
            at == old(self)@.borrows.len(),
            final(self)@ == (SigModel { borrows: old(self)@.borrows.push(num), ..old(self)@ }),
            final(self).borrows_arena.capacity() == old(self).borrows_arena.capacity(),
            final(self).var_arena.capacity() == old(self).var_arena.capacity(),
            final(self).stack@ == old(self).stack@,
    {
        match self.borrows_arena.save(num) {
            Ok(at) => at,
            Err(_) => 0,
        }
    }

    /// Declares a slot and gives its index.
    pub fn add_var(&mut self, var: CompVar) -> (at: usize)
        requires
            old(self).wf(),
            old(self)@.vars.len() < old(self).var_arena.capacity(),
            var.num_borrowed < old(self)@.borrows.len(),
        ensures
            final(self).wf(),
            at == old(self)@.vars.len(),
            final(self)@ == (SigModel { vars: old(self)@.vars.push(var), ..old(self)@ }),
            final(self).borrows_arena.capacity() == old(self).borrows_arena.capacity(),
            final(self).var_arena.capacity() == old(self).var_arena.capacity(),
            final(self).stack@ == old(self).stack@,
    {
        match self.var_arena.save(var) {
            Ok(at) => at,
            Err(_) => 0,
        }
    }

    /// Declares a local of type `tp`, which takes `cells` cells: a fresh slot
    /// with READ, WRITE and UNIQUE granted and a counter of zero, at the next
    /// free frame offset. Gives the slot's index.
    pub fn add_local(&mut self, tp: TypeP, cells: i32) -> (at: usize)
        requires
            old(self).wf(),
            old(self)@.borrows.len() < old(self).borrows_arena.capacity(),
            old(self)@.vars.len() < old(self).var_arena.capacity(),
            i32::MIN <= old(self)@.cells_locals + cells <= i32::MAX,
        ensures
            final(self).wf(),
            at == old(self)@.vars.len(),
            final(self)@.vars[at as int].num_borrowed == old(self)@.borrows.len(),
            final(self)@.vars[at as int].offset_from_start == old(self)@.cells_locals,
            final(self)@.borrows[old(self)@.borrows.len() as int] == 0,
            final(self)@ == (SigModel {
                vars: old(self)@.vars.push(
                    CompVar {
                        tp,
                        permissions: 0x07,
                        num_borrowed: old(self)@.borrows.len() as usize,
                        offset_from_start: old(self)@.cells_locals as i32,
                    },
                ),
                borrows: old(self)@.borrows.push(0i32),
                cells_locals: old(self)@.cells_locals + cells,
                ..old(self)@
            }),
            final(self).borrows_arena.capacity() == old(self).borrows_arena.capacity(),
            final(self).var_arena.capacity() == old(self).var_arena.capacity(),
            final(self).stack@ == old(self).stack@,
    {
        let num_borrowed = self.add_borrows(0);
        assert(READ_FLAG | WRITE_FLAG | UNIQUE_FLAG == 0x07) by (bit_vector)
            requires
                READ_FLAG == 1,
                WRITE_FLAG == 2,
                UNIQUE_FLAG == 4,
        ;
        let var = CompVar {
            tp,
            permissions: READ_FLAG | WRITE_FLAG | UNIQUE_FLAG,
            num_borrowed,
            offset_from_start: self.cells_locals,
        };
        let at = self.add_var(var);
        self.cells_locals = self.cells_locals + cells;
        at
    }

    /// Checks a call against the stack. Each input, last declared first,
    /// takes the top slot off the stack and uses it; then each output, last
    /// declared first, uses the slots that stay, which are not taken off. The
    /// first refusal ends the check and leaves what was done until then.
    pub fn call_sig(&mut self, outputs: &[SigItem], inputs: &[SigItem]) -> (r: Result<
        (),
        SigError,
    >)
        requires
            old(self).wf(),
            call_fits(old(self)@, outputs@, inputs@),
        ensures
            final(self).wf(),
            final(self)@ == call_sig_model(old(self)@, outputs@, inputs@).0,
            r == call_sig_model(old(self)@, outputs@, inputs@).1,
            final(self).stack@.store.len() == old(self).stack@.store.len(),
            final(self).borrows_arena.capacity() == old(self).borrows_arena.capacity(),
            final(self).var_arena.capacity() == old(self).var_arena.capacity(),
    {
        let ghost vars = self@.vars;
        let ghost goal = consume(self@.stack, vars, self@.borrows, inputs@);
        let mut i: usize = inputs.len();
        assert(inputs@.take(i as int) =~= inputs@);
        while i > 0
            invariant
                i <= inputs@.len(),
                self.wf(),
                self@.vars == vars,
                vars == old(self)@.vars,
                self@.cells_locals == old(self)@.cells_locals,
                self.stack@.store.len() == old(self).stack@.store.len(),
                self.borrows_arena.capacity() == old(self).borrows_arena.capacity(),
                self.var_arena.capacity() == old(self).var_arena.capacity(),
                goal == consume(old(self)@.stack, vars, old(self)@.borrows, inputs@),
                goal == consume(self@.stack, vars, self@.borrows, inputs@.take(i as int)),
                consume_fits(self@.stack, vars, self@.borrows, inputs@.take(i as int)),
                goal.error is None ==> consume_fits(goal.stack, vars, goal.borrows, outputs@),
            decreases i,
        {
            let ghost items = inputs@.take(i as int);
            i -= 1;
            let t = inputs[i];
            assert(items.last() == t);
            assert(items.drop_last() =~= inputs@.take(i as int));
            match self.stack.pop() {
                None => {
                    return Err(SigError::MissingArgument(t));
                },
                Some(b) => {
                    let var: CompVar = match self.var_arena.get(b) {
                        Some(v) => *v,
                        None => CompVar { tp: 0, offset_from_start: 0, num_borrowed: 0, permissions: 0 },
                    };
                    match use_box_as(&var, &mut self.borrows_arena, &t) {
                        Err(e) => {
                            return Err(e);
                        },
                        Ok(_) => {},
                    }
                },
            }
        }
        assert(inputs@.take(0) =~= Seq::<SigItem>::empty());
        let ghost kept = self@.stack;
        let ghost goal2 = consume(kept, vars, self@.borrows, outputs@);
        assert(goal.error is None && goal.stack == kept && goal.borrows == self@.borrows);
        let depth: usize = self.stack.len();
        let mut j: usize = outputs.len();
        let mut k: usize = 0;
        assert(outputs@.take(j as int) =~= outputs@);
        assert(kept.skip(0) =~= kept);
        while j > 0
            invariant
                j <= outputs@.len(),
                k <= depth,
                depth == kept.len(),
                self.wf(),
                self@.vars == vars,
                vars == old(self)@.vars,
                self@.stack == kept,
                goal == consume(old(self)@.stack, vars, old(self)@.borrows, inputs@),
                goal.error is None,
                goal.stack == kept,
                goal2 == consume(kept, vars, goal.borrows, outputs@),
                self@.cells_locals == old(self)@.cells_locals,
                self.stack@.store.len() == old(self).stack@.store.len(),
                self.borrows_arena.capacity() == old(self).borrows_arena.capacity(),
                self.var_arena.capacity() == old(self).var_arena.capacity(),
                goal2.borrows == consume(
                    kept.skip(k as int),
                    vars,
                    self@.borrows,
                    outputs@.take(j as int),
                ).borrows,
                goal2.error == consume(
                    kept.skip(k as int),
                    vars,
                    self@.borrows,
                    outputs@.take(j as int),
                ).error,
                consume_fits(kept.skip(k as int), vars, self@.borrows, outputs@.take(j as int)),
            decreases j,
        {
            let ghost items = outputs@.take(j as int);
            j -= 1;
            let t = outputs[j];
            assert(items.last() == t);
            assert(items.drop_last() =~= outputs@.take(j as int));
            if k >= depth {
                return Err(SigError::MissingArgument(t));
            }
            let b: usize = match self.stack.spot_raw(k) {
                Some(at) => match self.stack.read_slot(at) {
                    Some(b) => b,
                    None => 0,
                },
                None => 0,
            };
            assert(b == kept.skip(k as int)[0]);
            assert(kept.skip(k as int).skip(1) =~= kept.skip(k + 1));
            let var: CompVar = match self.var_arena.get(b) {
                Some(v) => *v,
                None => CompVar { tp: 0, offset_from_start: 0, num_borrowed: 0, permissions: 0 },
            };
            match use_box_as(&var, &mut self.borrows_arena, &t) {
                Err(e) => {
                    return Err(e);
                },
                Ok(_) => {},
            }
            k += 1;
        }
        assert(outputs@.take(0) =~= Seq::<SigItem>::empty());
        Ok(())
    }
}

/// Storage for a signature stack and its arenas, each of `STACK_SIZE` slots.
pub struct SigStackEasyMemory<const STACK_SIZE: usize> {
    stack_mem: Vec<usize>,
}

impl<const STACK_SIZE: usize> Default for SigStackEasyMemory<STACK_SIZE> {
    fn default() -> (m: Self)
        ensures
            m.slots() == STACK_SIZE,
    {
        SigStackEasyMemory::new()
    }
}

impl<const STACK_SIZE: usize> SigStackEasyMemory<STACK_SIZE> {
    #[verifier::type_invariant]
    spec fn sized(self) -> bool {
        self.stack_mem@.len() == STACK_SIZE
    }

    /// The slots of the stack and of each of its arenas.
    pub closed spec fn slots(&self) -> nat {
        self.stack_mem@.len()
    }

    pub fn new() -> (m: Self)
        ensures
            m.slots() == STACK_SIZE,
    {
        SigStackEasyMemory { stack_mem: make_storage(STACK_SIZE, 0usize) }
    }

    /// An empty signature stack over this storage, with no slot declared.
    pub fn make_sig_stack(self) -> (s: SigStack)
        ensures
            s.wf(),
            s@.stack.len() == 0,
            s@.vars.len() == 0,
            s@.borrows.len() == 0,
            s@.cells_locals == 0,
            s.var_arena.capacity() == STACK_SIZE,
            s.borrows_arena.capacity() == STACK_SIZE,
            s.stack@.capacity() == STACK_SIZE,
    {
        proof {
            use_type_invariant(&self);
        }
        let s = SigStack {
            cells_locals: 0,
            var_arena: StackAllocator::new(STACK_SIZE),
            borrows_arena: StackAllocator::new(STACK_SIZE),
            stack: StackRef::from_slice(self.stack_mem),
        };
        s
    }
}

/// A run of slots that is accepted took one slot off the stack for each of
/// its items.
pub proof fn lemma_consume_accepts(
    stack: Seq<usize>,
    vars: Seq<CompVar>,
    borrows: Seq<i32>,
    items: Seq<SigItem>,
)
    requires
        consume(stack, vars, borrows, items).error is None,
    ensures
        items.len() <= stack.len(),
        consume(stack, vars, borrows, items).stack == stack.skip(items.len() as int),
    decreases items.len(),
{
    if items.len() == 0 {
        assert(stack.skip(0) =~= stack);
    } else {
        let var = vars[stack[0] as int];
        let counter = use_as(var, borrows[var.num_borrowed as int], items.last())->Ok_0;
        let next = borrows.update(var.num_borrowed as int, counter);
        lemma_consume_accepts(stack.skip(1), vars, next, items.drop_last());
        assert(stack.skip(1).skip(items.len() - 1) =~= stack.skip(items.len() as int));
    }
}

/// An accepted call takes as many slots off the stack as it has inputs, and
/// leaves the slots below them as they were.
pub proof fn lemma_call_sig_accepts(m: SigModel, outputs: Seq<SigItem>, inputs: Seq<SigItem>)
    requires
        call_sig_model(m, outputs, inputs).1 is Ok,
    ensures
        inputs.len() <= m.stack.len(),
        call_sig_model(m, outputs, inputs).0.stack == m.stack.skip(inputs.len() as int),
        call_sig_model(m, outputs, inputs).0.stack.len() == m.stack.len() - inputs.len(),
        outputs.len() <= m.stack.len() - inputs.len(),
{
    lemma_consume_accepts(m.stack, m.vars, m.borrows, inputs);
    let a = consume(m.stack, m.vars, m.borrows, inputs);
    lemma_consume_accepts(a.stack, m.vars, a.borrows, outputs);
}

/// A missing argument is reported only when the stack has fewer slots than
/// the run has items, and it names the first item that found no slot.
pub proof fn lemma_consume_missing(
    stack: Seq<usize>,
    vars: Seq<CompVar>,
    borrows: Seq<i32>,
    items: Seq<SigItem>,
    missing: SigItem,
)
    requires
        consume(stack, vars, borrows, items).error == Some(SigError::MissingArgument(missing)),
    ensures
        stack.len() < items.len(),
        missing == items[items.len() - 1 - stack.len()],
        consume(stack, vars, borrows, items).stack.len() == 0,
    decreases items.len(),
{
    if items.len() != 0 && stack.len() != 0 {
        let var = vars[stack[0] as int];
        match use_as(var, borrows[var.num_borrowed as int], items.last()) {
            Err(e) => {},
            Ok(counter) => {
                let next = borrows.update(var.num_borrowed as int, counter);
                lemma_consume_missing(stack.skip(1), vars, next, items.drop_last(), missing);
            },
        }
    }
}

/// A run with more items than the stack has slots is never accepted.
pub proof fn lemma_consume_short_stack(
    stack: Seq<usize>,
    vars: Seq<CompVar>,
    borrows: Seq<i32>,
    items: Seq<SigItem>,
)
    requires
        stack.len() < items.len(),
    ensures
        consume(stack, vars, borrows, items).error is Some,
    decreases items.len(),
{
    if stack.len() != 0 {
        let var = vars[stack[0] as int];
        match use_as(var, borrows[var.num_borrowed as int], items.last()) {
            Err(e) => {},
            Ok(counter) => {
                let next = borrows.update(var.num_borrowed as int, counter);
                lemma_consume_short_stack(stack.skip(1), vars, next, items.drop_last());
            },
        }
    }
}

/// A wrong type is reported only for a slot and an item that face each other
/// and whose types differ: the slot `k` below the top and the item `k` before
/// the last.
pub proof fn lemma_consume_wrong_type(
    stack: Seq<usize>,
    vars: Seq<CompVar>,
    borrows: Seq<i32>,
    items: Seq<SigItem>,
    found: TypeP,
    wanted: TypeP,
) -> (k: int)
    requires
        consume(stack, vars, borrows, items).error == Some(SigError::WrongType { found, wanted }),
    ensures
        0 <= k < stack.len(),
        k < items.len(),
        vars[stack[k] as int].tp == found,
        items[items.len() - 1 - k].tp == wanted,
        found != wanted,
    decreases items.len(),
{
    let var = vars[stack[0] as int];
    match use_as(var, borrows[var.num_borrowed as int], items.last()) {
        Err(e) => 0,
        Ok(counter) => {
            let next = borrows.update(var.num_borrowed as int, counter);
            let k = lemma_consume_wrong_type(
                stack.skip(1),
                vars,
                next,
                items.drop_last(),
                found,
                wanted,
            );
            k + 1
        },
    }
}

/// Each item of the run faces a slot that admits it, taken by itself: the
/// item `k` before the last and the slot `k` below the top.
pub open spec fn faces_match(
    stack: Seq<usize>,
    vars: Seq<CompVar>,
    borrows: Seq<i32>,
    items: Seq<SigItem>,
) -> bool {
    &&& items.len() <= stack.len()
    &&& forall|k: int|
        0 <= k < items.len() ==> use_as(
            vars[#[trigger] stack[k] as int],
            borrows[vars[stack[k] as int].num_borrowed as int],
            items[items.len() - 1 - k],
        ) is Ok
}

/// No two of the top `n` slots share a borrow counter.
pub open spec fn counters_apart(stack: Seq<usize>, vars: Seq<CompVar>, n: int) -> bool {
    forall|a: int, b: int|
        0 <= a < b < n ==> vars[#[trigger] stack[a] as int].num_borrowed != vars[#[trigger] stack[b] as int].num_borrowed
}

/// A run whose items each face a slot that admits them, on slots that share
/// no borrow counter, is accepted.
pub proof fn lemma_consume_match(
    stack: Seq<usize>,
    vars: Seq<CompVar>,
    borrows: Seq<i32>,
    items: Seq<SigItem>,
)
    requires
        faces_match(stack, vars, borrows, items),
        counters_apart(stack, vars, items.len() as int),
        forall|i: int| 0 <= i < stack.len() ==> #[trigger] stack[i] < vars.len(),
        forall|i: int| 0 <= i < vars.len() ==> (#[trigger] vars[i]).num_borrowed < borrows.len(),
    ensures
        consume(stack, vars, borrows, items).error is None,
        consume(stack, vars, borrows, items).stack == stack.skip(items.len() as int),
    decreases items.len(),
{
    if items.len() == 0 {
        assert(stack.skip(0) =~= stack);
    } else {
        let var = vars[stack[0] as int];
        assert(use_as(var, borrows[var.num_borrowed as int], items[items.len() - 1 - 0]) is Ok);
        let counter = use_as(var, borrows[var.num_borrowed as int], items.last())->Ok_0;
        let next = borrows.update(var.num_borrowed as int, counter);
        let rest = stack.skip(1);
        let fewer = items.drop_last();
        assert forall|k: int| 0 <= k < fewer.len() implies use_as(
            vars[#[trigger] rest[k] as int],
            next[vars[rest[k] as int].num_borrowed as int],
            fewer[fewer.len() - 1 - k],
        ) is Ok by {
            assert(rest[k] == stack[k + 1]);
            assert(vars[stack[0] as int].num_borrowed != vars[stack[k + 1] as int].num_borrowed);
            assert(fewer[fewer.len() - 1 - k] == items[items.len() - 1 - (k + 1)]);
        }
        assert forall|a: int, b: int| 0 <= a < b < fewer.len() implies vars[#[trigger] rest[a] as int].num_borrowed
            != vars[#[trigger] rest[b] as int].num_borrowed by {
            assert(rest[a] == stack[a + 1]);
            assert(rest[b] == stack[b + 1]);
        }
        lemma_consume_match(rest, vars, next, fewer);
        assert(rest.skip(fewer.len() as int) =~= stack.skip(items.len() as int));
    }
}

/// Counters that each leave room for one use per item, and `slack` more,
/// fit the check of the items, and leave room for `slack` uses after it.
pub proof fn lemma_consume_fits(
    stack: Seq<usize>,
    vars: Seq<CompVar>,
    borrows: Seq<i32>,
    items: Seq<SigItem>,
    slack: nat,
)
    requires
        forall|i: int| 0 <= i < stack.len() ==> #[trigger] stack[i] < vars.len(),
        forall|i: int| 0 <= i < vars.len() ==> (#[trigger] vars[i]).num_borrowed < borrows.len(),
        forall|k: int|
            0 <= k < borrows.len() ==> #[trigger] borrows[k] + items.len() + slack <= i32::MAX,
    ensures
        consume_fits(stack, vars, borrows, items),
        consume(stack, vars, borrows, items).borrows.len() == borrows.len(),
        forall|k: int|
            0 <= k < borrows.len() ==> #[trigger] consume(stack, vars, borrows, items).borrows[k]
                + slack <= i32::MAX,
        forall|i: int|
            0 <= i < consume(stack, vars, borrows, items).stack.len() ==> #[trigger] consume(
                stack,
                vars,
                borrows,
                items,
            ).stack[i] < vars.len(),
    decreases items.len(),
{
    if items.len() != 0 && stack.len() != 0 {
        let var = vars[stack[0] as int];
        let at = var.num_borrowed as int;
        assert(borrows[at] + items.len() + slack <= i32::MAX);
        let rest = stack.skip(1);
        assert forall|i: int| 0 <= i < rest.len() implies #[trigger] rest[i] < vars.len() by {
            assert(rest[i] == stack[i + 1]);
        }
        match use_as(var, borrows[at], items.last()) {
            Err(e) => {},
            Ok(counter) => {
                let next = borrows.update(at, counter);
                assert forall|k: int| 0 <= k < next.len() implies #[trigger] next[k]
                    + items.drop_last().len() + slack <= i32::MAX by {
                    assert(borrows[k] + items.len() + slack <= i32::MAX);
                }
                lemma_consume_fits(rest, vars, next, items.drop_last(), slack);
            },
        }
    }
}

/// Counters that each leave room for one use per input and per output fit
/// the check of the call.
pub proof fn lemma_call_fits(m: SigModel, outputs: Seq<SigItem>, inputs: Seq<SigItem>)
    requires
        m.wf(),
        forall|k: int|
            0 <= k < m.borrows.len() ==> #[trigger] m.borrows[k] + inputs.len() + outputs.len()
                <= i32::MAX,
    ensures
        call_fits(m, outputs, inputs),
{
    lemma_consume_fits(m.stack, m.vars, m.borrows, inputs, outputs.len());
    let a = consume(m.stack, m.vars, m.borrows, inputs);
    assert forall|k: int| 0 <= k < a.borrows.len() implies #[trigger] a.borrows[k] + outputs.len()
        + 0 <= i32::MAX by {}
    lemma_consume_fits(a.stack, m.vars, a.borrows, outputs, 0);
}

/// The counter of the slot `k` below the top.
pub open spec fn counter_of(stack: Seq<usize>, vars: Seq<CompVar>, k: int) -> int {
    vars[stack[k] as int].num_borrowed as int
}

/// No slot of the top `n` has the counter `c`.
pub open spec fn counter_unused(stack: Seq<usize>, vars: Seq<CompVar>, n: int, c: int) -> bool {
    forall|k: int| 0 <= k < n ==> #[trigger] counter_of(stack, vars, k) != c
}

/// What an accepted run does to the counters. Under the conditions of
/// `lemma_consume_match`, the counter of each slot that faces an item is what
/// the use of that slot as that item makes of it, and every other counter is
/// as it was.
pub proof fn lemma_consume_match_counters(
    stack: Seq<usize>,
    vars: Seq<CompVar>,
    borrows: Seq<i32>,
    items: Seq<SigItem>,
)
    requires
        faces_match(stack, vars, borrows, items),
        counters_apart(stack, vars, items.len() as int),
        forall|i: int| 0 <= i < stack.len() ==> #[trigger] stack[i] < vars.len(),
        forall|i: int| 0 <= i < vars.len() ==> (#[trigger] vars[i]).num_borrowed < borrows.len(),
    ensures
        consume(stack, vars, borrows, items).borrows.len() == borrows.len(),
        forall|k: int|
            0 <= k < items.len() ==> consume(stack, vars, borrows, items).borrows[#[trigger] counter_of(
                stack,
                vars,
                k,
            )] == use_as(
                vars[stack[k] as int],
                borrows[counter_of(stack, vars, k)],
                items[items.len() - 1 - k],
            )->Ok_0,
        forall|c: int|
            0 <= c < borrows.len() && counter_unused(stack, vars, items.len() as int, c)
                ==> #[trigger] consume(stack, vars, borrows, items).borrows[c] == borrows[c],
    decreases items.len(),
{
    if items.len() != 0 {
        let var = vars[stack[0] as int];
        let at = var.num_borrowed as int;
        assert(use_as(var, borrows[at], items[items.len() - 1 - 0]) is Ok);
        let counter = use_as(var, borrows[at], items.last())->Ok_0;
        let next = borrows.update(at, counter);
        let rest = stack.skip(1);
        let fewer = items.drop_last();
        let after = consume(stack, vars, borrows, items).borrows;
        assert(after == consume(rest, vars, next, fewer).borrows);
        assert forall|k: int| 0 <= k < fewer.len() implies use_as(
            vars[#[trigger] rest[k] as int],
            next[vars[rest[k] as int].num_borrowed as int],
            fewer[fewer.len() - 1 - k],
        ) is Ok by {
            assert(rest[k] == stack[k + 1]);
            assert(vars[stack[0] as int].num_borrowed != vars[stack[k + 1] as int].num_borrowed);
            assert(fewer[fewer.len() - 1 - k] == items[items.len() - 1 - (k + 1)]);
        }
        assert forall|a: int, b: int| 0 <= a < b < fewer.len() implies vars[#[trigger] rest[a] as int].num_borrowed
            != vars[#[trigger] rest[b] as int].num_borrowed by {
            assert(rest[a] == stack[a + 1]);
            assert(rest[b] == stack[b + 1]);
        }
        assert forall|i: int| 0 <= i < rest.len() implies #[trigger] rest[i] < vars.len() by {
            assert(rest[i] == stack[i + 1]);
        }
        lemma_consume_match_counters(rest, vars, next, fewer);
        assert forall|k: int| 0 <= k < fewer.len() implies #[trigger] counter_of(rest, vars, k)
            != at by {
            assert(rest[k] == stack[k + 1]);
            assert(vars[stack[0] as int].num_borrowed != vars[stack[k + 1] as int].num_borrowed);
        }
        assert(counter_unused(rest, vars, fewer.len() as int, at));
        assert(after[at] == next[at]);
        assert forall|k: int| 0 <= k < items.len() implies after[#[trigger] counter_of(
            stack,
            vars,
            k,
        )] == use_as(
            vars[stack[k] as int],
            borrows[counter_of(stack, vars, k)],
            items[items.len() - 1 - k],
        )->Ok_0 by {
            if k > 0 {
                assert(rest[k - 1] == stack[k]);
                assert(counter_of(rest, vars, k - 1) == counter_of(stack, vars, k));
                assert(counter_of(rest, vars, k - 1) != at);
                assert(fewer[fewer.len() - 1 - (k - 1)] == items[items.len() - 1 - k]);
            }
        }
        assert forall|c: int|
            0 <= c < borrows.len() && counter_unused(
                stack,
                vars,
                items.len() as int,
                c,
            ) implies #[trigger] after[c] == borrows[c] by {
            assert(counter_of(stack, vars, 0) != c);
            assert forall|k: int| 0 <= k < fewer.len() implies #[trigger] counter_of(
                rest,
                vars,
                k,
            ) != c by {
                assert(rest[k] == stack[k + 1]);
                assert(counter_of(stack, vars, k + 1) != c);
            }
            assert(counter_unused(rest, vars, fewer.len() as int, c));
        }
    }
}

/// The item that the slot `k` below the top faces in a call: the inputs take
/// the top slots, last declared input on top, and the outputs the slots
/// below them, last declared output first.
pub open spec fn facing_item(outputs: Seq<SigItem>, inputs: Seq<SigItem>, k: int) -> SigItem {
    if k < inputs.len() {
        inputs[inputs.len() - 1 - k]
    } else {
        outputs[outputs.len() - 1 - (k - inputs.len())]
    }
}

/// A call whose signature matches the top of the signature stack. Each input
/// and, below the inputs, each output faces a slot that admits it, and no two
/// of these slots share a counter. Then the call is accepted; it takes off as
/// many slots as it has inputs and leaves the slots below as they were; the
/// counter of each slot that faces an item is what the use as that item makes
/// of it; and every other counter is as it was.
pub proof fn lemma_call_sig_match(m: SigModel, outputs: Seq<SigItem>, inputs: Seq<SigItem>)
    requires
        m.wf(),
        faces_match(m.stack, m.vars, m.borrows, inputs),
        faces_match(m.stack.skip(inputs.len() as int), m.vars, m.borrows, outputs),
        counters_apart(m.stack, m.vars, (inputs.len() + outputs.len()) as int),
    ensures
        call_sig_model(m, outputs, inputs).1 is Ok,
        call_sig_model(m, outputs, inputs).0.stack == m.stack.skip(inputs.len() as int),
        call_sig_model(m, outputs, inputs).0.vars == m.vars,
        call_sig_model(m, outputs, inputs).0.cells_locals == m.cells_locals,
        call_sig_model(m, outputs, inputs).0.borrows.len() == m.borrows.len(),
        forall|k: int|
            0 <= k < inputs.len() + outputs.len() ==> call_sig_model(
                m,
                outputs,
                inputs,
            ).0.borrows[#[trigger] counter_of(m.stack, m.vars, k)] == use_as(
                m.vars[m.stack[k] as int],
                m.borrows[counter_of(m.stack, m.vars, k)],
                facing_item(outputs, inputs, k),
            )->Ok_0,
        forall|c: int|
            0 <= c < m.borrows.len() && counter_unused(
                m.stack,
                m.vars,
                (inputs.len() + outputs.len()) as int,
                c,
            ) ==> #[trigger] call_sig_model(m, outputs, inputs).0.borrows[c] == m.borrows[c],
{
    let n = inputs.len() as int;
    let o = outputs.len() as int;
    let kept = m.stack.skip(n);
    assert forall|a: int, b: int| 0 <= a < b < n implies m.vars[#[trigger] m.stack[a] as int].num_borrowed
        != m.vars[#[trigger] m.stack[b] as int].num_borrowed by {}
    lemma_consume_match(m.stack, m.vars, m.borrows, inputs);
    lemma_consume_match_counters(m.stack, m.vars, m.borrows, inputs);
    let a = consume(m.stack, m.vars, m.borrows, inputs);
    assert(a.stack == kept);
    assert forall|j: int| 0 <= j < o implies #[trigger] counter_unused(
        m.stack,
        m.vars,
        n,
        counter_of(kept, m.vars, j),
    ) by {
        assert(kept[j] == m.stack[n + j]);
        assert forall|k: int| 0 <= k < n implies #[trigger] counter_of(m.stack, m.vars, k)
            != counter_of(kept, m.vars, j) by {
            assert(m.vars[m.stack[k] as int].num_borrowed != m.vars[m.stack[n
                + j] as int].num_borrowed);
        }
    }
    assert forall|j: int| 0 <= j < o implies use_as(
        m.vars[#[trigger] kept[j] as int],
        a.borrows[m.vars[kept[j] as int].num_borrowed as int],
        outputs[o - 1 - j],
    ) is Ok by {
        assert(counter_unused(m.stack, m.vars, n, counter_of(kept, m.vars, j)));
        assert(a.borrows[counter_of(kept, m.vars, j)] == m.borrows[counter_of(kept, m.vars, j)]);
    }
    assert forall|x: int, y: int| 0 <= x < y < o implies m.vars[#[trigger] kept[x] as int].num_borrowed
        != m.vars[#[trigger] kept[y] as int].num_borrowed by {
        assert(kept[x] == m.stack[n + x]);
        assert(kept[y] == m.stack[n + y]);
    }
    assert forall|i: int| 0 <= i < kept.len() implies #[trigger] kept[i] < m.vars.len() by {
        assert(kept[i] == m.stack[n + i]);
    }
    lemma_consume_match(kept, m.vars, a.borrows, outputs);
    lemma_consume_match_counters(kept, m.vars, a.borrows, outputs);
    let b = consume(kept, m.vars, a.borrows, outputs);
    let done = call_sig_model(m, outputs, inputs).0;
    assert(done.borrows == b.borrows);
    assert forall|k: int| 0 <= k < n + o implies done.borrows[#[trigger] counter_of(
        m.stack,
        m.vars,
        k,
    )] == use_as(
        m.vars[m.stack[k] as int],
        m.borrows[counter_of(m.stack, m.vars, k)],
        facing_item(outputs, inputs, k),
    )->Ok_0 by {
        let c = counter_of(m.stack, m.vars, k);
        if k < n {
            assert forall|j: int| 0 <= j < o implies #[trigger] counter_of(kept, m.vars, j)
                != c by {
                assert(kept[j] == m.stack[n + j]);
                assert(m.vars[m.stack[k] as int].num_borrowed != m.vars[m.stack[n
                    + j] as int].num_borrowed);
            }
            assert(counter_unused(kept, m.vars, o, c));
            assert(b.borrows[c] == a.borrows[c]);
        } else {
            let j = k - n;
            assert(kept[j] == m.stack[k]);
            assert(counter_of(kept, m.vars, j) == c);
            assert(counter_unused(m.stack, m.vars, n, counter_of(kept, m.vars, j)));
            assert(a.borrows[c] == m.borrows[c]);
        }
    }
    assert forall|c: int|
        0 <= c < m.borrows.len() && counter_unused(m.stack, m.vars, n + o, c) implies #[trigger] done.borrows[c]
        == m.borrows[c] by {
        assert forall|k: int| 0 <= k < n implies #[trigger] counter_of(m.stack, m.vars, k)
            != c by {}
        assert(counter_unused(m.stack, m.vars, n, c));
        assert forall|j: int| 0 <= j < o implies #[trigger] counter_of(kept, m.vars, j) != c by {
            assert(kept[j] == m.stack[n + j]);
            assert(counter_of(m.stack, m.vars, n + j) != c);
        }
        assert(counter_unused(kept, m.vars, o, c));
    }
}

} // verus!
