//! Interning of types: a shape that was seen before is the type it was then,
//! and a new shape becomes a new type with a name built from the names of
//! the types it is made of.
use crate::lex::decimal;
use crate::lex::lookup;
use crate::lex::DelayedSlice;
use crate::lex::DelayedStr;
use crate::lex::Lex;
use crate::lex::LexModel;
use crate::lex::StackWriter;
use crate::types::spec_shape_key;
use crate::types::Type;
use crate::types::TypeInner;
use crate::types::TypeP;
use vstd::prelude::*;
use vstd::string::StringSliceAdditionalSpecFns;

verus! {

/// The bytes of one address, which is what one cell holds.
pub const POINTER_BYTES: i32 = 8;

/// The name of the type `t`.
pub open spec fn name_of(types: Seq<Type>, names: Seq<u8>, t: TypeP) -> Seq<u8> {
    types[t as int].name.0.of(names)
}

/// The name of an array type: `Array(elem)` where the length is not known,
/// `Array<len>(elem)` where it is.
pub open spec fn array_name(elem: Seq<u8>, len: Option<i32>) -> Seq<u8> {
    match len {
        None => "Array(".spec_bytes() + elem + ")".spec_bytes(),
        Some(n) => "Array<".spec_bytes() + decimal(n as int) + ">(".spec_bytes() + elem
            + ")".spec_bytes(),
    }
}

/// The names of the types `elems`, with a comma and a space between one and
/// the next.
pub open spec fn joined_names(types: Seq<Type>, names: Seq<u8>, elems: Seq<TypeP>) -> Seq<u8>
    decreases elems.len(),
{
    if elems.len() == 0 {
        Seq::empty()
    } else if elems.len() == 1 {
        name_of(types, names, elems[0])
    } else {
        joined_names(types, names, elems.drop_last()) + ", ".spec_bytes() + name_of(
            types,
            names,
            elems.last(),
        )
    }
}

/// The name of a cluster type: `Cluster(a, b, c)`.
pub open spec fn cluster_name(types: Seq<Type>, names: Seq<u8>, elems: Seq<TypeP>) -> Seq<u8> {
    "Cluster(".spec_bytes() + joined_names(types, names, elems) + ")".spec_bytes()
}

pub open spec fn fits_i32(v: int) -> bool {
    i32::MIN <= v <= i32::MAX
}

/// The cells and the bytes that the types `elems` take together, or nothing
/// where a sum on the way does not fit in 32 bits.
pub open spec fn totals(types: Seq<Type>, elems: Seq<TypeP>) -> Option<(i32, i32)>
    decreases elems.len(),
{
    if elems.len() == 0 {
        Some((0i32, 0i32))
    } else {
        match totals(types, elems.drop_last()) {
            None => None,
            Some((cells, size)) => if fits_i32(cells + types[elems.last() as int].cells)
                && fits_i32(size + types[elems.last() as int].size) {
                Some(
                    (
                        (cells + types[elems.last() as int].cells) as i32,
                        (size + types[elems.last() as int].size) as i32,
                    ),
                )
            } else {
                None
            },
        }
    }
}

/// The name that is written for a shape when it becomes a new type. An alias
/// brings its name with it, so nothing is written for it.
pub open spec fn fresh_name(
    inner: TypeInner,
    types: Seq<Type>,
    names: Seq<u8>,
    lists: Seq<TypeP>,
) -> Seq<u8> {
    match inner {
        TypeInner::Basic => Seq::empty(),
        TypeInner::Alias(_, _) => Seq::empty(),
        TypeInner::Array(elem, len) => array_name(name_of(types, names, elem), len),
        TypeInner::Cluster(elems) => cluster_name(types, names, elems.of(lists)),
    }
}

/// The range that a name written at the end of the name arena gets.
pub open spec fn fresh_range(names: Seq<u8>, name: Seq<u8>) -> DelayedStr {
    DelayedStr(DelayedSlice { start: names.len() as usize, len: name.len() as usize })
}

/// The new type that a shape becomes, or nothing where its size does not fit
/// in 32 bits. An alias has the size of what it stands for; an array of
/// unknown length is an address and a length; an array of known length is as
/// many times its element; a cluster is the sum of its members.
pub open spec fn fresh_type(
    inner: TypeInner,
    types: Seq<Type>,
    names: Seq<u8>,
    lists: Seq<TypeP>,
) -> Option<Type> {
    let at = fresh_range(names, fresh_name(inner, types, names, lists));
    match inner {
        TypeInner::Basic => None,
        TypeInner::Alias(parent, name) => Some(
            Type {
                inner,
                name,
                cells: types[parent as int].cells,
                size: types[parent as int].size,
            },
        ),
        TypeInner::Array(elem, None) => Some(Type { inner, name: at, cells: 2, size: 16 }),
        TypeInner::Array(elem, Some(n)) => if fits_i32(n * types[elem as int].cells) && fits_i32(
            n * types[elem as int].size,
        ) {
            Some(
                Type {
                    inner,
                    name: at,
                    cells: (n * types[elem as int].cells) as i32,
                    size: (n * types[elem as int].size) as i32,
                },
            )
        } else {
            None
        },
        TypeInner::Cluster(elems) => match totals(types, elems.of(lists)) {
            None => None,
            Some((cells, size)) => Some(Type { inner, name: at, cells, size }),
        },
    }
}

/// The type that a shape is, and what the compilation owns afterwards. A
/// shape whose key is in the type table is the type kept there, and nothing
/// changes. Any other shape becomes a new type: its name is written at the
/// end of the name arena, the type is saved at the end of the type arena, and
/// its index is kept in the table under the shape's key. Where the size does
/// not fit in 32 bits, or the name or the type finds no room, there is no
/// type and nothing changes.
pub open spec fn interned(inner: TypeInner, m: LexModel, names_cap: nat, types_cap: nat) -> (
    Option<TypeP>,
    LexModel,
) {
    let key = spec_shape_key(inner.shape(m.names, m.lists));
    let name = fresh_name(inner, m.types, m.names, m.lists);
    match lookup(m.type_map, key) {
        Some(t) => (Some(t), m),
        None => match fresh_type(inner, m.types, m.names, m.lists) {
            None => (None, m),
            Some(ty) => if m.names.len() + name.len() > names_cap || m.types.len() >= types_cap {
                (None, m)
            } else {
                (
                    Some(m.types.len() as usize),
                    LexModel {
                        names: m.names + name,
                        types: m.types.push(ty),
                        type_map: m.type_map.insert(key, m.types.len() as usize),
                        ..m
                    },
                )
            },
        },
    }
}

/// Every key of the type table leads to a type of the arena whose shape is
/// valid and has that key.
pub open spec fn table_sound(m: LexModel) -> bool {
    forall|k: Seq<u64>| #[trigger]
        m.type_map.dom().contains(k) ==> {
            &&& m.type_map[k] < m.types.len()
            &&& m.types[m.type_map[k] as int].inner.valid_in(m.types, m.names, m.lists)
            &&& spec_shape_key(m.types[m.type_map[k] as int].inner.shape(m.names, m.lists)) == k
        }
}

/// A valid shape stays valid, and is written out the same way, when the
/// arenas grow.
pub proof fn lemma_shape_stable(
    inner: TypeInner,
    types: Seq<Type>,
    names: Seq<u8>,
    lists: Seq<TypeP>,
    more_types: Seq<Type>,
    more_names: Seq<u8>,
    more_lists: Seq<TypeP>,
)
    requires
        inner.valid_in(types, names, lists),
    ensures
        inner.valid_in(types + more_types, names + more_names, lists + more_lists),
        inner.shape(names + more_names, lists + more_lists) == inner.shape(names, lists),
{
    match inner {
        TypeInner::Alias(parent, name) => {
            assert(name.0.of(names + more_names) =~= name.0.of(names));
        },
        TypeInner::Cluster(elems) => {
            assert(elems.of(lists + more_lists) =~= elems.of(lists));
        },
        _ => {},
    }
}

/// A sound table stays sound when names are added at the end of the name
/// arena.
pub proof fn lemma_names_grow_sound(m: LexModel, more: Seq<u8>)
    requires
        table_sound(m),
    ensures
        table_sound(LexModel { names: m.names + more, ..m }),
{
    let after = LexModel { names: m.names + more, ..m };
    assert forall|k: Seq<u64>| #[trigger] after.type_map.dom().contains(k) implies {
        &&& after.type_map[k] < after.types.len()
        &&& after.types[after.type_map[k] as int].inner.valid_in(
            after.types,
            after.names,
            after.lists,
        )
        &&& spec_shape_key(
            after.types[after.type_map[k] as int].inner.shape(after.names, after.lists),
        ) == k
    } by {
        assert(m.type_map.dom().contains(k));
        let inner = m.types[m.type_map[k] as int].inner;
        lemma_shape_stable(
            inner,
            m.types,
            m.names,
            m.lists,
            Seq::<Type>::empty(),
            more,
            Seq::<TypeP>::empty(),
        );
        assert(m.types + Seq::<Type>::empty() =~= m.types);
        assert(m.lists + Seq::<TypeP>::empty() =~= m.lists);
    }
}

/// Interning keeps a sound table sound, and the type that a shape is given
/// is a type of the arena that has the shape.
pub proof fn lemma_interned_sound(inner: TypeInner, m: LexModel, names_cap: nat, types_cap: nat)
    requires
        table_sound(m),
        inner.valid_in(m.types, m.names, m.lists),
        m.types.len() <= usize::MAX,
    ensures
        table_sound(interned(inner, m, names_cap, types_cap).1),
        interned(inner, m, names_cap, types_cap).0 matches Some(t) ==> {
            &&& t < interned(inner, m, names_cap, types_cap).1.types.len()
            &&& interned(inner, m, names_cap, types_cap).1.types[t as int].inner.shape(
                interned(inner, m, names_cap, types_cap).1.names,
                interned(inner, m, names_cap, types_cap).1.lists,
            ) == inner.shape(m.names, m.lists)
        },
{
    let key = spec_shape_key(inner.shape(m.names, m.lists));
    let after = interned(inner, m, names_cap, types_cap).1;
    match lookup(m.type_map, key) {
        Some(t) => {
            assert(m.type_map.dom().contains(key));
            crate::types::lemma_shape_key_injective(
                m.types[t as int].inner.shape(m.names, m.lists),
                inner.shape(m.names, m.lists),
            );
        },
        None => {
            if interned(inner, m, names_cap, types_cap).0 is Some {
                let name = fresh_name(inner, m.types, m.names, m.lists);
                let ty = fresh_type(inner, m.types, m.names, m.lists)->Some_0;
                let at = m.types.len() as usize;
                assert(ty.inner == inner);
                assert(after.types =~= m.types + seq![ty]);
                lemma_shape_stable(
                    inner,
                    m.types,
                    m.names,
                    m.lists,
                    seq![ty],
                    name,
                    Seq::<TypeP>::empty(),
                );
                assert(m.lists + Seq::<TypeP>::empty() =~= m.lists);
                assert forall|k: Seq<u64>| #[trigger] after.type_map.dom().contains(k) implies {
                    &&& after.type_map[k] < after.types.len()
                    &&& after.types[after.type_map[k] as int].inner.valid_in(
                        after.types,
                        after.names,
                        after.lists,
                    )
                    &&& spec_shape_key(
                        after.types[after.type_map[k] as int].inner.shape(
                            after.names,
                            after.lists,
                        ),
                    ) == k
                } by {
                    if k != key {
                        assert(m.type_map.dom().contains(k));
                        lemma_shape_stable(
                            m.types[m.type_map[k] as int].inner,
                            m.types,
                            m.names,
                            m.lists,
                            seq![ty],
                            name,
                            Seq::<TypeP>::empty(),
                        );
                    }
                }
            }
        },
    }
}

/// Equal shapes are one type. Where a shape was given the type `t`, a shape
/// that is written out the same way afterwards is given `t` too, and nothing
/// changes any more.
pub proof fn lemma_interned_again(
    first: TypeInner,
    again: TypeInner,
    m: LexModel,
    names_cap: nat,
    types_cap: nat,
)
    requires
        interned(first, m, names_cap, types_cap).0 is Some,
        again.shape(
            interned(first, m, names_cap, types_cap).1.names,
            interned(first, m, names_cap, types_cap).1.lists,
        ) == first.shape(m.names, m.lists),
    ensures
        interned(again, interned(first, m, names_cap, types_cap).1, names_cap, types_cap)
            == interned(first, m, names_cap, types_cap),
{
}

/// Shapes that differ are never given the type of one another by the table:
/// their keys differ.
pub proof fn lemma_keys_apart(a: TypeInner, b: TypeInner, names: Seq<u8>, lists: Seq<TypeP>)
    requires
        a.shape(names, lists) != b.shape(names, lists),
    ensures
        spec_shape_key(a.shape(names, lists)) != spec_shape_key(b.shape(names, lists)),
{
    if spec_shape_key(a.shape(names, lists)) == spec_shape_key(b.shape(names, lists)) {
        crate::types::lemma_shape_key_injective(a.shape(names, lists), b.shape(names, lists));
    }
}

/// The names and the totals of a part of a list are no longer and no less
/// defined than those of the whole list.
pub proof fn lemma_prefix(types: Seq<Type>, names: Seq<u8>, elems: Seq<TypeP>, j: int)
    requires
        0 <= j <= elems.len(),
    ensures
        joined_names(types, names, elems.take(j)).len() <= joined_names(types, names, elems).len(),
        j < elems.len() ==> joined_names(types, names, elems.take(j + 1)).len() <= joined_names(
            types,
            names,
            elems,
        ).len(),
        totals(types, elems.take(j)) is None ==> totals(types, elems) is None,
    decreases elems.len() - j,
{
    if j == elems.len() {
        assert(elems.take(j) =~= elems);
    } else {
        lemma_prefix(types, names, elems, j + 1);
        assert(elems.take(j + 1).drop_last() =~= elems.take(j));
    }
}

impl DelayedSlice {
    /// Nothing, at the start of a region.
    pub fn nothing() -> (s: Self)
        ensures
            s.start() == 0,
            s.len() == 0,
    {
        DelayedSlice { start: 0, len: 0 }
    }
}

/// Appends the name of the type `t` to the name arena, all of it or nothing.
fn put_name(writer: &mut StackWriter, lex: &mut Lex, t: TypeP) -> (r: Result<(), ()>)
    requires
        old(lex).wf(),
        t < old(lex)@.types.len(),
    ensures
        final(lex).wf(),
        final(lex).same_limits(old(lex)),
        final(writer).start() == old(writer).start(),
        match r {
            Ok(_) => {
                &&& old(lex)@.names.len() + name_of(old(lex)@.types, old(lex)@.names, t).len()
                    <= old(lex).comp_data_mem.capacity()
                &&& final(lex)@ == (LexModel {
                    names: old(lex)@.names + name_of(old(lex)@.types, old(lex)@.names, t),
                    ..old(lex)@
                })
            },
            Err(_) => {
                &&& old(lex)@.names.len() + name_of(old(lex)@.types, old(lex)@.names, t).len()
                    > old(lex).comp_data_mem.capacity()
                &&& final(lex)@ == old(lex)@
            },
        },
{
    let range: DelayedSlice = match lex.types_mem.get(t) {
        Some(ty) => ty.name.0,
        None => DelayedSlice::nothing(),
    };
    let copy: Vec<u8> = match lex.comp_data_mem.bytes(&range) {
        Some(b) => vstd::slice::slice_to_vec(b),
        None => Vec::new(),
    };
    writer.write_bytes(&mut lex.comp_data_mem, copy.as_slice())
}

/// The compilation `after` differs from `before` in nothing but names that
/// were added at the end of the name arena.
pub open spec fn only_names_added(before: LexModel, after: LexModel) -> bool {
    &&& after == (LexModel { names: after.names, ..before })
    &&& before.names.len() <= after.names.len()
    &&& after.names.take(before.names.len() as int) == before.names
}

/// Writes the name of an array type and gives its size in cells and in
/// bytes. Where there is no result, a part of the name may have been written.
fn build_array(writer: &mut StackWriter, lex: &mut Lex, elem: TypeP, len: Option<i32>) -> (r:
    Option<(i32, i32)>)
    requires
        old(lex).wf(),
        elem < old(lex)@.types.len(),
    ensures
        final(lex).wf(),
        final(lex).same_limits(old(lex)),
        final(writer).start() == old(writer).start(),
        only_names_added(old(lex)@, final(lex)@),
        match r {
            Some((cells, size)) => {
                &&& fresh_type(
                    TypeInner::Array(elem, len),
                    old(lex)@.types,
                    old(lex)@.names,
                    old(lex)@.lists,
                ) matches Some(ty)
                &&& ty.cells == cells
                &&& ty.size == size
                &&& final(lex)@.names == old(lex)@.names + array_name(
                    name_of(old(lex)@.types, old(lex)@.names, elem),
                    len,
                )
            },
            None => {
                ||| fresh_type(
                    TypeInner::Array(elem, len),
                    old(lex)@.types,
                    old(lex)@.names,
                    old(lex)@.lists,
                ) is None
                ||| old(lex)@.names.len() + array_name(
                    name_of(old(lex)@.types, old(lex)@.names, elem),
                    len,
                ).len() > old(lex).comp_data_mem.capacity()
            },
        },
{
    let ghost base = lex@.names;
    let ghost own = name_of(lex@.types, base, elem);
    let (elem_cells, elem_size): (i32, i32) = match lex.types_mem.get(elem) {
        Some(ty) => (ty.cells, ty.size),
        None => (0, 0),
    };
    match len {
        None => {
            if writer.write_str(&mut lex.comp_data_mem, "Array(").is_err() {
                assert(lex@.names.take(base.len() as int) =~= base);
                return None;
            }
            assert(name_of(lex@.types, lex@.names, elem) =~= own);
            if put_name(writer, lex, elem).is_err() {
                assert(lex@.names.take(base.len() as int) =~= base);
                return None;
            }
            if writer.write_str(&mut lex.comp_data_mem, ")").is_err() {
                assert(lex@.names.take(base.len() as int) =~= base);
                return None;
            }
            assert(lex@.names =~= base + array_name(own, len));
            assert(lex@.names.take(base.len() as int) =~= base);
            Some((2, 2 * POINTER_BYTES))
        },
        Some(n) => {
            let cells: i32 = match n.checked_mul(elem_cells) {
                Some(v) => v,
                None => {
                    assert(lex@.names.take(base.len() as int) =~= base);
                    return None;
                },
            };
            let size: i32 = match n.checked_mul(elem_size) {
                Some(v) => v,
                None => {
                    assert(lex@.names.take(base.len() as int) =~= base);
                    return None;
                },
            };
            if writer.write_str(&mut lex.comp_data_mem, "Array<").is_err() {
                assert(lex@.names.take(base.len() as int) =~= base);
                return None;
            }
            if writer.write_int(&mut lex.comp_data_mem, n).is_err() {
                assert(lex@.names.take(base.len() as int) =~= base);
                return None;
            }
            if writer.write_str(&mut lex.comp_data_mem, ">(").is_err() {
                assert(lex@.names.take(base.len() as int) =~= base);
                return None;
            }
            assert(name_of(lex@.types, lex@.names, elem) =~= own);
            if put_name(writer, lex, elem).is_err() {
                assert(lex@.names.take(base.len() as int) =~= base);
                return None;
            }
            if writer.write_str(&mut lex.comp_data_mem, ")").is_err() {
                assert(lex@.names.take(base.len() as int) =~= base);
                return None;
            }
            assert(lex@.names =~= base + array_name(own, len));
            assert(lex@.names.take(base.len() as int) =~= base);
            Some((cells, size))
        },
    }
}

/// Writes the name of a cluster type and gives its size in cells and in
/// bytes. Where there is no result, a part of the name may have been written.
fn build_cluster(writer: &mut StackWriter, lex: &mut Lex, elems: DelayedSlice) -> (r: Option<
    (i32, i32),
>)
    requires
        old(lex).wf(),
        TypeInner::Cluster(elems).valid_in(old(lex)@.types, old(lex)@.names, old(lex)@.lists),
    ensures
        final(lex).wf(),
        final(lex).same_limits(old(lex)),
        final(writer).start() == old(writer).start(),
        only_names_added(old(lex)@, final(lex)@),
        match r {
            Some((cells, size)) => {
                &&& totals(old(lex)@.types, elems.of(old(lex)@.lists)) == Some((cells, size))
                &&& final(lex)@.names == old(lex)@.names + cluster_name(
                    old(lex)@.types,
                    old(lex)@.names,
                    elems.of(old(lex)@.lists),
                )
            },
            None => {
                ||| totals(old(lex)@.types, elems.of(old(lex)@.lists)) is None
                ||| old(lex)@.names.len() + cluster_name(
                    old(lex)@.types,
                    old(lex)@.names,
                    elems.of(old(lex)@.lists),
                ).len() > old(lex).comp_data_mem.capacity()
            },
        },
{
    let ghost base = lex@.names;
    let ghost types = lex@.types;
    let ghost members = elems.of(lex@.lists);
    let n: usize = elems.count();
    let from: usize = elems.first();
    let total: usize = lex.type_lists.len();
    if writer.write_str(&mut lex.comp_data_mem, "Cluster(").is_err() {
        assert(lex@.names.take(base.len() as int) =~= base);
        return None;
    }
    let mut cells: i32 = 0;
    let mut size: i32 = 0;
    let mut i: usize = 0;
    assert(lex@.names =~= base + "Cluster(".spec_bytes() + joined_names(
        types,
        base,
        members.take(0),
    ));
    while i < n
        invariant
            i <= n,
            n == elems.len(),
            from == elems.start(),
            from + n <= total,
            total == lex@.lists.len(),
            lex.wf(),
            lex.same_limits(old(lex)),
            writer.start() == old(writer).start(),
            base == old(lex)@.names,
            types == old(lex)@.types,
            members == elems.of(old(lex)@.lists),
            old(lex)@.types_named(),
            forall|k: int| 0 <= k < members.len() ==> #[trigger] members[k] < types.len(),
            lex@ == (LexModel { names: lex@.names, ..old(lex)@ }),
            lex@.names == base + "Cluster(".spec_bytes() + joined_names(
                types,
                base,
                members.take(i as int),
            ),
            totals(types, members.take(i as int)) == Some((cells, size)),
        decreases n - i,
    {
        let t: TypeP = match lex.type_lists.get(from + i) {
            Some(t) => *t,
            None => 0,
        };
        assert(t == members[i as int]);
        let (t_cells, t_size): (i32, i32) = match lex.types_mem.get(t) {
            Some(ty) => (ty.cells, ty.size),
            None => (0, 0),
        };
        proof {
            lemma_prefix(types, base, members, i as int);
            lemma_prefix(types, base, members, i + 1);
            assert(members.take(i + 1).drop_last() =~= members.take(i as int));
            assert(members.take(i + 1).last() == t);
            assert(lex@.names.take(base.len() as int) =~= base);
            assert(name_of(lex@.types, lex@.names, t) =~= name_of(types, base, t));
            if i == 0 {
                assert(members.take(1)[0] == t);
                assert(joined_names(types, base, members.take(0)) =~= Seq::<u8>::empty());
            }
        }
        cells = match cells.checked_add(t_cells) {
            Some(v) => v,
            None => {
                return None;
            },
        };
        size = match size.checked_add(t_size) {
            Some(v) => v,
            None => {
                return None;
            },
        };
        if i > 0 {
            if writer.write_str(&mut lex.comp_data_mem, ", ").is_err() {
                return None;
            }
            assert(lex@.names.take(base.len() as int) =~= base);
            assert(name_of(lex@.types, lex@.names, t) =~= name_of(types, base, t));
        }
        if put_name(writer, lex, t).is_err() {
            assert(lex@.names.take(base.len() as int) =~= base);
            return None;
        }
        i += 1;
        assert(lex@.names =~= base + "Cluster(".spec_bytes() + joined_names(
            types,
            base,
            members.take(i as int),
        ));
    }
    assert(members.take(n as int) =~= members);
    if writer.write_str(&mut lex.comp_data_mem, ")").is_err() {
        assert(lex@.names.take(base.len() as int) =~= base);
        return None;
    }
    assert(lex@.names =~= base + cluster_name(types, base, members));
    assert(lex@.names.take(base.len() as int) =~= base);
    Some((cells, size))
}

impl TypeInner {
    /// The type that this shape is: the one that the type table keeps for
    /// the shape, or a new one, which the table keeps from then on. There is
    /// no type, and nothing changes, where the size of a new type does not
    /// fit in 32 bits or an arena has no room for it.
    pub fn get_type_ref(&self, lex: &mut Lex) -> (r: Option<TypeP>)
        requires
            old(lex).wf(),
            self.valid_in(old(lex)@.types, old(lex)@.names, old(lex)@.lists),
            *self is Basic ==> lookup(
                old(lex)@.type_map,
                spec_shape_key(self.shape(old(lex)@.names, old(lex)@.lists)),
            ) is Some,
        ensures
            final(lex).wf(),
            final(lex).same_limits(old(lex)),
            r == interned(
                *self,
                old(lex)@,
                old(lex).comp_data_mem.capacity(),
                old(lex).types_mem.capacity(),
            ).0,
            final(lex)@ == interned(
                *self,
                old(lex)@,
                old(lex).comp_data_mem.capacity(),
                old(lex).types_mem.capacity(),
            ).1,
            r matches Some(t) ==> lookup(
                final(lex)@.type_map,
                spec_shape_key(self.shape(old(lex)@.names, old(lex)@.lists)),
            ) == Some(t),
            r matches Some(t) ==> lookup(
                old(lex)@.type_map,
                spec_shape_key(self.shape(old(lex)@.names, old(lex)@.lists)),
            ) is None ==> t == old(lex)@.types.len() && final(lex)@.types.len() == t + 1,
    {
        let key = self.shape_key(&lex.comp_data_mem, &lex.type_lists);
        match lex.type_map.get(&key) {
            Some(t) => {
                return Some(t);
            },
            None => {},
        }
        let ghost m0 = lex@;
        let cp = lex.comp_data_mem.check_point();
        let mut writer = StackWriter::new(&lex.comp_data_mem);
        let built: Option<(i32, i32)> = match *self {
            TypeInner::Basic => None,
            TypeInner::Alias(parent, _) => match lex.types_mem.get(parent) {
                Some(ty) => Some((ty.cells, ty.size)),
                None => None,
            },
            TypeInner::Array(elem, len) => build_array(&mut writer, lex, elem, len),
            TypeInner::Cluster(elems) => build_cluster(&mut writer, lex, elems),
        };
        let room: bool = lex.types_mem.len() < lex.types_mem.max_len();
        match built {
            Some((cells, size)) if room => {
                let name: DelayedStr = match *self {
                    TypeInner::Alias(_, name) => name,
                    _ => writer.finish(&lex.comp_data_mem),
                };
                let ty = Type { inner: *self, size, cells, name };
                match lex.types_mem.save(ty) {
                    Ok(at) => {
                        let _ = lex.type_map.insert(key, at);
                        assert(lex@.names =~= m0.names + fresh_name(
                            *self,
                            m0.types,
                            m0.names,
                            m0.lists,
                        ));
                        Some(at)
                    },
                    Err(_) => None,
                }
            },
            _ => {
                lex.comp_data_mem.goto_checkpoint(cp);
                assert(lex@.names =~= m0.names);
                None
            },
        }
    }
}

} // verus!
