use pal_forth::buildins::apply_int;
use pal_forth::buildins::int_add;
use pal_forth::buildins::param_drop;
use pal_forth::buildins::IntOp;
use pal_forth::lex::decimal_text;
use pal_forth::lex::DelayedRef;
use pal_forth::lex::DelayedSlice;
use pal_forth::lex::StackAlloc;
use pal_forth::lex::StackAllocator;
use pal_forth::low_mask;
use pal_forth::stack::make_storage;
use pal_forth::stack::StackRef;
use pal_forth::stack::StackVec;
use pal_forth::types::check_subset;
use pal_forth::types::free_box_use;
use pal_forth::types::use_box_as;
use pal_forth::types::AccessMode;
use pal_forth::types::CompVar;
use pal_forth::types::SigError;
use pal_forth::types::SigItem;
use pal_forth::types::SigStackEasyMemory;
use pal_forth::types::INDEX_FLAG;
use pal_forth::types::OUTPUT_FLAG;
use pal_forth::types::RAW_FLAG;
use pal_forth::types::READ_FLAG;
use pal_forth::types::UNIQUE_FLAG;
use pal_forth::types::WRITE_FLAG;
use pal_forth::vm::BuildinFunc;
use pal_forth::vm::BuildinPtr;
use pal_forth::vm::Code;
use pal_forth::vm::VmEasyMemory;
use pal_forth::PalData;
use pal_forth::PalError;
use std::cell::Cell;
use std::rc::Rc;

/* ───────────── stacks ───────────── */

#[test]
fn lifo_law_on_values() {
    let values: Vec<u64> = (1..=20).map(|v| v * v).collect();
    let mut stack = StackRef::from_slice(make_storage::<u64>(32, 0));
    for v in values.iter() {
        stack.push(*v).unwrap();
    }
    assert_eq!(stack.len(), values.len());
    for v in values.iter().rev() {
        assert_eq!(stack.pop(), Some(*v));
    }
    assert_eq!(stack.pop(), None);
    assert!(stack.is_empty());
    assert_eq!(stack.room_left(), 32);
}

#[test]
fn checkpoint_round_trip_restores_cursor_and_contents() {
    let mut stack = StackRef::from_slice(make_storage::<i32>(8, 0));
    stack.push(1).unwrap();
    stack.push(2).unwrap();
    let before = stack.write_index();
    let cp = stack.check_point();

    stack.push(3).unwrap();
    stack.push(4).unwrap();
    assert_eq!(stack.pop(), Some(4));
    stack.push(5).unwrap();
    stack.push(6).unwrap();

    stack.goto_checkpoint(cp);
    assert_eq!(stack.write_index(), before);
    assert_eq!(stack.peek_many(2).unwrap(), &[2, 1]);
    assert_eq!(stack.check_point(), cp);
}

#[test]
fn alloc_then_free_leaves_write_index() {
    let mut stack = StackRef::from_slice(make_storage::<u8>(10, 7));
    stack.push(1).unwrap();
    let before = stack.write_index();
    assert_eq!(stack.alloc_n(4), Some(()));
    assert_eq!(stack.write_index(), before + 4);
    assert_eq!(stack.free(4), Some(()));
    assert_eq!(stack.write_index(), before);
    assert_eq!(stack.peek(), Some(&1));

    // neither fits: nothing changes
    assert_eq!(stack.alloc_n(10), None);
    assert_eq!(stack.free(2), None);
    assert_eq!(stack.flush(2), None);
    assert_eq!(stack.write_index(), before);
}

#[test]
fn alloc_shows_what_the_storage_held() {
    let mut stack = StackRef::from_slice(make_storage::<u8>(4, 9));
    stack.push(1).unwrap();
    stack.push(2).unwrap();
    stack.free(2).unwrap();
    stack.alloc_n(2).unwrap();
    assert_eq!(stack.peek_many(2).unwrap(), &[2, 1]);
    stack.alloc_n(2).unwrap();
    assert_eq!(stack.peek_many(4).unwrap(), &[9, 9, 2, 1]);
}

struct Counted(Rc<Cell<u32>>);

impl Drop for Counted {
    fn drop(&mut self) {
        self.0.set(self.0.get() + 1);
    }
}

#[test]
fn flush_runs_each_destructor_and_free_runs_none() {
    let dropped = Rc::new(Cell::new(0));
    let mut arena: StackVec<Counted> = StackVec::from_slice(8);
    for _ in 0..5 {
        assert!(arena.push(Counted(dropped.clone())).is_ok());
    }
    assert_eq!(arena.flush(3), Some(()));
    assert_eq!(dropped.get(), 3);
    assert_eq!(arena.len(), 2);
    assert_eq!(arena.free(2), Some(()));
    assert_eq!(dropped.get(), 3);
    assert_eq!(arena.len(), 0);
    assert_eq!(arena.flush(1), None);
    assert_eq!(arena.free(1), None);
}

#[test]
fn typed_arena_rollback_drops_what_was_saved_since() {
    let dropped = Rc::new(Cell::new(0));
    let mut arena: StackAllocator<Counted> = StackAllocator::new(4);
    assert!(arena.save(Counted(dropped.clone())).is_ok());
    let cp = arena.check_point();
    assert!(arena.save(Counted(dropped.clone())).is_ok());
    assert!(arena.save(Counted(dropped.clone())).is_ok());
    assert_eq!(arena.index_checkpoint(cp).len(), 2);
    assert_eq!(arena.try_index_checkpoint(cp).map(|s| s.len()), Some(2));
    arena.goto_checkpoint(cp);
    assert_eq!(dropped.get(), 2);
    assert_eq!(arena.len(), 1);
    assert!(!arena.is_empty());
    assert_eq!(arena.max_len(), 4);
    assert_eq!(arena.with_addr(3), 3);
}

#[test]
fn typed_arena_is_full_at_capacity() {
    let mut arena: StackAllocator<u8> = StackAllocator::new(2);
    assert_eq!(arena.save(1), Ok(0));
    assert_eq!(arena.save(2), Ok(1));
    assert_eq!(arena.save(3), Err(3));
    assert_eq!(arena.as_slice(), &[1, 2]);
    assert_eq!(arena.set(1, 9), Some(()));
    assert_eq!(arena.set(2, 9), None);
    assert_eq!(arena.get(1), Some(&9));
    assert_eq!(arena.get(2), None);
    let late = {
        let mut other: StackAllocator<u8> = StackAllocator::new(4);
        for v in 0..3 {
            other.save(v).unwrap();
        }
        other.check_point()
    };
    assert!(arena.try_index_checkpoint(late).is_none());
}

#[test]
fn stack_vec_bulk_operations() {
    let mut v: StackVec<u16> = StackVec::from_slice(6);
    assert_eq!(v.room_left(), 6);
    assert_eq!(v.alloc_n(2, 7), Some(0));
    assert_eq!(v.push_slice(&[1, 2, 3]), Some(()));
    assert_eq!(v.push_slice(&[4, 5]), None);
    assert_eq!(v.peek_many(3).unwrap(), &[1, 2, 3]);
    assert_eq!(v.as_slice(), &[7, 7, 1, 2, 3]);
    assert_eq!(v.peek_raw(), Some(4));
    assert_eq!(v.pop(), Some(3));
    assert_eq!(v.alloc_n(3, 0), None);
    assert_eq!(v.max_len(), 6);
    assert!(!v.is_empty());
}

#[test]
fn storage_slots_by_address() {
    let mut stack = StackRef::from_slice(make_storage::<i64>(4, -1));
    stack.push(10).unwrap();
    stack.push(20).unwrap();
    assert_eq!(stack.spot_raw(0), Some(2));
    assert_eq!(stack.spot_raw(1), Some(3));
    assert_eq!(stack.spot_raw(2), None);
    assert_eq!(stack.read_slot(2), Some(20));
    assert_eq!(stack.read_slot(0), Some(-1));
    assert_eq!(stack.read_slot(4), None);
    assert_eq!(stack.write_slot(3, 11), Some(()));
    assert_eq!(stack.write_slot(4, 11), None);
    *stack.spot(0).unwrap() = 21;
    assert_eq!(stack.peek_many(2).unwrap(), &[21, 11]);
    assert_eq!(stack.max_len(), 4);
    let (top, free) = stack.split_raw();
    assert_eq!(top, 2);
    assert_eq!(free.max_len(), 2);
    assert_eq!(free.write_index(), 0);
}

#[test]
fn drop_inside_rejects_a_span_that_is_not_live() {
    let mut stack = StackRef::new_full(vec![1, 2, 3]);
    assert_eq!(stack.drop_inside(2, 2), None);
    assert_eq!(stack.drop_inside(4, 0), None);
    assert_eq!(stack.drop_inside(usize::MAX, 2), None);
    assert_eq!(stack.peek_many(3).unwrap(), &[1, 2, 3]);
    assert_eq!(stack.drop_inside(3, 0), Some(()));
    assert_eq!(stack.drop_inside(1, 1), Some(()));
    assert_eq!(stack.peek_many(2).unwrap(), &[1, 3]);
}

/* ───────────── arenas ───────────── */

#[test]
fn aligned_allocation_pads_to_the_next_multiple() {
    let mut arena = StackAlloc::from_slice(64);
    assert_eq!(arena.alloc_aligned(3, 1), Some(0));
    assert_eq!(arena.len(), 3);
    assert_eq!(arena.alloc_aligned(2, 4), Some(4));
    assert_eq!(arena.len(), 6);
    assert_eq!(arena.alloc_aligned(0, 8), Some(8));
    assert_eq!(arena.len(), 8);
    let cp = arena.check_point();
    assert_eq!(arena.alloc_aligned(16, 16), Some(16));
    assert_eq!(arena.len(), 32);
    // 33 bytes do not fit behind offset 32
    assert_eq!(arena.alloc_aligned(33, 1), None);
    assert_eq!(arena.len(), 32);
    assert_eq!(arena.alloc_aligned(32, 32), Some(32));
    assert_eq!(arena.len(), 64);
    assert_eq!(arena.max_len(), 64);
    arena.goto_checkpoint(cp);
    assert_eq!(arena.len(), 8);
    assert!(!arena.is_empty());
    // what was reserved is zeroed
    assert_eq!(arena.bytes(&DelayedSlice::new_offset(0, 0, 8)).unwrap(), &[0; 8]);
    assert!(arena.bytes(&DelayedSlice::new_offset(0, 1, 8)).is_none());
    assert_eq!(arena.put(7, &[1, 2]), None);
    assert_eq!(arena.put(6, &[1, 2]), Some(()));
    assert_eq!(arena.bytes(&DelayedSlice::new_offset(0, 5, 3)).unwrap(), &[0, 1, 2]);
}

#[test]
fn decimal_text_of_edge_values() {
    assert_eq!(decimal_text(0), b"0");
    assert_eq!(decimal_text(7), b"7");
    assert_eq!(decimal_text(10), b"10");
    assert_eq!(decimal_text(-1), b"-1");
    assert_eq!(decimal_text(i32::MAX), b"2147483647");
    assert_eq!(decimal_text(i32::MIN), b"-2147483648");
}

#[test]
fn delayed_references_round_trip() {
    let mut r = DelayedRef::new_offset(4096, 4100);
    assert_eq!(r.inner, 4);
    r.offset_from(8192);
    assert_eq!(r.inner, 8196);

    let mut s = DelayedSlice::new_offset(100, 130, 5);
    assert_eq!((s.first(), s.count()), (30, 5));
    s.offset_from(100);
    assert_eq!((s.first(), s.count()), (130, 5));

    // an address below the base wraps, and comes back
    let mut low = DelayedRef::new_offset(10, 3);
    low.offset_from(10);
    assert_eq!(low.inner, 3);
}

/* ───────────── permissions ───────────── */

fn var(tp: usize, permissions: u8) -> CompVar {
    CompVar { tp, offset_from_start: 0, num_borrowed: 0, permissions }
}

fn counters(start: i32) -> StackAllocator<i32> {
    let mut borrows = StackAllocator::new(4);
    borrows.save(start).unwrap();
    borrows
}

#[test]
fn check_subset_collects_every_clash() {
    assert_eq!(check_subset(READ_FLAG | WRITE_FLAG, READ_FLAG), Ok(()));
    assert_eq!(check_subset(READ_FLAG | WRITE_FLAG | UNIQUE_FLAG, 0), Ok(()));
    assert_eq!(
        check_subset(READ_FLAG, READ_FLAG | WRITE_FLAG | UNIQUE_FLAG),
        Err(SigError::BasicSigError { clash: WRITE_FLAG | UNIQUE_FLAG, have: READ_FLAG })
    );
    // OUTPUT, RAW and INDEX must be equal, whichever side has them
    assert_eq!(
        check_subset(OUTPUT_FLAG | RAW_FLAG, INDEX_FLAG),
        Err(SigError::BasicSigError {
            clash: OUTPUT_FLAG | RAW_FLAG | INDEX_FLAG,
            have: OUTPUT_FLAG | RAW_FLAG
        })
    );
    assert_eq!(check_subset(OUTPUT_FLAG | READ_FLAG, OUTPUT_FLAG | READ_FLAG), Ok(()));
    assert_eq!(
        check_subset(0, READ_FLAG | RAW_FLAG),
        Err(SigError::BasicSigError { clash: READ_FLAG | RAW_FLAG, have: 0 })
    );
}

#[test]
fn unique_then_read_is_already_borrowed() {
    let int = 0;
    let v = var(int, READ_FLAG | WRITE_FLAG | UNIQUE_FLAG);
    let mut borrows = counters(0);

    let unique = SigItem { tp: int, permissions: UNIQUE_FLAG };
    assert_eq!(use_box_as(&v, &mut borrows, &unique), Ok(()));
    assert_eq!(borrows.get(0), Some(&-1));

    let read = SigItem { tp: int, permissions: READ_FLAG };
    assert_eq!(use_box_as(&v, &mut borrows, &read), Err(SigError::AlreadyBorrowed));
    assert_eq!(use_box_as(&v, &mut borrows, &unique), Err(SigError::AlreadyBorrowed));
    assert_eq!(borrows.get(0), Some(&-1));

    free_box_use(&v, &mut borrows, UNIQUE_FLAG);
    assert_eq!(borrows.get(0), Some(&0));
}

#[test]
fn shared_borrows_count_up_and_down() {
    let v = var(3, READ_FLAG | UNIQUE_FLAG);
    let mut borrows = counters(0);
    let read = SigItem { tp: 3, permissions: READ_FLAG };
    assert_eq!(use_box_as(&v, &mut borrows, &read), Ok(()));
    assert_eq!(use_box_as(&v, &mut borrows, &read), Ok(()));
    assert_eq!(borrows.get(0), Some(&2));
    let unique = SigItem { tp: 3, permissions: READ_FLAG | UNIQUE_FLAG };
    assert_eq!(use_box_as(&v, &mut borrows, &unique), Err(SigError::NeedsUnique));
    assert_eq!(borrows.get(0), Some(&2));
    free_box_use(&v, &mut borrows, READ_FLAG);
    free_box_use(&v, &mut borrows, READ_FLAG);
    assert_eq!(borrows.get(0), Some(&0));
    assert_eq!(use_box_as(&v, &mut borrows, &unique), Ok(()));
    assert_eq!(borrows.get(0), Some(&-1));
}

#[test]
fn checks_come_in_order_type_permissions_aliasing() {
    let v = var(1, READ_FLAG);
    let mut borrows = counters(-1);
    // wrong type wins over everything
    assert_eq!(
        use_box_as(&v, &mut borrows, &SigItem { tp: 2, permissions: WRITE_FLAG }),
        Err(SigError::WrongType { found: 1, wanted: 2 })
    );
    // then the permissions
    assert_eq!(
        use_box_as(&v, &mut borrows, &SigItem { tp: 1, permissions: WRITE_FLAG }),
        Err(SigError::BasicSigError { clash: WRITE_FLAG, have: READ_FLAG })
    );
    // then the borrow state
    assert_eq!(
        use_box_as(&v, &mut borrows, &SigItem { tp: 1, permissions: READ_FLAG }),
        Err(SigError::AlreadyBorrowed)
    );
}

#[test]
fn call_sig_takes_inputs_and_keeps_outputs() {
    let mut sig = SigStackEasyMemory::<16>::new().make_sig_stack();
    let a = sig.add_local(0, 1);
    let b = sig.add_local(1, 2);
    let out_counter = sig.add_borrows(0);
    let c = sig.add_var(CompVar {
        tp: 2,
        offset_from_start: 3,
        num_borrowed: out_counter,
        permissions: WRITE_FLAG | OUTPUT_FLAG,
    });
    assert_eq!((a, b, c), (0, 1, 2));
    assert_eq!(sig.cells_locals, 3);
    assert_eq!(sig.var_arena.get(b).unwrap().offset_from_start, 1);
    sig.stack.push(c).unwrap();
    sig.stack.push(a).unwrap();
    sig.stack.push(b).unwrap();

    let inputs = [
        SigItem { tp: 0, permissions: READ_FLAG },
        SigItem { tp: 1, permissions: READ_FLAG | WRITE_FLAG | UNIQUE_FLAG },
    ];
    let outputs = [SigItem { tp: 2, permissions: WRITE_FLAG | OUTPUT_FLAG }];
    assert_eq!(sig.call_sig(&outputs, &inputs), Ok(()));
    // the two inputs are gone, the output stays
    assert_eq!(sig.stack.len(), 1);
    assert_eq!(sig.stack.peek(), Some(&c));
    // the uses are committed to the counters
    assert_eq!(sig.borrows_arena.as_slice(), &[1, -1, 1]);
}

#[test]
fn call_sig_reports_a_missing_output() {
    let mut sig = SigStackEasyMemory::<16>::new().make_sig_stack();
    let a = sig.add_local(0, 1);
    sig.stack.push(a).unwrap();
    let inputs = [SigItem { tp: 0, permissions: READ_FLAG }];
    let outputs = [SigItem { tp: 5, permissions: OUTPUT_FLAG }];
    assert_eq!(sig.call_sig(&outputs, &inputs), Err(SigError::MissingArgument(outputs[0])));
    assert_eq!(sig.stack.len(), 0);
}

#[test]
fn call_sig_names_the_first_slot_without_argument() {
    let mut sig = SigStackEasyMemory::<16>::new().make_sig_stack();
    let a = sig.add_local(0, 1);
    sig.stack.push(a).unwrap();
    let inputs = [
        SigItem { tp: 7, permissions: READ_FLAG },
        SigItem { tp: 8, permissions: READ_FLAG },
        SigItem { tp: 0, permissions: READ_FLAG },
    ];
    // the last input takes the only slot; the one before it finds none
    assert_eq!(sig.call_sig(&[], &inputs), Err(SigError::MissingArgument(inputs[1])));
}

#[test]
fn access_mode_from_bits_and_names() {
    assert_eq!(AccessMode::from_bits(0), AccessMode::Boxed);
    assert_eq!(AccessMode::from_bits(READ_FLAG | INDEX_FLAG), AccessMode::Indexed);
    assert_eq!(AccessMode::from_bits(RAW_FLAG), AccessMode::Raw);
    assert_eq!(AccessMode::from_bits(RAW_FLAG | INDEX_FLAG), AccessMode::Invalid);
    assert_eq!(AccessMode::Boxed.name(), "boxed");
    assert_eq!(AccessMode::Indexed.name(), "indexed");
    assert_eq!(AccessMode::Raw.name(), "raw");
    assert_eq!(AccessMode::Invalid.name(), "invalid");
}

#[test]
fn permission_bits_are_six_clean_bits() {
    let all = [READ_FLAG, WRITE_FLAG, UNIQUE_FLAG, OUTPUT_FLAG, RAW_FLAG, INDEX_FLAG];
    let mut seen = 0u8;
    for f in all {
        assert_eq!(f.count_ones(), 1);
        assert_eq!(seen & f, 0);
        seen |= f;
    }
    assert_eq!(seen, 0x3f);
}

/* ───────────── cells and arithmetic ───────────── */

#[test]
fn cells_are_untagged_words() {
    assert_eq!(PalData::from_int(-5).as_int(), -5);
    assert!(PalData::from_bool(true).as_bool());
    assert!(!PalData::from_bool(false).as_bool());
    assert_eq!(PalData::from_bool(true).as_int(), 1);
    assert_eq!(PalData::from_code(77).as_code(), 77);
    // a boolean is written into the lowest byte, the rest stays
    let c = PalData::from_int(0x1200).with_bool(true);
    assert_eq!(c.as_int(), 0x1201);
    assert!(c.as_bool());
    assert!(!PalData::from_int(0x1200).as_bool());
    // low bytes
    let dst = PalData::from_int(0x1111_2222_3333_4444);
    let src = PalData::from_int(0x5555_6666_7777_8888);
    assert_eq!(dst.with_low_bytes(src, 0), dst);
    assert_eq!(dst.with_low_bytes(src, 2).as_int(), 0x1111_2222_3333_8888);
    assert_eq!(dst.with_low_bytes(src, 4).as_int(), 0x1111_2222_7777_8888);
    assert_eq!(dst.with_low_bytes(src, 8), src);
    assert_eq!(low_mask(3), 0xff_ffff);
}

#[test]
fn integer_operations_are_the_machines_own() {
    let samples: [i64; 9] = [0, 1, -1, 2, -7, 63, 64, i64::MAX, i64::MIN];
    for a in samples {
        for b in samples {
            assert_eq!(apply_int(IntOp::Add, a, b), Some(a.wrapping_add(b)));
            assert_eq!(apply_int(IntOp::Sub, a, b), Some(a.wrapping_sub(b)));
            assert_eq!(apply_int(IntOp::Mul, a, b), Some(a.wrapping_mul(b)));
            assert_eq!(apply_int(IntOp::And, a, b), Some(a & b));
            assert_eq!(apply_int(IntOp::Or, a, b), Some(a | b));
            assert_eq!(apply_int(IntOp::Xor, a, b), Some(a ^ b));
            assert_eq!(apply_int(IntOp::Shl, a, b), Some(a.wrapping_shl(b as u32)));
            assert_eq!(apply_int(IntOp::Shr, a, b), Some(a.wrapping_shr(b as u32)));
            if b == 0 || (a == i64::MIN && b == -1) {
                assert_eq!(apply_int(IntOp::Div, a, b), None);
                assert_eq!(apply_int(IntOp::Mod, a, b), None);
            } else {
                assert_eq!(apply_int(IntOp::Div, a, b), Some(a / b));
                assert_eq!(apply_int(IntOp::Mod, a, b), Some(a % b));
            }
        }
    }
    assert_eq!(apply_int(IntOp::Add, i64::MAX, 1), Some(i64::MIN));
    assert_eq!(apply_int(IntOp::Div, -7, 2), Some(-3));
    assert_eq!(apply_int(IntOp::Mod, -7, 2), Some(-1));
    assert_eq!(apply_int(IntOp::Mod, 7, -2), Some(1));
    assert_eq!(apply_int(IntOp::Shl, 1, 65), Some(2));
    assert_eq!(apply_int(IntOp::Shr, -8, 1), Some(-4));
}

#[test]
fn primitives_called_directly() {
    let mut vm = VmEasyMemory::<8>::new().make_vm();
    let code = [
        Code::basic(BuildinFunc::IntAdd, 0),
        Code::basic(BuildinFunc::ParamDrop, 1),
    ];
    let a = vm.heap_cell(PalData::from_int(40)).unwrap();
    let b = vm.heap_cell(PalData::from_int(2)).unwrap();
    vm.param_stack.push(a).unwrap();
    vm.param_stack.push(b).unwrap();
    assert_eq!(int_add(0, &code, &mut vm), Ok(0));
    assert_eq!(vm.load(a).unwrap().as_int(), 42);
    assert_eq!(vm.param_stack.peek(), Some(&a));
    assert_eq!(param_drop(1, &code, &mut vm), Ok(1));
    // param_drop(1) against an empty parameter stack must fault
    assert_eq!(param_drop(1, &code, &mut vm), Err(PalError::StackUnderFlow));
    // the slot of a cell can run its primitive
    let slot = BuildinPtr::new(BuildinFunc::ParamDrop);
    assert_eq!(slot.load(), Some(BuildinFunc::ParamDrop));
    assert_eq!(slot.call(1, &code, &mut vm, 1), Err(PalError::StackUnderFlow));
    assert_eq!(BuildinPtr::empty().load(), None);
}

#[test]
fn a_refused_use_never_touches_a_full_counter() {
    let v = var(1, READ_FLAG);
    let mut borrows = counters(i32::MAX);
    // a wrong type is refused whatever the counter holds
    assert_eq!(
        use_box_as(&v, &mut borrows, &SigItem { tp: 2, permissions: READ_FLAG }),
        Err(SigError::WrongType { found: 1, wanted: 2 })
    );
    // and so are clashing bits
    assert_eq!(
        use_box_as(&v, &mut borrows, &SigItem { tp: 1, permissions: READ_FLAG | WRITE_FLAG }),
        Err(SigError::BasicSigError { clash: WRITE_FLAG, have: READ_FLAG })
    );
    // and an exclusive request on a shared slot
    let u = var(1, READ_FLAG | UNIQUE_FLAG);
    assert_eq!(
        use_box_as(&u, &mut borrows, &SigItem { tp: 1, permissions: UNIQUE_FLAG }),
        Err(SigError::NeedsUnique)
    );
    assert_eq!(borrows.get(0), Some(&i32::MAX));

    // a call that is refused on its first item never comes to the counter
    let mut sig = SigStackEasyMemory::<4>::new().make_sig_stack();
    let full = sig.add_borrows(i32::MAX);
    let slot = sig.add_var(CompVar {
        tp: 1,
        offset_from_start: 0,
        num_borrowed: full,
        permissions: READ_FLAG,
    });
    sig.stack.push(slot).unwrap();
    let inputs = [SigItem { tp: 9, permissions: READ_FLAG }];
    assert_eq!(sig.call_sig(&[], &inputs), Err(SigError::WrongType { found: 1, wanted: 9 }));
    assert_eq!(sig.borrows_arena.get(full), Some(&i32::MAX));
}
