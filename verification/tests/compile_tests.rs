use pal_forth::ir::CompContext;
use pal_forth::ir::CompEasyMemory;
use pal_forth::ir::Exe;
use pal_forth::ir::RuntimeCode;
use pal_forth::lex::DelayedSlice;
use pal_forth::lex::Lex;
use pal_forth::types::CompVar;
use pal_forth::types::SigError;
use pal_forth::types::SigItem;
use pal_forth::types::Type;
use pal_forth::types::TypeInner;
use pal_forth::types::TypeP;
use pal_forth::types::INDEX_FLAG;
use pal_forth::types::OUTPUT_FLAG;
use pal_forth::types::RAW_FLAG;
use pal_forth::types::READ_FLAG;
use pal_forth::types::UNIQUE_FLAG;
use pal_forth::types::WRITE_FLAG;
use pal_forth::vm::BuildinFunc;
use pal_forth::vm::Code;
use pal_forth::vm::VmEasyMemory;
use pal_forth::PalData;
use pal_forth::PalError;

fn basic(lex: &mut Lex, name: &str, size: i32, cells: i32) -> TypeP {
    let name = lex.intern_name(name).unwrap();
    lex.types_mem.save(Type { inner: TypeInner::Basic, size, cells, name }).unwrap()
}

fn world() -> (Lex, TypeP, TypeP) {
    let mut lex = Lex::new(64, 64, 256, 16, 16);
    let int = basic(&mut lex, "int", 8, 1);
    let flag = basic(&mut lex, "bool", 1, 1);
    (lex, int, flag)
}

fn text_of(lex: &Lex, t: TypeP) -> String {
    lex.name_text(&lex.type_at(t).unwrap().name).unwrap().to_string()
}

/* ───────────── interning ───────────── */

#[test]
fn equal_shapes_are_one_type() {
    let (mut lex, int, flag) = world();

    let a = TypeInner::Array(int, Some(3)).get_type_ref(&mut lex).unwrap();
    let b = TypeInner::Array(int, Some(3)).get_type_ref(&mut lex).unwrap();
    assert_eq!(a, b);
    assert_eq!(lex.types_mem.len(), 3);

    // another length, another element, an unknown length: other types
    let c = TypeInner::Array(int, Some(4)).get_type_ref(&mut lex).unwrap();
    let d = TypeInner::Array(flag, Some(3)).get_type_ref(&mut lex).unwrap();
    let e = TypeInner::Array(int, None).get_type_ref(&mut lex).unwrap();
    let all = [int, flag, a, c, d, e];
    for (i, x) in all.iter().enumerate() {
        for y in all.iter().skip(i + 1) {
            assert_ne!(x, y);
        }
    }
    assert_eq!(TypeInner::Array(int, None).get_type_ref(&mut lex), Some(e));
    assert_eq!(lex.types_mem.len(), 6);
}

#[test]
fn array_types_have_names_and_sizes() {
    let (mut lex, int, flag) = world();

    let known = TypeInner::Array(int, Some(3)).get_type_ref(&mut lex).unwrap();
    assert_eq!(text_of(&lex, known), "Array<3>(int)");
    let ty = *lex.type_at(known).unwrap();
    assert_eq!((ty.cells, ty.size), (3, 24));
    assert_eq!(ty.inner, TypeInner::Array(int, Some(3)));

    let open = TypeInner::Array(flag, None).get_type_ref(&mut lex).unwrap();
    assert_eq!(text_of(&lex, open), "Array(bool)");
    let ty = *lex.type_at(open).unwrap();
    assert_eq!((ty.cells, ty.size), (2, 16));

    let nested = TypeInner::Array(known, Some(-2)).get_type_ref(&mut lex).unwrap();
    assert_eq!(text_of(&lex, nested), "Array<-2>(Array<3>(int))");
    let ty = *lex.type_at(nested).unwrap();
    assert_eq!((ty.cells, ty.size), (-6, -48));
}

#[test]
fn cluster_types_join_their_members() {
    let (mut lex, int, flag) = world();
    let first = lex.type_lists.len();
    lex.type_lists.save(int).unwrap();
    lex.type_lists.save(flag).unwrap();
    lex.type_lists.save(int).unwrap();
    let members = DelayedSlice::new_offset(0, first, 3);

    let t = TypeInner::Cluster(members).get_type_ref(&mut lex).unwrap();
    assert_eq!(text_of(&lex, t), "Cluster(int, bool, int)");
    let ty = *lex.type_at(t).unwrap();
    assert_eq!((ty.cells, ty.size), (3, 17));

    // the same members listed again elsewhere: the same type
    let again = lex.type_lists.len();
    lex.type_lists.save(int).unwrap();
    lex.type_lists.save(flag).unwrap();
    lex.type_lists.save(int).unwrap();
    let same = TypeInner::Cluster(DelayedSlice::new_offset(0, again, 3));
    assert_eq!(same.get_type_ref(&mut lex), Some(t));

    // other members: another type
    let pair = TypeInner::Cluster(DelayedSlice::new_offset(0, first, 2));
    let p = pair.get_type_ref(&mut lex).unwrap();
    assert_ne!(p, t);
    assert_eq!(text_of(&lex, p), "Cluster(int, bool)");

    let one = TypeInner::Cluster(DelayedSlice::new_offset(0, first + 1, 1));
    let o = one.get_type_ref(&mut lex).unwrap();
    assert_eq!(text_of(&lex, o), "Cluster(bool)");

    let none = TypeInner::Cluster(DelayedSlice::new_offset(0, first, 0));
    let n = none.get_type_ref(&mut lex).unwrap();
    assert_eq!(text_of(&lex, n), "Cluster()");
    let ty = *lex.type_at(n).unwrap();
    assert_eq!((ty.cells, ty.size), (0, 0));
}

#[test]
fn alias_types_go_by_parent_and_name() {
    let (mut lex, int, flag) = world();
    let meters = lex.intern_name("meters").unwrap();
    let again = lex.intern_name("meters").unwrap();
    let feet = lex.intern_name("feet").unwrap();
    assert_ne!(meters, again);

    let a = TypeInner::Alias(int, meters).get_type_ref(&mut lex).unwrap();
    let names_before = lex.comp_data_mem.len();
    // the same name written at another place: the same type
    assert_eq!(TypeInner::Alias(int, again).get_type_ref(&mut lex), Some(a));
    let b = TypeInner::Alias(int, feet).get_type_ref(&mut lex).unwrap();
    let c = TypeInner::Alias(flag, meters).get_type_ref(&mut lex).unwrap();
    assert_ne!(a, b);
    assert_ne!(a, c);
    assert_ne!(b, c);
    // an alias brings its name: nothing is written
    assert_eq!(lex.comp_data_mem.len(), names_before);
    assert_eq!(text_of(&lex, a), "meters");
    let ty = *lex.type_at(c).unwrap();
    assert_eq!((ty.cells, ty.size), (1, 1));
}

#[test]
fn no_type_where_there_is_no_room_and_nothing_changes() {
    // room for the names of the two basic types and nine more bytes
    let mut lex = Lex::new(8, 8, 7 + 9, 4, 4);
    let int = basic(&mut lex, "int", 8, 1);
    let _flag = basic(&mut lex, "bool", 1, 1);
    let names = lex.comp_data_mem.len();

    // "Array<3>(int)" takes 13 bytes
    assert_eq!(TypeInner::Array(int, Some(3)).get_type_ref(&mut lex), None);
    assert_eq!(lex.comp_data_mem.len(), names);
    assert_eq!(lex.types_mem.len(), 2);

    // "Array(int)" takes 10
    assert_eq!(TypeInner::Array(int, None).get_type_ref(&mut lex), None);
    assert_eq!(lex.comp_data_mem.len(), names);

    // a size that does not fit in 32 bits
    let mut big = Lex::new(8, 8, 64, 4, 4);
    let wide = basic(&mut big, "wide", i32::MAX, 1);
    assert_eq!(TypeInner::Array(wide, Some(2)).get_type_ref(&mut big), None);
    assert_eq!(big.types_mem.len(), 1);
    assert_eq!(big.comp_data_mem.len(), 4);

    // a full type arena
    let mut full = Lex::new(8, 8, 64, 1, 4);
    let only = basic(&mut full, "only", 1, 1);
    assert_eq!(TypeInner::Array(only, None).get_type_ref(&mut full), None);
    assert_eq!(full.comp_data_mem.len(), 4);
}

#[test]
fn a_new_lex_keeps_code_cell_zero() {
    let lex = Lex::new(4, 0, 0, 0, 0);
    assert_eq!(lex.code_mem.len(), 1);
    assert!(lex.code_mem.get(0).unwrap().is_null());
    let none = Lex::new(0, 0, 0, 0, 0);
    assert_eq!(none.code_mem.len(), 0);
    let mut tiny = Lex::new(0, 0, 2, 0, 0);
    assert_eq!(tiny.intern_name("abc"), None);
    assert!(tiny.intern_name("ab").is_some());
    assert_eq!(tiny.comp_data_mem.len(), 2);
}

/* ───────────── messages ───────────── */

#[test]
fn signature_errors_as_text() {
    let (lex, int, flag) = world();

    assert_eq!(
        SigError::WrongType { found: int, wanted: flag }.message(&lex),
        "  - expected bool, but got int\n"
    );
    assert_eq!(
        SigError::NeedsUnique.message(&lex),
        "Cannot borrow: value is already borrowed (requires unique access)"
    );
    assert_eq!(
        SigError::AlreadyBorrowed.message(&lex),
        "Cannot borrow: value is currently borrowed as unique"
    );
    assert_eq!(
        SigError::BasicSigError { clash: READ_FLAG | WRITE_FLAG | UNIQUE_FLAG, have: 0 }
            .message(&lex),
        "Signature mismatch:\n  - expected read access, but it's missing\n  - expected write access, but it's missing\n  - expected unique access, but it's missing\n"
    );
    assert_eq!(
        SigError::BasicSigError { clash: OUTPUT_FLAG, have: OUTPUT_FLAG }.message(&lex),
        "Signature mismatch:\n  - expected input, but got output\n"
    );
    assert_eq!(
        SigError::BasicSigError { clash: OUTPUT_FLAG, have: READ_FLAG }.message(&lex),
        "Signature mismatch:\n  - expected output, but got input\n"
    );
    assert_eq!(
        SigError::BasicSigError { clash: RAW_FLAG, have: INDEX_FLAG }.message(&lex),
        "Signature mismatch:\n  - expected raw, but got indexed\n"
    );
    // the same way of passing on both sides: no line for it
    assert_eq!(
        SigError::BasicSigError { clash: RAW_FLAG, have: RAW_FLAG }.message(&lex),
        "Signature mismatch:\n"
    );
    assert_eq!(
        SigError::MissingArgument(SigItem { tp: int, permissions: READ_FLAG | WRITE_FLAG })
            .message(&lex),
        "Missing an argument of type int [read, write]"
    );
    assert_eq!(
        SigError::NeedsUnique.debug_text(&lex),
        "SigError(\"Cannot borrow: value is already borrowed (requires unique access)\")\n"
    );
    // a type that is not in the arena has no name
    assert_eq!(
        SigError::WrongType { found: 99, wanted: int }.message(&lex),
        "  - expected int, but got ?\n"
    );
}

#[test]
fn signature_slots_as_text() {
    let (lex, int, flag) = world();
    assert_eq!(SigItem { tp: int, permissions: 0 }.describe(&lex), "int []");
    assert_eq!(SigItem { tp: flag, permissions: UNIQUE_FLAG }.describe(&lex), "bool [unique]");
    assert_eq!(
        SigItem { tp: int, permissions: 0x3f }.describe(&lex),
        "int [read, write, unique, output, raw, index]"
    );
    assert_eq!(
        SigItem { tp: int, permissions: READ_FLAG | INDEX_FLAG }.describe(&lex),
        "int [read, index]"
    );
}

/* ───────────── compiling words ───────────── */

fn local(tp: TypeP) -> CompVar {
    CompVar { tp, offset_from_start: 0, num_borrowed: 0, permissions: READ_FLAG | WRITE_FLAG }
}

/// A context whose code arena holds a word `dup` ready to be used: its code
/// is `pick 0, ret`.
fn context() -> (CompContext, TypeP, RuntimeCode) {
    let (mut lex, int, _) = world();
    // cell 1 is left alone: a jump to the cell before it would be one to the
    // null address
    lex.code_mem.save(Code::word_raw(0)).unwrap();
    let first = lex.code_mem.save(Code::basic(BuildinFunc::Pick, 0)).unwrap();
    lex.code_mem.save(Code::basic(BuildinFunc::Ret, 0)).unwrap();
    let dup = RuntimeCode {
        exe: Exe::Outlined(DelayedSlice::new_offset(0, first, 2)),
        input_sig: vec![SigItem { tp: int, permissions: READ_FLAG }],
        output_sig: vec![],
    };
    let comp = CompEasyMemory::<16>::new().make_comp(lex);
    (comp, int, dup)
}

#[test]
fn a_word_is_stored_when_the_stack_is_empty() {
    let (mut comp, int, dup) = context();
    let start = comp.lex.code_mem.len();
    assert_eq!(comp.finalize_code().map(|c| c.len()), Ok(0));

    comp.stack.add_borrows(0);
    let v = comp.stack.add_var(local(int));
    comp.stack.stack.push(v).unwrap();
    // the slot is not accounted for yet
    assert_eq!(comp.finalize_code().map(|c| c.len()), Err(()));
    let name = comp.lex.intern_name("twice").unwrap();
    assert_eq!(comp.finalize_and_store_word(name, vec![], vec![]), Err(()));
    assert!(comp.lex.find_word(b"twice").is_none());

    assert_eq!(comp.add_runtime_code(&dup), Ok(()));
    assert_eq!(comp.lex.code_mem.len(), start + 1);
    assert_eq!(*comp.lex.code_mem.get(start).unwrap(), dup.exe.as_outer());
    assert_eq!(comp.stack.stack.len(), 0);

    let inputs = vec![SigItem { tp: int, permissions: READ_FLAG }];
    assert_eq!(comp.finalize_code().map(|c| c.len()), Ok(1));
    assert_eq!(comp.finalize_and_store_word(name, inputs.clone(), vec![]), Ok(()));

    let word = comp.lex.find_word(b"twice").unwrap();
    assert_eq!(word.name, name);
    assert_eq!(word.runtime.input_sig, inputs);
    assert_eq!(word.runtime.exe.inner_slice(), DelayedSlice::new_offset(0, start, 1));
    assert!(word.immidate.is_none());
    assert!(comp.lex.find_word(b"twic").is_none());
    assert!(comp.lex.find_word(b"twice ").is_none());
}

#[test]
fn a_refused_call_adds_no_code_and_rollback_discards_the_word() {
    let (mut comp, int, dup) = context();
    let start = comp.lex.code_mem.len();
    // nothing on the stack: the input is missing
    assert_eq!(comp.add_runtime_code(&dup), Err(SigError::MissingArgument(dup.input_sig[0])));
    assert_eq!(comp.lex.code_mem.len(), start);

    comp.stack.add_borrows(0);
    let v = comp.stack.add_var(local(int));
    comp.stack.stack.push(v).unwrap();
    comp.stack.stack.push(v).unwrap();
    assert_eq!(comp.add_runtime_code(&dup), Ok(()));
    assert_eq!(comp.add_runtime_code(&dup), Ok(()));
    assert_eq!(comp.lex.code_mem.len(), start + 2);
    comp.rollback();
    assert_eq!(comp.lex.code_mem.len(), start);
}

#[test]
fn inlined_code_is_copied_cell_by_cell() {
    let (mut comp, int, dup) = context();
    let cells = dup.exe.inner_slice();
    let inlined = RuntimeCode { exe: Exe::Inlined(cells), input_sig: vec![], output_sig: vec![] };
    let start = comp.lex.code_mem.len();
    assert_eq!(comp.add_runtime_code(&inlined), Ok(()));
    assert_eq!(comp.lex.code_mem.len(), start + 2);
    assert_eq!(
        *comp.lex.code_mem.get(start).unwrap(),
        Code::basic(BuildinFunc::Pick, 0)
    );
    assert_eq!(
        *comp.lex.code_mem.get(start + 1).unwrap(),
        Code::basic(BuildinFunc::Ret, 0)
    );
    assert_eq!(comp.finalize_code().unwrap().len(), 2);
    let _ = int;
}

#[test]
fn a_later_word_of_the_same_name_is_the_one_that_is_found() {
    let (mut comp, _, _) = context();
    let name = comp.lex.intern_name("w").unwrap();
    assert_eq!(comp.finalize_and_store_word(name, vec![], vec![]), Ok(()));
    let other = comp.lex.intern_name("w").unwrap();
    let marker = vec![SigItem { tp: 0, permissions: RAW_FLAG }];
    assert_eq!(comp.finalize_and_store_word(other, vec![], marker.clone()), Ok(()));
    assert_eq!(comp.lex.word_list.len(), 2);
    assert_eq!(comp.lex.find_word(b"w").unwrap().runtime.output_sig, marker);
}

#[test]
fn words_run_at_compile_time_after_their_signature_is_checked() {
    let (mut comp, int, dup) = context();
    let name = comp.lex.intern_name("dup").unwrap();
    // the word's code is a copy of the prepared cells
    assert_eq!(comp.add_runtime_code(&RuntimeCode {
        exe: Exe::Inlined(dup.exe.inner_slice()),
        input_sig: vec![],
        output_sig: vec![],
    }), Ok(()));
    assert_eq!(
        comp.finalize_and_store_word(name, dup.input_sig.clone(), vec![]),
        Ok(())
    );

    let mut vm = VmEasyMemory::<8>::new().make_vm();
    let value = vm.heap_cell(PalData::from_int(5)).unwrap();

    // no such word
    assert_eq!(
        comp.respond_to_word(&mut vm, "swap", 100),
        Err(PalError::Missingword("swap".to_string()))
    );
    // the compile-time stack is empty: the call is refused and nothing runs
    vm.param_stack.push(value).unwrap();
    assert_eq!(
        comp.respond_to_word(&mut vm, "dup", 100),
        Err(PalError::SigError(SigError::MissingArgument(dup.input_sig[0])))
    );
    assert_eq!(vm.param_stack.len(), 1);

    // with the argument declared, the word runs
    comp.immidate_stack.add_borrows(0);
    let v = comp.immidate_stack.add_var(local(int));
    comp.immidate_stack.stack.push(v).unwrap();
    assert_eq!(comp.respond_to_word(&mut vm, "dup", 100), Ok(()));
    assert_eq!(comp.immidate_stack.stack.len(), 0);
    assert_eq!(vm.param_stack.peek_many(2).unwrap(), &[value, value]);
    assert_eq!(vm.return_stack.len(), 0);

    // a run that faults reports the fault
    comp.immidate_stack.stack.push(v).unwrap();
    assert_eq!(comp.respond_to_word(&mut vm, "dup", 1), Err(PalError::StepLimit));
}
