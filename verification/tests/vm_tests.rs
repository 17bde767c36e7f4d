use pal_forth::vm::BuildinFunc;
use pal_forth::vm::Code;
use pal_forth::vm::Vm;
use pal_forth::vm::VmEasyMemory;
use pal_forth::PalData;
use pal_forth::PalError;
use pal_forth::FALSE;
use pal_forth::TRUE;

const STEPS: usize = 100_000;
const CELL: isize = 8;

/// A code memory whose first two cells are never run: address 0 is the null
/// address, and a jump to the cell before address 1 would be one to it.
fn code_memory() -> Vec<Code> {
    vec![Code::word_raw(0), Code::word_raw(0)]
}

/// Puts `cells` at the end of the memory and gives the address of the first.
fn place(memory: &mut Vec<Code>, cells: &[Code]) -> usize {
    let at = memory.len();
    memory.extend_from_slice(cells);
    at
}

/// Puts a composite cell for the word at `first` at the end of the memory and
/// gives its address.
fn place_word(memory: &mut Vec<Code>, first: usize) -> usize {
    place(memory, &[Code::word_raw(first)])
}

fn cell(vm: &mut Vm, v: PalData) -> usize {
    vm.heap_cell(v).unwrap()
}

fn run_round_trip_inject() {
    let mem = VmEasyMemory::<32>::new();
    let mut vm = mem.make_vm();

    let mut memory = code_memory();
    let code = place(
        &mut memory,
        &[
            Code::basic(BuildinFunc::FrameAlloc, 5),
            //inject to the stack
            Code::basic(BuildinFunc::PushLocal, 0),
            Code::basic(BuildinFunc::Pick, 1),
            Code::basic(BuildinFunc::Inject, 5 * CELL),
            Code::basic(BuildinFunc::ParamDrop, 1),
            //inject back out
            Code::basic(BuildinFunc::Pick, 1),
            Code::basic(BuildinFunc::PushLocal, 0),
            Code::basic(BuildinFunc::Inject, 5 * CELL),
            Code::basic(BuildinFunc::ParamDrop, 1),
            //epilogue
            Code::basic(BuildinFunc::FrameFree, 5),
            Code::basic(BuildinFunc::Ret, 0),
        ],
    );
    let word = place_word(&mut memory, code);

    let src: [i64; 5] = [1, 3, 1, 1, -1];
    let mut psrc = 0;
    for (i, v) in src.iter().enumerate() {
        let at = cell(&mut vm, PalData::from_int(*v));
        if i == 0 {
            psrc = at;
        }
    }
    let mut ptgt = 0;
    for i in 0..5 {
        let at = cell(&mut vm, PalData::from_int(0));
        if i == 0 {
            ptgt = at;
        }
    }

    vm.param_stack.push(ptgt).unwrap();
    vm.param_stack.push(psrc).unwrap();

    println!("src {psrc:?} tgt {ptgt:?}");

    vm.execute_code(&memory, word, STEPS).unwrap();

    for i in 0..5 {
        let s = vm.load(psrc + i).unwrap();
        let t = vm.load(ptgt + i).unwrap();
        assert_eq!(s.as_int(), t.as_int());
        assert_eq!(t.as_int(), src[i]);
    }
    assert_eq!(vm.data_stack.write_index(), 0);
    assert_eq!(vm.param_stack.write_index(), 2);
}

#[test]
fn round_trip_inject() {
    run_round_trip_inject();
}

#[test]
fn test_round_trip_inject() {
    run_round_trip_inject();
}

fn run_stack_underflow() {
    let mem = VmEasyMemory::<8>::new();
    let mut vm = mem.make_vm();

    let mut memory = code_memory();
    let prog = place(
        &mut memory,
        &[Code::basic(BuildinFunc::ParamDrop, 1), Code::basic(BuildinFunc::Ret, 0)],
    );
    let word = place_word(&mut memory, prog);

    // empty stack → must fault
    let res = vm.execute_code(&memory, word, STEPS);

    assert!(res.is_err(), "param_drop on empty stack must fault");
    assert_eq!(res, Err(PalError::StackUnderFlow));
}

#[test]
fn stack_underflow_panics() {
    run_stack_underflow();
}

#[test]
fn test_stack_underflow_panics() {
    run_stack_underflow();
}

#[test]
fn core_operations() {
    let mem = VmEasyMemory::<32>::new();
    let mut vm = mem.make_vm();
    let mut memory = code_memory();

    /* ---- pick 0 (duplicate top) ---- */
    let dup_code = place(
        &mut memory,
        &[Code::basic(BuildinFunc::Pick, 0), Code::basic(BuildinFunc::Ret, 0)],
    );
    let dup_word = place_word(&mut memory, dup_code);

    let canary = 321usize;
    vm.param_stack.push(canary).unwrap();
    vm.execute_code(&memory, dup_word, STEPS).unwrap();

    assert_eq!(vm.param_stack.pop().unwrap(), canary);
    assert_eq!(vm.param_stack.pop().unwrap(), canary);

    /* ---- branch-if test ---- */
    let maybe_dup_code = place(
        &mut memory,
        &[
            Code::basic(BuildinFunc::Branch, 1),
            Code::basic(BuildinFunc::Pick, 0),
            Code::basic(BuildinFunc::Ret, 0),
        ],
    );
    let maybe_dup = place_word(&mut memory, maybe_dup_code);

    let b = cell(&mut vm, PalData::from_bool(TRUE));
    vm.param_stack.push(b).unwrap();
    vm.execute_code(&memory, maybe_dup, STEPS).unwrap();
    assert_eq!(vm.param_stack.write_index(), 0);

    vm.param_stack.push(canary).unwrap();
    vm.store(b, PalData::from_bool(FALSE)).unwrap();
    vm.param_stack.push(b).unwrap();
    vm.execute_code(&memory, maybe_dup, STEPS).unwrap();
    assert_eq!(vm.param_stack.pop().unwrap(), canary);
    assert_eq!(vm.param_stack.pop().unwrap(), canary);
}

fn run_integer_arithmetics() {
    let mem = VmEasyMemory::<16>::new();
    let mut vm = mem.make_vm();

    let a = cell(&mut vm, PalData::from_int(67));
    let b = cell(&mut vm, PalData::from_int(67));

    let mut memory = code_memory();
    let arith_code = place(
        &mut memory,
        &[
            Code::basic(BuildinFunc::Pick, 1),
            Code::basic(BuildinFunc::Pick, 1),
            Code::basic(BuildinFunc::IntAdd, 0), // placeholder – overwritten each run
            Code::basic(BuildinFunc::ParamDrop, 1),
            Code::basic(BuildinFunc::Ret, 0),
        ],
    );
    let arith_word = place_word(&mut memory, arith_code);

    vm.param_stack.push(a).unwrap();
    vm.param_stack.push(b).unwrap();

    let mut run = |builtin: BuildinFunc, l: i64, r: i64, expect: i64| {
        vm.store(a, PalData::from_int(l)).unwrap();
        vm.store(b, PalData::from_int(r)).unwrap();
        memory[arith_code + 2] = Code::basic(builtin, 0);

        vm.execute_code(&memory, arith_word, STEPS).unwrap();
        assert_eq!(vm.load(a).unwrap().as_int(), expect);
    };

    run(BuildinFunc::IntAdd, 1, 2, 1 + 2);
    run(BuildinFunc::IntSub, 5, 3, 5 - 3);
    run(BuildinFunc::IntMul, 6, 7, 6 * 7);
    run(BuildinFunc::IntDiv, 20, 5, 20 / 5);
    run(BuildinFunc::IntShl, 3, 2, 3 << 2);
    run(BuildinFunc::IntShr, 16, 2, 16 >> 2);
    run(BuildinFunc::IntAnd, 0b1100, 0b1010, 0b1100 & 0b1010);
    run(BuildinFunc::IntOr, 0b1100, 0b1010, 0b1100 | 0b1010);
    run(BuildinFunc::IntXor, 0b1100, 0b1010, 0b1100 ^ 0b1010);
    run(BuildinFunc::IntMod, 17, 5, 17 % 5);

    vm.param_stack.pop().unwrap();
    vm.param_stack.pop().unwrap();
}

#[test]
fn integer_arithmetics() {
    run_integer_arithmetics();
}

#[test]
fn test_integer_arithmetics() {
    run_integer_arithmetics();
}

#[test]
fn bool_and_comparisons() {
    let mem = VmEasyMemory::<32>::new();
    let mut vm = mem.make_vm();

    /* ---- comparisons (EQ / NEQ / < / > / <= / >=) ---- */
    let res = cell(&mut vm, PalData::from_bool(FALSE));
    let x = cell(&mut vm, PalData::from_int(0));
    let y = cell(&mut vm, PalData::from_int(0));

    let mut memory = code_memory();
    // the result takes the place of the lower operand: the left operand is
    // copied into `res` first, and `res` is compared with the right one
    let cmp_code = place(
        &mut memory,
        &[
            Code::basic(BuildinFunc::Pick, 2),
            Code::basic(BuildinFunc::Pick, 2),
            Code::basic(BuildinFunc::Inject, CELL),
            Code::basic(BuildinFunc::Pick, 1),
            Code::basic(BuildinFunc::IntEq, 0), // placeholder
            Code::basic(BuildinFunc::ParamDrop, 1),
            Code::basic(BuildinFunc::Ret, 0),
        ],
    );
    let cmp_word = place_word(&mut memory, cmp_code);

    vm.param_stack.push(res).unwrap();
    vm.param_stack.push(x).unwrap();
    vm.param_stack.push(y).unwrap();

    {
        let mut cmp = |builtin: BuildinFunc, l: i64, r: i64, ok: bool| {
            vm.store(x, PalData::from_int(l)).unwrap();
            vm.store(y, PalData::from_int(r)).unwrap();
            memory[cmp_code + 4] = Code::basic(builtin, 0);
            vm.execute_code(&memory, cmp_word, STEPS).unwrap();
            assert_eq!(vm.load(res).unwrap().as_bool() == TRUE, ok);
            // the operands' own cells are as they were
            assert_eq!(vm.load(x).unwrap().as_int(), l);
            assert_eq!(vm.load(y).unwrap().as_int(), r);
        };

        cmp(BuildinFunc::IntEq, 5, 5, true);
        cmp(BuildinFunc::IntNeq, 5, 6, true);
        cmp(BuildinFunc::IntSmaller, 2, 3, true);
        cmp(BuildinFunc::IntBigger, 9, 4, true);
        cmp(BuildinFunc::IntLe, 4, 4, true);
        cmp(BuildinFunc::IntGe, 7, 2, true);
    }

    for _ in 0..3 {
        vm.param_stack.pop().unwrap();
    }

    /* ---- logical AND / OR / XOR ---- */
    let lhs = cell(&mut vm, PalData::from_bool(FALSE));
    let rhs = cell(&mut vm, PalData::from_bool(FALSE));

    let bool_code = place(
        &mut memory,
        &[
            Code::basic(BuildinFunc::Pick, 1),
            Code::basic(BuildinFunc::Pick, 1),
            Code::basic(BuildinFunc::BoolAnd, 0), // placeholder
            Code::basic(BuildinFunc::ParamDrop, 1),
            Code::basic(BuildinFunc::Ret, 0),
        ],
    );
    let bool_word = place_word(&mut memory, bool_code);

    vm.param_stack.push(lhs).unwrap();
    vm.param_stack.push(rhs).unwrap();

    {
        let mut logic = |builtin: BuildinFunc, l: bool, r: bool, expect: bool| {
            vm.store(lhs, PalData::from_bool(l)).unwrap();
            vm.store(rhs, PalData::from_bool(r)).unwrap();
            memory[bool_code + 2] = Code::basic(builtin, 0);
            vm.execute_code(&memory, bool_word, STEPS).unwrap();
            assert_eq!(vm.load(lhs).unwrap().as_bool() == TRUE, expect);
        };

        logic(BuildinFunc::BoolAnd, TRUE, TRUE, true);
        logic(BuildinFunc::BoolOr, FALSE, TRUE, true);
        logic(BuildinFunc::BoolXor, TRUE, TRUE, false);
    }

    vm.param_stack.pop().unwrap();
    vm.param_stack.pop().unwrap();

    /* ---- unary NOT ---- */
    let v = cell(&mut vm, PalData::from_bool(TRUE));
    let not_code = place(
        &mut memory,
        &[
            Code::basic(BuildinFunc::BoolNot, 0),
            Code::basic(BuildinFunc::ParamDrop, 1),
            Code::basic(BuildinFunc::Ret, 0),
        ],
    );
    let not_word = place_word(&mut memory, not_code);

    vm.param_stack.push(v).unwrap();
    vm.execute_code(&memory, not_word, STEPS).unwrap();
    assert!(vm.load(v).unwrap().as_bool() == FALSE);
}

#[test]
fn nested_word_dup() {
    let mem = VmEasyMemory::<16>::new();
    let mut vm = mem.make_vm();
    let mut memory = code_memory();

    /* ---- inner word: DUP (pick 0) ---- */
    let dup_code = place(
        &mut memory,
        &[Code::basic(BuildinFunc::Pick, 0), Code::basic(BuildinFunc::Ret, 0)],
    );

    /* ---- outer word: call the inner DUP ---- */
    let outer_code = place(
        &mut memory,
        &[
            Code::word_raw(dup_code), // nested call
            Code::basic(BuildinFunc::Ret, 0),
        ],
    );
    let outer_word = place_word(&mut memory, outer_code);

    /* ---- run it ---- */
    let canary = 321usize;
    vm.param_stack.push(canary).unwrap();

    vm.execute_code(&memory, outer_word, STEPS).unwrap();

    // Stack should now contain two identical pointers
    assert_eq!(vm.param_stack.pop().unwrap(), canary);
    assert_eq!(vm.param_stack.pop().unwrap(), canary);
    assert_eq!(vm.param_stack.write_index(), 0);
}

#[test]
fn if_branch_behavior() {
    let mem = VmEasyMemory::<16>::new();
    let mut vm = mem.make_vm();
    let mut memory = code_memory();

    let jump_code = place(
        &mut memory,
        &[
            Code::basic(BuildinFunc::Pick, 0), // duplicate top
            Code::basic(BuildinFunc::Ret, 0),
        ],
    );

    let target = jump_code.wrapping_sub(1);

    let cond_code = place(
        &mut memory,
        &[Code::basic_raw(BuildinFunc::If, target), Code::basic(BuildinFunc::Ret, 0)],
    );
    let cond_word = place_word(&mut memory, cond_code);

    let canary = 999usize;
    let flag = cell(&mut vm, PalData::from_bool(TRUE));
    vm.param_stack.push(canary).unwrap();
    vm.param_stack.push(flag).unwrap();

    vm.execute_code(&memory, cond_word, STEPS).unwrap();
    assert_eq!(vm.param_stack.pop().unwrap(), canary);
    assert_eq!(vm.param_stack.pop().unwrap(), canary);

    // reset and test false path
    vm.store(flag, PalData::from_bool(FALSE)).unwrap();
    vm.param_stack.push(canary).unwrap();
    vm.param_stack.push(flag).unwrap();

    vm.execute_code(&memory, cond_word, STEPS).unwrap();
    assert_eq!(vm.param_stack.pop().unwrap(), canary);
    assert_eq!(vm.param_stack.write_index(), 0);
}

#[test]
fn call_dyn_executes_target() {
    let canary = 123usize;

    let mem = VmEasyMemory::<16>::new();
    let mut vm = mem.make_vm();
    let mut memory = code_memory();

    let dup_code = place(
        &mut memory,
        &[
            Code::basic(BuildinFunc::Pick, 0),
            Code::basic(BuildinFunc::NoOp, 0),
            Code::basic(BuildinFunc::Ret, 0),
        ],
    );
    let dup_word = place_word(&mut memory, dup_code);
    let dyn_target = cell(&mut vm, PalData::from_code(dup_word));

    //====== threaded =========
    let call_code = place(
        &mut memory,
        &[Code::basic(BuildinFunc::CallDynThreaded, 0), Code::basic(BuildinFunc::Ret, 0)],
    );
    let call_word = place_word(&mut memory, call_code);

    vm.param_stack.push(canary).unwrap();
    vm.param_stack.push(dyn_target).unwrap();

    vm.execute_code(&memory, call_word, STEPS).unwrap();
    assert_eq!(vm.param_stack.pop().unwrap(), canary);
    assert_eq!(vm.param_stack.pop().unwrap(), canary);

    //====== non threaded =========
    let call_code = place(
        &mut memory,
        &[
            Code::basic(BuildinFunc::CallDyn, 0),
            Code::basic(BuildinFunc::NoOp, 0),
            Code::basic(BuildinFunc::NoOp, 0),
            Code::basic(BuildinFunc::Ret, 0),
        ],
    );
    let call_word = place_word(&mut memory, call_code);

    vm.param_stack.push(canary).unwrap();
    vm.param_stack.push(dyn_target).unwrap();

    vm.execute_code(&memory, call_word, STEPS).unwrap();
    assert_eq!(vm.param_stack.pop().unwrap(), canary);
    assert_eq!(vm.param_stack.pop().unwrap(), canary);
}
