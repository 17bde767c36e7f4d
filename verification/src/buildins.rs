//! The primitives of the machine. Each takes the address of the cell that
//! holds it, the code, and the machine, has one effect, and gives the address
//! from which the dispatch loop goes on: mostly its own, a computed one for
//! control flow, and the null address where the current word ends.
use crate::vm::BuildinFunc;
use crate::vm::BuildinPtr;
use crate::vm::Code;
use crate::vm::Vm;
use crate::vm::VmState;
use crate::vm::NULL_CODE;
use crate::PalError;
use vstd::prelude::*;

verus! {

/// What a primitive comes to: the machine after it and the address it gives,
/// or the fault that stopped it.
pub type Stepped = Result<(VmState, usize), PalError>;

/// The result `r` of a primitive and the machine `after` it are what `want`
/// says. Of the machine after a fault nothing is said.
pub open spec fn agrees(r: Result<usize, PalError>, after: VmState, want: Stepped) -> bool {
    match r {
        Ok(next) => want == Ok::<(VmState, usize), PalError>((after, next)),
        Err(e) => want == Err::<(VmState, usize), PalError>(e),
    }
}

/// The parameter of the cell at `code_ptr`.
pub fn param(code_ptr: usize, code: &[Code]) -> (p: usize)
    requires
        code_ptr < code@.len(),
    ensures
        p == code@[code_ptr as int].param,
{
    code[code_ptr].param
}

/// The element, or the underflow fault where there is none.
pub fn unwrap_under<T>(v: Option<T>) -> (r: Result<T, PalError>)
    ensures
        match v {
            Some(x) => r == Ok::<T, PalError>(x),
            None => r == Err::<T, PalError>(PalError::StackUnderFlow),
        },
{
    match v {
        Some(x) => Ok(x),
        None => Err(PalError::StackUnderFlow),
    }
}

/// The element, or the overflow fault where there is none.
pub fn unwrap_over<T>(v: Option<T>) -> (r: Result<T, PalError>)
    ensures
        match v {
            Some(x) => r == Ok::<T, PalError>(x),
            None => r == Err::<T, PalError>(PalError::StackOverFlow),
        },
{
    match v {
        Some(x) => Ok(x),
        None => Err(PalError::StackOverFlow),
    }
}

// ───────────── what each primitive does ──────────────
pub open spec fn spec_no_op(s: VmState, pc: usize) -> Stepped {
    Ok((s, pc))
}

pub open spec fn spec_frame_alloc(s: VmState, pc: usize, n: usize) -> Stepped {
    if s.data.room() < n {
        Err(PalError::StackOverFlow)
    } else {
        Ok((VmState { data: s.data.reserve(n as nat), ..s }, pc))
    }
}

pub open spec fn spec_frame_free(s: VmState, pc: usize, n: usize) -> Stepped {
    if s.data.depth() < n {
        Err(PalError::StackUnderFlow)
    } else {
        Ok((VmState { data: s.data.release(n as nat), ..s }, pc))
    }
}

pub open spec fn spec_param_drop(s: VmState, pc: usize, n: usize) -> Stepped {
    if s.params.depth() < n {
        Err(PalError::StackUnderFlow)
    } else {
        Ok((VmState { params: s.params.release(n as nat), ..s }, pc))
    }
}

pub open spec fn spec_push_local(s: VmState, pc: usize, i: usize) -> Stepped {
    if s.data.depth() <= i {
        Err(PalError::StackUnderFlow)
    } else if s.params.room() == 0 {
        Err(PalError::StackOverFlow)
    } else {
        Ok((VmState { params: s.params.push((s.data.head + i) as usize), ..s }, pc))
    }
}

pub open spec fn spec_push_var(s: VmState, pc: usize, at: usize) -> Stepped {
    if s.params.room() == 0 {
        Err(PalError::StackOverFlow)
    } else {
        Ok((VmState { params: s.params.push(at), ..s }, pc))
    }
}

pub open spec fn spec_pick(s: VmState, pc: usize, i: usize) -> Stepped {
    if s.params.depth() <= i {
        Err(PalError::StackUnderFlow)
    } else if s.params.room() == 0 {
        Err(PalError::StackOverFlow)
    } else {
        Ok((VmState { params: s.params.push(s.params.live()[i as int]), ..s }, pc))
    }
}

/// Takes the address of a boolean off the parameter stack and gives `taken`
/// where the boolean is true, `pc` where it is false.
pub open spec fn spec_choose(s: VmState, pc: usize, taken: usize) -> Stepped {
    if s.params.depth() == 0 {
        Err(PalError::StackUnderFlow)
    } else if !s.valid(s.params.live()[0]) {
        Err(PalError::BadAddress)
    } else {
        Ok(
            (
                VmState { params: s.params.release(1), ..s },
                if s.load(s.params.live()[0]).spec_as_bool() {
                    taken
                } else {
                    pc
                },
            ),
        )
    }
}

pub open spec fn spec_branch(s: VmState, pc: usize, offset: usize) -> Stepped {
    spec_choose(s, pc, vstd::wrapping::usize_specs::wrapping_add(pc, offset))
}

pub open spec fn spec_if(s: VmState, pc: usize, target: usize) -> Stepped {
    spec_choose(s, pc, target)
}

pub open spec fn spec_maybe_backpatch(s: VmState, pc: usize, p: usize) -> Stepped {
    Ok(
        (
            s,
            if p == NULL_CODE {
                pc
            } else {
                p
            },
        ),
    )
}

pub open spec fn spec_jump(s: VmState, pc: usize, offset: usize) -> Stepped {
    Ok((s, vstd::wrapping::usize_specs::wrapping_add(pc, offset)))
}

/// Takes the address of a cell off the parameter stack and goes to the word
/// whose composite cell has its address in that cell. No return address is
/// left: the word's end is the end of the word that made the call.
pub open spec fn spec_tail_call(code: Seq<Code>, s: VmState) -> Stepped {
    if s.params.depth() == 0 {
        Err(PalError::StackUnderFlow)
    } else if !s.valid(s.params.live()[0]) {
        Err(PalError::BadAddress)
    } else if s.load(s.params.live()[0]).spec_as_code() >= code.len() {
        Err(PalError::BadAddress)
    } else {
        Ok(
            (
                VmState { params: s.params.release(1), ..s },
                vstd::wrapping::usize_specs::wrapping_sub(
                    code[s.load(s.params.live()[0]).spec_as_code() as int].param,
                    1,
                ),
            ),
        )
    }
}

pub open spec fn spec_ret(s: VmState) -> Stepped {
    Ok((s, NULL_CODE))
}

pub open spec fn spec_call_dyn(code: Seq<Code>, s: VmState, pc: usize) -> Stepped {
    if s.params.depth() == 0 {
        Err(PalError::StackUnderFlow)
    } else if !s.valid(s.params.live()[0]) {
        Err(PalError::BadAddress)
    } else if s.rets.room() == 0 {
        Err(PalError::StackOverFlow)
    } else if s.load(s.params.live()[0]).spec_as_code() >= code.len() {
        Err(PalError::BadAddress)
    } else {
        Ok(
            (
                VmState { params: s.params.release(1), rets: s.rets.push(pc), ..s },
                vstd::wrapping::usize_specs::wrapping_sub(
                    code[s.load(s.params.live()[0]).spec_as_code() as int].param,
                    1,
                ),
            ),
        )
    }
}

// ───────────── frame and stack primitives ────────────
/// Does nothing.
pub fn no_op(code_ptr: usize, code: &[Code], vm: &mut Vm) -> (r: Result<usize, PalError>)
    requires
        old(vm).wf(),
        code_ptr < code@.len(),
    ensures
        final(vm).wf(),
        agrees(r, final(vm)@, spec_no_op(old(vm)@, code_ptr)),
{
    Ok(code_ptr)
}

/// Grows the data stack by as many cells as the parameter says.
pub fn frame_alloc(code_ptr: usize, code: &[Code], vm: &mut Vm) -> (r: Result<usize, PalError>)
    requires
        old(vm).wf(),
        code_ptr < code@.len(),
    ensures
        final(vm).wf(),
        agrees(r, final(vm)@, spec_frame_alloc(old(vm)@, code_ptr, code@[code_ptr as int].param)),
{
    unwrap_over(vm.data_stack.alloc_n(param(code_ptr, code)))?;
    Ok(code_ptr)
}

/// Shrinks the data stack by as many cells as the parameter says.
pub fn frame_free(code_ptr: usize, code: &[Code], vm: &mut Vm) -> (r: Result<usize, PalError>)
    requires
        old(vm).wf(),
        code_ptr < code@.len(),
    ensures
        final(vm).wf(),
        agrees(r, final(vm)@, spec_frame_free(old(vm)@, code_ptr, code@[code_ptr as int].param)),
{
    unwrap_under(vm.data_stack.free(param(code_ptr, code)))?;
    Ok(code_ptr)
}

/// Discards as many cells of the parameter stack as the parameter says.
pub fn param_drop(code_ptr: usize, code: &[Code], vm: &mut Vm) -> (r: Result<usize, PalError>)
    requires
        old(vm).wf(),
        code_ptr < code@.len(),
    ensures
        final(vm).wf(),
        agrees(r, final(vm)@, spec_param_drop(old(vm)@, code_ptr, code@[code_ptr as int].param)),
{
    unwrap_under(vm.param_stack.free(param(code_ptr, code)))?;
    Ok(code_ptr)
}

/// Pushes the address of the data-stack slot that lies as many cells below
/// the top as the parameter says.
pub fn push_local(code_ptr: usize, code: &[Code], vm: &mut Vm) -> (r: Result<usize, PalError>)
    requires
        old(vm).wf(),
        code_ptr < code@.len(),
    ensures
        final(vm).wf(),
        agrees(r, final(vm)@, spec_push_local(old(vm)@, code_ptr, code@[code_ptr as int].param)),
{
    let idx: usize = param(code_ptr, code);
    let p: usize = unwrap_under(vm.data_stack.spot_raw(idx))?;
    unwrap_over(vm.param_stack.push(p).ok())?;
    Ok(code_ptr)
}

/// Pushes the parameter as an address.
pub fn push_var(code_ptr: usize, code: &[Code], vm: &mut Vm) -> (r: Result<usize, PalError>)
    requires
        old(vm).wf(),
        code_ptr < code@.len(),
    ensures
        final(vm).wf(),
        agrees(r, final(vm)@, spec_push_var(old(vm)@, code_ptr, code@[code_ptr as int].param)),
{
    unwrap_over(vm.param_stack.push(param(code_ptr, code)).ok())?;
    Ok(code_ptr)
}

/// Pushes once more the address that lies as many slots below the top of the
/// parameter stack as the parameter says.
pub fn pick(code_ptr: usize, code: &[Code], vm: &mut Vm) -> (r: Result<usize, PalError>)
    requires
        old(vm).wf(),
        code_ptr < code@.len(),
    ensures
        final(vm).wf(),
        agrees(r, final(vm)@, spec_pick(old(vm)@, code_ptr, code@[code_ptr as int].param)),
{
    let at: usize = unwrap_under(vm.param_stack.spot_raw(param(code_ptr, code)))?;
    let p: usize = unwrap_under(vm.param_stack.read_slot(at))?;
    unwrap_over(vm.param_stack.push(p).ok())?;
    Ok(code_ptr)
}

// ───────────── control flow ──────────────────────────
/// Takes the address of a boolean off the parameter stack and reads it.
fn pop_flag(vm: &mut Vm) -> (r: Result<bool, PalError>)
    requires
        old(vm).wf(),
    ensures
        final(vm).wf(),
        match r {
            Ok(b) => spec_choose(old(vm)@, 0, 1) == Ok::<(VmState, usize), PalError>(
                (
                    final(vm)@,
                    if b {
                        1usize
                    } else {
                        0usize
                    },
                ),
            ),
            Err(e) => spec_choose(old(vm)@, 0, 1) == Err::<(VmState, usize), PalError>(e),
        },
{
    let at: usize = unwrap_under(vm.param_stack.pop())?;
    match vm.load(at) {
        Some(cell) => Ok(cell.as_bool()),
        None => Err(PalError::BadAddress),
    }
}

/// Takes the address of a boolean off the parameter stack; jumps by the
/// parameter where it is true.
pub fn branch(code_ptr: usize, code: &[Code], vm: &mut Vm) -> (r: Result<usize, PalError>)
    requires
        old(vm).wf(),
        code_ptr < code@.len(),
    ensures
        final(vm).wf(),
        agrees(r, final(vm)@, spec_branch(old(vm)@, code_ptr, code@[code_ptr as int].param)),
{
    let offset: usize = param(code_ptr, code);
    if pop_flag(vm)? {
        Ok(code_ptr.wrapping_add(offset))
    } else {
        Ok(code_ptr)
    }
}

/// Takes the address of a boolean off the parameter stack; goes to the
/// address in the parameter where it is true.
pub fn _if(code_ptr: usize, code: &[Code], vm: &mut Vm) -> (r: Result<usize, PalError>)
    requires
        old(vm).wf(),
        code_ptr < code@.len(),
    ensures
        final(vm).wf(),
        agrees(r, final(vm)@, spec_if(old(vm)@, code_ptr, code@[code_ptr as int].param)),
{
    let target: usize = param(code_ptr, code);
    if pop_flag(vm)? {
        Ok(target)
    } else {
        Ok(code_ptr)
    }
}

/// Goes to the address in the parameter once one was written there, and on
/// from here until then.
pub fn maybe_backpatch(code_ptr: usize, code: &[Code], vm: &mut Vm) -> (r: Result<
    usize,
    PalError,
>)
    requires
        old(vm).wf(),
        code_ptr < code@.len(),
    ensures
        final(vm).wf(),
        agrees(
            r,
            final(vm)@,
            spec_maybe_backpatch(old(vm)@, code_ptr, code@[code_ptr as int].param),
        ),
{
    let p: usize = param(code_ptr, code);
    if p == NULL_CODE {
        Ok(code_ptr)
    } else {
        Ok(p)
    }
}

/// Jumps by the parameter.
pub fn jump(code_ptr: usize, code: &[Code], vm: &mut Vm) -> (r: Result<usize, PalError>)
    requires
        old(vm).wf(),
        code_ptr < code@.len(),
    ensures
        final(vm).wf(),
        agrees(r, final(vm)@, spec_jump(old(vm)@, code_ptr, code@[code_ptr as int].param)),
{
    Ok(code_ptr.wrapping_add(param(code_ptr, code)))
}

/// Calls the word whose composite cell has its address in the cell that the
/// top of the parameter stack points to, and leaves no return address.
pub fn tail_call(code_ptr: usize, code: &[Code], vm: &mut Vm) -> (r: Result<usize, PalError>)
    requires
        old(vm).wf(),
    ensures
        final(vm).wf(),
        agrees(r, final(vm)@, spec_tail_call(code@, old(vm)@)),
{
    let at: usize = unwrap_under(vm.param_stack.pop())?;
    let target: usize = match vm.load(at) {
        Some(cell) => cell.as_code(),
        None => {
            return Err(PalError::BadAddress);
        },
    };
    if target >= code.len() {
        return Err(PalError::BadAddress);
    }
    Ok(param(target, code).wrapping_sub(1))
}

/// Calls the word whose composite cell has its address in the cell that the
/// top of the parameter stack points to; this cell becomes the return
/// address.
pub fn call_dyn(call_site: usize, code: &[Code], vm: &mut Vm) -> (r: Result<usize, PalError>)
    requires
        old(vm).wf(),
        call_site < code@.len(),
    ensures
        final(vm).wf(),
        agrees(r, final(vm)@, spec_call_dyn(code@, old(vm)@, call_site)),
{
    let at: usize = unwrap_under(vm.param_stack.pop())?;
    let target: usize = match vm.load(at) {
        Some(cell) => cell.as_code(),
        None => {
            return Err(PalError::BadAddress);
        },
    };
    unwrap_over(vm.return_stack.push(call_site).ok())?;
    if target >= code.len() {
        return Err(PalError::BadAddress);
    }
    Ok(param(target, code).wrapping_sub(1))
}

/// Ends the current word.
pub fn ret(code_ptr: usize, code: &[Code], vm: &mut Vm) -> (r: Result<usize, PalError>)
    requires
        old(vm).wf(),
    ensures
        final(vm).wf(),
        agrees(r, final(vm)@, spec_ret(old(vm)@)),
{
    Ok(NULL_CODE)
}

// ───────────── memory transfer ───────────────────────
/// The bytes of one cell.
pub const CELL_BYTES: usize = 8;

/// The number of cells that a run of `n` bytes touches.
pub open spec fn cells_of(n: nat) -> nat {
    n / 8 + (if n % 8 == 0 {
        0nat
    } else {
        1nat
    })
}

/// The memory after `n` bytes were copied from the cell at `src` on to the
/// cell at `dst` on, every byte read before any is written: whole cells
/// first, then the low bytes of one more cell where `n` is no multiple of a
/// cell.
pub open spec fn copy_bytes(mem: Seq<crate::PalData>, src: int, dst: int, n: nat) -> Seq<
    crate::PalData,
> {
    Seq::new(
        mem.len(),
        |i: int|
            if dst <= i < dst + n / 8 {
                mem[src + (i - dst)]
            } else if n % 8 != 0 && i == dst + n / 8 {
                mem[i].spec_with_low_bytes(mem[src + n / 8], n % 8)
            } else {
                mem[i]
            },
    )
}

/// A copy of whole cells makes each target cell what its source cell was,
/// and changes no other cell.
pub proof fn lemma_copy_cells(mem: Seq<crate::PalData>, src: int, dst: int, cells: nat)
    requires
        0 <= src,
        0 <= dst,
        src + cells <= mem.len(),
        dst + cells <= mem.len(),
    ensures
        copy_bytes(mem, src, dst, 8 * cells).len() == mem.len(),
        forall|i: int|
            0 <= i < cells ==> #[trigger] copy_bytes(mem, src, dst, 8 * cells)[dst + i] == mem[src
                + i],
        forall|j: int|
            0 <= j < mem.len() && !(dst <= j < dst + cells) ==> #[trigger] copy_bytes(
                mem,
                src,
                dst,
                8 * cells,
            )[j] == mem[j],
        !ranges_overlap(src, dst, cells) ==> forall|i: int|
            0 <= i < cells ==> #[trigger] copy_bytes(mem, src, dst, 8 * cells)[src + i] == mem[src
                + i],
{
    assert((8 * cells) / 8 == cells && (8 * cells) % 8 == 0) by (nonlinear_arith);
}

/// Two runs of `cells` cells have a cell in common.
pub open spec fn ranges_overlap(src: int, dst: int, cells: nat) -> bool {
    cells > 0 && src < dst + cells && dst < src + cells
}

/// Takes the source address off the parameter stack, leaves the target
/// address on it, and copies `n` bytes. With `apart` set, ranges that overlap
/// are a fault.
pub open spec fn spec_inject(s: VmState, pc: usize, n: usize, apart: bool) -> Stepped {
    if s.params.depth() < 2 {
        Err(PalError::StackUnderFlow)
    } else {
        let src = s.params.live()[0];
        let dst = s.params.live()[1];
        if src + cells_of(n as nat) > s.mem().len() || dst + cells_of(n as nat) > s.mem().len() {
            Err(PalError::BadAddress)
        } else if apart && ranges_overlap(src as int, dst as int, cells_of(n as nat)) {
            Err(PalError::Overlap)
        } else {
            Ok(
                (
                    (VmState { params: s.params.release(1), ..s }).with_mem(
                        copy_bytes(s.mem(), src as int, dst as int, n as nat),
                    ),
                    pc,
                ),
            )
        }
    }
}

/// Copies `n` bytes from the cell at `src` on to the cell at `dst` on; the
/// ranges may overlap.
fn move_bytes(vm: &mut Vm, src: usize, dst: usize, n: usize)
    requires
        old(vm).wf(),
        src + cells_of(n as nat) <= old(vm)@.mem().len(),
        dst + cells_of(n as nat) <= old(vm)@.mem().len(),
    ensures
        final(vm).wf(),
        final(vm)@ == old(vm)@.with_mem(copy_bytes(old(vm)@.mem(), src as int, dst as int, n as nat)),
{
    let q: usize = n / CELL_BYTES;
    let k: usize = n % CELL_BYTES;
    let ghost m0 = vm@.mem();
    let ghost s0 = vm@;
    if dst <= src {
        let mut i: usize = 0;
        while i < q
            invariant
                i <= q,
                q == n as nat / 8,
                dst <= src,
                src + cells_of(n as nat) <= m0.len(),
                dst + cells_of(n as nat) <= m0.len(),
                vm.wf(),
                vm@.params == s0.params,
                vm@.rets == s0.rets,
                vm@.data.head == s0.data.head,
                vm@.data.store.len() == s0.data.store.len(),
                vm@.text == s0.text,
                vm@.output == s0.output,
                vm@.mem().len() == m0.len(),
                forall|j: int|
                    0 <= j < m0.len() ==> vm@.mem()[j] == (if dst <= j < dst + i {
                        m0[src + (j - dst)]
                    } else {
                        m0[j]
                    }),
            decreases q - i,
        {
            let v = match vm.load(src + i) {
                Some(v) => v,
                None => crate::PalData { word: 0 },
            };
            let _ = vm.store(dst + i, v);
            i += 1;
        }
        if k != 0 {
            let from = match vm.load(src + q) {
                Some(v) => v,
                None => crate::PalData { word: 0 },
            };
            let into = match vm.load(dst + q) {
                Some(v) => v,
                None => crate::PalData { word: 0 },
            };
            let _ = vm.store(dst + q, into.with_low_bytes(from, k));
        }
    } else {
        if k != 0 {
            let from = match vm.load(src + q) {
                Some(v) => v,
                None => crate::PalData { word: 0 },
            };
            let into = match vm.load(dst + q) {
                Some(v) => v,
                None => crate::PalData { word: 0 },
            };
            let _ = vm.store(dst + q, into.with_low_bytes(from, k));
        }
        let mut i: usize = q;
        while i > 0
            invariant
                i <= q,
                q == n as nat / 8,
                k == n as nat % 8,
                dst > src,
                src + cells_of(n as nat) <= m0.len(),
                dst + cells_of(n as nat) <= m0.len(),
                vm.wf(),
                vm@.params == s0.params,
                vm@.rets == s0.rets,
                vm@.data.head == s0.data.head,
                vm@.data.store.len() == s0.data.store.len(),
                vm@.text == s0.text,
                vm@.output == s0.output,
                vm@.mem().len() == m0.len(),
                forall|j: int|
                    0 <= j < m0.len() ==> vm@.mem()[j] == (if dst + i <= j < dst + q {
                        m0[src + (j - dst)]
                    } else if k != 0 && j == dst + q {
                        m0[j].spec_with_low_bytes(m0[src + q], k as nat)
                    } else {
                        m0[j]
                    }),
            decreases i,
        {
            i -= 1;
            let v = match vm.load(src + i) {
                Some(v) => v,
                None => crate::PalData { word: 0 },
            };
            let _ = vm.store(dst + i, v);
        }
    }
    proof {
        assert(vm@.mem() =~= copy_bytes(m0, src as int, dst as int, n as nat));
        crate::vm::lemma_same_but_mem(s0, vm@);
    }
}

/// The shared body of the two copying primitives.
fn inject_with(code_ptr: usize, code: &[Code], vm: &mut Vm, apart: bool) -> (r: Result<
    usize,
    PalError,
>)
    requires
        old(vm).wf(),
        code_ptr < code@.len(),
    ensures
        final(vm).wf(),
        agrees(
            r,
            final(vm)@,
            spec_inject(old(vm)@, code_ptr, code@[code_ptr as int].param, apart),
        ),
{
    let n: usize = param(code_ptr, code);
    let src: usize = unwrap_under(vm.param_stack.pop())?;
    let dst: usize = match vm.param_stack.peek() {
        Some(at) => *at,
        None => {
            return Err(PalError::StackUnderFlow);
        },
    };
    let cells: usize = n / CELL_BYTES + (if n % CELL_BYTES == 0 {
        0
    } else {
        1
    });
    let len: usize = vm.mem_len();
    if src > len || cells > len - src || dst > len || cells > len - dst {
        return Err(PalError::BadAddress);
    }
    if apart && cells > 0 && src < dst + cells && dst < src + cells {
        return Err(PalError::Overlap);
    }
    proof {
        crate::vm::lemma_with_mem(
            old(vm)@,
            copy_bytes(old(vm)@.mem(), src as int, dst as int, n as nat),
        );
    }
    move_bytes(vm, src, dst, n);
    Ok(code_ptr)
}

/// Takes the source address off the parameter stack, leaves the target
/// address on it, and copies as many bytes as the parameter says. The two
/// ranges must not overlap: where they do, nothing is copied.
pub fn inject(code_ptr: usize, code: &[Code], vm: &mut Vm) -> (r: Result<usize, PalError>)
    requires
        old(vm).wf(),
        code_ptr < code@.len(),
    ensures
        final(vm).wf(),
        agrees(
            r,
            final(vm)@,
            spec_inject(old(vm)@, code_ptr, code@[code_ptr as int].param, true),
        ),
{
    inject_with(code_ptr, code, vm, true)
}

/// As `inject`, for ranges that may overlap: the target gets what the source
/// held before the copy.
pub fn inject_non_unique(code_ptr: usize, code: &[Code], vm: &mut Vm) -> (r: Result<
    usize,
    PalError,
>)
    requires
        old(vm).wf(),
        code_ptr < code@.len(),
    ensures
        final(vm).wf(),
        agrees(
            r,
            final(vm)@,
            spec_inject(old(vm)@, code_ptr, code@[code_ptr as int].param, false),
        ),
{
    inject_with(code_ptr, code, vm, false)
}

// ───────────── integer arithmetic ────────────────────
/// The integer operations.
#[derive(Debug, Clone, Copy)]
pub enum IntOp {
    Add,
    Sub,
    Mul,
    Div,
    Mod,
    Shl,
    Shr,
    And,
    Or,
    Xor,
}

/// The quotient rounded towards zero.
pub open spec fn trunc_div(a: int, b: int) -> int {
    if a >= 0 && b > 0 {
        a / b
    } else if a < 0 && b < 0 {
        (-a) / (-b)
    } else if a < 0 {
        -((-a) / b)
    } else {
        -(a / (-b))
    }
}

/// The remainder that goes with `trunc_div`: it has the sign of `a`.
pub open spec fn trunc_rem(a: int, b: int) -> int {
    if a >= 0 && b > 0 {
        a % b
    } else if a < 0 && b < 0 {
        -((-a) % (-b))
    } else if a < 0 {
        -((-a) % b)
    } else {
        a % (-b)
    }
}

/// Division and remainder have no result: the divisor is zero, or the
/// quotient does not fit.
pub open spec fn div_traps(a: i64, b: i64) -> bool {
    b == 0 || (a == i64::MIN && b == -1)
}

/// What the machine's own operator gives for two 64-bit signed integers, or
/// nothing where it traps. Sums, differences and products wrap around; a
/// shift goes by the low six bits of its count.
pub open spec fn int_op(op: IntOp, a: i64, b: i64) -> Option<i64> {
    match op {
        IntOp::Add => Some(vstd::wrapping::i64_specs::wrapping_add(a, b)),
        IntOp::Sub => Some(vstd::wrapping::i64_specs::wrapping_sub(a, b)),
        IntOp::Mul => Some(vstd::wrapping::i64_specs::wrapping_mul(a, b)),
        IntOp::Div => if div_traps(a, b) {
            None
        } else {
            Some(trunc_div(a as int, b as int) as i64)
        },
        IntOp::Mod => if div_traps(a, b) {
            None
        } else {
            Some(trunc_rem(a as int, b as int) as i64)
        },
        IntOp::Shl => Some(a << ((b & 63) as u32)),
        IntOp::Shr => Some(a >> ((b & 63) as u32)),
        IntOp::And => Some(a & b),
        IntOp::Or => Some(a | b),
        IntOp::Xor => Some(a ^ b),
    }
}

/// The quotient rounded towards zero, or nothing where division traps.
pub fn divide(a: i64, b: i64) -> (r: Option<i64>)
    ensures
        r == int_op(IntOp::Div, a, b),
{
    proof {
        if !div_traps(a, b) {
            lemma_trunc_fits(a, b);
        }
    }
    let r = a.checked_div(b);
    assert(r is None <==> div_traps(a, b));
    assert(r matches Some(q) ==> q == trunc_div(a as int, b as int));
    r
}

/// The remainder with the sign of `a`, or nothing where division traps.
pub fn remainder(a: i64, b: i64) -> (r: Option<i64>)
    ensures
        r == int_op(IntOp::Mod, a, b),
{
    proof {
        if !div_traps(a, b) {
            lemma_trunc_fits(a, b);
        }
    }
    let r = a.checked_rem(b);
    assert(r is None <==> div_traps(a, b));
    assert(r matches Some(q) ==> q == trunc_rem(a as int, b as int));
    r
}

/// The low six bits of a shift count.
fn shift_count(b: i64) -> (count: u32)
    ensures
        count == (b & 63) as u32,
        count < 64,
        count % 64 == count,
{
    let low: i64 = b & 63;
    assert(0 <= low < 64) by (bit_vector)
        requires
            low == b & 63,
    ;
    low as u32
}

/// Applies an integer operation.
pub fn apply_int(op: IntOp, a: i64, b: i64) -> (r: Option<i64>)
    ensures
        r == int_op(op, a, b),
{
    match op {
        IntOp::Add => Some(a.wrapping_add(b)),
        IntOp::Sub => Some(a.wrapping_sub(b)),
        IntOp::Mul => Some(a.wrapping_mul(b)),
        IntOp::Div => divide(a, b),
        IntOp::Mod => remainder(a, b),
        IntOp::Shl => Some(a.wrapping_shl(shift_count(b))),
        IntOp::Shr => Some(a.wrapping_shr(shift_count(b))),
        IntOp::And => Some(a & b),
        IntOp::Or => Some(a | b),
        IntOp::Xor => Some(a ^ b),
    }
}

/// Where division does not trap, the quotient and the remainder fit in 64
/// bits.
pub proof fn lemma_trunc_fits(a: i64, b: i64)
    requires
        !div_traps(a, b),
    ensures
        i64::MIN <= trunc_div(a as int, b as int) <= i64::MAX,
        i64::MIN <= trunc_rem(a as int, b as int) <= i64::MAX,
{
    let x = a as int;
    let d = b as int;
    let ax: int = if x >= 0 {
        x
    } else {
        -x
    };
    let ad: int = if d >= 0 {
        d
    } else {
        -d
    };
    assert(0 <= ax / ad <= ax && 0 <= ax % ad < ad) by (nonlinear_arith)
        requires
            ax >= 0,
            ad > 0,
    ;
    if x == i64::MIN as int && d < 0 {
        assert(ax / ad < ax) by (nonlinear_arith)
            requires
                ax > 0,
                ad > 1,
        ;
    }
}

/// Division rounds towards zero: the quotient times the divisor, plus the
/// remainder, is the dividend; the remainder is smaller in size than the
/// divisor and has the sign of the dividend.
pub proof fn lemma_trunc_div_rem(a: int, b: int)
    requires
        b != 0,
    ensures
        trunc_div(a, b) * b + trunc_rem(a, b) == a,
        a >= 0 ==> 0 <= trunc_rem(a, b),
        a <= 0 ==> trunc_rem(a, b) <= 0,
        b > 0 ==> -b < trunc_rem(a, b) < b,
        b < 0 ==> b < trunc_rem(a, b) < -b,
{
    let x: int = if a >= 0 {
        a
    } else {
        -a
    };
    let d: int = if b >= 0 {
        b
    } else {
        -b
    };
    vstd::arithmetic::div_mod::lemma_fundamental_div_mod(x, d);
    assert(0 <= x % d < d) by (nonlinear_arith)
        requires
            x >= 0,
            d > 0,
    ;
    let q = x / d;
    let r = x % d;
    assert(x == d * q + r);
    if a >= 0 && b > 0 {
        assert(q * b + r == a) by (nonlinear_arith)
            requires
                x == d * q + r,
                x == a,
                d == b,
        ;
    } else if a < 0 && b < 0 {
        assert(q * b + (-r) == a) by (nonlinear_arith)
            requires
                x == d * q + r,
                x == -a,
                d == -b,
        ;
    } else if a < 0 {
        assert((-q) * b + (-r) == a) by (nonlinear_arith)
            requires
                x == d * q + r,
                x == -a,
                d == b,
        ;
    } else {
        assert((-q) * b + r == a) by (nonlinear_arith)
            requires
                x == d * q + r,
                x == a,
                d == -b,
        ;
    }
}

/// Takes the address of the right operand off the parameter stack, leaves
/// that of the left operand on it, and writes the result over the left
/// operand.
pub open spec fn spec_int_op(s: VmState, pc: usize, op: IntOp) -> Stepped {
    if s.params.depth() < 2 {
        Err(PalError::StackUnderFlow)
    } else {
        let rhs = s.params.live()[0];
        let lhs = s.params.live()[1];
        if !s.valid(rhs) || !s.valid(lhs) {
            Err(PalError::BadAddress)
        } else {
            match int_op(op, s.load(lhs).word, s.load(rhs).word) {
                None => Err(PalError::DivideByZero),
                Some(v) => Ok(
                    (
                        (VmState { params: s.params.release(1), ..s }).store(
                            lhs,
                            crate::PalData { word: v },
                        ),
                        pc,
                    ),
                ),
            }
        }
    }
}

fn bin_int_op(code_ptr: usize, vm: &mut Vm, op: IntOp) -> (r: Result<usize, PalError>)
    requires
        old(vm).wf(),
    ensures
        final(vm).wf(),
        agrees(r, final(vm)@, spec_int_op(old(vm)@, code_ptr, op)),
{
    let rhs: usize = unwrap_under(vm.param_stack.pop())?;
    let lhs: usize = match vm.param_stack.peek() {
        Some(at) => *at,
        None => {
            return Err(PalError::StackUnderFlow);
        },
    };
    let b: i64 = match vm.load(rhs) {
        Some(cell) => cell.as_int(),
        None => {
            return Err(PalError::BadAddress);
        },
    };
    let a: i64 = match vm.load(lhs) {
        Some(cell) => cell.as_int(),
        None => {
            return Err(PalError::BadAddress);
        },
    };
    match apply_int(op, a, b) {
        None => Err(PalError::DivideByZero),
        Some(v) => {
            let _ = vm.store(lhs, crate::PalData::from_int(v));
            Ok(code_ptr)
        },
    }
}

pub fn int_add(code_ptr: usize, code: &[Code], vm: &mut Vm) -> (r: Result<usize, PalError>)
    requires
        old(vm).wf(),
    ensures
        final(vm).wf(),
        agrees(r, final(vm)@, spec_int_op(old(vm)@, code_ptr, IntOp::Add)),
{
    bin_int_op(code_ptr, vm, IntOp::Add)
}

pub fn int_sub(code_ptr: usize, code: &[Code], vm: &mut Vm) -> (r: Result<usize, PalError>)
    requires
        old(vm).wf(),
    ensures
        final(vm).wf(),
        agrees(r, final(vm)@, spec_int_op(old(vm)@, code_ptr, IntOp::Sub)),
{
    bin_int_op(code_ptr, vm, IntOp::Sub)
}

pub fn int_mul(code_ptr: usize, code: &[Code], vm: &mut Vm) -> (r: Result<usize, PalError>)
    requires
        old(vm).wf(),
    ensures
        final(vm).wf(),
        agrees(r, final(vm)@, spec_int_op(old(vm)@, code_ptr, IntOp::Mul)),
{
    bin_int_op(code_ptr, vm, IntOp::Mul)
}

pub fn int_div(code_ptr: usize, code: &[Code], vm: &mut Vm) -> (r: Result<usize, PalError>)
    requires
        old(vm).wf(),
    ensures
        final(vm).wf(),
        agrees(r, final(vm)@, spec_int_op(old(vm)@, code_ptr, IntOp::Div)),
{
    bin_int_op(code_ptr, vm, IntOp::Div)
}

pub fn int_mod(code_ptr: usize, code: &[Code], vm: &mut Vm) -> (r: Result<usize, PalError>)
    requires
        old(vm).wf(),
    ensures
        final(vm).wf(),
        agrees(r, final(vm)@, spec_int_op(old(vm)@, code_ptr, IntOp::Mod)),
{
    bin_int_op(code_ptr, vm, IntOp::Mod)
}

pub fn int_shl(code_ptr: usize, code: &[Code], vm: &mut Vm) -> (r: Result<usize, PalError>)
    requires
        old(vm).wf(),
    ensures
        final(vm).wf(),
        agrees(r, final(vm)@, spec_int_op(old(vm)@, code_ptr, IntOp::Shl)),
{
    bin_int_op(code_ptr, vm, IntOp::Shl)
}

pub fn int_shr(code_ptr: usize, code: &[Code], vm: &mut Vm) -> (r: Result<usize, PalError>)
    requires
        old(vm).wf(),
    ensures
        final(vm).wf(),
        agrees(r, final(vm)@, spec_int_op(old(vm)@, code_ptr, IntOp::Shr)),
{
    bin_int_op(code_ptr, vm, IntOp::Shr)
}

pub fn int_and(code_ptr: usize, code: &[Code], vm: &mut Vm) -> (r: Result<usize, PalError>)
    requires
        old(vm).wf(),
    ensures
        final(vm).wf(),
        agrees(r, final(vm)@, spec_int_op(old(vm)@, code_ptr, IntOp::And)),
{
    bin_int_op(code_ptr, vm, IntOp::And)
}

pub fn int_or(code_ptr: usize, code: &[Code], vm: &mut Vm) -> (r: Result<usize, PalError>)
    requires
        old(vm).wf(),
    ensures
        final(vm).wf(),
        agrees(r, final(vm)@, spec_int_op(old(vm)@, code_ptr, IntOp::Or)),
{
    bin_int_op(code_ptr, vm, IntOp::Or)
}

pub fn int_xor(code_ptr: usize, code: &[Code], vm: &mut Vm) -> (r: Result<usize, PalError>)
    requires
        old(vm).wf(),
    ensures
        final(vm).wf(),
        agrees(r, final(vm)@, spec_int_op(old(vm)@, code_ptr, IntOp::Xor)),
{
    bin_int_op(code_ptr, vm, IntOp::Xor)
}

// ───────────── comparisons ───────────────────────────
/// The integer relations.
#[derive(Debug, Clone, Copy)]
pub enum IntRel {
    Eq,
    Neq,
    Smaller,
    Bigger,
    Le,
    Ge,
}

/// Whether the relation holds of two integers.
pub open spec fn int_rel(rel: IntRel, a: i64, b: i64) -> bool {
    match rel {
        IntRel::Eq => a == b,
        IntRel::Neq => a != b,
        IntRel::Smaller => a < b,
        IntRel::Bigger => a > b,
        IntRel::Le => a <= b,
        IntRel::Ge => a >= b,
    }
}

/// Tests a relation.
pub fn apply_rel(rel: IntRel, a: i64, b: i64) -> (r: bool)
    ensures
        r == int_rel(rel, a, b),
{
    match rel {
        IntRel::Eq => a == b,
        IntRel::Neq => a != b,
        IntRel::Smaller => a < b,
        IntRel::Bigger => a > b,
        IntRel::Le => a <= b,
        IntRel::Ge => a >= b,
    }
}

/// Takes the address of the right operand off the parameter stack, leaves
/// that of the left operand on it, and writes the boolean result over the
/// left operand.
pub open spec fn spec_compare(s: VmState, pc: usize, rel: IntRel) -> Stepped {
    if s.params.depth() < 2 {
        Err(PalError::StackUnderFlow)
    } else {
        let rhs = s.params.live()[0];
        let lhs = s.params.live()[1];
        if !s.valid(rhs) || !s.valid(lhs) {
            Err(PalError::BadAddress)
        } else {
            Ok(
                (
                    (VmState { params: s.params.release(1), ..s }).store(
                        lhs,
                        s.load(lhs).spec_with_bool(
                            int_rel(rel, s.load(lhs).word, s.load(rhs).word),
                        ),
                    ),
                    pc,
                ),
            )
        }
    }
}

/// What a comparison does where the two operand addresses are on the
/// parameter stack and are addresses of cells: the right operand's address is
/// taken off, the left operand's stays on top, the boolean of the comparison
/// is written over the left operand, and no other cell changes.
pub proof fn lemma_compare(s: VmState, pc: usize, rel: IntRel)
    requires
        s.wf(),
        s.params.live().len() >= 2,
        s.valid(s.params.live()[0]),
        s.valid(s.params.live()[1]),
    ensures
        spec_compare(s, pc, rel) matches Ok((after, next)) && {
            &&& next == pc
            &&& after.wf()
            &&& after.params.live() == s.params.live().skip(1)
            &&& after.load(s.params.live()[1]) == s.load(s.params.live()[1]).spec_with_bool(
                int_rel(rel, s.load(s.params.live()[1]).word, s.load(s.params.live()[0]).word),
            )
            &&& after.load(s.params.live()[1]).spec_as_bool() == int_rel(
                rel,
                s.load(s.params.live()[1]).word,
                s.load(s.params.live()[0]).word,
            )
            &&& forall|other: usize|
                s.valid(other) && other != s.params.live()[1] ==> #[trigger] after.load(other)
                    == s.load(other)
            &&& after.rets == s.rets
            &&& after.data.head == s.data.head
        },
{
    crate::stack::lemma_depth(s.params, 1);
    let lhs = s.params.live()[1];
    let popped = VmState { params: s.params.release(1), ..s };
    let v = s.load(lhs).spec_with_bool(int_rel(rel, s.load(lhs).word, s.load(s.params.live()[0]).word));
    assert(popped.mem() == s.mem());
    crate::vm::lemma_store(popped, lhs, v);
    crate::lemma_bool_round_trip(
        s.load(lhs),
        int_rel(rel, s.load(lhs).word, s.load(s.params.live()[0]).word),
    );
}

/// What an integer operation does where the two operand addresses are on the
/// parameter stack and are addresses of cells, and the operation does not
/// trap: the right operand's address is taken off, the left operand's stays
/// on top, the result is written over the left operand, and no other cell
/// changes.
pub proof fn lemma_int_op(s: VmState, pc: usize, op: IntOp)
    requires
        s.wf(),
        s.params.live().len() >= 2,
        s.valid(s.params.live()[0]),
        s.valid(s.params.live()[1]),
        int_op(op, s.load(s.params.live()[1]).word, s.load(s.params.live()[0]).word) is Some,
    ensures
        spec_int_op(s, pc, op) matches Ok((after, next)) && {
            &&& next == pc
            &&& after.wf()
            &&& after.params.live() == s.params.live().skip(1)
            &&& Some(after.load(s.params.live()[1]).word) == int_op(
                op,
                s.load(s.params.live()[1]).word,
                s.load(s.params.live()[0]).word,
            )
            &&& forall|other: usize|
                s.valid(other) && other != s.params.live()[1] ==> #[trigger] after.load(other)
                    == s.load(other)
            &&& after.rets == s.rets
            &&& after.data.head == s.data.head
        },
{
    crate::stack::lemma_depth(s.params, 1);
    let lhs = s.params.live()[1];
    let popped = VmState { params: s.params.release(1), ..s };
    let v = int_op(op, s.load(lhs).word, s.load(s.params.live()[0]).word)->Some_0;
    assert(popped.mem() == s.mem());
    crate::vm::lemma_store(popped, lhs, crate::PalData { word: v });
}

fn compare_op(code_ptr: usize, vm: &mut Vm, rel: IntRel) -> (r: Result<usize, PalError>)
    requires
        old(vm).wf(),
    ensures
        final(vm).wf(),
        agrees(r, final(vm)@, spec_compare(old(vm)@, code_ptr, rel)),
{
    let rhs: usize = unwrap_under(vm.param_stack.pop())?;
    let lhs: usize = match vm.param_stack.peek() {
        Some(at) => *at,
        None => {
            return Err(PalError::StackUnderFlow);
        },
    };
    let b: i64 = match vm.load(rhs) {
        Some(cell) => cell.as_int(),
        None => {
            return Err(PalError::BadAddress);
        },
    };
    let into = match vm.load(lhs) {
        Some(cell) => cell,
        None => {
            return Err(PalError::BadAddress);
        },
    };
    let _ = vm.store(lhs, into.with_bool(apply_rel(rel, into.as_int(), b)));
    Ok(code_ptr)
}

pub fn int_eq(code_ptr: usize, code: &[Code], vm: &mut Vm) -> (r: Result<usize, PalError>)
    requires
        old(vm).wf(),
    ensures
        final(vm).wf(),
        agrees(r, final(vm)@, spec_compare(old(vm)@, code_ptr, IntRel::Eq)),
{
    compare_op(code_ptr, vm, IntRel::Eq)
}

pub fn int_neq(code_ptr: usize, code: &[Code], vm: &mut Vm) -> (r: Result<usize, PalError>)
    requires
        old(vm).wf(),
    ensures
        final(vm).wf(),
        agrees(r, final(vm)@, spec_compare(old(vm)@, code_ptr, IntRel::Neq)),
{
    compare_op(code_ptr, vm, IntRel::Neq)
}

pub fn int_smaller(code_ptr: usize, code: &[Code], vm: &mut Vm) -> (r: Result<usize, PalError>)
    requires
        old(vm).wf(),
    ensures
        final(vm).wf(),
        agrees(r, final(vm)@, spec_compare(old(vm)@, code_ptr, IntRel::Smaller)),
{
    compare_op(code_ptr, vm, IntRel::Smaller)
}

pub fn int_bigger(code_ptr: usize, code: &[Code], vm: &mut Vm) -> (r: Result<usize, PalError>)
    requires
        old(vm).wf(),
    ensures
        final(vm).wf(),
        agrees(r, final(vm)@, spec_compare(old(vm)@, code_ptr, IntRel::Bigger)),
{
    compare_op(code_ptr, vm, IntRel::Bigger)
}

pub fn int_le(code_ptr: usize, code: &[Code], vm: &mut Vm) -> (r: Result<usize, PalError>)
    requires
        old(vm).wf(),
    ensures
        final(vm).wf(),
        agrees(r, final(vm)@, spec_compare(old(vm)@, code_ptr, IntRel::Le)),
{
    compare_op(code_ptr, vm, IntRel::Le)
}

pub fn int_ge(code_ptr: usize, code: &[Code], vm: &mut Vm) -> (r: Result<usize, PalError>)
    requires
        old(vm).wf(),
    ensures
        final(vm).wf(),
        agrees(r, final(vm)@, spec_compare(old(vm)@, code_ptr, IntRel::Ge)),
{
    compare_op(code_ptr, vm, IntRel::Ge)
}

// ───────────── boolean logic ─────────────────────────
/// The boolean operations on two operands.
#[derive(Debug, Clone, Copy)]
pub enum BoolOp {
    And,
    Or,
    Xor,
}

/// What the operation gives for two booleans.
pub open spec fn bool_op(op: BoolOp, a: bool, b: bool) -> bool {
    match op {
        BoolOp::And => a && b,
        BoolOp::Or => a || b,
        BoolOp::Xor => a != b,
    }
}

/// Applies a boolean operation.
pub fn apply_bool(op: BoolOp, a: bool, b: bool) -> (r: bool)
    ensures
        r == bool_op(op, a, b),
{
    match op {
        BoolOp::And => a && b,
        BoolOp::Or => a || b,
        BoolOp::Xor => a != b,
    }
}

/// Takes the address of one operand off the parameter stack, leaves that of
/// the other on it, and writes the result over the one that stays.
pub open spec fn spec_bool_op(s: VmState, pc: usize, op: BoolOp) -> Stepped {
    if s.params.depth() < 2 {
        Err(PalError::StackUnderFlow)
    } else {
        let src = s.params.live()[0];
        let dst = s.params.live()[1];
        if !s.valid(src) || !s.valid(dst) {
            Err(PalError::BadAddress)
        } else {
            Ok(
                (
                    (VmState { params: s.params.release(1), ..s }).store(
                        dst,
                        s.load(dst).spec_with_bool(
                            bool_op(op, s.load(src).spec_as_bool(), s.load(dst).spec_as_bool()),
                        ),
                    ),
                    pc,
                ),
            )
        }
    }
}

/// Negates the boolean whose address is on top of the parameter stack.
pub open spec fn spec_bool_not(s: VmState, pc: usize) -> Stepped {
    if s.params.depth() == 0 {
        Err(PalError::StackUnderFlow)
    } else {
        let dst = s.params.live()[0];
        if !s.valid(dst) {
            Err(PalError::BadAddress)
        } else {
            Ok((s.store(dst, s.load(dst).spec_with_bool(!s.load(dst).spec_as_bool())), pc))
        }
    }
}

fn bool_logic(code_ptr: usize, vm: &mut Vm, op: BoolOp) -> (r: Result<usize, PalError>)
    requires
        old(vm).wf(),
    ensures
        final(vm).wf(),
        agrees(r, final(vm)@, spec_bool_op(old(vm)@, code_ptr, op)),
{
    let src: usize = unwrap_under(vm.param_stack.pop())?;
    let dst: usize = match vm.param_stack.peek() {
        Some(at) => *at,
        None => {
            return Err(PalError::StackUnderFlow);
        },
    };
    let a: bool = match vm.load(src) {
        Some(cell) => cell.as_bool(),
        None => {
            return Err(PalError::BadAddress);
        },
    };
    let into = match vm.load(dst) {
        Some(cell) => cell,
        None => {
            return Err(PalError::BadAddress);
        },
    };
    let _ = vm.store(dst, into.with_bool(apply_bool(op, a, into.as_bool())));
    Ok(code_ptr)
}

pub fn bool_and(code_ptr: usize, code: &[Code], vm: &mut Vm) -> (r: Result<usize, PalError>)
    requires
        old(vm).wf(),
    ensures
        final(vm).wf(),
        agrees(r, final(vm)@, spec_bool_op(old(vm)@, code_ptr, BoolOp::And)),
{
    bool_logic(code_ptr, vm, BoolOp::And)
}

pub fn bool_or(code_ptr: usize, code: &[Code], vm: &mut Vm) -> (r: Result<usize, PalError>)
    requires
        old(vm).wf(),
    ensures
        final(vm).wf(),
        agrees(r, final(vm)@, spec_bool_op(old(vm)@, code_ptr, BoolOp::Or)),
{
    bool_logic(code_ptr, vm, BoolOp::Or)
}

pub fn bool_xor(code_ptr: usize, code: &[Code], vm: &mut Vm) -> (r: Result<usize, PalError>)
    requires
        old(vm).wf(),
    ensures
        final(vm).wf(),
        agrees(r, final(vm)@, spec_bool_op(old(vm)@, code_ptr, BoolOp::Xor)),
{
    bool_logic(code_ptr, vm, BoolOp::Xor)
}

pub fn bool_not(code_ptr: usize, code: &[Code], vm: &mut Vm) -> (r: Result<usize, PalError>)
    requires
        old(vm).wf(),
    ensures
        final(vm).wf(),
        agrees(r, final(vm)@, spec_bool_not(old(vm)@, code_ptr)),
{
    let dst: usize = match vm.param_stack.peek() {
        Some(at) => *at,
        None => {
            return Err(PalError::StackUnderFlow);
        },
    };
    let into = match vm.load(dst) {
        Some(cell) => cell,
        None => {
            return Err(PalError::BadAddress);
        },
    };
    let _ = vm.store(dst, into.with_bool(!into.as_bool()));
    Ok(code_ptr)
}

// ───────────── output ────────────────────────────────
/// Puts out a run of the program's literal bytes. The parameter is the
/// address of two cells: the first holds where the run begins, the second how
/// many bytes it has.
pub open spec fn spec_log_bytes(s: VmState, pc: usize, at: usize) -> Stepped {
    if at >= usize::MAX || !s.valid(at) || !s.valid((at + 1) as usize) {
        Err(PalError::BadAddress)
    } else if s.load(at).spec_as_code() + s.load((at + 1) as usize).spec_as_code()
        > s.text.len() {
        Err(PalError::BadAddress)
    } else {
        Ok(
            (
                VmState {
                    output: s.output + s.text.subrange(
                        s.load(at).spec_as_code() as int,
                        s.load(at).spec_as_code() + s.load((at + 1) as usize).spec_as_code(),
                    ),
                    ..s
                },
                pc,
            ),
        )
    }
}

/// Where the first zero byte at or after `from` lies, if there is one.
pub open spec fn zero_at(text: Seq<u8>, from: nat) -> Option<nat>
    decreases text.len() - from,
{
    if from >= text.len() {
        None
    } else if text[from as int] == 0 {
        Some(from)
    } else {
        zero_at(text, from + 1)
    }
}

/// Puts out the text that begins at the place in the program's literal bytes
/// that the parameter gives, and ends before the next zero byte. Bytes
/// without a zero byte after them are no text, and neither are bytes that are
/// not UTF-8.
pub open spec fn spec_const_print(s: VmState, pc: usize, from: usize) -> Stepped {
    match zero_at(s.text, from as nat) {
        None => Err(PalError::BadAddress),
        Some(end) => if !vstd::utf8::valid_utf8(s.text.subrange(from as int, end as int)) {
            Err(PalError::BadText)
        } else {
            Ok((VmState { output: s.output + s.text.subrange(from as int, end as int), ..s }, pc))
        },
    }
}

/// Where the first zero byte at or after `from` lies.
fn find_zero(text: &[u8], from: usize) -> (r: Option<usize>)
    ensures
        match r {
            Some(end) => zero_at(text@, from as nat) == Some(end as nat) && from <= end
                < text@.len(),
            None => zero_at(text@, from as nat) is None,
        },
{
    let mut i: usize = from;
    while i < text.len()
        invariant
            from <= i,
            zero_at(text@, from as nat) == zero_at(text@, i as nat),
        decreases text@.len() - i,
    {
        if text[i] == 0 {
            return Some(i);
        }
        i += 1;
    }
    None
}

/// Puts the bytes of the program's literal bytes from `from` up to `end` at
/// the end of what the machine has put out.
fn put_out(vm: &mut Vm, from: usize, end: usize)
    requires
        old(vm).wf(),
        from <= end <= old(vm)@.text.len(),
    ensures
        final(vm).wf(),
        final(vm)@ == (VmState {
            output: old(vm)@.output + old(vm)@.text.subrange(from as int, end as int),
            ..old(vm)@
        }),
{
    let mut i: usize = from;
    while i < end
        invariant
            from <= i <= end,
            end <= vm@.text.len(),
            vm.wf(),
            vm@ == (VmState {
                output: old(vm)@.output + old(vm)@.text.subrange(from as int, i as int),
                ..old(vm)@
            }),
        decreases end - i,
    {
        let b: u8 = vm.text[i];
        vm.output.push(b);
        i += 1;
        assert(vm@.output =~= old(vm)@.output + old(vm)@.text.subrange(from as int, i as int));
    }
    assert(old(vm)@.output + old(vm)@.text.subrange(from as int, from as int) =~= old(
        vm,
    )@.output);
}

/// Puts out a run of the program's literal bytes. The parameter is the
/// address of two cells: the first holds where the run begins, the second how
/// many bytes it has.
pub fn log_bytes(code_ptr: usize, code: &[Code], vm: &mut Vm) -> (r: Result<usize, PalError>)
    requires
        old(vm).wf(),
        code_ptr < code@.len(),
    ensures
        final(vm).wf(),
        agrees(r, final(vm)@, spec_log_bytes(old(vm)@, code_ptr, code@[code_ptr as int].param)),
{
    let at: usize = param(code_ptr, code);
    if at >= usize::MAX {
        return Err(PalError::BadAddress);
    }
    let from: usize = match vm.load(at) {
        Some(cell) => cell.as_code(),
        None => {
            return Err(PalError::BadAddress);
        },
    };
    let len: usize = match vm.load(at + 1) {
        Some(cell) => cell.as_code(),
        None => {
            return Err(PalError::BadAddress);
        },
    };
    let all: usize = vm.text.len();
    if from > all || len > all - from {
        return Err(PalError::BadAddress);
    }
    put_out(vm, from, from + len);
    Ok(code_ptr)
}

/// Puts out the text that begins at the place in the program's literal bytes
/// that the parameter gives, and ends before the next zero byte.
pub fn const_print(code_ptr: usize, code: &[Code], vm: &mut Vm) -> (r: Result<usize, PalError>)
    requires
        old(vm).wf(),
        code_ptr < code@.len(),
    ensures
        final(vm).wf(),
        agrees(r, final(vm)@, spec_const_print(old(vm)@, code_ptr, code@[code_ptr as int].param)),
{
    let from: usize = param(code_ptr, code);
    let end: usize = match find_zero(vm.text.as_slice(), from) {
        Some(end) => end,
        None => {
            return Err(PalError::BadAddress);
        },
    };
    let valid: bool = crate::lex::utf8_text(
        vstd::slice::slice_subrange(vm.text.as_slice(), from, end),
    ).is_some();
    if !valid {
        return Err(PalError::BadText);
    }
    put_out(vm, from, end);
    Ok(code_ptr)
}

// ───────────── dispatch ──────────────────────────────
/// What the primitive `f` in the cell at `pc` does. `fuel` bounds the nested
/// runs that a dynamic call by host recursion starts.
pub open spec fn spec_dispatch(f: BuildinFunc, code: Seq<Code>, s: VmState, pc: usize, fuel: nat)
    -> Stepped
    decreases fuel, 3nat,
{
    let p = code[pc as int].param;
    match f {
        BuildinFunc::NoOp => spec_no_op(s, pc),
        BuildinFunc::Inject => spec_inject(s, pc, p, true),
        BuildinFunc::InjectNonUnique => spec_inject(s, pc, p, false),
        BuildinFunc::FrameAlloc => spec_frame_alloc(s, pc, p),
        BuildinFunc::FrameFree => spec_frame_free(s, pc, p),
        BuildinFunc::ParamDrop => spec_param_drop(s, pc, p),
        BuildinFunc::PushLocal => spec_push_local(s, pc, p),
        BuildinFunc::PushVar => spec_push_var(s, pc, p),
        BuildinFunc::Pick => spec_pick(s, pc, p),
        BuildinFunc::Branch => spec_branch(s, pc, p),
        BuildinFunc::If => spec_if(s, pc, p),
        BuildinFunc::MaybeBackpatch => spec_maybe_backpatch(s, pc, p),
        BuildinFunc::Jump => spec_jump(s, pc, p),
        BuildinFunc::TailCall => spec_tail_call(code, s),
        BuildinFunc::CallDyn => spec_call_dyn(code, s, pc),
        BuildinFunc::CallDynThreaded => spec_call_dyn_threaded(code, s, fuel),
        BuildinFunc::Ret => spec_ret(s),
        BuildinFunc::IntAdd => spec_int_op(s, pc, IntOp::Add),
        BuildinFunc::IntSub => spec_int_op(s, pc, IntOp::Sub),
        BuildinFunc::IntMul => spec_int_op(s, pc, IntOp::Mul),
        BuildinFunc::IntDiv => spec_int_op(s, pc, IntOp::Div),
        BuildinFunc::IntMod => spec_int_op(s, pc, IntOp::Mod),
        BuildinFunc::IntShl => spec_int_op(s, pc, IntOp::Shl),
        BuildinFunc::IntShr => spec_int_op(s, pc, IntOp::Shr),
        BuildinFunc::IntAnd => spec_int_op(s, pc, IntOp::And),
        BuildinFunc::IntOr => spec_int_op(s, pc, IntOp::Or),
        BuildinFunc::IntXor => spec_int_op(s, pc, IntOp::Xor),
        BuildinFunc::IntEq => spec_compare(s, pc, IntRel::Eq),
        BuildinFunc::IntNeq => spec_compare(s, pc, IntRel::Neq),
        BuildinFunc::IntSmaller => spec_compare(s, pc, IntRel::Smaller),
        BuildinFunc::IntBigger => spec_compare(s, pc, IntRel::Bigger),
        BuildinFunc::IntLe => spec_compare(s, pc, IntRel::Le),
        BuildinFunc::IntGe => spec_compare(s, pc, IntRel::Ge),
        BuildinFunc::BoolAnd => spec_bool_op(s, pc, BoolOp::And),
        BuildinFunc::BoolOr => spec_bool_op(s, pc, BoolOp::Or),
        BuildinFunc::BoolXor => spec_bool_op(s, pc, BoolOp::Xor),
        BuildinFunc::BoolNot => spec_bool_not(s, pc),
        BuildinFunc::LogBytes => spec_log_bytes(s, pc, p),
        BuildinFunc::ConstPrint => spec_const_print(s, pc, p),
    }
}

/// Takes the address of a cell off the parameter stack and runs, by host
/// recursion, the code whose address that cell holds.
pub open spec fn spec_call_dyn_threaded(code: Seq<Code>, s: VmState, fuel: nat) -> Stepped
    decreases fuel, 2nat,
{
    if s.params.depth() == 0 {
        Err(PalError::StackUnderFlow)
    } else if !s.valid(s.params.live()[0]) {
        Err(PalError::BadAddress)
    } else {
        spec_threaded(
            code,
            VmState { params: s.params.release(1), ..s },
            s.load(s.params.live()[0]).spec_as_code(),
            fuel,
        )
    }
}

/// Runs the cell at `pc` by host recursion: a primitive is dispatched; a
/// composite cell has the cells of its word run one after the other until
/// one of them gives the null address. Each level of nesting and each cell of
/// a word takes one unit of `fuel`.
pub open spec fn spec_threaded(code: Seq<Code>, s: VmState, pc: usize, fuel: nat) -> Stepped
    decreases fuel, 1nat,
{
    if fuel == 0 {
        Err(PalError::StepLimit)
    } else if pc == NULL_CODE || pc >= code.len() {
        Err(PalError::BadAddress)
    } else {
        match code[pc as int].f.inner {
            Some(f) => spec_dispatch(f, code, s, pc, (fuel - 1) as nat),
            None => spec_threaded_seq(code, s, code[pc as int].param, (fuel - 1) as nat),
        }
    }
}

/// Runs the cells from `pc` on, one after the other, until one of them gives
/// the null address.
pub open spec fn spec_threaded_seq(code: Seq<Code>, s: VmState, pc: usize, fuel: nat) -> Stepped
    decreases fuel, 0nat,
{
    if fuel == 0 {
        Err(PalError::StepLimit)
    } else {
        match spec_threaded(code, s, pc, (fuel - 1) as nat) {
            Err(e) => Err(e),
            Ok((after, next)) => if next == NULL_CODE {
                Ok((after, NULL_CODE))
            } else {
                spec_threaded_seq(
                    code,
                    after,
                    vstd::wrapping::usize_specs::wrapping_add(next, 1),
                    (fuel - 1) as nat,
                )
            },
        }
    }
}

/// Takes the address of a cell off the parameter stack and runs, by host
/// recursion, the code whose address that cell holds. The code must not use
/// the return stack for control flow.
pub fn call_dyn_threaded(code_ptr: usize, code: &[Code], vm: &mut Vm, fuel: usize) -> (r: Result<
    usize,
    PalError,
>)
    requires
        old(vm).wf(),
    ensures
        final(vm).wf(),
        agrees(r, final(vm)@, spec_call_dyn_threaded(code@, old(vm)@, fuel as nat)),
    decreases fuel, 2nat,
{
    let at: usize = unwrap_under(vm.param_stack.pop())?;
    let target: usize = match vm.load(at) {
        Some(cell) => cell.as_code(),
        None => {
            return Err(PalError::BadAddress);
        },
    };
    vm.execute_threaded(code, target, fuel)
}

/// Runs the primitive `f` of the cell at `code_ptr`.
pub fn dispatch(f: BuildinFunc, code_ptr: usize, code: &[Code], vm: &mut Vm, fuel: usize) -> (r:
    Result<usize, PalError>)
    requires
        old(vm).wf(),
        code_ptr < code@.len(),
    ensures
        final(vm).wf(),
        agrees(r, final(vm)@, spec_dispatch(f, code@, old(vm)@, code_ptr, fuel as nat)),
    decreases fuel, 3nat,
{
    match f {
        BuildinFunc::NoOp => no_op(code_ptr, code, vm),
        BuildinFunc::Inject => inject(code_ptr, code, vm),
        BuildinFunc::InjectNonUnique => inject_non_unique(code_ptr, code, vm),
        BuildinFunc::FrameAlloc => frame_alloc(code_ptr, code, vm),
        BuildinFunc::FrameFree => frame_free(code_ptr, code, vm),
        BuildinFunc::ParamDrop => param_drop(code_ptr, code, vm),
        BuildinFunc::PushLocal => push_local(code_ptr, code, vm),
        BuildinFunc::PushVar => push_var(code_ptr, code, vm),
        BuildinFunc::Pick => pick(code_ptr, code, vm),
        BuildinFunc::Branch => branch(code_ptr, code, vm),
        BuildinFunc::If => _if(code_ptr, code, vm),
        BuildinFunc::MaybeBackpatch => maybe_backpatch(code_ptr, code, vm),
        BuildinFunc::Jump => jump(code_ptr, code, vm),
        BuildinFunc::TailCall => tail_call(code_ptr, code, vm),
        BuildinFunc::CallDyn => call_dyn(code_ptr, code, vm),
        BuildinFunc::CallDynThreaded => call_dyn_threaded(code_ptr, code, vm, fuel),
        BuildinFunc::Ret => ret(code_ptr, code, vm),
        BuildinFunc::IntAdd => int_add(code_ptr, code, vm),
        BuildinFunc::IntSub => int_sub(code_ptr, code, vm),
        BuildinFunc::IntMul => int_mul(code_ptr, code, vm),
        BuildinFunc::IntDiv => int_div(code_ptr, code, vm),
        BuildinFunc::IntMod => int_mod(code_ptr, code, vm),
        BuildinFunc::IntShl => int_shl(code_ptr, code, vm),
        BuildinFunc::IntShr => int_shr(code_ptr, code, vm),
        BuildinFunc::IntAnd => int_and(code_ptr, code, vm),
        BuildinFunc::IntOr => int_or(code_ptr, code, vm),
        BuildinFunc::IntXor => int_xor(code_ptr, code, vm),
        BuildinFunc::IntEq => int_eq(code_ptr, code, vm),
        BuildinFunc::IntNeq => int_neq(code_ptr, code, vm),
        BuildinFunc::IntSmaller => int_smaller(code_ptr, code, vm),
        BuildinFunc::IntBigger => int_bigger(code_ptr, code, vm),
        BuildinFunc::IntLe => int_le(code_ptr, code, vm),
        BuildinFunc::IntGe => int_ge(code_ptr, code, vm),
        BuildinFunc::BoolAnd => bool_and(code_ptr, code, vm),
        BuildinFunc::BoolOr => bool_or(code_ptr, code, vm),
        BuildinFunc::BoolXor => bool_xor(code_ptr, code, vm),
        BuildinFunc::BoolNot => bool_not(code_ptr, code, vm),
        BuildinFunc::LogBytes => log_bytes(code_ptr, code, vm),
        BuildinFunc::ConstPrint => const_print(code_ptr, code, vm),
    }
}

impl BuildinPtr {
    /// Runs the primitive in the slot, which must hold one.
    pub fn call(&self, code_ptr: usize, code: &[Code], vm: &mut Vm, fuel: usize) -> (r: Result<
        usize,
        PalError,
    >)
        requires
            self.inner is Some,
            old(vm).wf(),
            code_ptr < code@.len(),
        ensures
            final(vm).wf(),
            agrees(
                r,
                final(vm)@,
                spec_dispatch(self.inner->Some_0, code@, old(vm)@, code_ptr, fuel as nat),
            ),
    {
        match self.inner {
            Some(f) => dispatch(f, code_ptr, code, vm, fuel),
            None => Err(PalError::BadAddress),
        }
    }
}

} // verus!
