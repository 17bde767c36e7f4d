//! The two ways of running a word come to the same: the dispatch loop with
//! its return stack, and host recursion, for a word that is made of
//! primitives which leave the control flow and the return stack alone.
use crate::buildins::spec_dispatch;
use crate::buildins::spec_threaded;
use crate::buildins::spec_threaded_seq;
use crate::stack::StackModel;
use crate::vm::spec_run;
use crate::vm::spec_run_word;
use crate::vm::spec_step;
use crate::vm::BuildinFunc;
use crate::vm::Code;
use crate::vm::Step;
use crate::vm::VmState;
use crate::vm::NULL_CODE;
use crate::PalError;
use vstd::prelude::*;

verus! {

/// The primitives that work on the parameter stack, the data stack and the
/// cells, give their own address, and leave the return stack alone.
pub open spec fn is_plain(f: BuildinFunc) -> bool {
    match f {
        BuildinFunc::Branch => false,
        BuildinFunc::If => false,
        BuildinFunc::MaybeBackpatch => false,
        BuildinFunc::Jump => false,
        BuildinFunc::TailCall => false,
        BuildinFunc::CallDyn => false,
        BuildinFunc::CallDynThreaded => false,
        BuildinFunc::Ret => false,
        _ => true,
    }
}

/// The cells from `start` on are `k` plain primitives and then `ret`.
pub open spec fn plain_word(code: Seq<Code>, start: usize, k: nat) -> bool {
    &&& start != NULL_CODE
    &&& start + k < code.len()
    &&& start + k < usize::MAX
    &&& forall|i: int|
        0 <= i < k ==> (#[trigger] code[start + i]).f.inner is Some && is_plain(
            code[start + i].f.inner->Some_0,
        )
    &&& code[start + k].f.inner == Some(BuildinFunc::Ret)
}

/// What a plain primitive does is the same whatever the return stack holds
/// and whatever fuel there is: it gives its own address and leaves the return
/// stack as it is.
pub proof fn lemma_plain_frame(
    f: BuildinFunc,
    code: Seq<Code>,
    s: VmState,
    rets: StackModel<usize>,
    pc: usize,
    fuel_a: nat,
    fuel_b: nat,
)
    requires
        is_plain(f),
    ensures
        match spec_dispatch(f, code, s, pc, fuel_a) {
            Ok((after, next)) => {
                &&& next == pc
                &&& after.rets == s.rets
                &&& spec_dispatch(f, code, VmState { rets, ..s }, pc, fuel_b) == Ok::<
                    (VmState, usize),
                    PalError,
                >((VmState { rets, ..after }, pc))
            },
            Err(e) => spec_dispatch(f, code, VmState { rets, ..s }, pc, fuel_b) == Err::<
                (VmState, usize),
                PalError,
            >(e),
        },
{
    let t = VmState { rets, ..s };
    assert(t.mem() == s.mem());
}

/// From the cell `pc` on, with `k` plain primitives and then `ret` to go:
/// host recursion on a machine, and the dispatch loop on the same machine
/// with one frame on the return stack, end on the same machine or on the same
/// fault.
pub proof fn lemma_modes_agree_from(
    code: Seq<Code>,
    s: VmState,
    rets: StackModel<usize>,
    pc: usize,
    k: nat,
    fuel_t: nat,
    fuel_r: nat,
)
    requires
        plain_word(code, pc, k),
        rets.depth() == 1,
        fuel_t >= k + 2,
        fuel_r >= k + 1,
    ensures
        match spec_threaded_seq(code, s, pc, fuel_t) {
            Ok((t, next)) => {
                &&& next == NULL_CODE
                &&& t.rets == s.rets
                &&& spec_run(code, VmState { rets, ..s }, pc, fuel_r) == Ok::<VmState, PalError>(
                    VmState { rets: rets.release(1), ..t },
                )
            },
            Err(e) => spec_run(code, VmState { rets, ..s }, pc, fuel_r) == Err::<
                VmState,
                PalError,
            >(e),
        },
    decreases k,
{
    let looped = VmState { rets, ..s };
    if k == 0 {
        assert(code[pc + 0].f.inner == Some(BuildinFunc::Ret));
        assert(spec_threaded(code, s, pc, (fuel_t - 1) as nat) == Ok::<
            (VmState, usize),
            PalError,
        >((s, NULL_CODE)));
        assert(spec_step(code, looped, pc, (fuel_r - 1) as nat) == Step::Done(
            VmState { rets: rets.release(1), ..looped },
        ));
    } else {
        let f = code[pc + 0].f.inner->Some_0;
        assert(is_plain(f));
        lemma_plain_frame(f, code, s, rets, pc, (fuel_t - 2) as nat, (fuel_r - 1) as nat);
        assert(spec_threaded(code, s, pc, (fuel_t - 1) as nat) == spec_dispatch(
            f,
            code,
            s,
            pc,
            (fuel_t - 2) as nat,
        ));
        match spec_dispatch(f, code, s, pc, (fuel_t - 2) as nat) {
            Err(e) => {
                assert(spec_step(code, looped, pc, (fuel_r - 1) as nat) == Step::Fault(e));
            },
            Ok((after, next)) => {
                let on = (pc + 1) as usize;
                assert(spec_step(code, looped, pc, (fuel_r - 1) as nat) == Step::Continue(
                    VmState { rets, ..after },
                    on,
                ));
                assert(plain_word(code, on, (k - 1) as nat)) by {
                    assert forall|i: int| 0 <= i < k - 1 implies (#[trigger] code[on + i]).f.inner is Some
                        && is_plain(code[on + i].f.inner->Some_0) by {
                        assert(code[on + i] == code[pc + (i + 1)]);
                    }
                    assert(code[on + (k - 1)] == code[pc + k]);
                }
                lemma_modes_agree_from(
                    code,
                    after,
                    rets,
                    on,
                    (k - 1) as nat,
                    (fuel_t - 1) as nat,
                    (fuel_r - 1) as nat,
                );
                assert(spec_threaded_seq(code, s, pc, fuel_t) == spec_threaded_seq(
                    code,
                    after,
                    on,
                    (fuel_t - 1) as nat,
                ));
                assert(spec_run(code, looped, pc, fuel_r) == spec_run(
                    code,
                    VmState { rets, ..after },
                    on,
                    (fuel_r - 1) as nat,
                ));
            },
        }
    }
}

/// The two modes agree. A word of `k` plain primitives and `ret`, run on a
/// machine whose return stack is empty: the dispatch loop ends on the machine
/// that host recursion ends on, with the return stack empty again, or both
/// end on the same fault. This holds with any fuel that lets both reach the
/// end of the word.
pub proof fn lemma_modes_agree(
    code: Seq<Code>,
    s: VmState,
    start: usize,
    k: nat,
    fuel_t: nat,
    fuel_r: nat,
)
    requires
        s.wf(),
        s.rets.depth() == 0,
        s.rets.room() > 0,
        plain_word(code, start, k),
        fuel_t >= k + 2,
        fuel_r >= k + 1,
    ensures
        match spec_threaded_seq(code, s, start, fuel_t) {
            Ok((t, next)) => {
                &&& next == NULL_CODE
                &&& spec_run_word(code, s, start, fuel_r) == Ok::<VmState, PalError>(
                    VmState { rets: s.rets.push(NULL_CODE).release(1), ..t },
                )
                &&& s.rets.push(NULL_CODE).release(1).depth() == 0
            },
            Err(e) => spec_run_word(code, s, start, fuel_r) == Err::<VmState, PalError>(e),
        },
{
    lemma_modes_agree_from(code, s, s.rets.push(NULL_CODE), start, k, fuel_t, fuel_r);
}

} // verus!
