//! Code cells, the machine's three stacks and its memory, and the dispatch
//! loop that runs threaded code without host recursion.
use crate::buildins::agrees;
use crate::buildins::dispatch;
use crate::buildins::spec_dispatch;
use crate::buildins::spec_threaded;
use crate::buildins::spec_threaded_seq;
use crate::stack::make_storage;
use crate::stack::StackModel;
use crate::stack::StackRef;
use crate::PalData;
use crate::PalError;
use vstd::prelude::*;

verus! {

/// The primitives of the machine.
#[derive(Debug, Clone, Copy, PartialEq, Eq, Structural)]
pub enum BuildinFunc {
    NoOp,
    Inject,
    InjectNonUnique,
    FrameAlloc,
    FrameFree,
    ParamDrop,
    PushLocal,
    PushVar,
    Pick,
    Branch,
    If,
    MaybeBackpatch,
    Jump,
    TailCall,
    CallDyn,
    CallDynThreaded,
    Ret,
    IntAdd,
    IntSub,
    IntMul,
    IntDiv,
    IntMod,
    IntShl,
    IntShr,
    IntAnd,
    IntOr,
    IntXor,
    IntEq,
    IntNeq,
    IntSmaller,
    IntBigger,
    IntLe,
    IntGe,
    BoolAnd,
    BoolOr,
    BoolXor,
    BoolNot,
    LogBytes,
    ConstPrint,
}

/// The function slot of a code cell: a primitive, or nothing for a composite
/// cell.
#[derive(Debug, Clone, Copy, PartialEq, Eq, Structural)]
pub struct BuildinPtr {
    pub inner: Option<BuildinFunc>,
}

impl BuildinPtr {
    pub fn new(f: BuildinFunc) -> (p: Self)
        ensures
            p.inner == Some(f),
    {
        BuildinPtr { inner: Some(f) }
    }

    pub fn empty() -> (p: Self)
        ensures
            p.inner is None,
    {
        BuildinPtr { inner: None }
    }

    /// The primitive in the slot.
    pub fn load(&self) -> (f: Option<BuildinFunc>)
        ensures
            f == self.inner,
    {
        self.inner
    }
}

/// The address that no code cell has: a primitive that returns it has ended
/// the current word.
pub const NULL_CODE: usize = 0;

/// One cell of code. A primitive cell holds its function and a parameter: an
/// immediate value, a jump offset or a code address. A composite cell holds
/// no function, and its parameter is the address of the first cell of the
/// word it stands for.
#[derive(Debug, Clone, Copy, PartialEq, Eq, Structural)]
pub struct Code {
    pub f: BuildinPtr,
    pub param: usize,
}

impl Code {
    /// A primitive cell with an immediate value or an offset as parameter. A
    /// negative value is kept as the word that wraps to it.
    pub fn basic(f: BuildinFunc, v: isize) -> (c: Self)
        ensures
            c.f.inner == Some(f),
            c.param == v as usize,
            v >= 0 ==> c.param == v,
    {
        Code {
            f: BuildinPtr::new(f),
            param: #[verifier::truncate]
            (v as usize),
        }
    }

    /// A primitive cell with a code address as parameter.
    pub fn basic_raw(f: BuildinFunc, p: usize) -> (c: Self)
        ensures
            c.f.inner == Some(f),
            c.param == p,
    {
        Code { f: BuildinPtr::new(f), param: p }
    }

    /// A composite cell for the word whose cells are the run `c`.
    pub fn word(c: &crate::lex::DelayedSlice) -> (cell: Self)
        ensures
            cell.f.inner is None,
            cell.param == c.start(),
    {
        Code { f: BuildinPtr::empty(), param: c.first() }
    }

    /// A composite cell for the word whose first cell is at `param`.
    pub fn word_raw(param: usize) -> (c: Self)
        ensures
            c.f.inner is None,
            c.param == param,
    {
        Code { f: BuildinPtr::empty(), param }
    }

    /// Neither a function nor a parameter.
    pub fn is_null(&self) -> (b: bool)
        ensures
            b == (self.f.inner is None && self.param == NULL_CODE),
    {
        self.f.load().is_none() && self.param == NULL_CODE
    }

    /// A cell with the same function and the same parameter.
    pub fn shallow_clone(&self) -> (c: Self)
        ensures
            c == *self,
    {
        match self.f.load() {
            Some(f) => Code::basic_raw(f, self.param),
            None => Code::word_raw(self.param),
        }
    }
}

/// The mathematical model of a machine: its three stacks and the cells that
/// lie outside the data stack. A cell address below the data stack's capacity
/// is a slot of the data stack's storage; the addresses from there on are the
/// outside cells, in order. Besides these the machine holds the literal
/// bytes of the program and the bytes that the program has put out.
pub struct VmState {
    pub params: StackModel<usize>,
    pub data: StackModel<PalData>,
    pub rets: StackModel<usize>,
    pub heap: Seq<PalData>,
    pub text: Seq<u8>,
    pub output: Seq<u8>,
}

impl VmState {
    pub open spec fn wf(self) -> bool {
        &&& self.params.wf()
        &&& self.data.wf()
        &&& self.rets.wf()
        &&& self.params.capacity() <= usize::MAX
        &&& self.rets.capacity() <= usize::MAX
        &&& self.data.store.len() + self.heap.len() <= usize::MAX
    }

    /// All cells by address.
    pub open spec fn mem(self) -> Seq<PalData> {
        self.data.store + self.heap
    }

    /// The address is that of a cell.
    pub open spec fn valid(self, at: usize) -> bool {
        at < self.data.store.len() + self.heap.len()
    }

    /// The cell at an address.
    pub open spec fn load(self, at: usize) -> PalData {
        self.mem()[at as int]
    }

    /// The machine with all cells replaced by `m`.
    pub open spec fn with_mem(self, m: Seq<PalData>) -> VmState {
        VmState {
            data: StackModel { store: m.take(self.data.store.len() as int), head: self.data.head },
            heap: m.skip(self.data.store.len() as int),
            ..self
        }
    }

    /// The machine with one cell overwritten.
    pub open spec fn store(self, at: usize, v: PalData) -> VmState {
        self.with_mem(self.mem().update(at as int, v))
    }
}

/// Replacing all cells by a sequence of the same length makes that sequence
/// the machine's memory and changes nothing else.
pub proof fn lemma_with_mem(s: VmState, m: Seq<PalData>)
    requires
        m.len() == s.mem().len(),
    ensures
        s.with_mem(m).mem() == m,
        s.with_mem(m).params == s.params,
        s.with_mem(m).rets == s.rets,
        s.with_mem(m).data.head == s.data.head,
        s.with_mem(m).data.store.len() == s.data.store.len(),
        s.with_mem(m).heap.len() == s.heap.len(),
        s.with_mem(m).text == s.text,
        s.with_mem(m).output == s.output,
        s.with_mem(s.mem()) == s,
        s.wf() ==> s.with_mem(m).wf(),
{
    assert(s.with_mem(m).mem() =~= m);
    assert(s.mem().take(s.data.store.len() as int) =~= s.data.store);
    assert(s.mem().skip(s.data.store.len() as int) =~= s.heap);
}

/// Overwriting a cell changes that cell and nothing else.
pub proof fn lemma_store(s: VmState, at: usize, v: PalData)
    requires
        s.valid(at),
    ensures
        s.store(at, v).mem() == s.mem().update(at as int, v),
        s.store(at, v).load(at) == v,
        forall|other: usize|
            s.valid(other) && other != at ==> #[trigger] s.store(at, v).load(other) == s.load(
                other,
            ),
        forall|other: usize| #[trigger] s.store(at, v).valid(other) == s.valid(other),
        s.store(at, v).params == s.params,
        s.store(at, v).rets == s.rets,
        s.store(at, v).data.head == s.data.head,
        s.store(at, v).text == s.text,
        s.store(at, v).output == s.output,
        s.wf() ==> s.store(at, v).wf(),
{
    lemma_with_mem(s, s.mem().update(at as int, v));
}

/// Two machines that differ in their cells alone: the second is the first
/// with the second's memory.
pub proof fn lemma_same_but_mem(s: VmState, t: VmState)
    requires
        t.params == s.params,
        t.rets == s.rets,
        t.data.head == s.data.head,
        t.data.store.len() == s.data.store.len(),
        t.text == s.text,
        t.output == s.output,
    ensures
        t == s.with_mem(t.mem()),
{
    assert(t.mem().take(s.data.store.len() as int) =~= t.data.store);
    assert(t.mem().skip(s.data.store.len() as int) =~= t.heap);
}

/// The machine: three stacks, and the cells outside the data stack that
/// addresses may refer to.
pub struct Vm {
    /// Addresses of values, passed between words.
    pub param_stack: StackRef<usize>,
    /// The storage of the current frames.
    pub data_stack: StackRef<PalData>,
    /// Resume addresses of the composite words that are being run.
    pub return_stack: StackRef<usize>,
    /// Cells outside the data stack.
    pub heap: Vec<PalData>,
    /// The literal bytes of the program, which the output primitives read.
    pub text: Vec<u8>,
    /// What the program has put out and the caller has not yet taken.
    pub output: Vec<u8>,
}

impl View for Vm {
    type V = VmState;

    open spec fn view(&self) -> VmState {
        VmState {
            params: self.param_stack@,
            data: self.data_stack@,
            rets: self.return_stack@,
            heap: self.heap@,
            text: self.text@,
            output: self.output@,
        }
    }
}

impl Vm {
    pub open spec fn wf(&self) -> bool {
        self@.wf()
    }

    /// Adds a cell outside the data stack and gives its address, or nothing
    /// where no address is left for it.
    pub fn heap_cell(&mut self, v: PalData) -> (r: Option<usize>)
        requires
            old(self).wf(),
        ensures
            final(self).wf(),
            match r {
                Some(at) => {
                    &&& at == old(self)@.mem().len()
                    &&& final(self)@ == (VmState { heap: old(self)@.heap.push(v), ..old(self)@ })
                    &&& final(self)@.load(at) == v
                },
                None => old(self)@.mem().len() >= usize::MAX && final(self)@ == old(self)@,
            },
    {
        let cap: usize = self.data_stack.max_len();
        let len: usize = self.heap.len();
        if len >= usize::MAX - cap {
            return None;
        }
        self.heap.push(v);
        assert(self@.mem() =~= old(self)@.mem().push(v));
        Some(cap + len)
    }

    /// The number of cells that have an address.
    pub fn mem_len(&self) -> (n: usize)
        requires
            self.wf(),
        ensures
            n == self@.mem().len(),
    {
        self.data_stack.max_len() + self.heap.len()
    }

    /// The cell at an address, or nothing where the address is that of no
    /// cell.
    pub fn load(&self, at: usize) -> (r: Option<PalData>)
        requires
            self.wf(),
        ensures
            match r {
                Some(v) => self@.valid(at) && v == self@.load(at),
                None => !self@.valid(at),
            },
    {
        match self.data_stack.read_slot(at) {
            Some(v) => Some(v),
            None => {
                let cap: usize = self.data_stack.max_len();
                if at - cap < self.heap.len() {
                    Some(self.heap[at - cap])
                } else {
                    None
                }
            },
        }
    }

    /// Overwrites the cell at an address. Nothing changes where the address
    /// is that of no cell.
    pub fn store(&mut self, at: usize, v: PalData) -> (r: Option<()>)
        requires
            old(self).wf(),
        ensures
            final(self).wf(),
            final(self)@.params == old(self)@.params,
            final(self)@.rets == old(self)@.rets,
            final(self)@.data.head == old(self)@.data.head,
            final(self)@.mem().len() == old(self)@.mem().len(),
            final(self)@.data.store.len() == old(self)@.data.store.len(),
            final(self)@.text == old(self)@.text,
            final(self)@.output == old(self)@.output,
            match r {
                Some(_) => {
                    &&& old(self)@.valid(at)
                    &&& final(self)@ == old(self)@.store(at, v)
                    &&& final(self)@.mem() == old(self)@.mem().update(at as int, v)
                },
                None => !old(self)@.valid(at) && final(self)@ == old(self)@,
            },
    {
        match self.data_stack.write_slot(at, v) {
            Some(_) => {
                proof {
                    lemma_with_mem(old(self)@, old(self)@.mem().update(at as int, v));
                }
                assert(self@.data.store =~= old(self)@.store(at, v).data.store);
                assert(self@.heap =~= old(self)@.store(at, v).heap);
                assert(self@.mem() =~= old(self)@.mem().update(at as int, v));
                Some(())
            },
            None => {
                let cap: usize = self.data_stack.max_len();
                if at - cap < self.heap.len() {
                    proof {
                        lemma_with_mem(old(self)@, old(self)@.mem().update(at as int, v));
                    }
                    self.heap.set(at - cap, v);
                    assert(self@.data.store =~= old(self)@.store(at, v).data.store);
                    assert(self@.heap =~= old(self)@.store(at, v).heap);
                    assert(self@.mem() =~= old(self)@.mem().update(at as int, v));
                    Some(())
                } else {
                    None
                }
            },
        }
    }
}

/// What one step of the dispatch loop comes to.
pub enum Step {
    /// The loop goes on at this address.
    Continue(VmState, usize),
    /// The outermost word ended.
    Done(VmState),
    /// A fault stopped the machine.
    Fault(PalError),
}

/// One step of the dispatch loop at the cell `pc`. A composite cell has its
/// address pushed onto the return stack, and the loop goes on at the first
/// cell of its word. A primitive is run. Where it gives an address, the loop
/// goes on at the cell after that one. Where it gives the null address, the
/// current word has ended: with only the outermost frame on the return stack
/// the run is done, and else the loop goes on after the cell that the return
/// stack gives back.
pub open spec fn spec_step(code: Seq<Code>, s: VmState, pc: usize, fuel: nat) -> Step {
    if pc == NULL_CODE || pc >= code.len() {
        Step::Fault(PalError::BadAddress)
    } else {
        match code[pc as int].f.inner {
            None => if s.rets.room() == 0 {
                Step::Fault(PalError::StackOverFlow)
            } else {
                Step::Continue(VmState { rets: s.rets.push(pc), ..s }, code[pc as int].param)
            },
            Some(f) => match spec_dispatch(f, code, s, pc, fuel) {
                Err(e) => Step::Fault(e),
                Ok((after, next)) => if next != NULL_CODE {
                    Step::Continue(after, vstd::wrapping::usize_specs::wrapping_add(next, 1))
                } else if after.rets.depth() == 0 {
                    Step::Fault(PalError::StackUnderFlow)
                } else if after.rets.depth() == 1 {
                    Step::Done(VmState { rets: after.rets.release(1), ..after })
                } else {
                    Step::Continue(
                        VmState { rets: after.rets.release(1), ..after },
                        vstd::wrapping::usize_specs::wrapping_add(after.rets.live()[0], 1),
                    )
                },
            },
        }
    }
}

/// The machine after the code was run from `pc` until the outermost word
/// ended, in at most `fuel` steps.
pub open spec fn spec_run(code: Seq<Code>, s: VmState, pc: usize, fuel: nat) -> Result<
    VmState,
    PalError,
>
    decreases fuel,
{
    if fuel == 0 {
        Err(PalError::StepLimit)
    } else {
        match spec_step(code, s, pc, (fuel - 1) as nat) {
            Step::Fault(e) => Err(e),
            Step::Done(after) => Ok(after),
            Step::Continue(after, next) => spec_run(code, after, next, (fuel - 1) as nat),
        }
    }
}

/// The machine after the word whose first cell is at `start` was run from an
/// outermost frame of its own.
pub open spec fn spec_run_word(code: Seq<Code>, s: VmState, start: usize, fuel: nat) -> Result<
    VmState,
    PalError,
> {
    if s.rets.room() == 0 {
        Err(PalError::StackOverFlow)
    } else {
        spec_run(code, VmState { rets: s.rets.push(NULL_CODE), ..s }, start, fuel)
    }
}

/// Nested dispatch. The loop is at a composite cell `call` whose word begins
/// with a primitive, followed by `ret`, and the primitive leaves the return
/// stack alone and gives its own address. Then, at whatever depth of nesting
/// the call is made, three steps later the primitive has run once, the
/// return stack holds the frames that it held, and the loop is at the cell
/// after `call`.
pub proof fn lemma_nested_call(
    code: Seq<Code>,
    s: VmState,
    call: usize,
    f: crate::vm::BuildinFunc,
    after: VmState,
    fuel: nat,
)
    requires
        s.wf(),
        s.rets.room() > 0,
        s.rets.depth() >= 1,
        call != NULL_CODE,
        call < code.len(),
        call < usize::MAX,
        code[call as int].f.inner is None,
        code[call as int].param != NULL_CODE,
        code[call as int].param + 1 < code.len(),
        code[call as int].param < usize::MAX,
        code[code[call as int].param as int].f.inner == Some(f),
        code[code[call as int].param + 1].f.inner == Some(crate::vm::BuildinFunc::Ret),
        spec_dispatch(
            f,
            code,
            VmState { rets: s.rets.push(call), ..s },
            code[call as int].param,
            fuel + 1,
        ) == Ok::<(VmState, usize), PalError>((after, code[call as int].param)),
        after.rets == s.rets.push(call),
    ensures
        spec_run(code, s, call, fuel + 3) == spec_run(
            code,
            VmState { rets: s.rets.push(call).release(1), ..after },
            (call + 1) as usize,
            fuel,
        ),
        s.rets.push(call).release(1).live() == s.rets.live(),
        s.rets.push(call).release(1).head == s.rets.head,
{
    let word = code[call as int].param;
    let pushed = VmState { rets: s.rets.push(call), ..s };
    assert(spec_step(code, s, call, fuel + 2) == Step::Continue(pushed, word));
    assert(spec_step(code, pushed, word, fuel + 1) == Step::Continue(after, (word + 1) as usize));
    assert(after.rets.live()[0] == call);
    assert(after.rets.depth() >= 2);
    assert(spec_step(code, after, (word + 1) as usize, fuel) == Step::Continue(
        VmState { rets: after.rets.release(1), ..after },
        (call + 1) as usize,
    ));
    assert(spec_run(code, s, call, fuel + 3) == spec_run(code, pushed, word, fuel + 2));
    assert(spec_run(code, pushed, word, fuel + 2) == spec_run(
        code,
        after,
        (word + 1) as usize,
        fuel + 1,
    ));
    assert(s.rets.push(call).release(1).live() =~= s.rets.live());
}

impl Vm {
    /// One step of the dispatch loop: the address at which the loop goes on,
    /// or nothing when the outermost word ended.
    pub fn step(&mut self, code: &[Code], pc: usize, fuel: usize) -> (r: Result<
        Option<usize>,
        PalError,
    >)
        requires
            old(self).wf(),
        ensures
            final(self).wf(),
            match r {
                Ok(Some(next)) => spec_step(code@, old(self)@, pc, fuel as nat) == Step::Continue(
                    final(self)@,
                    next,
                ),
                Ok(None) => spec_step(code@, old(self)@, pc, fuel as nat) == Step::Done(
                    final(self)@,
                ),
                Err(e) => spec_step(code@, old(self)@, pc, fuel as nat) == Step::Fault(e),
            },
    {
        if pc == NULL_CODE || pc >= code.len() {
            return Err(PalError::BadAddress);
        }
        match code[pc].f.load() {
            None => {
                match self.return_stack.push(pc) {
                    Ok(_) => Ok(Some(code[pc].param)),
                    Err(_) => Err(PalError::StackOverFlow),
                }
            },
            Some(f) => {
                let next: usize = dispatch(f, pc, code, self, fuel)?;
                if next != NULL_CODE {
                    return Ok(Some(next.wrapping_add(1)));
                }
                let depth: usize = self.return_stack.len();
                match self.return_stack.pop() {
                    None => Err(PalError::StackUnderFlow),
                    Some(resume) => {
                        if depth <= 1 {
                            Ok(None)
                        } else {
                            Ok(Some(resume.wrapping_add(1)))
                        }
                    },
                }
            },
        }
    }

    /// Runs the code from `code` on until the outermost word ends, without
    /// host recursion: entering a composite word costs one push onto the
    /// return stack and leaving it one pop. Gives up after `fuel` steps.
    pub fn execute_code(&mut self, code: &[Code], entry: usize, fuel: usize) -> (r: Result<
        (),
        PalError,
    >)
        requires
            old(self).wf(),
        ensures
            final(self).wf(),
            match r {
                Ok(_) => spec_run(code@, old(self)@, entry, fuel as nat) == Ok::<
                    VmState,
                    PalError,
                >(final(self)@),
                Err(e) => spec_run(code@, old(self)@, entry, fuel as nat) == Err::<
                    VmState,
                    PalError,
                >(e),
            },
    {
        let mut pc: usize = entry;
        let mut left: usize = fuel;
        while left > 0
            invariant
                self.wf(),
                spec_run(code@, old(self)@, entry, fuel as nat) == spec_run(
                    code@,
                    self@,
                    pc,
                    left as nat,
                ),
            decreases left,
        {
            left -= 1;
            match self.step(code, pc, left) {
                Err(e) => {
                    return Err(e);
                },
                Ok(None) => {
                    return Ok(());
                },
                Ok(Some(next)) => {
                    pc = next;
                },
            }
        }
        Err(PalError::StepLimit)
    }

    /// Runs the word whose first cell is at `start`, as a composite cell for
    /// it would be run: the outermost frame goes onto the return stack, and
    /// the run is done when the word's last cell has given the null address.
    pub fn execute_word(&mut self, code: &[Code], start: usize, fuel: usize) -> (r: Result<
        (),
        PalError,
    >)
        requires
            old(self).wf(),
        ensures
            final(self).wf(),
            match r {
                Ok(_) => spec_run_word(code@, old(self)@, start, fuel as nat) == Ok::<
                    VmState,
                    PalError,
                >(final(self)@),
                Err(e) => spec_run_word(code@, old(self)@, start, fuel as nat) == Err::<
                    VmState,
                    PalError,
                >(e),
            },
    {
        match self.return_stack.push(NULL_CODE) {
            Ok(_) => self.execute_code(code, start, fuel),
            Err(_) => Err(PalError::StackOverFlow),
        }
    }

    /// Runs the cell at `code_ptr` by host recursion and gives the address
    /// that the last primitive gave. The code must not use the return stack
    /// for control flow. Gives up when `fuel` runs out.
    pub fn execute_threaded(&mut self, code: &[Code], code_ptr: usize, fuel: usize) -> (r: Result<
        usize,
        PalError,
    >)
        requires
            old(self).wf(),
        ensures
            final(self).wf(),
            agrees(r, final(self)@, spec_threaded(code@, old(self)@, code_ptr, fuel as nat)),
        decreases fuel, 1nat,
    {
        if fuel == 0 {
            return Err(PalError::StepLimit);
        }
        if code_ptr == NULL_CODE || code_ptr >= code.len() {
            return Err(PalError::BadAddress);
        }
        match code[code_ptr].f.load() {
            Some(f) => dispatch(f, code_ptr, code, self, fuel - 1),
            None => {
                let mut at: usize = code[code_ptr].param;
                let mut left: usize = fuel - 1;
                loop
                    invariant
                        self.wf(),
                        left < fuel,
                        spec_threaded(code@, old(self)@, code_ptr, fuel as nat)
                            == spec_threaded_seq(code@, self@, at, left as nat),
                    decreases left,
                {
                    if left == 0 {
                        return Err(PalError::StepLimit);
                    }
                    left -= 1;
                    let next: usize = self.execute_threaded(code, at, left)?;
                    if next == NULL_CODE {
                        return Ok(NULL_CODE);
                    }
                    at = next.wrapping_add(1);
                }
            },
        }
    }
}

/// Storage for a machine: three stacks of `STACK_SIZE` slots each.
pub struct VmEasyMemory<const STACK_SIZE: usize> {
    param: Vec<usize>,
    data: Vec<PalData>,
    rs: Vec<usize>,
}

impl<const STACK_SIZE: usize> Default for VmEasyMemory<STACK_SIZE> {
    fn default() -> (m: Self)
        ensures
            m.slots() == STACK_SIZE,
    {
        VmEasyMemory::new()
    }
}

impl<const STACK_SIZE: usize> VmEasyMemory<STACK_SIZE> {
    #[verifier::type_invariant]
    spec fn sized(self) -> bool {
        &&& self.param@.len() == STACK_SIZE
        &&& self.data@.len() == STACK_SIZE
        &&& self.rs@.len() == STACK_SIZE
    }

    /// The slots of each of the three stacks.
    pub closed spec fn slots(&self) -> nat {
        self.data@.len()
    }

    pub fn new() -> (m: Self)
        ensures
            m.slots() == STACK_SIZE,
    {
        VmEasyMemory {
            param: make_storage(STACK_SIZE, 0usize),
            data: make_storage(STACK_SIZE, PalData { word: 0 }),
            rs: make_storage(STACK_SIZE, 0usize),
        }
    }

    /// A machine over this storage, with empty stacks and no outside cell.
    pub fn make_vm(self) -> (vm: Vm)
        ensures
            vm.wf(),
            vm@.params.depth() == 0,
            vm@.data.depth() == 0,
            vm@.rets.depth() == 0,
            vm@.heap.len() == 0,
            vm@.text.len() == 0,
            vm@.output.len() == 0,
            vm@.params.capacity() == STACK_SIZE,
            vm@.data.capacity() == STACK_SIZE,
            vm@.rets.capacity() == STACK_SIZE,
    {
        proof {
            use_type_invariant(&self);
        }
        let vm = Vm {
            param_stack: StackRef::from_slice(self.param),
            data_stack: StackRef::from_slice(self.data),
            return_stack: StackRef::from_slice(self.rs),
            heap: Vec::new(),
            text: Vec::new(),
            output: Vec::new(),
        };
        vm
    }
}

} // verus!
