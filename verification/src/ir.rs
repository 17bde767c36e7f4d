//! Words and the context in which one word is compiled: every piece of code
//! that is added is first checked against the signature stack, and a word is
//! stored only when that stack is empty again.
use crate::lex::name_key;
use crate::lex::spec_name_key;
use crate::lex::DelayedSlice;
use crate::lex::DelayedStr;
use crate::lex::Lex;
use crate::lex::LexModel;
use crate::lex::StackAllocator;
use crate::lex::StackAllocatorCheckPoint;
use crate::types::call_fits;
use crate::types::call_sig_model;
use crate::types::SigError;
use crate::types::SigItem;
use crate::types::SigStack;
use crate::types::SigStackEasyMemory;
use crate::vm::spec_run_word;
use crate::vm::Code;
use crate::vm::Vm;
use crate::vm::VmState;
use crate::PalError;
use vstd::prelude::*;
use vstd::string::StringExecFns;
use vstd::string::StringSliceAdditionalSpecFns;

verus! {

/// A piece of code that can be put into a word: either its cells are copied
/// in, or one composite cell that stands for it is. The cells are a run of
/// the code arena.
#[derive(Debug, Clone, Copy)]
pub enum Exe {
    Inlined(DelayedSlice),
    Outlined(DelayedSlice),
}

impl Exe {
    pub open spec fn spec_inner_slice(self) -> DelayedSlice {
        match self {
            Exe::Inlined(s) => s,
            Exe::Outlined(s) => s,
        }
    }

    /// The cells that putting this code into a word adds to the code arena:
    /// a copy of its cells, or one composite cell that stands for them.
    pub open spec fn saved_cells(self, code: Seq<Code>) -> Seq<Code> {
        match self {
            Exe::Inlined(s) => s.of(code),
            Exe::Outlined(s) => seq![
                Code { f: crate::vm::BuildinPtr { inner: None }, param: s.start() },
            ],
        }
    }

    /// The run of cells.
    pub fn inner_slice(&self) -> (s: DelayedSlice)
        ensures
            s == self.spec_inner_slice(),
    {
        match self {
            Exe::Inlined(s) => *s,
            Exe::Outlined(s) => *s,
        }
    }

    /// The composite cell that stands for this code.
    pub fn as_outer(&self) -> (c: Code)
        ensures
            c.f.inner is None,
            c.param == self.spec_inner_slice().start(),
    {
        Code::word(&self.inner_slice())
    }

    /// Puts the code at the end of the code arena.
    pub fn save_to_alloc(&self, alloc: &mut StackAllocator<Code>)
        requires
            old(alloc).wf(),
            *self is Inlined ==> self.spec_inner_slice().within(old(alloc)@.len()),
            old(alloc)@.len() + self.saved_cells(old(alloc)@).len() <= old(alloc).capacity(),
        ensures
            final(alloc).wf(),
            final(alloc).capacity() == old(alloc).capacity(),
            final(alloc)@ == old(alloc)@ + self.saved_cells(old(alloc)@),
    {
        match self {
            Exe::Outlined(slice) => {
                let _ = alloc.save(Code::word(slice));
                assert(alloc@ =~= old(alloc)@ + self.saved_cells(old(alloc)@));
            },
            Exe::Inlined(slice) => {
                let n: usize = slice.count();
                let from: usize = slice.first();
                let total: usize = alloc.len();
                let ghost cells = slice.of(old(alloc)@);
                let mut i: usize = 0;
                while i < n
                    invariant
                        i <= n,
                        n == slice.len(),
                        from == slice.start(),
                        from + n <= total,
                        total == old(alloc)@.len(),
                        total + n <= alloc.capacity(),
                        alloc.capacity() == old(alloc).capacity(),
                        alloc.capacity() <= usize::MAX,
                        cells == slice.of(old(alloc)@),
                        alloc@ == old(alloc)@ + cells.take(i as int),
                    decreases n - i,
                {
                    let c: Code = match alloc.get(from + i) {
                        Some(c) => c.shallow_clone(),
                        None => Code::word_raw(0),
                    };
                    assert(c == cells[i as int]);
                    let _ = alloc.save(c);
                    i += 1;
                    assert(alloc@ =~= old(alloc)@ + cells.take(i as int));
                }
                assert(cells.take(n as int) =~= cells);
            },
        }
    }
}

/// Code with its signature.
#[derive(Debug, Clone)]
pub struct RuntimeCode {
    pub exe: Exe,
    pub input_sig: Vec<SigItem>,
    pub output_sig: Vec<SigItem>,
}

impl RuntimeCode {
    /// Runs the code on a machine.
    pub fn run(&self, vm: &mut Vm, code: &[Code], fuel: usize) -> (r: Result<(), PalError>)
        requires
            old(vm).wf(),
        ensures
            final(vm).wf(),
            match r {
                Ok(_) => spec_run_word(
                    code@,
                    old(vm)@,
                    self.exe.spec_inner_slice().start(),
                    fuel as nat,
                ) == Ok::<VmState, PalError>(final(vm)@),
                Err(e) => spec_run_word(
                    code@,
                    old(vm)@,
                    self.exe.spec_inner_slice().start(),
                    fuel as nat,
                ) == Err::<VmState, PalError>(e),
            },
    {
        vm.execute_word(code, self.exe.inner_slice().first(), fuel)
    }

    /// Puts the code at the end of the code arena.
    pub fn save_to_alloc(&self, alloc: &mut StackAllocator<Code>)
        requires
            old(alloc).wf(),
            self.exe is Inlined ==> self.exe.spec_inner_slice().within(old(alloc)@.len()),
            old(alloc)@.len() + self.exe.saved_cells(old(alloc)@).len() <= old(alloc).capacity(),
        ensures
            final(alloc).wf(),
            final(alloc).capacity() == old(alloc).capacity(),
            final(alloc)@ == old(alloc)@ + self.exe.saved_cells(old(alloc)@),
    {
        self.exe.save_to_alloc(alloc)
    }

    /// Checks a call of this code against a signature stack.
    pub fn check_sig(&self, sig: &mut SigStack) -> (r: Result<(), SigError>)
        requires
            old(sig).wf(),
            call_fits(old(sig)@, self.output_sig@, self.input_sig@),
        ensures
            final(sig).wf(),
            final(sig)@ == call_sig_model(old(sig)@, self.output_sig@, self.input_sig@).0,
            r == call_sig_model(old(sig)@, self.output_sig@, self.input_sig@).1,
            final(sig).stack@.store.len() == old(sig).stack@.store.len(),
            final(sig).borrows_arena.capacity() == old(sig).borrows_arena.capacity(),
            final(sig).var_arena.capacity() == old(sig).var_arena.capacity(),
    {
        sig.call_sig(self.output_sig.as_slice(), self.input_sig.as_slice())
    }

    /// Checks a call of this code against the compile-time signature stack
    /// `sig` and, where the call is accepted, runs the code.
    pub fn comp_run_checked(&self, sig: &mut SigStack, vm: &mut Vm, code: &[Code], fuel: usize) -> (r:
        Result<(), PalError>)
        requires
            old(sig).wf(),
            old(vm).wf(),
            call_fits(old(sig)@, self.output_sig@, self.input_sig@),
        ensures
            final(sig).wf(),
            final(vm).wf(),
            final(sig)@ == call_sig_model(old(sig)@, self.output_sig@, self.input_sig@).0,
            final(sig).stack@.store.len() == old(sig).stack@.store.len(),
            final(sig).borrows_arena.capacity() == old(sig).borrows_arena.capacity(),
            final(sig).var_arena.capacity() == old(sig).var_arena.capacity(),
            r =~= checked_run(
                call_sig_model(old(sig)@, self.output_sig@, self.input_sig@).1,
                spec_run_word(
                    code@,
                    old(vm)@,
                    self.exe.spec_inner_slice().start(),
                    fuel as nat,
                ),
            ),
            match call_sig_model(old(sig)@, self.output_sig@, self.input_sig@).1 {
                Err(_) => final(vm)@ == old(vm)@,
                Ok(_) => match spec_run_word(
                    code@,
                    old(vm)@,
                    self.exe.spec_inner_slice().start(),
                    fuel as nat,
                ) {
                    Ok(after) => final(vm)@ == after,
                    Err(_) => true,
                },
            },
    {
        let ghost checked = call_sig_model(old(sig)@, self.output_sig@, self.input_sig@).1;
        let ghost ran = spec_run_word(
            code@,
            old(vm)@,
            self.exe.spec_inner_slice().start(),
            fuel as nat,
        );
        match self.check_sig(sig) {
            Err(e) => {
                assert(checked == Err::<(), SigError>(e));
                Err(PalError::SigError(e))
            },
            Ok(_) => {
                assert(checked is Ok);
                match self.run(vm, code, fuel) {
                    Ok(_) => {
                        assert(ran is Ok);
                        Ok(())
                    },
                    Err(e) => {
                        assert(ran == Err::<VmState, PalError>(e));
                        Err(e)
                    },
                }
            },
        }
    }
}

/// What a checked run reports: the refusal of the signature checker, or else
/// what the run came to.
pub open spec fn checked_run(checked: Result<(), SigError>, run: Result<VmState, PalError>)
    -> Result<(), PalError> {
    match checked {
        Err(e) => Err(PalError::SigError(e)),
        Ok(_) => match run {
            Ok(_) => Ok(()),
            Err(e) => Err(e),
        },
    }
}

/// A named callable unit: its code, and the code that runs at compile time
/// where it has any.
#[derive(Debug, Clone)]
pub struct Word {
    pub name: DelayedStr,
    pub runtime: RuntimeCode,
    pub immidate: Option<usize>,
}

/// The context in which one word is compiled.
pub struct CompContext {
    /// What the compilation owns.
    pub lex: Lex,
    /// Where the code of the word that is being compiled starts.
    pub start: StackAllocatorCheckPoint,
    /// The signature stack of the word that is being compiled.
    pub stack: SigStack,
    /// The signature stack of the code that runs at compile time.
    pub immidate_stack: SigStack,
}

impl CompContext {
    pub open spec fn wf(&self) -> bool {
        &&& self.lex.wf()
        &&& self.stack.wf()
        &&& self.immidate_stack.wf()
        &&& self.start.mark() <= self.lex@.code.len()
    }

    /// The code of the word that is being compiled.
    pub open spec fn word_code(&self) -> Seq<Code> {
        self.lex@.code.skip(self.start.mark() as int)
    }

    /// A context for a word whose code starts at the end of the code arena.
    pub fn new(lex: Lex, stack: SigStack, immidate_stack: SigStack) -> (c: Self)
        requires
            lex.wf(),
            stack.wf(),
            immidate_stack.wf(),
        ensures
            c.wf(),
            c.lex == lex,
            c.stack == stack,
            c.immidate_stack == immidate_stack,
            c.start.mark() == lex@.code.len(),
    {
        let start = lex.code_mem.check_point();
        CompContext { start, lex, stack, immidate_stack }
    }

    /// Checks a call of `runtime` against the signature stack and, where the
    /// call is accepted, puts the code at the end of the word.
    pub fn add_runtime_code(&mut self, runtime: &RuntimeCode) -> (r: Result<(), SigError>)
        requires
            old(self).wf(),
            call_fits(old(self).stack@, runtime.output_sig@, runtime.input_sig@),
            runtime.exe is Inlined ==> runtime.exe.spec_inner_slice().within(
                old(self).lex@.code.len(),
            ),
            old(self).lex@.code.len() + runtime.exe.saved_cells(old(self).lex@.code).len() <= old(
                self,
            ).lex.code_mem.capacity(),
        ensures
            final(self).wf(),
            final(self).lex.same_limits(&old(self).lex),
            final(self).start == old(self).start,
            final(self).immidate_stack@ == old(self).immidate_stack@,
            final(self).stack@ == call_sig_model(
                old(self).stack@,
                runtime.output_sig@,
                runtime.input_sig@,
            ).0,
            r == call_sig_model(old(self).stack@, runtime.output_sig@, runtime.input_sig@).1,
            final(self).lex@ == (LexModel {
                code: if r is Ok {
                    old(self).lex@.code + runtime.exe.saved_cells(old(self).lex@.code)
                } else {
                    old(self).lex@.code
                },
                ..old(self).lex@
            }),
    {
        match runtime.check_sig(&mut self.stack) {
            Err(e) => {
                return Err(e);
            },
            Ok(_) => {},
        }
        runtime.save_to_alloc(&mut self.lex.code_mem);
        Ok(())
    }

    /// The code of the word, where the signature stack is empty: every
    /// declared effect is accounted for.
    pub fn finalize_code(&self) -> (r: Result<&[Code], ()>)
        requires
            self.wf(),
        ensures
            match r {
                Ok(code) => self.stack@.stack.len() == 0 && code@ == self.word_code(),
                Err(_) => self.stack@.stack.len() != 0,
            },
    {
        if self.stack.stack.is_empty() {
            Ok(self.lex.code_mem.index_checkpoint(self.start))
        } else {
            Err(())
        }
    }

    /// Stores the word under its name, where the signature stack is empty.
    /// A word that was stored under the same name before is no longer found.
    pub fn finalize_and_store_word(
        &mut self,
        name: DelayedStr,
        input_sig: Vec<SigItem>,
        output_sig: Vec<SigItem>,
    ) -> (r: Result<(), ()>)
        requires
            old(self).wf(),
            name.0.within(old(self).lex@.names.len()),
        ensures
            final(self).wf(),
            final(self).lex.same_limits(&old(self).lex),
            final(self).start == old(self).start,
            final(self).stack@ == old(self).stack@,
            final(self).immidate_stack@ == old(self).immidate_stack@,
            match r {
                Ok(_) => {
                    &&& old(self).stack@.stack.len() == 0
                    &&& final(self).lex@ == (LexModel {
                        word_list: old(self).lex@.word_list.push(
                            Word {
                                name,
                                runtime: RuntimeCode {
                                    exe: Exe::Outlined(
                                        DelayedSlice {
                                            start: old(self).start.mark() as usize,
                                            len: (old(self).lex@.code.len() - old(
                                                self,
                                            ).start.mark()) as usize,
                                        },
                                    ),
                                    input_sig,
                                    output_sig,
                                },
                                immidate: None,
                            },
                        ),
                        words: old(self).lex@.words.insert(
                            spec_name_key(name.0.of(old(self).lex@.names)),
                            old(self).lex@.word_list.len() as usize,
                        ),
                        ..old(self).lex@
                    })
                },
                Err(_) => {
                    &&& old(self).stack@.stack.len() != 0
                    &&& final(self).lex@ == old(self).lex@
                },
            },
    {
        if !self.stack.stack.is_empty() {
            return Err(());
        }
        let from: usize = self.start.at();
        let code = DelayedSlice { start: from, len: self.lex.code_mem.len() - from };
        let runtime = RuntimeCode { exe: Exe::Outlined(code), input_sig, output_sig };
        let word = Word { name, runtime, immidate: None };
        let key = match self.lex.comp_data_mem.bytes(&name.0) {
            Some(b) => name_key(b),
            None => Vec::new(),
        };
        let at: usize = self.lex.word_list.len();
        self.lex.word_list.push(word);
        let _ = self.lex.words.insert(key, at);
        Ok(())
    }

    /// Runs the word that is stored under `name` at compile time: the call
    /// is checked against the compile-time signature stack first. A name
    /// under which no word is stored is an error.
    pub fn respond_to_word(&mut self, vm: &mut Vm, name: &str, fuel: usize) -> (r: Result<
        (),
        PalError,
    >)
        requires
            old(self).wf(),
            old(vm).wf(),
            old(self).lex@.stored(name.spec_bytes()) matches Some(word) ==> call_fits(
                old(self).immidate_stack@,
                word.runtime.output_sig@,
                word.runtime.input_sig@,
            ),
        ensures
            final(self).wf(),
            final(vm).wf(),
            final(self).lex@ == old(self).lex@,
            final(self).stack@ == old(self).stack@,
            final(self).start == old(self).start,
            match old(self).lex@.stored(name.spec_bytes()) {
                None => {
                    &&& r matches Err(PalError::Missingword(text))
                    &&& text@ == name@
                    &&& final(vm)@ == old(vm)@
                    &&& final(self).immidate_stack@ == old(self).immidate_stack@
                },
                Some(word) => {
                    &&& final(self).immidate_stack@ == call_sig_model(
                        old(self).immidate_stack@,
                        word.runtime.output_sig@,
                        word.runtime.input_sig@,
                    ).0
                    &&& r =~= checked_run(
                        call_sig_model(
                            old(self).immidate_stack@,
                            word.runtime.output_sig@,
                            word.runtime.input_sig@,
                        ).1,
                        spec_run_word(
                            old(self).lex@.code,
                            old(vm)@,
                            word.runtime.exe.spec_inner_slice().start(),
                            fuel as nat,
                        ),
                    )
                },
            },
    {
        match self.lex.find_word(name.as_bytes()) {
            None => Err(PalError::Missingword(String::from_str(name))),
            Some(word) => word.runtime.comp_run_checked(
                &mut self.immidate_stack,
                vm,
                self.lex.code_mem.as_slice(),
                fuel,
            ),
        }
    }

    /// Discards the code of the word that is being compiled.
    pub fn rollback(&mut self)
        requires
            old(self).wf(),
        ensures
            final(self).wf(),
            final(self).lex.same_limits(&old(self).lex),
            final(self).start == old(self).start,
            final(self).stack@ == old(self).stack@,
            final(self).immidate_stack@ == old(self).immidate_stack@,
            final(self).lex@ == (LexModel {
                code: old(self).lex@.code.take(old(self).start.mark() as int),
                ..old(self).lex@
            }),
            final(self).word_code().len() == 0,
    {
        self.lex.code_mem.goto_checkpoint(self.start);
    }
}

/// Storage for the two signature stacks of a compilation, each of
/// `STACK_SIZE` slots.
pub struct CompEasyMemory<const STACK_SIZE: usize> {
    stack: SigStackEasyMemory<STACK_SIZE>,
    immidate_stack: SigStackEasyMemory<STACK_SIZE>,
}

impl<const STACK_SIZE: usize> Default for CompEasyMemory<STACK_SIZE> {
    fn default() -> (m: Self)
        ensures
            m.slots() == STACK_SIZE,
    {
        CompEasyMemory::new()
    }
}

impl<const STACK_SIZE: usize> CompEasyMemory<STACK_SIZE> {
    /// The slots of each of the two signature stacks.
    pub closed spec fn slots(&self) -> nat {
        self.stack.slots()
    }

    pub fn new() -> (m: Self)
        ensures
            m.slots() == STACK_SIZE,
    {
        CompEasyMemory { stack: SigStackEasyMemory::new(), immidate_stack: SigStackEasyMemory::new() }
    }

    /// A context over this storage for the first word of a compilation.
    pub fn make_comp(self, lex: Lex) -> (c: CompContext)
        requires
            lex.wf(),
        ensures
            c.wf(),
            c.lex == lex,
            c.start.mark() == lex@.code.len(),
            c.stack@.stack.len() == 0,
            c.immidate_stack@.stack.len() == 0,
            c.stack.stack@.capacity() == STACK_SIZE,
            c.immidate_stack.stack@.capacity() == STACK_SIZE,
    {
        CompContext::new(lex, self.stack.make_sig_stack(), self.immidate_stack.make_sig_stack())
    }
}

} // verus!
