//! The processor: the register file, the program counter and the
//! fetch-execute cycle.

pub mod logic;

use crate::bytes::{lemma_word_of_bytes, read_u32_le, word_of, words_le, write_u32_into_le};
use crate::constants::{REGISTER_COUNT, WORD_BYTES};
use crate::instruction::{i_word, lemma_i_word_fields, Address, Immediate, OpCode, Word};
use crate::register::{file_wf, index_of, Register, RegisterFile, RegisterId};
use crate::storage::{Image, Storage};
use logic::{effect_of, outcome, TickResult};
use vstd::prelude::*;
use vstd::slice::slice_subrange;

verus! {

/// Why a processor stopped.
#[derive(PartialEq, Eq, Debug, Clone, Copy)]
pub enum ExitCode {
    /// A halt instruction was executed: the normal way to stop.
    Halted,
    /// The reason is not known.
    Unknown,
    /// A stop was requested from outside.
    Terminated,
    /// An integer division by zero was attempted.
    DivisionByZero,
    /// A load or a store reached outside the storage.
    BadMemoryAccess,
    /// The target of a jump was not on a word boundary.
    BadAlignment,
    /// The target of a jump was outside the instruction stream.
    BadJump,
    /// The operation code or the function code stands for no operation.
    InvalidOpcode,
    /// The program counter left no room for a whole instruction.
    BadProgramCounter,
}

/// The byte displacement of a branch over `offset` instructions.
pub fn jmp_addr_i16(offset: i16) -> (displacement: Immediate)
    requires
        i16::MIN <= offset * WORD_BYTES <= i16::MAX,
    ensures
        displacement == offset * WORD_BYTES,
{
    offset * 4
}

/// The byte displacement of a jump over `offset` instructions.
pub fn jmp_addr_i32(offset: i32) -> (displacement: Address)
    requires
        i32::MIN <= offset * WORD_BYTES <= i32::MAX,
    ensures
        displacement == offset * WORD_BYTES,
{
    offset * 4
}

/// The instruction stream of a program given as instruction words: every
/// word in little-endian order.
pub fn program_from_words(words: &[Word]) -> (bytes: Vec<u8>)
    requires
        words@.len() * WORD_BYTES <= usize::MAX,
    ensures
        bytes@ == words_le(words@),
{
    let mut bytes: Vec<u8> = vec![0u8; words.len() * 4];
    write_u32_into_le(words, &mut bytes);
    bytes
}

/// The state of a processor as the contracts see it.
pub struct Machine {
    /// The patterns that the registers hold, by position.
    pub registers: Seq<u32>,
    /// The byte offset of the next instruction in the instruction stream.
    pub pc: u32,
    /// Why the processor stopped, or `None` while it runs.
    pub state: Option<ExitCode>,
}

impl Machine {
    /// The zero register holds zero and the program counter is on a word
    /// boundary.
    pub open spec fn wf(self) -> bool {
        file_wf(self.registers) && self.pc % WORD_BYTES == 0
    }

    /// The state of a new processor.
    pub open spec fn initial() -> Machine {
        Machine { registers: Seq::new(REGISTER_COUNT as nat, |i: int| 0u32), pc: 0, state: None }
    }

    /// This machine, stopped for the reason `code`.
    pub open spec fn stopped(self, code: ExitCode) -> Machine {
        Machine { registers: self.registers, pc: self.pc, state: Some(code) }
    }

    /// This machine after an instruction left the registers `registers` and
    /// said `result` about the flow of control, in an instruction stream of
    /// `length` bytes.
    ///
    /// After `Next` the program counter moves on by one word, and starts
    /// again at zero where that would leave the stream or the range of the
    /// program counter. A jump to a target
    /// off a word boundary stops the machine with `BadAlignment`, one to a
    /// target outside the stream with `BadJump`.
    pub open spec fn advanced(self, registers: Seq<u32>, length: nat, result: TickResult) -> Machine {
        match result {
            TickResult::Next => Machine {
                registers,
                pc: if self.pc + WORD_BYTES < length && self.pc + WORD_BYTES <= u32::MAX {
                    (self.pc + WORD_BYTES) as u32
                } else {
                    0
                },
                state: None,
            },
            TickResult::Jump(target) => if target % WORD_BYTES != 0 {
                Machine { registers, pc: self.pc, state: Some(ExitCode::BadAlignment) }
            } else if target >= length {
                Machine { registers, pc: self.pc, state: Some(ExitCode::BadJump) }
            } else {
                Machine { registers, pc: target, state: None }
            },
            TickResult::Stop(code) => Machine { registers, pc: self.pc, state: Some(code) },
        }
    }
}

/// The instruction word at the byte offset `pc` of an instruction stream, or
/// `None` if the stream holds no whole word there.
pub open spec fn fetched(program: Seq<u8>, pc: u32) -> Option<u32> {
    if pc + WORD_BYTES <= program.len() {
        Some(word_of(program[pc as int], program[pc + 1], program[pc + 2], program[pc + 3]))
    } else {
        None
    }
}

/// Whether one tick can lead from the machine `before` and the storage
/// `memory` to `after` and `memory_after`.
///
/// A stopped machine stays as it is. A running machine whose program counter
/// leaves no room for a whole instruction stops with `BadProgramCounter`.
/// Otherwise the instruction at the program counter is executed and its
/// result applied.
pub open spec fn step(
    program: Seq<u8>,
    before: Machine,
    memory: Image,
    after: Machine,
    memory_after: Image,
) -> bool {
    if before.state is Some {
        after == before && memory_after == memory
    } else {
        match fetched(program, before.pc) {
            None => after == before.stopped(ExitCode::BadProgramCounter) && memory_after == memory,
            Some(word) => exists|result: TickResult|
                {
                    &&& #[trigger] outcome(
                        effect_of(before.registers, word, before.pc),
                        before.registers,
                        memory,
                        after.registers,
                        memory_after,
                        result,
                    )
                    &&& after == before.advanced(after.registers, program.len(), result)
                },
        }
    }
}

/// Whether `trace` is a run: a sequence of machine and storage states in
/// which every state but the last is running and one tick leads from each
/// state to the next.
pub open spec fn is_run(program: Seq<u8>, trace: Seq<(Machine, Image)>) -> bool {
    &&& trace.len() > 0
    &&& forall|i: int|
        0 <= i < trace.len() - 1 ==> {
            &&& (#[trigger] trace[i]).0.state is None
            &&& step(program, trace[i].0, trace[i].1, trace[i + 1].0, trace[i + 1].1)
        }
}

/// Whether `count` ticks, each of them on a running machine, can lead from
/// `before` and `memory` to `after` and `memory_after`.
pub open spec fn runs(
    program: Seq<u8>,
    before: Machine,
    memory: Image,
    after: Machine,
    memory_after: Image,
    count: nat,
) -> bool {
    exists|trace: Seq<(Machine, Image)>|
        {
            &&& #[trigger] is_run(program, trace)
            &&& trace.len() == count + 1
            &&& trace[0] == (before, memory)
            &&& trace.last() == (after, memory_after)
        }
}

/// A jump to a target off a word boundary stops the machine with
/// `BadAlignment`, a jump to a word boundary at or past the end of the
/// instruction stream with `BadJump`. Any other jump sets the program counter
/// to the target. None of them moves the program counter of a machine that
/// stops.
pub proof fn lemma_jump_targets(machine: Machine, registers: Seq<u32>, length: nat, target: u32)
    ensures
        target % WORD_BYTES != 0 ==> machine.advanced(
            registers,
            length,
            TickResult::Jump(target),
        ) == (Machine { registers, pc: machine.pc, state: Some(ExitCode::BadAlignment) }),
        target % WORD_BYTES == 0 && target >= length ==> machine.advanced(
            registers,
            length,
            TickResult::Jump(target),
        ) == (Machine { registers, pc: machine.pc, state: Some(ExitCode::BadJump) }),
        target % WORD_BYTES == 0 && target < length ==> machine.advanced(
            registers,
            length,
            TickResult::Jump(target),
        ) == (Machine { registers, pc: target, state: None }),
{
}

/// A tick of a running machine whose program counter leaves no room for a
/// whole instruction stops it with `BadProgramCounter` and changes nothing
/// else.
pub proof fn lemma_fetch_past_end(
    program: Seq<u8>,
    before: Machine,
    memory: Image,
    after: Machine,
    memory_after: Image,
)
    requires
        before.state is None,
        before.pc + WORD_BYTES > program.len(),
        step(program, before, memory, after, memory_after),
    ensures
        after == before.stopped(ExitCode::BadProgramCounter),
        memory_after == memory,
{
}

/// A tick of a stopped machine changes nothing.
pub proof fn lemma_stopped_stays(
    program: Seq<u8>,
    before: Machine,
    memory: Image,
    after: Machine,
    memory_after: Image,
)
    requires
        before.state is Some,
        step(program, before, memory, after, memory_after),
    ensures
        after == before,
        memory_after == memory,
{
}

/// A tick keeps the zero register at zero and the program counter on a word
/// boundary.
pub proof fn lemma_step_keeps_wf(
    program: Seq<u8>,
    before: Machine,
    memory: Image,
    after: Machine,
    memory_after: Image,
)
    requires
        before.wf(),
        step(program, before, memory, after, memory_after),
    ensures
        after.wf(),
{
    if before.state is None && fetched(program, before.pc) is Some {
        let word = fetched(program, before.pc)->Some_0;
        let result = choose|result: TickResult|
            {
                &&& #[trigger] outcome(
                    effect_of(before.registers, word, before.pc),
                    before.registers,
                    memory,
                    after.registers,
                    memory_after,
                    result,
                )
                &&& after == before.advanced(after.registers, program.len(), result)
            };
        logic::lemma_zero_register_stays(
            before.registers,
            word,
            before.pc,
            memory,
            after.registers,
            memory_after,
            result,
        );
    }
}

/// On a direct storage a tick has exactly one result: two ticks from the
/// same machine and storage end alike.
pub proof fn lemma_step_is_a_function(
    program: Seq<u8>,
    before: Machine,
    memory: Image,
    after: Machine,
    memory_after: Image,
    other: Machine,
    memory_other: Image,
)
    requires
        memory.direct,
        step(program, before, memory, after, memory_after),
        step(program, before, memory, other, memory_other),
    ensures
        after == other,
        memory_after == memory_other,
{
    if before.state is None && fetched(program, before.pc) is Some {
        let word = fetched(program, before.pc)->Some_0;
        let effect = effect_of(before.registers, word, before.pc);
        let first = choose|result: TickResult|
            {
                &&& #[trigger] outcome(
                    effect,
                    before.registers,
                    memory,
                    after.registers,
                    memory_after,
                    result,
                )
                &&& after == before.advanced(after.registers, program.len(), result)
            };
        let second = choose|result: TickResult|
            {
                &&& #[trigger] outcome(
                    effect,
                    before.registers,
                    memory,
                    other.registers,
                    memory_other,
                    result,
                )
                &&& other == before.advanced(other.registers, program.len(), result)
            };
        logic::lemma_direct_outcome(
            effect,
            before.registers,
            memory,
            after.registers,
            memory_after,
            first,
        );
        logic::lemma_direct_outcome(
            effect,
            before.registers,
            memory,
            other.registers,
            memory_other,
            second,
        );
    }
}

/// A tick leaves a direct storage direct.
pub proof fn lemma_step_keeps_direct(
    program: Seq<u8>,
    before: Machine,
    memory: Image,
    after: Machine,
    memory_after: Image,
)
    requires
        step(program, before, memory, after, memory_after),
    ensures
        memory_after.direct == memory.direct,
{
}

/// On a direct storage two runs from the same machine and storage agree
/// state by state, as far as the shorter one goes.
pub proof fn lemma_runs_agree(
    program: Seq<u8>,
    trace: Seq<(Machine, Image)>,
    other: Seq<(Machine, Image)>,
    index: int,
)
    requires
        is_run(program, trace),
        is_run(program, other),
        trace[0] == other[0],
        trace[0].1.direct,
        0 <= index < trace.len(),
        index < other.len(),
    ensures
        trace[index] == other[index],
        trace[index].1.direct,
    decreases index,
{
    if index > 0 {
        lemma_runs_agree(program, trace, other, index - 1);
        let (machine, memory) = trace[index - 1];
        assert(other[index - 1] == (machine, memory));
        assert(step(program, machine, memory, trace[index].0, trace[index].1));
        assert(step(program, machine, memory, other[index].0, other[index].1));
        lemma_step_is_a_function(
            program,
            machine,
            memory,
            trace[index].0,
            trace[index].1,
            other[index].0,
            other[index].1,
        );
        lemma_step_keeps_direct(program, machine, memory, trace[index].0, trace[index].1);
    }
}

/// On a direct storage a run is a function of where it starts and how long
/// it is: two runs of the same number of ticks end alike.
pub proof fn lemma_runs_is_a_function(
    program: Seq<u8>,
    before: Machine,
    memory: Image,
    after: Machine,
    memory_after: Image,
    other: Machine,
    memory_other: Image,
    count: nat,
)
    requires
        memory.direct,
        runs(program, before, memory, after, memory_after, count),
        runs(program, before, memory, other, memory_other, count),
    ensures
        after == other,
        memory_after == memory_other,
{
    let first = choose|trace: Seq<(Machine, Image)>|
        {
            &&& #[trigger] is_run(program, trace)
            &&& trace.len() == count + 1
            &&& trace[0] == (before, memory)
            &&& trace.last() == (after, memory_after)
        };
    let second = choose|trace: Seq<(Machine, Image)>|
        {
            &&& #[trigger] is_run(program, trace)
            &&& trace.len() == count + 1
            &&& trace[0] == (before, memory)
            &&& trace.last() == (other, memory_other)
        };
    lemma_runs_agree(program, first, second, count as int);
}

/// On a direct storage a program stops in one way only: two runs from the
/// same machine and storage that both end stopped take the same number of
/// ticks and end alike.
pub proof fn lemma_exit_is_unique(
    program: Seq<u8>,
    before: Machine,
    memory: Image,
    after: Machine,
    memory_after: Image,
    count: nat,
    other: Machine,
    memory_other: Image,
    count_other: nat,
)
    requires
        memory.direct,
        runs(program, before, memory, after, memory_after, count),
        runs(program, before, memory, other, memory_other, count_other),
        after.state is Some,
        other.state is Some,
    ensures
        count == count_other,
        after == other,
        memory_after == memory_other,
{
    let first = choose|trace: Seq<(Machine, Image)>|
        {
            &&& #[trigger] is_run(program, trace)
            &&& trace.len() == count + 1
            &&& trace[0] == (before, memory)
            &&& trace.last() == (after, memory_after)
        };
    let second = choose|trace: Seq<(Machine, Image)>|
        {
            &&& #[trigger] is_run(program, trace)
            &&& trace.len() == count_other + 1
            &&& trace[0] == (before, memory)
            &&& trace.last() == (other, memory_other)
        };
    if count < count_other {
        lemma_runs_agree(program, first, second, count as int);
        assert(second[count as int].0.state is None);
    } else if count_other < count {
        lemma_runs_agree(program, first, second, count_other as int);
        assert(first[count_other as int].0.state is None);
    } else {
        lemma_runs_agree(program, first, second, count as int);
    }
}

/// The instruction stream of a program that is one halt instruction.
pub open spec fn halt_program() -> Seq<u8> {
    words_le(seq![i_word(OpCode::HALT, RegisterId::ZERO, RegisterId::ZERO, 0)])
}

/// A program that is one halt instruction stops a machine that starts at
/// its beginning with `Halted`, after one tick, with the registers and the
/// storage as they were.
pub proof fn lemma_halt_program(
    before: Machine,
    memory: Image,
    after: Machine,
    memory_after: Image,
    count: nat,
)
    requires
        before.state is None,
        before.pc == 0,
        runs(halt_program(), before, memory, after, memory_after, count),
        after.state is Some,
    ensures
        count == 1,
        after == before.stopped(ExitCode::Halted),
        memory_after == memory,
{
    let program = halt_program();
    let halt = i_word(OpCode::HALT, RegisterId::ZERO, RegisterId::ZERO, 0);
    lemma_i_word_fields(OpCode::HALT, RegisterId::ZERO, RegisterId::ZERO, 0);
    lemma_word_of_bytes(halt);
    assert(program.len() == 4);
    assert(fetched(program, 0) == Some(halt));
    let trace = choose|trace: Seq<(Machine, Image)>|
        {
            &&& #[trigger] is_run(program, trace)
            &&& trace.len() == count + 1
            &&& trace[0] == (before, memory)
            &&& trace.last() == (after, memory_after)
        };
    assert(count >= 1);
    assert(trace[0].0.state is None);
    assert(step(program, trace[0].0, trace[0].1, trace[1].0, trace[1].1));
    assert(trace[1].0 == before.stopped(ExitCode::Halted));
    if count > 1 {
        assert(trace[1].0.state is None);
    }
}

/// A processor: the register file, the program counter, and the reason for
/// which it stopped, once it has.
pub struct Processor {
    registers: RegisterFile,
    program_counter: u32,
    state: Option<ExitCode>,
}

impl Default for Processor {
    fn default() -> (processor: Processor)
        ensures
            processor@ == Machine::initial(),
    {
        Processor::new()
    }
}

impl Processor {
    /// The program counter is on a word boundary.
    #[verifier::type_invariant]
    spec fn aligned(&self) -> bool {
        self.program_counter % 4 == 0
    }

    /// The state of the processor.
    pub closed spec fn view(&self) -> Machine {
        Machine { registers: self.registers@, pc: self.program_counter, state: self.state }
    }

    /// A processor that runs, with all registers and the program counter at
    /// zero.
    pub fn new() -> (processor: Processor)
        ensures
            processor@ == Machine::initial(),
    {
        Processor { registers: RegisterFile::new(), program_counter: 0, state: None }
    }

    /// The register named `id`.
    pub fn register(&self, id: RegisterId) -> (register: Register)
        ensures
            register.bits == self@.registers[index_of(id) as int],
    {
        self.registers.get(id)
    }

    /// The byte offset of the next instruction.
    pub fn program_counter(&self) -> (pc: u32)
        ensures
            pc == self@.pc,
            pc % WORD_BYTES == 0,
    {
        proof {
            use_type_invariant(self);
        }
        self.program_counter
    }

    /// Why the processor stopped, or `None` while it runs.
    pub fn state(&self) -> (state: Option<ExitCode>)
        ensures
            state == self@.state,
    {
        self.state
    }

    /// Whether the processor has stopped.
    pub fn is_stopped(&self) -> (stopped: bool)
        ensures
            stopped == self@.state is Some,
    {
        self.state.is_some()
    }

    /// Stops a running processor with `Terminated`: the stop requested from
    /// outside. A stopped processor keeps its exit code.
    pub fn terminate(&mut self)
        ensures
            final(self)@ == if old(self)@.state is Some {
                old(self)@
            } else {
                old(self)@.stopped(ExitCode::Terminated)
            },
    {
        proof {
            use_type_invariant(&*self);
        }
        if self.state.is_none() {
            self.state = Some(ExitCode::Terminated);
        }
    }

    /// One fetch-execute cycle. Returns the state after it.
    pub fn tick<S: Storage + ?Sized>(&mut self, instructions: &[u8], storage: &mut S) -> (state: Option<
        ExitCode,
    >)
        requires
            old(storage).inv(),
            old(storage).image().wf(),
        ensures
            final(storage).inv(),
            final(storage).image().wf(),
            step(
                instructions@,
                old(self)@,
                old(storage).image(),
                final(self)@,
                final(storage).image(),
            ),
            state == final(self)@.state,
            final(self)@.wf(),
    {
        if !self.is_stopped() {
            let state = self.get_new_state(instructions, storage);
            proof {
                use_type_invariant(&*self);
            }
            self.state = state;
        }
        proof {
            use_type_invariant(&*self);
            use_type_invariant(&self.registers);
        }
        self.state
    }

    /// Ticks until the processor has stopped, but at most `limit` times.
    /// Returns the state after the last tick: `None` if the processor still
    /// runs.
    pub fn run_for<S: Storage + ?Sized>(
        &mut self,
        instructions: &[u8],
        storage: &mut S,
        limit: u64,
    ) -> (state: Option<ExitCode>)
        requires
            old(storage).inv(),
            old(storage).image().wf(),
        ensures
            final(storage).inv(),
            final(storage).image().wf(),
            final(self)@.wf(),
            state == final(self)@.state,
            exists|count: nat|
                {
                    &&& count <= limit
                    &&& state is None ==> count == limit
                    &&& #[trigger] runs(
                        instructions@,
                        old(self)@,
                        old(storage).image(),
                        final(self)@,
                        final(storage).image(),
                        count,
                    )
                },
    {
        let ghost mut trace = seq![(self@, storage.image())];
        let mut count: u64 = 0;
        while count < limit && self.state.is_none()
            invariant
                storage.inv(),
                storage.image().wf(),
                count <= limit,
                is_run(instructions@, trace),
                trace.len() == count + 1,
                trace[0] == (old(self)@, old(storage).image()),
                trace.last() == (self@, storage.image()),
            decreases limit - count,
        {
            self.tick(instructions, storage);
            count = count + 1;
            proof {
                trace = trace.push((self@, storage.image()));
            }
        }
        proof {
            use_type_invariant(&*self);
            use_type_invariant(&self.registers);
            assert(runs(
                instructions@,
                old(self)@,
                old(storage).image(),
                self@,
                storage.image(),
                count as nat,
            ));
        }
        self.state
    }

    /// Ticks until the processor has stopped and returns the exit code.
    ///
    /// A processor that still runs after `u64::MAX` ticks is terminated.
    pub fn run<S: Storage + ?Sized>(&mut self, instructions: &[u8], storage: &mut S) -> (code:
        ExitCode)
        requires
            old(storage).inv(),
            old(storage).image().wf(),
        ensures
            final(storage).inv(),
            final(storage).image().wf(),
            final(self)@.wf(),
            final(self)@.state == Some(code),
            exists|count: nat, last: Machine|
                {
                    &&& count <= u64::MAX
                    &&& last.state is None ==> count == u64::MAX
                    &&& #[trigger] runs(
                        instructions@,
                        old(self)@,
                        old(storage).image(),
                        last,
                        final(storage).image(),
                        count,
                    )
                    &&& final(self)@ == if last.state is Some {
                        last
                    } else {
                        last.stopped(ExitCode::Terminated)
                    }
                },
    {
        let state = self.run_for(instructions, storage, u64::MAX);
        let ghost last = self@;
        let ghost count = choose|count: nat|
            {
                &&& count <= u64::MAX
                &&& state is None ==> count == u64::MAX
                &&& #[trigger] runs(
                    instructions@,
                    old(self)@,
                    old(storage).image(),
                    last,
                    storage.image(),
                    count,
                )
            };
        let code = match state {
            Some(code) => code,
            None => {
                self.terminate();
                ExitCode::Terminated
            },
        };
        proof {
            use_type_invariant(&self.registers);
            assert(runs(
                instructions@,
                old(self)@,
                old(storage).image(),
                last,
                storage.image(),
                count,
            ));
        }
        code
    }

    /// Executes the instruction at the program counter and moves the program
    /// counter. Returns the reason to stop, or `None` to go on.
    fn get_new_state<S: Storage + ?Sized>(&mut self, instructions: &[u8], storage: &mut S) -> (state: Option<
        ExitCode,
    >)
        requires
            old(self)@.state is None,
            old(storage).inv(),
            old(storage).image().wf(),
        ensures
            final(storage).inv(),
            final(storage).image().wf(),
            step(
                instructions@,
                old(self)@,
                old(storage).image(),
                Machine { registers: final(self)@.registers, pc: final(self)@.pc, state },
                final(storage).image(),
            ),
            final(self)@.state is None,
    {
        proof {
            use_type_invariant(&*self);
        }
        let pc = self.program_counter as usize;
        let length = instructions.len();
        if length < 4 || pc > length - 4 {
            return Some(ExitCode::BadProgramCounter);
        }
        let instruction = read_u32_le(slice_subrange(instructions, pc, pc + 4));
        let mut registers = self.registers;
        let result = logic::tick(&mut registers, storage, instruction, self.program_counter);
        self.registers = registers;
        let state = match result {
            TickResult::Next => {
                self.program_counter = if pc + 4 < length && self.program_counter < 0xffff_fffc {
                    self.program_counter + 4
                } else {
                    0
                };
                None
            },
            TickResult::Jump(target) => {
                if target % 4 != 0 {
                    Some(ExitCode::BadAlignment)
                } else if target as usize >= length {
                    Some(ExitCode::BadJump)
                } else {
                    self.program_counter = target;
                    None
                }
            },
            TickResult::Stop(code) => Some(code),
        };
        proof {
            let after = Machine { registers: self@.registers, pc: self@.pc, state };
            assert(after == old(self)@.advanced(after.registers, instructions@.len(), result));
        }
        state
    }
}

} // verus!
