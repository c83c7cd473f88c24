//! A register machine: a state, an instruction set, and the transition that
//! one instruction makes. A batch of instructions is executed as a fold of
//! that transition over the batch.

use crate::paper::laws::{lemma_fold_requires, lemma_folds_to};
use crate::paper::{fold, is_default};
use vstd::prelude::*;
use vstd::std_specs::convert::FromSpecImpl;
use vstd::std_specs::iter::IteratorSpec;
use vstd::std_specs::ops::AddSpec;
use std::ops::Add;

pub mod laws;

verus! {

/// Whether a program can be run from `state`, where `pre` says in which states
/// an instruction can be executed and `post` in which states it may end: each
/// instruction can be executed in whichever state the ones before it left.
pub open spec fn runs_requires<State, Instruction>(
    pre: spec_fn(State, Instruction) -> bool,
    post: spec_fn(State, Instruction, State) -> bool,
    state: State,
    program: Seq<Instruction>,
) -> bool
    decreases program.len(),
{
    program.len() > 0 ==> {
        &&& pre(state, program[0])
        &&& forall|next: State| #[trigger]
            post(state, program[0], next) ==> runs_requires(pre, post, next, program.drop_first())
    }
}

/// Whether `last` is a state in which running a program from `state` may end,
/// where `post` says in which states an instruction may end; with no
/// instruction, `state` itself.
pub open spec fn runs_to<State, Instruction>(
    post: spec_fn(State, Instruction, State) -> bool,
    state: State,
    program: Seq<Instruction>,
    last: State,
) -> bool
    decreases program.len(),
{
    if program.len() == 0 {
        last == state
    } else {
        exists|next: State| #[trigger]
            post(state, program[0], next) && runs_to(post, next, program.drop_first(), last)
    }
}

/// Marks a type as the name of a register.
pub trait Register {

}

/// A machine that executes instructions: each instruction takes the machine
/// from one state to the next, and the state before is consumed.
pub trait CPU: Sized {
    /// The instructions that the machine executes.
    type ISA;

    /// Whether `instruction` can be executed in this state.
    spec fn execute_requires(self, instruction: Self::ISA) -> bool;

    /// Whether `next` is a state in which executing `instruction` in this
    /// state may end.
    spec fn execute_ensures(self, instruction: Self::ISA, next: Self) -> bool;

    /// Execute a single instruction.
    fn execute(self, instruction: Self::ISA) -> (next: Self)
        requires
            self.execute_requires(instruction),
        ensures
            self.execute_ensures(instruction, next),
    ;

    /// Execute a list of instructions, in their order, each in the state that
    /// the one before it left; with no instruction, the state is returned as
    /// it is. The two function values in the contract are `execute_requires`
    /// and `execute_ensures` of this machine, which `can_execute` and
    /// `executed` name.
    fn executes<L>(self, instructions: L) -> (last: Self) where L: Iterator<Item = Self::ISA>
        requires
            instructions.obeys_prophetic_iter_laws(),
            instructions.decrease() is Some,
            runs_requires(
                |cpu: Self, instruction: Self::ISA| cpu.execute_requires(instruction),
                |cpu: Self, instruction: Self::ISA, next: Self|
                    cpu.execute_ensures(instruction, next),
                self,
                instructions.remaining(),
            ),
        ensures
            runs_to(
                |cpu: Self, instruction: Self::ISA, next: Self|
                    cpu.execute_ensures(instruction, next),
                self,
                instructions.remaining(),
                last,
            ),
            instructions.remaining().len() == 0 ==> last == self,
    {
        let ghost first = self;
        let ghost program = instructions.remaining();
        let ghost pre = |cpu: Self, instruction: Self::ISA| cpu.execute_requires(instruction);
        let ghost post = |cpu: Self, instruction: Self::ISA, next: Self|
            cpu.execute_ensures(instruction, next);
        let step = |instruction: Self::ISA, cpu: Self| -> (next: Self)
            requires
                cpu.execute_requires(instruction),
            ensures
                cpu.execute_ensures(instruction, next),
            { cpu.execute(instruction) };
        let ghost safe = |i: int, cpu: Self|
            0 <= i <= program.len() && runs_requires(pre, post, cpu, program.skip(i));
        let ghost reached = |i: int, cpu: Self|
            {
                &&& 0 <= i <= program.len()
                &&& forall|last: Self| #[trigger]
                    runs_to(post, cpu, program.skip(i), last) ==> runs_to(
                        post,
                        first,
                        program,
                        last,
                    )
            };
        proof {
            assert(runs_requires(pre, post, first, program));
            assert(program.skip(0) =~= program);
            assert forall|i: int, cpu: Self, next: Self|
                0 <= i < program.len() && safe(i, cpu) && #[trigger] call_ensures(
                    step,
                    (program[i], cpu),
                    next,
                ) implies safe(i + 1, next) by {
                assert(program.skip(i).drop_first() =~= program.skip(i + 1));
                assert(post(cpu, program.skip(i)[0], next));
            }
            lemma_fold_requires(step, self, program, safe);
            assert forall|i: int, cpu: Self, next: Self|
                0 <= i < program.len() && reached(i, cpu) && #[trigger] call_ensures(
                    step,
                    (program[i], cpu),
                    next,
                ) implies reached(i + 1, next) by {
                assert(program.skip(i).drop_first() =~= program.skip(i + 1));
                assert forall|last: Self| #[trigger]
                    runs_to(post, next, program.skip(i + 1), last) implies runs_to(
                    post,
                    first,
                    program,
                    last,
                ) by {
                    assert(post(cpu, program.skip(i)[0], next));
                    assert(runs_to(post, cpu, program.skip(i), last));
                }
            }
        }
        let last = fold(step, self, instructions);
        proof {
            lemma_folds_to(step, first, program, last, reached);
            assert(program.skip(program.len() as int).len() == 0);
            assert(runs_to(post, last, program.skip(program.len() as int), last));
            assert(runs_to(post, first, program, last));
        }
        last
    }
}

/// The relation that says in which states of a machine an instruction can be
/// executed: `execute_requires`, as a function value.
pub open spec fn can_execute<C: CPU>() -> spec_fn(C, C::ISA) -> bool {
    |cpu: C, instruction: C::ISA| cpu.execute_requires(instruction)
}

/// The relation between a state of a machine, an instruction and the states
/// in which executing it may end: `execute_ensures`, as a function value.
pub open spec fn executed<C: CPU>() -> spec_fn(C, C::ISA, C) -> bool {
    |cpu: C, instruction: C::ISA, next: C| cpu.execute_ensures(instruction, next)
}

/// Basic registers.
#[derive(Copy, Clone)]
pub enum BasicRegister {
    A,
    B,
    C,
}

impl Register for BasicRegister {

}

impl BasicRegister {
    /// The slot of the register file that the register names.
    pub open spec fn slot(self) -> int {
        match self {
            BasicRegister::A => 0,
            BasicRegister::B => 1,
            BasicRegister::C => 2,
        }
    }

    /// The slot of the register file that the register names, as an index.
    pub fn index(self) -> (slot: usize)
        ensures
            slot == self.slot(),
    {
        match self {
            BasicRegister::A => 0,
            BasicRegister::B => 1,
            BasicRegister::C => 2,
        }
    }
}

/// Converts a register into the index of its slot.
impl From<BasicRegister> for usize {
    fn from(register: BasicRegister) -> (slot: usize) {
        register.index()
    }
}

impl FromSpecImpl<BasicRegister> for usize {
    open spec fn obeys_from_spec() -> bool {
        true
    }

    open spec fn from_spec(register: BasicRegister) -> usize {
        register.slot() as usize
    }
}

/// The instructions of the basic machine: these three and no other.
pub enum BasicIsa<T, R> where R: Register {
    /// Adds the values of the first two registers and places the sum in the
    /// third.
    ADD(R, R, R),
    /// Copies the value of the first register into the second.
    COPY(R, R),
    /// Sets the register to the value.
    SET(T, R),
}

/// The basic machine: a register file of three slots and nothing else.
#[derive(Eq, PartialEq, Debug)]
pub struct BasicCPU<T> {
    pub registers: [T; 3],
}

impl<T> View for BasicCPU<T> {
    type V = Seq<T>;

    /// The register file: the values of the three slots, in their order.
    open spec fn view(&self) -> Seq<T> {
        self.registers@
    }
}

/// The basic machine starts with the default of `T` in each register; for the
/// integer types that is zero.
impl<T> Default for BasicCPU<T> where T: Default {
    fn default() -> (cpu: Self)
        ensures
            forall|i: int| 0 <= i < 3 ==> is_default(#[trigger] cpu@[i]),
    {
        BasicCPU { registers: [T::default(), T::default(), T::default()] }
    }
}

/// The register file that executing `instruction` on the register file
/// `registers` leaves: one slot is written, the others keep their values, and
/// what is written is read from `registers` as it was before.
pub open spec fn step<T: Add<Output = T>>(
    registers: Seq<T>,
    instruction: BasicIsa<T, BasicRegister>,
) -> Seq<T> {
    match instruction {
        BasicIsa::ADD(a, b, c) => registers.update(
            c.slot(),
            registers[a.slot()].add_spec(registers[b.slot()]),
        ),
        BasicIsa::COPY(a, b) => registers.update(b.slot(), registers[a.slot()]),
        BasicIsa::SET(value, a) => registers.update(a.slot(), value),
    }
}

/// Whether `instruction` can be executed on the register file `registers`:
/// an addition needs a `T` whose `+` is specified, and two values that it
/// admits (for the integer types: whose sum does not overflow).
pub open spec fn step_defined<T: Add<Output = T>>(
    registers: Seq<T>,
    instruction: BasicIsa<T, BasicRegister>,
) -> bool {
    instruction matches BasicIsa::ADD(a, b, _) ==> T::obeys_add_spec() && registers[a.slot()].add_req(
        registers[b.slot()],
    )
}

/// The register file that executing `program` on the register file
/// `registers` leaves, instruction by instruction.
pub open spec fn run<T: Add<Output = T>>(
    registers: Seq<T>,
    program: Seq<BasicIsa<T, BasicRegister>>,
) -> Seq<T>
    decreases program.len(),
{
    if program.len() == 0 {
        registers
    } else {
        run(step(registers, program[0]), program.drop_first())
    }
}

/// Whether each instruction of `program` can be executed on the register
/// file that the ones before it leave of `registers`.
pub open spec fn run_defined<T: Add<Output = T>>(
    registers: Seq<T>,
    program: Seq<BasicIsa<T, BasicRegister>>,
) -> bool
    decreases program.len(),
{
    program.len() > 0 ==> step_defined(registers, program[0]) && run_defined(
        step(registers, program[0]),
        program.drop_first(),
    )
}

impl<T> CPU for BasicCPU<T> where T: Add<Output = T> + Copy {
    type ISA = BasicIsa<T, BasicRegister>;

    open spec fn execute_requires(self, instruction: Self::ISA) -> bool {
        step_defined(self@, instruction)
    }

    open spec fn execute_ensures(self, instruction: Self::ISA, next: Self) -> bool {
        next@ == step(self@, instruction)
    }

    fn execute(self, isa: Self::ISA) -> (next: Self) {
        match isa {
            BasicIsa::ADD(a, b, c) => {
                let mut registers = self.registers;
                registers[c.index()] = registers[a.index()] + registers[b.index()];
                Self { registers }
            },
            BasicIsa::COPY(a, b) => {
                let mut registers = self.registers;
                registers[b.index()] = self.registers[a.index()];
                Self { registers }
            },
            BasicIsa::SET(a, b) => {
                let mut registers = self.registers;
                registers[b.index()] = a;
                Self { registers }
            },
        }
    }
}

} // verus!
