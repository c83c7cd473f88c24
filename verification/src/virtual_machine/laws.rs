//! What holds of the basic machine and of the programs that it executes.

use super::{
    can_execute, executed, run, run_defined, runs_requires, runs_to, BasicCPU, BasicIsa,
    BasicRegister, CPU,
};
use vstd::prelude::*;
use std::ops::Add;

verus! {

/// A program that is defined on the register file of a basic CPU can be
/// executed by it.
pub proof fn lemma_run_defined<T: Add<Output = T> + Copy>(
    cpu: BasicCPU<T>,
    program: Seq<BasicIsa<T, BasicRegister>>,
)
    requires
        run_defined(cpu@, program),
    ensures
        runs_requires(can_execute::<BasicCPU<T>>(), executed::<BasicCPU<T>>(), cpu, program),
    decreases program.len(),
{
    if program.len() > 0 {
        assert forall|next: BasicCPU<T>| #[trigger]
            executed::<BasicCPU<T>>()(cpu, program[0], next) implies runs_requires(
            can_execute::<BasicCPU<T>>(),
            executed::<BasicCPU<T>>(),
            next,
            program.drop_first(),
        ) by {
            lemma_run_defined(next, program.drop_first());
        }
    }
}

/// Executing a program on a basic CPU ends in one register file: the one
/// that `run` gives.
pub proof fn lemma_run<T: Add<Output = T> + Copy>(
    cpu: BasicCPU<T>,
    program: Seq<BasicIsa<T, BasicRegister>>,
    last: BasicCPU<T>,
)
    requires
        runs_to(executed::<BasicCPU<T>>(), cpu, program, last),
    ensures
        last@ == run(cpu@, program),
    decreases program.len(),
{
    if program.len() > 0 {
        let next = choose|next: BasicCPU<T>| #[trigger]
            executed::<BasicCPU<T>>()(cpu, program[0], next) && runs_to(
                executed::<BasicCPU<T>>(),
                next,
                program.drop_first(),
                last,
            );
        lemma_run(next, program.drop_first(), last);
    }
}

/// The registers name three slots, each its own.
pub proof fn lemma_slots(a: BasicRegister, b: BasicRegister)
    ensures
        0 <= a.slot() < 3,
        a.slot() == b.slot() ==> a == b,
{
}

} // verus!
