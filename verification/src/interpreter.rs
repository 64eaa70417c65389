//! A minimal linear bytecode interpreter over a closed instruction set.
//!
//! The interpreter owns a program (an immutable instruction list) and a
//! program counter. It does not know what the instructions mean: meaning is
//! supplied per step by a caller-provided handler, either the standard one
//! in the driver module or a custom one wrapped in [`CustomHandler`].

use vstd::prelude::*;

verus! {

/// One scripted action over the 2D text scene. The set is closed: a new
/// instruction requires extending this enum and the step handler in lockstep.
pub enum MockInstruction {
    /// Display `body` under the caller-chosen slot.
    ShowText(usize, String),
    /// Remove every on-screen text entity bound to the slot.
    DeleteText(usize),
}

/// A linear program counter over a pre-loaded instruction list.
///
/// States are `Running` (`pc < code.len()`) and `Exhausted`
/// (`pc >= code.len()`); standard steps never move the counter past the end,
/// so exhaustion is terminal.
pub struct MockInterpreter {
    pub code: Vec<MockInstruction>,
    pub pc: usize,
}

/// The counter after one standard step: advance by one while running,
/// stand still once exhausted.
pub open spec fn step_pc(pc: nat, len: nat) -> nat {
    if pc < len {
        pc + 1
    } else {
        pc
    }
}

/// The counter after `k` standard steps.
pub open spec fn pc_after_steps(pc: nat, len: nat, k: nat) -> nat
    decreases k,
{
    if k == 0 {
        pc
    } else {
        pc_after_steps(step_pc(pc, len), len, (k - 1) as nat)
    }
}

/// Monotone advance: starting at or below the end, `k` standard steps land
/// the counter on `pc + k`, capped at the program length. In particular a
/// fresh interpreter reaches `min(k, len)` after `k` steps.
pub proof fn lemma_monotone_advance(pc: nat, len: nat, k: nat)
    requires
        pc <= len,
    ensures
        pc_after_steps(pc, len, k) == if pc + k <= len {
            (pc + k) as nat
        } else {
            len
        },
    decreases k,
{
    if k > 0 {
        lemma_monotone_advance(step_pc(pc, len), len, (k - 1) as nat);
    }
}

/// Exhaustion stability: once the counter has reached the end, every later
/// standard step leaves it where it is, so every later step reports
/// exhaustion.
pub proof fn lemma_exhaustion_stable(pc: nat, len: nat, k: nat)
    requires
        pc >= len,
    ensures
        pc_after_steps(pc, len, k) == pc,
    decreases k,
{
    if k > 0 {
        lemma_exhaustion_stable(step_pc(pc, len), len, (k - 1) as nat);
    }
}

impl MockInterpreter {
    /// Builds an interpreter positioned at the start of `code`.
    pub fn new(code: Vec<MockInstruction>) -> (r: Self)
        ensures
            r.code == code,
            r.pc == 0,
    {
        Self { code, pc: 0 }
    }

    /// Advances the program counter by one standard step without producing
    /// an effect; a no-op once the program is exhausted.
    pub fn next(&mut self)
        ensures
            final(self).pc == step_pc(old(self).pc as nat, old(self).code.len() as nat),
            final(self).code == old(self).code,
    {
        if self.pc < self.code.len() {
            self.pc = self.pc + 1;
        }
    }

    /// Runs one step under a caller-provided handler. The handler receives
    /// exclusive access to the interpreter and full authority over the
    /// counter; whatever the handler's contract promises of its result and
    /// of the interpreter it leaves behind holds of this call.
    pub fn next_with_custom_handler<T, F: FnOnce(&mut MockInterpreter) -> T>(
        &mut self,
        handler: CustomHandler<F>,
    ) -> (r: T)
        requires
            forall|m: &mut MockInterpreter| *m == *old(self) ==> call_requires(handler.handler, (m,)),
        ensures
            exists|m: &mut MockInterpreter|
                (*m == *old(self) && *final(m) == *final(self) && call_ensures(
                    handler.handler,
                    (m,),
                    r,
                )),
    {
        (handler.handler)(self)
    }
}

/// A single-shot step handler: a callable that observes and advances the
/// interpreter's counter and returns whatever the step means to its caller.
pub struct CustomHandler<F> {
    pub handler: F,
}

impl<F> CustomHandler<F> {
    /// Wraps a callable as a step handler.
    pub fn new(handler: F) -> (r: Self)
        ensures
            r.handler == handler,
    {
        Self { handler }
    }
}

} // verus!
