use vstd::prelude::*;

use crate::table::above_all;
use crate::table::is_lower_bound_index;
use crate::table::Breakpoint;
use crate::table::BreakpointTable;

verus! {

/// The fixed, unconditional delay between two regulation cycles, in
/// seconds.
pub const REGULATION_DELAY_SECONDS: u64 = 5;

/// What the regulator has decided to apply to the control surfaces for one
/// observed memory usage, before any arithmetic on the encoded numbers.
///
/// `Disable` turns the regulated subsystem off: the usage lies strictly
/// above every configured threshold, so no configured interval applies.
/// `Direct` re-enables the subsystem and applies a configured sleep value
/// unchanged: the usage is at or below the lowest threshold, so there is
/// no neighbour below to interpolate with. `Interpolate` re-enables the
/// subsystem and applies a value interpolated between the two bracketing
/// breakpoints; computing that value from the bit patterns is
/// floating-point work and is left to the caller.
#[derive(Clone, Copy, Debug, PartialEq, Eq, Structural)]
pub enum WritePlan {
    Disable,
    Direct { value_bits: u64 },
    Interpolate { below: Breakpoint, upper: Breakpoint, usage_bits: u64 },
}

/// The plan that a lower-bound position `i` dictates: the first entry
/// directly when there is no neighbour below, otherwise interpolation
/// between the entries at `i - 1` and `i`.
pub open spec fn expected_plan(s: Seq<Breakpoint>, u: u64, i: int) -> WritePlan {
    if i == 0 {
        WritePlan::Direct { value_bits: s[0].value_bits }
    } else {
        WritePlan::Interpolate { below: s[i - 1], upper: s[i], usage_bits: u }
    }
}

/// The plan `p` is the right response to usage `u` over the sorted table
/// `s`: disable exactly when the usage is above every threshold, and
/// otherwise the plan the lower-bound position dictates.
pub open spec fn plan_ok(s: Seq<Breakpoint>, u: u64, p: WritePlan) -> bool {
    &&& (above_all(s, u) <==> p is Disable)
    &&& (forall|i: int| is_lower_bound_index(s, u, i) ==> p == expected_plan(s, u, i))
}

/// One regulation decision: looks the usage up in the table and chooses
/// what to write, without touching the encoded numbers themselves.
pub fn decide(table: &BreakpointTable, usage_bits: u64) -> (p: WritePlan)
    requires
        table.wf(),
    ensures
        plan_ok(table@, usage_bits, p),
{
    let (i, above) = table.lookup(usage_bits);
    if above {
        WritePlan::Disable
    } else {
        proof {
            assert forall|j: int| is_lower_bound_index(table@, usage_bits, j) implies j
                == i as int by {
                if j < i as int {
                    assert(table@[j].threshold_bits < usage_bits);
                } else if j > i as int {
                    assert(table@[i as int].threshold_bits < usage_bits);
                }
            }
        }
        if i == 0 {
            WritePlan::Direct { value_bits: table.entry(0).value_bits }
        } else {
            WritePlan::Interpolate {
                below: table.entry(i - 1),
                upper: table.entry(i),
                usage_bits,
            }
        }
    }
}

/// The decision has no hidden state: any two plans that answer the same
/// usage over the same non-empty table are equal, so deciding twice on
/// identical inputs yields identical output.
pub proof fn lemma_decision_is_a_function(s: Seq<Breakpoint>, u: u64, p1: WritePlan, p2: WritePlan)
    requires
        s.len() > 0,
        plan_ok(s, u, p1),
        plan_ok(s, u, p2),
    ensures
        p1 == p2,
{
    if !above_all(s, u) {
        crate::table::lemma_lower_bound_exists(s, u);
        let i = choose|i: int| is_lower_bound_index(s, u, i);
        assert(p1 == expected_plan(s, u, i));
        assert(p2 == expected_plan(s, u, i));
    }
}

/// Where the regulation loop stands. A cycle runs `Sampling`, `Writing`,
/// `Sleeping` and back to `Sampling`; `Cancelled` is terminal.
#[derive(Clone, Copy, Debug, PartialEq, Eq, Structural)]
pub enum LoopState {
    Sampling,
    Writing,
    Sleeping,
    Cancelled,
}

/// What the environment reports back to the loop: the memory usage
/// percentage (as a bit pattern) derived from a finished sample, the
/// completion of the requested writes or of the fixed delay, or the
/// one-shot interrupt.
#[derive(Clone, Copy, Debug, PartialEq, Eq, Structural)]
pub enum LoopEvent {
    Sampled { usage_bits: u64 },
    Written,
    Slept,
    Interrupted,
}

/// What the loop asks the environment to do next: take a memory sample,
/// carry a plan onto the control surfaces, wait out the fixed delay, or
/// stop for good.
#[derive(Clone, Copy, Debug, PartialEq, Eq, Structural)]
pub enum LoopAction {
    Sample,
    Write(WritePlan),
    Sleep,
    Exit,
}

/// The transition relation of the regulation loop. An interrupt, a
/// terminal state, or an event that does not answer the pending action
/// all end the loop; otherwise the cycle advances, and a fresh sample is
/// answered with a write whose plan is the right response to it.
pub open spec fn step_ok(
    s: Seq<Breakpoint>,
    state: LoopState,
    event: LoopEvent,
    next: LoopState,
    action: LoopAction,
) -> bool {
    if state is Cancelled || event is Interrupted {
        next is Cancelled && action is Exit
    } else if state is Sampling {
        match event {
            LoopEvent::Sampled { usage_bits } => {
                &&& next is Writing
                &&& (action matches LoopAction::Write(p) && plan_ok(s, usage_bits, p))
            },
            _ => next is Cancelled && action is Exit,
        }
    } else if state is Writing && event is Written {
        next is Sleeping && action is Sleep
    } else if state is Sleeping && event is Slept {
        next is Sampling && action is Sample
    } else {
        next is Cancelled && action is Exit
    }
}

/// Advances the regulation loop by one event.
pub fn step(table: &BreakpointTable, state: LoopState, event: LoopEvent) -> (r: (
    LoopState,
    LoopAction,
))
    requires
        table.wf(),
    ensures
        step_ok(table@, state, event, r.0, r.1),
{
    match (state, event) {
        (_, LoopEvent::Interrupted) => (LoopState::Cancelled, LoopAction::Exit),
        (LoopState::Cancelled, _) => (LoopState::Cancelled, LoopAction::Exit),
        (LoopState::Sampling, LoopEvent::Sampled { usage_bits }) => (
            LoopState::Writing,
            LoopAction::Write(decide(table, usage_bits)),
        ),
        (LoopState::Writing, LoopEvent::Written) => (LoopState::Sleeping, LoopAction::Sleep),
        (LoopState::Sleeping, LoopEvent::Slept) => (LoopState::Sampling, LoopAction::Sample),
        _ => (LoopState::Cancelled, LoopAction::Exit),
    }
}

/// Cancellation is final and quiet: once the interrupt has fired, or once
/// the loop stands cancelled, a step never asks for another control-surface
/// write and the loop stays cancelled.
pub proof fn lemma_no_write_after_cancellation(
    s: Seq<Breakpoint>,
    state: LoopState,
    event: LoopEvent,
    next: LoopState,
    action: LoopAction,
)
    requires
        step_ok(s, state, event, next, action),
        state is Cancelled || event is Interrupted,
    ensures
        next is Cancelled,
        !(action is Write),
{
}

} // verus!
