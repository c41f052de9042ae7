//! A model of the hardware: what registers hold while actions are performed.
//!
//! Nothing of the drivers is stated here. The laws that speak of what a script
//! does to the hardware are stated over this model.
use crate::guard::{closed, run_state};
use crate::hiword::{hiword_apply, masked_update};
use crate::script::{is_running, Action, Instr, Slot};
use vstd::prelude::*;

verus! {

/// What the windows stand for, and what the registers hold by their physical
/// addresses.
pub struct Machine {
    /// Where the window that was mapped last for a slot begins.
    pub base: spec_fn(Slot) -> int,
    pub registers: spec_fn(int) -> u32,
}

/// The machine after `action` has succeeded. The registers of a PHY take a
/// write whole; all others take it bit by bit, as its upper half says.
pub open spec fn after_action(machine: Machine, action: Action) -> Machine {
    match action {
        Action::MapWindow { slot, window } => Machine {
            base: |other: Slot|
                if other == slot {
                    window.base as int
                } else {
                    (machine.base)(other)
                },
            registers: machine.registers,
        },
        Action::Write { slot, offset, value } => Machine {
            base: machine.base,
            registers: |address: int|
                if address == (machine.base)(slot) + offset {
                    if slot == Slot::Phy {
                        value
                    } else {
                        hiword_apply((machine.registers)(address), value)
                    }
                } else {
                    (machine.registers)(address)
                },
        },
        Action::Update { slot, offset, mask, value } => Machine {
            base: machine.base,
            registers: |address: int|
                if address == (machine.base)(slot) + offset {
                    masked_update((machine.registers)(address), mask, value)
                } else {
                    (machine.registers)(address)
                },
        },
        _ => machine,
    }
}

/// The machine after `actions` have succeeded, one after the other.
pub open spec fn after_actions(machine: Machine, actions: Seq<Action>) -> Machine
    decreases actions.len(),
{
    if actions.len() == 0 {
        machine
    } else {
        after_action(after_actions(machine, actions.drop_last()), actions.last())
    }
}

/// The actions that a run of `script` performs from instruction `pc` on, when
/// all of them succeed.
pub open spec fn performed(script: Seq<Instr>, pc: int) -> Seq<Action>
    decreases script.len() - pc,
{
    if 0 <= pc < script.len() {
        let next = pc + 1 + script[pc].on_success;
        seq![script[pc].action] + performed(
            script,
            if next < script.len() {
                next
            } else {
                script.len() as int
            },
        )
    } else {
        seq![]
    }
}

/// Performing two lists of actions is performing one after the other.
pub proof fn lemma_after_concat(machine: Machine, a: Seq<Action>, b: Seq<Action>)
    ensures
        after_actions(machine, a + b) == after_actions(after_actions(machine, a), b),
    decreases b.len(),
{
    if b.len() == 0 {
        assert(a + b =~= a);
    } else {
        assert((a + b).drop_last() =~= a + b.drop_last());
        lemma_after_concat(machine, a, b.drop_last());
    }
}

/// What two scripts perform is what the first performs, and then the second.
pub proof fn lemma_performed_concat(a: Seq<Instr>, b: Seq<Instr>, pc: int)
    requires
        closed(a),
        0 <= pc <= a.len(),
    ensures
        performed(a + b, pc) == performed(a, pc) + performed(b, 0),
    decreases a.len() - pc,
{
    if pc < a.len() {
        assert((a + b)[pc] == a[pc]);
        let next = pc + 1 + a[pc].on_success;
        lemma_performed_concat(a, b, next);
        assert(performed(a + b, pc) =~= performed(a, pc) + performed(b, 0));
    } else {
        lemma_performed_second(a, b, 0);
        assert(performed(a, pc) =~= seq![]);
        assert(performed(a, pc) + performed(b, 0) =~= performed(b, 0));
    }
}

proof fn lemma_performed_second(a: Seq<Instr>, b: Seq<Instr>, pc: int)
    requires
        0 <= pc,
    ensures
        performed(a + b, a.len() + pc) == performed(b, pc),
    decreases b.len() - pc,
{
    if pc < b.len() {
        assert((a + b)[a.len() + pc] == b[pc]);
        let next = pc + 1 + b[pc].on_success;
        lemma_performed_second(
            a,
            b,
            if next < b.len() {
                next
            } else {
                b.len() as int
            },
        );
    }
}

/// A script that leaves nothing out after a success performs all its actions.
pub proof fn lemma_performed_straight(script: Seq<Instr>, pc: int)
    requires
        0 <= pc <= script.len(),
        forall|i: int| 0 <= i < script.len() ==> (#[trigger] script[i]).on_success == 0,
    ensures
        performed(script, pc) == Seq::new(
            (script.len() - pc) as nat,
            |i: int| script[pc + i].action,
        ),
    decreases script.len() - pc,
{
    if pc < script.len() {
        lemma_performed_straight(script, pc + 1);
    }
    assert(performed(script, pc) =~= Seq::new(
        (script.len() - pc) as nat,
        |i: int| script[pc + i].action,
    ));
}

/// Whether an action leaves windows and registers alone.
pub open spec fn is_aloof(action: Action) -> bool {
    !(action is MapWindow) && !(action is Write) && !(action is Update)
}

/// Actions that leave windows and registers alone change nothing.
pub proof fn lemma_after_aloof(machine: Machine, actions: Seq<Action>)
    requires
        forall|i: int| 0 <= i < actions.len() ==> is_aloof(#[trigger] actions[i]),
    ensures
        after_actions(machine, actions) == machine,
    decreases actions.len(),
{
    if actions.len() > 0 {
        assert(is_aloof(actions[actions.len() - 1]));
        assert forall|i: int| 0 <= i < actions.drop_last().len() implies is_aloof(
            #[trigger] actions.drop_last()[i],
        ) by {
            assert(is_aloof(actions[i]));
        }
        lemma_after_aloof(machine, actions.drop_last());
    }
}

/// The machine after the first `count` of `actions` have succeeded.
pub open spec fn after_first(machine: Machine, actions: Seq<Action>, count: int) -> Machine
    decreases count,
{
    if count <= 0 {
        machine
    } else {
        after_action(after_first(machine, actions, count - 1), actions[count - 1])
    }
}

/// The first actions of a list, counted or cut off.
pub proof fn lemma_after_first(machine: Machine, actions: Seq<Action>, count: int)
    requires
        0 <= count <= actions.len(),
    ensures
        after_first(machine, actions, count) == after_actions(machine, actions.take(count)),
    decreases count,
{
    if count > 0 {
        lemma_after_first(machine, actions, count - 1);
        assert(actions.take(count).drop_last() =~= actions.take(count - 1));
    }
}

/// What is performed is what a run comes to whose actions all succeed, one action
/// after the other, and nothing after that.
pub proof fn lemma_performed_by_run(script: Seq<Instr>, steps: nat)
    ensures
        ({
            let state = run_state(script, |i: int| true, steps);
            let actions = performed(script, 0);
            &&& steps < actions.len() ==> is_running(script, state) && script[state.pc].action
                == actions[steps as int]
            &&& steps >= actions.len() ==> !is_running(script, state) && !state.aborted
        }),
{
    lemma_run_performs(script, steps);
}

proof fn lemma_run_performs(script: Seq<Instr>, steps: nat)
    ensures
        ({
            let state = run_state(script, |i: int| true, steps);
            let actions = performed(script, 0);
            &&& !state.aborted
            &&& 0 <= state.pc <= script.len()
            &&& steps <= actions.len() ==> performed(script, state.pc) == actions.skip(
                steps as int,
            )
            &&& steps >= actions.len() ==> state.pc == script.len()
            &&& steps < actions.len() ==> state.pc < script.len() && script[state.pc].action
                == actions[steps as int]
        }),
    decreases steps,
{
    let actions = performed(script, 0);
    let state = run_state(script, |i: int| true, steps);
    if steps == 0 {
        assert(actions.skip(0) =~= actions);
    } else {
        let last = (steps - 1) as nat;
        lemma_run_performs(script, last);
        let before = run_state(script, |i: int| true, last);
        if last < actions.len() {
            assert(actions.skip(last as int) == seq![script[before.pc].action] + performed(
                script,
                state.pc,
            ));
            assert(actions.skip(steps as int) =~= actions.skip(last as int).skip(1));
            assert(actions.skip(steps as int) =~= performed(script, state.pc));
        }
    }
    if steps <= actions.len() {
        if state.pc < script.len() {
            assert(performed(script, state.pc).len() > 0);
            assert(actions.skip(steps as int)[0] == actions[steps as int]);
        } else {
            assert(performed(script, state.pc).len() == 0);
        }
    }
}

} // verus!
