//! Laws of scripts: what a run of any script comes to, and that the scripts
//! of the drivers use nothing that they do not hold.
use crate::script::{
    due_action, is_running, maps_perst, next_state, plain, reaches, required, skipping,
    start_state, successor, Action, Instr, OnFailure, RunState, Slot,
};
use vstd::prelude::*;

verus! {

/// The state of a run of `script` after `steps` reports, when the action of
/// instruction `i` succeeds exactly if `ok(i)`. A run that is over stays.
pub open spec fn run_state(script: Seq<Instr>, ok: spec_fn(int) -> bool, steps: nat) -> RunState
    decreases steps,
{
    if steps == 0 {
        start_state()
    } else {
        let before = run_state(script, ok, (steps - 1) as nat);
        if is_running(script, before) {
            next_state(script, before, ok(before.pc))
        } else {
            before
        }
    }
}

/// A run never goes back: each report either ends it or takes it at least one
/// instruction further, and never past the end.
pub proof fn lemma_run_advances(script: Seq<Instr>, state: RunState, ok: bool)
    requires
        is_running(script, state),
    ensures
        next_state(script, state, ok).aborted || state.pc < next_state(script, state, ok).pc
            <= script.len(),
        next_state(script, state, ok).aborted ==> !ok && script[state.pc].on_failure
            == OnFailure::Abort,
{
}

/// A run is over after at most as many reports as its script has
/// instructions.
pub proof fn lemma_run_ends(script: Seq<Instr>, ok: spec_fn(int) -> bool)
    ensures
        !is_running(script, run_state(script, ok, script.len())),
{
    lemma_run_progress(script, ok, script.len());
}

proof fn lemma_run_progress(script: Seq<Instr>, ok: spec_fn(int) -> bool, steps: nat)
    ensures
        is_running(script, run_state(script, ok, steps)) ==> run_state(script, ok, steps).pc
            >= steps,
        0 <= run_state(script, ok, steps).pc <= script.len(),
    decreases steps,
{
    if steps > 0 {
        lemma_run_progress(script, ok, (steps - 1) as nat);
    }
}

/// The instructions that a run comes to are those that [`reaches`] names.
pub proof fn lemma_run_reaches(script: Seq<Instr>, ok: spec_fn(int) -> bool, steps: nat)
    ensures
        reaches(script, ok, 0, run_state(script, ok, steps).pc),
    decreases steps,
{
    if steps > 0 {
        lemma_run_reaches(script, ok, (steps - 1) as nat);
        lemma_run_progress(script, ok, (steps - 1) as nat);
        let before = run_state(script, ok, (steps - 1) as nat);
        if is_running(script, before) {
            match successor(script, before.pc, ok(before.pc)) {
                Some(next) => {
                    lemma_reaches_step(script, ok, 0, before.pc);
                },
                None => {},
            }
        }
    }
}

/// Whatever [`reaches`] names, some run comes to it.
pub proof fn lemma_reached_by_run(script: Seq<Instr>, ok: spec_fn(int) -> bool, to: int)
    requires
        reaches(script, ok, 0, to),
    ensures
        exists|steps: nat| (#[trigger] run_state(script, ok, steps)).pc == to,
{
    assert(run_state(script, ok, 0) == start_state());
    lemma_reached_from(script, ok, 0, to);
}

proof fn lemma_reached_from(script: Seq<Instr>, ok: spec_fn(int) -> bool, steps: nat, to: int)
    requires
        !run_state(script, ok, steps).aborted,
        0 <= run_state(script, ok, steps).pc,
        reaches(script, ok, run_state(script, ok, steps).pc, to),
    ensures
        exists|more: nat| (#[trigger] run_state(script, ok, more)).pc == to,
    decreases script.len() - run_state(script, ok, steps).pc,
{
    let state = run_state(script, ok, steps);
    if state.pc != to {
        let after = run_state(script, ok, steps + 1);
        assert(after == next_state(script, state, ok(state.pc)));
        lemma_reached_from(script, ok, steps + 1, to);
    }
}

/// Whether instruction `j` of a run has mapped the bank of the reset line.
pub open spec fn mapped_perst_at(
    script: Seq<Instr>,
    ok: spec_fn(int) -> bool,
    before: int,
    j: int,
) -> bool {
    0 <= j < before && j < script.len() && reaches(script, ok, 0, j) && ok(j) && maps_perst(
        script[j].action,
    )
}

/// The host is started with a reset line only where the bank of the line has
/// been mapped before.
pub proof fn lemma_perst_is_mapped(script: Seq<Instr>, ok: spec_fn(int) -> bool, steps: nat)
    requires
        is_running(script, run_state(script, ok, steps)),
        due_action(script, run_state(script, ok, steps)) matches Action::StartHost { perst, .. }
            && perst is Some,
    ensures
        exists|j: int|
            mapped_perst_at(script, ok, run_state(script, ok, steps).pc, j),
{
    lemma_perst_state(script, ok, steps);
}

proof fn lemma_perst_state(script: Seq<Instr>, ok: spec_fn(int) -> bool, steps: nat)
    requires
        run_state(script, ok, steps).perst,
        !run_state(script, ok, steps).aborted,
    ensures
        exists|j: int|
            mapped_perst_at(script, ok, run_state(script, ok, steps).pc, j),
    decreases steps,
{
    if steps > 0 {
        let last = (steps - 1) as nat;
        let before = run_state(script, ok, last);
        let after = run_state(script, ok, steps);
        lemma_run_progress(script, ok, last);
        lemma_run_reaches(script, ok, last);
        if is_running(script, before) {
            lemma_run_advances(script, before, ok(before.pc));
            if maps_perst(script[before.pc].action) {
                assert(mapped_perst_at(script, ok, after.pc, before.pc));
            } else {
                lemma_perst_state(script, ok, last);
                let j = choose|j: int| mapped_perst_at(script, ok, before.pc, j);
                assert(mapped_perst_at(script, ok, after.pc, j));
            }
        } else {
            lemma_perst_state(script, ok, last);
        }
    }
}

/// A run that comes to an instruction comes to its successor.
pub proof fn lemma_reaches_step(
    script: Seq<Instr>,
    ok: spec_fn(int) -> bool,
    from: int,
    at: int,
)
    requires
        0 <= from,
        0 <= at < script.len(),
        reaches(script, ok, from, at),
    ensures
        successor(script, at, ok(at)) matches Some(next) ==> reaches(script, ok, from, next),
    decreases script.len() - from,
{
    match successor(script, at, ok(at)) {
        Some(next) => {
            if from == at {
                assert(reaches(script, ok, next, next));
            } else {
                let mid = successor(script, from, ok(from))->0;
                lemma_reaches_step(script, ok, mid, at);
            }
        },
        None => {},
    }
}

/// Whether no instruction of `script` leaves out more than the rest of it.
pub open spec fn closed(script: Seq<Instr>) -> bool {
    forall|i: int| #![trigger script[i]]
        0 <= i < script.len() ==> i + 1 + script[i].on_success <= script.len() && (
        script[i].on_failure matches OnFailure::Skip(count) ==> i + 1 + count <= script.len())
}

/// The same outcomes, seen from instruction `by` on.
pub open spec fn shifted(ok: spec_fn(int) -> bool, by: int) -> spec_fn(int) -> bool {
    |i: int| ok(by + i)
}

/// A closed script that is followed by another runs as if it were alone.
pub proof fn lemma_reaches_first(
    a: Seq<Instr>,
    b: Seq<Instr>,
    ok: spec_fn(int) -> bool,
    from: int,
    to: int,
)
    requires
        closed(a),
        0 <= from <= a.len(),
        to <= a.len(),
    ensures
        reaches(a + b, ok, from, to) == reaches(a, ok, from, to),
    decreases a.len() - from,
{
    if from < to {
        assert((a + b)[from] == a[from]);
        match successor(a, from, ok(from)) {
            Some(next) => {
                assert(successor(a + b, from, ok(from)) == Some(next));
                lemma_reaches_first(a, b, ok, next, to);
            },
            None => {},
        }
    }
}

/// A run of two scripts comes to the second exactly where it comes to the end
/// of the first.
pub proof fn lemma_reaches_across(
    a: Seq<Instr>,
    b: Seq<Instr>,
    ok: spec_fn(int) -> bool,
    from: int,
    to: int,
)
    requires
        closed(a),
        0 <= from <= a.len() <= to,
    ensures
        reaches(a + b, ok, from, to) == (reaches(a, ok, from, a.len() as int) && reaches(
            a + b,
            ok,
            a.len() as int,
            to,
        )),
    decreases a.len() - from,
{
    if from < a.len() {
        assert((a + b)[from] == a[from]);
        match successor(a, from, ok(from)) {
            Some(next) => {
                assert(successor(a + b, from, ok(from)) == Some(next));
                lemma_reaches_across(a, b, ok, next, to);
            },
            None => {},
        }
    }
}

/// The second of two scripts runs as if it were alone.
pub proof fn lemma_reaches_second(
    a: Seq<Instr>,
    b: Seq<Instr>,
    ok: spec_fn(int) -> bool,
    from: int,
    to: int,
)
    requires
        0 <= from,
    ensures
        reaches(a + b, ok, a.len() + from, a.len() + to) == reaches(
            b,
            shifted(ok, a.len() as int),
            from,
            to,
        ),
    decreases b.len() - from,
{
    if from < to && from < b.len() {
        assert((a + b)[a.len() + from] == b[from]);
        let later = shifted(ok, a.len() as int);
        match successor(b, from, later(from)) {
            Some(next) => {
                assert(successor(a + b, a.len() + from, ok(a.len() + from)) == Some(
                    a.len() + next,
                ));
                lemma_reaches_second(a, b, ok, next, to);
            },
            None => {},
        }
    }
}

/// Two scripts that are closed make one that is.
pub proof fn lemma_closed_concat(a: Seq<Instr>, b: Seq<Instr>)
    requires
        closed(a),
        closed(b),
    ensures
        closed(a + b),
{
    assert forall|i: int| #![trigger (a + b)[i]] 0 <= i < (a + b).len() implies i + 1 + (a
        + b)[i].on_success <= (a + b).len() && ((a + b)[i].on_failure matches OnFailure::Skip(count)
        ==> i + 1 + count <= (a + b).len()) by {
        if i < a.len() {
            assert((a + b)[i] == a[i]);
        } else {
            assert((a + b)[i] == b[i - a.len()]);
        }
    }
}

/// Something that an action gets hold of and later actions use.
pub enum Resource {
    /// The window that a slot stands for.
    Window(Slot),
    /// The clock device acquired last.
    ClockDevice,
    /// The PCIe host.
    Host,
}

/// Whether `action` uses `resource`: of a window, the first `bytes` bytes.
pub open spec fn needs(action: Action, resource: Resource, bytes: int) -> bool {
    match action {
        Action::Write { slot, offset, .. } => resource == Resource::Window(slot) && bytes == offset
            + 4,
        Action::Update { slot, offset, .. } => resource == Resource::Window(slot) && bytes == offset
            + 4,
        Action::SetRate { .. } => resource == Resource::ClockDevice && bytes == 0,
        Action::PeripheralEnable => resource == Resource::ClockDevice && bytes == 0,
        Action::StartHost { .. } => bytes == 0 && (resource == Resource::Window(Slot::Apb)
            || resource == Resource::Window(Slot::Dbi) || resource == Resource::Window(Slot::Cfg)),
        Action::ProgramWindow { .. } => resource == Resource::Host && bytes == 0,
        Action::UnmaskLegacyIntx => resource == Resource::Host && bytes == 0,
        Action::SetBarRange { .. } => resource == Resource::Host && bytes == 0,
        Action::RegisterController => resource == Resource::Host && bytes == 0,
        _ => false,
    }
}

/// Whether `action`, when it succeeds, gets hold of `resource`.
pub open spec fn provides(action: Action, resource: Resource) -> bool {
    match action {
        Action::MapWindow { slot, .. } => resource == Resource::Window(slot),
        Action::AcquireClock { .. } => resource == Resource::ClockDevice,
        Action::StartHost { .. } => resource == Resource::Host,
        _ => false,
    }
}

/// Whether `action`, when it succeeds, gets hold of `resource`: of a window,
/// at least `bytes` bytes.
pub open spec fn covers(action: Action, resource: Resource, bytes: int) -> bool {
    &&& provides(action, resource)
    &&& action matches Action::MapWindow { window, .. } ==> bytes <= window.size
}

/// Whether, in a run that is at instruction `i`, instruction `j` is the one
/// that has got hold of `resource`, and of enough of it.
pub open spec fn provided_at(
    script: Seq<Instr>,
    ok: spec_fn(int) -> bool,
    i: int,
    resource: Resource,
    bytes: int,
    j: int,
) -> bool {
    &&& 0 <= j < i
    &&& reaches(script, ok, 0, j)
    &&& ok(j)
    &&& covers(script[j].action, resource, bytes)
    &&& forall|k: int|
        j < k < i && #[trigger] reaches(script, ok, 0, k) ==> !provides(script[k].action, resource)
}

/// Whether, however the actions of `script` go, each action that is due finds
/// what it uses: an earlier action that has succeeded got hold of it.
pub open spec fn guarded(script: Seq<Instr>) -> bool {
    forall|ok: spec_fn(int) -> bool, i: int, resource: Resource, bytes: int|
        0 <= i < script.len() && #[trigger] reaches(script, ok, 0, i) && #[trigger] needs(
            script[i].action,
            resource,
            bytes,
        ) ==> exists|j: int| provided_at(script, ok, i, resource, bytes, j)
}

/// Two scripts that are guarded make one that is.
pub proof fn lemma_guarded_concat(a: Seq<Instr>, b: Seq<Instr>)
    requires
        closed(a),
        guarded(a),
        guarded(b),
    ensures
        guarded(a + b),
{
    let n = a.len() as int;
    assert forall|ok: spec_fn(int) -> bool, i: int, resource: Resource, bytes: int|
        0 <= i < (a + b).len() && #[trigger] reaches(a + b, ok, 0, i) && #[trigger] needs(
            (a + b)[i].action,
            resource,
            bytes,
        ) implies exists|j: int| provided_at(a + b, ok, i, resource, bytes, j) by {
        if i < n {
            assert((a + b)[i] == a[i]);
            lemma_reaches_first(a, b, ok, 0, i);
            assert(reaches(a, ok, 0, i) && needs(a[i].action, resource, bytes));
            let j = choose|j: int| provided_at(a, ok, i, resource, bytes, j);
            assert((a + b)[j] == a[j]);
            lemma_reaches_first(a, b, ok, 0, j);
            assert forall|k: int| j < k < i && #[trigger] reaches(a + b, ok, 0, k) implies !provides(
                (a + b)[k].action,
                resource,
            ) by {
                lemma_reaches_first(a, b, ok, 0, k);
                assert((a + b)[k] == a[k]);
            }
            assert(provided_at(a + b, ok, i, resource, bytes, j));
        } else {
            let later = shifted(ok, n);
            assert((a + b)[i] == b[i - n]);
            lemma_reaches_across(a, b, ok, 0, i);
            lemma_reaches_second(a, b, ok, 0, i - n);
            assert(reaches(b, later, 0, i - n) && needs(b[i - n].action, resource, bytes));
            let m = i - n;
            let j = choose|j: int| provided_at(b, later, m, resource, bytes, j);
            assert((a + b)[n + j] == b[j]);
            lemma_reaches_across(a, b, ok, 0, n + j);
            lemma_reaches_second(a, b, ok, 0, j);
            assert forall|k: int| n + j < k < i && #[trigger] reaches(a + b, ok, 0, k) implies !provides(
                (a + b)[k].action,
                resource,
            ) by {
                lemma_reaches_across(a, b, ok, 0, k);
                lemma_reaches_second(a, b, ok, 0, k - n);
                assert((a + b)[k] == b[k - n]);
                assert(reaches(b, later, 0, k - n));
            }
            assert(provided_at(a + b, ok, i, resource, bytes, n + j));
        }
    }
}

/// Whether every instruction of `script` leads to the next, or ends the run.
pub open spec fn straight(script: Seq<Instr>) -> bool {
    forall|i: int| #![trigger script[i]]
        0 <= i < script.len() ==> script[i].on_success == 0 && (script[i].on_failure
            == OnFailure::Continue || script[i].on_failure == OnFailure::Abort)
}

/// A run of a straight script comes to an instruction exactly if every one
/// before it that could have ended the run has succeeded.
pub proof fn lemma_straight_reaches(
    script: Seq<Instr>,
    ok: spec_fn(int) -> bool,
    from: int,
    to: int,
)
    requires
        straight(script),
        0 <= from <= to <= script.len(),
    ensures
        reaches(script, ok, from, to) <==> forall|k: int| #![trigger script[k]]
            from <= k < to && script[k].on_failure == OnFailure::Abort ==> ok(k),
    decreases to - from,
{
    if from < to {
        assert(script[from].on_success == 0);
        if ok(from) || script[from].on_failure == OnFailure::Continue {
            assert(successor(script, from, ok(from)) == Some(from + 1));
            lemma_straight_reaches(script, ok, from + 1, to);
        } else {
            assert(successor(script, from, ok(from)) is None);
        }
    }
}

/// A script that uses nothing is guarded.
pub proof fn lemma_guarded_if_unneeding(script: Seq<Instr>)
    requires
        forall|i: int, resource: Resource, bytes: int|
            0 <= i < script.len() ==> !#[trigger] needs(script[i].action, resource, bytes),
    ensures
        guarded(script),
{
}

/// How a run goes on. After a success it leaves out as many instructions as the
/// instruction says; after a failure it goes to the next one, leaves some out, or
/// is over where it stands. It never goes past the end.
pub proof fn lemma_next_instruction(script: Seq<Instr>, state: RunState, ok: bool)
    requires
        is_running(script, state),
    ensures
        ({
            let instr = script[state.pc];
            let after = next_state(script, state, ok);
            let ended = !ok && instr.on_failure == OnFailure::Abort;
            let left_out = if ok {
                instr.on_success as int
            } else {
                match instr.on_failure {
                    OnFailure::Skip(count) => count as int,
                    _ => 0,
                }
            };
            &&& after.aborted == ended
            &&& ended ==> after.pc == state.pc
            &&& !ended && state.pc + 1 + left_out <= script.len() ==> after.pc == state.pc + 1
                + left_out
            &&& !ended && state.pc + 1 + left_out > script.len() ==> after.pc == script.len()
        }),
{
}

/// What a run knows of the window of the reset line: whether the last attempt at
/// mapping it has worked, and before the first that it is not mapped.
pub proof fn lemma_reset_line_known(script: Seq<Instr>, state: RunState, ok: bool)
    requires
        is_running(script, state),
    ensures
        !start_state().perst && !start_state().aborted && start_state().pc == 0,
        (script[state.pc].action matches Action::MapWindow { slot, .. } && slot == Slot::Perst)
            ==> next_state(script, state, ok).perst == ok,
        !(script[state.pc].action matches Action::MapWindow { slot, .. } && slot == Slot::Perst)
            ==> next_state(script, state, ok).perst == state.perst,
{
}

/// The action that is due is that of the instruction, as it stands, but that a
/// host is started without its reset line as long as that is not mapped.
pub proof fn lemma_due_action(script: Seq<Instr>, state: RunState)
    requires
        is_running(script, state),
    ensures
        !(script[state.pc].action is StartHost) || state.perst ==> due_action(script, state)
            == script[state.pc].action,
        script[state.pc].action matches Action::StartHost { config, .. } ==> !state.perst
            ==> due_action(script, state) == (Action::StartHost { config, perst: None }),
{
}

/// The three ways to make an instruction.
pub proof fn lemma_made_instructions(action: Action, count: usize)
    ensures
        plain(action).action == action && plain(action).on_success == 0 && plain(action).on_failure
            == OnFailure::Continue,
        skipping(action, count).action == action && skipping(action, count).on_success == 0
            && skipping(action, count).on_failure == OnFailure::Skip(count),
        required(action).action == action && required(action).on_success == 0 && required(
            action,
        ).on_failure == OnFailure::Abort,
{
}

/// An action is due exactly as long as no failure has ended the run and an
/// instruction is left, to the last.
pub proof fn lemma_running(script: Seq<Instr>, state: RunState)
    ensures
        is_running(script, state) <==> !state.aborted && 0 <= state.pc && state.pc + 1
            <= script.len(),
{
}

} // verus!
