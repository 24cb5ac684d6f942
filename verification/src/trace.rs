//! What the driver did to the peripheral, as a sequence of steps, and the
//! logical state of the bus that the sequence implies.
use crate::registers::{Command, Condition, Direction, Event, Status};
use vstd::prelude::*;

verus! {

/// One thing the driver did. A handle's history is the sequence of its steps
/// since it was made.
pub enum Step {
    /// A full compiler fence.
    Fence,
    /// A register was written, or a task triggered.
    Write(Command),
    /// A register was read, and held this value.
    Read(Status, u32),
    /// A busy-wait on this condition came to its end.
    Wait(Condition),
    /// These bytes were copied to the start of the staging buffer.
    Stage(Seq<u8>),
}

/// The value that a read step saw; zero for any other step.
pub open spec fn read_value(step: Step) -> u32 {
    match step {
        Step::Read(_, value) => value,
        _ => 0,
    }
}

/// Logical state of the bus within one transaction.
pub enum Phase {
    /// No transaction is under way.
    Idle,
    /// A start task was triggered: the slave is being addressed.
    Address,
    /// The wait for the last transmitted byte is over.
    Tx,
    /// The wait for the last received byte is over.
    Rx,
    /// The stop task was triggered.
    Stop,
}

/// The phase after `step`, taken in `phase`.
///
/// A start task opens an address phase, from any phase: issued in mid
/// transaction it puts a repeated start on the bus. The end of the wait for a
/// last byte moves on from the address phase. The stop task can be triggered
/// in any phase, and the bus is idle again once the wait for the stopped
/// event is over.
pub open spec fn advance(phase: Phase, step: Step) -> Phase {
    match step {
        Step::Write(Command::Start(_)) => Phase::Address,
        Step::Write(Command::Stop) => Phase::Stop,
        Step::Wait(condition) => match (phase, condition.event) {
            (Phase::Address, Event::Last(Direction::Tx)) => Phase::Tx,
            (Phase::Address, Event::Last(Direction::Rx)) => Phase::Rx,
            (Phase::Stop, Event::Stopped) => Phase::Idle,
            _ => phase,
        },
        _ => phase,
    }
}

/// The phase that a history leaves the bus in, starting from idle.
pub open spec fn phase_after(history: Seq<Step>) -> Phase
    decreases history.len(),
{
    if history.len() == 0 {
        Phase::Idle
    } else {
        advance(phase_after(history.drop_last()), history.last())
    }
}

/// One more step moves the phase by [`advance`].
pub proof fn lemma_phase_after_push(history: Seq<Step>, step: Step)
    ensures
        phase_after(history.push(step)) == advance(phase_after(history), step),
{
    assert(history.push(step).drop_last() =~= history);
}

/// The edges of the bus's state machine: whether one step may take the bus
/// from `from` to `to`.
///
/// A transaction leaves idle by addressing the slave, moves on to transmit
/// or receive, may address the slave again after transmitting, and returns
/// to idle through the stop phase, which any phase of a transaction may
/// enter. A step that leaves the phase as it is takes no edge.
pub open spec fn follows(from: Phase, to: Phase) -> bool {
    from == to || match (from, to) {
        (Phase::Idle, Phase::Address) => true,
        (Phase::Address, Phase::Tx) => true,
        (Phase::Address, Phase::Rx) => true,
        (Phase::Tx, Phase::Address) => true,
        (Phase::Address, Phase::Stop) => true,
        (Phase::Tx, Phase::Stop) => true,
        (Phase::Rx, Phase::Stop) => true,
        (Phase::Stop, Phase::Idle) => true,
        _ => false,
    }
}

/// Every step of the history took the bus along an edge of its state
/// machine, or left it where it was.
pub open spec fn orderly(history: Seq<Step>) -> bool
    decreases history.len(),
{
    history.len() == 0 || (orderly(history.drop_last()) && follows(
        phase_after(history.drop_last()),
        phase_after(history),
    ))
}

/// One more step keeps a history orderly if and only if it takes an edge.
pub proof fn lemma_orderly_push(history: Seq<Step>, step: Step)
    ensures
        orderly(history.push(step)) == (orderly(history) && follows(
            phase_after(history),
            advance(phase_after(history), step),
        )),
{
    assert(history.push(step).drop_last() =~= history);
    lemma_phase_after_push(history, step);
}

/// Whether a step is something asked of the peripheral: a register write,
/// a register read or a wait. A fence and a staging copy are the driver's
/// own.
pub open spec fn on_registers(step: Step) -> bool {
    step is Write || step is Read || step is Wait
}

/// The steps among `steps` that were asked of the peripheral, in order.
pub open spec fn registers(steps: Seq<Step>) -> Seq<Step>
    decreases steps.len(),
{
    if steps.len() == 0 {
        Seq::empty()
    } else if on_registers(steps.last()) {
        registers(steps.drop_last()).push(steps.last())
    } else {
        registers(steps.drop_last())
    }
}

/// The peripheral's log kept pace with the driver's history: the history
/// only grew, and the log gained the register steps that the history
/// gained, those and no others, in the same order.
pub open spec fn kept_pace(
    log_before: Seq<Step>,
    history_before: Seq<Step>,
    log_after: Seq<Step>,
    history_after: Seq<Step>,
) -> bool {
    &&& history_before.is_prefix_of(history_after)
    &&& log_after == log_before + registers(history_after.skip(history_before.len() as int))
}

/// Where nothing was done, the log kept pace.
pub proof fn lemma_kept_pace_start(log: Seq<Step>, history: Seq<Step>)
    ensures
        kept_pace(log, history, log, history),
{
    assert(history.skip(history.len() as int) =~= Seq::<Step>::empty());
    assert(log + Seq::<Step>::empty() =~= log);
}

/// One more step, logged by the peripheral if it is a register step, keeps
/// the pace.
pub proof fn lemma_kept_pace_push(
    log_before: Seq<Step>,
    history_before: Seq<Step>,
    log: Seq<Step>,
    history: Seq<Step>,
    step: Step,
)
    requires
        kept_pace(log_before, history_before, log, history),
    ensures
        kept_pace(
            log_before,
            history_before,
            if on_registers(step) {
                log.push(step)
            } else {
                log
            },
            history.push(step),
        ),
{
    let n = history_before.len() as int;
    let taken = history.skip(n);
    assert(history.push(step).skip(n) =~= taken.push(step));
    assert(taken.push(step).drop_last() =~= taken);
    if on_registers(step) {
        assert(log.push(step) =~= log_before + registers(taken).push(step));
    }
}

/// The register steps of two stretches of history, one after the other.
pub proof fn lemma_registers_add(first: Seq<Step>, second: Seq<Step>)
    ensures
        registers(first + second) == registers(first) + registers(second),
    decreases second.len(),
{
    if second.len() == 0 {
        assert(first + second =~= first);
        assert(registers(first) + registers(second) =~= registers(first));
    } else {
        lemma_registers_add(first, second.drop_last());
        assert((first + second).drop_last() =~= first + second.drop_last());
        assert((first + second).last() == second.last());
        if on_registers(second.last()) {
            assert(registers(first + second) =~= registers(first) + registers(second));
        }
    }
}

/// Keeping pace over two stretches is keeping pace over both.
pub proof fn lemma_kept_pace_twice(
    log_before: Seq<Step>,
    history_before: Seq<Step>,
    log_between: Seq<Step>,
    history_between: Seq<Step>,
    log_after: Seq<Step>,
    history_after: Seq<Step>,
)
    requires
        kept_pace(log_before, history_before, log_between, history_between),
        kept_pace(log_between, history_between, log_after, history_after),
    ensures
        kept_pace(log_before, history_before, log_after, history_after),
{
    let first = history_between.skip(history_before.len() as int);
    let second = history_after.skip(history_between.len() as int);
    assert(history_after.skip(history_before.len() as int) =~= first + second);
    lemma_registers_add(first, second);
    assert(log_after =~= log_before + (registers(first) + registers(second)));
}

/// Where the log kept pace while the history gained `taken`, the log
/// gained the register steps of `taken`.
pub proof fn lemma_log_of_taken(
    log_before: Seq<Step>,
    history_before: Seq<Step>,
    log_after: Seq<Step>,
    history_after: Seq<Step>,
    taken: Seq<Step>,
)
    requires
        kept_pace(log_before, history_before, log_after, history_after),
        history_after == history_before + taken,
    ensures
        log_after == log_before + registers(taken),
{
    assert(history_after.skip(history_before.len() as int) =~= taken);
}

/// How often `step` stands in `steps`.
pub open spec fn occurrences(steps: Seq<Step>, step: Step) -> nat
    decreases steps.len(),
{
    if steps.len() == 0 {
        0
    } else {
        occurrences(steps.drop_last(), step) + if steps.last() == step {
            1nat
        } else {
            0nat
        }
    }
}

/// A step that stands at no index occurs zero times.
pub proof fn lemma_occurrences_none(steps: Seq<Step>, step: Step)
    requires
        forall|i: int| 0 <= i < steps.len() ==> steps[i] != step,
    ensures
        occurrences(steps, step) == 0,
    decreases steps.len(),
{
    if steps.len() > 0 {
        lemma_occurrences_none(steps.drop_last(), step);
    }
}

/// A step that stands at index `at` and nowhere else occurs once.
pub proof fn lemma_occurrences_one(steps: Seq<Step>, step: Step, at: int)
    requires
        0 <= at < steps.len(),
        steps[at] == step,
        forall|i: int| 0 <= i < steps.len() && i != at ==> steps[i] != step,
    ensures
        occurrences(steps, step) == 1,
    decreases steps.len(),
{
    if at == steps.len() - 1 {
        lemma_occurrences_none(steps.drop_last(), step);
    } else {
        lemma_occurrences_one(steps.drop_last(), step, at);
    }
}

} // verus!
