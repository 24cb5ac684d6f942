//! What follows from the register sequences of the transactions.
use crate::error::Error;
use crate::memory::Descriptor;
use crate::protocol::{
    combined, combined_opening, copied, copy_opening, copy_stalled, nack_abort, staged_burst,
    staged_bursts, window, windows,
};
use crate::registers::{Command, Direction, Event, Status};
use crate::target_constants::EASY_DMA_SIZE;
use crate::trace::{lemma_occurrences_none, lemma_occurrences_one, occurrences, read_value, Step};
use vstd::prelude::*;

verus! {

/// When a write followed by a read returns `AddressNack`, the steps it took
/// hold the stop task exactly once and the start of the receive burst not at
/// all: the DMA engine never got to write to the destination.
pub proof fn lemma_address_nack_stops_once(
    before: Seq<Step>,
    after: Seq<Step>,
    address: u8,
    tx: Descriptor,
    rx: Descriptor,
    r: Result<(), Error>,
)
    requires
        combined(before, after, address, tx, rx, r),
        (r matches Err(Error::AddressNack)),
    ensures
        before.is_prefix_of(after),
        occurrences(after.skip(before.len() as int), Step::Write(Command::Stop)) == 1,
        occurrences(
            after.skip(before.len() as int),
            Step::Write(Command::Start(Direction::Rx)),
        ) == 0,
        after.last() == Step::Write(Command::ClearEvent(Event::Stopped)),
{
    let opened = before + combined_opening(address, tx, rx);
    let anack = read_value(after[opened.len() as int]);
    let taken = after.skip(before.len() as int);
    assert(taken =~= combined_opening(address, tx, rx) + nack_abort(anack));
    assert(taken.len() == 14);
    lemma_occurrences_one(taken, Step::Write(Command::Stop), 11);
    lemma_occurrences_none(taken, Step::Write(Command::Start(Direction::Rx)));
}

/// Where window `i` stands among the first `k` windows sent: seven steps to
/// a window, the staging first and the read of the amount last, and the
/// amount read is the window's length.
pub proof fn lemma_staged_bursts_layout(source: Seq<u8>, scratch: usize, k: nat, i: nat)
    requires
        i < k,
    ensures
        staged_bursts(source, scratch, k).len() == 7 * k,
        staged_bursts(source, scratch, k).subrange(7 * i as int, 7 * i as int + 7) == staged_burst(
            window(source, i),
            scratch,
            window(source, i).len() as u32,
        ),
    decreases k,
{
    let sent = (k - 1) as nat;
    let head = staged_bursts(source, scratch, sent);
    let last = staged_burst(window(source, sent), scratch, window(source, sent).len() as u32);
    assert(staged_bursts(source, scratch, k) == head + last);
    lemma_staged_bursts_len(source, scratch, sent);
    if i < sent {
        lemma_staged_bursts_layout(source, scratch, sent, i);
        let at = 7 * i as int;
        assert((head + last).subrange(at, at + 7) =~= head.subrange(at, at + 7));
    } else {
        assert((head + last).subrange(7 * i as int, 7 * i as int + 7) =~= last);
    }
}

/// The first `k` windows take seven steps each.
pub proof fn lemma_staged_bursts_len(source: Seq<u8>, scratch: usize, k: nat)
    ensures
        staged_bursts(source, scratch, k).len() == 7 * k,
    decreases k,
{
    if k > 0 {
        lemma_staged_bursts_len(source, scratch, (k - 1) as nat);
    }
}

/// A copied write followed by a read that did not return `Transmit` sent
/// every window of the source, in order: window `i` was staged, sent with its
/// own length as the burst's length, and its amount was read and found equal
/// to that length before the next window was staged.
pub proof fn lemma_copied_sends_every_window(
    before: Seq<Step>,
    after: Seq<Step>,
    address: u8,
    source: Seq<u8>,
    scratch: usize,
    rx: Descriptor,
    r: Result<(), Error>,
    i: nat,
)
    requires
        copied(before, after, address, source, scratch, rx, r),
        rx.len <= EASY_DMA_SIZE,
        !(r matches Err(Error::Transmit)),
        i < windows(source),
    ensures
        after.len() == before.len() + 4 + 7 * windows(source) + 8,
        after[before.len() as int + 4 + 7 * i as int] == Step::Stage(window(source, i)),
        after[before.len() as int + 4 + 7 * i as int + 2] == Step::Write(
            Command::SetMaxcnt(Direction::Tx, window(source, i).len() as usize),
        ),
        after[before.len() as int + 4 + 7 * i as int + 3] == Step::Write(
            Command::Start(Direction::Tx),
        ),
        after[before.len() as int + 4 + 7 * i as int + 6] == Step::Read(
            Status::Amount(Direction::Tx),
            window(source, i).len() as u32,
        ),
{
    let k = windows(source);
    let sent = staged_bursts(source, scratch, k);
    lemma_staged_bursts_layout(source, scratch, k, i);
    let one = staged_burst(window(source, i), scratch, window(source, i).len() as u32);
    assert(sent.subrange(7 * i as int, 7 * i as int + 7) == one);
    assert(forall|j: int| 0 <= j < 7 ==> sent[7 * i as int + j] == #[trigger] one[j]) by {
        assert forall|j: int| 0 <= j < 7 implies sent[7 * i as int + j] == #[trigger] one[j] by {
            assert(sent.subrange(7 * i as int, 7 * i as int + 7)[j] == sent[7 * i as int + j]);
        }
    }
    assert(one[0] == Step::Stage(window(source, i)));
    assert(one[2] == Step::Write(
        Command::SetMaxcnt(Direction::Tx, window(source, i).len() as usize),
    ));
    assert(one[3] == Step::Write(Command::Start(Direction::Tx)));
    assert(one[6] == Step::Read(Status::Amount(Direction::Tx), window(source, i).len() as u32));
}

/// A copied write followed by a read that returned `Transmit` stopped at the
/// first window whose amount was not its length: that read is the last step
/// taken, so no later window was staged and no receive burst started.
pub proof fn lemma_copied_stops_at_short_window(
    before: Seq<Step>,
    after: Seq<Step>,
    address: u8,
    source: Seq<u8>,
    scratch: usize,
    rx: Descriptor,
    r: Result<(), Error>,
) -> (k: nat)
    requires
        copied(before, after, address, source, scratch, rx, r),
        rx.len <= EASY_DMA_SIZE,
        (r matches Err(Error::Transmit)),
    ensures
        k < windows(source),
        after.len() == before.len() + 4 + 7 * (k + 1),
        after[after.len() - 7] == Step::Stage(window(source, k)),
        after.last() == Step::Read(Status::Amount(Direction::Tx), read_value(after.last())),
        read_value(after.last()) != window(source, k).len(),
{
    let k = choose|k: nat| #[trigger] copy_stalled(before, after, address, source, scratch, rx, k);
    lemma_staged_bursts_len(source, scratch, k);
    let amount = read_value(after.last());
    let opened = before + copy_opening(address, rx);
    let sent = staged_bursts(source, scratch, k);
    let short = staged_burst(window(source, k), scratch, amount);
    assert(after == opened + sent + short);
    assert(after[after.len() - 7] == short[0]);
    assert(after.last() == short[6]);
    k
}

} // verus!
