//! The bridge between a host scheduler and a guest that runs synchronously:
//! the phases of a store, what a parked call waits for, and the record of
//! what calls did that others could observe.

use crate::abi::model::LowerError;
use crate::handles::{Entry, HandleError, Owner};
use vstd::prelude::*;

verus! {

/// Where a store stands between two requests of its embedder.
#[derive(Clone, Copy, Debug, PartialEq, Eq, Structural)]
pub enum Phase {
    /// No call is in progress; an export may be invoked.
    Idle,
    /// A call is parked at a host import that waits for its embedder.
    Parked,
    /// A parked call was cancelled; the instance must not be called again.
    Aborted,
    /// A call failed after it had entered guest code; every further call
    /// fails.
    Poisoned,
}

/// The exports of the reactor world.
#[derive(Clone, Copy, Debug, PartialEq, Eq, Structural)]
pub enum Export {
    AddStrings,
    GetStrings,
    WriteStringsTo,
    PassAnImportedRecord,
}

/// Why a request on a store failed.
#[derive(Clone, Copy, Debug, PartialEq, Eq, Structural)]
pub enum CallError {
    /// A call is parked on this store: calls on one store never overlap.
    Busy,
    /// The instance was aborted by a cancellation.
    Aborted,
    /// The instance is poisoned.
    Poisoned,
    /// No call is parked, so there is nothing to resume.
    NotParked,
    /// A value could not be lowered.
    Lower(LowerError),
    /// A handle was refused by the handle table.
    Table(HandleError),
}

/// An output stream behind a handle.
#[derive(Debug, PartialEq)]
pub enum Stream {
    /// A sink in memory; writes append to it at once.
    Memory(Vec<u8>),
    /// A stream that the embedder writes to; a write parks the call until
    /// the embedder says how it went.
    External,
}

/// What a stream is, with the bytes of a sink in memory as a sequence.
pub ghost enum StreamView {
    Memory(Seq<u8>),
    External,
}

impl View for Stream {
    type V = StreamView;

    open spec fn view(&self) -> StreamView {
        match self {
            Stream::Memory(bytes) => StreamView::Memory(bytes@),
            Stream::External => StreamView::External,
        }
    }
}

/// One live stream of a store: its tag, its owner and what it is.
pub ghost struct StreamEntry {
    pub tag: u32,
    pub owner: Owner,
    pub stream: StreamView,
}

/// The live streams of a handle table.
pub open spec fn streams_of(entries: Map<u32, Entry<Stream>>) -> Map<u32, StreamEntry> {
    Map::new(
        |h: u32| entries.dom().contains(h),
        |h: u32|
            StreamEntry { tag: entries[h].tag, owner: entries[h].owner, stream: entries[h].payload@ },
    )
}

/// How far a call that writes to a stream has come.
#[derive(Debug, PartialEq)]
pub enum Progress {
    /// The call returned, with the guest's own verdict.
    Done(Result<(), ()>),
    /// The call is parked: these bytes are to be written to its stream, and
    /// the call resumes when the embedder reports how the write went.
    Parked(Vec<u8>),
}

/// Something a call did that others could observe, with the number of the
/// call that did it.
pub ghost enum Effect {
    /// The call entered the guest.
    Entered(nat, Export),
    /// The guest collected these strings.
    Collected(nat, Seq<Seq<char>>),
    /// These bytes went to the stream behind this handle.
    Wrote(nat, u32, Seq<u8>),
    /// The call left the guest: it returned, failed or was cancelled.
    Left(nat),
}

/// The number of the call that an effect belongs to.
pub open spec fn call_of(effect: Effect) -> nat {
    match effect {
        Effect::Entered(call, _) => call,
        Effect::Collected(call, _) => call,
        Effect::Wrote(call, _, _) => call,
        Effect::Left(call) => call,
    }
}

/// The effects of each call stand side by side: between two effects of one
/// call there is no effect of another.
pub open spec fn serial(trace: Seq<Effect>) -> bool {
    forall|i: int, j: int, k: int|
        0 <= i <= j <= k < trace.len() && call_of(trace[i]) == call_of(trace[k]) ==> call_of(
            trace[j],
        ) == call_of(trace[i])
}

/// Call numbers never go down along the trace, nor beyond `calls`.
pub open spec fn ordered(trace: Seq<Effect>, calls: nat) -> bool {
    &&& forall|i: int, j: int|
        0 <= i <= j < trace.len() ==> call_of(trace[i]) <= call_of(trace[j])
    &&& forall|i: int| 0 <= i < trace.len() ==> call_of(#[trigger] trace[i]) <= calls
}

/// Where call numbers never go down, the effects of each call stand side by side.
pub proof fn lemma_ordered_serial(trace: Seq<Effect>, calls: nat)
    requires
        ordered(trace, calls),
    ensures
        serial(trace),
{
}

/// An effect of a call that is no older than any in the trace may follow the trace.
pub proof fn lemma_ordered_push(trace: Seq<Effect>, calls: nat, effect: Effect, next: nat)
    requires
        ordered(trace, calls),
        calls <= call_of(effect) <= next,
    ensures
        ordered(trace.push(effect), next),
{
    let longer = trace.push(effect);
    assert forall|i: int, j: int| 0 <= i <= j < longer.len() implies call_of(longer[i])
        <= call_of(longer[j]) by {
        if j < trace.len() {
            assert(longer[i] == trace[i] && longer[j] == trace[j]);
        } else if i < trace.len() {
            assert(longer[i] == trace[i]);
        }
    }
    assert forall|i: int| 0 <= i < longer.len() implies call_of(#[trigger] longer[i]) <= next by {
        if i < trace.len() {
            assert(longer[i] == trace[i]);
        }
    }
}

/// The entries that are left once the first `n` of `handles` are released.
pub open spec fn released(entries: Map<u32, StreamEntry>, handles: Seq<u32>, n: nat) -> Map<
    u32,
    StreamEntry,
>
    decreases n,
{
    if n == 0 || n > handles.len() {
        entries
    } else {
        released(entries, handles, (n - 1) as nat).remove(handles[n - 1])
    }
}

/// Releasing handles removes each of them and touches no other entry.
pub proof fn lemma_released(entries: Map<u32, StreamEntry>, handles: Seq<u32>, n: nat)
    requires
        n <= handles.len(),
    ensures
        forall|k: int|
            0 <= k < n ==> !released(entries, handles, n).dom().contains(#[trigger] handles[k]),
        forall|h: u32|
            !handles.take(n as int).contains(h) ==> (released(entries, handles, n).dom().contains(h)
                <==> entries.dom().contains(h)),
        forall|h: u32|
            #[trigger] released(entries, handles, n).dom().contains(h) ==> entries.dom().contains(h)
                && released(entries, handles, n)[h] == entries[h],
    decreases n,
{
    if n > 0 {
        lemma_released(entries, handles, (n - 1) as nat);
        let before = released(entries, handles, (n - 1) as nat);
        assert forall|h: u32| !handles.take(n as int).contains(h) implies (released(
            entries,
            handles,
            n,
        ).dom().contains(h) <==> entries.dom().contains(h)) by {
            assert(handles.take(n as int)[n - 1] == handles[n - 1]);
            let shorter = handles.take(n - 1);
            if shorter.contains(h) {
                let k = choose|k: int| 0 <= k < shorter.len() && shorter[k] == h;
                assert(handles.take(n as int)[k] == h);
            }
        }
    }
}

/// The free list once the first `n` of `handles` are released: each
/// handle that was still live when its turn came joins the list, in turn.
pub open spec fn freed(entries: Map<u32, StreamEntry>, free: Seq<u32>, handles: Seq<u32>, n: nat)
    -> Seq<u32>
    decreases n,
{
    if n == 0 || n > handles.len() {
        free
    } else {
        let before = freed(entries, free, handles, (n - 1) as nat);
        if released(entries, handles, (n - 1) as nat).dom().contains(handles[n - 1]) {
            before.push(handles[n - 1])
        } else {
            before
        }
    }
}

} // verus!
