//! A store: one guest instance with the host state it is bound to, and the
//! typed invokers of the reactor world's exports.
//!
//! A store runs one call at a time. A call runs until it returns or until a
//! host import has to wait for the embedder; then the call is parked and the
//! embedder either resumes it with the outcome or cancels it.

use crate::abi::cross::{cross, lemma_plain_case_lowers, lemma_scalar_lowers};
use crate::abi::memory::Memory;
use crate::abi::model::{lower_spec, ty_wf, Types};
use crate::bridge::{
    call_of, freed, lemma_ordered_push, lemma_ordered_serial, ordered, released, serial,
    streams_of, CallError, Effect, Export, Phase, Progress, Stream, StreamEntry, StreamView,
};
use crate::convert::{
    lemma_plain_variant, lemma_stat_lowers, lemma_stat_ty, stat_to_value, stat_ty, stat_val, stream_ty,
    strings_to_value, strings_ty, strings_val, unit_result_ty, value_to_stat,
    value_to_strings, OUTPUT_STREAM,
};
use crate::env::Env;
use crate::guest::{interpolate_all, line_of, lines_of, strings_of, Guest};
use crate::handles::{HandleError, HandleTable, Owner};
use crate::schema::Schema;
use crate::stat::{stat_text, DescriptorStat};
use crate::types::{Passing, Ty};
use crate::value::{lemma_view_parts, Val, Value};
use vstd::pervasive::unreached;
use vstd::prelude::*;

verus! {

/// What a parked call holds: the stream it writes to, the line it waits
/// for, and the handle-table entries that were created for it.
pub struct CallFrame {
    target: u32,
    cursor: usize,
    pending: Vec<u8>,
    checkouts: Vec<u32>,
}

/// One guest instance and the host state it is bound to.
pub struct Store {
    schema: Schema,
    env: Env,
    table: HandleTable<Stream>,
    guest: Guest,
    capacity: u32,
    phase: Phase,
    frame: Option<CallFrame>,
    calls: Ghost<nat>,
    trace: Ghost<Seq<Effect>>,
}

/// How a run of writes ended.
pub ghost enum Outcome {
    /// The guest returned; `true` where every line was written.
    Returned(bool),
    /// The call is parked at the line with this index.
    ParkedAt(nat),
}

/// The streams and the trace after a run of writes, and how it ended.
pub ghost struct Run {
    pub streams: Map<u32, StreamEntry>,
    pub trace: Seq<Effect>,
    pub outcome: Outcome,
}

/// Writes the lines from index `from` on to the stream behind `handle`: a
/// sink in memory takes each line at once, an external stream parks the
/// call at the first line, and a handle that names no output stream makes
/// the guest give up.
pub open spec fn run_writes(
    streams: Map<u32, StreamEntry>,
    trace: Seq<Effect>,
    call: nat,
    lines: Seq<Seq<char>>,
    handle: u32,
    from: nat,
) -> Run
    decreases lines.len() - from,
{
    if from >= lines.len() {
        Run { streams, trace, outcome: Outcome::Returned(true) }
    } else if !streams.dom().contains(handle) || streams[handle].tag != OUTPUT_STREAM {
        Run { streams, trace, outcome: Outcome::Returned(false) }
    } else {
        match streams[handle].stream {
            StreamView::External => Run { streams, trace, outcome: Outcome::ParkedAt(from) },
            StreamView::Memory(bytes) => run_writes(
                streams.insert(
                    handle,
                    StreamEntry {
                        tag: streams[handle].tag,
                        owner: streams[handle].owner,
                        stream: StreamView::Memory(bytes + line_of(lines[from as int])),
                    },
                ),
                trace.push(Effect::Wrote(call, handle, line_of(lines[from as int]))),
                call,
                lines,
                handle,
                from + 1,
            ),
        }
    }
}

/// The writes of the first `n` lines by one call to one stream, in order.
pub open spec fn writes_of(call: nat, handle: u32, lines: Seq<Seq<char>>, n: nat) -> Seq<Effect> {
    Seq::new(n, |i: int| Effect::Wrote(call, handle, line_of(lines[i])))
}

proof fn lemma_sink_run(
    streams: Map<u32, StreamEntry>,
    trace: Seq<Effect>,
    call: nat,
    lines: Seq<Seq<char>>,
    handle: u32,
    from: nat,
    held: Seq<u8>,
    seen: Seq<Effect>,
)
    requires
        from <= lines.len(),
        streams.dom().contains(handle),
        streams[handle].tag == OUTPUT_STREAM,
        streams[handle].stream == StreamView::Memory(held + lines_of(lines, from)),
        trace == seen + writes_of(call, handle, lines, from),
    ensures
        run_writes(streams, trace, call, lines, handle, from) == (Run {
            streams: streams.insert(
                handle,
                StreamEntry {
                    tag: OUTPUT_STREAM,
                    owner: streams[handle].owner,
                    stream: StreamView::Memory(held + lines_of(lines, lines.len())),
                },
            ),
            trace: seen + writes_of(call, handle, lines, lines.len()),
            outcome: Outcome::Returned(true),
        }),
    decreases lines.len() - from,
{
    let entry = streams[handle];
    if from >= lines.len() {
        assert(streams.insert(handle, entry) =~= streams);
    } else {
        let line = line_of(lines[from as int]);
        let grown = held + lines_of(lines, from) + line;
        let next = streams.insert(
            handle,
            StreamEntry { tag: entry.tag, owner: entry.owner, stream: StreamView::Memory(grown) },
        );
        let told = trace.push(Effect::Wrote(call, handle, line));
        assert(grown =~= held + lines_of(lines, from + 1));
        assert(told =~= seen + writes_of(call, handle, lines, from + 1));
        lemma_sink_run(next, told, call, lines, handle, from + 1, held, seen);
        assert(next.insert(
            handle,
            StreamEntry {
                tag: OUTPUT_STREAM,
                owner: entry.owner,
                stream: StreamView::Memory(held + lines_of(lines, lines.len())),
            },
        ) =~= streams.insert(
            handle,
            StreamEntry {
                tag: OUTPUT_STREAM,
                owner: entry.owner,
                stream: StreamView::Memory(held + lines_of(lines, lines.len())),
            },
        ));
    }
}

/// Writing to a live sink in memory never parks and never fails: the guest
/// returns success, the sink has gained every line, in order, behind what
/// it held, each line is one write of the call, and no other stream is
/// touched.
pub proof fn law_memory_sink_gains_lines(
    streams: Map<u32, StreamEntry>,
    trace: Seq<Effect>,
    call: nat,
    lines: Seq<Seq<char>>,
    handle: u32,
    held: Seq<u8>,
)
    requires
        streams.dom().contains(handle),
        streams[handle].tag == OUTPUT_STREAM,
        streams[handle].stream == StreamView::Memory(held),
    ensures
        run_writes(streams, trace, call, lines, handle, 0) == (Run {
            streams: streams.insert(
                handle,
                StreamEntry {
                    tag: OUTPUT_STREAM,
                    owner: streams[handle].owner,
                    stream: StreamView::Memory(held + lines_of(lines, lines.len())),
                },
            ),
            trace: trace + writes_of(call, handle, lines, lines.len()),
            outcome: Outcome::Returned(true),
        }),
{
    assert(held + lines_of(lines, 0) =~= held);
    assert(trace + writes_of(call, handle, lines, 0) =~= trace);
    lemma_sink_run(streams, trace, call, lines, handle, 0, held, trace);
}

/// The error that refuses a new call in a phase, if the phase refuses it.
pub open spec fn refusal(phase: Phase) -> Option<CallError> {
    match phase {
        Phase::Idle => None,
        Phase::Parked => Some(CallError::Busy),
        Phase::Aborted => Some(CallError::Aborted),
        Phase::Poisoned => Some(CallError::Poisoned),
    }
}

/// Lists of strings that are equal as logical values are equal.
pub proof fn lemma_strings_val_injective(a: Seq<Seq<char>>, b: Seq<Seq<char>>)
    requires
        strings_val(a) == strings_val(b),
    ensures
        a == b,
{
    let x = strings_val(a)->List_0;
    let y = strings_val(b)->List_0;
    assert(x.len() == a.len() && y.len() == b.len());
    assert forall|i: int| 0 <= i < a.len() implies a[i] == b[i] by {
        assert(x[i] == Val::Str(a[i]));
        assert(y[i] == Val::Str(b[i]));
    }
    assert(a =~= b);
}

/// File statuses that are equal as logical values are equal.
pub proof fn lemma_stat_val_injective(a: DescriptorStat, b: DescriptorStat)
    requires
        stat_val(a) == stat_val(b),
    ensures
        a == b,
{
    let x = stat_val(a)->Record_0;
    let y = stat_val(b)->Record_0;
    assert(x[0] == y[0] && x[1] == y[1] && x[2] == y[2] && x[3] == y[3] && x[4] == y[4]);
    assert(x[5]->Record_0[0] == y[5]->Record_0[0] && x[5]->Record_0[1] == y[5]->Record_0[1]);
    assert(x[6]->Record_0[0] == y[6]->Record_0[0] && x[6]->Record_0[1] == y[6]->Record_0[1]);
    assert(x[7]->Record_0[0] == y[7]->Record_0[0] && x[7]->Record_0[1] == y[7]->Record_0[1]);
}

impl Store {
    /// Where the store stands.
    pub closed spec fn phase(&self) -> Phase {
        self.phase
    }

    /// The environment bindings the guest sees.
    pub closed spec fn env(&self) -> Seq<(Seq<char>, Seq<char>)> {
        self.env@
    }

    /// The strings the guest has collected.
    pub closed spec fn guest(&self) -> Seq<Seq<char>> {
        self.guest@
    }

    /// The live streams of the handle table.
    pub closed spec fn streams(&self) -> Map<u32, StreamEntry> {
        streams_of(self.table@)
    }

    /// The freed indices of the handle table, oldest first.
    pub closed spec fn free_list(&self) -> Seq<u32> {
        self.table.free_list()
    }

    /// How many indices the handle table has handed out at least once.
    pub closed spec fn slot_count(&self) -> nat {
        self.table.slot_count()
    }

    /// The handle that the next entry put into the table gets: the index
    /// freed last, or the next new index where none is freed.
    pub open spec fn next_handle(&self) -> nat {
        if self.free_list().len() > 0 {
            self.free_list().last() as nat
        } else {
            self.slot_count()
        }
    }

    /// The bytes of linear memory that a call may use.
    pub closed spec fn capacity(&self) -> nat {
        self.capacity as nat
    }

    /// The named types of the world.
    pub closed spec fn types(&self) -> Types {
        self.schema@
    }

    /// How many calls have entered the guest.
    pub closed spec fn calls(&self) -> nat {
        self.calls@
    }

    /// What the calls so far did, in order.
    pub closed spec fn trace(&self) -> Seq<Effect> {
        self.trace@
    }

    /// The handles created for the parked call.
    pub closed spec fn checkouts(&self) -> Seq<u32> {
        match self.frame {
            Some(frame) => frame.checkouts@,
            None => Seq::empty(),
        }
    }

    /// The handle of the stream that the parked call writes to.
    pub closed spec fn target(&self) -> u32 {
        match self.frame {
            Some(frame) => frame.target,
            None => 0,
        }
    }

    /// The index of the line that the parked call waits for.
    pub closed spec fn cursor(&self) -> nat {
        match self.frame {
            Some(frame) => frame.cursor as nat,
            None => 0,
        }
    }

    /// The state of the store is coherent: the handle table is sound, a call is parked exactly
    /// in the parked phase and waits for a line that exists, and call numbers never go down
    /// along the trace.
    pub closed spec fn wf(&self) -> bool {
        &&& self.schema.wf()
        &&& self.schema@.wf()
        &&& self.schema@.defs.len() == 0
        &&& self.table.wf()
        &&& (self.phase is Parked <==> self.frame is Some)
        &&& ordered(self.trace@, self.calls@)
        &&& match self.frame {
            Some(frame) => frame.cursor < self.guest@.len() && frame.pending@ == line_of(
                self.guest@[frame.cursor as int],
            ),
            None => true,
        }
    }

    /// Nothing that others could observe differs between two states.
    pub open spec fn same_as(&self, other: &Store) -> bool {
        &&& self.phase() == other.phase()
        &&& self.env() == other.env()
        &&& self.guest() == other.guest()
        &&& self.streams() == other.streams()
        &&& self.free_list() == other.free_list()
        &&& self.slot_count() == other.slot_count()
        &&& self.capacity() == other.capacity()
        &&& self.types() == other.types()
        &&& self.calls() == other.calls()
        &&& self.trace() == other.trace()
        &&& self.checkouts() == other.checkouts()
        &&& self.target() == other.target()
        &&& self.cursor() == other.cursor()
    }

    /// What holds of every store: a parked call waits for a line that
    /// exists, and no store is parked without a call.
    pub proof fn lemma_wf(&self)
        requires
            self.wf(),
        ensures
            self.types().wf(),
            self.types().top() == 0,
            self.phase() is Parked ==> self.cursor() < self.guest().len(),
            !(self.phase() is Parked) ==> self.checkouts().len() == 0,
    {
    }

    /// On one store the effects of each call stand side by side: calls
    /// never overlap in what others could observe.
    pub proof fn law_calls_serial(&self)
        requires
            self.wf(),
        ensures
            serial(self.trace()),
    {
        lemma_ordered_serial(self.trace@, self.calls@);
    }

    /// A store with a fresh guest instance, the given environment, no
    /// stream, and `capacity` bytes of linear memory for each call. It
    /// hands values across under types written out in full, with no named
    /// type between them; these encode as the signatures of the reactor
    /// world do.
    pub fn new(env: Env, capacity: u32) -> (store: Store)
        ensures
            store.wf(),
            store.phase() is Idle,
            store.env() == env@,
            store.guest() == Seq::<Seq<char>>::empty(),
            store.streams() == Map::<u32, StreamEntry>::empty(),
            store.free_list() == Seq::<u32>::empty(),
            store.slot_count() == 0,
            store.types().defs == Seq::<Ty>::empty(),
            store.capacity() == capacity,
            store.calls() == 0,
            store.trace() == Seq::<Effect>::empty(),
    {
        let schema = Schema::empty();
        proof {
            schema.lemma_wf();
        }
        let store = Store {
            schema,
            env,
            table: HandleTable::new(),
            guest: Guest::new(),
            capacity,
            phase: Phase::Idle,
            frame: None,
            calls: Ghost(0),
            trace: Ghost(Seq::empty()),
        };
        assert(store.streams() =~= Map::<u32, StreamEntry>::empty());
        store
    }

    /// The phase the store is in.
    pub fn current_phase(&self) -> (phase: Phase)
        ensures
            phase == self.phase(),
    {
        self.phase
    }

    /// The handle table: the store's own, well formed, to look entries up
    /// in and to borrow from.
    pub fn table(&self) -> (table: &HandleTable<Stream>)
        requires
            self.wf(),
        ensures
            table.wf(),
            streams_of(table@) == self.streams(),
            table.free_list() == self.free_list(),
            table.slot_count() == self.slot_count(),
            forall|h: u32| #[trigger]
                table@.dom().contains(h) == self.streams().dom().contains(h),
            forall|h: u32| #[trigger]
                self.streams().dom().contains(h) ==> {
                    &&& table@[h].tag == self.streams()[h].tag
                    &&& table@[h].owner == self.streams()[h].owner
                    &&& table@[h].payload@ == self.streams()[h].stream
                },
    {
        &self.table
    }

    /// The environment capability.
    pub fn ctx(&self) -> (env: &Env)
        ensures
            env@ == self.env(),
    {
        &self.env
    }

    /// Adds a binding to the environment that the guest sees.
    pub fn push_env(&mut self, key: &str, value: &str)
        requires
            old(self).wf(),
        ensures
            final(self).wf(),
            final(self).env() == old(self).env().push((key@, value@)),
            final(self).phase() == old(self).phase(),
            final(self).guest() == old(self).guest(),
            final(self).streams() == old(self).streams(),
            final(self).free_list() == old(self).free_list(),
            final(self).slot_count() == old(self).slot_count(),
            final(self).capacity() == old(self).capacity(),
            final(self).types() == old(self).types(),
            final(self).calls() == old(self).calls(),
            final(self).trace() == old(self).trace(),
            final(self).checkouts() == old(self).checkouts(),
    {
        self.env.push_env(key, value);
    }

    /// Puts an output stream into the handle table, to outlive any call.
    pub fn push_output_stream(&mut self, stream: Stream) -> (result: Result<u32, CallError>)
        requires
            old(self).wf(),
        ensures
            final(self).wf(),
            final(self).phase() == old(self).phase(),
            final(self).env() == old(self).env(),
            final(self).guest() == old(self).guest(),
            final(self).capacity() == old(self).capacity(),
            final(self).types() == old(self).types(),
            final(self).calls() == old(self).calls(),
            final(self).trace() == old(self).trace(),
            final(self).checkouts() == old(self).checkouts(),
            final(self).target() == old(self).target(),
            final(self).cursor() == old(self).cursor(),
            result is Ok == (old(self).next_handle() <= u32::MAX),
            match result {
                Ok(handle) => {
                    &&& handle == old(self).next_handle()
                    &&& !old(self).streams().dom().contains(handle)
                    &&& final(self).streams() == old(self).streams().insert(
                        handle,
                        StreamEntry { tag: OUTPUT_STREAM, owner: Owner::Host, stream: stream@ },
                    )
                    &&& final(self).free_list() == if old(self).free_list().len() > 0 {
                        old(self).free_list().drop_last()
                    } else {
                        old(self).free_list()
                    }
                    &&& final(self).slot_count() == if old(self).free_list().len() > 0 {
                        old(self).slot_count()
                    } else {
                        old(self).slot_count() + 1
                    }
                },
                Err(e) => {
                    &&& e == CallError::Table(HandleError::Exhausted)
                    &&& final(self).streams() == old(self).streams()
                    &&& final(self).free_list() == old(self).free_list()
                    &&& final(self).slot_count() == old(self).slot_count()
                },
            },
    {
        match self.table.insert(OUTPUT_STREAM, Owner::Host, stream) {
            Ok(handle) => {
                assert(self.streams() =~= old(self).streams().insert(
                    handle,
                    StreamEntry { tag: OUTPUT_STREAM, owner: Owner::Host, stream: stream@ },
                ));
                Ok(handle)
            },
            Err(e) => Err(CallError::Table(e)),
        }
    }

    /// The bytes that the sink in memory behind `handle` has received.
    pub fn stream_contents(&self, handle: u32) -> (result: Result<Vec<u8>, CallError>)
        requires
            self.wf(),
        ensures
            match result {
                Ok(bytes) => self.streams().dom().contains(handle) && self.streams()[handle].tag
                    == OUTPUT_STREAM && self.streams()[handle].stream == StreamView::Memory(
                    bytes@,
                ),
                Err(e) => {
                    &&& e == CallError::Table(HandleError::InvalidHandle) <==> !self.streams().dom().contains(
                        handle,
                    )
                    &&& e == CallError::Table(HandleError::TypeMismatch) <==> self.streams().dom().contains(
                        handle,
                    ) && (self.streams()[handle].tag != OUTPUT_STREAM
                        || self.streams()[handle].stream is External)
                    &&& e == CallError::Table(HandleError::InvalidHandle) || e == CallError::Table(
                        HandleError::TypeMismatch,
                    )
                },
            },
    {
        match self.table.borrow(handle, OUTPUT_STREAM) {
            Ok(stream) => match stream {
                Stream::Memory(bytes) => Ok(bytes.clone()),
                Stream::External => Err(CallError::Table(HandleError::TypeMismatch)),
            },
            Err(e) => Err(CallError::Table(e)),
        }
    }

    /// Whether a new call may start, and the error that refuses it if not.
    fn gate(&self) -> (result: Result<(), CallError>)
        ensures
            match refusal(self.phase()) {
                Some(e) => result == Err::<(), CallError>(e),
                None => result is Ok,
            },
    {
        match self.phase {
            Phase::Idle => Ok(()),
            Phase::Parked => Err(CallError::Busy),
            Phase::Aborted => Err(CallError::Aborted),
            Phase::Poisoned => Err(CallError::Poisoned),
        }
    }

    /// Records that a call enters the guest.
    fn enter(&mut self, export: Export)
        requires
            old(self).wf(),
            old(self).phase() is Idle,
        ensures
            final(self).wf(),
            final(self).phase() is Idle,
            final(self).env() == old(self).env(),
            final(self).guest() == old(self).guest(),
            final(self).streams() == old(self).streams(),
            final(self).free_list() == old(self).free_list(),
            final(self).slot_count() == old(self).slot_count(),
            final(self).capacity() == old(self).capacity(),
            final(self).types() == old(self).types(),
            final(self).calls() == old(self).calls() + 1,
            final(self).trace() == old(self).trace().push(
                Effect::Entered(old(self).calls() + 1, export),
            ),
            final(self).table == old(self).table,
            final(self).schema == old(self).schema,
            final(self).env == old(self).env,
            final(self).guest == old(self).guest,
            final(self).capacity == old(self).capacity,
            final(self).frame == old(self).frame,
    {
        let ghost call = self.calls@ + 1;
        proof {
            lemma_ordered_push(self.trace@, self.calls@, Effect::Entered(call, export), call);
        }
        self.calls = Ghost(call);
        self.trace = Ghost(self.trace@.push(Effect::Entered(call, export)));
    }

    /// Records something the running call did.
    fn note(&mut self, Ghost(effect): Ghost<Effect>)
        requires
            ordered(old(self).trace@, old(self).calls@),
            call_of(effect) == old(self).calls@,
        ensures
            ordered(final(self).trace@, final(self).calls@),
            final(self).trace@ == old(self).trace@.push(effect),
            final(self).calls == old(self).calls,
            final(self).table == old(self).table,
            final(self).schema == old(self).schema,
            final(self).env == old(self).env,
            final(self).guest == old(self).guest,
            final(self).capacity == old(self).capacity,
            final(self).frame == old(self).frame,
            final(self).phase == old(self).phase,
    {
        proof {
            lemma_ordered_push(self.trace@, self.calls@, effect, self.calls@);
        }
        self.trace = Ghost(self.trace@.push(effect));
    }

    /// Invokes `add-strings`: the guest collects `ss`, each expanded against
    /// the environment, and answers with the number of strings it holds.
    ///
    /// The call is refused unless the store is idle, and fails before it
    /// enters the guest where the arguments do not fit linear memory; either
    /// way nothing changes.
    pub fn call_add_strings(&mut self, ss: &Vec<String>) -> (result: Result<u32, CallError>)
        requires
            old(self).wf(),
        ensures
            final(self).wf(),
            match refusal(old(self).phase()) {
                Some(e) => result == Err::<u32, CallError>(e) && final(self).same_as(old(self)),
                None => match lower_spec(
                    old(self).types(),
                    0,
                    Ty::List(Box::new(Ty::Str)),
                    strings_val(strings_of(ss@)),
                    Seq::empty(),
                    old(self).capacity(),
                ) {
                    Err(e) => result == Err::<u32, CallError>(CallError::Lower(e)) && final(self).same_as(old(self)),
                    Ok(_) => {
                        &&& result is Ok
                        &&& result->Ok_0 as nat == final(self).guest().len() % 0x1_0000_0000
                        &&& final(self).guest() == old(self).guest() + interpolate_all(
                            strings_of(ss@),
                            old(self).env(),
                        )
                        &&& final(self).phase() is Idle
                        &&& final(self).env() == old(self).env()
                        &&& final(self).streams() == old(self).streams()
                        &&& final(self).free_list() == old(self).free_list()
                        &&& final(self).slot_count() == old(self).slot_count()
                        &&& final(self).capacity() == old(self).capacity()
                        &&& final(self).types() == old(self).types()
                        &&& final(self).calls() == old(self).calls() + 1
                        &&& final(self).trace() == old(self).trace() + seq![
                            Effect::Entered(old(self).calls() + 1, Export::AddStrings),
                            Effect::Collected(
                                old(self).calls() + 1,
                                interpolate_all(strings_of(ss@), old(self).env()),
                            ),
                            Effect::Left(old(self).calls() + 1),
                        ]
                    },
                },
            },
    {
        match self.gate() {
            Err(e) => {
                return Err(e);
            },
            Ok(_) => {},
        }
        let ty = strings_ty();
        let value = strings_to_value(ss);
        let mut mem = Memory::new(self.capacity);
        proof {
            assert(ty_wf(self.schema@, self.schema@.top(), Ty::Str));
            assert(ty_wf(self.schema@, self.schema@.top(), ty));
        }
        let arrived = match cross(&self.schema, &ty, &value, &mut mem) {
            Ok(arrived) => arrived,
            Err(e) => {
                return Err(CallError::Lower(e));
            },
        };
        let strings = match value_to_strings(&arrived) {
            Some(strings) => strings,
            None => unreached(),
        };
        proof {
            lemma_strings_val_injective(strings_of(strings@), strings_of(ss@));
        }
        let ghost call = self.calls@ + 1;
        self.enter(Export::AddStrings);
        let count = self.guest.add_strings(&strings, &self.env);
        self.note(
            Ghost(Effect::Collected(call, interpolate_all(strings_of(ss@), old(self).env()))),
        );
        let answer = Value::U32(count);
        proof {
            lemma_scalar_lowers(self.schema@, 0, Ty::U32, answer@, mem@, mem.capacity());
        }
        let back = match cross(&self.schema, &Ty::U32, &answer, &mut mem) {
            Ok(Value::U32(back)) => back,
            _ => unreached(),
        };
        self.note(Ghost(Effect::Left(call)));
        proof {
            assert(self.trace@ =~= old(self).trace() + seq![
                Effect::Entered(call, Export::AddStrings),
                Effect::Collected(call, interpolate_all(strings_of(ss@), old(self).env())),
                Effect::Left(call),
            ]);
        }
        Ok(back)
    }

    /// Invokes `get-strings`: the guest answers with the strings it holds.
    ///
    /// Where the answer does not fit linear memory the call fails after it
    /// has entered the guest, and the instance is poisoned.
    pub fn call_get_strings(&mut self) -> (result: Result<Vec<String>, CallError>)
        requires
            old(self).wf(),
        ensures
            final(self).wf(),
            match refusal(old(self).phase()) {
                Some(e) => result == Err::<Vec<String>, CallError>(e) && final(self).same_as(
                    old(self),
                ),
                None => {
                    &&& final(self).env() == old(self).env()
                    &&& final(self).guest() == old(self).guest()
                    &&& final(self).streams() == old(self).streams()
                    &&& final(self).free_list() == old(self).free_list()
                    &&& final(self).slot_count() == old(self).slot_count()
                    &&& final(self).capacity() == old(self).capacity()
                    &&& final(self).types() == old(self).types()
                    &&& final(self).calls() == old(self).calls() + 1
                    &&& final(self).trace() == old(self).trace() + seq![
                        Effect::Entered(old(self).calls() + 1, Export::GetStrings),
                        Effect::Left(old(self).calls() + 1),
                    ]
                    &&& match lower_spec(
                        old(self).types(),
                        0,
                        Ty::List(Box::new(Ty::Str)),
                        strings_val(old(self).guest()),
                        Seq::empty(),
                        old(self).capacity(),
                    ) {
                        Err(e) => result == Err::<Vec<String>, CallError>(CallError::Lower(e))
                            && final(self).phase() is Poisoned,
                        Ok(_) => result is Ok && strings_of(result->Ok_0@) == old(self).guest()
                            && final(self).phase() is Idle,
                    }
                },
            },
    {
        match self.gate() {
            Err(e) => {
                return Err(e);
            },
            Ok(_) => {},
        }
        let ghost call = self.calls@ + 1;
        self.enter(Export::GetStrings);
        let held = self.guest.get_strings();
        let ty = strings_ty();
        let value = strings_to_value(&held);
        let mut mem = Memory::new(self.capacity);
        proof {
            assert(ty_wf(self.schema@, self.schema@.top(), Ty::Str));
            assert(ty_wf(self.schema@, self.schema@.top(), ty));
        }
        let crossed = cross(&self.schema, &ty, &value, &mut mem);
        self.note(Ghost(Effect::Left(call)));
        proof {
            assert(self.trace@ =~= old(self).trace() + seq![
                Effect::Entered(call, Export::GetStrings),
                Effect::Left(call),
            ]);
        }
        match crossed {
            Ok(arrived) => {
                let strings = match value_to_strings(&arrived) {
                    Some(strings) => strings,
                    None => unreached(),
                };
                proof {
                    lemma_strings_val_injective(strings_of(strings@), strings_of(held@));
                }
                Ok(strings)
            },
            Err(e) => {
                self.phase = Phase::Poisoned;
                Err(CallError::Lower(e))
            },
        }
    }

    /// Invokes `pass-an-imported-record`: the guest answers with the text of
    /// `stat`.
    ///
    /// The record always reaches the guest; where the text does not fit
    /// linear memory the call fails after it has entered the guest, and the
    /// instance is poisoned.
    pub fn call_pass_an_imported_record(&mut self, stat: &DescriptorStat) -> (result: Result<
        String,
        CallError,
    >)
        requires
            old(self).wf(),
        ensures
            final(self).wf(),
            final(self).env() == old(self).env(),
            final(self).guest() == old(self).guest(),
            final(self).streams() == old(self).streams(),
            final(self).free_list() == old(self).free_list(),
            final(self).slot_count() == old(self).slot_count(),
            final(self).capacity() == old(self).capacity(),
            final(self).types() == old(self).types(),
            match refusal(old(self).phase()) {
                Some(e) => result == Err::<String, CallError>(e) && final(self).same_as(old(self)),
                None => {
                    &&& final(self).calls() == old(self).calls() + 1
                    &&& final(self).trace() == old(self).trace() + seq![
                        Effect::Entered(old(self).calls() + 1, Export::PassAnImportedRecord),
                        Effect::Left(old(self).calls() + 1),
                    ]
                    &&& match lower_spec(
                        old(self).types(),
                        0,
                        Ty::Str,
                        Val::Str(stat_text(*stat)),
                        Seq::empty(),
                        old(self).capacity(),
                    ) {
                        Err(e) => result == Err::<String, CallError>(CallError::Lower(e)) && final(self).phase() is Poisoned,
                        Ok(_) => result is Ok && result->Ok_0@ == stat_text(*stat) && final(self).phase() is Idle,
                    }
                },
            },
    {
        match self.gate() {
            Err(e) => {
                return Err(e);
            },
            Ok(_) => {},
        }
        let ty = stat_ty();
        let value = stat_to_value(stat);
        let mut mem = Memory::new(self.capacity);
        proof {
            lemma_stat_ty(self.schema@, self.schema@.top(), ty);
            lemma_stat_lowers(self.schema@, 0, ty, *stat, mem@, mem.capacity());
        }
        let arrived = match cross(&self.schema, &ty, &value, &mut mem) {
            Ok(arrived) => arrived,
            Err(_) => unreached(),
        };
        let seen = match value_to_stat(&arrived) {
            Some(seen) => seen,
            None => unreached(),
        };
        proof {
            lemma_stat_val_injective(seen, *stat);
        }
        let ghost call = self.calls@ + 1;
        self.enter(Export::PassAnImportedRecord);
        let text = Guest::pass_an_imported_record(seen);
        let answer = Value::Str(text);
        proof {
            lemma_view_parts(answer);
        }
        let crossed = cross(&self.schema, &Ty::Str, &answer, &mut mem);
        self.note(Ghost(Effect::Left(call)));
        proof {
            assert(self.trace@ =~= old(self).trace() + seq![
                Effect::Entered(call, Export::PassAnImportedRecord),
                Effect::Left(call),
            ]);
        }
        match crossed {
            Ok(Value::Str(back)) => Ok(back),
            Ok(_) => unreached(),
            Err(e) => {
                self.phase = Phase::Poisoned;
                Err(CallError::Lower(e))
            },
        }
    }
}

/// The error that refuses a handle as an output stream at lowering, if any.
pub open spec fn stream_refusal(streams: Map<u32, StreamEntry>, handle: u32) -> Option<
    HandleError,
> {
    if !streams.dom().contains(handle) {
        Some(HandleError::InvalidHandle)
    } else if streams[handle].tag != OUTPUT_STREAM {
        Some(HandleError::TypeMismatch)
    } else {
        None
    }
}

/// The first `n` of `handles` without `handle`.
pub open spec fn without(handles: Seq<u32>, handle: u32, n: nat) -> Seq<u32>
    decreases n,
{
    if n == 0 || n > handles.len() {
        Seq::empty()
    } else if handles[n - 1] == handle {
        without(handles, handle, (n - 1) as nat)
    } else {
        without(handles, handle, (n - 1) as nat).push(handles[n - 1])
    }
}

/// How the streams, the trace and the phase stand after a run of writes
/// that a call with the given checkouts made, and what the caller is told.
pub open spec fn settled(
    store: &Store,
    run: Run,
    call: nat,
    handle: u32,
    checkouts: Seq<u32>,
    free: Seq<u32>,
    slots: nat,
    lines: Seq<Seq<char>>,
    progress: Progress,
) -> bool {
    &&& store.slot_count() == slots
    &&& match run.outcome {
        Outcome::Returned(ok) => {
            &&& progress matches Progress::Done(verdict)
            &&& (verdict is Ok) == ok
            &&& store.phase() is Idle
            &&& store.streams() == released(run.streams, checkouts, checkouts.len())
            &&& store.free_list() == freed(run.streams, free, checkouts, checkouts.len())
            &&& store.trace() == run.trace.push(Effect::Left(call))
            &&& store.checkouts() == Seq::<u32>::empty()
        },
        Outcome::ParkedAt(k) => {
            &&& progress matches Progress::Parked(bytes)
            &&& bytes@ == line_of(lines[k as int])
            &&& store.phase() is Parked
            &&& store.streams() == run.streams
            &&& store.free_list() == free
            &&& store.trace() == run.trace
            &&& store.checkouts() == checkouts
            &&& store.target() == handle
            &&& store.cursor() == k
        },
    }
}

/// A call of `write-strings-to` that is let in with a live sink in memory
/// returns success at once: the store is idle again, the sink has gained
/// every string that the guest holds, each as a line and in order, behind
/// what it held, and the table is otherwise as it was.
pub proof fn law_write_to_memory_sink(
    before: &Store,
    after: &Store,
    handle: u32,
    held: Seq<u8>,
    progress: Progress,
)
    requires
        before.streams().dom().contains(handle),
        before.streams()[handle].tag == OUTPUT_STREAM,
        before.streams()[handle].stream == StreamView::Memory(held),
        settled(
            after,
            run_writes(
                before.streams(),
                before.trace().push(Effect::Entered(before.calls() + 1, Export::WriteStringsTo)),
                before.calls() + 1,
                before.guest(),
                handle,
                0,
            ),
            before.calls() + 1,
            handle,
            Seq::empty(),
            before.free_list(),
            before.slot_count(),
            before.guest(),
            progress,
        ),
    ensures
        progress == Progress::Done(Ok(())),
        after.phase() is Idle,
        after.streams() == before.streams().insert(
            handle,
            StreamEntry {
                tag: OUTPUT_STREAM,
                owner: before.streams()[handle].owner,
                stream: StreamView::Memory(
                    held + lines_of(before.guest(), before.guest().len()),
                ),
            },
        ),
        after.free_list() == before.free_list(),
        after.slot_count() == before.slot_count(),
        after.trace() == (before.trace().push(
            Effect::Entered(before.calls() + 1, Export::WriteStringsTo),
        ) + writes_of(before.calls() + 1, handle, before.guest(), before.guest().len())).push(
            Effect::Left(before.calls() + 1),
        ),
{
    law_memory_sink_gains_lines(
        before.streams(),
        before.trace().push(Effect::Entered(before.calls() + 1, Export::WriteStringsTo)),
        before.calls() + 1,
        before.guest(),
        handle,
        held,
    );
    let verdict = progress->Done_0;
    assert(verdict->Ok_0 == ());
    assert(verdict == Ok::<(), ()>(()));
}

/// Cancellation and return release the entries that were created for the
/// call: none of them is live afterwards, and no other entry is touched.
pub proof fn law_release(before: Map<u32, StreamEntry>, checkouts: Seq<u32>)
    ensures
        forall|k: int|
            0 <= k < checkouts.len() ==> !released(
                before,
                checkouts,
                checkouts.len(),
            ).dom().contains(#[trigger] checkouts[k]),
        forall|h: u32|
            !checkouts.contains(h) ==> (released(before, checkouts, checkouts.len()).dom().contains(
                h,
            ) <==> before.dom().contains(h)),
        forall|h: u32|
            #[trigger] released(before, checkouts, checkouts.len()).dom().contains(h)
                ==> before.dom().contains(h) && released(before, checkouts, checkouts.len())[h]
                == before[h],
{
    crate::bridge::lemma_released(before, checkouts, checkouts.len());
    assert(checkouts.take(checkouts.len() as int) =~= checkouts);
}

impl Store {
    /// Removes the entries behind `handles` from the handle table.
    fn release(&mut self, handles: &Vec<u32>)
        requires
            old(self).table.wf(),
        ensures
            final(self).table.wf(),
            streams_of(final(self).table@) == released(
                streams_of(old(self).table@),
                handles@,
                handles@.len(),
            ),
            final(self).table.free_list() == freed(
                streams_of(old(self).table@),
                old(self).table.free_list(),
                handles@,
                handles@.len(),
            ),
            final(self).table.slot_count() == old(self).table.slot_count(),
            final(self).schema == old(self).schema,
            final(self).env == old(self).env,
            final(self).guest == old(self).guest,
            final(self).capacity == old(self).capacity,
            final(self).phase == old(self).phase,
            final(self).frame == old(self).frame,
            final(self).calls == old(self).calls,
            final(self).trace == old(self).trace,
    {
        let mut i: usize = 0;
        while i < handles.len()
            invariant
                i <= handles@.len(),
                self.table.wf(),
                streams_of(self.table@) == released(streams_of(old(self).table@), handles@, i as nat),
                self.table.free_list() == freed(
                    streams_of(old(self).table@),
                    old(self).table.free_list(),
                    handles@,
                    i as nat,
                ),
                self.table.slot_count() == old(self).table.slot_count(),
                self.schema == old(self).schema,
                self.env == old(self).env,
                self.guest == old(self).guest,
                self.capacity == old(self).capacity,
                self.phase == old(self).phase,
                self.frame == old(self).frame,
                self.calls == old(self).calls,
                self.trace == old(self).trace,
            decreases handles@.len() - i,
        {
            let ghost before = self.table@;
            let _ = self.table.remove(handles[i]);
            proof {
                assert(streams_of(self.table@) =~= streams_of(before).remove(handles@[i as int]));
            }
            i = i + 1;
        }
    }

    /// Ends the running call: releases what was created for it and leaves
    /// the store idle.
    fn finish(&mut self, checkouts: &Vec<u32>)
        requires
            old(self).wf(),
            old(self).phase() is Idle,
        ensures
            final(self).wf(),
            final(self).phase() is Idle,
            final(self).streams() == released(old(self).streams(), checkouts@, checkouts@.len()),
            final(self).free_list() == freed(
                old(self).streams(),
                old(self).free_list(),
                checkouts@,
                checkouts@.len(),
            ),
            final(self).slot_count() == old(self).slot_count(),
            final(self).trace() == old(self).trace().push(Effect::Left(old(self).calls())),
            final(self).checkouts() == Seq::<u32>::empty(),
            final(self).env() == old(self).env(),
            final(self).guest() == old(self).guest(),
            final(self).capacity() == old(self).capacity(),
            final(self).types() == old(self).types(),
            final(self).calls() == old(self).calls(),
    {
        self.release(checkouts);
        self.note(Ghost(Effect::Left(self.calls@)));
    }

    /// Runs the guest's writes from line `start` on until it returns or
    /// has to wait for the embedder.
    #[verifier::loop_isolation(false)]
    fn advance(&mut self, handle: u32, start: usize, checkouts: Vec<u32>) -> (progress: Progress)
        requires
            old(self).wf(),
            old(self).phase() is Idle,
            start <= old(self).guest().len(),
        ensures
            final(self).wf(),
            final(self).env() == old(self).env(),
            final(self).guest() == old(self).guest(),
            final(self).capacity() == old(self).capacity(),
            final(self).types() == old(self).types(),
            final(self).calls() == old(self).calls(),
            settled(
                final(self),
                run_writes(
                    old(self).streams(),
                    old(self).trace(),
                    old(self).calls(),
                    old(self).guest(),
                    handle,
                    start as nat,
                ),
                old(self).calls(),
                handle,
                checkouts@,
                old(self).free_list(),
                old(self).slot_count(),
                old(self).guest(),
                progress,
            ),
    {
        let ghost lines = self.guest@;
        let ghost call = self.calls@;
        let ghost goal = run_writes(
            old(self).streams(),
            old(self).trace(),
            call,
            lines,
            handle,
            start as nat,
        );
        let mut k: usize = start;
        while k < self.guest.len()
            invariant
                k <= lines.len(),
                self.wf(),
                self.schema == old(self).schema,
                self.env == old(self).env,
                self.guest == old(self).guest,
                self.capacity == old(self).capacity,
                self.phase == old(self).phase,
                self.frame == old(self).frame,
                self.calls == old(self).calls,
                self.table.free_list() == old(self).table.free_list(),
                self.table.slot_count() == old(self).table.slot_count(),
                run_writes(streams_of(self.table@), self.trace@, call, lines, handle, k as nat)
                    == goal,
            decreases lines.len() - k,
        {
            let ghost streams = streams_of(self.table@);
            let waits = match self.table.borrow(handle, OUTPUT_STREAM) {
                Err(_) => {
                    self.finish(&checkouts);
                    return Progress::Done(Err(()));
                },
                Ok(stream) => match stream {
                    Stream::External => true,
                    Stream::Memory(_) => false,
                },
            };
            let line = self.guest.line(k);
            if waits {
                let pending = self.guest.line(k);
                self.frame = Some(CallFrame { target: handle, cursor: k, pending, checkouts });
                self.phase = Phase::Parked;
                return Progress::Parked(line);
            }
            let ghost before = self.table@;
            let mut sink = match self.table.replace(handle, OUTPUT_STREAM, Stream::External) {
                Ok(Stream::Memory(sink)) => sink,
                _ => unreached(),
            };
            let ghost bytes = sink@;
            let ghost mid = self.table@;
            sink.extend_from_slice(line.as_slice());
            let ghost grown = sink@;
            assert(line@ == line_of(lines[k as int]));
            assert(grown == bytes + line_of(lines[k as int]));
            let full = Stream::Memory(sink);
            assert(full@ == StreamView::Memory(grown));
            match self.table.replace(handle, OUTPUT_STREAM, full) {
                Ok(_) => {},
                Err(_) => unreached(),
            }
            proof {
                assert(self.table@[handle].payload == full);
                assert(before[handle].payload@ == StreamView::Memory(bytes));
                assert(streams[handle].stream == StreamView::Memory(bytes));
                assert(mid[handle].owner == before[handle].owner);
                assert(self.table@[handle].payload@ == StreamView::Memory(
                    bytes + line_of(lines[k as int]),
                ));
                assert(self.table@.dom() =~= before.dom());
                assert(streams_of(self.table@) =~= streams.insert(
                    handle,
                    StreamEntry {
                        tag: streams[handle].tag,
                        owner: streams[handle].owner,
                        stream: StreamView::Memory(bytes + line_of(lines[k as int])),
                    },
                ));
            }
            self.note(Ghost(Effect::Wrote(call, handle, line_of(lines[k as int]))));
            k = k + 1;
        }
        self.finish(&checkouts);
        Progress::Done(Ok(()))
    }

    /// Carries the guest's verdict back across the boundary.
    fn answer(&self, progress: Progress) -> (out: Progress)
        requires
            self.wf(),
        ensures
            match progress {
                Progress::Done(verdict) => out matches Progress::Done(told) && (told is Ok) == (
                verdict is Ok),
                Progress::Parked(bytes) => out matches Progress::Parked(told) && told@ == bytes@,
            },
    {
        match progress {
            Progress::Parked(bytes) => Progress::Parked(bytes),
            Progress::Done(verdict) => {
                let case: u32 = match verdict {
                    Ok(_) => 0,
                    Err(_) => 1,
                };
                let ty = unit_result_ty();
                let value = Value::Variant(case, None);
                let mut mem = Memory::new(self.capacity);
                proof {
                    lemma_plain_variant(self.schema@, self.schema@.top(), ty, 2);
                    lemma_view_parts(value);
                    lemma_plain_case_lowers(self.schema@, 0, ty, case, mem@, mem.capacity());
                }
                match cross(&self.schema, &ty, &value, &mut mem) {
                    Ok(Value::Variant(told, None)) => {
                        proof {
                            lemma_view_parts(Value::Variant(told, None));
                        }
                        if told == 0 {
                            Progress::Done(Ok(()))
                        } else {
                            Progress::Done(Err(()))
                        }
                    },
                    _ => unreached(),
                }
            },
        }
    }

    /// Invokes `write-strings-to`: the guest writes each string it holds to
    /// the stream behind `handle`, as a line.
    ///
    /// The handle is borrowed for the call and must name an output stream
    /// when the argument is lowered. A sink in memory takes every line at
    /// once; at an external stream the call parks with the bytes of the
    /// next line, to be resumed once the embedder has written them.
    pub fn call_write_strings_to(&mut self, handle: u32) -> (result: Result<Progress, CallError>)
        requires
            old(self).wf(),
        ensures
            final(self).wf(),
            final(self).env() == old(self).env(),
            final(self).guest() == old(self).guest(),
            final(self).capacity() == old(self).capacity(),
            final(self).types() == old(self).types(),
            match refusal(old(self).phase()) {
                Some(e) => result is Err && result->Err_0 == e && final(self).same_as(old(self)),
                None => match stream_refusal(old(self).streams(), handle) {
                    Some(e) => result is Err && result->Err_0 == CallError::Table(e) && final(self).same_as(old(self)),
                    None => {
                        &&& result is Ok
                        &&& final(self).calls() == old(self).calls() + 1
                        &&& settled(
                            final(self),
                            run_writes(
                                old(self).streams(),
                                old(self).trace().push(
                                    Effect::Entered(old(self).calls() + 1, Export::WriteStringsTo),
                                ),
                                old(self).calls() + 1,
                                old(self).guest(),
                                handle,
                                0,
                            ),
                            old(self).calls() + 1,
                            handle,
                            Seq::empty(),
                            old(self).free_list(),
                            old(self).slot_count(),
                            old(self).guest(),
                            result->Ok_0,
                        )
                    },
                },
            },
    {
        match self.gate() {
            Err(e) => {
                return Err(e);
            },
            Ok(_) => {},
        }
        match self.table.lower_handle(handle, OUTPUT_STREAM, Passing::Borrowed) {
            Err(e) => {
                return Err(CallError::Table(e));
            },
            Ok(_) => {},
        }
        let ty = stream_ty();
        let value = Value::Handle(handle);
        let mut mem = Memory::new(self.capacity);
        proof {
            lemma_scalar_lowers(self.schema@, 0, ty, value@, mem@, mem.capacity());
        }
        let seen = match cross(&self.schema, &ty, &value, &mut mem) {
            Ok(Value::Handle(seen)) => seen,
            _ => unreached(),
        };
        self.enter(Export::WriteStringsTo);
        let progress = self.advance(seen, 0, Vec::new());
        let told = self.answer(progress);
        Ok(told)
    }

    /// Resumes the parked call once the embedder has dealt with the bytes
    /// it was handed: `written` says whether they reached the stream. A
    /// failed write makes the guest give up; after a good one the guest
    /// goes on with the next line.
    pub fn resume(&mut self, written: bool) -> (result: Result<Progress, CallError>)
        requires
            old(self).wf(),
        ensures
            final(self).wf(),
            final(self).env() == old(self).env(),
            final(self).guest() == old(self).guest(),
            final(self).capacity() == old(self).capacity(),
            final(self).types() == old(self).types(),
            final(self).calls() == old(self).calls(),
            !(old(self).phase() is Parked) ==> result is Err && result->Err_0
                == CallError::NotParked && final(self).same_as(old(self)),
            old(self).phase() is Parked ==> result is Ok && settled(
                final(self),
                if written {
                    run_writes(
                        old(self).streams(),
                        old(self).trace().push(
                            Effect::Wrote(
                                old(self).calls(),
                                old(self).target(),
                                line_of(old(self).guest()[old(self).cursor() as int]),
                            ),
                        ),
                        old(self).calls(),
                        old(self).guest(),
                        old(self).target(),
                        old(self).cursor() + 1,
                    )
                } else {
                    Run {
                        streams: old(self).streams(),
                        trace: old(self).trace(),
                        outcome: Outcome::Returned(false),
                    }
                },
                old(self).calls(),
                old(self).target(),
                old(self).checkouts(),
                old(self).free_list(),
                old(self).slot_count(),
                old(self).guest(),
                result->Ok_0,
            ),
    {
        let frame = match self.frame.take() {
            Some(frame) => frame,
            None => {
                return Err(CallError::NotParked);
            },
        };
        self.phase = Phase::Idle;
        let held: usize = self.guest.len();
        let progress = if written {
            self.note(Ghost(Effect::Wrote(self.calls@, frame.target, frame.pending@)));
            self.advance(frame.target, frame.cursor + 1, frame.checkouts)
        } else {
            self.finish(&frame.checkouts);
            Progress::Done(Err(()))
        };
        let told = self.answer(progress);
        Ok(told)
    }

    /// Cancels the parked call: what was created for it is released and the
    /// instance is left aborted, never to be called again. Returns whether
    /// a call was parked; without one nothing changes.
    pub fn cancel(&mut self) -> (cancelled: bool)
        requires
            old(self).wf(),
        ensures
            final(self).wf(),
            cancelled == (old(self).phase() is Parked),
            !cancelled ==> final(self).same_as(old(self)),
            cancelled ==> {
                &&& final(self).phase() is Aborted
                &&& final(self).streams() == released(
                    old(self).streams(),
                    old(self).checkouts(),
                    old(self).checkouts().len(),
                )
                &&& final(self).free_list() == freed(
                    old(self).streams(),
                    old(self).free_list(),
                    old(self).checkouts(),
                    old(self).checkouts().len(),
                )
                &&& final(self).slot_count() == old(self).slot_count()
                &&& final(self).checkouts() == Seq::<u32>::empty()
                &&& final(self).trace() == old(self).trace().push(Effect::Left(old(self).calls()))
                &&& final(self).env() == old(self).env()
                &&& final(self).guest() == old(self).guest()
                &&& final(self).capacity() == old(self).capacity()
                &&& final(self).types() == old(self).types()
                &&& final(self).calls() == old(self).calls()
            },
    {
        let frame = match self.frame.take() {
            Some(frame) => frame,
            None => {
                return false;
            },
        };
        self.phase = Phase::Idle;
        self.finish(&frame.checkouts);
        self.phase = Phase::Aborted;
        true
    }

    /// Creates a handle-table entry for the parked call: it lives until the
    /// call returns or is cancelled, unless it is kept.
    pub fn checkout(&mut self, stream: Stream) -> (result: Result<u32, CallError>)
        requires
            old(self).wf(),
        ensures
            final(self).wf(),
            final(self).phase() == old(self).phase(),
            final(self).env() == old(self).env(),
            final(self).guest() == old(self).guest(),
            final(self).capacity() == old(self).capacity(),
            final(self).types() == old(self).types(),
            final(self).calls() == old(self).calls(),
            final(self).trace() == old(self).trace(),
            final(self).target() == old(self).target(),
            final(self).cursor() == old(self).cursor(),
            result is Ok == (old(self).phase() is Parked && old(self).next_handle() <= u32::MAX),
            match result {
                Ok(handle) => {
                    &&& handle == old(self).next_handle()
                    &&& !old(self).streams().dom().contains(handle)
                    &&& final(self).streams() == old(self).streams().insert(
                        handle,
                        StreamEntry { tag: OUTPUT_STREAM, owner: Owner::Host, stream: stream@ },
                    )
                    &&& final(self).free_list() == if old(self).free_list().len() > 0 {
                        old(self).free_list().drop_last()
                    } else {
                        old(self).free_list()
                    }
                    &&& final(self).slot_count() == if old(self).free_list().len() > 0 {
                        old(self).slot_count()
                    } else {
                        old(self).slot_count() + 1
                    }
                    &&& final(self).checkouts() == old(self).checkouts().push(handle)
                },
                Err(e) => {
                    &&& final(self).streams() == old(self).streams()
                    &&& final(self).free_list() == old(self).free_list()
                    &&& final(self).slot_count() == old(self).slot_count()
                    &&& final(self).checkouts() == old(self).checkouts()
                    &&& e == if old(self).phase() is Parked {
                        CallError::Table(HandleError::Exhausted)
                    } else {
                        CallError::NotParked
                    }
                },
            },
    {
        let mut frame = match self.frame.take() {
            Some(frame) => frame,
            None => {
                return Err(CallError::NotParked);
            },
        };
        match self.table.insert(OUTPUT_STREAM, Owner::Host, stream) {
            Ok(handle) => {
                frame.checkouts.push(handle);
                self.frame = Some(frame);
                assert(self.streams() =~= old(self).streams().insert(
                    handle,
                    StreamEntry { tag: OUTPUT_STREAM, owner: Owner::Host, stream: stream@ },
                ));
                Ok(handle)
            },
            Err(e) => {
                self.frame = Some(frame);
                Err(CallError::Table(e))
            },
        }
    }

    /// Hands an entry that was created for the parked call over to the
    /// store for good: it is no longer released with the call. Returns
    /// whether a call is parked.
    pub fn keep(&mut self, handle: u32) -> (parked: bool)
        requires
            old(self).wf(),
        ensures
            final(self).wf(),
            parked == (old(self).phase() is Parked),
            final(self).checkouts() == without(
                old(self).checkouts(),
                handle,
                old(self).checkouts().len(),
            ),
            final(self).phase() == old(self).phase(),
            final(self).env() == old(self).env(),
            final(self).guest() == old(self).guest(),
            final(self).streams() == old(self).streams(),
            final(self).free_list() == old(self).free_list(),
            final(self).slot_count() == old(self).slot_count(),
            final(self).capacity() == old(self).capacity(),
            final(self).types() == old(self).types(),
            final(self).calls() == old(self).calls(),
            final(self).trace() == old(self).trace(),
            final(self).target() == old(self).target(),
            final(self).cursor() == old(self).cursor(),
    {
        let frame = match self.frame.take() {
            Some(frame) => frame,
            None => {
                return false;
            },
        };
        let mut left: Vec<u32> = Vec::new();
        let mut i: usize = 0;
        while i < frame.checkouts.len()
            invariant
                i <= frame.checkouts@.len(),
                left@ == without(frame.checkouts@, handle, i as nat),
            decreases frame.checkouts@.len() - i,
        {
            if frame.checkouts[i] != handle {
                left.push(frame.checkouts[i]);
            }
            i = i + 1;
        }
        self.frame = Some(
            CallFrame {
                target: frame.target,
                cursor: frame.cursor,
                pending: frame.pending,
                checkouts: left,
            },
        );
        true
    }
}

} // verus!
