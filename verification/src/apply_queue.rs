//! Writing configurations one at a time: edits are collected for a moment, and only the last of them
//! is written.

use crate::text;
use vstd::prelude::*;

verus! {

/// How long an edit waits for the next one, in milliseconds.
pub const CONFIG_APPLY_DEBOUNCE_MS: u64 = 400;

/// What is waiting to be written, and whether something is being written.
pub struct ConfigApplyQueue<C> {
    pending: Option<C>,
    in_flight: bool,
    debounce: bool,
}

pub struct Queue<C> {
    pub pending: Option<C>,
    pub in_flight: bool,
    /// Whether the timer runs that an edit waits for.
    pub debounce: bool,
}

impl<C> View for ConfigApplyQueue<C> {
    type V = Queue<C>;

    closed spec fn view(&self) -> Queue<C> {
        Queue { pending: self.pending, in_flight: self.in_flight, debounce: self.debounce }
    }
}

/// After an edit: it replaces whatever waits, and the timer starts anew.
pub open spec fn scheduled<C>(queue: Queue<C>, config: C) -> Queue<C> {
    Queue { pending: Some(config), debounce: true, ..queue }
}

/// A writer is started only where there is something to write and nothing is being written.
pub open spec fn starts_writer<C>(queue: Queue<C>) -> bool {
    !queue.in_flight && queue.pending is Some
}

/// After the timer ran out or was cut short.
pub open spec fn drained<C>(queue: Queue<C>) -> Queue<C> {
    Queue { in_flight: queue.in_flight || queue.pending is Some, debounce: false, ..queue }
}

/// After a writer asked what to write next. One that finds nothing ends.
pub open spec fn taken<C>(queue: Queue<C>) -> Queue<C> {
    Queue { pending: None, in_flight: queue.in_flight && queue.pending is Some, ..queue }
}

impl<C> ConfigApplyQueue<C> {
    pub fn new() -> (r: ConfigApplyQueue<C>)
        ensures
            r@ == (Queue::<C> { pending: None, in_flight: false, debounce: false }),
    {
        ConfigApplyQueue { pending: None, in_flight: false, debounce: false }
    }

    /// Takes an edit, and says whether a timer is running that has to be removed before a new one is
    /// set.
    pub fn schedule_config_apply(&mut self, config: C) -> (r: bool)
        ensures
            final(self)@ == scheduled(old(self)@, config),
            r == old(self)@.debounce,
    {
        let running = self.debounce;
        self.pending = Some(config);
        self.debounce = true;
        running
    }

    /// The timer ran out. A writer has to be started where `true` comes back.
    pub fn drain_config_apply_queue(&mut self) -> (r: bool)
        ensures
            final(self)@ == drained(old(self)@),
            r == starts_writer(old(self)@),
    {
        self.debounce = false;
        if self.in_flight || self.pending.is_none() {
            return false;
        }
        self.in_flight = true;
        true
    }

    /// Writes without waiting for the timer. Whether a timer has to be removed comes back first, and
    /// then whether a writer has to be started.
    pub fn flush_config_apply(&mut self) -> (r: (bool, bool))
        ensures
            final(self)@ == drained(old(self)@),
            r == (old(self)@.debounce, starts_writer(old(self)@)),
    {
        let running = self.debounce;
        (running, self.drain_config_apply_queue())
    }

    /// What a writer writes next. It ends where nothing comes back.
    pub fn next_write(&mut self) -> (r: Option<C>)
        ensures
            r == old(self)@.pending,
            final(self)@ == taken(old(self)@),
    {
        let next = self.pending.take();
        if next.is_none() {
            self.in_flight = false;
        }
        next
    }
}

pub fn write_error(error: &str) -> (r: String)
    ensures
        r@ == "Failed to apply config: "@ + error@,
{
    text::cat2("Failed to apply config: ", error)
}

/// Something that happens to a queue.
pub enum QueueEvent<C> {
    Scheduled(C),
    Drained,
    /// A writer finished a write, or began, and asks for the next one.
    Asked,
}

/// A queue, with the number of writers that run.
pub struct Running<C> {
    pub queue: Queue<C>,
    pub writers: int,
}

pub open spec fn step<C>(now: Running<C>, event: QueueEvent<C>) -> Running<C> {
    match event {
        QueueEvent::Scheduled(config) => Running { queue: scheduled(now.queue, config), ..now },
        QueueEvent::Drained => Running {
            queue: drained(now.queue),
            writers: now.writers + (if starts_writer(now.queue) {
                1int
            } else {
                0int
            }),
        },
        QueueEvent::Asked => Running {
            queue: taken(now.queue),
            writers: now.writers - (if now.queue.pending is None {
                1int
            } else {
                0int
            }),
        },
    }
}

/// What has become of a new queue. Only a writer that runs asks what to write.
pub open spec fn after<C>(events: Seq<QueueEvent<C>>) -> Running<C>
    decreases events.len(),
{
    if events.len() == 0 {
        Running {
            queue: Queue { pending: None, in_flight: false, debounce: false },
            writers: 0,
        }
    } else {
        let before = after(events.drop_last());
        if events.last() is Asked && before.writers == 0 {
            before
        } else {
            step(before, events.last())
        }
    }
}

/// Writes never overlap: whatever happens, at most one writer runs, and one runs exactly while the
/// queue says that a write is in flight.
pub proof fn writes_never_overlap<C>(events: Seq<QueueEvent<C>>)
    ensures
        0 <= after(events).writers <= 1,
        (after(events).writers == 1) == after(events).queue.in_flight,
    decreases events.len(),
{
    if events.len() > 0 {
        writes_never_overlap(events.drop_last());
    }
}

/// The last edit of a list of edits that come one after the other.
pub open spec fn all_scheduled<C>(queue: Queue<C>, edits: Seq<C>) -> Queue<C>
    decreases edits.len(),
{
    if edits.len() == 0 {
        queue
    } else {
        scheduled(all_scheduled(queue, edits.drop_last()), edits.last())
    }
}

/// Edits that come in a burst, also while something is being written, collapse to the last one: that
/// is what the next write carries, and it is written once.
pub proof fn a_burst_collapses_to_its_last_edit<C>(queue: Queue<C>, edits: Seq<C>)
    requires
        edits.len() > 0,
    ensures
        all_scheduled(queue, edits) == scheduled(queue, edits.last()),
        drained(all_scheduled(queue, edits)).pending == Some(edits.last()),
        drained(all_scheduled(queue, edits)).in_flight,
        taken(drained(all_scheduled(queue, edits))).pending is None,
    decreases edits.len(),
{
    if edits.len() > 1 {
        a_burst_collapses_to_its_last_edit(queue, edits.drop_last());
    } else {
        assert(all_scheduled(queue, edits.drop_last()) == queue);
    }
}

/// An edit is kept until it is taken, whatever is being written, and a drain does not lose it; it is
/// taken once.
pub proof fn an_edit_is_kept_until_it_is_taken<C>(queue: Queue<C>, config: C)
    ensures
        scheduled(queue, config).pending == Some(config),
        scheduled(queue, config).in_flight == queue.in_flight,
        scheduled(queue, config).debounce,
        drained(queue).pending == queue.pending,
        !drained(queue).debounce,
        taken(queue).pending is None,
        taken(queue).debounce == queue.debounce,
        CONFIG_APPLY_DEBOUNCE_MS == 400,
{
}

/// A drain starts a writer exactly where an edit waits and none is being written; a writer goes on
/// exactly while there is something to take.
pub proof fn a_writer_runs_while_there_is_something_to_write<C>(queue: Queue<C>)
    ensures
        starts_writer(queue) <==> queue.pending is Some && !queue.in_flight,
        drained(queue).in_flight <==> queue.in_flight || queue.pending is Some,
        taken(queue).in_flight <==> queue.in_flight && queue.pending is Some,
        !drained(queue).in_flight ==> drained(queue).pending is None,
{
}

/// Nothing that was edited is left behind: where an edit waits, a drain leaves a writer running, and
/// the writer takes it next.
pub proof fn a_waiting_edit_is_written_next<C>(events: Seq<QueueEvent<C>>, config: C)
    ensures
        ({
            let drained_last = events.push(QueueEvent::Scheduled(config)).push(QueueEvent::Drained);
            &&& after(drained_last).queue.pending == Some(config)
            &&& after(drained_last).writers == 1
            &&& after(drained_last.push(QueueEvent::Asked)).queue.pending is None
            &&& after(drained_last.push(QueueEvent::Asked)).writers == 1
            &&& after(drained_last.push(QueueEvent::Asked).push(QueueEvent::Asked)).writers == 0
        }),
{
    let edited = events.push(QueueEvent::Scheduled(config));
    let drained_last = edited.push(QueueEvent::Drained);
    let asked = drained_last.push(QueueEvent::Asked);
    let ended = asked.push(QueueEvent::Asked);
    writes_never_overlap(events);
    assert(edited.drop_last() =~= events);
    assert(drained_last.drop_last() =~= edited);
    assert(asked.drop_last() =~= drained_last);
    assert(ended.drop_last() =~= asked);
    assert(after(edited).queue.pending == Some(config));
    writes_never_overlap(edited);
    assert(after(drained_last).writers == 1);
    assert(after(asked).writers == 1);
}

} // verus!
