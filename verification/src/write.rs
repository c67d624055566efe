//! The course of a write: when writers are opened, which partition to read, which writer
//! gets what was read, and when writers are closed.
//!
//! Opening, reading, writing and closing are the caller's. [`WriteState::action`] says what to do,
//! and [`WriteState::write_all`] takes what came of it. A failure ends the write, and is
//! not handed in.

use vstd::prelude::*;

verus! {

/// What a write waits for.
#[derive(Clone, Copy, Debug, PartialEq, Eq, Structural)]
pub enum WritePhase {
    /// That a writer is opened.
    Opening { writer: usize },
    /// The next batch of a partition.
    Reading { partition: usize },
    /// That a batch of a partition is written.
    Writing { partition: usize },
    /// That a writer is closed.
    Closing { writer: usize },
    /// Nothing: all is written.
    Finished,
}

/// How far a write has come.
#[derive(Clone, Copy, Debug, PartialEq, Eq, Structural)]
pub struct WriteState {
    pub num_partitions: usize,
    /// Whether each partition has a writer of its own, and not all the same.
    pub per_thread_output: bool,
    pub phase: WritePhase,
    /// The rows of the batches so far.
    pub row_count: usize,
}

/// What to do next.
#[derive(Clone, Copy, Debug, PartialEq, Eq, Structural)]
pub enum WriteAction {
    /// Open the writer of a file, by the position of the file in the plan.
    Open { writer: usize },
    /// Read the next batch of a partition.
    Read { partition: usize },
    /// Write the batch that was read.
    Write { writer: usize },
    /// Close a writer.
    Close { writer: usize },
    /// Report the number of rows that were written.
    Finish { row_count: u64 },
}

/// What came of it.
#[derive(Clone, Copy, Debug, PartialEq, Eq, Structural)]
pub enum WriteEvent {
    /// The writer was opened.
    Opened,
    /// A batch of a number of rows was read.
    Batch { num_rows: usize },
    /// The partition has no further batch.
    End,
    /// The batch was written.
    Written,
    /// The writer was closed.
    Closed,
}

impl WriteState {
    /// The number of writers.
    pub open spec fn num_writers(self) -> nat {
        if self.per_thread_output {
            self.num_partitions as nat
        } else {
            1
        }
    }

    /// The writer of a partition.
    pub open spec fn writer_of(self, partition: usize) -> usize {
        if self.per_thread_output {
            partition
        } else {
            0
        }
    }

    /// Whether the phase is about a partition and a writer that there are.
    pub open spec fn wf(self) -> bool {
        match self.phase {
            WritePhase::Opening { writer } => writer < self.num_writers(),
            WritePhase::Reading { partition } => partition < self.num_partitions,
            WritePhase::Writing { partition } => partition < self.num_partitions,
            WritePhase::Closing { writer } => writer < self.num_writers(),
            WritePhase::Finished => true,
        }
    }

    /// Closing writers from one on.
    pub open spec fn closing_from(self, writer: int) -> WriteState {
        WriteState {
            phase: if writer < self.num_writers() {
                WritePhase::Closing { writer: writer as usize }
            } else {
                WritePhase::Finished
            },
            ..self
        }
    }

    /// Reading partitions from one on, and closing the writers after the last.
    pub open spec fn reading_from(self, partition: int) -> WriteState {
        if partition < self.num_partitions {
            WriteState { phase: WritePhase::Reading { partition: partition as usize }, ..self }
        } else {
            self.closing_from(0)
        }
    }

    /// Opening writers from one on, and reading partitions after the last.
    pub open spec fn opening_from(self, writer: int) -> WriteState {
        if writer < self.num_writers() {
            WriteState { phase: WritePhase::Opening { writer: writer as usize }, ..self }
        } else {
            self.reading_from(0)
        }
    }

    /// A write that has not begun.
    pub open spec fn start(num_partitions: usize, per_thread_output: bool) -> WriteState {
        WriteState {
            num_partitions,
            per_thread_output,
            phase: WritePhase::Finished,
            row_count: 0,
        }.opening_from(0)
    }

    /// What is done in a phase.
    pub open spec fn spec_action(self) -> WriteAction {
        match self.phase {
            WritePhase::Opening { writer } => WriteAction::Open { writer },
            WritePhase::Reading { partition } => WriteAction::Read { partition },
            WritePhase::Writing { partition } => WriteAction::Write {
                writer: self.writer_of(partition),
            },
            WritePhase::Closing { writer } => WriteAction::Close { writer },
            WritePhase::Finished => WriteAction::Finish { row_count: self.row_count as u64 },
        }
    }

    /// Whether an event answers what is done in the phase, and its rows can be counted.
    pub open spec fn admits(self, event: WriteEvent) -> bool {
        match (self.phase, event) {
            (WritePhase::Opening { .. }, WriteEvent::Opened) => true,
            (WritePhase::Reading { .. }, WriteEvent::Batch { num_rows }) => self.row_count
                + num_rows <= usize::MAX,
            (WritePhase::Reading { .. }, WriteEvent::End) => true,
            (WritePhase::Writing { .. }, WriteEvent::Written) => true,
            (WritePhase::Closing { .. }, WriteEvent::Closed) => true,
            _ => false,
        }
    }

    /// How a write goes on after an event.
    pub open spec fn after(self, event: WriteEvent) -> WriteState {
        match (self.phase, event) {
            (WritePhase::Opening { writer }, WriteEvent::Opened) => self.opening_from(writer + 1),
            (WritePhase::Reading { partition }, WriteEvent::Batch { num_rows }) => WriteState {
                phase: WritePhase::Writing { partition },
                row_count: (self.row_count + num_rows) as usize,
                ..self
            },
            (WritePhase::Reading { partition }, WriteEvent::End) => self.reading_from(
                partition + 1,
            ),
            (WritePhase::Writing { partition }, WriteEvent::Written) => self.reading_from(
                partition as int,
            ),
            (WritePhase::Closing { writer }, WriteEvent::Closed) => self.closing_from(writer + 1),
            _ => self,
        }
    }

    /// Begins a write of a number of partitions.
    pub fn new(num_partitions: usize, per_thread_output: bool) -> (state: WriteState)
        ensures
            state == Self::start(num_partitions, per_thread_output),
            state.wf(),
    {
        let phase: WritePhase = if per_thread_output && num_partitions == 0 {
            WritePhase::Finished
        } else {
            WritePhase::Opening { writer: 0 }
        };
        WriteState { num_partitions, per_thread_output, phase, row_count: 0 }
    }

    /// Says what to do.
    pub fn action(&self) -> (action: WriteAction)
        ensures
            action == self.spec_action(),
    {
        match self.phase {
            WritePhase::Opening { writer } => WriteAction::Open { writer },
            WritePhase::Reading { partition } => WriteAction::Read { partition },
            WritePhase::Writing { partition } => WriteAction::Write {
                writer: if self.per_thread_output {
                    partition
                } else {
                    0
                },
            },
            WritePhase::Closing { writer } => WriteAction::Close { writer },
            WritePhase::Finished => WriteAction::Finish { row_count: self.row_count as u64 },
        }
    }

    /// Tests whether an event answers what is done in the phase, and its rows can be
    /// counted.
    pub fn can_take(&self, event: &WriteEvent) -> (admitted: bool)
        ensures
            admitted == self.admits(*event),
    {
        match (self.phase, event) {
            (WritePhase::Opening { .. }, WriteEvent::Opened) => true,
            (WritePhase::Reading { .. }, WriteEvent::Batch { num_rows }) => *num_rows <= usize::MAX
                - self.row_count,
            (WritePhase::Reading { .. }, WriteEvent::End) => true,
            (WritePhase::Writing { .. }, WriteEvent::Written) => true,
            (WritePhase::Closing { .. }, WriteEvent::Closed) => true,
            _ => false,
        }
    }

    /// Takes what came of the last action, and goes on.
    pub fn write_all(&mut self, event: WriteEvent)
        requires
            old(self).wf(),
            old(self).admits(event),
        ensures
            *final(self) == old(self).after(event),
            final(self).wf(),
    {
        match (self.phase, event) {
            (WritePhase::Opening { writer }, WriteEvent::Opened) => {
                if self.per_thread_output && writer + 1 < self.num_partitions {
                    self.phase = WritePhase::Opening { writer: writer + 1 };
                } else if self.num_partitions > 0 {
                    self.phase = WritePhase::Reading { partition: 0 };
                } else {
                    self.phase = WritePhase::Closing { writer: 0 };
                }
            },
            (WritePhase::Reading { partition }, WriteEvent::Batch { num_rows }) => {
                self.row_count = self.row_count + num_rows;
                self.phase = WritePhase::Writing { partition };
            },
            (WritePhase::Reading { partition }, WriteEvent::End) => {
                if partition + 1 < self.num_partitions {
                    self.phase = WritePhase::Reading { partition: partition + 1 };
                } else {
                    self.phase = WritePhase::Closing { writer: 0 };
                }
            },
            (WritePhase::Writing { partition }, WriteEvent::Written) => {
                self.phase = WritePhase::Reading { partition };
            },
            (WritePhase::Closing { writer }, WriteEvent::Closed) => {
                if self.per_thread_output && writer + 1 < self.num_partitions {
                    self.phase = WritePhase::Closing { writer: writer + 1 };
                } else {
                    self.phase = WritePhase::Finished;
                }
            },
            _ => {},
        }
    }
}

/// How a write stands after events, as long as each is admitted.
pub open spec fn run(state: WriteState, events: Seq<WriteEvent>) -> Option<WriteState>
    decreases events.len(),
{
    if events.len() == 0 {
        Some(state)
    } else if state.admits(events[0]) {
        run(state.after(events[0]), events.subrange(1, events.len() as int))
    } else {
        None
    }
}

/// What a write does, one action for each event.
pub open spec fn actions(state: WriteState, events: Seq<WriteEvent>) -> Seq<WriteAction>
    decreases events.len(),
{
    if events.len() == 0 {
        Seq::empty()
    } else {
        seq![state.spec_action()] + actions(
            state.after(events[0]),
            events.subrange(1, events.len() as int),
        )
    }
}

/// The rows of batches.
pub open spec fn sum(rows: Seq<usize>) -> int
    decreases rows.len(),
{
    if rows.len() == 0 {
        0
    } else {
        rows[0] + sum(rows.subrange(1, rows.len() as int))
    }
}

/// The rows of partitions, each given by the rows of its batches.
pub open spec fn total(partitions: Seq<Seq<usize>>) -> int
    decreases partitions.len(),
{
    if partitions.len() == 0 {
        0
    } else {
        sum(partitions[0]) + total(partitions.subrange(1, partitions.len() as int))
    }
}

/// The events of a partition: each batch is read and written, and then none is left.
pub open spec fn partition_events(rows: Seq<usize>) -> Seq<WriteEvent>
    decreases rows.len(),
{
    if rows.len() == 0 {
        seq![WriteEvent::End]
    } else {
        seq![WriteEvent::Batch { num_rows: rows[0] }, WriteEvent::Written] + partition_events(
            rows.subrange(1, rows.len() as int),
        )
    }
}

/// What is done with a partition of a number of batches: each is read and handed to the
/// writer of the partition.
pub open spec fn partition_actions(partition: usize, writer: usize, batches: nat) -> Seq<
    WriteAction,
>
    decreases batches,
{
    if batches == 0 {
        seq![WriteAction::Read { partition }]
    } else {
        seq![WriteAction::Read { partition }, WriteAction::Write { writer }] + partition_actions(
            partition,
            writer,
            (batches - 1) as nat,
        )
    }
}

/// The events of partitions, one after the other.
pub open spec fn read_events(partitions: Seq<Seq<usize>>) -> Seq<WriteEvent>
    decreases partitions.len(),
{
    if partitions.len() == 0 {
        Seq::empty()
    } else {
        partition_events(partitions[0]) + read_events(
            partitions.subrange(1, partitions.len() as int),
        )
    }
}

/// What is done with partitions, one after the other, from partition `first` on.
pub open spec fn read_actions(state: WriteState, partitions: Seq<Seq<usize>>, first: int) -> Seq<
    WriteAction,
>
    decreases partitions.len(),
{
    if partitions.len() == 0 {
        Seq::empty()
    } else {
        partition_actions(
            first as usize,
            state.writer_of(first as usize),
            partitions[0].len(),
        ) + read_actions(state, partitions.subrange(1, partitions.len() as int), first + 1)
    }
}

/// The events of opening a number of writers.
pub open spec fn open_events(writers: nat) -> Seq<WriteEvent> {
    Seq::new(writers, |i: int| WriteEvent::Opened)
}

/// What is done to open writers, from one on.
pub open spec fn open_actions(writers: nat, first: int) -> Seq<WriteAction> {
    Seq::new(writers, |i: int| WriteAction::Open { writer: (first + i) as usize })
}

/// The events of closing a number of writers.
pub open spec fn close_events(writers: nat) -> Seq<WriteEvent> {
    Seq::new(writers, |i: int| WriteEvent::Closed)
}

/// What is done to close writers, from one on.
pub open spec fn close_actions(writers: nat, first: int) -> Seq<WriteAction> {
    Seq::new(writers, |i: int| WriteAction::Close { writer: (first + i) as usize })
}

/// A run of two sequences of events is one after the other.
proof fn lemma_run_concat(state: WriteState, a: Seq<WriteEvent>, b: Seq<WriteEvent>)
    requires
        run(state, a) is Some,
    ensures
        run(state, a + b) == run(run(state, a)->0, b),
        actions(state, a + b) == actions(state, a) + actions(run(state, a)->0, b),
    decreases a.len(),
{
    if a.len() == 0 {
        assert(a + b =~= b);
        assert(actions(state, a) + actions(state, b) =~= actions(state, b));
    } else {
        let rest = a.subrange(1, a.len() as int);
        lemma_run_concat(state.after(a[0]), rest, b);
        assert((a + b).subrange(1, (a + b).len() as int) =~= rest + b);
        assert(actions(state, a + b) =~= actions(state, a) + actions(run(state, a)->0, b));
    }
}

/// A partition is read to its end, and each of its batches written.
proof fn lemma_partition(state: WriteState, partition: usize, rows: Seq<usize>)
    requires
        state.phase == (WritePhase::Reading { partition }),
        partition < state.num_partitions,
        state.row_count + sum(rows) <= usize::MAX,
        sum(rows) >= 0,
    ensures
        run(state, partition_events(rows)) == Some(
            (WriteState { row_count: (state.row_count + sum(rows)) as usize, ..state }).reading_from(
                partition + 1,
            ),
        ),
        actions(state, partition_events(rows)) == partition_actions(
            partition,
            state.writer_of(partition),
            rows.len(),
        ),
    decreases rows.len(),
{
    let events = partition_events(rows);
    if rows.len() == 0 {
        reveal_with_fuel(run, 2);
        reveal_with_fuel(actions, 2);
        assert(events.subrange(1, events.len() as int) =~= Seq::<WriteEvent>::empty());
        assert(actions(state, events) =~= partition_actions(partition, state.writer_of(partition), 0));
    } else {
        let rest = rows.subrange(1, rows.len() as int);
        lemma_sum_is_not_negative(rest);
        reveal_with_fuel(run, 3);
        reveal_with_fuel(actions, 3);
        let later = events.subrange(1, events.len() as int);
        assert(later.subrange(1, later.len() as int) =~= partition_events(rest));
        assert(events[0] == (WriteEvent::Batch { num_rows: rows[0] }));
        assert(later[0] == WriteEvent::Written);
        let next = state.after(events[0]).after(later[0]);
        assert(next == (WriteState {
            row_count: (state.row_count + rows[0]) as usize,
            ..state
        }));
        lemma_partition(next, partition, rest);
        assert(actions(state, events) =~= partition_actions(
            partition,
            state.writer_of(partition),
            rows.len(),
        ));
    }
}

/// Rows are never fewer than none.
proof fn lemma_sum_is_not_negative(rows: Seq<usize>)
    ensures
        sum(rows) >= 0,
    decreases rows.len(),
{
    if rows.len() > 0 {
        lemma_sum_is_not_negative(rows.subrange(1, rows.len() as int));
    }
}

/// Rows are never fewer than none.
proof fn lemma_total_is_not_negative(partitions: Seq<Seq<usize>>)
    ensures
        total(partitions) >= 0,
    decreases partitions.len(),
{
    if partitions.len() > 0 {
        lemma_sum_is_not_negative(partitions[0]);
        lemma_total_is_not_negative(partitions.subrange(1, partitions.len() as int));
    }
}

/// Partitions are read one after the other.
proof fn lemma_partitions(state: WriteState, first: int, partitions: Seq<Seq<usize>>)
    requires
        0 <= first,
        first + partitions.len() == state.num_partitions,
        state.row_count + total(partitions) <= usize::MAX,
    ensures
        run(state.reading_from(first), read_events(partitions)) == Some(
            (WriteState {
                row_count: (state.row_count + total(partitions)) as usize,
                ..state
            }).closing_from(0),
        ),
        actions(state.reading_from(first), read_events(partitions)) == read_actions(
            state,
            partitions,
            first,
        ),
    decreases partitions.len(),
{
    if partitions.len() > 0 {
        let rest = partitions.subrange(1, partitions.len() as int);
        let rows = partitions[0];
        lemma_sum_is_not_negative(rows);
        lemma_total_is_not_negative(rest);
        let reading = state.reading_from(first);
        lemma_partition(reading, first as usize, rows);
        lemma_run_concat(reading, partition_events(rows), read_events(rest));
        let next = WriteState { row_count: (state.row_count + sum(rows)) as usize, ..state };
        assert(run(reading, partition_events(rows)) == Some(next.reading_from(first + 1)));
        lemma_partitions(next, first + 1, rest);
        lemma_read_actions(state, next, rest, first + 1);
    } else {
        assert(state.reading_from(first) == state.closing_from(0));
    }
}

/// What is done with partitions does not depend on the rows so far.
proof fn lemma_read_actions(
    a: WriteState,
    b: WriteState,
    partitions: Seq<Seq<usize>>,
    first: int,
)
    requires
        a.per_thread_output == b.per_thread_output,
    ensures
        read_actions(a, partitions, first) == read_actions(b, partitions, first),
    decreases partitions.len(),
{
    if partitions.len() > 0 {
        lemma_read_actions(a, b, partitions.subrange(1, partitions.len() as int), first + 1);
    }
}

/// Writers are opened one after the other.
proof fn lemma_opening(state: WriteState, writer: nat)
    requires
        writer <= state.num_writers(),
    ensures
        run(state.opening_from(writer as int), open_events((state.num_writers() - writer) as nat))
            == Some(state.reading_from(0)),
        actions(
            state.opening_from(writer as int),
            open_events((state.num_writers() - writer) as nat),
        ) == open_actions((state.num_writers() - writer) as nat, writer as int),
    decreases state.num_writers() - writer,
{
    let left = (state.num_writers() - writer) as nat;
    let opening = state.opening_from(writer as int);
    let events = open_events(left);
    if left > 0 {
        assert(events.subrange(1, events.len() as int) =~= open_events((left - 1) as nat));
        lemma_opening(state, writer + 1);
        assert(opening.after(events[0]) == state.opening_from((writer + 1) as int));
    }
    assert(actions(opening, events) =~= open_actions(left, writer as int));
}

/// Writers are closed one after the other.
proof fn lemma_closing(state: WriteState, writer: nat)
    requires
        writer <= state.num_writers(),
    ensures
        run(state.closing_from(writer as int), close_events((state.num_writers() - writer) as nat))
            == Some(WriteState { phase: WritePhase::Finished, ..state }),
        actions(
            state.closing_from(writer as int),
            close_events((state.num_writers() - writer) as nat),
        ) == close_actions((state.num_writers() - writer) as nat, writer as int),
    decreases state.num_writers() - writer,
{
    let left = (state.num_writers() - writer) as nat;
    let closing = state.closing_from(writer as int);
    if left > 0 {
        let events = close_events(left);
        assert(events.subrange(1, events.len() as int) =~= close_events((left - 1) as nat));
        lemma_closing(state, writer + 1);
        assert(closing.after(events[0]) == state.closing_from((writer + 1) as int));
        assert(actions(closing, events) =~= close_actions(left, writer as int));
    } else {
        assert(actions(closing, close_events(left)) =~= close_actions(left, writer as int));
    }
}

/// A write opens every writer, reads every partition to its end, hands each batch once to
/// the writer of its partition, closes every writer, and counts all rows.
pub proof fn law_write_all(per_thread_output: bool, partitions: Seq<Seq<usize>>)
    requires
        partitions.len() <= usize::MAX,
        total(partitions) <= usize::MAX,
    ensures
        ({
            let start = WriteState::start(partitions.len() as usize, per_thread_output);
            let writers = start.num_writers();
            let events = open_events(writers) + read_events(partitions) + close_events(writers);
            &&& run(start, events) matches Some(end)
            &&& end.spec_action() == (WriteAction::Finish { row_count: total(partitions) as u64 })
            &&& actions(start, events) == open_actions(writers, 0) + read_actions(
                start,
                partitions,
                0,
            ) + close_actions(writers, 0)
        }),
{
    let n = partitions.len() as usize;
    let start = WriteState::start(n, per_thread_output);
    let writers = start.num_writers();
    let blank = WriteState {
        num_partitions: n,
        per_thread_output,
        phase: WritePhase::Finished,
        row_count: 0,
    };
    lemma_opening(blank, 0);
    lemma_run_concat(start, open_events(writers), read_events(partitions));
    lemma_total_is_not_negative(partitions);
    lemma_partitions(blank, 0, partitions);
    lemma_read_actions(start, blank, partitions, 0);
    lemma_run_concat(start, open_events(writers) + read_events(partitions), close_events(writers));
    let read = WriteState { row_count: total(partitions) as usize, ..blank };
    lemma_closing(read, 0);
}

/// A run that is admitted is admitted up to each of its events.
proof fn lemma_run_prefix(state: WriteState, a: Seq<WriteEvent>, b: Seq<WriteEvent>)
    requires
        run(state, a + b) is Some,
    ensures
        run(state, a) is Some,
    decreases a.len(),
{
    if a.len() > 0 {
        let rest = a.subrange(1, a.len() as int);
        assert((a + b).subrange(1, (a + b).len() as int) =~= rest + b);
        lemma_run_prefix(state.after(a[0]), rest, b);
    }
}

/// Whether actions are among those of a write that has come this far: while writers are
/// opened, nothing else; while a partition is read or written, no closing of a writer and
/// no reading of a later partition.
pub open spec fn is_so_far(phase: WritePhase, done: Seq<WriteAction>) -> bool {
    match phase {
        WritePhase::Opening { .. } => forall|i: int|
            0 <= i < done.len() ==> (#[trigger] done[i]) is Open,
        WritePhase::Reading { partition } => is_before_closing(partition, done),
        WritePhase::Writing { partition } => is_before_closing(partition, done),
        _ => true,
    }
}

/// Whether actions close no writer and read no partition behind this one.
pub open spec fn is_before_closing(partition: usize, done: Seq<WriteAction>) -> bool {
    forall|i: int|
        0 <= i < done.len() ==> match #[trigger] done[i] {
            WriteAction::Close { .. } => false,
            WriteAction::Finish { .. } => false,
            WriteAction::Read { partition: read } => read <= partition,
            _ => true,
        }
}

/// As long as a partition is read or written, no writer was closed and no later partition
/// was read. So where reading or writing fails, no file was completed and the partitions
/// behind it are untouched.
pub proof fn law_nothing_is_closed_while_reading(
    num_partitions: usize,
    per_thread_output: bool,
    events: Seq<WriteEvent>,
)
    requires
        run(WriteState::start(num_partitions, per_thread_output), events) is Some,
    ensures
        is_so_far(
            run(WriteState::start(num_partitions, per_thread_output), events)->0.phase,
            actions(WriteState::start(num_partitions, per_thread_output), events),
        ),
    decreases events.len(),
{
    let start = WriteState::start(num_partitions, per_thread_output);
    if events.len() > 0 {
        let init = events.drop_last();
        let last = seq![events.last()];
        assert(init + last =~= events);
        lemma_run_prefix(start, init, last);
        lemma_run_concat(start, init, last);
        law_nothing_is_closed_while_reading(num_partitions, per_thread_output, init);
        let before = run(start, init)->0;
        reveal_with_fuel(run, 2);
        reveal_with_fuel(actions, 2);
        assert(last.subrange(1, 1) =~= Seq::<WriteEvent>::empty());
        assert(run(start, events) == Some(before.after(events.last())));
        assert(actions(before, last) =~= seq![before.spec_action()]);
        assert(actions(start, events) =~= actions(start, init).push(before.spec_action()));
    }
}

/// A write never asks for a partition or a writer that there is none of.
pub proof fn law_actions_are_in_range(state: WriteState, event: WriteEvent)
    requires
        state.wf(),
        state.admits(event),
    ensures
        state.after(event).wf(),
        match state.spec_action() {
            WriteAction::Open { writer } => writer < state.num_writers(),
            WriteAction::Read { partition } => partition < state.num_partitions,
            WriteAction::Write { writer } => writer < state.num_writers(),
            WriteAction::Close { writer } => writer < state.num_writers(),
            WriteAction::Finish { .. } => true,
        },
{
}

/// What a write starts with, and how many writers it has: one for each partition, or one
/// for all of them.
pub proof fn law_start_of_write(num_partitions: usize, per_thread_output: bool, partition: usize)
    ensures
        ({
            let start = WriteState::start(num_partitions, per_thread_output);
            &&& start.num_partitions == num_partitions
            &&& start.per_thread_output == per_thread_output
            &&& start.row_count == 0
            &&& start.num_writers() == (if per_thread_output {
                num_partitions as nat
            } else {
                1nat
            })
            &&& start.writer_of(partition) == (if per_thread_output {
                partition
            } else {
                0usize
            })
            &&& start.spec_action() == (if per_thread_output && num_partitions == 0 {
                WriteAction::Finish { row_count: 0 }
            } else {
                WriteAction::Open { writer: 0 }
            })
        }),
{
}

/// What follows what. Writers are opened one after the other, partitions are read one
/// after the other, each batch of a partition is written before the next one is read, to
/// the writer of the partition or to the only one, and writers are closed one after the
/// other. The rows of each batch are counted once.
pub proof fn law_steps_of_write(state: WriteState, event: WriteEvent)
    requires
        state.wf(),
        state.admits(event),
    ensures
        ({
            let next = state.after(event);
            &&& next.num_partitions == state.num_partitions
            &&& next.per_thread_output == state.per_thread_output
            &&& next.row_count == state.row_count + (match event {
                WriteEvent::Batch { num_rows } => num_rows as int,
                _ => 0int,
            })
            &&& match (state.spec_action(), event) {
                (WriteAction::Open { writer }, WriteEvent::Opened) => next.spec_action() == (
                if state.per_thread_output && writer + 1 < state.num_partitions {
                    WriteAction::Open { writer: (writer + 1) as usize }
                } else if state.num_partitions > 0 {
                    WriteAction::Read { partition: 0 }
                } else {
                    WriteAction::Close { writer: 0 }
                }),
                (WriteAction::Read { partition }, WriteEvent::Batch { .. }) => {
                    &&& next.phase == (WritePhase::Writing { partition })
                    &&& next.spec_action() == (WriteAction::Write {
                        writer: if state.per_thread_output {
                            partition
                        } else {
                            0
                        },
                    })
                },
                (WriteAction::Read { partition }, WriteEvent::End) => next.spec_action() == (
                if partition + 1 < state.num_partitions {
                    WriteAction::Read { partition: (partition + 1) as usize }
                } else {
                    WriteAction::Close { writer: 0 }
                }),
                (WriteAction::Write { writer }, WriteEvent::Written) => {
                    &&& state.phase matches WritePhase::Writing { partition }
                    &&& next.spec_action() == (WriteAction::Read { partition })
                    &&& state.per_thread_output ==> partition == writer
                },
                (WriteAction::Close { writer }, WriteEvent::Closed) => next.spec_action() == (
                if state.per_thread_output && writer + 1 < state.num_partitions {
                    WriteAction::Close { writer: (writer + 1) as usize }
                } else {
                    WriteAction::Finish { row_count: state.row_count as u64 }
                }),
                _ => false,
            }
        }),
{
}

/// What is admitted: what was asked for, and as many rows as can be counted.
pub proof fn law_admitted_events(state: WriteState, event: WriteEvent)
    ensures
        state.admits(event) <==> match (state.spec_action(), event) {
            (WriteAction::Open { .. }, WriteEvent::Opened) => true,
            (WriteAction::Read { .. }, WriteEvent::Batch { num_rows }) => state.row_count
                + num_rows <= usize::MAX,
            (WriteAction::Read { .. }, WriteEvent::End) => true,
            (WriteAction::Write { .. }, WriteEvent::Written) => true,
            (WriteAction::Close { .. }, WriteEvent::Closed) => true,
            _ => false,
        },
{
}

} // verus!
