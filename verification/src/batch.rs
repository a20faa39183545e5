//! The course of a load: which line is read into which slot, when a batch is
//! full, and what becomes of the outcomes of its lines.
//!
//! A `Loader` decides and its caller acts. The caller asks `next_step`, reads
//! a line or works through a batch as told, and hands back what came of it.

use vstd::prelude::*;
use crate::load::{outcome, Failure, LoadError};
use crate::PtsPoint;

verus! {

/// The most that is read ahead, in bytes.
pub const BUFFER_LIMIT: usize = 8388608;

/// The length of a line that the number of slots is reckoned with, in bytes.
pub const LINE_ESTIMATE: usize = 15;

/// Progress is published once for this many lines.
pub const REPORT_INTERVAL: usize = 500000;

pub open spec fn capacity_for(file_len: u64) -> usize {
    if file_len < BUFFER_LIMIT as u64 {
        file_len as usize
    } else {
        BUFFER_LIMIT
    }
}

/// The size of the read-ahead buffer for a document of `file_len` bytes: the
/// document's length, but no more than `BUFFER_LIMIT`.
pub fn buffer_capacity(file_len: u64) -> (r: usize)
    ensures
        r == capacity_for(file_len),
{
    if file_len < BUFFER_LIMIT as u64 {
        file_len as usize
    } else {
        BUFFER_LIMIT
    }
}

pub open spec fn slots_for(capacity: usize) -> usize {
    if capacity < LINE_ESTIMATE {
        1
    } else {
        capacity / LINE_ESTIMATE
    }
}

/// The number of line slots that go with a buffer of `capacity` bytes: one
/// for each `LINE_ESTIMATE` bytes, and one at the least.
pub fn pool_size(capacity: usize) -> (r: usize)
    ensures
        r == slots_for(capacity),
        r >= 1,
{
    if capacity < LINE_ESTIMATE {
        1
    } else {
        capacity / LINE_ESTIMATE
    }
}

/// Whether progress is published for the line that is attempted after
/// `attempted` others: for the first, and then for every one that follows
/// `REPORT_INTERVAL` more.
pub fn report_due(attempted: usize) -> (r: bool)
    ensures
        r == (attempted % REPORT_INTERVAL == 0),
{
    attempted % REPORT_INTERVAL == 0
}

/// The outcomes of a batch, each failure taken by its view.
pub open spec fn outcomes(results: Seq<Result<PtsPoint, LoadError>>) -> Seq<
    Result<PtsPoint, Failure>,
> {
    Seq::new(results.len(), |i: int| outcome(results[i]))
}

/// The position of the first failure at or after `from`.
pub open spec fn first_failure_from(results: Seq<Result<PtsPoint, Failure>>, from: int) -> Option<
    int,
>
    decreases results.len() - from,
{
    if from >= results.len() {
        None
    } else if results[from] is Err {
        Some(from)
    } else {
        first_failure_from(results, from + 1)
    }
}

/// The position of the failure that comes first in the order of the lines.
pub open spec fn first_failure(results: Seq<Result<PtsPoint, Failure>>) -> Option<int> {
    first_failure_from(results, 0)
}

/// The records of a batch without failure, in the order of the lines.
pub open spec fn records(results: Seq<Result<PtsPoint, Failure>>) -> Seq<PtsPoint> {
    Seq::new(results.len(), |i: int| results[i]->Ok_0)
}

/// The first failure is a failure, and no line before it failed; where there
/// is none, no line failed.
pub proof fn lemma_first_failure(results: Seq<Result<PtsPoint, Failure>>, from: int)
    requires
        0 <= from,
    ensures
        match first_failure_from(results, from) {
            Some(f) => from <= f < results.len() && results[f] is Err && forall|j: int|
                from <= j < f ==> results[j] is Ok,
            None => forall|j: int| from <= j < results.len() ==> results[j] is Ok,
        },
    decreases results.len() - from,
{
    if from < results.len() && results[from] is Ok {
        lemma_first_failure(results, from + 1);
    }
}

/// Finds the failure that comes first in the order of the lines.
pub fn find_first_failure(results: &Vec<Result<PtsPoint, LoadError>>) -> (r: Option<usize>)
    ensures
        match r {
            Some(f) => first_failure(outcomes(results@)) == Some(f as int),
            None => first_failure(outcomes(results@)) is None,
        },
{
    let ghost o = outcomes(results@);
    let mut i: usize = 0;
    while i < results.len()
        invariant
            i <= results@.len(),
            o == outcomes(results@),
            first_failure_from(o, i as int) == first_failure(o),
        decreases results@.len() - i,
    {
        if results[i].is_err() {
            return Some(i);
        }
        i = i + 1;
    }
    None
}

/// The number of a line in its document, where the line that declares the
/// count is line 1, `before` records were gathered from the lines after it,
/// and the line stands in slot `slot` of the batch that follows them. A number
/// too large for the machine is given as the largest there is.
pub open spec fn line_number_of(before: nat, slot: nat) -> usize {
    if before + slot + 2 <= usize::MAX {
        (before + slot + 2) as usize
    } else {
        usize::MAX
    }
}

/// Where a load stands.
#[derive(Clone, Copy, Debug, PartialEq, Eq)]
pub enum Phase {
    /// Lines are being read into the slots of a batch.
    Drain,
    /// A batch is closed and its lines are being worked through.
    Parse,
    /// The load is over and has its records.
    Done,
    /// The load is over and has failed.
    Failed,
}

/// What the caller of a `Loader` does next.
#[derive(Clone, Copy, Debug, PartialEq, Eq)]
pub enum Step {
    /// Empty slot `slot`, read the next line into it, and hand the number of
    /// bytes read to `line_read`: zero where the input has ended.
    ReadLine { slot: usize },
    /// Make a record of each of the first `filled` slots and hand the
    /// outcomes, in the order of the slots, to `batch_parsed`.
    ParseBatch { filled: usize },
    /// Take the result with `finish`.
    Finish,
}

/// A `Loader` as contracts see it.
pub struct LoaderView {
    /// The record count that the first line declares.
    pub declared: usize,
    /// The size of the read-ahead buffer, in bytes.
    pub capacity: usize,
    /// The number of line slots.
    pub slots: usize,
    pub phase: Phase,
    /// The number of slots filled in the batch at hand.
    pub filled: usize,
    /// The bytes that the batch at hand may still take.
    pub room: usize,
    /// Whether the input has ended.
    pub ended: bool,
    /// The records of the batches worked through, in the order of the lines.
    pub points: Seq<PtsPoint>,
    pub failure: Option<Failure>,
}

impl LoaderView {
    /// The state before anything is read.
    pub open spec fn start(declared: usize, capacity: usize) -> LoaderView {
        LoaderView {
            declared,
            capacity,
            slots: slots_for(capacity),
            phase: if declared == 0 {
                Phase::Done
            } else {
                Phase::Drain
            },
            filled: 0,
            room: capacity,
            ended: false,
            points: Seq::empty(),
            failure: None,
        }
    }

    pub open spec fn wf(self) -> bool {
        &&& self.slots == slots_for(self.capacity)
        &&& self.filled <= self.slots
        &&& self.room <= self.capacity
        &&& self.phase == Phase::Drain ==> self.filled < self.slots && !self.ended
            && self.points.len() < self.declared
        &&& self.phase == Phase::Parse ==> self.points.len() < self.declared && (self.ended
            || self.filled >= 1)
        &&& self.phase == Phase::Done ==> self.points.len() >= self.declared
        &&& self.phase == Phase::Failed ==> self.points.len() == 0
        &&& self.phase == Phase::Failed <==> self.failure is Some
    }

    /// What is to be done in this state.
    pub open spec fn step(self) -> Step {
        match self.phase {
            Phase::Drain => Step::ReadLine { slot: self.filled },
            Phase::Parse => Step::ParseBatch { filled: self.filled },
            Phase::Done => Step::Finish,
            Phase::Failed => Step::Finish,
        }
    }

    /// The state after a line of `bytes` bytes was read, or, with `bytes`
    /// zero, after the input was found to have ended. A batch is closed by
    /// the end of the input, by the line that fills the last slot, and by the
    /// line that brings the bytes of the batch to the buffer's capacity.
    pub open spec fn after_line(self, bytes: usize) -> LoaderView {
        if bytes == 0 {
            LoaderView { phase: Phase::Parse, ended: true, ..self }
        } else if bytes >= self.room || self.filled + 1 == self.slots {
            LoaderView { phase: Phase::Parse, filled: (self.filled + 1) as usize, room: 0, ..self }
        } else {
            LoaderView {
                filled: (self.filled + 1) as usize,
                room: (self.room - bytes) as usize,
                ..self
            }
        }
    }

    /// The state after the lines of a batch gave `results`. A failure ends
    /// the load, and of several the first in the order of the lines is kept;
    /// the records gathered before are given up. Without one the records of
    /// the batch follow those gathered before, and the load goes on unless
    /// the declared count is reached or the input has ended.
    pub open spec fn after_batch(self, results: Seq<Result<PtsPoint, Failure>>) -> LoaderView {
        match first_failure(results) {
            Some(f) => LoaderView {
                phase: Phase::Failed,
                points: Seq::empty(),
                failure: Some(results[f]->Err_0),
                ..self
            },
            None => {
                let points = self.points + records(results);
                if points.len() >= self.declared {
                    LoaderView { phase: Phase::Done, points, ..self }
                } else if self.ended {
                    LoaderView {
                        phase: Phase::Failed,
                        points: Seq::empty(),
                        failure: Some(
                            Failure::Truncated {
                                declared: self.declared,
                                found: points.len() as usize,
                            },
                        ),
                        ..self
                    }
                } else {
                    LoaderView {
                        phase: Phase::Drain,
                        filled: 0,
                        room: self.capacity,
                        points,
                        ..self
                    }
                }
            },
        }
    }

    /// What the load has come to, once it is over.
    pub open spec fn result(self) -> Result<Seq<PtsPoint>, Failure> {
        match self.failure {
            Some(e) => Err(e),
            None => Ok(self.points),
        }
    }
}

/// The state of one load.
pub struct Loader {
    declared: usize,
    capacity: usize,
    slots: usize,
    phase: Phase,
    filled: usize,
    room: usize,
    ended: bool,
    points: Vec<PtsPoint>,
    failure: Option<LoadError>,
}

impl Loader {
    pub closed spec fn view(&self) -> LoaderView {
        LoaderView {
            declared: self.declared,
            capacity: self.capacity,
            slots: self.slots,
            phase: self.phase,
            filled: self.filled,
            room: self.room,
            ended: self.ended,
            points: self.points@,
            failure: match self.failure {
                Some(e) => Some(e@),
                None => None,
            },
        }
    }

    /// Starts a load of `declared` records that reads ahead `capacity` bytes.
    /// The room for the declared count of records is set aside at once, as
    /// far as memory allows.
    pub fn new(declared: usize, capacity: usize) -> (r: Loader)
        ensures
            r@ == LoaderView::start(declared, capacity),
            r@.wf(),
    {
        let mut points: Vec<PtsPoint> = Vec::new();
        match points.try_reserve(declared) {
            Ok(_) => {},
            Err(_) => {},
        }
        Loader {
            declared,
            capacity,
            slots: pool_size(capacity),
            phase: if declared == 0 {
                Phase::Done
            } else {
                Phase::Drain
            },
            filled: 0,
            room: capacity,
            ended: false,
            points,
            failure: None,
        }
    }

    /// The number of line slots that the caller keeps.
    pub fn slots(&self) -> (r: usize)
        ensures
            r == self@.slots,
    {
        self.slots
    }

    /// The number of records gathered so far.
    pub fn gathered(&self) -> (r: usize)
        ensures
            r == self@.points.len(),
    {
        self.points.len()
    }

    /// The number in the document of the line in slot `slot` of the batch at
    /// hand.
    pub fn line_number(&self, slot: usize) -> (r: usize)
        ensures
            r == line_number_of(self@.points.len(), slot as nat),
    {
        let before = self.points.len();
        if slot <= usize::MAX - 2 && before <= usize::MAX - 2 - slot {
            before + slot + 2
        } else {
            usize::MAX
        }
    }

    /// Whether the load is over.
    pub fn is_over(&self) -> (r: bool)
        ensures
            r == (self@.step() == Step::Finish),
    {
        match self.phase {
            Phase::Drain => false,
            Phase::Parse => false,
            Phase::Done => true,
            Phase::Failed => true,
        }
    }

    pub fn next_step(&self) -> (r: Step)
        ensures
            r == self@.step(),
    {
        match self.phase {
            Phase::Drain => Step::ReadLine { slot: self.filled },
            Phase::Parse => Step::ParseBatch { filled: self.filled },
            Phase::Done => Step::Finish,
            Phase::Failed => Step::Finish,
        }
    }

    /// Takes note of a line of `bytes` bytes read into the slot that
    /// `next_step` named, or, with `bytes` zero, of the end of the input.
    pub fn line_read(&mut self, bytes: usize)
        requires
            old(self)@.wf(),
            old(self)@.phase == Phase::Drain,
        ensures
            final(self)@ == old(self)@.after_line(bytes),
            final(self)@.wf(),
    {
        if bytes == 0 {
            self.ended = true;
            self.phase = Phase::Parse;
        } else {
            self.filled = self.filled + 1;
            if bytes >= self.room || self.filled == self.slots {
                self.room = 0;
                self.phase = Phase::Parse;
            } else {
                self.room = self.room - bytes;
            }
        }
    }

    /// Takes the outcomes of the lines of the batch, in the order of the
    /// slots they stood in.
    pub fn batch_parsed(&mut self, results: Vec<Result<PtsPoint, LoadError>>)
        requires
            old(self)@.wf(),
            old(self)@.phase == Phase::Parse,
            results@.len() == old(self)@.filled,
        ensures
            final(self)@ == old(self)@.after_batch(outcomes(results@)),
            final(self)@.wf(),
    {
        let mut results = results;
        let ghost given = outcomes(results@);
        let ghost before = self.points@;
        match find_first_failure(&results) {
            Some(f) => {
                proof {
                    lemma_first_failure(given, 0);
                }
                match results.remove(f) {
                    Err(e) => {
                        self.failure = Some(e);
                    },
                    Ok(_) => {},
                }
                self.points.clear();
                self.phase = Phase::Failed;
            },
            None => {
                proof {
                    lemma_first_failure(given, 0);
                }
                let mut i: usize = 0;
                while i < results.len()
                    invariant
                        i <= results@.len(),
                        given == outcomes(results@),
                        forall|j: int| 0 <= j < given.len() ==> given[j] is Ok,
                        self.points@ == before + records(given).subrange(0, i as int),
                        self.declared == old(self).declared,
                        self.capacity == old(self).capacity,
                        self.slots == old(self).slots,
                        self.phase == old(self).phase,
                        self.filled == old(self).filled,
                        self.room == old(self).room,
                        self.ended == old(self).ended,
                        self.failure == old(self).failure,
                    decreases results@.len() - i,
                {
                    match &results[i] {
                        Ok(p) => {
                            assert(given[i as int] == Ok::<PtsPoint, Failure>(*p));
                            self.points.push(*p);
                        },
                        Err(_) => {
                            assert(given[i as int] is Err);
                        },
                    }
                    assert(records(given).subrange(0, i + 1) =~= records(given).subrange(
                        0,
                        i as int,
                    ).push(records(given)[i as int]));
                    i = i + 1;
                }
                assert(records(given).subrange(0, i as int) =~= records(given));
                if self.points.len() >= self.declared {
                    self.phase = Phase::Done;
                } else if self.ended {
                    self.failure = Some(
                        LoadError::Truncated { declared: self.declared, found: self.points.len() },
                    );
                    self.points.clear();
                    self.phase = Phase::Failed;
                } else {
                    self.phase = Phase::Drain;
                    self.filled = 0;
                    self.room = self.capacity;
                }
            },
        }
    }

    /// Ends the load: its records in the order of their lines, or its
    /// failure and no record.
    pub fn finish(self) -> (r: Result<Vec<PtsPoint>, LoadError>)
        requires
            self@.wf(),
            self@.step() == Step::Finish,
        ensures
            loaded(r) == self@.result(),
    {
        match self.failure {
            Some(e) => Err(e),
            None => Ok(self.points),
        }
    }
}

/// A failure that is the first of its batch, after lines without failure, is
/// the first of all.
pub proof fn lemma_first_failure_is(results: Seq<Result<PtsPoint, Failure>>, from: int, f: int)
    requires
        0 <= from <= f < results.len(),
        results[f] is Err,
        forall|j: int| from <= j < f ==> results[j] is Ok,
    ensures
        first_failure_from(results, from) == Some(f),
    decreases f - from,
{
    if from < f {
        lemma_first_failure_is(results, from + 1, f);
    }
}

/// What a load comes to that has taken the lines with the outcomes `taken`
/// and no others: the first failure among them; without one, their records,
/// or a failure where they are fewer than the `declared` count.
pub open spec fn load_result(declared: usize, taken: Seq<Result<PtsPoint, Failure>>) -> Result<
    Seq<PtsPoint>,
    Failure,
> {
    match first_failure(taken) {
        Some(f) => Err(taken[f]->Err_0),
        None => if taken.len() < declared {
            Err(Failure::Truncated { declared, found: taken.len() as usize })
        } else {
            Ok(records(taken))
        },
    }
}

/// The position after the last line of a batch, seen from the line at `from`
/// when `filled` slots of the batch are taken and `room` bytes are left to
/// it. `sizes` holds the length of each line in bytes.
pub open spec fn batch_end(slots: usize, sizes: Seq<usize>, from: int, filled: int, room: int) -> int
    decreases sizes.len() - from,
{
    if from >= sizes.len() {
        from
    } else if sizes[from] >= room || filled + 1 == slots {
        from + 1
    } else {
        batch_end(slots, sizes, from + 1, filled + 1, room - sizes[from])
    }
}

/// The number of lines that a load of `declared` records takes when it has
/// taken `from` and starts a batch: whole batches until the declared count is
/// reached or the lines are at an end.
pub open spec fn lines_taken(declared: usize, capacity: usize, sizes: Seq<usize>, from: int) -> int
    decreases sizes.len() - from,
{
    let end = batch_end(slots_for(capacity), sizes, from, 0, capacity as int);
    if from >= declared || !(from < end <= sizes.len()) {
        from
    } else {
        lines_taken(declared, capacity, sizes, end)
    }
}

/// A batch takes at least one line where one is left, and none past the end.
pub proof fn lemma_batch_end_bounds(slots: usize, sizes: Seq<usize>, from: int, filled: int, room: int)
    requires
        0 <= from <= sizes.len(),
    ensures
        from <= batch_end(slots, sizes, from, filled, room) <= sizes.len(),
        from < sizes.len() ==> from < batch_end(slots, sizes, from, filled, room),
    decreases sizes.len() - from,
{
    if from < sizes.len() && !(sizes[from] >= room || filled + 1 == slots) {
        lemma_batch_end_bounds(slots, sizes, from + 1, filled + 1, room - sizes[from]);
    }
}

/// A load stops at the end of the lines or once the declared count is
/// reached, and takes no line back.
pub proof fn lemma_lines_taken_bounds(declared: usize, capacity: usize, sizes: Seq<usize>, from: int)
    requires
        0 <= from <= sizes.len(),
    ensures
        from <= lines_taken(declared, capacity, sizes, from) <= sizes.len(),
        lines_taken(declared, capacity, sizes, from) == sizes.len() || lines_taken(
            declared,
            capacity,
            sizes,
            from,
        ) >= declared,
    decreases sizes.len() - from,
{
    let end = batch_end(slots_for(capacity), sizes, from, 0, capacity as int);
    lemma_batch_end_bounds(slots_for(capacity), sizes, from, 0, capacity as int);
    if from < declared && from < end {
        lemma_lines_taken_bounds(declared, capacity, sizes, end);
    }
}

/// Where the lines are as many as declared and none fails, the load gives
/// the record of every line, in the order of the lines.
pub proof fn lemma_complete_load(
    declared: usize,
    capacity: usize,
    sizes: Seq<usize>,
    all: Seq<Result<PtsPoint, Failure>>,
)
    requires
        sizes.len() == all.len(),
        all.len() == declared,
        first_failure(all) is None,
    ensures
        load_result(declared, all.subrange(0, lines_taken(declared, capacity, sizes, 0)))
            == Ok::<Seq<PtsPoint>, Failure>(records(all)),
        records(all).len() == declared,
{
    lemma_lines_taken_bounds(declared, capacity, sizes, 0);
    assert(all.subrange(0, all.len() as int) =~= all);
}

/// Where one of the declared lines fails, the load fails with the first
/// failure in the order of the lines and gives no record, whatever the lines
/// before it held.
pub proof fn lemma_failed_load(
    declared: usize,
    capacity: usize,
    sizes: Seq<usize>,
    all: Seq<Result<PtsPoint, Failure>>,
)
    requires
        sizes.len() == all.len(),
        first_failure(all) is Some,
        first_failure(all)->0 < declared,
    ensures
        load_result(declared, all.subrange(0, lines_taken(declared, capacity, sizes, 0)))
            == Err::<Seq<PtsPoint>, Failure>(all[first_failure(all)->0]->Err_0),
{
    let taken = lines_taken(declared, capacity, sizes, 0);
    let f = first_failure(all)->0;
    lemma_lines_taken_bounds(declared, capacity, sizes, 0);
    lemma_first_failure(all, 0);
    lemma_first_failure_is(all.subrange(0, taken), 0, f);
}

/// Where the lines are fewer than declared and none fails, the load fails
/// for want of lines.
pub proof fn lemma_truncated_load(
    declared: usize,
    capacity: usize,
    sizes: Seq<usize>,
    all: Seq<Result<PtsPoint, Failure>>,
)
    requires
        sizes.len() == all.len(),
        all.len() < declared,
        first_failure(all) is None,
    ensures
        load_result(declared, all.subrange(0, lines_taken(declared, capacity, sizes, 0)))
            == Err::<Seq<PtsPoint>, Failure>(
            Failure::Truncated { declared, found: all.len() as usize },
        ),
{
    lemma_lines_taken_bounds(declared, capacity, sizes, 0);
    assert(all.subrange(0, all.len() as int) =~= all);
}

/// The result of a load, its records or its failure taken by their views.
pub open spec fn loaded(r: Result<Vec<PtsPoint>, LoadError>) -> Result<Seq<PtsPoint>, Failure> {
    match r {
        Ok(v) => Ok(v@),
        Err(e) => Err(e@),
    }
}

fn duplicate_outcome(r: &Result<PtsPoint, LoadError>) -> (d: Result<PtsPoint, LoadError>)
    ensures
        outcome(d) == outcome(*r),
{
    match r {
        Ok(p) => Ok(*p),
        Err(e) => Err(e.duplicate()),
    }
}

/// Runs a load over lines that are held in memory: line `i` of the records
/// takes `sizes[i]` bytes, terminator included, and reading it gave
/// `results[i]`. The lines go through the same batches as lines that are read
/// one by one.
pub fn load_outcomes(
    declared: usize,
    capacity: usize,
    sizes: &Vec<usize>,
    results: &Vec<Result<PtsPoint, LoadError>>,
) -> (r: Result<Vec<PtsPoint>, LoadError>)
    requires
        sizes@.len() == results@.len(),
        forall|i: int| 0 <= i < sizes@.len() ==> sizes@[i] > 0,
    ensures
        loaded(r) == load_result(
            declared,
            outcomes(results@).subrange(0, lines_taken(declared, capacity, sizes@, 0)),
        ),
{
    let ghost all = outcomes(results@);
    let ghost total = lines_taken(declared, capacity, sizes@, 0);
    let ghost slots = slots_for(capacity);
    let n = results.len();
    let mut loader = Loader::new(declared, capacity);
    let mut cursor: usize = 0;
    proof {
        assert(records(all).subrange(0, 0) =~= Seq::<PtsPoint>::empty());
        lemma_lines_taken_bounds(declared, capacity, sizes@, 0);
    }
    while !loader.is_over()
        invariant
            all == outcomes(results@),
            total == lines_taken(declared, capacity, sizes@, 0),
            slots == slots_for(capacity),
            n == results@.len(),
            sizes@.len() == results@.len(),
            forall|i: int| 0 <= i < sizes@.len() ==> sizes@[i] > 0,
            0 <= total <= n,
            loader@.wf(),
            loader@.declared == declared,
            loader@.capacity == capacity,
            loader@.phase != Phase::Failed ==> loader@.points.len() <= n && loader@.points
                == records(all).subrange(0, loader@.points.len() as int) && forall|j: int|
                0 <= j < loader@.points.len() ==> all[j] is Ok,
            loader@.phase == Phase::Drain || loader@.phase == Phase::Parse ==> cursor
                == loader@.points.len() + loader@.filled && cursor <= n && (loader@.ended
                ==> cursor == n) && lines_taken(
                declared,
                capacity,
                sizes@,
                loader@.points.len() as int,
            ) == total,
            loader@.phase == Phase::Drain ==> batch_end(
                slots,
                sizes@,
                cursor as int,
                loader@.filled as int,
                loader@.room as int,
            ) == batch_end(slots, sizes@, loader@.points.len() as int, 0, capacity as int),
            loader@.phase == Phase::Parse ==> cursor == batch_end(
                slots,
                sizes@,
                loader@.points.len() as int,
                0,
                capacity as int,
            ),
            loader@.phase == Phase::Done ==> loader@.points.len() == total,
            loader@.phase == Phase::Failed ==> loader@.failure == Some(
                load_result(declared, all.subrange(0, total))->Err_0,
            ) && load_result(declared, all.subrange(0, total)) is Err,
        decreases
                (n - cursor) + (if loader@.ended {
                    0int
                } else {
                    1int
                }),
                (if loader@.phase == Phase::Parse {
                    1int
                } else {
                    0int
                }),
    {
        match loader.next_step() {
            Step::ReadLine { slot } => {
                if cursor < n {
                    loader.line_read(sizes[cursor]);
                    cursor = cursor + 1;
                } else {
                    loader.line_read(0);
                }
            },
            Step::ParseBatch { filled } => {
                let base: usize = cursor - filled;
                let mut batch: Vec<Result<PtsPoint, LoadError>> = Vec::with_capacity(filled);
                let mut j: usize = 0;
                while j < filled
                    invariant
                        j <= filled,
                        base + filled == cursor,
                        cursor <= n,
                        n == results@.len(),
                        all == outcomes(results@),
                        batch@.len() == j,
                        forall|k: int| 0 <= k < j ==> outcome(#[trigger] batch@[k]) == all[base + k],
                    decreases filled - j,
                {
                    batch.push(duplicate_outcome(&results[base + j]));
                    j = j + 1;
                }
                let ghost part = outcomes(batch@);
                proof {
                    assert(part =~= all.subrange(base as int, cursor as int));
                    assert(base == loader@.points.len());
                    lemma_first_failure(part, 0);
                    lemma_batch_end_bounds(slots, sizes@, base as int, 0, capacity as int);
                    lemma_lines_taken_bounds(declared, capacity, sizes@, cursor as int);
                    match first_failure(part) {
                        Some(f) => {
                            assert forall|j: int| 0 <= j < base + f implies all[j] is Ok by {
                                if j >= base {
                                    assert(part[j - base] is Ok);
                                }
                            }
                            assert(all[base + f] == part[f]);
                            lemma_first_failure_is(all.subrange(0, total), 0, base + f);
                        },
                        None => {
                            assert forall|j: int| 0 <= j < cursor implies all[j] is Ok by {
                                if j >= base {
                                    assert(part[j - base] is Ok);
                                }
                            }
                            assert(loader@.points + records(part) =~= records(all).subrange(
                                0,
                                cursor as int,
                            ));
                            if cursor < declared && loader@.ended {
                                let whole = all.subrange(0, total);
                                lemma_first_failure(whole, 0);
                            }
                        },
                    }
                }
                loader.batch_parsed(batch);
            },
            Step::Finish => {},
        }
    }
    let ghost end = loader@;
    let r = loader.finish();
    proof {
        if end.phase != Phase::Failed {
            let part = all.subrange(0, total);
            lemma_first_failure(part, 0);
            assert(records(part) =~= end.points);
        }
    }
    r
}

} // verus!
