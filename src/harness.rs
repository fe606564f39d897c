//! The timing tally of a benchmark run, as a state machine.
//!
//! The caller walks the image directory and runs the engine; the machine
//! decides, for each event the caller reports, what the caller does next.

use vstd::prelude::*;

verus! {

/// What the caller observed.
#[derive(Debug, Clone, Copy, PartialEq, Eq)]
pub enum Event {
    /// The directory listing produced an entry; `is_file` tells whether it is
    /// a regular file.
    Entry { is_file: bool },
    /// The engine finished on the current image after `elapsed_nanos`
    /// nanoseconds of wall-clock time.
    Inferred { elapsed_nanos: u64 },
    /// The directory listing has no more entries.
    Exhausted,
}

/// The aggregate line printed at the end of a run.
#[derive(Debug, Clone, Copy, PartialEq, Eq)]
pub enum Summary {
    /// No image was processed, so there is no mean to report.
    NoImages,
    /// `count` images were processed; `mean_nanos` is their total inference
    /// time divided by `count`, rounded down.
    Average { count: u64, mean_nanos: u64 },
}

/// What the caller does next.
#[derive(Debug, Clone, Copy, PartialEq, Eq)]
pub enum Action {
    /// Preprocess the current entry, time one inference on it, and report
    /// `Event::Inferred`.
    Infer,
    /// Move on to the next directory entry.
    Next,
    /// Print the summary; the run is over.
    Report(Summary),
}

/// Sum of a sequence of durations.
pub open spec fn total(times: Seq<nat>) -> nat
    decreases times.len(),
{
    if times.len() == 0 {
        0
    } else {
        total(times.drop_last()) + times.last()
    }
}

/// The summary of a run whose processed images took `times`.
pub open spec fn summary_of(times: Seq<nat>) -> Summary {
    if times.len() == 0 {
        Summary::NoImages
    } else {
        Summary::Average {
            count: times.len() as u64,
            mean_nanos: (total(times) / times.len()) as u64,
        }
    }
}

/// One transition: from the durations recorded so far and an event, the
/// durations afterwards and the action.
pub open spec fn step_spec(times: Seq<nat>, event: Event) -> (Seq<nat>, Action) {
    match event {
        Event::Entry { is_file } => (times, if is_file { Action::Infer } else { Action::Next }),
        Event::Inferred { elapsed_nanos } => (times.push(elapsed_nanos as nat), Action::Next),
        Event::Exhausted => (times, Action::Report(summary_of(times))),
    }
}

/// The events that the caller reports for one directory entry: its kind
/// and, for a regular file, the engine's time `entry.1` on it.
pub open spec fn entry_events(entry: (bool, u64)) -> Seq<Event> {
    if entry.0 {
        seq![Event::Entry { is_file: true }, Event::Inferred { elapsed_nanos: entry.1 }]
    } else {
        seq![Event::Entry { is_file: false }]
    }
}

/// The events of a whole run over a directory listing `entries`, ending with
/// the end of the listing.
pub open spec fn run_events(entries: Seq<(bool, u64)>) -> Seq<Event> {
    listing_events(entries).push(Event::Exhausted)
}

/// The events of the entries of `entries`, in order.
pub open spec fn listing_events(entries: Seq<(bool, u64)>) -> Seq<Event>
    decreases entries.len(),
{
    if entries.len() == 0 {
        Seq::empty()
    } else {
        listing_events(entries.drop_last()) + entry_events(entries.last())
    }
}

/// Feeds `events` to the machine in order, starting from the durations
/// `times`: the durations at the end and the actions taken.
pub open spec fn replay(times: Seq<nat>, events: Seq<Event>) -> (Seq<nat>, Seq<Action>)
    decreases events.len(),
{
    if events.len() == 0 {
        (times, Seq::empty())
    } else {
        let prev = replay(times, events.drop_last());
        let next = step_spec(prev.0, events.last());
        (next.0, prev.1.push(next.1))
    }
}

/// The engine's times on the regular files of `entries`, in listing order.
pub open spec fn file_times(entries: Seq<(bool, u64)>) -> Seq<nat>
    decreases entries.len(),
{
    if entries.len() == 0 {
        Seq::empty()
    } else {
        let prev = file_times(entries.drop_last());
        if entries.last().0 {
            prev.push(entries.last().1 as nat)
        } else {
            prev
        }
    }
}

/// How many of `actions` are inference calls.
pub open spec fn infer_count(actions: Seq<Action>) -> nat
    decreases actions.len(),
{
    if actions.len() == 0 {
        0
    } else {
        infer_count(actions.drop_last()) + if actions.last() == Action::Infer {
            1nat
        } else {
            0nat
        }
    }
}

proof fn lemma_infer_count_append(a: Seq<Action>, b: Seq<Action>)
    ensures
        infer_count(a + b) == infer_count(a) + infer_count(b),
    decreases b.len(),
{
    if b.len() > 0 {
        assert((a + b).drop_last() =~= a + b.drop_last());
        lemma_infer_count_append(a, b.drop_last());
    } else {
        assert(a + b =~= a);
    }
}

proof fn lemma_replay_append(times: Seq<nat>, a: Seq<Event>, b: Seq<Event>)
    ensures
        replay(times, a + b) == ({
            let first = replay(times, a);
            let second = replay(first.0, b);
            (second.0, first.1 + second.1)
        }),
    decreases b.len(),
{
    let first = replay(times, a);
    if b.len() == 0 {
        assert(a + b =~= a);
        assert(first.1 + Seq::<Action>::empty() =~= first.1);
    } else {
        assert((a + b).drop_last() =~= a + b.drop_last());
        lemma_replay_append(times, a, b.drop_last());
        let second = replay(first.0, b.drop_last());
        assert(first.1 + second.1.push(step_spec(second.0, b.last()).1) =~= (first.1
            + second.1).push(step_spec(second.0, b.last()).1));
    }
}

proof fn lemma_replay_listing(entries: Seq<(bool, u64)>)
    ensures
        replay(Seq::empty(), listing_events(entries)).0 == file_times(entries),
        infer_count(replay(Seq::empty(), listing_events(entries)).1) == file_times(entries).len(),
    decreases entries.len(),
{
    if entries.len() > 0 {
        let prefix = entries.drop_last();
        let last = entries.last();
        lemma_replay_listing(prefix);
        lemma_replay_append(Seq::empty(), listing_events(prefix), entry_events(last));
        let first = replay(Seq::empty(), listing_events(prefix));
        let second = replay(first.0, entry_events(last));
        lemma_infer_count_append(first.1, second.1);
        let ev = entry_events(last);
        let entry = Event::Entry { is_file: last.0 };
        assert(seq![entry].drop_last() =~= Seq::<Event>::empty());
        assert(replay(first.0, Seq::<Event>::empty()) == (first.0, Seq::<Action>::empty()));
        assert(Seq::<Action>::empty().push(step_spec(first.0, entry).1) =~= seq![
            step_spec(first.0, entry).1,
        ]);
        assert(replay(first.0, seq![entry]) == (first.0, seq![step_spec(first.0, entry).1]));
        if last.0 {
            assert(ev.drop_last() =~= seq![entry]);
            assert(second.1 =~= seq![Action::Infer, Action::Next]);
            assert(seq![Action::Infer, Action::Next].drop_last() =~= seq![Action::Infer]);
            assert(seq![Action::Infer].drop_last() =~= Seq::<Action>::empty());
        } else {
            assert(ev =~= seq![entry]);
            assert(second.1 =~= seq![Action::Next]);
            assert(seq![Action::Next].drop_last() =~= Seq::<Action>::empty());
        }
        reveal_with_fuel(infer_count, 3);
    }
}

/// A run over a listing records the engine's time on each regular file, in
/// listing order, calls the engine once per regular file, and ends with the
/// summary of those times.
pub proof fn lemma_run(entries: Seq<(bool, u64)>)
    ensures
        replay(Seq::empty(), run_events(entries)).0 == file_times(entries),
        infer_count(replay(Seq::empty(), run_events(entries)).1) == file_times(entries).len(),
        replay(Seq::empty(), run_events(entries)).1.last() == Action::Report(
            summary_of(file_times(entries)),
        ),
{
    lemma_replay_listing(entries);
    let events = run_events(entries);
    assert(events.drop_last() =~= listing_events(entries));
    let actions = replay(Seq::empty(), events).1;
    assert(actions.drop_last() =~= replay(Seq::empty(), listing_events(entries)).1);
}

/// A run over an empty directory calls the engine no time and reports that
/// no image was found.
pub proof fn lemma_empty_directory()
    ensures
        replay(Seq::empty(), run_events(Seq::empty())).1 == seq![Action::Report(Summary::NoImages)],
{
    let events = run_events(Seq::empty());
    assert(listing_events(Seq::empty()) =~= Seq::<Event>::empty());
    assert(events =~= seq![Event::Exhausted]);
    assert(events.drop_last() =~= Seq::<Event>::empty());
    assert(replay(Seq::empty(), Seq::<Event>::empty()) == (Seq::<nat>::empty(), Seq::<Action>::empty()));
    assert(replay(Seq::empty(), events).1 =~= seq![Action::Report(Summary::NoImages)]);
}

/// Number of regular files in a listing.
pub open spec fn file_count(entries: Seq<(bool, u64)>) -> nat
    decreases entries.len(),
{
    if entries.len() == 0 {
        0
    } else {
        file_count(entries.drop_last()) + if entries.last().0 {
            1nat
        } else {
            0nat
        }
    }
}

proof fn lemma_file_times_len(entries: Seq<(bool, u64)>)
    ensures
        file_times(entries).len() == file_count(entries),
        file_count(entries) <= entries.len(),
    decreases entries.len(),
{
    if entries.len() > 0 {
        lemma_file_times_len(entries.drop_last());
    }
}

/// A run over a listing with `N` regular files calls the engine `N` times
/// and reports `N` processed images, whatever the engine's timings; runs over
/// two listings with the same kinds of entries report the same count.
pub proof fn lemma_run_count(entries: Seq<(bool, u64)>, other: Seq<(bool, u64)>)
    requires
        other.len() == entries.len(),
        forall|i: int| 0 <= i < entries.len() ==> #[trigger] other[i].0 == entries[i].0,
    ensures
        infer_count(replay(Seq::empty(), run_events(entries)).1) == file_count(entries),
        replay(Seq::empty(), run_events(entries)).0.len() == file_count(entries),
        file_count(other) == file_count(entries),
    decreases entries.len(),
{
    lemma_run(entries);
    lemma_file_times_len(entries);
    if entries.len() > 0 {
        let (a, b) = (entries.drop_last(), other.drop_last());
        lemma_run_count(a, b);
    }
}

proof fn lemma_file_times_bounded(entries: Seq<(bool, u64)>)
    ensures
        forall|i: int|
            0 <= i < file_times(entries).len() ==> #[trigger] file_times(entries)[i] <= u64::MAX,
    decreases entries.len(),
{
    if entries.len() > 0 {
        let prev = file_times(entries.drop_last());
        lemma_file_times_bounded(entries.drop_last());
        assert forall|i: int| 0 <= i < file_times(entries).len() implies #[trigger] file_times(
            entries,
        )[i] <= u64::MAX by {
            if i < prev.len() {
                assert(prev[i] <= u64::MAX);
            }
        }
    }
}

/// The mean that a run reports is the total of the engine's times on the
/// regular files divided by their number, rounded down to a nanosecond.
pub proof fn lemma_run_mean(entries: Seq<(bool, u64)>)
    requires
        file_count(entries) > 0,
        entries.len() <= u64::MAX,
    ensures
        replay(Seq::empty(), run_events(entries)).1.last() == Action::Report(
            Summary::Average {
                count: file_count(entries) as u64,
                mean_nanos: (total(file_times(entries)) / file_count(entries)) as u64,
            },
        ),
        total(file_times(entries)) / file_count(entries) <= u64::MAX,
{
    lemma_run(entries);
    lemma_file_times_len(entries);
    lemma_file_times_bounded(entries);
    lemma_mean_bound(file_times(entries));
}

proof fn lemma_total_constant(times: Seq<nat>, d: nat)
    requires
        forall|i: int| 0 <= i < times.len() ==> times[i] == d,
    ensures
        total(times) == times.len() * d,
    decreases times.len(),
{
    if times.len() > 0 {
        lemma_total_constant(times.drop_last(), d);
        assert(total(times) == (times.len() - 1) * d + d);
        assert((times.len() - 1) * d + d == times.len() * d) by (nonlinear_arith);
    }
}

proof fn lemma_file_times_constant(entries: Seq<(bool, u64)>, d: u64)
    requires
        forall|i: int| 0 <= i < entries.len() && (#[trigger] entries[i]).0 ==> entries[i].1 == d,
    ensures
        forall|i: int| 0 <= i < file_times(entries).len() ==> #[trigger] file_times(entries)[i] == d,
    decreases entries.len(),
{
    if entries.len() > 0 {
        let prev = file_times(entries.drop_last());
        let last = entries.len() - 1;
        assert(entries.drop_last().len() == last);
        assert forall|i: int|
            0 <= i < entries.drop_last().len() && (#[trigger] entries.drop_last()[i]).0 implies
            entries.drop_last()[i].1 == d by {
            assert(entries.drop_last()[i] == entries[i]);
        }
        lemma_file_times_constant(entries.drop_last(), d);
        assert(entries.last() == entries[last]);
        assert forall|i: int| 0 <= i < file_times(entries).len() implies #[trigger] file_times(
            entries,
        )[i] == d by {
            if i < prev.len() {
                assert(prev[i] == d);
            }
        }
    }
}

/// When the engine takes the same time `d` on every regular file, the mean
/// that the run reports is exactly `d`.
pub proof fn lemma_fixed_duration_mean(entries: Seq<(bool, u64)>, d: u64)
    requires
        file_count(entries) > 0,
        entries.len() <= u64::MAX,
        forall|i: int| 0 <= i < entries.len() && (#[trigger] entries[i]).0 ==> entries[i].1 == d,
    ensures
        replay(Seq::empty(), run_events(entries)).1.last() == Action::Report(
            Summary::Average { count: file_count(entries) as u64, mean_nanos: d },
        ),
{
    lemma_run_mean(entries);
    lemma_file_times_len(entries);
    lemma_file_times_constant(entries, d);
    let times = file_times(entries);
    lemma_total_constant(times, d as nat);
    let n = times.len() as int;
    assert((n * d) / n == d) by (nonlinear_arith)
        requires
            n > 0,
    ;
}

proof fn lemma_file_times_insert_non_file(entries: Seq<(bool, u64)>, i: int, e: u64)
    requires
        0 <= i <= entries.len(),
    ensures
        file_times(entries.insert(i, (false, e))) == file_times(entries),
    decreases entries.len(),
{
    let with = entries.insert(i, (false, e));
    if i == entries.len() {
        assert(with.drop_last() =~= entries);
    } else {
        assert(with.drop_last() =~= entries.drop_last().insert(i, (false, e)));
        lemma_file_times_insert_non_file(entries.drop_last(), i, e);
    }
}

/// An entry that is not a regular file, wherever it stands in the listing,
/// gets no engine call and changes neither the recorded times nor the
/// summary of the run.
pub proof fn lemma_non_file_skipped(entries: Seq<(bool, u64)>, i: int, e: u64)
    requires
        0 <= i <= entries.len(),
    ensures
        step_spec(replay(Seq::empty(), listing_events(entries.take(i))).0, Event::Entry { is_file: false }).1
            == Action::Next,
        replay(Seq::empty(), run_events(entries.insert(i, (false, e)))).0 == replay(
            Seq::empty(),
            run_events(entries),
        ).0,
        infer_count(replay(Seq::empty(), run_events(entries.insert(i, (false, e)))).1)
            == infer_count(replay(Seq::empty(), run_events(entries)).1),
        replay(Seq::empty(), run_events(entries.insert(i, (false, e)))).1.last() == replay(
            Seq::empty(),
            run_events(entries),
        ).1.last(),
{
    lemma_file_times_insert_non_file(entries, i, e);
    lemma_run(entries);
    lemma_run(entries.insert(i, (false, e)));
}

/// The running tally of a benchmark: how many images were timed and how long
/// their inferences took in all.
pub struct Harness {
    count: u64,
    total_nanos: u128,
    times: Ghost<Seq<nat>>,
}

impl View for Harness {
    type V = Seq<nat>;

    /// The inference durations recorded so far, in nanoseconds, in order.
    closed spec fn view(&self) -> Seq<nat> {
        self.times@
    }
}

proof fn lemma_total_bound(times: Seq<nat>)
    requires
        forall|i: int| 0 <= i < times.len() ==> times[i] <= u64::MAX,
    ensures
        total(times) <= times.len() * u64::MAX,
    decreases times.len(),
{
    if times.len() > 0 {
        lemma_total_bound(times.drop_last());
    }
}

proof fn lemma_mean_bound(times: Seq<nat>)
    requires
        times.len() > 0,
        forall|i: int| 0 <= i < times.len() ==> times[i] <= u64::MAX,
    ensures
        total(times) / times.len() <= u64::MAX,
{
    lemma_total_bound(times);
    let n = times.len() as int;
    let t = total(times) as int;
    assert(t / n <= u64::MAX) by (nonlinear_arith)
        requires
            n > 0,
            0 <= t <= n * u64::MAX,
    ;
}

impl Harness {
    /// The tally holds one duration per timed image, each one that an
    /// engine call can report, and their sum.
    pub closed spec fn wf(&self) -> bool {
        &&& self.count == self.times@.len()
        &&& self.total_nanos == total(self.times@)
        &&& forall|i: int| 0 <= i < self.times@.len() ==> self.times@[i] <= u64::MAX
    }

    /// A tally with nothing recorded.
    pub fn new() -> (r: Harness)
        ensures
            r.wf(),
            r@ == Seq::<nat>::empty(),
    {
        Harness { count: 0, total_nanos: 0, times: Ghost(Seq::empty()) }
    }

    /// Number of images timed so far.
    pub fn processed(&self) -> (r: u64)
        requires
            self.wf(),
        ensures
            r == self@.len(),
    {
        self.count
    }

    /// The summary of what was recorded so far.
    pub fn summary(&self) -> (r: Summary)
        requires
            self.wf(),
        ensures
            r == summary_of(self@),
    {
        if self.count == 0 {
            Summary::NoImages
        } else {
            proof {
                lemma_mean_bound(self@);
            }
            let mean = self.total_nanos / (self.count as u128);
            Summary::Average { count: self.count, mean_nanos: mean as u64 }
        }
    }

    /// Takes one event and says what to do next: time an inference for a
    /// regular file, skip any other entry, record a finished inference, and
    /// report the summary once the directory is exhausted.
    pub fn step(&mut self, event: Event) -> (r: Action)
        requires
            old(self).wf(),
            event is Inferred ==> old(self)@.len() < u64::MAX,
        ensures
            final(self).wf(),
            (final(self)@, r) == step_spec(old(self)@, event),
    {
        match event {
            Event::Entry { is_file } => {
                if is_file {
                    Action::Infer
                } else {
                    Action::Next
                }
            },
            Event::Inferred { elapsed_nanos } => {
                proof {
                    lemma_total_bound(self@);
                    assert(self.total_nanos + elapsed_nanos <= (self.count + 1) * u64::MAX)
                        by (nonlinear_arith)
                        requires
                            self.total_nanos <= self.count * u64::MAX,
                            elapsed_nanos <= u64::MAX,
                    ;
                    assert((self.count + 1) * u64::MAX <= u128::MAX) by (nonlinear_arith)
                        requires
                            self.count < u64::MAX,
                    ;
                }
                let ghost before = self.times@;
                self.count = self.count + 1;
                self.total_nanos = self.total_nanos + elapsed_nanos as u128;
                self.times = Ghost(before.push(elapsed_nanos as nat));
                assert(self.times@.drop_last() =~= before);
                Action::Next
            },
            Event::Exhausted => Action::Report(self.summary()),
        }
    }
}

} // verus!
