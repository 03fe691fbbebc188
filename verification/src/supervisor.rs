//! One tailer per configured file, started and stopped together.
//!
//! Each file stands for itself: whether its tailer starts depends on its
//! own pattern alone, and what is told to one tailer leaves the others as
//! they were.
use crate::config::{watches, FileConfig, WatchSpec};
use crate::matcher::{pattern_compiles, InvalidPatternError};
use crate::notify::MatchEvent;
use crate::tailer::{all_from, all_timed, event_lines, Event, FileTailer, Phase, TailState};
use vstd::prelude::*;

verus! {

/// The tailer that a watch starts with: none where its pattern does not
/// compile.
pub open spec fn start_of(watch: WatchSpec) -> Option<TailState> {
    if pattern_compiles(watch.pattern) {
        Some(TailState::initial(watch.path, watch.pattern))
    } else {
        None
    }
}

/// The watch itself where its pattern does not compile.
pub open spec fn refusal_of(watch: WatchSpec) -> Option<WatchSpec> {
    if pattern_compiles(watch.pattern) {
        None
    } else {
        Some(watch)
    }
}

/// The tailers started for a list of watches: one for each watch whose
/// pattern compiles, in the order of the watches.
pub open spec fn started(list: Seq<WatchSpec>) -> Seq<TailState> {
    list.filter_map(|watch: WatchSpec| start_of(watch))
}

/// The watches for which no tailer is started, in order.
pub open spec fn refused(list: Seq<WatchSpec>) -> Seq<WatchSpec> {
    list.filter_map(|watch: WatchSpec| refusal_of(watch))
}

/// A file for which no tailer was started, and why.
pub struct RejectedFile {
    pub filename: String,
    pub error: InvalidPatternError,
}

impl View for RejectedFile {
    type V = WatchSpec;

    open spec fn view(&self) -> WatchSpec {
        WatchSpec { path: self.filename@, pattern: self.error.pattern@ }
    }
}

/// The states of a list of tailers, in order.
pub open spec fn states_of(tailers: Seq<FileTailer>) -> Seq<TailState> {
    tailers.map_values(|tailer: FileTailer| tailer@)
}

/// The watches of a list of rejected files, in order.
pub open spec fn rejections_of(rejected: Seq<RejectedFile>) -> Seq<WatchSpec> {
    rejected.map_values(|file: RejectedFile| file@)
}

/// Holds the tailers of all watched files.
pub struct Supervisor {
    tailers: Vec<FileTailer>,
    rejected: Vec<RejectedFile>,
}

impl Supervisor {
    /// The states of the tailers, in the order of their files.
    pub closed spec fn states(&self) -> Seq<TailState> {
        states_of(self.tailers@)
    }

    /// The watches that were refused, in the order of their files.
    pub closed spec fn rejections(&self) -> Seq<WatchSpec> {
        rejections_of(self.rejected@)
    }

    /// Starts one tailer for each file whose pattern compiles. A file whose
    /// pattern does not compile is set aside with the reason; the others
    /// start all the same.
    pub fn start(files: &Vec<FileConfig>) -> (supervisor: Supervisor)
        ensures
            supervisor.states() == started(watches(files@)),
            supervisor.rejections() == refused(watches(files@)),
    {
        let ghost list = watches(files@);
        let ghost starter = |watch: WatchSpec| start_of(watch);
        let ghost refuser = |watch: WatchSpec| refusal_of(watch);
        let mut tailers: Vec<FileTailer> = Vec::new();
        let mut rejected: Vec<RejectedFile> = Vec::new();
        assert(list.take(0) =~= Seq::<WatchSpec>::empty());
        assert(states_of(tailers@) =~= Seq::<TailState>::empty());
        assert(rejections_of(rejected@) =~= Seq::<WatchSpec>::empty());
        let mut i: usize = 0;
        while i < files.len()
            invariant
                i <= files.len(),
                list == watches(files@),
                starter == (|watch: WatchSpec| start_of(watch)),
                refuser == (|watch: WatchSpec| refusal_of(watch)),
                states_of(tailers@) == list.take(i as int).filter_map(starter),
                rejections_of(rejected@) == list.take(i as int).filter_map(refuser),
            decreases files.len() - i,
        {
            let file: &FileConfig = &files[i];
            proof {
                assert(list[i as int] == file@);
                list.lemma_filter_map_take_succ(starter, i as int);
                list.lemma_filter_map_take_succ(refuser, i as int);
            }
            let ghost tailers_before = states_of(tailers@);
            let ghost rejected_before = rejections_of(rejected@);
            match FileTailer::new(file.filename.as_str(), file.regex.as_str()) {
                Ok(tailer) => {
                    tailers.push(tailer);
                    assert(states_of(tailers@) =~= tailers_before + seq![tailer@]);
                    assert(rejected_before + Seq::<WatchSpec>::empty() =~= rejected_before);
                },
                Err(error) => {
                    let file = RejectedFile { filename: file.filename.clone(), error };
                    rejected.push(file);
                    assert(file@ == list[i as int]);
                    assert(rejections_of(rejected@) =~= rejected_before + seq![file@]);
                    assert(tailers_before + Seq::<TailState>::empty() =~= tailers_before);
                },
            }
            i += 1;
        }
        assert(list.take(i as int) =~= list);
        Supervisor { tailers, rejected }
    }

    /// The number of tailers.
    pub fn len(&self) -> (n: usize)
        ensures
            n == self.states().len(),
    {
        self.tailers.len()
    }

    /// The tailer at `index`, counting the started ones only.
    pub fn tailer(&self, index: usize) -> (tailer: &FileTailer)
        requires
            index < self.states().len(),
        ensures
            tailer@ == self.states()[index as int],
    {
        &self.tailers[index]
    }

    /// The files for which no tailer was started.
    pub fn rejected(&self) -> (rejected: &Vec<RejectedFile>)
        ensures
            rejections_of(rejected@) == self.rejections(),
    {
        &self.rejected
    }

    /// Gives up the tailers and the rejected files, for a caller that runs
    /// each tailer by itself.
    pub fn into_parts(self) -> (parts: (Vec<FileTailer>, Vec<RejectedFile>))
        ensures
            states_of(parts.0@) == self.states(),
            rejections_of(parts.1@) == self.rejections(),
    {
        (self.tailers, self.rejected)
    }

    /// Tells the tailer at `index` what came of its last action. Returns
    /// its events, all of them for its own file and with the time they
    /// were made. The other tailers stay as they were.
    pub fn handle(&mut self, index: usize, event: Event) -> (events: Vec<MatchEvent>)
        requires
            index < old(self).states().len(),
        ensures
            final(self).states() == old(self).states().update(
                index as int,
                old(self).states()[index as int].step(event),
            ),
            final(self).rejections() == old(self).rejections(),
            events@.len() == old(self).states()[index as int].reported(event).len(),
            event_lines(events@) == old(self).states()[index as int].reported(event),
            all_from(events@, old(self).states()[index as int].path),
            all_timed(events@),
    {
        let events = self.tailers[index].handle(event);
        assert(states_of(self.tailers@) =~= states_of(old(self).tailers@).update(
            index as int,
            old(self).tailers@[index as int]@.step(event),
        ));
        events
    }

    /// Stops every tailer.
    pub fn shutdown(&mut self)
        ensures
            final(self).states() == stopped(old(self).states()),
            final(self).rejections() == old(self).rejections(),
    {
        let ghost before = states_of(self.tailers@);
        let mut i: usize = 0;
        while i < self.tailers.len()
            invariant
                i <= self.tailers.len(),
                self.rejected == old(self).rejected,
                before == states_of(old(self).tailers@),
                self.tailers@.len() == before.len(),
                forall|k: int| 0 <= k < i ==> (#[trigger] self.tailers@[k])@ == before[k].step(Event::Shutdown),
                forall|k: int| i <= k < before.len() ==> (#[trigger] self.tailers@[k])@ == before[k],
            decreases self.tailers.len() - i,
        {
            self.tailers[i].handle(Event::Shutdown);
            i += 1;
        }
        assert(states_of(self.tailers@) =~= stopped(before));
    }

    /// Whether every tailer has stopped.
    pub fn all_stopped(&self) -> (done: bool)
        ensures
            done == forall|k: int|
                0 <= k < self.states().len() ==> (#[trigger] self.states()[k]).phase
                    == Phase::Stopped,
    {
        let mut i: usize = 0;
        while i < self.tailers.len()
            invariant
                i <= self.tailers.len(),
                forall|k: int|
                    0 <= k < i ==> (#[trigger] states_of(self.tailers@)[k]).phase == Phase::Stopped,
            decreases self.tailers.len() - i,
        {
            if self.tailers[i].phase() != Phase::Stopped {
                assert(states_of(self.tailers@)[i as int].phase != Phase::Stopped);
                return false;
            }
            i += 1;
        }
        true
    }
}

/// The states after every tailer was told to stop.
pub open spec fn stopped(states: Seq<TailState>) -> Seq<TailState> {
    states.map_values(|state: TailState| state.step(Event::Shutdown))
}

/// After a shutdown every tailer has stopped.
pub proof fn lemma_shutdown_stops_all(states: Seq<TailState>)
    ensures
        forall|k: int|
            0 <= k < stopped(states).len() ==> (#[trigger] stopped(states)[k]).phase
                == Phase::Stopped,
        stopped(states).len() == states.len(),
{
}

/// Whether a file's tailer starts is decided by the file alone: the
/// tailers started for a list are those started for its first part
/// followed by those started for the rest. So a file whose pattern does not
/// compile takes no tailer from the files before or after it.
pub proof fn lemma_start_is_per_file(first: Seq<WatchSpec>, rest: Seq<WatchSpec>)
    ensures
        started(first + rest) == started(first) + started(rest),
        refused(first + rest) == refused(first) + refused(rest),
    decreases rest.len(),
{
    let starter = |watch: WatchSpec| start_of(watch);
    let refuser = |watch: WatchSpec| refusal_of(watch);
    if rest.len() == 0 {
        assert(first + rest =~= first);
        assert(started(first) + started(rest) =~= started(first));
        assert(refused(first) + refused(rest) =~= refused(first));
    } else {
        let front = rest.drop_last();
        lemma_start_is_per_file(first, front);
        assert((first + rest).drop_last() =~= first + front);
        assert((first + rest).last() == rest.last());
        match start_of(rest.last()) {
            Some(state) => {
                assert(started(first) + (started(front) + seq![state]) =~= (started(first)
                    + started(front)) + seq![state]);
                assert(refused(first + rest) == refused(first) + refused(rest));
            },
            None => {
                let watch = rest.last();
                assert(refused(first) + (refused(front) + seq![watch]) =~= (refused(first)
                    + refused(front)) + seq![watch]);
                assert(started(first + rest) == started(first) + started(rest));
            },
        }
    }
}

/// A file whose pattern compiles gets its tailer, whatever the patterns
/// of the other files: the tailer stands among the started ones, after
/// those of the files before it and before those of the files after it,
/// and it is ready to open its file and match with its own pattern.
pub proof fn lemma_valid_file_is_started(list: Seq<WatchSpec>, index: int)
    requires
        0 <= index < list.len(),
        pattern_compiles(list[index].pattern),
    ensures
        ({
            let position = started(list.take(index)).len() as int;
            &&& position < started(list).len()
            &&& started(list)[position] == TailState::initial(list[index].path, list[index].pattern)
            &&& started(list) == started(list.take(index)) + seq![started(list)[position]]
                + started(list.skip(index + 1))
        }),
{
    let before = list.take(index);
    let one = seq![list[index]];
    let after = list.skip(index + 1);
    assert(list =~= before + one + after);
    lemma_start_is_per_file(before + one, after);
    lemma_start_is_per_file(before, one);
    Seq::lemma_filter_map_singleton(list[index], |watch: WatchSpec| start_of(watch));
}

/// Every file is either started or refused: the two lists together are as
/// long as the list of files.
pub proof fn lemma_started_or_refused(list: Seq<WatchSpec>)
    ensures
        started(list).len() + refused(list).len() == list.len(),
    decreases list.len(),
{
    if list.len() > 0 {
        lemma_started_or_refused(list.drop_last());
    }
}

} // verus!
