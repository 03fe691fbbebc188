//! The state machine of one watched file.
//!
//! A tailer decides; its caller acts. The caller asks [`FileTailer::next_action`]
//! what to do (open the file, look at it, read from it), does it, and tells
//! the tailer what came of it with [`FileTailer::handle`], which moves the
//! tailer on and returns the events for the lines that matched.
//!
//! The machine is written down once as mathematics, [`TailState::step`] and
//! [`TailState::reported`], and the tailer is proved to follow it.
use crate::lines::{
    complete_lines, lemma_fragment_is_tail, lemma_written_lines_read_back, strip_cr, stripped,
    terminated, trailing_fragment, LineAccumulator, NEWLINE,
};
use crate::matcher::{
    lemma_all_matching, line_reporter, matching_lines, pattern_compiles, reported_text,
    InvalidPatternError, PatternMatcher,
};
use crate::notify::{timestamp_sized, MatchEvent};
use crate::text::{decode_line, line_text};
use vstd::prelude::*;
use vstd::slice::slice_subrange;

verus! {

/// The time between two looks at a file, in milliseconds, unless the caller
/// chooses another.
pub const POLL_INTERVAL_MS: u64 = 100;

/// What tells one file from another under the same path.
#[derive(Clone, Copy, Debug, PartialEq, Eq, Structural)]
pub struct FileIdentity {
    pub device: u64,
    pub inode: u64,
}

/// What a look at the file shows: which file it is and how long.
#[derive(Clone, Copy, Debug, PartialEq, Eq, Structural)]
pub struct FileStatus {
    pub identity: FileIdentity,
    pub size: u64,
}

/// Where a tailer stands.
#[derive(Clone, Copy, Debug, PartialEq, Eq, Structural)]
pub enum Phase {
    /// The file is not open yet, or could not be opened.
    Opening,
    /// The file is open and followed.
    Tailing,
    /// The file was replaced, cut short or lost; it is to be opened anew
    /// and read from its start.
    Rotated,
    /// The tailer was shut down. Nothing follows.
    Stopped,
}

/// What the caller is to do next.
#[derive(Clone, Copy, Debug, PartialEq, Eq, Structural)]
pub enum Action {
    /// Open the file at the tailer's path and report [`Event::Opened`] or
    /// [`Event::OpenFailed`]. With `wait`, let one poll interval pass first.
    Open { wait: bool },
    /// Let one poll interval pass, then look at the file and report
    /// [`Event::Status`] or [`Event::StatusFailed`].
    Poll,
    /// Read `len` bytes at `offset` and report [`Event::Data`] or
    /// [`Event::ReadFailed`].
    Read { offset: u64, len: u64 },
    /// Nothing: the tailer has stopped.
    Halt,
}

/// What came of the caller's last action, or the request to stop.
#[derive(Debug)]
pub enum Event {
    /// The file was opened; this is what it looked like.
    Opened(FileStatus),
    /// The file could not be opened.
    OpenFailed,
    /// The file was looked at.
    Status(FileStatus),
    /// The file could not be looked at.
    StatusFailed,
    /// Bytes were read at the offset asked for.
    Data(Vec<u8>),
    /// Nothing could be read.
    ReadFailed,
    /// The tailer is to stop.
    Shutdown,
}

/// The state of a tailer, as mathematics.
pub struct TailState {
    /// The path of the watched file.
    pub path: Seq<char>,
    /// The pattern its lines are tested against.
    pub pattern: Seq<char>,
    pub phase: Phase,
    /// In `Opening`: whether an attempt to open has failed already.
    pub retrying: bool,
    /// The file that is followed, once one was opened.
    pub identity: Option<FileIdentity>,
    /// The offset of the next unread byte.
    pub read_offset: int,
    /// How many bytes the caller was asked to read; 0 when none.
    pub wanted: int,
    /// The unterminated rest of what was read.
    pub fragment: Seq<u8>,
}

impl TailState {
    /// The state of a tailer that was just made.
    pub open spec fn initial(path: Seq<char>, pattern: Seq<char>) -> TailState {
        TailState {
            path,
            pattern,
            phase: Phase::Opening,
            retrying: false,
            identity: None,
            read_offset: 0,
            wanted: 0,
            fragment: Seq::empty(),
        }
    }

    /// What holds of every state a tailer can be in.
    pub open spec fn valid(self) -> bool {
        &&& 0 <= self.read_offset
        &&& 0 <= self.wanted
        &&& self.read_offset + self.wanted <= u64::MAX
        &&& self.phase == Phase::Tailing ==> self.identity is Some
        &&& self.wanted > 0 ==> self.phase == Phase::Tailing
        &&& !self.fragment.contains(NEWLINE)
    }

    /// The state on entering `Tailing` at `offset` of the file `identity`.
    pub open spec fn tailing(self, identity: FileIdentity, offset: int) -> TailState {
        TailState {
            phase: Phase::Tailing,
            retrying: false,
            identity: Some(identity),
            read_offset: offset,
            wanted: 0,
            fragment: Seq::empty(),
            ..self
        }
    }

    /// Whether a look at the file shows another file than the one followed,
    /// or one shorter than what was read already.
    pub open spec fn is_rotation(self, status: FileStatus) -> bool {
        self.identity != Some(status.identity) || status.size < self.read_offset
    }

    /// The part of the bytes handed in that was asked for: no more than
    /// `wanted` of them.
    pub open spec fn accepted(self, data: Seq<u8>) -> Seq<u8> {
        if data.len() <= self.wanted {
            data
        } else {
            data.take(self.wanted)
        }
    }

    /// The state after `event`.
    pub open spec fn step(self, event: Event) -> TailState {
        match (self.phase, event) {
            (Phase::Stopped, _) => self,
            (_, Event::Shutdown) => TailState { phase: Phase::Stopped, wanted: 0, ..self },
            (Phase::Opening, Event::Opened(status)) => self.tailing(
                status.identity,
                status.size as int,
            ),
            (Phase::Rotated, Event::Opened(status)) => self.tailing(status.identity, 0),
            (Phase::Opening, Event::OpenFailed) | (Phase::Rotated, Event::OpenFailed) => TailState {
                phase: Phase::Opening,
                retrying: true,
                ..self
            },
            (Phase::Tailing, Event::Status(status)) => if self.is_rotation(status) {
                TailState { phase: Phase::Rotated, wanted: 0, ..self }
            } else {
                TailState { wanted: status.size - self.read_offset, ..self }
            },
            (Phase::Tailing, Event::StatusFailed) => TailState {
                phase: Phase::Rotated,
                wanted: 0,
                ..self
            },
            (Phase::Tailing, Event::Data(data)) => if self.wanted > 0 {
                TailState {
                    read_offset: self.read_offset + self.accepted(data@).len(),
                    wanted: 0,
                    fragment: trailing_fragment(self.fragment + self.accepted(data@)),
                    ..self
                }
            } else {
                self
            },
            (Phase::Tailing, Event::ReadFailed) => TailState { wanted: 0, ..self },
            _ => self,
        }
    }

    /// The texts reported for `event`, in order: the matching ones among
    /// the lines that the bytes read complete. Only bytes that were asked
    /// for give rise to reports.
    pub open spec fn reported(self, event: Event) -> Seq<Seq<char>> {
        match (self.phase, event) {
            (Phase::Tailing, Event::Data(data)) => if self.wanted > 0 {
                matching_lines(self.pattern, complete_lines(self.fragment + self.accepted(data@)))
            } else {
                Seq::empty()
            },
            _ => Seq::empty(),
        }
    }

    /// What the caller is to do in this state.
    pub open spec fn next_action(self) -> Action {
        match self.phase {
            Phase::Opening => Action::Open { wait: self.retrying },
            Phase::Rotated => Action::Open { wait: false },
            Phase::Tailing => if self.wanted > 0 {
                Action::Read { offset: self.read_offset as u64, len: self.wanted as u64 }
            } else {
                Action::Poll
            },
            Phase::Stopped => Action::Halt,
        }
    }
}

/// The line texts of a sequence of events.
pub open spec fn event_lines(events: Seq<MatchEvent>) -> Seq<Seq<char>> {
    events.map_values(|event: MatchEvent| event.line_text@)
}

/// Whether every event names `path` as its source.
pub open spec fn all_from(events: Seq<MatchEvent>, path: Seq<char>) -> bool {
    forall|i: int| 0 <= i < events.len() ==> (#[trigger] events[i]).source_path@ == path
}

/// Whether every event carries a time of observation that is as long as a
/// timestamp is at least.
pub open spec fn all_timed(events: Seq<MatchEvent>) -> bool {
    forall|i: int| 0 <= i < events.len() ==> timestamp_sized((#[trigger] events[i]).observed_at@)
}

/// Follows one file: holds its pattern, its read position and the rest of
/// its last read. Its view is its [`TailState`].
pub struct FileTailer {
    path: String,
    matcher: PatternMatcher,
    phase: Phase,
    retrying: bool,
    identity: Option<FileIdentity>,
    read_offset: u64,
    wanted: u64,
    accumulator: LineAccumulator,
}

impl View for FileTailer {
    type V = TailState;

    closed spec fn view(&self) -> TailState {
        TailState {
            path: self.path@,
            pattern: self.matcher@,
            phase: self.phase,
            retrying: self.retrying,
            identity: self.identity,
            read_offset: self.read_offset as int,
            wanted: self.wanted as int,
            fragment: self.accumulator@,
        }
    }
}

impl FileTailer {
    #[verifier::type_invariant]
    spec fn well_formed(self) -> bool {
        self@.valid()
    }

    /// A tailer for the file at `path` and lines matching `pattern`. A
    /// pattern that does not compile gives no tailer.
    pub fn new(path: &str, pattern: &str) -> (r: Result<FileTailer, InvalidPatternError>)
        ensures
            r is Ok <==> pattern_compiles(pattern@),
            r matches Ok(tailer) ==> tailer@ == TailState::initial(path@, pattern@),
            r matches Err(e) ==> e.pattern@ == pattern@,
    {
        match PatternMatcher::new(pattern) {
            Ok(matcher) => Ok(FileTailer::with_matcher(path, matcher)),
            Err(e) => Err(e),
        }
    }

    /// A tailer for the file at `path` with a pattern compiled already.
    pub fn with_matcher(path: &str, matcher: PatternMatcher) -> (tailer: FileTailer)
        ensures
            tailer@ == TailState::initial(path@, matcher@),
    {
        FileTailer {
            path: path.to_owned(),
            matcher,
            phase: Phase::Opening,
            retrying: false,
            identity: None,
            read_offset: 0,
            wanted: 0,
            accumulator: LineAccumulator::new(),
        }
    }

    /// The path of the watched file.
    pub fn path(&self) -> (path: &str)
        ensures
            path@ == self@.path,
    {
        self.path.as_str()
    }

    /// The pattern text.
    pub fn pattern(&self) -> (pattern: &str)
        ensures
            pattern@ == self@.pattern,
    {
        self.matcher.pattern()
    }

    /// Where the tailer stands.
    pub fn phase(&self) -> (phase: Phase)
        ensures
            phase == self@.phase,
    {
        self.phase
    }

    /// The offset of the next unread byte.
    pub fn read_offset(&self) -> (offset: u64)
        ensures
            offset == self@.read_offset,
    {
        self.read_offset
    }

    /// The file that is followed, once one was opened.
    pub fn identity(&self) -> (identity: Option<FileIdentity>)
        ensures
            identity == self@.identity,
    {
        self.identity
    }

    /// What the caller is to do next.
    pub fn next_action(&self) -> (action: Action)
        ensures
            action == self@.next_action(),
            self@.valid(),
    {
        proof {
            use_type_invariant(self);
        }
        match self.phase {
            Phase::Opening => Action::Open { wait: self.retrying },
            Phase::Rotated => Action::Open { wait: false },
            Phase::Tailing => if self.wanted > 0 {
                Action::Read { offset: self.read_offset, len: self.wanted }
            } else {
                Action::Poll
            },
            Phase::Stopped => Action::Halt,
        }
    }

    /// Whether a look at the file shows a rotation.
    fn sees_rotation(&self, status: &FileStatus) -> (rotated: bool)
        ensures
            rotated == self@.is_rotation(*status),
    {
        match self.identity {
            Some(known) => known.device != status.identity.device || known.inode
                != status.identity.inode || status.size < self.read_offset,
            None => true,
        }
    }

    /// Enters `Tailing` at `offset` of the file `identity`.
    fn start_tailing(&mut self, identity: FileIdentity, offset: u64)
        requires
            old(self)@.wanted == 0,
        ensures
            final(self)@ == old(self)@.tailing(identity, offset as int),
    {
        proof {
            use_type_invariant(&*self);
        }
        self.accumulator = LineAccumulator::new();
        self.identity = Some(identity);
        self.read_offset = offset;
        self.retrying = false;
        self.phase = Phase::Tailing;
    }

    /// Tests the lines of one read and makes the events for those that
    /// match, in the order of the lines.
    fn report_lines(&self, lines: &Vec<Vec<u8>>) -> (events: Vec<MatchEvent>)
        ensures
            event_lines(events@) == matching_lines(self@.pattern, lines.deep_view()),
            all_from(events@, self@.path),
            all_timed(events@),
    {
        let ghost all = lines.deep_view();
        let ghost reporter = line_reporter(self.matcher@);
        let mut events: Vec<MatchEvent> = Vec::new();
        assert(all.take(0) =~= Seq::<Seq<u8>>::empty());
        assert(event_lines(events@) =~= Seq::<Seq<char>>::empty());
        let mut i: usize = 0;
        while i < lines.len()
            invariant
                i <= lines.len(),
                all == lines.deep_view(),
                reporter == line_reporter(self.matcher@),
                event_lines(events@) == all.take(i as int).filter_map(reporter),
                all_from(events@, self.path@),
                all_timed(events@),
            decreases lines.len() - i,
        {
            let line: &Vec<u8> = &lines[i];
            proof {
                assert(all[i as int] =~= line@);
                all.lemma_filter_map_take_succ(reporter, i as int);
            }
            let ghost before = events@;
            match decode_line(line.as_slice()) {
                Some(text) => {
                    let matched: bool = self.matcher.matches(text.as_str());
                    let ghost shown = text@;
                    match MatchEvent::report(self.path.as_str(), text, matched) {
                        Some(event) => {
                            events.push(event);
                            assert(event_lines(events@) =~= event_lines(before) + seq![shown]);
                        },
                        None => {
                            assert(event_lines(before) + Seq::<Seq<char>>::empty() =~= event_lines(
                                before,
                            ));
                        },
                    }
                },
                None => {
                    assert(event_lines(before) + Seq::<Seq<char>>::empty() =~= event_lines(before));
                },
            }
            i += 1;
        }
        assert(all.take(i as int) =~= all);
        events
    }

    /// Takes what came of the caller's last action and moves on. Returns
    /// the events for the lines that the bytes read have completed and
    /// that the pattern matches, in the order of the lines, each with the
    /// tailer's path and the time it was made; for every event but
    /// [`Event::Data`] there are none.
    ///
    /// An event that has no place in the tailer's phase changes nothing:
    /// anything told to a stopped tailer, the outcome of an open while the
    /// file is followed, a look or a read while it is not, and bytes when
    /// none were asked for. A look at the file counts whenever the file is
    /// followed, also while a read is pending: it sets anew what is to be
    /// read, or finds the rotation.
    pub fn handle(&mut self, event: Event) -> (events: Vec<MatchEvent>)
        ensures
            final(self)@ == old(self)@.step(event),
            final(self)@.valid(),
            events@.len() == old(self)@.reported(event).len(),
            event_lines(events@) == old(self)@.reported(event),
            all_from(events@, old(self)@.path),
            all_timed(events@),
    {
        proof {
            use_type_invariant(&*self);
        }
        let mut events: Vec<MatchEvent> = Vec::new();
        assert(event_lines(events@) =~= Seq::<Seq<char>>::empty());
        match self.phase {
            Phase::Stopped => {},
            Phase::Opening => {
                match event {
                    Event::Shutdown => {
                        self.phase = Phase::Stopped;
                    },
                    Event::Opened(status) => {
                        self.start_tailing(status.identity, status.size);
                    },
                    Event::OpenFailed => {
                        self.retrying = true;
                    },
                    _ => {},
                }
            },
            Phase::Rotated => {
                match event {
                    Event::Shutdown => {
                        self.phase = Phase::Stopped;
                    },
                    Event::Opened(status) => {
                        self.start_tailing(status.identity, 0);
                    },
                    Event::OpenFailed => {
                        self.retrying = true;
                        self.phase = Phase::Opening;
                    },
                    _ => {},
                }
            },
            Phase::Tailing => {
                match event {
                    Event::Shutdown => {
                        self.wanted = 0;
                        self.phase = Phase::Stopped;
                    },
                    Event::Status(status) => {
                        if self.sees_rotation(&status) {
                            self.wanted = 0;
                            self.phase = Phase::Rotated;
                        } else {
                            self.wanted = status.size - self.read_offset;
                        }
                    },
                    Event::StatusFailed => {
                        self.wanted = 0;
                        self.phase = Phase::Rotated;
                    },
                    Event::Data(data) => {
                        if self.wanted > 0 {
                            let given: usize = data.len();
                            let taken: usize = if given as u64 <= self.wanted {
                                given
                            } else {
                                self.wanted as usize
                            };
                            let chunk: &[u8] = slice_subrange(data.as_slice(), 0, taken);
                            assert(chunk@ =~= old(self)@.accepted(data@));
                            let mut accumulator = LineAccumulator::new();
                            std::mem::swap(&mut accumulator, &mut self.accumulator);
                            let lines: Vec<Vec<u8>> = accumulator.feed(chunk);
                            std::mem::swap(&mut accumulator, &mut self.accumulator);
                            self.wanted = 0;
                            self.read_offset = self.read_offset + taken as u64;
                            events = self.report_lines(&lines);
                        }
                    },
                    Event::ReadFailed => {
                        self.wanted = 0;
                    },
                    _ => {},
                }
            },
        }
        events
    }
}

/// Every step leads from a valid state to a valid state.
pub proof fn lemma_step_keeps_valid(state: TailState, event: Event)
    requires
        state.valid(),
    ensures
        state.step(event).valid(),
{
    if let Event::Data(data) = event {
        lemma_fragment_is_tail(state.fragment + state.accepted(data@));
    }
}

/// A stopped tailer stays as it is and reports nothing, whatever it is
/// told.
pub proof fn lemma_stopped_is_final(state: TailState, event: Event)
    requires
        state.phase == Phase::Stopped,
    ensures
        state.step(event) == state,
        state.reported(event) == Seq::<Seq<char>>::empty(),
        state.next_action() == Action::Halt,
{
}

/// A shutdown stops a tailer from wherever it stands.
pub proof fn lemma_shutdown_stops(state: TailState)
    ensures
        state.step(Event::Shutdown).phase == Phase::Stopped,
        state.step(Event::Shutdown).next_action() == Action::Halt,
{
}

/// A tailer that could not open its file keeps trying, one poll interval
/// apart, and starts at the end of the file once it opens: what the file
/// held before is not reported.
pub proof fn lemma_opening_retries(state: TailState, status: FileStatus)
    requires
        state.phase == Phase::Opening,
    ensures
        state.step(Event::OpenFailed).phase == Phase::Opening,
        state.step(Event::OpenFailed).next_action() == (Action::Open { wait: true }),
        state.step(Event::Opened(status)).phase == Phase::Tailing,
        state.step(Event::Opened(status)).read_offset == status.size,
        state.step(Event::Opened(status)).identity == Some(status.identity),
        state.step(Event::Opened(status)).next_action() == Action::Poll,
{
}

/// After a look at the file, a tailer that is still tailing follows the
/// file it saw and has its read position within it: it asks for exactly
/// the bytes between its position and the end. Anything else has made it
/// a rotation.
pub proof fn lemma_position_within_file(state: TailState, status: FileStatus)
    requires
        state.valid(),
        state.phase == Phase::Tailing,
    ensures
        ({
            let next = state.step(Event::Status(status));
            if state.identity == Some(status.identity) && state.read_offset <= status.size {
                &&& next.phase == Phase::Tailing
                &&& next.read_offset == state.read_offset
                &&& next.read_offset + next.wanted == status.size
                &&& next.fragment == state.fragment
            } else {
                &&& next.phase == Phase::Rotated
                &&& next.next_action() == (Action::Open { wait: false })
            }
        }),
{
}

/// Lines appended to a followed file that ended in a newline are reported
/// once each, in the order they were appended, as far as the pattern
/// matches them: the tailer asks for the appended bytes, reports the
/// matching lines among them, and ends at the new end of the file with
/// nothing held back.
pub proof fn lemma_appended_lines_reported(
    state: TailState,
    status: FileStatus,
    lines: Seq<Seq<u8>>,
    data: Vec<u8>,
)
    requires
        state.valid(),
        state.phase == Phase::Tailing,
        state.fragment.len() == 0,
        state.identity == Some(status.identity),
        forall|k: int| 0 <= k < lines.len() ==> !(#[trigger] lines[k]).contains(NEWLINE),
        data@ == terminated(lines),
        status.size == state.read_offset + data@.len(),
    ensures
        ({
            let polled = state.step(Event::Status(status));
            let read = polled.step(Event::Data(data));
            &&& lines.len() > 0 ==> polled.next_action() == (Action::Read {
                offset: state.read_offset as u64,
                len: data@.len() as u64,
            })
            &&& polled.reported(Event::Data(data)) == matching_lines(state.pattern, stripped(lines))
            &&& read.phase == Phase::Tailing
            &&& read.read_offset == status.size
            &&& read.fragment.len() == 0
            &&& read.next_action() == Action::Poll
        }),
{
    lemma_written_lines_read_back(lines);
    assert(state.fragment + data@ =~= data@);
    if lines.len() > 0 {
        assert(terminated(lines) == terminated(lines.drop_last()) + lines.last().push(NEWLINE));
    } else {
        assert(stripped(lines) =~= Seq::<Seq<u8>>::empty());
    }
}

/// Appended lines that all match are all reported: as many reports as
/// lines, each with the text of its line, in the order of the lines.
pub proof fn lemma_appended_matching_lines_all_reported(
    state: TailState,
    status: FileStatus,
    lines: Seq<Seq<u8>>,
    data: Vec<u8>,
)
    requires
        state.valid(),
        state.phase == Phase::Tailing,
        state.fragment.len() == 0,
        state.identity == Some(status.identity),
        forall|k: int| 0 <= k < lines.len() ==> !(#[trigger] lines[k]).contains(NEWLINE),
        forall|k: int|
            0 <= k < lines.len() ==> reported_text(state.pattern, strip_cr(#[trigger] lines[k]))
                is Some,
        data@ == terminated(lines),
        status.size == state.read_offset + data@.len(),
    ensures
        ({
            let reports = state.step(Event::Status(status)).reported(Event::Data(data));
            &&& reports.len() == lines.len()
            &&& forall|k: int|
                0 <= k < lines.len() ==> line_text(strip_cr(lines[k])) == Some(
                    #[trigger] reports[k],
                )
        }),
{
    lemma_appended_lines_reported(state, status, lines, data);
    lemma_all_matching(state.pattern, stripped(lines));
}

/// A file cut short is started anew. When a look shows the followed file
/// shorter than what was read, the tailer reopens it and reads from its
/// start, with nothing kept of the old content; a line appended after the
/// cut is then reported once if it matches, and nothing else is.
pub proof fn lemma_truncation_restarts(
    state: TailState,
    cut: FileStatus,
    reopened: FileStatus,
    grown: FileStatus,
    line: Seq<u8>,
    data: Vec<u8>,
)
    requires
        state.valid(),
        state.phase == Phase::Tailing,
        cut.size < state.read_offset,
        grown.identity == reopened.identity,
        !line.contains(NEWLINE),
        data@ == line.push(NEWLINE),
        grown.size == data@.len(),
    ensures
        ({
            let rotated = state.step(Event::Status(cut));
            let restarted = rotated.step(Event::Opened(reopened));
            let polled = restarted.step(Event::Status(grown));
            let read = polled.step(Event::Data(data));
            &&& rotated.phase == Phase::Rotated
            &&& rotated.next_action() == (Action::Open { wait: false })
            &&& rotated.reported(Event::Opened(reopened)).len() == 0
            &&& restarted.phase == Phase::Tailing
            &&& restarted.read_offset == 0
            &&& restarted.fragment.len() == 0
            &&& restarted.reported(Event::Status(grown)).len() == 0
            &&& polled.next_action() == (Action::Read { offset: 0, len: grown.size })
            &&& reported_text(state.pattern, strip_cr(line)) matches Some(text) ==> polled.reported(
                Event::Data(data),
            ) == seq![text]
            &&& reported_text(state.pattern, strip_cr(line)) is None ==> polled.reported(
                Event::Data(data),
            ).len() == 0
            &&& read.phase == Phase::Tailing
            &&& read.read_offset == grown.size
            &&& read.fragment.len() == 0
        }),
{
    let lines = seq![line];
    assert(lines.drop_last() =~= Seq::<Seq<u8>>::empty());
    assert(terminated(lines) =~= data@) by {
        assert(terminated(lines.drop_last()) =~= Seq::<u8>::empty());
    }
    lemma_written_lines_read_back(lines);
    assert(stripped(lines) =~= seq![strip_cr(line)]);
    assert(Seq::<u8>::empty() + data@ =~= data@);
    let restarted = state.step(Event::Status(cut)).step(Event::Opened(reopened));
    assert(restarted.fragment =~= Seq::<u8>::empty());
    Seq::lemma_filter_map_singleton(strip_cr(line), line_reporter(state.pattern));
}

/// A file replaced under its path is a rotation. When a look shows another
/// file than the one followed, the tailer reopens the path and goes on
/// tailing the new file from its start.
pub proof fn lemma_replacement_is_followed(
    state: TailState,
    seen: FileStatus,
    reopened: FileStatus,
)
    requires
        state.valid(),
        state.phase == Phase::Tailing,
        state.identity != Some(seen.identity),
    ensures
        ({
            let rotated = state.step(Event::Status(seen));
            let resumed = rotated.step(Event::Opened(reopened));
            &&& rotated.phase == Phase::Rotated
            &&& rotated.next_action() == (Action::Open { wait: false })
            &&& resumed.phase == Phase::Tailing
            &&& resumed.identity == Some(reopened.identity)
            &&& resumed.read_offset == 0
            &&& resumed.fragment.len() == 0
            &&& resumed.next_action() == Action::Poll
            &&& resumed.valid()
        }),
{
    let resumed = state.step(Event::Status(seen)).step(Event::Opened(reopened));
    assert(resumed.fragment =~= Seq::<u8>::empty());
}

/// A file that cannot be looked at is taken for rotated; if it cannot be
/// opened either, the tailer falls back to opening it, one poll interval
/// apart, for as long as it takes. It never stops by itself.
pub proof fn lemma_lost_file_is_retried(state: TailState)
    requires
        state.phase == Phase::Tailing,
    ensures
        state.step(Event::StatusFailed).phase == Phase::Rotated,
        state.step(Event::StatusFailed).step(Event::OpenFailed).phase == Phase::Opening,
        state.step(Event::StatusFailed).step(Event::OpenFailed).next_action() == (Action::Open {
            wait: true,
        }),
        state.step(Event::ReadFailed).phase == Phase::Tailing,
        state.step(Event::ReadFailed).read_offset == state.read_offset,
        state.step(Event::ReadFailed).fragment == state.fragment,
{
}

} // verus!
