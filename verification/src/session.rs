//! From an index that may be stale, missing, damaged or in use to one that can
//! be searched.
//!
//! A session says what to do next; the caller does it and reports what came of
//! it. The index is first updated. If another process holds its lock, the
//! existing index is searched as it is. An index that proves damaged is removed
//! and built anew, unless another process is updating it; then loading it is
//! tried a few times more.

use vstd::prelude::*;

use crate::state::maybe_text;
use crate::text::{contains_text, occurs_in};

verus! {

/// How often loading an index is tried again while another process updates it.
pub const MAX_RETRIES: u32 = 3;

/// How many milliseconds pass between two attempts.
pub const RETRY_DELAY_MS: u64 = 500;

/// How far a session has come.
#[derive(Clone, Copy, Debug, PartialEq, Eq, Structural)]
pub enum Phase {
    /// The index is being updated.
    Updating,
    /// The index could not be updated and is being built anew.
    Rebuilding,
    /// Whether there is an index is being found out.
    Checking,
    /// The index is being loaded.
    Loading,
    /// The index is being loaded once more, after so many retries.
    Retrying(u32),
    /// The index could not be loaded and is being built anew.
    Restoring,
    /// The index that was built anew is being loaded.
    Reloading,
    /// The index is loaded.
    Ready,
    /// There is no index to search.
    Failed,
}

/// What came of the last action.
pub enum Event {
    /// The index was updated.
    Updated,
    /// Another process holds the lock of the index.
    Locked,
    /// The index was built anew.
    Rebuilt,
    /// It was found out whether there is an index, and which directory, if any,
    /// on the way to the project is one that is not indexed.
    Checked { present: bool, ignored: Option<String> },
    /// The index was loaded.
    Loaded,
    /// The action failed, with an error as it is displayed and as it is
    /// debugged.
    Failed { display: String, debug: String },
}

/// What to do next.
pub enum Action {
    /// Update the index without waiting for its lock.
    Update,
    /// Remove the index of the project and build it anew.
    Rebuild,
    /// Find out whether there is an index.
    Check,
    /// Load the index.
    Load,
    /// Wait a moment and load the index.
    WaitAndLoad,
    /// Remove the index that was to be loaded and build the project's anew.
    Restore,
    /// Search.
    Search,
    /// Fail with the last error.
    FailAsReported,
    /// Fail with the last error, behind a message.
    FailBehind(String),
    /// Fail with a message.
    FailWith(String),
}

/// What an action is.
pub enum Decision {
    Update,
    Rebuild,
    Check,
    Load,
    WaitAndLoad,
    Restore,
    Search,
    FailAsReported,
    FailBehind(Seq<char>),
    FailWith(Seq<char>),
}

impl View for Action {
    type V = Decision;

    open spec fn view(&self) -> Decision {
        match *self {
            Action::Update => Decision::Update,
            Action::Rebuild => Decision::Rebuild,
            Action::Check => Decision::Check,
            Action::Load => Decision::Load,
            Action::WaitAndLoad => Decision::WaitAndLoad,
            Action::Restore => Decision::Restore,
            Action::Search => Decision::Search,
            Action::FailAsReported => Decision::FailAsReported,
            Action::FailBehind(message) => Decision::FailBehind(message@),
            Action::FailWith(message) => Decision::FailWith(message@),
        }
    }
}

/// A session.
#[derive(Clone, Copy, Debug, PartialEq, Eq, Structural)]
pub struct Session {
    pub phase: Phase,
    /// Whether another process holds the lock of the index.
    pub locked: bool,
}

// ---------------------------------------------------------------------------
// Errors
// ---------------------------------------------------------------------------

/// Whether an error of an update says that the index is damaged. What the user
/// cancelled is no damage.
pub open spec fn update_shows_damage(display: Seq<char>, debug: Seq<char>) -> bool {
    &&& !occurs_in("Indexing cancelled by user"@, display)
    &&& occurs_in("No data to merge"@, display) || occurs_in("No data to merge"@, debug)
        || occurs_in("Index load failed"@, display)
}

/// Whether an error of loading says that the index is damaged.
pub open spec fn load_shows_damage(display: Seq<char>, debug: Seq<char>) -> bool {
    occurs_in("No data to merge"@, debug) || occurs_in("No data to merge"@, display) || occurs_in(
        "IndexLoad"@,
        debug,
    ) || occurs_in("Index load failed"@, display)
}

/// Whether an error of an update says that the index is damaged.
pub fn is_damaged_for_update(display: &str, debug: &str) -> (r: bool)
    ensures
        r == update_shows_damage(display@, debug@),
{
    if contains_text(display, "Indexing cancelled by user") {
        return false;
    }
    contains_text(display, "No data to merge") || contains_text(debug, "No data to merge")
        || contains_text(display, "Index load failed")
}

/// Whether an error of loading says that the index is damaged.
pub fn is_damaged_for_load(display: &str, debug: &str) -> (r: bool)
    ensures
        r == load_shows_damage(display@, debug@),
{
    contains_text(debug, "No data to merge") || contains_text(display, "No data to merge")
        || contains_text(debug, "IndexLoad") || contains_text(display, "Index load failed")
}

/// Why there is no index.
pub open spec fn no_index_text(locked: bool, ignored: Option<Seq<char>>) -> Seq<char> {
    if locked {
        "colgrep index is currently being built, rely on grep for now."@
    } else {
        match ignored {
            Some(dir) => "No files indexed. The path contains '"@ + dir
                + "' which is in the default ignore list.\nIgnored directories: tmp, temp, vendor, node_modules, target, build, dist, .git, etc.\nTry searching from a different directory or project root."@,
            None =>
                "No index found. Index building may have failed (no indexable files found)."@,
        }
    }
}

/// Why there is no index.
pub fn no_index_message(locked: bool, ignored: &Option<String>) -> (r: String)
    ensures
        r@ == no_index_text(locked, maybe_text(*ignored)),
{
    if locked {
        return "colgrep index is currently being built, rely on grep for now.".to_owned();
    }
    match ignored {
        Some(dir) => {
            let mut r: String = "No files indexed. The path contains '".to_owned();
            r.append(dir.as_str());
            r.append(
                "' which is in the default ignore list.\nIgnored directories: tmp, temp, vendor, node_modules, target, build, dist, .git, etc.\nTry searching from a different directory or project root.",
            );
            r
        },
        None =>
            "No index found. Index building may have failed (no indexable files found).".to_owned(),
    }
}

// ---------------------------------------------------------------------------
// Steps
// ---------------------------------------------------------------------------

/// Whether an event can be reported in a phase.
pub open spec fn is_expected(phase: Phase, event: Event) -> bool {
    match phase {
        Phase::Updating => event is Updated || event is Locked || event is Failed,
        Phase::Rebuilding | Phase::Restoring => event is Rebuilt || event is Failed,
        Phase::Checking => event is Checked,
        Phase::Loading | Phase::Retrying(_) | Phase::Reloading => event is Loaded
            || event is Failed,
        Phase::Ready | Phase::Failed => false,
    }
}

/// What to do after a failure.
pub open spec fn after_failure_of(s: Session, display: Seq<char>, debug: Seq<char>) -> Decision {
    match s.phase {
        Phase::Updating => if update_shows_damage(display, debug) {
            Decision::Rebuild
        } else {
            Decision::FailAsReported
        },
        Phase::Loading => if s.locked {
            Decision::WaitAndLoad
        } else if load_shows_damage(display, debug) {
            Decision::Restore
        } else {
            Decision::FailAsReported
        },
        Phase::Retrying(retries) => if retries < MAX_RETRIES {
            Decision::WaitAndLoad
        } else {
            Decision::FailBehind(
                "⏳ Index load failed while another process is updating. Rely on grep until the update completes."@,
            )
        },
        _ => Decision::FailAsReported,
    }
}

/// What to do after an event.
pub open spec fn decision(s: Session, event: Event) -> Decision {
    match event {
        Event::Updated | Event::Locked => Decision::Check,
        Event::Rebuilt => if s.phase == Phase::Rebuilding {
            Decision::Check
        } else {
            Decision::Load
        },
        Event::Checked { present, ignored } => if present {
            Decision::Load
        } else {
            Decision::FailWith(no_index_text(s.locked, maybe_text(ignored)))
        },
        Event::Loaded => Decision::Search,
        Event::Failed { display, debug } => after_failure_of(s, display@, debug@),
    }
}

/// The phase in which an action is carried out.
pub open spec fn phase_of(phase: Phase, d: Decision) -> Phase {
    match d {
        Decision::Update => Phase::Updating,
        Decision::Rebuild => Phase::Rebuilding,
        Decision::Check => Phase::Checking,
        Decision::Load => if phase == Phase::Restoring {
            Phase::Reloading
        } else {
            Phase::Loading
        },
        Decision::WaitAndLoad => match phase {
            Phase::Retrying(retries) => Phase::Retrying((retries + 1) as u32),
            _ => Phase::Retrying(1),
        },
        Decision::Restore => Phase::Restoring,
        Decision::Search => Phase::Ready,
        _ => Phase::Failed,
    }
}

/// A session after an event.
pub open spec fn successor(s: Session, event: Event) -> Session {
    Session { phase: phase_of(s.phase, decision(s, event)), locked: s.locked || event is Locked }
}

impl Session {
    /// Whether a session can have come about: an index is retried only while
    /// another process holds its lock, and built anew only while none does.
    pub open spec fn wf(self) -> bool {
        match self.phase {
            Phase::Updating | Phase::Rebuilding | Phase::Restoring | Phase::Reloading =>
                !self.locked,
            Phase::Retrying(retries) => self.locked && 1 <= retries <= MAX_RETRIES,
            _ => true,
        }
    }

    /// A session begins with an update of the index.
    pub fn start() -> (r: (Session, Action))
        ensures
            r.0.wf(),
            r.0 == (Session { phase: Phase::Updating, locked: false }),
            r.1@ == Decision::Update,
    {
        (Session { phase: Phase::Updating, locked: false }, Action::Update)
    }

    /// What to do after a failure.
    fn after_failure(&self, display: &str, debug: &str) -> (r: Action)
        ensures
            r@ == after_failure_of(*self, display@, debug@),
    {
        match self.phase {
            Phase::Updating => {
                if is_damaged_for_update(display, debug) {
                    Action::Rebuild
                } else {
                    Action::FailAsReported
                }
            },
            Phase::Loading => {
                if self.locked {
                    Action::WaitAndLoad
                } else if is_damaged_for_load(display, debug) {
                    Action::Restore
                } else {
                    Action::FailAsReported
                }
            },
            Phase::Retrying(retries) => {
                if retries < MAX_RETRIES {
                    Action::WaitAndLoad
                } else {
                    Action::FailBehind(
                        "⏳ Index load failed while another process is updating. Rely on grep until the update completes.".to_owned(),
                    )
                }
            },
            _ => Action::FailAsReported,
        }
    }

    /// Takes note of what came of the last action, and says what to do next.
    pub fn step(&mut self, event: &Event) -> (r: Action)
        requires
            old(self).wf(),
            is_expected(old(self).phase, *event),
        ensures
            r@ == decision(*old(self), *event),
            *final(self) == successor(*old(self), *event),
            final(self).wf(),
    {
        let action: Action = match event {
            Event::Updated => Action::Check,
            Event::Locked => Action::Check,
            Event::Rebuilt => match self.phase {
                Phase::Rebuilding => Action::Check,
                _ => Action::Load,
            },
            Event::Checked { present, ignored } => {
                if *present {
                    Action::Load
                } else {
                    Action::FailWith(no_index_message(self.locked, ignored))
                }
            },
            Event::Loaded => Action::Search,
            Event::Failed { display, debug } => self.after_failure(
                display.as_str(),
                debug.as_str(),
            ),
        };
        assert(action@ == decision(*self, *event));
        let phase: Phase = match &action {
            Action::Update => Phase::Updating,
            Action::Rebuild => Phase::Rebuilding,
            Action::Check => Phase::Checking,
            Action::Load => match self.phase {
                Phase::Restoring => Phase::Reloading,
                _ => Phase::Loading,
            },
            Action::WaitAndLoad => match self.phase {
                Phase::Retrying(retries) => Phase::Retrying(retries + 1),
                _ => Phase::Retrying(1),
            },
            Action::Restore => Phase::Restoring,
            Action::Search => Phase::Ready,
            _ => Phase::Failed,
        };
        let locked: bool = match event {
            Event::Locked => true,
            _ => self.locked,
        };
        *self = Session { phase, locked };
        action
    }
}

// ---------------------------------------------------------------------------
// Laws
// ---------------------------------------------------------------------------

/// How many events a session can still take at most.
pub open spec fn remaining_events(s: Session) -> int {
    match s.phase {
        Phase::Updating => 7,
        Phase::Rebuilding => 6,
        Phase::Checking => 5,
        Phase::Loading => 4,
        Phase::Retrying(retries) => 1 + MAX_RETRIES - retries,
        Phase::Restoring => 2,
        Phase::Reloading => 1,
        Phase::Ready | Phase::Failed => 0,
    }
}

/// A session ends: every event brings its end closer.
pub proof fn law_session_ends(s: Session, event: Event)
    requires
        s.wf(),
        is_expected(s.phase, event),
    ensures
        0 <= remaining_events(successor(s, event)) < remaining_events(s),
{
}

/// An index whose lock another process holds is never removed.
pub proof fn law_locked_index_is_kept(s: Session, event: Event)
    requires
        s.wf(),
        is_expected(s.phase, event),
        s.locked || event is Locked,
    ensures
        decision(s, event) != Decision::Rebuild,
        decision(s, event) != Decision::Restore,
        successor(s, event).locked,
{
}

/// An index is removed only where an error says that it is damaged.
pub proof fn law_only_damaged_index_is_removed(s: Session, event: Event)
    requires
        s.wf(),
        is_expected(s.phase, event),
        decision(s, event) == Decision::Rebuild || decision(s, event) == Decision::Restore,
    ensures
        event matches Event::Failed { display, debug } && (update_shows_damage(display@, debug@)
            || load_shows_damage(display@, debug@)),
{
}

/// What is searched was loaded, and what was loaded is searched.
pub proof fn law_search_follows_load(s: Session, event: Event)
    requires
        is_expected(s.phase, event),
    ensures
        decision(s, event) == Decision::Search <==> event is Loaded,
{
}

/// A session after some events.
pub open spec fn after_events(s: Session, events: Seq<Event>) -> Session
    decreases events.len(),
{
    if events.len() == 0 {
        s
    } else {
        successor(after_events(s, events.drop_last()), events.last())
    }
}

/// Whether some events can be reported one after the other.
pub open spec fn can_follow(s: Session, events: Seq<Event>) -> bool
    decreases events.len(),
{
    events.len() > 0 ==> can_follow(s, events.drop_last()) && is_expected(
        after_events(s, events.drop_last()).phase,
        events.last(),
    )
}

/// Whether an index is loaded in a phase.
pub open spec fn is_load(phase: Phase) -> bool {
    phase == Phase::Loading || phase is Retrying || phase == Phase::Reloading
}

/// How often the index is loaded until some events were reported.
pub open spec fn loads(s: Session, events: Seq<Event>) -> nat
    decreases events.len(),
{
    if events.len() == 0 {
        0
    } else {
        loads(s, events.drop_last()) + if is_load(after_events(s, events.drop_last()).phase) {
            1nat
        } else {
            0
        }
    }
}

/// How often a session can still load the index at most.
pub open spec fn remaining_loads(s: Session) -> int {
    match s.phase {
        Phase::Updating | Phase::Rebuilding | Phase::Checking | Phase::Loading => 1 + MAX_RETRIES,
        Phase::Retrying(retries) => 1 + MAX_RETRIES - retries,
        Phase::Restoring | Phase::Reloading => 1,
        Phase::Ready | Phase::Failed => 0,
    }
}

/// However a session goes, it is over after seven events at most, and loads the
/// index once and then no more often than it may be retried.
pub proof fn law_session_is_short(events: Seq<Event>)
    requires
        can_follow((Session { phase: Phase::Updating, locked: false }), events),
    ensures
        ({
            let s = Session { phase: Phase::Updating, locked: false };
            &&& after_events(s, events).wf()
            &&& events.len() + remaining_events(after_events(s, events)) <= 7
            &&& loads(s, events) + remaining_loads(after_events(s, events)) <= 1 + MAX_RETRIES
        }),
    decreases events.len(),
{
    let s = Session { phase: Phase::Updating, locked: false };
    if events.len() > 0 {
        law_session_is_short(events.drop_last());
        law_session_ends(after_events(s, events.drop_last()), events.last());
    }
}

/// A failed update leads to a new index exactly where the error, displayed or
/// debugged, says that there is no data to merge, or displayed that the index
/// could not be loaded; but never where the user cancelled it. Any other failure
/// is reported.
pub proof fn law_failed_update(s: Session, display: String, debug: String)
    requires
        s.phase == Phase::Updating,
    ensures
        ({
            let d = decision(s, Event::Failed { display, debug });
            let damaged = occurs_in("No data to merge"@, display@) || occurs_in(
                "No data to merge"@,
                debug@,
            ) || occurs_in("Index load failed"@, display@);
            let cancelled = occurs_in("Indexing cancelled by user"@, display@);
            let next = successor(s, Event::Failed { display, debug });
            &&& damaged && !cancelled ==> d == Decision::Rebuild && next.phase == Phase::Rebuilding
            &&& !damaged || cancelled ==> d == Decision::FailAsReported && next.phase
                == Phase::Failed
            &&& next.locked == s.locked
        }),
{
}

/// A failed load is tried again while another process updates the index. Else it
/// leads to a new index exactly where the error says, displayed or debugged,
/// that there is no data to merge, debugged that loading failed, or displayed
/// that it did. Any other failure is reported.
pub proof fn law_failed_load(s: Session, display: String, debug: String)
    requires
        s.phase == Phase::Loading,
    ensures
        ({
            let event = Event::Failed { display, debug };
            let d = decision(s, event);
            let damaged = occurs_in("No data to merge"@, display@) || occurs_in(
                "No data to merge"@,
                debug@,
            ) || occurs_in("IndexLoad"@, debug@) || occurs_in("Index load failed"@, display@);
            &&& s.locked ==> d == Decision::WaitAndLoad && successor(s, event).phase
                == Phase::Retrying(1)
            &&& !s.locked && damaged ==> d == Decision::Restore && successor(s, event).phase
                == Phase::Restoring
            &&& !s.locked && !damaged ==> d == Decision::FailAsReported && successor(s, event).phase
                == Phase::Failed
            &&& successor(s, event).locked == s.locked
        }),
{
}

/// Loading is tried again three times in all, whatever the errors; then the last
/// one is reported, behind a message.
pub proof fn law_three_retries(s: Session, retries: u32, display: String, debug: String)
    requires
        s.phase == Phase::Retrying(retries),
        1 <= retries,
    ensures
        ({
            let event = Event::Failed { display, debug };
            &&& retries < 3 ==> decision(s, event) == Decision::WaitAndLoad && successor(
                s,
                event,
            ).phase == Phase::Retrying((retries + 1) as u32)
            &&& retries >= 3 ==> decision(s, event) == Decision::FailBehind(
                "⏳ Index load failed while another process is updating. Rely on grep until the update completes."@,
            ) && successor(s, event).phase == Phase::Failed
        }),
{
}

/// A new index that cannot be built, or not be loaded, is not built once more:
/// the failure is reported.
pub proof fn law_rebuilt_once(s: Session, display: String, debug: String)
    requires
        s.phase == Phase::Rebuilding || s.phase == Phase::Restoring || s.phase == Phase::Reloading,
    ensures
        decision(s, Event::Failed { display, debug }) == Decision::FailAsReported,
        successor(s, Event::Failed { display, debug }).phase == Phase::Failed,
{
}

/// Without failures, an update leads to a check, a check to a load where there is
/// an index and to a message where there is none, a new index to what it was
/// built for, and a load to a search.
pub proof fn law_course_of_a_session(s: Session, ignored: Option<String>)
    ensures
        s.phase == Phase::Updating ==> decision(s, Event::Updated) == Decision::Check && successor(
            s,
            Event::Updated,
        ) == (Session { phase: Phase::Checking, locked: s.locked }),
        s.phase == Phase::Updating ==> decision(s, Event::Locked) == Decision::Check && successor(
            s,
            Event::Locked,
        ) == (Session { phase: Phase::Checking, locked: true }),
        s.phase == Phase::Rebuilding ==> decision(s, Event::Rebuilt) == Decision::Check && successor(
            s,
            Event::Rebuilt,
        ).phase == Phase::Checking,
        s.phase == Phase::Restoring ==> decision(s, Event::Rebuilt) == Decision::Load && successor(
            s,
            Event::Rebuilt,
        ).phase == Phase::Reloading,
        s.phase == Phase::Checking ==> decision(
            s,
            Event::Checked { present: true, ignored },
        ) == Decision::Load && successor(
            s,
            Event::Checked { present: true, ignored },
        ).phase == Phase::Loading,
        s.phase == Phase::Checking && s.locked ==> decision(
            s,
            Event::Checked { present: false, ignored },
        ) == Decision::FailWith("colgrep index is currently being built, rely on grep for now."@),
        s.phase == Phase::Checking && !s.locked && ignored is None ==> decision(
            s,
            Event::Checked { present: false, ignored },
        ) == Decision::FailWith(
            "No index found. Index building may have failed (no indexable files found)."@,
        ),
        s.phase == Phase::Checking && !s.locked && ignored is Some ==> decision(
            s,
            Event::Checked { present: false, ignored },
        ) == Decision::FailWith(
            "No files indexed. The path contains '"@ + ignored->0@
                + "' which is in the default ignore list.\nIgnored directories: tmp, temp, vendor, node_modules, target, build, dist, .git, etc.\nTry searching from a different directory or project root."@,
        ),
        decision(s, Event::Loaded) == Decision::Search,
        successor(s, Event::Loaded).phase == Phase::Ready,
{
}

/// Every event that an action can lead to is expected after it.
pub proof fn law_events_are_expected(event: Event)
    ensures
        event is Updated || event is Locked || event is Failed ==> is_expected(
            Phase::Updating,
            event,
        ),
        event is Rebuilt || event is Failed ==> is_expected(Phase::Rebuilding, event)
            && is_expected(Phase::Restoring, event),
        event is Checked ==> is_expected(Phase::Checking, event),
        event is Loaded || event is Failed ==> is_expected(Phase::Loading, event) && is_expected(
            Phase::Reloading,
            event,
        ) && forall|n: u32| #[trigger] is_expected(Phase::Retrying(n), event),
{
}

} // verus!
