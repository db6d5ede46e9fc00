//! The change cycle: request, download, apply, sweep, wait.
//!
//! The cycle is a state machine. It hands out one [`Action`] at a time for
//! the surrounding program to perform, and takes back one [`Event`] that
//! says how the action ended. Whatever goes wrong during an attempt, the
//! machine orders the full wait before the next one.

use crate::config::{Config, ConfigView};
use crate::naming::{file_name_of, is_stamp, new_wallpaper_path, saved_path};
use crate::retention::{
    attach_times, duplicate_entries, entries_of, image_entries, images_of, is_sweep, moments,
    plan_sweep, positions, with_times, Entry, EntryView, KEEP_COUNT,
};
use vstd::prelude::*;

verus! {

/// Address that answers with a redirect to a random image.
pub const API_URL: &'static str = "https://manyacg.top/setu";

/// Value of the `User-Agent` header sent with the request.
pub const USER_AGENT: &'static str = "ManyACG-Wallpaper-Changer";

/// What the surrounding program is asked to do next.
#[derive(Debug, Clone, PartialEq, Eq)]
pub enum Action {
    /// Send a GET request to `url` with the given `User-Agent`, follow
    /// redirects, and report the address that finally answered.
    Request { url: String, user_agent: String },
    /// Download `url` and write the bytes to the file at `path`.
    Download { url: String, path: String },
    /// Make the file at `path` the desktop background, persistently and
    /// with immediate effect.
    SetWallpaper { path: String },
    /// List the entries of the directory `dir`.
    ListDirectory { dir: String },
    /// Read the modification times of the entries at these positions of
    /// the listing just reported, in this order.
    ReadTimes { indices: Vec<usize> },
    /// Remove the entries at these positions of the listing just reported,
    /// in this order, going on after a failure.
    Delete { indices: Vec<usize> },
    /// Report whether the wallpaper was changed, then wait `seconds`.
    Sleep { seconds: u64, changed: bool },
}

/// What the surrounding program reports back.
#[derive(Debug, Clone, PartialEq, Eq)]
pub enum Event {
    /// The request was answered by `final_url`.
    Resolved { final_url: String },
    /// The image was downloaded and written.
    Saved,
    /// The desktop background was set.
    Applied,
    /// The directory holds these entries.
    Listed { entries: Vec<Entry> },
    /// The times that were asked for, in the order asked, in nanoseconds
    /// since the Unix epoch.
    Timed { times: Vec<i128> },
    /// The removals were attempted; `failed` of them did not succeed.
    Swept { failed: usize },
    /// The action could not be carried out.
    Failed,
    /// The wait is over.
    Woke,
}

/// What the machine is waiting for.
#[derive(Debug, Clone, PartialEq, Eq)]
pub enum Phase {
    /// The answer to the request.
    Requesting,
    /// The download to the file at `path`.
    Saving { path: String },
    /// The desktop background to be set.
    Applying,
    /// The listing of the download directory.
    Listing,
    /// The modification times of the image files among `entries`.
    Timing { entries: Vec<Entry> },
    /// The removals.
    Deleting,
    /// The end of the wait.
    Sleeping,
}

/// An [`Action`] as mathematical values.
pub ghost enum ActionView {
    Request { url: Seq<char>, user_agent: Seq<char> },
    Download { url: Seq<char>, path: Seq<char> },
    SetWallpaper { path: Seq<char> },
    ListDirectory { dir: Seq<char> },
    ReadTimes { indices: Seq<int> },
    Delete { indices: Seq<int> },
    Sleep { seconds: nat, changed: bool },
}

/// An [`Event`] as mathematical values.
pub ghost enum EventView {
    Resolved { final_url: Seq<char> },
    Saved,
    Applied,
    Listed { entries: Seq<EntryView> },
    Timed { times: Seq<int> },
    Swept { failed: nat },
    Failed,
    Woke,
}

/// A [`Phase`] as mathematical values.
pub ghost enum PhaseView {
    Requesting,
    Saving { path: Seq<char> },
    Applying,
    Listing,
    Timing { entries: Seq<EntryView> },
    Deleting,
    Sleeping,
}

impl View for Action {
    type V = ActionView;

    open spec fn view(&self) -> ActionView {
        match *self {
            Action::Request { url, user_agent } => ActionView::Request {
                url: url@,
                user_agent: user_agent@,
            },
            Action::Download { url, path } => ActionView::Download { url: url@, path: path@ },
            Action::SetWallpaper { path } => ActionView::SetWallpaper { path: path@ },
            Action::ListDirectory { dir } => ActionView::ListDirectory { dir: dir@ },
            Action::ReadTimes { indices } => ActionView::ReadTimes {
                indices: positions(indices@),
            },
            Action::Delete { indices } => ActionView::Delete { indices: positions(indices@) },
            Action::Sleep { seconds, changed } => ActionView::Sleep {
                seconds: seconds as nat,
                changed,
            },
        }
    }
}

impl View for Event {
    type V = EventView;

    open spec fn view(&self) -> EventView {
        match *self {
            Event::Resolved { final_url } => EventView::Resolved { final_url: final_url@ },
            Event::Saved => EventView::Saved,
            Event::Applied => EventView::Applied,
            Event::Listed { entries } => EventView::Listed { entries: entries_of(entries@) },
            Event::Timed { times } => EventView::Timed { times: moments(times@) },
            Event::Swept { failed } => EventView::Swept { failed: failed as nat },
            Event::Failed => EventView::Failed,
            Event::Woke => EventView::Woke,
        }
    }
}

impl View for Phase {
    type V = PhaseView;

    open spec fn view(&self) -> PhaseView {
        match *self {
            Phase::Requesting => PhaseView::Requesting,
            Phase::Saving { path } => PhaseView::Saving { path: path@ },
            Phase::Applying => PhaseView::Applying,
            Phase::Listing => PhaseView::Listing,
            Phase::Timing { entries } => PhaseView::Timing { entries: entries_of(entries@) },
            Phase::Deleting => PhaseView::Deleting,
            Phase::Sleeping => PhaseView::Sleeping,
        }
    }
}

/// The request that opens every attempt.
pub open spec fn request() -> ActionView {
    ActionView::Request { url: API_URL@, user_agent: USER_AGENT@ }
}

/// The wait that closes every attempt: the configured interval in full.
pub open spec fn wait(config: ConfigView, changed: bool) -> ActionView {
    ActionView::Sleep { seconds: config.sleep_seconds(), changed }
}

/// The event is one that the phase waits for: the end of its own action,
/// or, during an attempt, the failure of that action. Times are awaited
/// only as many as there are image files to give a time for.
pub open spec fn awaited(phase: PhaseView, event: EventView) -> bool {
    match (phase, event) {
        (PhaseView::Requesting, EventView::Resolved { .. }) => true,
        (PhaseView::Saving { .. }, EventView::Saved) => true,
        (PhaseView::Applying, EventView::Applied) => true,
        (PhaseView::Listing, EventView::Listed { .. }) => true,
        (PhaseView::Timing { entries }, EventView::Timed { times }) => times.len() == images_of(
            entries,
        ).len(),
        (PhaseView::Deleting, EventView::Swept { .. }) => true,
        (PhaseView::Sleeping, EventView::Woke) => true,
        (PhaseView::Sleeping, EventView::Failed) => false,
        (_, EventView::Failed) => true,
        _ => false,
    }
}

/// With the clock showing `stamp`, the answer from `final_url` leads to the
/// download of that address to its saved path, and to the wait for it.
pub open spec fn downloads_at(
    config: ConfigView,
    final_url: Seq<char>,
    stamp: Seq<char>,
    after: PhaseView,
    action: ActionView,
) -> bool {
    let path = saved_path(config.download_dir, stamp, file_name_of(final_url));
    &&& is_stamp(stamp)
    &&& after == PhaseView::Saving { path }
    &&& action == ActionView::Download { url: final_url, path }
}

/// The answer from `final_url` leads to the download of that address to
/// its saved path, stamped with some moment, and to the wait for it.
pub open spec fn downloads(
    config: ConfigView,
    final_url: Seq<char>,
    after: PhaseView,
    action: ActionView,
) -> bool {
    exists|stamp: Seq<char>| downloads_at(config, final_url, stamp, after, action)
}

/// The machine's rule: in phase `before`, the event leads to phase `after`
/// and to `action`.
///
/// The stamp in a download's path comes from the clock, and only its shape
/// is fixed. Everything else is determined. Modification times are asked
/// for only where more image files are listed than are to stay, and only
/// of the image files.
pub open spec fn follows(
    config: ConfigView,
    keep: nat,
    before: PhaseView,
    event: EventView,
    after: PhaseView,
    action: ActionView,
) -> bool {
    match (before, event) {
        (PhaseView::Requesting, EventView::Resolved { final_url }) => downloads(
            config,
            final_url,
            after,
            action,
        ),
        (PhaseView::Saving { path }, EventView::Saved) => {
            &&& after == PhaseView::Applying
            &&& action == ActionView::SetWallpaper { path }
        },
        (PhaseView::Applying, EventView::Applied) => {
            &&& after == PhaseView::Listing
            &&& action == ActionView::ListDirectory { dir: config.download_dir }
        },
        (PhaseView::Listing, EventView::Listed { entries }) => {
            if images_of(entries).len() <= keep {
                &&& after == PhaseView::Sleeping
                &&& action == wait(config, true)
            } else {
                &&& after == PhaseView::Timing { entries }
                &&& action == ActionView::ReadTimes { indices: images_of(entries) }
            }
        },
        (PhaseView::Timing { entries }, EventView::Timed { times }) => {
            &&& times.len() == images_of(entries).len()
            &&& after == PhaseView::Deleting
            &&& action matches ActionView::Delete { indices }
            &&& is_sweep(with_times(entries, times), keep, indices)
        },
        (PhaseView::Deleting, EventView::Swept { failed }) => {
            &&& after == PhaseView::Sleeping
            &&& action == wait(config, failed == 0)
        },
        (PhaseView::Sleeping, EventView::Woke) => {
            &&& after == PhaseView::Requesting
            &&& action == request()
        },
        (PhaseView::Sleeping, EventView::Failed) => false,
        (_, EventView::Failed) => {
            &&& after == PhaseView::Sleeping
            &&& action == wait(config, false)
        },
        _ => false,
    }
}

/// The change cycle of one run of the program.
pub struct Cycle {
    config: Config,
    keep_count: usize,
    phase: Phase,
}

impl Cycle {
    #[verifier::type_invariant]
    spec fn well_formed(self) -> bool {
        self.config@.valid()
    }

    /// The configuration that the cycle runs with.
    pub closed spec fn config(self) -> ConfigView {
        self.config@
    }

    /// Number of images that every sweep leaves in place.
    pub closed spec fn keep(self) -> nat {
        self.keep_count as nat
    }

    /// What the machine is waiting for.
    pub closed spec fn phase(self) -> PhaseView {
        self.phase@
    }

    /// Starts the cycle: the machine waits for the answer to its first
    /// request, which is the action returned.
    pub fn start(config: Config) -> (started: (Cycle, Action))
        requires
            config@.valid(),
        ensures
            started.0.config() == config@,
            started.0.keep() == KEEP_COUNT,
            started.0.phase() == PhaseView::Requesting,
            started.1@ == request(),
    {
        let cycle = Cycle { config, keep_count: KEEP_COUNT, phase: Phase::Requesting };
        (cycle, Self::request_action())
    }

    fn request_action() -> (action: Action)
        ensures
            action@ == request(),
    {
        Action::Request {
            url: String::from_str(API_URL),
            user_agent: String::from_str(USER_AGENT),
        }
    }

    fn wait_action(&self, changed: bool) -> (action: Action)
        ensures
            action@ == wait(self.config(), changed),
    {
        proof {
            use_type_invariant(self);
        }
        Action::Sleep { seconds: self.config.sleep_seconds(), changed }
    }

    /// A copy of the phase, for the surrounding program to look at.
    pub fn current_phase(&self) -> (phase: Phase)
        ensures
            phase@ == self.phase(),
    {
        match &self.phase {
            Phase::Requesting => Phase::Requesting,
            Phase::Saving { path } => Phase::Saving { path: path.clone() },
            Phase::Applying => Phase::Applying,
            Phase::Listing => Phase::Listing,
            Phase::Timing { entries } => Phase::Timing { entries: duplicate_entries(entries) },
            Phase::Deleting => Phase::Deleting,
            Phase::Sleeping => Phase::Sleeping,
        }
    }

    /// Takes the event that ended the last action and returns the next
    /// action.
    ///
    /// An event that the phase does not wait for is refused: the result is
    /// `None` and the machine stays as it is.
    pub fn step(&mut self, event: Event) -> (next: Option<Action>)
        ensures
            final(self).config() == old(self).config(),
            final(self).keep() == old(self).keep(),
            next is Some <==> awaited(old(self).phase(), event@),
            next is None ==> final(self).phase() == old(self).phase(),
            next matches Some(action) ==> follows(
                old(self).config(),
                old(self).keep(),
                old(self).phase(),
                event@,
                final(self).phase(),
                action@,
            ),
    {
        proof {
            use_type_invariant(&*self);
        }
        let ghost config = self.config();
        let ghost keep = self.keep();
        let ghost before = self.phase();
        let ghost seen = event@;
        match event {
            Event::Resolved { final_url } => {
                match &self.phase {
                    Phase::Requesting => {
                        let path = new_wallpaper_path(
                            self.config.download_dir.as_str(),
                            final_url.as_str(),
                        );
                        let ghost stamp = choose|stamp: Seq<char>|
                            is_stamp(stamp) && path@ == #[trigger] saved_path(
                                self.config.download_dir@,
                                stamp,
                                file_name_of(final_url@),
                            );
                        self.phase = Phase::Saving { path: path.clone() };
                        let action = Action::Download { url: final_url, path };
                        proof {
                            assert(downloads_at(config, final_url@, stamp, self.phase(), action@));
                            assert(follows(config, keep, before, seen, self.phase(), action@));
                        }
                        Some(action)
                    },
                    _ => None,
                }
            },
            Event::Saved => {
                match &self.phase {
                    Phase::Saving { path } => {
                        let action = Action::SetWallpaper { path: path.clone() };
                        self.phase = Phase::Applying;
                        assert(follows(config, keep, before, seen, self.phase(), action@));
                        Some(action)
                    },
                    _ => None,
                }
            },
            Event::Applied => {
                match &self.phase {
                    Phase::Applying => {
                        let action = Action::ListDirectory {
                            dir: self.config.download_dir.clone(),
                        };
                        self.phase = Phase::Listing;
                        assert(follows(config, keep, before, seen, self.phase(), action@));
                        Some(action)
                    },
                    _ => None,
                }
            },
            Event::Listed { entries } => {
                match &self.phase {
                    Phase::Listing => {
                        let images = image_entries(&entries);
                        let action = if images.len() <= self.keep_count {
                            self.phase = Phase::Sleeping;
                            self.wait_action(true)
                        } else {
                            self.phase = Phase::Timing { entries };
                            Action::ReadTimes { indices: images }
                        };
                        assert(follows(config, keep, before, seen, self.phase(), action@));
                        Some(action)
                    },
                    _ => None,
                }
            },
            Event::Timed { times } => {
                match &self.phase {
                    Phase::Timing { entries } => {
                        match attach_times(entries, &times) {
                            Some(files) => {
                                let doomed = plan_sweep(&files, self.keep_count);
                                let action = Action::Delete { indices: doomed };
                                self.phase = Phase::Deleting;
                                assert(follows(config, keep, before, seen, self.phase(), action@));
                                Some(action)
                            },
                            None => None,
                        }
                    },
                    _ => None,
                }
            },
            Event::Swept { failed } => {
                match &self.phase {
                    Phase::Deleting => {
                        self.phase = Phase::Sleeping;
                        let action = self.wait_action(failed == 0);
                        assert(follows(config, keep, before, seen, self.phase(), action@));
                        Some(action)
                    },
                    _ => None,
                }
            },
            Event::Woke => {
                match &self.phase {
                    Phase::Sleeping => {
                        self.phase = Phase::Requesting;
                        let action = Self::request_action();
                        assert(follows(config, keep, before, seen, self.phase(), action@));
                        Some(action)
                    },
                    _ => None,
                }
            },
            Event::Failed => {
                match &self.phase {
                    Phase::Sleeping => None,
                    _ => {
                        self.phase = Phase::Sleeping;
                        let action = self.wait_action(false);
                        assert(follows(config, keep, before, seen, self.phase(), action@));
                        Some(action)
                    },
                }
            },
        }
    }
}

/// The action is a wait of the configured minutes, times sixty, in seconds.
pub open spec fn is_full_wait(config: ConfigView, action: ActionView) -> bool {
    action matches ActionView::Sleep { seconds, .. } && seconds == config.sleep_seconds()
}

/// A run of the machine: phase after phase, each step taken by the
/// machine's rule.
pub open spec fn is_run(
    config: ConfigView,
    keep: nat,
    phases: Seq<PhaseView>,
    events: Seq<EventView>,
    actions: Seq<ActionView>,
) -> bool {
    &&& phases.len() == events.len() + 1
    &&& actions.len() == events.len()
    &&& forall|i: int|
        0 <= i < events.len() ==> #[trigger] follows(
            config,
            keep,
            phases[i],
            events[i],
            phases[i + 1],
            actions[i],
        )
}

/// In every step, the machine goes to sleep exactly when it orders a wait,
/// every wait lasts the configured minutes times sixty in seconds, a
/// failed action leads straight to the wait, and a request is only made
/// when a wait has ended.
pub proof fn law_step_orders_full_wait(
    config: ConfigView,
    keep: nat,
    before: PhaseView,
    event: EventView,
    after: PhaseView,
    action: ActionView,
)
    requires
        follows(config, keep, before, event, after, action),
    ensures
        after is Sleeping <==> action is Sleep,
        action is Sleep ==> is_full_wait(config, action),
        event is Failed ==> action == wait(config, false),
        action is Request <==> before is Sleeping && event is Woke,
        after is Requesting <==> action is Request,
{
    if before is Requesting && event is Resolved {
        let stamp = choose|stamp: Seq<char>|
            downloads_at(config, event->final_url, stamp, after, action);
        assert(downloads_at(config, event->final_url, stamp, after, action));
    }
}

/// Between two requests of a run, the machine orders a wait of the
/// configured minutes times sixty in seconds: one attempt never follows
/// another without the full interval in between, however the first ended.
pub proof fn law_full_wait_between_attempts(
    config: ConfigView,
    keep: nat,
    phases: Seq<PhaseView>,
    events: Seq<EventView>,
    actions: Seq<ActionView>,
    first: int,
    second: int,
)
    requires
        is_run(config, keep, phases, events, actions),
        0 <= first < second < actions.len(),
        actions[first] is Request,
        actions[second] is Request,
    ensures
        exists|k: int| first < k < second && is_full_wait(config, #[trigger] actions[k]),
{
    assert(follows(
        config,
        keep,
        phases[first],
        events[first],
        phases[first + 1],
        actions[first],
    ));
    law_step_orders_full_wait(
        config,
        keep,
        phases[first],
        events[first],
        phases[first + 1],
        actions[first],
    );
    assert(follows(
        config,
        keep,
        phases[second],
        events[second],
        phases[second + 1],
        actions[second],
    ));
    law_step_orders_full_wait(
        config,
        keep,
        phases[second],
        events[second],
        phases[second + 1],
        actions[second],
    );
    let k = lemma_sleep_is_entered(config, keep, phases, events, actions, first + 1, second);
    assert(is_full_wait(config, actions[k]));
}

/// A run that is not asleep at `from` and is asleep at `to` has gone to
/// sleep in a step between the two.
proof fn lemma_sleep_is_entered(
    config: ConfigView,
    keep: nat,
    phases: Seq<PhaseView>,
    events: Seq<EventView>,
    actions: Seq<ActionView>,
    from: int,
    to: int,
) -> (k: int)
    requires
        is_run(config, keep, phases, events, actions),
        0 <= from <= to < phases.len(),
        !(phases[from] is Sleeping),
        phases[to] is Sleeping,
    ensures
        from <= k < to,
        is_full_wait(config, actions[k]),
    decreases to - from,
{
    assert(follows(config, keep, phases[from], events[from], phases[from + 1], actions[from]));
    law_step_orders_full_wait(
        config,
        keep,
        phases[from],
        events[from],
        phases[from + 1],
        actions[from],
    );
    if phases[from + 1] is Sleeping {
        from
    } else {
        lemma_sleep_is_entered(config, keep, phases, events, actions, from + 1, to)
    }
}

} // verus!
