//! The sweep over all channels, cycle after cycle, as a machine that tells
//! its driver what to do next.
//!
//! A cycle loads the channels, scans them all at once and, when the last
//! scan has ended, waits: for the interval to pass, or for a wake request. A
//! wake request that arrives while a cycle is under way is kept, at most
//! one of them, and starts the next cycle as soon as this one is over.
//! Nothing ends the scheduler: a scan that fails, or a channel list that
//! cannot be loaded, costs this cycle its work and no more.

use crate::error::ErrorKind;
use crate::model::{channels_view, Channel, ChannelView};
use vstd::prelude::*;

verus! {

/// The seconds that pass between two cycles where nothing wakes the
/// scheduler.
pub const CYCLE_INTERVAL_SECONDS: u64 = 300;

/// What the scheduler is busy with.
#[derive(Clone, Copy, Debug, PartialEq, Eq, Structural)]
pub enum SchedulerPhase {
    /// Waiting for the list of channels.
    Loading,
    /// Waiting for the scans of this cycle, of which `running` have not
    /// ended yet.
    Scanning { running: usize },
    /// Between two cycles.
    Waiting,
}

/// The scheduler: its phase, and whether a wake request is kept for the end
/// of the cycle under way.
#[derive(Clone, Copy, Debug, PartialEq, Eq, Structural)]
pub struct Scheduler {
    pub phase: SchedulerPhase,
    pub wake_pending: bool,
}

/// What the driver reports to the scheduler.
#[derive(Debug)]
pub enum SchedulerEvent {
    /// The registered channels.
    Channels(Vec<Channel>),
    /// The channels could not be loaded: this cycle has no scans.
    LoadFailed(ErrorKind),
    /// One scan of the cycle has ended: well, or with the given failure.
    ScanEnded(Option<ErrorKind>),
    /// The interval has passed.
    TimerElapsed,
    /// Somebody asks for a cycle now.
    WakeRequested,
}

/// The mathematical view of a [`SchedulerEvent`].
pub enum SchedulerEventView {
    Channels(Seq<ChannelView>),
    LoadFailed(ErrorKind),
    ScanEnded(Option<ErrorKind>),
    TimerElapsed,
    WakeRequested,
}

impl View for SchedulerEvent {
    type V = SchedulerEventView;

    open spec fn view(&self) -> SchedulerEventView {
        match self {
            SchedulerEvent::Channels(channels) => SchedulerEventView::Channels(
                channels_view(channels@),
            ),
            SchedulerEvent::LoadFailed(kind) => SchedulerEventView::LoadFailed(*kind),
            SchedulerEvent::ScanEnded(failure) => SchedulerEventView::ScanEnded(*failure),
            SchedulerEvent::TimerElapsed => SchedulerEventView::TimerElapsed,
            SchedulerEvent::WakeRequested => SchedulerEventView::WakeRequested,
        }
    }
}

/// What the scheduler asks of its driver.
#[derive(Debug)]
pub enum SchedulerAction {
    /// Load the registered channels and report them.
    LoadChannels,
    /// Scan each of these channels, all at once, and report the end of each
    /// scan as it comes.
    RunScans(Vec<Channel>),
    /// Wait until the given seconds have passed or a wake request comes,
    /// and report which.
    Wait { seconds: u64 },
    /// Go on with what was asked before.
    Continue,
}

/// The mathematical view of a [`SchedulerAction`].
pub enum SchedulerActionView {
    LoadChannels,
    RunScans(Seq<ChannelView>),
    Wait { seconds: int },
    Continue,
}

impl View for SchedulerAction {
    type V = SchedulerActionView;

    open spec fn view(&self) -> SchedulerActionView {
        match self {
            SchedulerAction::LoadChannels => SchedulerActionView::LoadChannels,
            SchedulerAction::RunScans(channels) => SchedulerActionView::RunScans(
                channels_view(channels@),
            ),
            SchedulerAction::Wait { seconds } => SchedulerActionView::Wait {
                seconds: *seconds as int,
            },
            SchedulerAction::Continue => SchedulerActionView::Continue,
        }
    }
}

/// The scheduler at the start of a cycle, with no wake request kept.
pub open spec fn fresh_cycle() -> Scheduler {
    Scheduler { phase: SchedulerPhase::Loading, wake_pending: false }
}

/// The scheduler between two cycles.
pub open spec fn at_rest() -> Scheduler {
    Scheduler { phase: SchedulerPhase::Waiting, wake_pending: false }
}

/// What follows the end of a cycle: the next cycle at once if a wake
/// request is kept, which uses it up; otherwise the wait for the interval.
pub open spec fn cycle_over(s: Scheduler) -> (Scheduler, SchedulerActionView) {
    if s.wake_pending {
        (fresh_cycle(), SchedulerActionView::LoadChannels)
    } else {
        (at_rest(), SchedulerActionView::Wait { seconds: CYCLE_INTERVAL_SECONDS as int })
    }
}

/// The scheduler's rule, one event at a time.
///
/// - The channels that were loaded are scanned, all at once. Where there is
///   none, or where they could not be loaded, the cycle is over.
/// - The end of a scan, well or not, is counted; with the last one the
///   cycle is over.
/// - While waiting, the passing of the interval and a wake request both
///   start the next cycle.
/// - A wake request during a cycle is kept; a second one changes nothing.
/// - Any other event changes nothing.
pub open spec fn schedule_step(s: Scheduler, event: SchedulerEventView) -> (
    Scheduler,
    SchedulerActionView,
) {
    match (s.phase, event) {
        (SchedulerPhase::Loading, SchedulerEventView::Channels(channels)) => {
            if channels.len() == 0 {
                cycle_over(s)
            } else {
                (
                    Scheduler {
                        phase: SchedulerPhase::Scanning { running: channels.len() as usize },
                        wake_pending: s.wake_pending,
                    },
                    SchedulerActionView::RunScans(channels),
                )
            }
        },
        (SchedulerPhase::Loading, SchedulerEventView::LoadFailed(_)) => cycle_over(s),
        (SchedulerPhase::Scanning { running }, SchedulerEventView::ScanEnded(_)) => {
            if running <= 1 {
                cycle_over(s)
            } else {
                (
                    Scheduler {
                        phase: SchedulerPhase::Scanning { running: (running - 1) as usize },
                        wake_pending: s.wake_pending,
                    },
                    SchedulerActionView::Continue,
                )
            }
        },
        (SchedulerPhase::Waiting, SchedulerEventView::TimerElapsed) => (
            fresh_cycle(),
            SchedulerActionView::LoadChannels,
        ),
        (SchedulerPhase::Waiting, SchedulerEventView::WakeRequested) => (
            fresh_cycle(),
            SchedulerActionView::LoadChannels,
        ),
        (_, SchedulerEventView::WakeRequested) => (
            Scheduler { phase: s.phase, wake_pending: true },
            SchedulerActionView::Continue,
        ),
        _ => (s, SchedulerActionView::Continue),
    }
}

/// The scheduler after a run of events.
pub open spec fn after_events(s: Scheduler, events: Seq<SchedulerEventView>) -> Scheduler
    decreases events.len(),
{
    if events.len() == 0 {
        s
    } else {
        after_events(schedule_step(s, events[0]).0, events.skip(1))
    }
}

/// The number of cycles that a run of events starts.
pub open spec fn cycles_started(s: Scheduler, events: Seq<SchedulerEventView>) -> nat
    decreases events.len(),
{
    if events.len() == 0 {
        0
    } else {
        let (next, action) = schedule_step(s, events[0]);
        let rest = cycles_started(next, events.skip(1));
        if action is LoadChannels {
            rest + 1
        } else {
            rest
        }
    }
}

impl Scheduler {
    /// A scheduler about to run its first cycle: the first thing asked for
    /// is the list of channels.
    pub fn start() -> (begun: (Scheduler, SchedulerAction))
        ensures
            begun.0 == fresh_cycle(),
            begun.1@ == SchedulerActionView::LoadChannels,
    {
        (
            Scheduler { phase: SchedulerPhase::Loading, wake_pending: false },
            SchedulerAction::LoadChannels,
        )
    }

    fn end_cycle(self) -> (next: (Scheduler, SchedulerAction))
        ensures
            (next.0, next.1@) == cycle_over(self),
    {
        if self.wake_pending {
            (
                Scheduler { phase: SchedulerPhase::Loading, wake_pending: false },
                SchedulerAction::LoadChannels,
            )
        } else {
            (
                Scheduler { phase: SchedulerPhase::Waiting, wake_pending: false },
                SchedulerAction::Wait { seconds: CYCLE_INTERVAL_SECONDS },
            )
        }
    }

    /// Takes what the driver reports and tells it what to do next.
    pub fn step(self, event: SchedulerEvent) -> (next: (Scheduler, SchedulerAction))
        ensures
            (next.0, next.1@) == schedule_step(self, event@),
    {
        match (self.phase, event) {
            (SchedulerPhase::Loading, SchedulerEvent::Channels(channels)) => {
                if channels.len() == 0 {
                    self.end_cycle()
                } else {
                    (
                        Scheduler {
                            phase: SchedulerPhase::Scanning { running: channels.len() },
                            wake_pending: self.wake_pending,
                        },
                        SchedulerAction::RunScans(channels),
                    )
                }
            },
            (SchedulerPhase::Loading, SchedulerEvent::LoadFailed(_)) => self.end_cycle(),
            (SchedulerPhase::Scanning { running }, SchedulerEvent::ScanEnded(_)) => {
                if running <= 1 {
                    self.end_cycle()
                } else {
                    (
                        Scheduler {
                            phase: SchedulerPhase::Scanning { running: running - 1 },
                            wake_pending: self.wake_pending,
                        },
                        SchedulerAction::Continue,
                    )
                }
            },
            (SchedulerPhase::Waiting, SchedulerEvent::TimerElapsed) => (
                Scheduler { phase: SchedulerPhase::Loading, wake_pending: false },
                SchedulerAction::LoadChannels,
            ),
            (SchedulerPhase::Waiting, SchedulerEvent::WakeRequested) => (
                Scheduler { phase: SchedulerPhase::Loading, wake_pending: false },
                SchedulerAction::LoadChannels,
            ),
            (_, SchedulerEvent::WakeRequested) => (
                Scheduler { phase: self.phase, wake_pending: true },
                SchedulerAction::Continue,
            ),
            _ => (self, SchedulerAction::Continue),
        }
    }

    /// Whether a wake request is kept for the end of the cycle under way.
    pub fn wake_is_pending(&self) -> (b: bool)
        ensures
            b == self.wake_pending,
    {
        self.wake_pending
    }
}

/// A run of events in two parts: the second part starts where the first
/// one ends, and the cycles started add up.
pub proof fn lemma_events_in_two_parts(
    s: Scheduler,
    first: Seq<SchedulerEventView>,
    second: Seq<SchedulerEventView>,
)
    ensures
        after_events(s, first + second) == after_events(after_events(s, first), second),
        cycles_started(s, first + second) == cycles_started(s, first) + cycles_started(
            after_events(s, first),
            second,
        ),
    decreases first.len(),
{
    if first.len() == 0 {
        assert(first + second =~= second);
    } else {
        let all = first + second;
        assert(all[0] == first[0]);
        assert(all.skip(1) =~= first.skip(1) + second);
        lemma_events_in_two_parts(schedule_step(s, first[0]).0, first.skip(1), second);
    }
}

/// Wake requests coalesce: while a cycle is under way, a second request
/// leaves the scheduler as the first one left it, and asks nothing new of
/// the driver.
pub proof fn lemma_wake_requests_coalesce(s: Scheduler)
    requires
        s.phase is Loading || s.phase is Scanning,
    ensures
        schedule_step(
            schedule_step(s, SchedulerEventView::WakeRequested).0,
            SchedulerEventView::WakeRequested,
        ) == schedule_step(s, SchedulerEventView::WakeRequested),
        schedule_step(s, SchedulerEventView::WakeRequested).0 == (Scheduler {
            phase: s.phase,
            wake_pending: true,
        }),
        schedule_step(s, SchedulerEventView::WakeRequested).1 is Continue,
{
}

/// A scan that fails counts as one that ends well: the other scans, and the
/// cycle, go on alike.
pub proof fn lemma_failed_scan_stops_nothing(s: Scheduler, kind: ErrorKind)
    ensures
        schedule_step(s, SchedulerEventView::ScanEnded(Some(kind))) == schedule_step(
            s,
            SchedulerEventView::ScanEnded(None),
        ),
{
}

/// A channel list that cannot be loaded costs the cycle its scans and no
/// more: the scheduler goes on as after a cycle without channels.
pub proof fn lemma_failed_load_ends_only_the_cycle(s: Scheduler, kind: ErrorKind)
    requires
        s.phase is Loading,
    ensures
        schedule_step(s, SchedulerEventView::LoadFailed(kind)) == cycle_over(s),
        schedule_step(s, SchedulerEventView::LoadFailed(kind)) == schedule_step(
            s,
            SchedulerEventView::Channels(Seq::empty()),
        ),
{
}

/// Whether every event of the run is a wake request or the end of a scan.
pub open spec fn wakes_and_scan_ends(events: Seq<SchedulerEventView>) -> bool {
    forall|i: int|
        0 <= i < events.len() ==> (#[trigger] events[i]) is WakeRequested || events[i] is ScanEnded
}

/// Whether a wake request is among the events.
pub open spec fn wake_among(events: Seq<SchedulerEventView>) -> bool {
    exists|i: int| 0 <= i < events.len() && (#[trigger] events[i]) is WakeRequested
}

/// The number of scans whose end is among the events.
pub open spec fn scans_ended(events: Seq<SchedulerEventView>) -> nat
    decreases events.len(),
{
    if events.len() == 0 {
        0
    } else if events[0] is ScanEnded {
        scans_ended(events.skip(1)) + 1
    } else {
        scans_ended(events.skip(1))
    }
}

/// A run that closes with the end of a scan holds the end of a scan.
proof fn lemma_last_scan_counts(events: Seq<SchedulerEventView>)
    requires
        events.len() > 0,
        events.last() is ScanEnded,
    ensures
        scans_ended(events) >= 1,
    decreases events.len(),
{
    if events.len() > 1 {
        assert(events.skip(1).last() == events.last());
        lemma_last_scan_counts(events.skip(1));
    }
}

/// The rest of a cycle: the ends of the scans that still run, with wake
/// requests anywhere among them. When the last scan has ended, the next
/// cycle has started if a wake request was kept or came, and no wake
/// request is kept any more; otherwise the scheduler is at rest. Either
/// way no more than one cycle has started.
pub proof fn lemma_rest_of_cycle(s: Scheduler, events: Seq<SchedulerEventView>)
    requires
        s.phase matches SchedulerPhase::Scanning { running } && running >= 1 && scans_ended(events)
            == running,
        wakes_and_scan_ends(events),
        events.len() > 0,
        events.last() is ScanEnded,
    ensures
        s.wake_pending || wake_among(events) ==> after_events(s, events) == fresh_cycle()
            && cycles_started(s, events) == 1,
        !(s.wake_pending || wake_among(events)) ==> after_events(s, events) == at_rest()
            && cycles_started(s, events) == 0,
    decreases events.len(),
{
    let running = s.phase->running;
    let rest = events.skip(1);
    let next = schedule_step(s, events[0]).0;
    assert(events[0] is WakeRequested || events[0] is ScanEnded);
    assert(wakes_and_scan_ends(rest)) by {
        assert forall|i: int| 0 <= i < rest.len() implies (#[trigger] rest[i]) is WakeRequested
            || rest[i] is ScanEnded by {
            assert(rest[i] == events[i + 1]);
        }
    }
    if wake_among(rest) {
        let i = choose|i: int| 0 <= i < rest.len() && (#[trigger] rest[i]) is WakeRequested;
        assert(events[i + 1] is WakeRequested);
    }
    if wake_among(events) && !(events[0] is WakeRequested) {
        let i = choose|i: int| 0 <= i < events.len() && (#[trigger] events[i]) is WakeRequested;
        assert(rest[i - 1] is WakeRequested);
    }
    if rest.len() > 0 {
        assert(rest.last() == events.last());
        lemma_last_scan_counts(rest);
    }
    let woken = s.wake_pending || wake_among(events);
    if events[0] is WakeRequested {
        assert(next == Scheduler { phase: s.phase, wake_pending: true });
        lemma_rest_of_cycle(next, rest);
        assert(woken);
        assert(after_events(s, events) == fresh_cycle());
        assert(cycles_started(s, events) == 1);
    } else if running > 1 {
        assert(next == Scheduler {
            phase: SchedulerPhase::Scanning { running: (running - 1) as usize },
            wake_pending: s.wake_pending,
        });
        lemma_rest_of_cycle(next, rest);
        assert(woken == (next.wake_pending || wake_among(rest)));
    } else {
        assert(rest.len() == 0);
        assert(woken == s.wake_pending);
        assert(next == cycle_over(s).0);
        assert(after_events(next, rest) == next);
        assert(cycles_started(next, rest) == 0);
    }
}

/// A cycle in which no wake request comes starts no further cycle: when
/// each of its scans has ended, well or not, the scheduler is at rest.
pub proof fn lemma_quiet_scans_end_at_rest(running: usize, outcomes: Seq<Option<ErrorKind>>)
    requires
        running >= 1,
        outcomes.len() == running,
    ensures
        after_events(
            Scheduler { phase: SchedulerPhase::Scanning { running }, wake_pending: false },
            outcomes.map_values(|o: Option<ErrorKind>| SchedulerEventView::ScanEnded(o)),
        ) == at_rest(),
        cycles_started(
            Scheduler { phase: SchedulerPhase::Scanning { running }, wake_pending: false },
            outcomes.map_values(|o: Option<ErrorKind>| SchedulerEventView::ScanEnded(o)),
        ) == 0,
    decreases running,
{
    let s = Scheduler { phase: SchedulerPhase::Scanning { running }, wake_pending: false };
    let events = outcomes.map_values(|o: Option<ErrorKind>| SchedulerEventView::ScanEnded(o));
    assert(events[0] == SchedulerEventView::ScanEnded(outcomes[0]));
    if running == 1 {
        assert(events.skip(1) =~= Seq::empty());
        assert(schedule_step(s, events[0]).0 == at_rest());
        assert(after_events(at_rest(), events.skip(1)) == at_rest());
        assert(cycles_started(at_rest(), events.skip(1)) == 0);
    } else {
        let rest = outcomes.skip(1);
        assert(events.skip(1) =~= rest.map_values(
            |o: Option<ErrorKind>| SchedulerEventView::ScanEnded(o),
        ));
        lemma_quiet_scans_end_at_rest((running - 1) as usize, rest);
    }
}

/// Wake coalescing. However many wake requests come while the scans of a
/// cycle run, and wherever among the ends of those scans, the end of the
/// last scan starts one cycle at once, and no more: when the scans of that
/// cycle have ended, the scheduler is at rest and waits for the interval.
pub proof fn lemma_one_extra_cycle(
    running: usize,
    events: Seq<SchedulerEventView>,
    channels: Seq<ChannelView>,
    outcomes: Seq<Option<ErrorKind>>,
)
    requires
        running >= 1,
        wakes_and_scan_ends(events),
        wake_among(events),
        events.last() is ScanEnded,
        scans_ended(events) == running,
        channels.len() <= usize::MAX,
        outcomes.len() == channels.len(),
    ensures
        ({
            let busy = Scheduler {
                phase: SchedulerPhase::Scanning { running },
                wake_pending: false,
            };
            let all = events + seq![SchedulerEventView::Channels(channels)] + outcomes.map_values(
                |o: Option<ErrorKind>| SchedulerEventView::ScanEnded(o),
            );
            &&& cycles_started(busy, events) == 1
            &&& cycles_started(busy, all) == 1
            &&& after_events(busy, all) == at_rest()
        }),
{
    let busy = Scheduler { phase: SchedulerPhase::Scanning { running }, wake_pending: false };
    let load = seq![SchedulerEventView::Channels(channels)];
    let scans = outcomes.map_values(|o: Option<ErrorKind>| SchedulerEventView::ScanEnded(o));
    lemma_rest_of_cycle(busy, events);
    let loaded = schedule_step(fresh_cycle(), SchedulerEventView::Channels(channels)).0;
    assert(after_events(fresh_cycle(), load) == loaded && cycles_started(fresh_cycle(), load)
        == 0) by {
        reveal_with_fuel(after_events, 2);
        reveal_with_fuel(cycles_started, 2);
        assert(load.skip(1) =~= Seq::empty());
    }
    if channels.len() == 0 {
        assert(scans =~= Seq::empty());
        assert(loaded == at_rest());
    } else {
        lemma_quiet_scans_end_at_rest(channels.len() as usize, outcomes);
    }
    lemma_events_in_two_parts(busy, events, load);
    lemma_events_in_two_parts(busy, events + load, scans);
}

} // verus!
