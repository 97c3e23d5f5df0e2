//! Keeping the probe connected to its WiFi network.

use vstd::prelude::*;

verus! {

/// The number of milliseconds to wait after the link was lost, and after a connection could not
/// be made.
pub const RETRY_MILLIS: u64 = 5000;

/// The largest number of access points that a scan reports.
pub const SCAN_LIMIT: usize = 10;

/// What is to be done next.
#[derive(Clone, Copy, Debug, PartialEq, Eq, Structural)]
pub enum WifiStep {
    /// Find out whether the probe is connected.
    CheckLink,
    /// Wait until the link is lost.
    AwaitDisconnect,
    /// Wait before making a new connection.
    Settle { millis: u64 },
    /// Find out whether the controller has been started.
    CheckStarted,
    /// Hand the controller the name and the password of the network, as `network_settings` gives
    /// them.
    Configure,
    /// Start the controller.
    Start,
    /// Report the access points in reach.
    Scan { limit: usize },
    /// Connect to the network.
    Connect,
    /// Wait before trying again.
    BackOff { millis: u64 },
}

/// The network that the controller is to connect to.
#[derive(Clone, Copy, Debug)]
pub struct NetworkSettings<'a> {
    /// The name of the network.
    pub ssid: &'a str,
    /// The password of the network.
    pub password: &'a str,
}

/// What came of a step.
pub enum WifiEvent {
    /// The step was carried out.
    Done,
    /// The step could not be carried out.
    Failed,
    /// Whether the probe is connected.
    Link { connected: bool },
    /// Whether the controller has been started, if it can tell.
    Started { started: Result<bool, ()> },
    /// The names of the networks in reach.
    Scanned { networks: Vec<String> },
}

impl WifiStep {
    /// Whether the event can come of this step.
    pub open spec fn allows(self, event: WifiEvent) -> bool {
        match self {
            WifiStep::CheckLink => event is Link,
            WifiStep::CheckStarted => event is Started,
            WifiStep::Scan { .. } => event is Scanned,
            WifiStep::Connect => event is Done || event is Failed,
            _ => event is Done,
        }
    }

    /// The step after this one.
    pub open spec fn followed_by(self, event: WifiEvent) -> WifiStep {
        match self {
            WifiStep::CheckLink => if event == (WifiEvent::Link { connected: true }) {
                WifiStep::AwaitDisconnect
            } else {
                WifiStep::CheckStarted
            },
            WifiStep::AwaitDisconnect => WifiStep::Settle { millis: RETRY_MILLIS },
            WifiStep::Settle { .. } => WifiStep::CheckStarted,
            WifiStep::CheckStarted => if event == (WifiEvent::Started { started: Ok(true) }) {
                WifiStep::Connect
            } else {
                WifiStep::Configure
            },
            WifiStep::Configure => WifiStep::Start,
            WifiStep::Start => WifiStep::Scan { limit: SCAN_LIMIT },
            WifiStep::Scan { .. } => WifiStep::Connect,
            WifiStep::Connect => if event is Failed {
                WifiStep::BackOff { millis: RETRY_MILLIS }
            } else {
                WifiStep::CheckLink
            },
            WifiStep::BackOff { .. } => WifiStep::CheckLink,
        }
    }

    /// The step that everything begins with.
    pub fn new() -> (step: WifiStep)
        ensures
            step == WifiStep::CheckLink,
    {
        WifiStep::CheckLink
    }

    /// What this step configures the controller with, if it configures it: the name and the
    /// password as they are given.
    pub fn network_settings<'a>(&self, ssid: &'a str, password: &'a str) -> (settings: Option<NetworkSettings<'a>>)
        ensures
            settings is Some <==> self is Configure,
            settings matches Some(settings) ==> settings.ssid@ == ssid@ && settings.password@
                == password@,
    {
        match self {
            WifiStep::Configure => Some(NetworkSettings { ssid, password }),
            _ => None,
        }
    }

    /// Whether the event can come of this step.
    pub fn accepts(&self, event: &WifiEvent) -> (accepts: bool)
        ensures
            accepts == self.allows(*event),
    {
        match (self, event) {
            (WifiStep::CheckLink, WifiEvent::Link { .. }) => true,
            (WifiStep::CheckLink, _) => false,
            (WifiStep::CheckStarted, WifiEvent::Started { .. }) => true,
            (WifiStep::CheckStarted, _) => false,
            (WifiStep::Scan { .. }, WifiEvent::Scanned { .. }) => true,
            (WifiStep::Scan { .. }, _) => false,
            (WifiStep::Connect, WifiEvent::Failed) => true,
            (_, WifiEvent::Done) => true,
            (_, _) => false,
        }
    }

    /// The step after this one.
    pub fn after(self, event: WifiEvent) -> (step: WifiStep)
        requires
            self.allows(event),
        ensures
            step == self.followed_by(event),
    {
        match self {
            WifiStep::CheckLink => match event {
                WifiEvent::Link { connected: true } => WifiStep::AwaitDisconnect,
                _ => WifiStep::CheckStarted,
            },
            WifiStep::AwaitDisconnect => WifiStep::Settle { millis: RETRY_MILLIS },
            WifiStep::Settle { .. } => WifiStep::CheckStarted,
            WifiStep::CheckStarted => match event {
                WifiEvent::Started { started: Ok(true) } => WifiStep::Connect,
                _ => WifiStep::Configure,
            },
            WifiStep::Configure => WifiStep::Start,
            WifiStep::Start => WifiStep::Scan { limit: SCAN_LIMIT },
            WifiStep::Scan { .. } => WifiStep::Connect,
            WifiStep::Connect => match event {
                WifiEvent::Failed => WifiStep::BackOff { millis: RETRY_MILLIS },
                _ => WifiStep::CheckLink,
            },
            WifiStep::BackOff { .. } => WifiStep::CheckLink,
        }
    }
}

/// The step that is reached through the events, from the first step on.
pub open spec fn reached(events: Seq<WifiEvent>) -> WifiStep
    decreases events.len(),
{
    if events.len() == 0 {
        WifiStep::CheckLink
    } else {
        reached(events.drop_last()).followed_by(events.last())
    }
}

/// Whether the events can come one after the other, from the first step on.
pub open spec fn possible(events: Seq<WifiEvent>) -> bool
    decreases events.len(),
{
    events.len() > 0 ==> possible(events.drop_last()) && reached(events.drop_last()).allows(
        events.last(),
    )
}

/// Whether the probe was connected when that was last found out.
pub open spec fn linked(events: Seq<WifiEvent>) -> bool
    decreases events.len(),
{
    events.len() > 0 && match events.last() {
        WifiEvent::Link { connected } => connected,
        _ => linked(events.drop_last()),
    }
}

/// The number of milliseconds waited since it was last found out whether the probe is connected.
pub open spec fn waited(events: Seq<WifiEvent>) -> nat
    decreases events.len(),
{
    if events.len() == 0 {
        0
    } else {
        let before = events.drop_last();
        match reached(before) {
            WifiStep::CheckLink => 0,
            WifiStep::Settle { millis } => waited(before) + millis as nat,
            WifiStep::BackOff { millis } => waited(before) + millis as nat,
            _ => waited(before),
        }
    }
}

/// How often connecting is tried along the events.
pub open spec fn attempts(events: Seq<WifiEvent>) -> nat
    decreases events.len(),
{
    if events.len() == 0 {
        0
    } else if reached(events) is Connect {
        attempts(events.drop_last()) + 1
    } else {
        attempts(events.drop_last())
    }
}

/// How many rounds are finished along the events. A round begins with a look at the link and is
/// finished when the next one begins.
pub open spec fn rounds(events: Seq<WifiEvent>) -> nat
    decreases events.len(),
{
    if events.len() == 0 {
        0
    } else if reached(events) is CheckLink {
        rounds(events.drop_last()) + 1
    } else {
        rounds(events.drop_last())
    }
}

/// Whether in this round the link was found to be down, or its loss was awaited.
pub open spec fn link_gone(events: Seq<WifiEvent>) -> bool
    decreases events.len(),
{
    events.len() > 0 && match reached(events.drop_last()) {
        WifiStep::CheckLink => events.last() == (WifiEvent::Link { connected: false }),
        WifiStep::AwaitDisconnect => true,
        _ => link_gone(events.drop_last()),
    }
}

/// Every finished round made exactly one attempt to connect, and a round that is not finished
/// made none before it came to its attempt.
pub proof fn lemma_one_attempt_per_round(events: Seq<WifiEvent>)
    requires
        possible(events),
    ensures
        attempts(events) == rounds(events) + (if reached(events) is Connect || reached(
            events,
        ) is BackOff {
            1nat
        } else {
            0
        }),
    decreases events.len(),
{
    if events.len() > 0 {
        lemma_one_attempt_per_round(events.drop_last());
    }
}

/// Connecting is tried only in a round in which the link was found to be down, or in which its
/// loss was awaited.
pub proof fn lemma_attempt_needs_lost_link(events: Seq<WifiEvent>)
    requires
        possible(events),
    ensures
        reached(events) is Connect ==> link_gone(events),
{
    lemma_link_is_gone(events);
}

proof fn lemma_link_is_gone(events: Seq<WifiEvent>)
    requires
        possible(events),
    ensures
        !(reached(events) is CheckLink) && !(reached(events) is AwaitDisconnect) ==> link_gone(events),
    decreases events.len(),
{
    if events.len() > 0 {
        lemma_link_is_gone(events.drop_last());
    }
}

/// The work never ends: whatever the controller says of the link and of itself, whatever a scan
/// finds, and whether or not connecting succeeds, there is a next step, as long as configuring,
/// starting and scanning do not fail.
pub proof fn lemma_work_never_ends(
    events: Seq<WifiEvent>,
    connected: bool,
    started: Result<bool, ()>,
    networks: Vec<String>,
)
    requires
        possible(events),
    ensures
        match reached(events) {
            WifiStep::CheckLink => possible(events.push(WifiEvent::Link { connected })),
            WifiStep::CheckStarted => possible(events.push(WifiEvent::Started { started })),
            WifiStep::Scan { .. } => possible(events.push(WifiEvent::Scanned { networks })),
            WifiStep::Connect => possible(events.push(WifiEvent::Done)) && possible(
                events.push(WifiEvent::Failed),
            ),
            _ => possible(events.push(WifiEvent::Done)),
        },
{
    assert forall|event: WifiEvent| reached(events).allows(event) implies #[trigger] possible(
        events.push(event),
    ) by {
        assert(events.push(event).drop_last() == events);
    }
}

/// Whether two runs differ in nothing but the networks that the scans found.
pub open spec fn same_but_for_scans(events: Seq<WifiEvent>, others: Seq<WifiEvent>) -> bool {
    &&& events.len() == others.len()
    &&& forall|i: int|
        0 <= i < events.len() ==> (#[trigger] events[i] == others[i] || events[i] is Scanned
            && others[i] is Scanned)
}

/// What a scan finds is only reported: two runs that differ in nothing else go through the same
/// steps, with the same waiting times.
pub proof fn lemma_scans_are_only_reported(events: Seq<WifiEvent>, others: Seq<WifiEvent>)
    requires
        possible(events),
        same_but_for_scans(events, others),
    ensures
        possible(others),
        forall|end: int|
            0 <= end <= events.len() ==> reached(#[trigger] others.take(end)) == reached(
                events.take(end),
            ),
    decreases events.len(),
{
    assert(events.take(events.len() as int) == events);
    assert(others.take(others.len() as int) == others);
    if events.len() > 0 {
        let before = events.drop_last();
        let others_before = others.drop_last();
        assert forall|i: int| 0 <= i < before.len() implies (#[trigger] before[i] == others_before[i]
            || before[i] is Scanned && others_before[i] is Scanned) by {
            assert(before[i] == events[i]);
        }
        lemma_scans_are_only_reported(before, others_before);
        assert(before.take(before.len() as int) == before);
        assert(others_before.take(before.len() as int) == others_before);
        assert(events.last() == events[events.len() - 1]);
        assert forall|end: int| 0 <= end <= events.len() implies reached(#[trigger] others.take(end))
            == reached(events.take(end)) by {
            if end < events.len() {
                assert(before.take(end) == events.take(end));
                assert(others_before.take(end) == others.take(end));
            }
        }
    }
}

/// Connecting is tried only with a controller that says that it is started, or directly after it
/// was configured and started and a scan was made.
pub proof fn lemma_controller_is_started_before_connecting(events: Seq<WifiEvent>)
    requires
        possible(events),
        reached(events) is Connect,
    ensures
        events.len() > 0,
        events.last() == (WifiEvent::Started { started: Ok(true) }) || {
            let scanning = events.drop_last();
            let starting = scanning.drop_last();
            let configuring = starting.drop_last();
            &&& events.len() > 3
            &&& reached(configuring) is Configure
            &&& starting.last() is Done
            &&& reached(starting) is Start
            &&& scanning.last() is Done
            &&& reached(scanning) is Scan
            &&& events.last() is Scanned
        },
{
    reveal_with_fuel(possible, 4);
    reveal_with_fuel(reached, 4);
}

/// Before a new connection is made where there was one, the link has been lost and the full
/// waiting time has passed since; where there was none, there is nothing to wait for.
pub proof fn lemma_lost_link_is_given_time(events: Seq<WifiEvent>)
    requires
        possible(events),
    ensures
        reached(events) is Connect ==> waited(events) == (if linked(events) {
            RETRY_MILLIS as nat
        } else {
            0
        }),
{
    lemma_waiting(events);
}

proof fn lemma_waiting(events: Seq<WifiEvent>)
    requires
        possible(events),
    ensures
        match reached(events) {
            WifiStep::CheckLink | WifiStep::BackOff { .. } => true,
            WifiStep::AwaitDisconnect => linked(events) && waited(events) == 0,
            WifiStep::Settle { millis } => linked(events) && waited(events) == 0 && millis
                == RETRY_MILLIS,
            _ => waited(events) == (if linked(events) {
                RETRY_MILLIS as nat
            } else {
                0
            }),
        },
    decreases events.len(),
{
    if events.len() > 0 {
        lemma_waiting(events.drop_last());
    }
}

/// After a failed attempt the full waiting time passes before anything else is done, and then
/// everything begins again; after a successful one it begins again at once.
pub proof fn lemma_failed_attempt_is_given_time(events: Seq<WifiEvent>)
    requires
        possible(events),
        reached(events) is Connect,
    ensures
        ({
            let failed = events.push(WifiEvent::Failed);
            &&& possible(failed)
            &&& reached(failed) == WifiStep::BackOff { millis: RETRY_MILLIS }
            &&& possible(failed.push(WifiEvent::Done))
            &&& reached(failed.push(WifiEvent::Done)) is CheckLink
            &&& forall|other: WifiEvent| #[trigger]
                possible(failed.push(other)) ==> other is Done
            &&& reached(events.push(WifiEvent::Done)) is CheckLink
        }),
{
    reveal_with_fuel(possible, 3);
    reveal_with_fuel(reached, 3);
    let failed = events.push(WifiEvent::Failed);
    assert(failed.drop_last() == events);
    assert(events.push(WifiEvent::Done).drop_last() == events);
    assert forall|other: WifiEvent| #[trigger] possible(failed.push(other)) implies other is Done by {
        assert(failed.push(other).drop_last() == failed);
    }
    assert(failed.push(WifiEvent::Done).drop_last() == failed);
}

proof fn lemma_next(events: Seq<WifiEvent>, event: WifiEvent)
    requires
        possible(events),
        reached(events).allows(event),
    ensures
        possible(events.push(event)),
        reached(events.push(event)) == reached(events).followed_by(event),
{
    assert(events.push(event).drop_last() == events);
}

/// What can come of each step, and nothing else can: in particular every answer of the controller
/// and every result of a scan, and a failure of nothing but connecting.
pub proof fn lemma_what_can_come_of_a_step(step: WifiStep, event: WifiEvent)
    ensures
        step.allows(event) <==> match event {
            WifiEvent::Link { .. } => step is CheckLink,
            WifiEvent::Started { .. } => step is CheckStarted,
            WifiEvent::Scanned { .. } => step is Scan,
            WifiEvent::Failed => step is Connect,
            WifiEvent::Done => !(step is CheckLink || step is CheckStarted || step is Scan),
        },
{
}

/// A probe without a link gets to the attempt to connect: at once with a controller that says that
/// it is started, and with any other answer, a failure to tell among them, after the controller
/// was configured and started and up to ten access points were reported, whatever they are.
pub proof fn lemma_probe_gets_to_connecting(
    events: Seq<WifiEvent>,
    started: Result<bool, ()>,
    networks: Vec<String>,
)
    requires
        possible(events),
        reached(events) is CheckLink,
    ensures
        ({
            let down = events.push(WifiEvent::Link { connected: false });
            let answered = down.push(WifiEvent::Started { started });
            let configured = answered.push(WifiEvent::Done);
            let running = configured.push(WifiEvent::Done);
            let scanned = running.push(WifiEvent::Scanned { networks });
            &&& possible(answered)
            &&& reached(down) is CheckStarted
            &&& started == Ok::<bool, ()>(true) ==> reached(answered) is Connect
            &&& started != Ok::<bool, ()>(true) ==> {
                &&& reached(answered) is Configure
                &&& reached(configured) is Start
                &&& reached(running) == WifiStep::Scan { limit: 10 }
                &&& possible(scanned)
                &&& reached(scanned) is Connect
            }
        }),
{
    let down = events.push(WifiEvent::Link { connected: false });
    let answered = down.push(WifiEvent::Started { started });
    lemma_next(events, WifiEvent::Link { connected: false });
    lemma_next(down, WifiEvent::Started { started });
    if started != Ok::<bool, ()>(true) {
        let configured = answered.push(WifiEvent::Done);
        let running = configured.push(WifiEvent::Done);
        lemma_next(answered, WifiEvent::Done);
        lemma_next(configured, WifiEvent::Done);
        lemma_next(running, WifiEvent::Scanned { networks });
    }
}

/// A probe with a link waits for its loss, then for five seconds, and then asks the controller.
pub proof fn lemma_link_is_kept(events: Seq<WifiEvent>)
    requires
        possible(events),
        reached(events) is CheckLink,
    ensures
        ({
            let up = events.push(WifiEvent::Link { connected: true });
            let lost = up.push(WifiEvent::Done);
            let settled = lost.push(WifiEvent::Done);
            &&& reached(up) is AwaitDisconnect
            &&& reached(lost) == WifiStep::Settle { millis: 5000 }
            &&& possible(settled)
            &&& reached(settled) is CheckStarted
        }),
{
    let up = events.push(WifiEvent::Link { connected: true });
    let lost = up.push(WifiEvent::Done);
    lemma_next(events, WifiEvent::Link { connected: true });
    lemma_next(up, WifiEvent::Done);
    lemma_next(lost, WifiEvent::Done);
}

/// The same holds of every step, whether or not a run reaches it: what comes next for each answer
/// to it.
pub proof fn lemma_next_steps(step: WifiStep, event: WifiEvent)
    requires
        step.allows(event),
    ensures
        event matches WifiEvent::Link { connected } ==> step.followed_by(event) == (if connected {
            WifiStep::AwaitDisconnect
        } else {
            WifiStep::CheckStarted
        }),
        step is AwaitDisconnect ==> step.followed_by(event) == (WifiStep::Settle { millis: 5000 }),
        step is Settle ==> step.followed_by(event) is CheckStarted,
        event matches WifiEvent::Started { started } ==> step.followed_by(event) == (match started {
            Ok(true) => WifiStep::Connect,
            _ => WifiStep::Configure,
        }),
        step is Configure ==> step.followed_by(event) is Start,
        step is Start ==> step.followed_by(event) == (WifiStep::Scan { limit: 10 }),
        step is Scan ==> step.followed_by(event) is Connect,
        step is Connect && event is Done ==> step.followed_by(event) is CheckLink,
        step is Connect && event is Failed ==> step.followed_by(event) == (WifiStep::BackOff {
            millis: 5000,
        }),
        step is BackOff ==> step.followed_by(event) is CheckLink,
{
}

} // verus!
