//! The probe itself: it makes sure of its sensor, brings up the network and then measures over
//! and over.

use crate::message::MESSAGE_CAPACITY;
use vstd::prelude::*;

verus! {

/// The number of milliseconds between two looks at the state of the network.
pub const POLL_MILLIS: u64 = 500;

/// The number of milliseconds that pass before each measurement.
pub const SETTLE_MILLIS: u64 = 1000;

/// The number of milliseconds that pass after each measurement.
pub const REST_MILLIS: u64 = 3000;

/// The number that two random words make up, the first one in front.
pub open spec fn seed_of(first: u32, second: u32) -> int {
    first * 0x1_0000_0000 + second
}

/// The seed of the network stack, made of two random words.
pub fn network_seed(first: u32, second: u32) -> (seed: u64)
    ensures
        seed == seed_of(first, second),
        seed == first * 0x1_0000_0000 + second,
{
    let high: u64 = first as u64;
    let low: u64 = second as u64;
    assert(high << 32 | low == high * 0x1_0000_0000 + low) by (bit_vector)
        requires
            high <= 0xffff_ffff,
            low <= 0xffff_ffff,
    ;
    high << 32 | low
}

/// No randomness is lost: different words make up different seeds.
pub proof fn lemma_seed_keeps_both_words(first: u32, second: u32, third: u32, fourth: u32)
    requires
        seed_of(first, second) == seed_of(third, fourth),
    ensures
        first == third,
        second == fourth,
{
}

/// Who made the sensor.
#[derive(Clone, Copy, Debug, PartialEq, Eq, Structural)]
pub enum Manufacturer {
    /// Texas Instruments, the maker of the sensor that the probe is built for.
    TexasInstruments,
    /// Another maker.
    Other { id: u16 },
}

/// What is to be done next.
#[derive(Debug, PartialEq, Eq)]
pub enum ProbeStep {
    /// Ask the sensor who made it.
    ReadManufacturer,
    /// Ask the sensor for its serial number.
    ReadSerialNumber,
    /// Read, and clear, the status of the sensor.
    ReadStatus,
    /// Start the tasks that run the network.
    StartNetwork,
    /// Find out whether the link is up.
    CheckLink,
    /// Wait before looking at the link again.
    AwaitLink { millis: u64 },
    /// Find out whether the probe has been given an address.
    CheckAddress,
    /// Wait before looking for an address again.
    AwaitAddress { millis: u64 },
    /// Start the tasks that update the firmware and talk to the broker.
    StartTasks,
    /// Wait before a measurement.
    Settle { millis: u64 },
    /// Read, and clear, the status of the sensor before a measurement.
    CheckStatus,
    /// Measure.
    Measure,
    /// Hand the reading to the task that talks to the broker.
    Send { reading: heapless::String<MESSAGE_CAPACITY> },
    /// Wait after a measurement.
    Rest { millis: u64 },
    /// Give up. Nothing comes after this.
    Stop,
}

/// What came of a step.
pub enum ProbeEvent {
    /// The step was carried out.
    Done,
    /// The step could not be carried out.
    Failed,
    /// Who made the sensor.
    Made { manufacturer: Manufacturer },
    /// Whether the link is up.
    Link { up: bool },
    /// Whether the probe has been given an address.
    Address { assigned: bool },
    /// What was measured.
    Measured { reading: heapless::String<MESSAGE_CAPACITY> },
}

impl ProbeStep {
    /// Whether the event can come of this step.
    pub open spec fn allows(self, event: ProbeEvent) -> bool {
        match self {
            ProbeStep::ReadManufacturer => event is Made || event is Failed,
            ProbeStep::ReadSerialNumber | ProbeStep::ReadStatus | ProbeStep::CheckStatus => event is Done
                || event is Failed,
            ProbeStep::CheckLink => event is Link,
            ProbeStep::CheckAddress => event is Address,
            ProbeStep::Measure => event is Measured,
            ProbeStep::Stop => false,
            _ => event is Done,
        }
    }

    /// The step after this one.
    pub open spec fn followed_by(self, event: ProbeEvent) -> ProbeStep {
        match event {
            ProbeEvent::Failed => ProbeStep::Stop,
            ProbeEvent::Made { manufacturer: Manufacturer::TexasInstruments } => ProbeStep::ReadSerialNumber,
            ProbeEvent::Made { .. } => ProbeStep::Stop,
            ProbeEvent::Link { up } => if up {
                ProbeStep::CheckAddress
            } else {
                ProbeStep::AwaitLink { millis: POLL_MILLIS }
            },
            ProbeEvent::Address { assigned } => if assigned {
                ProbeStep::StartTasks
            } else {
                ProbeStep::AwaitAddress { millis: POLL_MILLIS }
            },
            ProbeEvent::Measured { reading } => ProbeStep::Send { reading },
            ProbeEvent::Done => match self {
                ProbeStep::ReadSerialNumber => ProbeStep::ReadStatus,
                ProbeStep::ReadStatus => ProbeStep::StartNetwork,
                ProbeStep::StartNetwork | ProbeStep::AwaitLink { .. } => ProbeStep::CheckLink,
                ProbeStep::AwaitAddress { .. } => ProbeStep::CheckAddress,
                ProbeStep::StartTasks | ProbeStep::Rest { .. } => ProbeStep::Settle {
                    millis: SETTLE_MILLIS,
                },
                ProbeStep::Settle { .. } => ProbeStep::CheckStatus,
                ProbeStep::CheckStatus => ProbeStep::Measure,
                ProbeStep::Send { .. } => ProbeStep::Rest { millis: REST_MILLIS },
                _ => ProbeStep::Stop,
            },
        }
    }

    /// Whether the probe is measuring over and over.
    pub open spec fn is_measuring(self) -> bool {
        self is Settle || self is CheckStatus || self is Measure || self is Send || self is Rest
    }

    /// The step that everything begins with.
    pub fn new() -> (step: ProbeStep)
        ensures
            step == ProbeStep::ReadManufacturer,
    {
        ProbeStep::ReadManufacturer
    }

    /// Whether the event can come of this step.
    pub fn accepts(&self, event: &ProbeEvent) -> (accepts: bool)
        ensures
            accepts == self.allows(*event),
    {
        match self {
            ProbeStep::ReadManufacturer => match event {
                ProbeEvent::Made { .. } | ProbeEvent::Failed => true,
                _ => false,
            },
            ProbeStep::ReadSerialNumber | ProbeStep::ReadStatus | ProbeStep::CheckStatus => match event {
                ProbeEvent::Done | ProbeEvent::Failed => true,
                _ => false,
            },
            ProbeStep::CheckLink => match event {
                ProbeEvent::Link { .. } => true,
                _ => false,
            },
            ProbeStep::CheckAddress => match event {
                ProbeEvent::Address { .. } => true,
                _ => false,
            },
            ProbeStep::Measure => match event {
                ProbeEvent::Measured { .. } => true,
                _ => false,
            },
            ProbeStep::Stop => false,
            _ => match event {
                ProbeEvent::Done => true,
                _ => false,
            },
        }
    }

    /// The step after this one.
    pub fn after(self, event: ProbeEvent) -> (step: ProbeStep)
        requires
            self.allows(event),
        ensures
            step == self.followed_by(event),
    {
        match self {
            ProbeStep::ReadManufacturer => match event {
                ProbeEvent::Made { manufacturer: Manufacturer::TexasInstruments } => ProbeStep::ReadSerialNumber,
                _ => ProbeStep::Stop,
            },
            ProbeStep::ReadSerialNumber => match event {
                ProbeEvent::Done => ProbeStep::ReadStatus,
                _ => ProbeStep::Stop,
            },
            ProbeStep::ReadStatus => match event {
                ProbeEvent::Done => ProbeStep::StartNetwork,
                _ => ProbeStep::Stop,
            },
            ProbeStep::StartNetwork => ProbeStep::CheckLink,
            ProbeStep::CheckLink => match event {
                ProbeEvent::Link { up: true } => ProbeStep::CheckAddress,
                _ => ProbeStep::AwaitLink { millis: POLL_MILLIS },
            },
            ProbeStep::AwaitLink { .. } => ProbeStep::CheckLink,
            ProbeStep::CheckAddress => match event {
                ProbeEvent::Address { assigned: true } => ProbeStep::StartTasks,
                _ => ProbeStep::AwaitAddress { millis: POLL_MILLIS },
            },
            ProbeStep::AwaitAddress { .. } => ProbeStep::CheckAddress,
            ProbeStep::StartTasks => ProbeStep::Settle { millis: SETTLE_MILLIS },
            ProbeStep::Settle { .. } => ProbeStep::CheckStatus,
            ProbeStep::CheckStatus => match event {
                ProbeEvent::Done => ProbeStep::Measure,
                _ => ProbeStep::Stop,
            },
            ProbeStep::Measure => match event {
                ProbeEvent::Measured { reading } => ProbeStep::Send { reading },
                _ => ProbeStep::Stop,
            },
            ProbeStep::Send { .. } => ProbeStep::Rest { millis: REST_MILLIS },
            ProbeStep::Rest { .. } => ProbeStep::Settle { millis: SETTLE_MILLIS },
            ProbeStep::Stop => ProbeStep::Stop,
        }
    }
}

/// The step that is reached through the events, from the first step on.
pub open spec fn reached(events: Seq<ProbeEvent>) -> ProbeStep
    decreases events.len(),
{
    if events.len() == 0 {
        ProbeStep::ReadManufacturer
    } else {
        reached(events.drop_last()).followed_by(events.last())
    }
}

/// Whether the events can come one after the other, from the first step on.
pub open spec fn possible(events: Seq<ProbeEvent>) -> bool
    decreases events.len(),
{
    events.len() > 0 ==> possible(events.drop_last()) && reached(events.drop_last()).allows(
        events.last(),
    )
}

/// How often the network is started along the events.
pub open spec fn network_starts(events: Seq<ProbeEvent>) -> nat
    decreases events.len(),
{
    if events.len() == 0 {
        0
    } else if reached(events) is StartNetwork {
        network_starts(events.drop_last()) + 1
    } else {
        network_starts(events.drop_last())
    }
}

/// How often the tasks are started along the events.
pub open spec fn task_starts(events: Seq<ProbeEvent>) -> nat
    decreases events.len(),
{
    if events.len() == 0 {
        0
    } else if reached(events) is StartTasks {
        task_starts(events.drop_last()) + 1
    } else {
        task_starts(events.drop_last())
    }
}

/// How often the probe measures along the events.
pub open spec fn measurements(events: Seq<ProbeEvent>) -> nat
    decreases events.len(),
{
    if events.len() == 0 {
        0
    } else if reached(events) is Measure {
        measurements(events.drop_last()) + 1
    } else {
        measurements(events.drop_last())
    }
}

/// The readings that were measured, in their order.
pub open spec fn measured(events: Seq<ProbeEvent>) -> Seq<heapless::String<MESSAGE_CAPACITY>>
    decreases events.len(),
{
    if events.len() == 0 {
        Seq::empty()
    } else {
        match events.last() {
            ProbeEvent::Measured { reading } => measured(events.drop_last()).push(reading),
            _ => measured(events.drop_last()),
        }
    }
}

/// The readings that the steps along the events hand over, in their order.
pub open spec fn sent(events: Seq<ProbeEvent>) -> Seq<heapless::String<MESSAGE_CAPACITY>>
    decreases events.len(),
{
    if events.len() == 0 {
        Seq::empty()
    } else {
        match reached(events) {
            ProbeStep::Send { reading } => sent(events.drop_last()).push(reading),
            _ => sent(events.drop_last()),
        }
    }
}

/// The number of milliseconds waited since the last measurement.
pub open spec fn waited(events: Seq<ProbeEvent>) -> nat
    decreases events.len(),
{
    if events.len() == 0 {
        0
    } else {
        let before = events.drop_last();
        match reached(before) {
            ProbeStep::Measure => 0,
            ProbeStep::AwaitLink { millis } => waited(before) + millis as nat,
            ProbeStep::AwaitAddress { millis } => waited(before) + millis as nat,
            ProbeStep::Settle { millis } => waited(before) + millis as nat,
            ProbeStep::Rest { millis } => waited(before) + millis as nat,
            _ => waited(before),
        }
    }
}

/// The network is started only once the sensor has said that Texas Instruments made it, and has
/// given its serial number and its status.
pub proof fn lemma_network_needs_sensor(events: Seq<ProbeEvent>)
    requires
        possible(events),
        !(reached(events) is ReadManufacturer),
        !(reached(events) is ReadSerialNumber),
        !(reached(events) is ReadStatus),
        !(reached(events) is Stop),
    ensures
        events.len() >= 3,
        events[0] == (ProbeEvent::Made { manufacturer: Manufacturer::TexasInstruments }),
        events[1] is Done,
        events[2] is Done,
    decreases events.len(),
{
    reveal_with_fuel(possible, 4);
    reveal_with_fuel(reached, 4);
    let before = events.drop_last();
    if !(reached(before) is ReadStatus) {
        lemma_network_needs_sensor(before);
    } else {
        let two = before.drop_last();
        assert(reached(two) is ReadSerialNumber);
        assert(reached(two.drop_last()) is ReadManufacturer);
        lemma_manufacturer_is_read_first(two.drop_last());
    }
}

proof fn lemma_manufacturer_is_read_first(events: Seq<ProbeEvent>)
    requires
        possible(events),
        reached(events) is ReadManufacturer,
    ensures
        events.len() == 0,
{
}

/// The tasks are started only where the probe has just been given an address, the network is
/// started before them, and each of the two is started once at most.
pub proof fn lemma_tasks_are_started_once(events: Seq<ProbeEvent>)
    requires
        possible(events),
    ensures
        reached(events) is StartTasks ==> events.len() > 0 && events.last()
            == (ProbeEvent::Address { assigned: true }),
        task_starts(events) <= network_starts(events) <= 1,
        reached(events).is_measuring() ==> task_starts(events) == 1,
{
    lemma_starts(events);
}

proof fn lemma_starts(events: Seq<ProbeEvent>)
    requires
        possible(events),
    ensures
        task_starts(events) <= network_starts(events) <= 1,
        match reached(events) {
            ProbeStep::ReadManufacturer | ProbeStep::ReadSerialNumber | ProbeStep::ReadStatus => network_starts(events)
                == 0,
            ProbeStep::Stop => true,
            ProbeStep::StartNetwork | ProbeStep::CheckLink | ProbeStep::AwaitLink {
                ..
            } | ProbeStep::CheckAddress | ProbeStep::AwaitAddress { .. } => network_starts(events) == 1
                && task_starts(events) == 0,
            _ => task_starts(events) == 1,
        },
    decreases events.len(),
{
    if events.len() > 0 {
        lemma_starts(events.drop_last());
    }
}

/// Every measurement comes directly after a look at the status of the sensor that succeeded.
pub proof fn lemma_measuring_needs_status(events: Seq<ProbeEvent>)
    requires
        possible(events),
        reached(events) is Measure,
    ensures
        events.len() > 0,
        events.last() is Done,
        reached(events.drop_last()) is CheckStatus,
{
}

/// Between a measurement and the next one the probe waits for four seconds.
pub proof fn lemma_measurements_are_spaced(events: Seq<ProbeEvent>)
    requires
        possible(events),
        reached(events) is Measure,
        measurements(events) > 1,
    ensures
        waited(events) == 4000,
{
    lemma_spacing(events);
}

proof fn lemma_spacing(events: Seq<ProbeEvent>)
    requires
        possible(events),
    ensures
        match reached(events) {
            ProbeStep::Settle { millis } => millis == SETTLE_MILLIS && (measurements(events) > 0
                ==> waited(events) == REST_MILLIS),
            ProbeStep::CheckStatus => measurements(events) > 0 ==> waited(events) == REST_MILLIS
                + SETTLE_MILLIS,
            ProbeStep::Measure => measurements(events) > 1 ==> waited(events) == REST_MILLIS
                + SETTLE_MILLIS,
            ProbeStep::Send { .. } => waited(events) == 0,
            ProbeStep::Rest { millis } => millis == REST_MILLIS && waited(events) == 0,
            ProbeStep::Stop => true,
            _ => measurements(events) == 0,
        },
    decreases events.len(),
{
    if events.len() > 0 {
        lemma_spacing(events.drop_last());
    }
}

/// Every measurement gives one reading, which is handed over once, unchanged and before the next
/// measurement; nothing else is handed over.
pub proof fn lemma_readings_are_sent(events: Seq<ProbeEvent>)
    requires
        possible(events),
    ensures
        sent(events) == measured(events),
        measurements(events) == measured(events).len() + (if reached(events) is Measure {
            1nat
        } else {
            0
        }),
    decreases events.len(),
{
    if events.len() > 0 {
        lemma_readings_are_sent(events.drop_last());
    }
}

/// The probe gives up where the sensor does not answer or another maker made it, for no other
/// reason, and for good.
pub proof fn lemma_probe_gives_up_for_good(events: Seq<ProbeEvent>, event: ProbeEvent)
    requires
        possible(events),
        events.len() > 0,
    ensures
        reached(events) is Stop <==> {
            ||| events.last() is Failed
            ||| events.last() matches ProbeEvent::Made { manufacturer } && manufacturer
                != Manufacturer::TexasInstruments
        },
        reached(events) is Stop ==> !possible(events.push(event)),
{
    assert(events.push(event).drop_last() == events);
}

proof fn lemma_next(events: Seq<ProbeEvent>, event: ProbeEvent)
    requires
        possible(events),
        reached(events).allows(event),
    ensures
        possible(events.push(event)),
        reached(events.push(event)) == reached(events).followed_by(event),
{
    assert(events.push(event).drop_last() == events);
}

/// Both words can be read off the seed again.
pub proof fn lemma_seed_holds_both_words(first: u32, second: u32)
    ensures
        seed_of(first, second) / 0x1_0000_0000 == first,
        seed_of(first, second) % 0x1_0000_0000 == second,
{
}

/// What can come of each step, and nothing else can: in particular every maker, every state of
/// the link and of the address, every reading, and a failure of everything that only asks the
/// sensor.
pub proof fn lemma_what_can_come_of_a_step(step: ProbeStep, event: ProbeEvent)
    ensures
        step.allows(event) <==> match event {
            ProbeEvent::Made { .. } => step is ReadManufacturer,
            ProbeEvent::Link { .. } => step is CheckLink,
            ProbeEvent::Address { .. } => step is CheckAddress,
            ProbeEvent::Measured { .. } => step is Measure,
            ProbeEvent::Failed => step is ReadManufacturer || step is ReadSerialNumber
                || step is ReadStatus || step is CheckStatus,
            ProbeEvent::Done => !(step is ReadManufacturer || step is CheckLink || step is CheckAddress
                || step is Measure || step is Stop),
        },
{
}

/// Every measurement is accepted and handed over: any reading is sent as it is, and after the two
/// waiting times and another look at the status of the sensor the probe measures again.
pub proof fn lemma_every_measurement_is_sent(
    events: Seq<ProbeEvent>,
    reading: heapless::String<MESSAGE_CAPACITY>,
)
    requires
        possible(events),
        reached(events) is Measure,
    ensures
        ({
            let sending = events.push(ProbeEvent::Measured { reading });
            let resting = sending.push(ProbeEvent::Done);
            let settling = resting.push(ProbeEvent::Done);
            let checking = settling.push(ProbeEvent::Done);
            let measuring = checking.push(ProbeEvent::Done);
            &&& ProbeStep::Measure.allows(ProbeEvent::Measured { reading })
            &&& possible(sending)
            &&& reached(sending) == ProbeStep::Send { reading }
            &&& reached(resting) == ProbeStep::Rest { millis: 3000 }
            &&& reached(settling) == ProbeStep::Settle { millis: 1000 }
            &&& reached(checking) is CheckStatus
            &&& possible(measuring)
            &&& reached(measuring) is Measure
        }),
{
    let sending = events.push(ProbeEvent::Measured { reading });
    let resting = sending.push(ProbeEvent::Done);
    let settling = resting.push(ProbeEvent::Done);
    let checking = settling.push(ProbeEvent::Done);
    lemma_next(events, ProbeEvent::Measured { reading });
    lemma_next(sending, ProbeEvent::Done);
    lemma_next(resting, ProbeEvent::Done);
    lemma_next(settling, ProbeEvent::Done);
    lemma_next(checking, ProbeEvent::Done);
}

/// A sensor made by Texas Instruments that answers three questions has the network started, and a
/// network that is up and has an address has the tasks started, after which the probe measures;
/// as long as there is no link or no address, it looks again every half second.
pub proof fn lemma_probe_starts_up(events: Seq<ProbeEvent>)
    requires
        possible(events),
    ensures
        reached(events) is ReadManufacturer ==> {
            let made = events.push(
                (ProbeEvent::Made { manufacturer: Manufacturer::TexasInstruments }),
            );
            let numbered = made.push(ProbeEvent::Done);
            let ready = numbered.push(ProbeEvent::Done);
            let started = ready.push(ProbeEvent::Done);
            &&& reached(made) is ReadSerialNumber
            &&& reached(numbered) is ReadStatus
            &&& reached(ready) is StartNetwork
            &&& possible(started)
            &&& reached(started) is CheckLink
        },
        reached(events) is CheckLink ==> {
            let up = events.push(ProbeEvent::Link { up: true });
            let down = events.push(ProbeEvent::Link { up: false });
            &&& possible(up)
            &&& reached(up) is CheckAddress
            &&& reached(down) == ProbeStep::AwaitLink { millis: 500 }
            &&& possible(down.push(ProbeEvent::Done))
            &&& reached(down.push(ProbeEvent::Done)) is CheckLink
        },
        reached(events) is CheckAddress ==> {
            let assigned = events.push(ProbeEvent::Address { assigned: true });
            let missing = events.push(ProbeEvent::Address { assigned: false });
            let settling = assigned.push(ProbeEvent::Done);
            let measuring = settling.push(ProbeEvent::Done).push(ProbeEvent::Done);
            &&& reached(assigned) is StartTasks
            &&& reached(settling) == ProbeStep::Settle { millis: 1000 }
            &&& possible(measuring)
            &&& reached(measuring) is Measure
            &&& reached(missing) == ProbeStep::AwaitAddress { millis: 500 }
            &&& possible(missing.push(ProbeEvent::Done))
            &&& reached(missing.push(ProbeEvent::Done)) is CheckAddress
        },
{
    if reached(events) is ReadManufacturer {
        let made = events.push((ProbeEvent::Made { manufacturer: Manufacturer::TexasInstruments }));
        let numbered = made.push(ProbeEvent::Done);
        let ready = numbered.push(ProbeEvent::Done);
        lemma_next(events, (ProbeEvent::Made { manufacturer: Manufacturer::TexasInstruments }));
        lemma_next(made, ProbeEvent::Done);
        lemma_next(numbered, ProbeEvent::Done);
        lemma_next(ready, ProbeEvent::Done);
    }
    if reached(events) is CheckLink {
        lemma_next(events, ProbeEvent::Link { up: true });
        lemma_next(events, ProbeEvent::Link { up: false });
        lemma_next(events.push(ProbeEvent::Link { up: false }), ProbeEvent::Done);
    }
    if reached(events) is CheckAddress {
        let assigned = events.push(ProbeEvent::Address { assigned: true });
        let settling = assigned.push(ProbeEvent::Done);
        lemma_next(events, ProbeEvent::Address { assigned: true });
        lemma_next(assigned, ProbeEvent::Done);
        lemma_next(settling, ProbeEvent::Done);
        lemma_next(settling.push(ProbeEvent::Done), ProbeEvent::Done);
        lemma_next(events, ProbeEvent::Address { assigned: false });
        lemma_next(events.push(ProbeEvent::Address { assigned: false }), ProbeEvent::Done);
    }
}

/// The same holds of every step, whether or not a run reaches it: what comes next for each answer
/// to it.
pub proof fn lemma_next_steps(step: ProbeStep, event: ProbeEvent)
    requires
        step.allows(event),
    ensures
        event is Failed ==> step.followed_by(event) is Stop,
        event matches ProbeEvent::Made { manufacturer } ==> step.followed_by(event) == (
        match manufacturer {
            Manufacturer::TexasInstruments => ProbeStep::ReadSerialNumber,
            Manufacturer::Other { .. } => ProbeStep::Stop,
        }),
        step is ReadSerialNumber && event is Done ==> step.followed_by(event) is ReadStatus,
        step is ReadStatus && event is Done ==> step.followed_by(event) is StartNetwork,
        step is StartNetwork ==> step.followed_by(event) is CheckLink,
        event matches ProbeEvent::Link { up } ==> step.followed_by(event) == (if up {
            ProbeStep::CheckAddress
        } else {
            ProbeStep::AwaitLink { millis: 500 }
        }),
        step is AwaitLink ==> step.followed_by(event) is CheckLink,
        event matches ProbeEvent::Address { assigned } ==> step.followed_by(event) == (if assigned {
            ProbeStep::StartTasks
        } else {
            ProbeStep::AwaitAddress { millis: 500 }
        }),
        step is AwaitAddress ==> step.followed_by(event) is CheckAddress,
        step is StartTasks || step is Rest ==> step.followed_by(event) == (ProbeStep::Settle {
            millis: 1000,
        }),
        step is Settle ==> step.followed_by(event) is CheckStatus,
        step is CheckStatus && event is Done ==> step.followed_by(event) is Measure,
        event matches ProbeEvent::Measured { reading } ==> step.followed_by(event) == (
        ProbeStep::Send { reading }),
        step is Send ==> step.followed_by(event) == (ProbeStep::Rest { millis: 3000 }),
{
}

} // verus!
