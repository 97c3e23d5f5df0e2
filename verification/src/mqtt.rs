//! The conversation with the MQTT broker: readings of the probe are published, and messages
//! that ask for an update are passed on.

use crate::message::MESSAGE_CAPACITY;
use crate::probe::{lemma_readings_are_sent, measured, sent, ProbeEvent};
use vstd::prelude::*;

verus! {

/// The TCP port of the broker.
pub const BROKER_PORT: u16 = 1883;

/// The number of seconds after which a silent connection is given up.
pub const SOCKET_TIMEOUT_SECS: u64 = 10;

/// The version of MQTT that is spoken.
pub const PROTOCOL_VERSION: u8 = 5;

/// The name by which the probe introduces itself to the broker.
pub const CLIENT_ID: &'static str = "clientId-rs-testing";

/// The highest quality of service at which the probe subscribes.
pub const MAX_SUBSCRIBE_QOS: u8 = 1;

/// The length of the largest packet that the broker may send.
pub const MAX_PACKET_SIZE: u32 = 100;

/// The length of the buffers in which packets are put together and taken apart.
pub const PACKET_BUFFER_LEN: usize = 80;

/// The largest number of properties of a packet.
pub const MAX_PROPERTIES: usize = 5;

/// What the numbers of the packets are counted up from.
pub const RNG_SEED: u64 = 20000;

/// Where the broker is and how to log in there.
#[derive(Clone, Copy, Debug)]
pub struct Broker<'a> {
    /// The IPv4 address.
    pub address: [u8; 4],
    /// The name of the user.
    pub username: &'a str,
    /// The password of the user.
    pub password: &'a str,
}

/// The end of the TCP connection that is to be opened.
#[derive(Clone, Copy, Debug)]
pub struct Endpoint {
    /// The IPv4 address to connect to.
    pub address: [u8; 4],
    /// The TCP port to connect to.
    pub port: u16,
    /// The number of seconds after which the connection is given up when it stays silent.
    pub timeout_secs: u64,
}

/// What the probe tells the broker of itself when it logs in, and what it sets itself for the
/// session.
#[derive(Clone, Copy, Debug)]
pub struct LoginSettings<'a> {
    /// The version of MQTT.
    pub protocol_version: u8,
    /// The name by which the probe introduces itself.
    pub client_id: &'static str,
    /// The name of the user.
    pub username: &'a str,
    /// The password of the user.
    pub password: &'a str,
    /// The highest quality of service at which the probe subscribes.
    pub max_subscribe_qos: u8,
    /// The length of the largest packet that the broker may send.
    pub max_packet_size: u32,
    /// The length of the buffer for packets to the broker, and of the one for packets from it.
    pub buffer_len: usize,
    /// The largest number of properties of a packet.
    pub max_properties: usize,
    /// What the numbers of the packets are counted up from.
    pub rng_seed: u64,
}

impl<'a> LoginSettings<'a> {
    /// Whether these are the settings for a login at the given broker.
    pub open spec fn suit(self, broker: Broker<'a>) -> bool {
        &&& self.protocol_version == 5
        &&& self.client_id@ == "clientId-rs-testing"@
        &&& self.username@ == broker.username@
        &&& self.password@ == broker.password@
        &&& self.max_subscribe_qos == 1
        &&& self.max_packet_size == 100
        &&& self.buffer_len == 80
        &&& self.max_properties == 5
        &&& self.rng_seed == 20000
    }
}

/// The topics of the conversation.
#[derive(Clone, Copy, Debug, PartialEq, Eq, Structural)]
pub enum Topic {
    /// Messages that ask for an update.
    Updates,
    /// Readings of the probe.
    Temperature,
}

impl Topic {
    /// The name of the topic at the broker.
    pub open spec fn label(self) -> Seq<char> {
        match self {
            Topic::Updates => "updates/1"@,
            Topic::Temperature => "temperature/1"@,
        }
    }

    /// The name of the topic at the broker.
    pub fn name(self) -> (name: &'static str)
        ensures
            name@ == self.label(),
            self == Topic::Updates ==> name@ == "updates/1"@,
            self == Topic::Temperature ==> name@ == "temperature/1"@,
    {
        match self {
            Topic::Updates => "updates/1",
            Topic::Temperature => "temperature/1",
        }
    }
}

/// What is to be done next.
pub enum MqttStep {
    /// Open a TCP connection to the broker, to the end that `endpoint` gives.
    Connect { port: u16, timeout_secs: u64 },
    /// Log in at the broker, with the settings that `login_settings` gives.
    Login,
    /// Subscribe to a topic.
    Subscribe { topic: Topic },
    /// Wait for whichever comes first, a reading to publish or a message from the broker.
    Listen,
    /// Publish a reading.
    Publish { topic: Topic, qos: u8, retain: bool, reading: heapless::String<MESSAGE_CAPACITY> },
    /// Pass a message on to the task that updates the firmware.
    Forward { message: heapless::String<MESSAGE_CAPACITY> },
}

/// What came of a step.
pub enum MqttEvent {
    /// The step was carried out.
    Succeeded,
    /// The step could not be carried out.
    Failed,
    /// There is a reading to publish.
    Reading { reading: heapless::String<MESSAGE_CAPACITY> },
    /// The broker sent a message.
    Message { message: heapless::String<MESSAGE_CAPACITY> },
}

impl MqttStep {
    /// The step that every attempt to reach the broker begins with.
    pub open spec fn first() -> MqttStep {
        MqttStep::Connect { port: BROKER_PORT, timeout_secs: SOCKET_TIMEOUT_SECS }
    }

    /// Whether the event can come of this step.
    pub open spec fn allows(self, event: MqttEvent) -> bool {
        match self {
            MqttStep::Listen => event is Reading || event is Message,
            MqttStep::Forward { .. } => event is Succeeded,
            _ => event is Succeeded || event is Failed,
        }
    }

    /// Whether the probe is logged in and subscribed.
    pub open spec fn in_session(self) -> bool {
        self is Listen || self is Publish || self is Forward
    }

    /// The step after this one. A failure before the probe is subscribed makes it begin again;
    /// afterwards it goes on listening whatever came of the last step.
    pub open spec fn followed_by(self, event: MqttEvent) -> MqttStep {
        match event {
            MqttEvent::Reading { reading } => MqttStep::Publish {
                topic: Topic::Temperature,
                qos: 1,
                retain: false,
                reading,
            },
            MqttEvent::Message { message } => MqttStep::Forward { message },
            MqttEvent::Failed if !self.in_session() => MqttStep::first(),
            _ => match self {
                MqttStep::Connect { .. } => MqttStep::Login,
                MqttStep::Login => MqttStep::Subscribe { topic: Topic::Updates },
                _ => MqttStep::Listen,
            },
        }
    }

    /// The step that every attempt to reach the broker begins with.
    pub fn new() -> (step: MqttStep)
        ensures
            step == MqttStep::first(),
    {
        MqttStep::Connect { port: BROKER_PORT, timeout_secs: SOCKET_TIMEOUT_SECS }
    }

    /// The end of the connection that this step opens to the given broker, if it opens one.
    pub fn endpoint(&self, broker: &Broker<'_>) -> (endpoint: Option<Endpoint>)
        ensures
            endpoint is Some <==> self is Connect,
            endpoint matches Some(endpoint) ==> *self == (MqttStep::Connect {
                port: endpoint.port,
                timeout_secs: endpoint.timeout_secs,
            }) && endpoint.address@ == broker.address@,
    {
        match self {
            MqttStep::Connect { port, timeout_secs } => Some(
                Endpoint { address: broker.address, port: *port, timeout_secs: *timeout_secs },
            ),
            _ => None,
        }
    }

    /// The settings with which this step logs in at the given broker, if it logs in.
    pub fn login_settings<'a>(&self, broker: &Broker<'a>) -> (settings: Option<LoginSettings<'a>>)
        ensures
            settings is Some <==> self is Login,
            settings matches Some(settings) ==> settings.suit(*broker),
            settings matches Some(settings) ==> settings.username@ == broker.username@
                && settings.password@ == broker.password@,
            settings matches Some(settings) ==> settings.protocol_version == 5 && settings.client_id@
                == "clientId-rs-testing"@ && settings.max_subscribe_qos == 1
                && settings.max_packet_size == 100 && settings.buffer_len == 80
                && settings.max_properties == 5 && settings.rng_seed == 20000,
    {
        match self {
            MqttStep::Login => Some(
                LoginSettings {
                    protocol_version: PROTOCOL_VERSION,
                    client_id: CLIENT_ID,
                    username: broker.username,
                    password: broker.password,
                    max_subscribe_qos: MAX_SUBSCRIBE_QOS,
                    max_packet_size: MAX_PACKET_SIZE,
                    buffer_len: PACKET_BUFFER_LEN,
                    max_properties: MAX_PROPERTIES,
                    rng_seed: RNG_SEED,
                },
            ),
            _ => None,
        }
    }

    /// Whether the event can come of this step.
    pub fn accepts(&self, event: &MqttEvent) -> (accepts: bool)
        ensures
            accepts == self.allows(*event),
    {
        match (self, event) {
            (MqttStep::Listen, MqttEvent::Reading { .. }) => true,
            (MqttStep::Listen, MqttEvent::Message { .. }) => true,
            (MqttStep::Listen, _) => false,
            (MqttStep::Forward { .. }, MqttEvent::Succeeded) => true,
            (MqttStep::Forward { .. }, _) => false,
            (_, MqttEvent::Succeeded) => true,
            (_, MqttEvent::Failed) => true,
            (_, _) => false,
        }
    }

    /// The step after this one.
    pub fn after(self, event: MqttEvent) -> (step: MqttStep)
        requires
            self.allows(event),
        ensures
            step == self.followed_by(event),
    {
        match self {
            MqttStep::Connect { .. } => match event {
                MqttEvent::Succeeded => MqttStep::Login,
                _ => MqttStep::new(),
            },
            MqttStep::Login => match event {
                MqttEvent::Succeeded => MqttStep::Subscribe { topic: Topic::Updates },
                _ => MqttStep::new(),
            },
            MqttStep::Subscribe { .. } => match event {
                MqttEvent::Succeeded => MqttStep::Listen,
                _ => MqttStep::new(),
            },
            MqttStep::Listen => match event {
                MqttEvent::Reading { reading } => MqttStep::Publish {
                    topic: Topic::Temperature,
                    qos: 1,
                    retain: false,
                    reading,
                },
                MqttEvent::Message { message } => MqttStep::Forward { message },
                _ => MqttStep::Listen,
            },
            MqttStep::Publish { .. } | MqttStep::Forward { .. } => MqttStep::Listen,
        }
    }
}

/// The step that is reached through the events, from the first step on.
pub open spec fn reached(events: Seq<MqttEvent>) -> MqttStep
    decreases events.len(),
{
    if events.len() == 0 {
        MqttStep::first()
    } else {
        reached(events.drop_last()).followed_by(events.last())
    }
}

/// Whether the events can come one after the other, from the first step on.
pub open spec fn possible(events: Seq<MqttEvent>) -> bool
    decreases events.len(),
{
    events.len() > 0 ==> possible(events.drop_last()) && reached(events.drop_last()).allows(
        events.last(),
    )
}

/// The readings among the events.
pub open spec fn readings(events: Seq<MqttEvent>) -> Seq<heapless::String<MESSAGE_CAPACITY>>
    decreases events.len(),
{
    if events.len() == 0 {
        Seq::empty()
    } else {
        match events.last() {
            MqttEvent::Reading { reading } => readings(events.drop_last()).push(reading),
            _ => readings(events.drop_last()),
        }
    }
}

/// The readings that the steps along the events publish.
pub open spec fn published(events: Seq<MqttEvent>) -> Seq<heapless::String<MESSAGE_CAPACITY>>
    decreases events.len(),
{
    if events.len() == 0 {
        Seq::empty()
    } else {
        match reached(events) {
            MqttStep::Publish { reading, .. } => published(events.drop_last()).push(reading),
            _ => published(events.drop_last()),
        }
    }
}

/// The messages of the broker among the events.
pub open spec fn messages(events: Seq<MqttEvent>) -> Seq<heapless::String<MESSAGE_CAPACITY>>
    decreases events.len(),
{
    if events.len() == 0 {
        Seq::empty()
    } else {
        match events.last() {
            MqttEvent::Message { message } => messages(events.drop_last()).push(message),
            _ => messages(events.drop_last()),
        }
    }
}

/// The messages that the steps along the events pass on.
pub open spec fn forwarded(events: Seq<MqttEvent>) -> Seq<heapless::String<MESSAGE_CAPACITY>>
    decreases events.len(),
{
    if events.len() == 0 {
        Seq::empty()
    } else {
        match reached(events) {
            MqttStep::Forward { message } => forwarded(events.drop_last()).push(message),
            _ => forwarded(events.drop_last()),
        }
    }
}

/// Every reading is published once, unchanged and in its turn, and nothing else is published.
pub proof fn lemma_readings_are_published(events: Seq<MqttEvent>)
    requires
        possible(events),
    ensures
        published(events) == readings(events),
    decreases events.len(),
{
    if events.len() > 0 {
        lemma_readings_are_published(events.drop_last());
    }
}

/// Where the probe's readings arrive in the order in which they were sent, what has been published
/// is what was measured, unchanged and in its order, up to the readings still on their way.
pub proof fn lemma_measured_readings_are_published(
    measuring: Seq<ProbeEvent>,
    talking: Seq<MqttEvent>,
    arrived: int,
)
    requires
        crate::probe::possible(measuring),
        possible(talking),
        0 <= arrived <= sent(measuring).len(),
        readings(talking) == sent(measuring).take(arrived),
    ensures
        published(talking) == measured(measuring).take(arrived),
{
    lemma_readings_are_sent(measuring);
    lemma_readings_are_published(talking);
}

/// Every message of the broker is passed on once, unchanged and in its turn, and nothing else
/// is passed on.
pub proof fn lemma_messages_are_forwarded(events: Seq<MqttEvent>)
    requires
        possible(events),
    ensures
        forwarded(events) == messages(events),
    decreases events.len(),
{
    if events.len() > 0 {
        lemma_messages_are_forwarded(events.drop_last());
    }
}

/// Readings are published at the topic for readings, with delivery at least once and without
/// being retained.
pub proof fn lemma_publications_are_alike(events: Seq<MqttEvent>)
    requires
        possible(events),
    ensures
        reached(events) matches MqttStep::Publish { topic, qos, retain, .. } ==> topic
            == Topic::Temperature && qos == 1 && !retain,
{
}

/// The only topic that is subscribed to is the one for updates, and every connection is made to
/// the same port with the same timeout.
pub proof fn lemma_requests_are_alike(events: Seq<MqttEvent>)
    requires
        possible(events),
    ensures
        reached(events) is Connect ==> reached(events) == (MqttStep::Connect {
            port: 1883,
            timeout_secs: 10,
        }),
        reached(events) matches MqttStep::Subscribe { topic } ==> topic == Topic::Updates,
{
}

/// Where a step fails before the probe is subscribed, everything begins again.
pub proof fn lemma_failure_begins_again(events: Seq<MqttEvent>)
    requires
        possible(events),
        !reached(events).in_session(),
    ensures
        possible(events.push(MqttEvent::Failed)),
        reached(events.push(MqttEvent::Failed)) == MqttStep::first(),
{
    assert(events.push(MqttEvent::Failed).drop_last() == events);
}

/// A session begins with a connection, a login and a subscription that all succeed, one directly
/// after the other, and it is never left afterwards.
pub proof fn lemma_session_begins_with_subscription(events: Seq<MqttEvent>) -> (start: int)
    requires
        possible(events),
        reached(events).in_session(),
    ensures
        0 <= start <= events.len() - 3,
        reached(events.take(start)) == MqttStep::first(),
        forall|i: int| start <= i < start + 3 ==> (#[trigger] events[i]) is Succeeded,
        forall|end: int|
            start + 3 <= end <= events.len() ==> (#[trigger] reached(events.take(end))).in_session(),
    decreases events.len(),
{
    let before = events.drop_last();
    assert(events.take(events.len() as int) == events);
    if reached(before).in_session() {
        let start = lemma_session_begins_with_subscription(before);
        assert(before.take(start) == events.take(start));
        assert forall|i: int| start <= i < start + 3 implies (#[trigger] events[i]) is Succeeded by {
            assert(before[i] is Succeeded);
        }
        assert forall|end: int| start + 3 <= end <= events.len() implies (#[trigger] reached(
            events.take(end),
        )).in_session() by {
            if end < events.len() {
                assert(before.take(end) == events.take(end));
            }
        }
        start
    } else {
        let start = events.len() - 3;
        reveal_with_fuel(possible, 4);
        reveal_with_fuel(reached, 4);
        let two = before.drop_last();
        let one = two.drop_last();
        assert(reached(before) is Subscribe);
        assert(reached(two) is Login);
        assert(reached(one) is Connect);
        assert(events.take(start) == one);
        lemma_requests_are_alike(one);
        assert(events[start + 1] == before.last());
        assert(events[start] == two.last());
        start
    }
}

proof fn lemma_next(events: Seq<MqttEvent>, event: MqttEvent)
    requires
        possible(events),
        reached(events).allows(event),
    ensures
        possible(events.push(event)),
        reached(events.push(event)) == reached(events).followed_by(event),
{
    assert(events.push(event).drop_last() == events);
}

/// What can come of each step, and nothing else can: in particular every reading and every
/// message while listening, and a failure of everything but passing a message on.
pub proof fn lemma_what_can_come_of_a_step(step: MqttStep, event: MqttEvent)
    ensures
        step.allows(event) <==> match event {
            MqttEvent::Reading { .. } | MqttEvent::Message { .. } => step is Listen,
            MqttEvent::Succeeded => !(step is Listen),
            MqttEvent::Failed => !(step is Listen) && !(step is Forward),
        },
{
}

/// Every reading can be published: while the probe listens any reading is accepted, it is
/// published as it is, and afterwards the probe listens again whether or not that succeeded.
pub proof fn lemma_every_reading_is_published(
    events: Seq<MqttEvent>,
    reading: heapless::String<MESSAGE_CAPACITY>,
)
    requires
        possible(events),
        reached(events) is Listen,
    ensures
        ({
            let publishing = events.push(MqttEvent::Reading { reading });
            &&& MqttStep::Listen.allows(MqttEvent::Reading { reading })
            &&& possible(publishing)
            &&& reached(publishing) == MqttStep::Publish {
                topic: Topic::Temperature,
                qos: 1,
                retain: false,
                reading,
            }
            &&& possible(publishing.push(MqttEvent::Succeeded))
            &&& reached(publishing.push(MqttEvent::Succeeded)) is Listen
            &&& possible(publishing.push(MqttEvent::Failed))
            &&& reached(publishing.push(MqttEvent::Failed)) is Listen
        }),
{
    let publishing = events.push(MqttEvent::Reading { reading });
    lemma_next(events, MqttEvent::Reading { reading });
    lemma_next(publishing, MqttEvent::Succeeded);
    lemma_next(publishing, MqttEvent::Failed);
}

/// Every message can be passed on: while the probe listens any message is accepted, it is passed
/// on as it is, and afterwards the probe listens again.
pub proof fn lemma_every_message_is_forwarded(
    events: Seq<MqttEvent>,
    message: heapless::String<MESSAGE_CAPACITY>,
)
    requires
        possible(events),
        reached(events) is Listen,
    ensures
        ({
            let forwarding = events.push(MqttEvent::Message { message });
            &&& MqttStep::Listen.allows(MqttEvent::Message { message })
            &&& possible(forwarding)
            &&& reached(forwarding) == MqttStep::Forward { message }
            &&& possible(forwarding.push(MqttEvent::Succeeded))
            &&& reached(forwarding.push(MqttEvent::Succeeded)) is Listen
        }),
{
    let forwarding = events.push(MqttEvent::Message { message });
    lemma_next(events, MqttEvent::Message { message });
    lemma_next(forwarding, MqttEvent::Succeeded);
}

/// A session can always begin: wherever a connection is to be opened, three successes lead through
/// the login and the subscription to the topic for updates to listening, and a failure on the way
/// leads back to opening a connection to the same port with the same timeout.
pub proof fn lemma_session_can_begin(events: Seq<MqttEvent>)
    requires
        possible(events),
        reached(events) is Connect,
    ensures
        ({
            let connected = events.push(MqttEvent::Succeeded);
            let logged_in = connected.push(MqttEvent::Succeeded);
            let subscribed = logged_in.push(MqttEvent::Succeeded);
            let connect = MqttStep::Connect { port: 1883, timeout_secs: 10 };
            &&& possible(subscribed)
            &&& reached(connected) is Login
            &&& reached(logged_in) == MqttStep::Subscribe { topic: Topic::Updates }
            &&& reached(subscribed) is Listen
            &&& possible(events.push(MqttEvent::Failed))
            &&& reached(events.push(MqttEvent::Failed)) == connect
            &&& possible(connected.push(MqttEvent::Failed))
            &&& reached(connected.push(MqttEvent::Failed)) == connect
            &&& possible(logged_in.push(MqttEvent::Failed))
            &&& reached(logged_in.push(MqttEvent::Failed)) == connect
        }),
{
    let connected = events.push(MqttEvent::Succeeded);
    let logged_in = connected.push(MqttEvent::Succeeded);
    lemma_next(events, MqttEvent::Succeeded);
    lemma_next(connected, MqttEvent::Succeeded);
    lemma_next(logged_in, MqttEvent::Succeeded);
    lemma_next(events, MqttEvent::Failed);
    lemma_next(connected, MqttEvent::Failed);
    lemma_next(logged_in, MqttEvent::Failed);
}

/// The same holds of every step, whether or not a run reaches it: what comes next for each answer
/// to it. The first step opens a connection.
pub proof fn lemma_next_steps(step: MqttStep, event: MqttEvent)
    requires
        step.allows(event),
    ensures
        MqttStep::first() == (MqttStep::Connect { port: 1883, timeout_secs: 10 }),
        event matches MqttEvent::Reading { reading } ==> step.followed_by(event) == (
        MqttStep::Publish { topic: Topic::Temperature, qos: 1, retain: false, reading }),
        event matches MqttEvent::Message { message } ==> step.followed_by(event) == (
        MqttStep::Forward { message }),
        step is Connect && event is Succeeded ==> step.followed_by(event) is Login,
        step is Login && event is Succeeded ==> step.followed_by(event) == (MqttStep::Subscribe {
            topic: Topic::Updates,
        }),
        step is Subscribe && event is Succeeded ==> step.followed_by(event) is Listen,
        (step is Connect || step is Login || step is Subscribe) && event is Failed
            ==> step.followed_by(event) == (MqttStep::Connect { port: 1883, timeout_secs: 10 }),
        step is Publish || step is Forward ==> step.followed_by(event) is Listen,
{
}

/// The names of the topics.
pub proof fn lemma_topic_names(topic: Topic)
    ensures
        topic == Topic::Updates ==> topic.label() == "updates/1"@,
        topic == Topic::Temperature ==> topic.label() == "temperature/1"@,
{
}

} // verus!
