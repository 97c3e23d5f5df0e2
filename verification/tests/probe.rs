use esp32c6_probe::message::decode_message;
use esp32c6_probe::probe::{network_seed, Manufacturer, ProbeEvent, ProbeStep};

fn advance(step: ProbeStep, event: ProbeEvent) -> ProbeStep {
    assert!(step.accepts(&event));
    step.after(event)
}

fn follow(expected: Vec<(ProbeEvent, ProbeStep)>) -> ProbeStep {
    let mut step = ProbeStep::new();
    assert_eq!(step, ProbeStep::ReadManufacturer);
    for (event, next) in expected {
        step = advance(step, event);
        assert_eq!(step, next);
    }
    step
}

fn made_by_texas_instruments() -> ProbeEvent {
    ProbeEvent::Made { manufacturer: Manufacturer::TexasInstruments }
}

fn measured(text: &str) -> ProbeEvent {
    ProbeEvent::Measured { reading: decode_message(text.as_bytes()).unwrap() }
}

fn send(text: &str) -> ProbeStep {
    ProbeStep::Send { reading: decode_message(text.as_bytes()).unwrap() }
}

#[test]
fn seed_has_first_word_in_front() {
    assert_eq!(network_seed(0, 0), 0);
    assert_eq!(network_seed(1, 2), 0x1_0000_0002);
    assert_eq!(network_seed(0xdead_beef, 0xcafe_f00d), 0xdead_beef_cafe_f00d);
    assert_eq!(network_seed(u32::MAX, u32::MAX), u64::MAX);
}

#[test]
fn seed_keeps_both_words() {
    assert_ne!(network_seed(1, 2), network_seed(2, 1));
    assert_ne!(network_seed(0, 1), network_seed(1, 0));
}

#[test]
fn starts_up_and_measures() {
    let first = "{\"centigrade\":21.5,\"humidity_percent\":40.25}";
    let second = "{\"centigrade\":22.0,\"humidity_percent\":41.0}";
    follow(vec![
        (made_by_texas_instruments(), ProbeStep::ReadSerialNumber),
        (ProbeEvent::Done, ProbeStep::ReadStatus),
        (ProbeEvent::Done, ProbeStep::StartNetwork),
        (ProbeEvent::Done, ProbeStep::CheckLink),
        (ProbeEvent::Link { up: false }, ProbeStep::AwaitLink { millis: 500 }),
        (ProbeEvent::Done, ProbeStep::CheckLink),
        (ProbeEvent::Link { up: true }, ProbeStep::CheckAddress),
        (ProbeEvent::Address { assigned: false }, ProbeStep::AwaitAddress { millis: 500 }),
        (ProbeEvent::Done, ProbeStep::CheckAddress),
        (ProbeEvent::Address { assigned: true }, ProbeStep::StartTasks),
        (ProbeEvent::Done, ProbeStep::Settle { millis: 1000 }),
        (ProbeEvent::Done, ProbeStep::CheckStatus),
        (ProbeEvent::Done, ProbeStep::Measure),
        (measured(first), send(first)),
        (ProbeEvent::Done, ProbeStep::Rest { millis: 3000 }),
        (ProbeEvent::Done, ProbeStep::Settle { millis: 1000 }),
        (ProbeEvent::Done, ProbeStep::CheckStatus),
        (ProbeEvent::Done, ProbeStep::Measure),
        (measured(second), send(second)),
    ]);
}

#[test]
fn gives_up_on_another_sensor() {
    let other = ProbeEvent::Made { manufacturer: Manufacturer::Other { id: 0x1234 } };
    follow(vec![(other, ProbeStep::Stop)]);
}

#[test]
fn gives_up_when_sensor_does_not_answer() {
    follow(vec![(ProbeEvent::Failed, ProbeStep::Stop)]);
    follow(vec![
        (made_by_texas_instruments(), ProbeStep::ReadSerialNumber),
        (ProbeEvent::Failed, ProbeStep::Stop),
    ]);
    follow(vec![
        (made_by_texas_instruments(), ProbeStep::ReadSerialNumber),
        (ProbeEvent::Done, ProbeStep::ReadStatus),
        (ProbeEvent::Failed, ProbeStep::Stop),
    ]);
    assert_eq!(advance(ProbeStep::CheckStatus, ProbeEvent::Failed), ProbeStep::Stop);
}

#[test]
fn gives_up_for_good() {
    for event in [
        ProbeEvent::Done,
        ProbeEvent::Failed,
        made_by_texas_instruments(),
        ProbeEvent::Link { up: true },
        ProbeEvent::Address { assigned: true },
        measured("{}"),
    ] {
        assert!(!ProbeStep::Stop.accepts(&event));
    }
}

#[test]
fn measuring_itself_is_not_expected_to_fail() {
    assert!(!ProbeStep::Measure.accepts(&ProbeEvent::Failed));
    assert!(!ProbeStep::Measure.accepts(&ProbeEvent::Done));
    assert!(!send("{}").accepts(&ProbeEvent::Failed));
    assert!(!ProbeStep::CheckLink.accepts(&ProbeEvent::Done));
    assert!(!ProbeStep::CheckAddress.accepts(&ProbeEvent::Link { up: true }));
}
