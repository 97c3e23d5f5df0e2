use esp32c6_probe::wifi::{WifiEvent, WifiStep};

fn advance(step: WifiStep, event: WifiEvent) -> WifiStep {
    assert!(step.accepts(&event));
    step.after(event)
}

fn scanned(networks: &[&str]) -> WifiEvent {
    WifiEvent::Scanned { networks: networks.iter().map(|name| name.to_string()).collect() }
}

#[test]
fn controller_gets_name_and_password() {
    let settings = WifiStep::Configure.network_settings("wifi_ssid", "wifi_password").unwrap();
    assert_eq!(settings.ssid, "wifi_ssid");
    assert_eq!(settings.password, "wifi_password");
    assert!(WifiStep::Start.network_settings("wifi_ssid", "wifi_password").is_none());
    assert!(WifiStep::Connect.network_settings("wifi_ssid", "wifi_password").is_none());
}

#[test]
fn scans_are_only_reported() {
    for networks in [&[][..], &["wifi_ssid"][..], &["other", "another"][..]] {
        assert_eq!(advance(WifiStep::Scan { limit: 10 }, scanned(networks)), WifiStep::Connect);
    }
}

#[test]
fn one_attempt_per_round() {
    let mut step = WifiStep::new();
    let mut attempts = 0;
    let mut rounds = 0;
    for event in [
        WifiEvent::Link { connected: false },
        WifiEvent::Started { started: Ok(true) },
        WifiEvent::Failed,
        WifiEvent::Done,
        WifiEvent::Link { connected: false },
        WifiEvent::Started { started: Ok(true) },
        WifiEvent::Done,
        WifiEvent::Link { connected: true },
        WifiEvent::Done,
        WifiEvent::Done,
        WifiEvent::Started { started: Ok(true) },
        WifiEvent::Done,
    ] {
        step = advance(step, event);
        if step == WifiStep::Connect {
            attempts += 1;
        }
        if step == WifiStep::CheckLink {
            rounds += 1;
            assert_eq!(attempts, rounds);
        }
    }
    assert_eq!(rounds, 3);
}

#[test]
fn connects_for_the_first_time() {
    let mut step = WifiStep::new();
    let mut steps = vec![step];
    for event in [
        WifiEvent::Link { connected: false },
        WifiEvent::Started { started: Ok(false) },
        WifiEvent::Done,
        WifiEvent::Done,
        scanned(&["wifi_ssid"]),
        WifiEvent::Done,
    ] {
        step = advance(step, event);
        steps.push(step);
    }
    assert_eq!(
        steps,
        vec![
            WifiStep::CheckLink,
            WifiStep::CheckStarted,
            WifiStep::Configure,
            WifiStep::Start,
            WifiStep::Scan { limit: 10 },
            WifiStep::Connect,
            WifiStep::CheckLink,
        ]
    );
}

#[test]
fn lost_link_is_given_time() {
    let mut step = WifiStep::new();
    let mut steps = vec![step];
    for event in [
        WifiEvent::Link { connected: true },
        WifiEvent::Done,
        WifiEvent::Done,
        WifiEvent::Started { started: Ok(true) },
        WifiEvent::Done,
    ] {
        step = advance(step, event);
        steps.push(step);
    }
    assert_eq!(
        steps,
        vec![
            WifiStep::CheckLink,
            WifiStep::AwaitDisconnect,
            WifiStep::Settle { millis: 5000 },
            WifiStep::CheckStarted,
            WifiStep::Connect,
            WifiStep::CheckLink,
        ]
    );
}

#[test]
fn failed_attempt_is_given_time() {
    let step = advance(WifiStep::Connect, WifiEvent::Failed);
    assert_eq!(step, WifiStep::BackOff { millis: 5000 });
    assert!(!step.accepts(&WifiEvent::Failed));
    assert_eq!(advance(step, WifiEvent::Done), WifiStep::CheckLink);
}

#[test]
fn controller_that_cannot_tell_is_started() {
    let step = advance(WifiStep::CheckStarted, WifiEvent::Started { started: Err(()) });
    assert_eq!(step, WifiStep::Configure);
}

#[test]
fn controller_is_started_before_connecting() {
    for step in [WifiStep::Configure, WifiStep::Start] {
        assert!(!step.accepts(&WifiEvent::Failed));
        assert!(step.accepts(&WifiEvent::Done));
    }
    assert!(!WifiStep::Scan { limit: 10 }.accepts(&WifiEvent::Failed));
    assert!(!WifiStep::Scan { limit: 10 }.accepts(&WifiEvent::Done));
    assert!(!WifiStep::CheckLink.accepts(&WifiEvent::Done));
    assert!(!WifiStep::CheckStarted.accepts(&WifiEvent::Done));
    assert!(!WifiStep::Connect.accepts(&WifiEvent::Link { connected: true }));
}
