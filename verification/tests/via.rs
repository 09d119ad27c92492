use seshd::event::{kind, Event};
use seshd::json::Value;
use seshd::presence::via::{Via, RSSI, VIA};

fn object(members: Vec<(&str, Value)>) -> Value {
    Value::Object(members.into_iter().map(|(k, v)| (k.to_string(), v)).collect())
}

fn row(payload: Value) -> Event {
    Event {
        id: 1,
        ts_ms: 0,
        kind: kind::PRESENCE_ARRIVED.into(),
        actors: vec!["tate".into()],
        subject: None,
        payload,
    }
}

#[test]
fn the_four_known_signals_round_trip() {
    for via in [Via::Ble, Via::Wifi, Via::Heartbeat, Via::Asserted] {
        let back = Via::from(via.as_str());
        assert_eq!(via, back, "{via:?} did not survive a round trip");
    }
}

#[test]
fn a_row_with_no_via_reads_as_unknown() {
    assert_eq!(Via::read(&row(object(vec![]))), None);
}

#[test]
fn an_unrecognised_via_is_preserved_rather_than_dropped() {
    let event = row(object(vec![(VIA, Value::Str("seismograph".into()))]));
    assert_eq!(Via::read(&event), Some(Via::Other("seismograph".to_string())));
    assert_eq!(Via::read(&event).unwrap().as_str(), "seismograph");
}

#[test]
fn a_via_that_is_not_a_string_reads_as_unknown() {
    assert_eq!(Via::read(&row(object(vec![(VIA, Value::Int(7))]))), None);
}

#[test]
fn rssi_is_read_when_present_and_absent_otherwise() {
    let with = row(object(vec![(VIA, Value::Str("ble".into())), (RSSI, Value::Int(-58))]));
    assert_eq!(Via::rssi(&with), Some(-58));
    assert_eq!(Via::rssi(&row(object(vec![(VIA, Value::Str("ble".into()))]))), None);
}

#[test]
fn an_unknown_signal_keeps_its_wire_form() {
    assert_eq!(Via::parse("doorbell"), Via::Other("doorbell".into()));
    assert_eq!(Via::Other("ble".into()).as_str(), "ble");
    assert_eq!(Via::parse(Via::Other("ble".into()).as_str()), Via::Ble);
}
