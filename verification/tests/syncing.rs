use meter_bridge::code::RegistryCode;
use meter_bridge::entity::{Entity, InitError, LookupError};
use meter_bridge::normalize::ConversionError;
use meter_bridge::reading::Reading;
use meter_bridge::sync::{adapt, apply_reading, update_property, Event, Notification, Stop, SyncLoop};
use meter_bridge::value::{Value, ValueKind};

fn serial_code() -> RegistryCode {
    RegistryCode::new(0, 0, 96, 1, 0, 255)
}

fn energy_code() -> RegistryCode {
    RegistryCode::new(1, 0, 1, 8, 0, 255)
}

fn first_reading() -> Reading {
    let mut reading = Reading::new();
    reading.insert(energy_code(), Value::Bytes(b"...".to_vec()), Some("Wh".to_string()));
    reading.insert(serial_code(), Value::Bytes(b"SN12345".to_vec()), None);
    reading
}

fn started() -> SyncLoop {
    let mut sync = SyncLoop::new();
    let action = sync.step(Event::Reading(first_reading()));
    assert_eq!(action.stop, None);
    sync
}

fn value_of(sync: &SyncLoop, name: &str) -> Value {
    let entity = sync.entity().unwrap();
    let index = entity.find_property(&name.to_string()).unwrap();
    entity.cached_value(index)
}

#[test]
fn property_names_are_the_codes_of_the_first_reading() {
    let entity = Entity::initialize(&first_reading()).unwrap();
    assert_eq!(entity.len(), 2);
    assert_eq!(entity.property(0).name, "0.0.96.1.0.255");
    assert_eq!(entity.property(1).name, "1.0.1.8.0.255");
    for i in 0..entity.len() {
        assert_eq!(entity.property(i).name, first_reading().entry(i).code.name());
        assert_eq!(entity.property(i).value, first_reading().entry(i).value);
        assert_eq!(entity.property(i).unit, first_reading().entry(i).unit);
        assert!(entity.property(i).read_only);
    }
    assert_eq!(entity.property(1).kind, ValueKind::Bytes);
    assert_eq!(entity.property(1).unit, Some("Wh".to_string()));
    assert_eq!(entity.property(0).unit, None);
}

#[test]
fn empty_first_reading_is_refused() {
    assert_eq!(Entity::initialize(&Reading::new()), Err(InitError::EmptyReading));
    let mut sync = SyncLoop::new();
    let action = sync.step(Event::Reading(Reading::new()));
    assert_eq!(action.stop, Some(Stop::EmptyReading));
    assert!(action.notifications.is_empty());
    assert!(!sync.is_running());
}

#[test]
fn find_property_by_name() {
    let entity = Entity::initialize(&first_reading()).unwrap();
    assert_eq!(entity.find_property(&"0.0.96.1.0.255".to_string()), Ok(0));
    assert_eq!(entity.find_property(&"1.0.1.8.0.255".to_string()), Ok(1));
    assert_eq!(entity.find_property(&"9.9.9.9.9.9".to_string()), Err(LookupError::UnknownProperty));
    assert_eq!(entity.find_property(&String::new()), Err(LookupError::UnknownProperty));
}

#[test]
fn set_cached_value_returns_the_previous_value() {
    let mut entity = Entity::initialize(&first_reading()).unwrap();
    let before = entity.clone();
    let previous = entity.set_cached_value(0, Value::Text("new".to_string()));
    assert_eq!(previous, Value::Bytes(b"SN12345".to_vec()));
    assert_eq!(entity.cached_value(0), Value::Text("new".to_string()));
    assert_eq!(entity.len(), 2);
    assert_eq!(entity.property(1), before.property(1));
    assert_eq!(entity.property(0).name, before.property(0).name);
    assert_eq!(entity.property(0).kind, before.property(0).kind);
    assert_eq!(entity.property(0).unit, before.property(0).unit);
    assert!(entity.property(0).read_only);
}

#[test]
fn update_commits_before_it_notifies() {
    let mut entity = Entity::initialize(&first_reading()).unwrap();
    let note = update_property(&mut entity, &energy_code(), Value::Unsigned(42)).unwrap();
    assert_eq!(note, Notification { name: "1.0.1.8.0.255".to_string(), value: Value::Unsigned(42) });
    let index = entity.find_property(&note.name).unwrap();
    assert_eq!(entity.cached_value(index), note.value);
}

#[test]
fn update_of_unknown_code_changes_nothing() {
    let mut entity = Entity::initialize(&first_reading()).unwrap();
    let before = entity.clone();
    let r = update_property(&mut entity, &RegistryCode::new(9, 9, 9, 9, 9, 9), Value::Unsigned(1));
    assert_eq!(r, Err(LookupError::UnknownProperty));
    assert_eq!(entity, before);
}

#[test]
fn serial_number_scenario() {
    let mut sync = SyncLoop::new();
    assert!(!sync.is_running());
    assert!(sync.entity().is_none());
    let action = sync.step(Event::Reading(first_reading()));
    assert_eq!(action.stop, None);
    assert!(action.notifications.is_empty());
    assert!(sync.is_running());
    assert_eq!(value_of(&sync, "0.0.96.1.0.255"), Value::Text("SN12345".to_string()));

    let mut later = Reading::new();
    later.insert(serial_code(), Value::Bytes(b"SNABCDE".to_vec()), None);
    let action = sync.step(Event::Reading(later));
    assert_eq!(action.stop, None);
    assert_eq!(
        action.notifications,
        vec![Notification {
            name: "0.0.96.1.0.255".to_string(),
            value: Value::Text("SNABCDE".to_string()),
        }]
    );
    assert_eq!(value_of(&sync, "0.0.96.1.0.255"), Value::Text("SNABCDE".to_string()));
    assert_eq!(value_of(&sync, "1.0.1.8.0.255"), Value::Bytes(b"...".to_vec()));
    assert_eq!(sync.entity().unwrap().len(), 2);
}

#[test]
fn unknown_code_scenario() {
    let last_code = RegistryCode::new(10, 0, 0, 0, 0, 0);
    let mut first = first_reading();
    first.insert(last_code, Value::Unsigned(1), None);
    let mut sync = SyncLoop::new();
    assert_eq!(sync.step(Event::Reading(first)).stop, None);

    let mut later = Reading::new();
    later.insert(last_code, Value::Unsigned(2), None);
    later.insert(RegistryCode::new(9, 9, 9, 9, 9, 9), Value::Unsigned(1), None);
    later.insert(energy_code(), Value::Unsigned(10), None);
    let action = sync.step(Event::Reading(later));
    assert_eq!(action.stop, Some(Stop::UnknownProperty));
    assert_eq!(
        action.notifications,
        vec![Notification { name: "1.0.1.8.0.255".to_string(), value: Value::Unsigned(10) }]
    );
    assert_eq!(value_of(&sync, "1.0.1.8.0.255"), Value::Unsigned(10));
    assert_eq!(value_of(&sync, "10.0.0.0.0.0"), Value::Unsigned(1));
    assert_eq!(value_of(&sync, "0.0.96.1.0.255"), Value::Text("SN12345".to_string()));
    assert_eq!(sync.entity().unwrap().len(), 3);
    assert!(sync.entity().unwrap().find_property(&"9.9.9.9.9.9".to_string()).is_err());
}

#[test]
fn unknown_code_alone_updates_nothing() {
    let mut sync = started();
    let before = sync.clone();
    let mut later = Reading::new();
    later.insert(RegistryCode::new(9, 9, 9, 9, 9, 9), Value::Unsigned(1), None);
    let action = sync.step(Event::Reading(later));
    assert_eq!(action.stop, Some(Stop::UnknownProperty));
    assert!(action.notifications.is_empty());
    assert_eq!(sync, before);
}

#[test]
fn apply_reading_reports_every_update_in_order() {
    let mut entity = Entity::initialize(&first_reading()).unwrap();
    let mut later = Reading::new();
    later.insert(serial_code(), Value::Text("b".to_string()), None);
    later.insert(energy_code(), Value::Signed(-5), None);
    let applied = apply_reading(&mut entity, &later);
    assert_eq!(applied.error, None);
    assert_eq!(
        applied.notifications,
        vec![
            Notification { name: "0.0.96.1.0.255".to_string(), value: Value::Text("b".to_string()) },
            Notification { name: "1.0.1.8.0.255".to_string(), value: Value::Signed(-5) },
        ]
    );
    assert_eq!(entity.cached_value(0), Value::Text("b".to_string()));
    assert_eq!(entity.cached_value(1), Value::Signed(-5));
    assert_eq!(entity.property(0).kind, ValueKind::Bytes);
    let applied = apply_reading(&mut entity, &Reading::new());
    assert_eq!(applied.error, None);
    assert!(applied.notifications.is_empty());
}

#[test]
fn conversion_error_stops_before_any_update() {
    let mut sync = started();
    let before = sync.clone();
    let mut later = Reading::new();
    later.insert(energy_code(), Value::Unsigned(10), None);
    later.insert(serial_code(), Value::Bytes(vec![0xff]), None);
    let action = sync.step(Event::Reading(later));
    assert_eq!(action.stop, Some(Stop::Conversion(ConversionError::InvalidText)));
    assert!(action.notifications.is_empty());
    assert_eq!(sync, before);

    let mut fresh = SyncLoop::new();
    let mut bad = Reading::new();
    bad.insert(RegistryCode::new(0, 0, 1, 0, 0, 255), Value::Bytes(vec![1, 2]), None);
    let action = fresh.step(Event::Reading(bad));
    assert_eq!(action.stop, Some(Stop::Conversion(ConversionError::MalformedTimestamp)));
    assert!(!fresh.is_running());
}

#[test]
fn decode_error_and_end_stop_the_loop() {
    let mut fresh = SyncLoop::new();
    assert_eq!(fresh.step(Event::End).stop, Some(Stop::NoFirstReading));
    assert_eq!(fresh.step(Event::DecodeError).stop, Some(Stop::Decode));
    assert!(!fresh.is_running());

    let mut sync = started();
    let before = sync.clone();
    let action = sync.step(Event::DecodeError);
    assert_eq!(action.stop, Some(Stop::Decode));
    assert!(action.notifications.is_empty());
    assert_eq!(sync, before);
    let action = sync.step(Event::End);
    assert_eq!(action.stop, Some(Stop::SourceEnded));
    assert_eq!(sync, before);
}

#[test]
fn adapter_passes_one_element_for_one() {
    assert_eq!(adapt(Event::End), Ok(Event::End));
    assert_eq!(adapt(Event::DecodeError), Ok(Event::DecodeError));
    let adapted = adapt(Event::Reading(first_reading())).unwrap();
    let mut expected = Reading::new();
    expected.insert(energy_code(), Value::Bytes(b"...".to_vec()), Some("Wh".to_string()));
    expected.insert(serial_code(), Value::Text("SN12345".to_string()), None);
    assert_eq!(adapted, Event::Reading(expected));
    let mut bad = Reading::new();
    bad.insert(serial_code(), Value::Bytes(vec![0xc0]), None);
    assert_eq!(adapt(Event::Reading(bad)), Err(ConversionError::InvalidText));
}
