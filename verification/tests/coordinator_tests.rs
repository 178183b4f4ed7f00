use bluetooth_applet::Coordinator;
use bluetooth_applet::ConnectionStatus;
use bluetooth_applet::DeviceEntry;
use bluetooth_applet::DeviceProps;
use bluetooth_applet::DeviceUpdate;
use bluetooth_applet::WorkerEvent;

fn props(name: Option<&str>, connected: bool) -> DeviceProps {
    DeviceProps {
        name: name.map(String::from),
        icon_type: None,
        is_paired: false,
        is_connected: connected,
        battery_percent: None,
    }
}

#[test]
fn powered_change_emits_event_and_keeps_records() {
    let mut c = Coordinator::new();
    c.handle_device_added(1, &props(Some("A"), false));
    let ev = c.handle_powered_changed(false);
    assert!(matches!(ev, WorkerEvent::Enabled(false)));
    assert!(c.get_device(1).is_some());
    assert!(c.has_listener(1));
}

#[test]
fn device_added_creates_record_and_listener() {
    let mut c = Coordinator::new();
    let record = c.handle_device_added(7, &props(Some("Buds"), true)).unwrap();
    assert_eq!(record.name, "Buds");
    assert_eq!(record.status, ConnectionStatus::Connected);
    assert!(c.has_listener(7));
    let cached = c.get_device(7).unwrap();
    assert_eq!(cached.name, "Buds");
}

#[test]
fn nameless_device_added_is_ignored() {
    let mut c = Coordinator::new();
    assert!(c.handle_device_added(7, &props(None, false)).is_none());
    assert!(c.get_device(7).is_none());
    assert!(!c.has_listener(7));
}

#[test]
fn device_added_twice_is_a_no_op() {
    let mut c = Coordinator::new();
    assert!(c.handle_device_added(7, &props(Some("Buds"), false)).is_some());
    c.apply_device_update(7, DeviceUpdate::Battery(42));
    assert!(c.handle_device_added(7, &props(Some("Other"), true)).is_none());
    let cached = c.get_device(7).unwrap();
    assert_eq!(cached.name, "Buds");
    assert_eq!(cached.battery_percent, Some(42));
}

#[test]
fn removal_disambiguation() {
    let mut c = Coordinator::new();
    c.handle_device_added(7, &props(Some("Buds"), false));
    // Still present in the platform's device list: a disconnect, not a removal.
    assert!(!c.handle_device_removed(7, true));
    assert!(c.get_device(7).is_some());
    assert!(c.has_listener(7));
    // Absent from the device list: an actual removal, exactly once.
    assert!(c.handle_device_removed(7, false));
    assert!(c.get_device(7).is_none());
    assert!(!c.has_listener(7));
    // A second notification finds nothing to remove.
    assert!(!c.handle_device_removed(7, false));
}

#[test]
fn update_for_unknown_address_is_dropped() {
    let mut c = Coordinator::new();
    assert!(!c.apply_device_update(9, DeviceUpdate::Battery(10)));
}

#[test]
fn updates_reach_only_the_addressed_record() {
    let mut c = Coordinator::new();
    c.handle_device_added(1, &props(Some("A"), false));
    c.handle_device_added(2, &props(Some("B"), false));
    assert!(c.apply_device_update(1, DeviceUpdate::Battery(10)));
    assert!(c.apply_device_update(1, DeviceUpdate::Battery(20)));
    assert_eq!(c.get_device(1).unwrap().battery_percent, Some(20));
    assert_eq!(c.get_device(2).unwrap().battery_percent, None);
}

#[test]
fn connect_flow_statuses() {
    let mut c = Coordinator::new();
    c.handle_device_added(1, &props(Some("A"), false));
    assert!(c.handle_connect_request(1));
    assert_eq!(c.get_device(1).unwrap().status, ConnectionStatus::Connecting);
    assert!(c.handle_connect_failed(1));
    assert_eq!(c.get_device(1).unwrap().status, ConnectionStatus::Disconnected);
    assert!(c.apply_device_update(1, DeviceUpdate::Connected(true)));
    assert_eq!(c.get_device(1).unwrap().status, ConnectionStatus::Connected);
    assert!(c.handle_disconnect_request(1));
    assert_eq!(c.get_device(1).unwrap().status, ConnectionStatus::Disconnecting);
    assert!(!c.handle_connect_request(9));
}

#[test]
fn discovery_needs_power() {
    let mut c = Coordinator::new();
    assert!(!c.handle_set_discovery(true, false));
    assert!(!c.is_discovering());
    assert!(c.handle_set_discovery(true, true));
    assert!(c.is_discovering());
    assert!(!c.handle_set_discovery(false, true));
    assert!(!c.is_discovering());
}

#[test]
fn disable_tears_down_listeners_and_keeps_cache() {
    let mut c = Coordinator::new();
    c.handle_device_added(1, &props(Some("A"), false));
    c.handle_device_added(2, &props(Some("B"), false));
    let mut aborted = c.handle_disabled();
    aborted.sort();
    assert_eq!(aborted, vec![1, 2]);
    assert!(!c.has_listener(1));
    assert!(!c.has_listener(2));
    assert!(c.get_device(1).is_some());
    assert!(c.get_device(2).is_some());
}

#[test]
fn rebuild_replaces_cache_and_filters_unnamed_generic_devices() {
    let mut c = Coordinator::new();
    c.handle_device_added(9, &props(Some("Old"), false));
    let entries = vec![
        DeviceEntry { address: 1, props: props(Some("A"), false) },
        // Nameless with a generic icon: not a real peripheral yet.
        DeviceEntry { address: 2, props: props(None, false) },
        // Nameless but with a known device type: kept.
        DeviceEntry {
            address: 3,
            props: DeviceProps {
                name: None,
                icon_type: Some(String::from("phone")),
                is_paired: false,
                is_connected: false,
                battery_percent: None,
            },
        },
    ];
    let snapshot = c.rebuild(&entries);
    assert_eq!(snapshot.len(), 2);
    assert!(c.get_device(1).is_some());
    assert!(c.get_device(2).is_none());
    assert!(c.get_device(3).is_some());
    assert!(c.get_device(9).is_none());
    assert!(c.has_listener(1));
    assert!(!c.has_listener(2));
    assert!(c.has_listener(3));
    assert!(!c.has_listener(9));
    assert_eq!(c.get_device(3).unwrap().name, "00:00:00:00:00:03");
    assert_eq!(c.get_device(3).unwrap().icon, "smartphone-symbolic");
}

#[test]
fn pairing_round_trip() {
    let mut c = Coordinator::new();
    c.handle_device_added(5, &props(Some("A"), false));
    c.handle_pairing_challenge(5, "123456");
    assert!(c.has_pending(5));
    assert_eq!(c.get_device(5).unwrap().display_code.as_deref(), Some("123456"));
    // The caller accepts: the stored acceptor is handed `true`, exactly once.
    assert_eq!(c.handle_confirm_answer(5, true), Some(true));
    assert!(!c.has_pending(5));
    assert!(c.get_device(5).unwrap().display_code.is_none());
    // A second answer finds no acceptor and is ignored.
    assert_eq!(c.handle_confirm_answer(5, true), None);
}

#[test]
fn pairing_rejection_hands_false() {
    let mut c = Coordinator::new();
    c.handle_pairing_challenge(6, "654321");
    assert_eq!(c.handle_confirm_answer(6, false), Some(false));
}

#[test]
fn removal_leaves_acceptor_stored() {
    let mut c = Coordinator::new();
    c.handle_device_added(5, &props(Some("A"), false));
    c.handle_pairing_challenge(5, "123456");
    assert!(c.handle_device_removed(5, false));
    // The accepted gap: the acceptor stays stored, unfulfilled by removal.
    assert!(c.has_pending(5));
    assert!(c.get_device(5).is_none());
}
