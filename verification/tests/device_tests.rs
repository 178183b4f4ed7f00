use bluetooth_applet::BluetoothDevice;
use bluetooth_applet::ConnectionStatus;
use bluetooth_applet::DeviceProps;
use bluetooth_applet::DeviceUpdate;
use bluetooth_applet::device_type_to_icon;
use bluetooth_applet::format_address;

fn props(
    name: Option<&str>,
    icon_type: Option<&str>,
    paired: bool,
    connected: bool,
    battery: Option<u8>,
) -> DeviceProps {
    DeviceProps {
        name: name.map(String::from),
        icon_type: icon_type.map(String::from),
        is_paired: paired,
        is_connected: connected,
        battery_percent: battery,
    }
}

#[test]
fn icon_lookup_known_types() {
    assert_eq!(device_type_to_icon("computer"), "laptop-symbolic");
    assert_eq!(device_type_to_icon("phone"), "smartphone-symbolic");
    assert_eq!(device_type_to_icon("audio-headset"), "audio-headset-symbolic");
    assert_eq!(device_type_to_icon("input-mouse"), "input-mouse-symbolic");
    assert_eq!(device_type_to_icon("printer"), "printer-network-symbolic");
}

#[test]
fn icon_lookup_unknown_type_falls_back() {
    assert_eq!(device_type_to_icon("toaster"), "bluetooth-symbolic");
    assert_eq!(device_type_to_icon(""), "bluetooth-symbolic");
}

#[test]
fn address_formatting_exact() {
    assert_eq!(format_address(0x0011_22AA_BBCC), "00:11:22:AA:BB:CC");
    assert_eq!(format_address(0), "00:00:00:00:00:00");
    assert_eq!(format_address(0xFFFF_FFFF_FFFF), "FF:FF:FF:FF:FF:FF");
}

#[test]
fn record_from_props_uses_name_and_icon() {
    let d = BluetoothDevice::from_device(
        0x0011_22AA_BBCC,
        &props(Some("Headphones"), Some("audio-headphones"), true, true, Some(90)),
    );
    assert_eq!(d.name, "Headphones");
    assert_eq!(d.icon, "audio-headphones-symbolic");
    assert_eq!(d.status, ConnectionStatus::Connected);
    assert!(d.is_paired);
    assert_eq!(d.battery_percent, Some(90));
    assert_eq!(d.address, 0x0011_22AA_BBCC);
    assert!(d.display_code.is_none());
}

#[test]
fn record_from_props_name_falls_back_to_address() {
    let d = BluetoothDevice::from_device(0x0011_22AA_BBCC, &props(None, None, false, false, None));
    assert_eq!(d.name, "00:11:22:AA:BB:CC");
    assert_eq!(d.icon, "bluetooth-symbolic");
    assert_eq!(d.status, ConnectionStatus::Disconnected);

    let e = BluetoothDevice::from_device(0x1, &props(Some(""), None, false, false, None));
    assert_eq!(e.name, "00:00:00:00:00:01");
}

#[test]
fn updates_reflect_most_recent_value() {
    let mut d = BluetoothDevice::from_device(5, &props(Some("X"), None, false, false, None));
    d.handle_device_updates(DeviceUpdate::Battery(40));
    assert_eq!(d.battery_percent, Some(40));
    d.handle_device_updates(DeviceUpdate::Battery(35));
    assert_eq!(d.battery_percent, Some(35));
    d.handle_device_updates(DeviceUpdate::Paired(true));
    assert!(d.is_paired);
    assert_eq!(d.battery_percent, Some(35));
    d.handle_device_updates(DeviceUpdate::Connected(true));
    assert_eq!(d.status, ConnectionStatus::Connected);
    d.handle_device_updates(DeviceUpdate::Connected(false));
    assert_eq!(d.status, ConnectionStatus::Disconnected);
    assert!(d.is_paired);
}
