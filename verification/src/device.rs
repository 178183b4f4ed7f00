//! Device records: the cached representation of one known peripheral and the
//! typed property updates that keep it current.

use vstd::prelude::*;

verus! {

/// Connection state of one device, as tracked by the coordinator.
#[derive(Debug, Clone, Copy, PartialEq, Eq, Structural)]
pub enum ConnectionStatus {
    Connected,
    Connecting,
    Disconnected,
    Disconnecting,
}

/// One typed property change reported for a device.
#[derive(Debug, Clone, Copy, PartialEq, Eq, Structural)]
pub enum DeviceUpdate {
    Connected(bool),
    Battery(u8),
    Paired(bool),
}

/// Compares two string slices character by character.
pub fn str_eq(a: &str, b: &str) -> (r: bool)
    ensures
        r == (a@ == b@),
{
    let a_len = a.unicode_len();
    let b_len = b.unicode_len();
    if a_len != b_len {
        return false;
    }
    let mut i: usize = 0;
    while i < a_len
        invariant
            a_len == a@.len(),
            b_len == b@.len(),
            a_len == b_len,
            i <= a_len,
            forall|k: int| 0 <= k < i ==> a@[k] == b@[k],
        decreases a_len - i,
    {
        if a.get_char(i) != b.get_char(i) {
            return false;
        }
        i = i + 1;
    }
    proof {
        assert(a@ =~= b@);
    }
    true
}

/// An uppercase hexadecimal digit, as a character.
pub open spec fn hex_digit(n: int) -> char {
    if n == 0 {
        '0'
    } else if n == 1 {
        '1'
    } else if n == 2 {
        '2'
    } else if n == 3 {
        '3'
    } else if n == 4 {
        '4'
    } else if n == 5 {
        '5'
    } else if n == 6 {
        '6'
    } else if n == 7 {
        '7'
    } else if n == 8 {
        '8'
    } else if n == 9 {
        '9'
    } else if n == 10 {
        'A'
    } else if n == 11 {
        'B'
    } else if n == 12 {
        'C'
    } else if n == 13 {
        'D'
    } else if n == 14 {
        'E'
    } else {
        'F'
    }
}

/// The two hexadecimal digits of one byte.
pub open spec fn spec_hex_pair(b: int) -> Seq<char> {
    seq![hex_digit(b / 16), hex_digit(b % 16)]
}

/// Byte `i` of a 48-bit address, most significant first (`i` in 0..6).
pub open spec fn spec_addr_byte(addr: u64, i: int) -> int {
    (addr as int / pow256(5 - i)) % 256
}

/// 256 raised to the power `n` (for `n` in 0..6).
pub open spec fn pow256(n: int) -> int
    decreases n,
{
    if n <= 0 {
        1
    } else {
        256 * pow256(n - 1)
    }
}

/// The display form of a hardware address: six bytes as uppercase
/// hexadecimal pairs joined by colons.
pub open spec fn spec_format_address(addr: u64) -> Seq<char> {
    spec_hex_pair(spec_addr_byte(addr, 0)) + seq![':'] + spec_hex_pair(spec_addr_byte(addr, 1))
        + seq![':'] + spec_hex_pair(spec_addr_byte(addr, 2)) + seq![':'] + spec_hex_pair(
        spec_addr_byte(addr, 3),
    ) + seq![':'] + spec_hex_pair(spec_addr_byte(addr, 4)) + seq![':'] + spec_hex_pair(
        spec_addr_byte(addr, 5),
    )
}

/// One uppercase hexadecimal digit as a string slice.
fn hex_digit_str(n: u8) -> (r: &'static str)
    requires
        n < 16,
    ensures
        r@ =~= seq![hex_digit(n as int)],
{
    let r: &'static str = match n {
        0 => "0",
        1 => "1",
        2 => "2",
        3 => "3",
        4 => "4",
        5 => "5",
        6 => "6",
        7 => "7",
        8 => "8",
        9 => "9",
        10 => "A",
        11 => "B",
        12 => "C",
        13 => "D",
        14 => "E",
        _ => "F",
    };
    proof {
        reveal_strlit("0");
        reveal_strlit("1");
        reveal_strlit("2");
        reveal_strlit("3");
        reveal_strlit("4");
        reveal_strlit("5");
        reveal_strlit("6");
        reveal_strlit("7");
        reveal_strlit("8");
        reveal_strlit("9");
        reveal_strlit("A");
        reveal_strlit("B");
        reveal_strlit("C");
        reveal_strlit("D");
        reveal_strlit("E");
        reveal_strlit("F");
    }
    r
}

/// Appends the two hexadecimal digits of `b` to `s`.
fn push_hex_byte(s: &mut String, b: u8)
    ensures
        final(s)@ == old(s)@ + spec_hex_pair(b as int),
{
    s.append(hex_digit_str(b / 16));
    s.append(hex_digit_str(b % 16));
    proof {
        assert(s@ =~= old(s)@ + spec_hex_pair(b as int));
    }
}

/// Renders a 48-bit hardware address in its display form, six uppercase
/// hexadecimal pairs joined by colons.
pub fn format_address(addr: u64) -> (r: String)
    ensures
        r@ == spec_format_address(addr),
{
    let mut s = String::new();
    let colon: &'static str = ":";
    proof {
        reveal_strlit(":");
    }
    push_hex_byte(&mut s, ((addr / 0x1_0000_0000_00u64) % 256) as u8);
    s.append(colon);
    push_hex_byte(&mut s, ((addr / 0x1_0000_0000u64) % 256) as u8);
    s.append(colon);
    push_hex_byte(&mut s, ((addr / 0x100_0000u64) % 256) as u8);
    s.append(colon);
    push_hex_byte(&mut s, ((addr / 0x1_0000u64) % 256) as u8);
    s.append(colon);
    push_hex_byte(&mut s, ((addr / 0x100u64) % 256) as u8);
    s.append(colon);
    push_hex_byte(&mut s, (addr % 256) as u8);
    proof {
        assert(s@ =~= spec_format_address(addr)) by {
            assert(pow256(0) == 1);
            assert(pow256(1) == 0x100);
            assert(pow256(2) == 0x1_0000);
            assert(pow256(3) == 0x100_0000);
            assert(pow256(4) == 0x1_0000_0000);
            assert(pow256(5) == 0x1_0000_0000_00);
        }
    }
    s
}

/// The icon class shown for a device whose type string is unknown.
pub open spec fn spec_default_icon() -> Seq<char> {
    "bluetooth-symbolic"@
}

/// The fixed device-type-to-icon lookup table.
pub open spec fn spec_device_type_to_icon(t: Seq<char>) -> Seq<char> {
    if t == "computer"@ {
        "laptop-symbolic"@
    } else if t == "phone"@ {
        "smartphone-symbolic"@
    } else if t == "network-wireless"@ {
        "network-wireless-symbolic"@
    } else if t == "audio-headset"@ {
        "audio-headset-symbolic"@
    } else if t == "audio-headphones"@ {
        "audio-headphones-symbolic"@
    } else if t == "camera-video"@ {
        "camera-video-symbolic"@
    } else if t == "audio-card"@ {
        "audio-card-symbolic"@
    } else if t == "input-gaming"@ {
        "input-gaming-symbolic"@
    } else if t == "input-keyboard"@ {
        "input-keyboard-symbolic"@
    } else if t == "input-tablet"@ {
        "input-tablet-symbolic"@
    } else if t == "input-mouse"@ {
        "input-mouse-symbolic"@
    } else if t == "printer"@ {
        "printer-network-symbolic"@
    } else if t == "camera-photo"@ {
        "camera-photo-symbolic"@
    } else {
        spec_default_icon()
    }
}

/// Maps a device-type string to its icon class; unknown types map to the
/// generic bluetooth icon.
pub fn device_type_to_icon(device_type: &str) -> (r: &'static str)
    ensures
        r@ == spec_device_type_to_icon(device_type@),
{
    if str_eq(device_type, "computer") {
        "laptop-symbolic"
    } else if str_eq(device_type, "phone") {
        "smartphone-symbolic"
    } else if str_eq(device_type, "network-wireless") {
        "network-wireless-symbolic"
    } else if str_eq(device_type, "audio-headset") {
        "audio-headset-symbolic"
    } else if str_eq(device_type, "audio-headphones") {
        "audio-headphones-symbolic"
    } else if str_eq(device_type, "camera-video") {
        "camera-video-symbolic"
    } else if str_eq(device_type, "audio-card") {
        "audio-card-symbolic"
    } else if str_eq(device_type, "input-gaming") {
        "input-gaming-symbolic"
    } else if str_eq(device_type, "input-keyboard") {
        "input-keyboard-symbolic"
    } else if str_eq(device_type, "input-tablet") {
        "input-tablet-symbolic"
    } else if str_eq(device_type, "input-mouse") {
        "input-mouse-symbolic"
    } else if str_eq(device_type, "printer") {
        "printer-network-symbolic"
    } else if str_eq(device_type, "camera-photo") {
        "camera-photo-symbolic"
    } else {
        "bluetooth-symbolic"
    }
}

/// The property set of one peripheral as the platform reports it, already
/// reduced to plain values.
pub struct DeviceProps {
    pub name: Option<String>,
    pub icon_type: Option<String>,
    pub is_paired: bool,
    pub is_connected: bool,
    pub battery_percent: Option<u8>,
}

/// Mathematical model of a property set.
#[verifier::ext_equal]
pub struct PropsView {
    pub name: Option<Seq<char>>,
    pub icon_type: Option<Seq<char>>,
    pub is_paired: bool,
    pub is_connected: bool,
    pub battery_percent: Option<u8>,
}

impl View for DeviceProps {
    type V = PropsView;

    open spec fn view(&self) -> PropsView {
        PropsView {
            name: match self.name {
                Some(n) => Some(n@),
                None => None,
            },
            icon_type: match self.icon_type {
                Some(t) => Some(t@),
                None => None,
            },
            is_paired: self.is_paired,
            is_connected: self.is_connected,
            battery_percent: self.battery_percent,
        }
    }
}

/// Cached record of one known peripheral, keyed by its 48-bit hardware
/// address.
pub struct BluetoothDevice {
    pub icon: String,
    pub name: String,
    pub status: ConnectionStatus,
    pub battery_percent: Option<u8>,
    pub is_paired: bool,
    pub address: u64,
    pub display_code: Option<String>,
}

/// Mathematical model of a device record.
#[verifier::ext_equal]
pub struct DeviceView {
    pub icon: Seq<char>,
    pub name: Seq<char>,
    pub status: ConnectionStatus,
    pub battery_percent: Option<u8>,
    pub is_paired: bool,
    pub address: u64,
    pub display_code: Option<Seq<char>>,
}

impl View for BluetoothDevice {
    type V = DeviceView;

    open spec fn view(&self) -> DeviceView {
        DeviceView {
            icon: self.icon@,
            name: self.name@,
            status: self.status,
            battery_percent: self.battery_percent,
            is_paired: self.is_paired,
            address: self.address,
            display_code: match self.display_code {
                Some(c) => Some(c@),
                None => None,
            },
        }
    }
}

/// The record created for a freshly reported device: the display name falls
/// back to the stringified address, the icon is derived once from the
/// device-type string, and no pairing code is pending.
pub open spec fn spec_device_from_props(addr: u64, p: PropsView) -> DeviceView {
    DeviceView {
        icon: spec_device_type_to_icon(
            match p.icon_type {
                Some(t) => t,
                None => Seq::empty(),
            },
        ),
        name: match p.name {
            Some(n) => if n.len() > 0 {
                n
            } else {
                spec_format_address(addr)
            },
            None => spec_format_address(addr),
        },
        status: if p.is_connected {
            ConnectionStatus::Connected
        } else {
            ConnectionStatus::Disconnected
        },
        battery_percent: p.battery_percent,
        is_paired: p.is_paired,
        address: addr,
        display_code: None,
    }
}

/// How one update changes a record: exactly the addressed field moves, to
/// the reported value; every other field is kept.
pub open spec fn spec_apply_update(d: DeviceView, u: DeviceUpdate) -> DeviceView {
    match u {
        DeviceUpdate::Battery(b) => DeviceView { battery_percent: Some(b), ..d },
        DeviceUpdate::Paired(p) => DeviceView { is_paired: p, ..d },
        DeviceUpdate::Connected(c) => DeviceView {
            status: if c {
                ConnectionStatus::Connected
            } else {
                ConnectionStatus::Disconnected
            },
            ..d
        },
    }
}

impl BluetoothDevice {
    /// Builds the cached record for a device from its reported property set.
    pub fn from_device(addr: u64, props: &DeviceProps) -> (d: BluetoothDevice)
        ensures
            d@ == spec_device_from_props(addr, props@),
    {
        let name: String = match &props.name {
            Some(n) => {
                if n.as_str().is_empty() {
                    format_address(addr)
                } else {
                    n.clone()
                }
            },
            None => format_address(addr),
        };
        let icon_type: &str = match &props.icon_type {
            Some(t) => t.as_str(),
            None => "",
        };
        proof {
            reveal_strlit("");
            assert(""@ =~= Seq::<char>::empty());
        }
        let icon = String::from_str(device_type_to_icon(icon_type));
        let status = if props.is_connected {
            ConnectionStatus::Connected
        } else {
            ConnectionStatus::Disconnected
        };
        let d = BluetoothDevice {
            icon,
            name,
            status,
            battery_percent: props.battery_percent,
            is_paired: props.is_paired,
            address: addr,
            display_code: None,
        };
        proof {
            assert(d@ =~= spec_device_from_props(addr, props@));
        }
        d
    }

    /// Forces the connection state, as request dispatch does.
    pub fn set_status(&mut self, status: ConnectionStatus)
        ensures
            final(self)@ == (DeviceView { status: status, ..old(self)@ }),
    {
        self.status = status;
        proof {
            assert(self@ =~= (DeviceView { status: status, ..old(self)@ }));
        }
    }

    /// Records the display code of an outstanding pairing challenge.
    pub fn set_display_code(&mut self, code: &str)
        ensures
            final(self)@ == (DeviceView { display_code: Some(code@), ..old(self)@ }),
    {
        self.display_code = Some(String::from_str(code));
        proof {
            assert(self@ =~= (DeviceView { display_code: Some(code@), ..old(self)@ }));
        }
    }

    /// Clears the display code once its challenge is answered.
    pub fn clear_display_code(&mut self)
        ensures
            final(self)@ == (DeviceView { display_code: None, ..old(self)@ }),
    {
        self.display_code = None;
        proof {
            assert(self@ =~= (DeviceView { display_code: None, ..old(self)@ }));
        }
    }

    /// Applies one typed update to this record.
    pub fn handle_device_updates(&mut self, update: DeviceUpdate)
        ensures
            final(self)@ == spec_apply_update(old(self)@, update),
    {
        match update {
            DeviceUpdate::Battery(battery) => self.battery_percent = Some(battery),
            DeviceUpdate::Paired(paired) => self.is_paired = paired,
            DeviceUpdate::Connected(connected) => {
                self.status = if connected {
                    ConnectionStatus::Connected
                } else {
                    ConnectionStatus::Disconnected
                };
            },
        }
        proof {
            assert(self@ =~= spec_apply_update(old(self)@, update));
        }
    }
}

/// A record reflects the most recent update applied to it: the field the
/// update addresses holds the reported value, and the other fields are
/// untouched.
pub proof fn lemma_update_reflects_latest(d: DeviceView, u: DeviceUpdate)
    ensures
        u matches DeviceUpdate::Battery(b) ==> spec_apply_update(d, u) == (DeviceView {
            battery_percent: Some(b),
            ..d
        }),
        u matches DeviceUpdate::Paired(p) ==> spec_apply_update(d, u) == (DeviceView {
            is_paired: p,
            ..d
        }),
        u matches DeviceUpdate::Connected(c) ==> spec_apply_update(d, u) == (DeviceView {
            status: if c {
                ConnectionStatus::Connected
            } else {
                ConnectionStatus::Disconnected
            },
            ..d
        }),
{
}

/// A later update to the same field wins: applying two updates of the same
/// kind leaves exactly the state of applying only the second.
pub proof fn lemma_update_last_wins(d: DeviceView, u1: DeviceUpdate, u2: DeviceUpdate)
    requires
        match (u1, u2) {
            (DeviceUpdate::Battery(_), DeviceUpdate::Battery(_)) => true,
            (DeviceUpdate::Paired(_), DeviceUpdate::Paired(_)) => true,
            (DeviceUpdate::Connected(_), DeviceUpdate::Connected(_)) => true,
            _ => false,
        },
    ensures
        spec_apply_update(spec_apply_update(d, u1), u2) == spec_apply_update(d, u2),
{
    assert(spec_apply_update(spec_apply_update(d, u1), u2) =~= spec_apply_update(d, u2));
}

} // verus!
