use vstd::prelude::*;
use vstd::string::{StrSliceExecFns, StringExecFns};

use crate::format::{
    append_digits, format_100_scaled_value, format_millis, millis_text, nat_digits,
    scaled_100_text, ValueUnit, NULL_FORMAT,
};
use crate::thread::{RoutingRole, TlvValue};

verus! {

broadcast use vstd::string::group_string_axioms;

/// What a cluster shows on a device card.
pub enum ClusterDisplay {
    /// A main line of text and an optional line below it.
    Text { primary: String, secondary: Option<String> },
}

/// The texts of a [`ClusterDisplay`], by their characters.
pub open spec fn display_text(d: ClusterDisplay) -> (Seq<char>, Option<Seq<char>>) {
    match d {
        ClusterDisplay::Text { primary, secondary } => (
            primary@,
            match secondary {
                Some(s) => Some(s@),
                None => None,
            },
        ),
    }
}

/// Readings of an electrical power measurement.
#[derive(Clone, Copy, Debug, PartialEq, Eq, Structural)]
pub struct ElectricalSensorParams {
    /// Active power in milliwatts.
    pub active_power: i64,
    /// Energy imported in total, in milliwatt hours.
    pub total_energy_imported: i64,
}

/// Reading of a temperature sensor, in hundredths of a degree Celsius.
#[derive(Clone, Copy, Debug, PartialEq, Eq, Structural)]
pub struct TemperatureSensorParams {
    pub temperature: Option<i16>,
}

/// Reading of a humidity sensor, in hundredths of a percent.
#[derive(Clone, Copy, Debug, PartialEq, Eq, Structural)]
pub struct HumiditySensorParams {
    pub humidity: Option<u16>,
}

/// Reading of an occupancy sensor.
#[derive(Clone, Copy, Debug, PartialEq, Eq, Structural)]
pub struct OccupancySensorParams {
    pub is_occupied: bool,
}

/// State of a switch.
#[derive(Clone, Copy, Debug, PartialEq, Eq, Structural)]
pub struct SwitchParams {
    pub current_position: u8,
    pub multi_press_max: u8,
}

/// Power now, with the energy imported below it.
pub fn display_electrical_sensor(params: ElectricalSensorParams) -> (r: ClusterDisplay)
    ensures
        display_text(r) == (
            millis_text(params.active_power as int, ValueUnit::Watt),
            Some(millis_text(params.total_energy_imported as int, ValueUnit::WattHour)),
        ),
{
    ClusterDisplay::Text {
        primary: format_millis(params.active_power, ValueUnit::Watt),
        secondary: Some(format_millis(params.total_energy_imported, ValueUnit::WattHour)),
    }
}

/// The temperature, or the missing-value mark.
pub fn display_temperature_sensor(params: TemperatureSensorParams) -> (r: ClusterDisplay)
    ensures
        display_text(r) == (
            match params.temperature {
                Some(v) => scaled_100_text(v as int, ValueUnit::Celcius),
                None => NULL_FORMAT@,
            },
            None::<Seq<char>>,
        ),
{
    let primary = match params.temperature {
        Some(v) => format_100_scaled_value(v as i64, ValueUnit::Celcius),
        None => String::from_str(NULL_FORMAT),
    };
    ClusterDisplay::Text { primary, secondary: None }
}

/// The humidity, or the missing-value mark.
pub fn display_humidity_sensor(params: HumiditySensorParams) -> (r: ClusterDisplay)
    ensures
        display_text(r) == (
            match params.humidity {
                Some(v) => scaled_100_text(v as int, ValueUnit::Percent),
                None => NULL_FORMAT@,
            },
            None::<Seq<char>>,
        ),
{
    let primary = match params.humidity {
        Some(v) => format_100_scaled_value(v as i64, ValueUnit::Percent),
        None => String::from_str(NULL_FORMAT),
    };
    ClusterDisplay::Text { primary, secondary: None }
}

/// Whether the room is occupied.
pub fn display_occupancy_sensor(params: OccupancySensorParams) -> (r: ClusterDisplay)
    ensures
        display_text(r) == (
            if params.is_occupied {
                "Occupied"@
            } else {
                "Not occupied"@
            },
            None::<Seq<char>>,
        ),
{
    let primary = if params.is_occupied {
        String::from_str("Occupied")
    } else {
        String::from_str("Not occupied")
    };
    ClusterDisplay::Text { primary, secondary: None }
}

/// The switch position, with the most presses it counts below it.
pub fn display_switch(params: SwitchParams) -> (r: ClusterDisplay)
    ensures
        display_text(r) == (
            nat_digits(params.current_position as nat),
            Some("max "@ + nat_digits(params.multi_press_max as nat) + " presses"@),
        ),
{
    let mut primary = String::new();
    append_digits(&mut primary, params.current_position as u64);
    let mut secondary = String::from_str("max ");
    append_digits(&mut secondary, params.multi_press_max as u64);
    secondary.append(" presses");
    ClusterDisplay::Text { primary, secondary: Some(secondary) }
}

/// The color a node of the Thread network graph is drawn in, by its role.
pub open spec fn role_color_spec(role: RoutingRole) -> Seq<char> {
    match role {
        RoutingRole::Unspecified => "#aa0000"@,
        RoutingRole::Unassigned => "#aa0000"@,
        RoutingRole::SleepyEndDevice => "#03d3b0"@,
        RoutingRole::EndDevice => "#0080ca"@,
        RoutingRole::Reed => "#f5c235"@,
        RoutingRole::Router => "#ff790b"@,
        RoutingRole::Leader => "#008d18"@,
    }
}

/// The color a node of the Thread network graph is drawn in, by its role.
pub fn role_color(role: RoutingRole) -> (r: &'static str)
    ensures
        r@ == role_color_spec(role),
{
    match role {
        RoutingRole::Unspecified => "#aa0000",
        RoutingRole::Unassigned => "#aa0000",
        RoutingRole::SleepyEndDevice => "#03d3b0",
        RoutingRole::EndDevice => "#0080ca",
        RoutingRole::Reed => "#f5c235",
        RoutingRole::Router => "#ff790b",
        RoutingRole::Leader => "#008d18",
    }
}

/// The look of a colored label.
#[derive(Clone, Copy, Debug, PartialEq, Eq, Structural)]
pub enum ColorLabelStyle {
    Room,
    Label,
    Scene,
}

impl ColorLabelStyle {
    /// The style class of the label.
    pub fn class(&self) -> (r: &'static str)
        ensures
            r@ == match *self {
                ColorLabelStyle::Room => "room"@,
                ColorLabelStyle::Label => "label"@,
                ColorLabelStyle::Scene => "scene"@,
            },
    {
        match self {
            ColorLabelStyle::Room => "room",
            ColorLabelStyle::Label => "label",
            ColorLabelStyle::Scene => "scene",
        }
    }
}

/// The state of the connection to the server.
#[derive(Clone, Copy, Debug, PartialEq, Eq, Structural)]
pub enum ServerConnectionState {
    Initializing,
    Connected,
    ConnectionLost,
}

impl ServerConnectionState {
    /// The state as shown to the user.
    pub fn to_string(&self) -> (r: String)
        ensures
            r@ == match *self {
                ServerConnectionState::Initializing => "Initializing..."@,
                ServerConnectionState::Connected => "Connected to server"@,
                ServerConnectionState::ConnectionLost => "Connection lost"@,
            },
    {
        match self {
            ServerConnectionState::Initializing => String::from_str("Initializing..."),
            ServerConnectionState::Connected => String::from_str("Connected to server"),
            ServerConnectionState::ConnectionLost => String::from_str("Connection lost"),
        }
    }
}

/// The count a multi-press report carries, or 999 when it carries none.
pub open spec fn press_count(count: Option<u64>) -> nat {
    match count {
        Some(c) => c as nat,
        None => 999,
    }
}

/// The line printed for a switch event with number `event`; `count` is the press
/// count the event carries, if any.
pub open spec fn button_event_text_spec(event: u32, count: Option<u64>) -> Seq<char> {
    if event == 1 {
        "PRESS"@
    } else if event == 2 {
        "LONG PRESS START"@
    } else if event == 3 {
        "RELEASE"@
    } else if event == 4 {
        "LONG PRESS RELEASE"@
    } else if event == 5 {
        "ONGOING MULTIPRESS ("@ + nat_digits(press_count(count)) + ")"@
    } else if event == 6 {
        "MULTIPRESS END ("@ + nat_digits(press_count(count)) + ")"@
    } else {
        "UNKOWN"@
    }
}

/// The line printed for a switch event with number `event`; `count` is the press
/// count the event carries, if any.
pub fn button_event_text(event: u32, count: Option<u64>) -> (r: String)
    ensures
        r@ == button_event_text_spec(event, count),
{
    let n: u64 = match count {
        Some(c) => c,
        None => 999,
    };
    if event == 1 {
        String::from_str("PRESS")
    } else if event == 2 {
        String::from_str("LONG PRESS START")
    } else if event == 3 {
        String::from_str("RELEASE")
    } else if event == 4 {
        String::from_str("LONG PRESS RELEASE")
    } else if event == 5 {
        let mut s = String::from_str("ONGOING MULTIPRESS (");
        append_digits(&mut s, n);
        s.append(")");
        s
    } else if event == 6 {
        let mut s = String::from_str("MULTIPRESS END (");
        append_digits(&mut s, n);
        s.append(")");
        s
    } else {
        String::from_str("UNKOWN")
    }
}

/// What a device card shows for an endpoint, by the endpoint's device type.
#[derive(Clone, Copy, Debug, PartialEq, Eq, Structural)]
pub enum DeviceTypeKind {
    /// Extended color or color temperature light: the light control.
    ColorLight,
    OccupancySensor,
    ElectricalSensor,
    PowerSource,
    Switch,
    TemperatureSensor,
    HumiditySensor,
    /// Nothing is shown for other device types.
    Unsupported,
}

/// What a device card shows for an endpoint of device type `device_type`.
pub open spec fn device_type_kind_spec(device_type: u32) -> DeviceTypeKind {
    if device_type == 0x010C || device_type == 0x010D {
        DeviceTypeKind::ColorLight
    } else if device_type == 0x0107 {
        DeviceTypeKind::OccupancySensor
    } else if device_type == 0x0510 {
        DeviceTypeKind::ElectricalSensor
    } else if device_type == 0x0011 {
        DeviceTypeKind::PowerSource
    } else if device_type == 0x000F {
        DeviceTypeKind::Switch
    } else if device_type == 0x0302 {
        DeviceTypeKind::TemperatureSensor
    } else if device_type == 0x0307 {
        DeviceTypeKind::HumiditySensor
    } else {
        DeviceTypeKind::Unsupported
    }
}

/// What a device card shows for an endpoint of device type `device_type`; when the
/// clusters that kind reads are missing, the card shows nothing for it.
pub fn device_type_kind(device_type: u32) -> (r: DeviceTypeKind)
    ensures
        r == device_type_kind_spec(device_type),
{
    match device_type {
        0x010C | 0x010D => DeviceTypeKind::ColorLight,
        0x0107 => DeviceTypeKind::OccupancySensor,
        0x0510 => DeviceTypeKind::ElectricalSensor,
        0x0011 => DeviceTypeKind::PowerSource,
        0x000F => DeviceTypeKind::Switch,
        0x0302 => DeviceTypeKind::TemperatureSensor,
        0x0307 => DeviceTypeKind::HumiditySensor,
        _ => DeviceTypeKind::Unsupported,
    }
}

/// `code` with its dashes taken out.
pub open spec fn without_dashes(code: Seq<char>) -> Seq<char> {
    code.filter(|c: char| c != '-')
}

/// A pairing code as the commissioner takes it: the code as typed, without dashes.
pub fn pairing_code_digits(code: &str) -> (r: String)
    ensures
        r@ == without_dashes(code@),
{
    let n = code.unicode_len();
    let mut out = String::new();
    let mut i: usize = 0;
    proof {
        assert(code@.take(0) =~= Seq::<char>::empty());
        assert(without_dashes(Seq::<char>::empty()) =~= Seq::<char>::empty());
    }
    while i < n
        invariant
            i <= n,
            n == code@.len(),
            out@ == without_dashes(code@.take(i as int)),
        decreases n - i,
    {
        let piece = code.substring_char(i, i + 1);
        proof {
            assert(code@.take(i + 1) =~= code@.take(i as int).push(code@[i as int]));
            code@.take(i as int).lemma_filter_push(code@[i as int], |c: char| c != '-');
        }
        if code.get_char(i) != '-' {
            out.append(piece);
            proof {
                assert(piece@ =~= seq![code@[i as int]]);
            }
        }
        i = i + 1;
    }
    proof {
        assert(code@.take(n as int) =~= code@);
    }
    out
}

/// The press count a multi-press switch event carries: the value of its first field
/// tagged 1, when that is an unsigned integer.
pub open spec fn multipress_count_spec(fields: Seq<(u8, TlvValue)>) -> Option<u64>
    decreases fields.len(),
{
    if fields.len() == 0 {
        None
    } else if fields[0].0 == 1 {
        match fields[0].1 {
            TlvValue::Uint(v) => Some(v),
            _ => None,
        }
    } else {
        multipress_count_spec(fields.drop_first())
    }
}

/// The press count a multi-press switch event with fields `fields` carries, if any.
pub fn multipress_count(fields: &Vec<(u8, TlvValue)>) -> (r: Option<u64>)
    ensures
        r == multipress_count_spec(fields@),
{
    let mut i: usize = 0;
    proof {
        assert(fields@.skip(0) =~= fields@);
    }
    while i < fields.len()
        invariant
            i <= fields@.len(),
            multipress_count_spec(fields@) == multipress_count_spec(fields@.skip(i as int)),
        decreases fields@.len() - i,
    {
        proof {
            assert(fields@.skip(i as int).drop_first() =~= fields@.skip(i + 1));
            assert(fields@.skip(i as int)[0] == fields@[i as int]);
        }
        if fields[i].0 == 1 {
            return match &fields[i].1 {
                TlvValue::Uint(v) => Some(*v),
                _ => None,
            };
        }
        i = i + 1;
    }
    None
}

/// The kind of an asset whose change the event bus passes on.
#[derive(Clone, Copy, Debug, PartialEq, Eq, Structural)]
pub enum AssetKind {
    Scene,
    SceneLayer,
    /// Rooms, labels, devices, automations and any other asset.
    Other,
}

/// Whether a change to an asset of kind `kind` resets the scene stack: changes to
/// scenes and scene layers do, since the stack is built from them.
pub fn asset_change_resets_scenes(kind: AssetKind) -> (r: bool)
    ensures
        r == (kind == AssetKind::Scene || kind == AssetKind::SceneLayer),
{
    match kind {
        AssetKind::Scene | AssetKind::SceneLayer => true,
        AssetKind::Other => false,
    }
}

} // verus!
