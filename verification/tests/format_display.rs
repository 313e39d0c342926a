use backend::display::{
    asset_change_resets_scenes, device_type_kind, multipress_count, pairing_code_digits, AssetKind,
    DeviceTypeKind,
    button_event_text, display_electrical_sensor, display_humidity_sensor,
    display_occupancy_sensor, display_switch, display_temperature_sensor, role_color,
    ClusterDisplay, ColorLabelStyle, ElectricalSensorParams, HumiditySensorParams,
    OccupancySensorParams, ServerConnectionState, SwitchParams, TemperatureSensorParams,
};
use backend::format::{
    format_100_scaled_value, format_millis, i64_to_decimal, transform_with_scale_prefix, ValueUnit,
    NULL_FORMAT,
};
use backend::thread::{RoutingRole, TlvValue};
use backend::device_status::{
    connection_status, DeviceConnectionStage, DeviceInitStatus, DeviceSubscriptionStatus, StatusView,
};

fn texts(d: ClusterDisplay) -> (String, Option<String>) {
    match d {
        ClusterDisplay::Text { primary, secondary } => (primary, secondary),
    }
}

#[test]
fn millis_below_a_thousand_stay_milli() {
    assert_eq!(format_millis(500, ValueUnit::Watt), "500 mW");
    assert_eq!(format_millis(1000, ValueUnit::Watt), "1000 mW");
    assert_eq!(format_millis(0, ValueUnit::Volt), "0 mV");
}

#[test]
fn millis_scale_by_thousands() {
    assert_eq!(format_millis(1500, ValueUnit::Watt), "1 W");
    assert_eq!(format_millis(900_000_000, ValueUnit::Watt), "900 kW");
    assert_eq!(format_millis(2_000_000, ValueUnit::WattHour), "2 kWh");
}

#[test]
fn millis_mega_is_written_like_milli() {
    assert_eq!(format_millis(1_500_000_000, ValueUnit::WattHour), "1 mWh");
    assert_eq!(format_millis(5_000_000_000_000, ValueUnit::Watt), "5 gW");
}

#[test]
fn millis_largest_value_reaches_tera() {
    assert_eq!(format_millis(i64::MAX, ValueUnit::Watt), "9223 tW");
}

#[test]
fn millis_negative_values_are_not_scaled() {
    assert_eq!(format_millis(-5000, ValueUnit::Volt), "-5000 mV");
}

#[test]
fn scale_prefix_of_two_million() {
    assert_eq!(transform_with_scale_prefix(2_000_000), (2, "k"));
    assert_eq!(transform_with_scale_prefix(1001), (1, ""));
    assert_eq!(transform_with_scale_prefix(-7), (-7, "m"));
}

#[test]
fn hundredths_with_decimal_comma() {
    assert_eq!(format_100_scaled_value(2105, ValueUnit::Celcius), "21,05 \u{b0}C");
    assert_eq!(format_100_scaled_value(4550, ValueUnit::Percent), "45,50 %");
    assert_eq!(format_100_scaled_value(5, ValueUnit::Percent), "0,05 %");
}

#[test]
fn hundredths_negative_keep_the_sign_on_both_parts() {
    assert_eq!(format_100_scaled_value(-105, ValueUnit::Celcius), "-1,-5 \u{b0}C");
    assert_eq!(format_100_scaled_value(-250, ValueUnit::Celcius), "-2,-50 \u{b0}C");
}

#[test]
fn unit_symbols() {
    assert_eq!(ValueUnit::Volt.to_string(), "V");
    assert_eq!(ValueUnit::Watt.to_string(), "W");
    assert_eq!(ValueUnit::WattHour.to_string(), "Wh");
    assert_eq!(ValueUnit::Celcius.to_string(), "\u{b0}C");
    assert_eq!(ValueUnit::Percent.symbol(), "%");
}

#[test]
fn decimal_of_extremes() {
    assert_eq!(i64_to_decimal(-42), "-42");
    assert_eq!(i64_to_decimal(i64::MIN), "-9223372036854775808");
    assert_eq!(i64_to_decimal(i64::MAX), "9223372036854775807");
}

#[test]
fn electrical_sensor_shows_power_and_energy() {
    let d = display_electrical_sensor(ElectricalSensorParams {
        active_power: 1500,
        total_energy_imported: 2_000_000,
    });
    assert_eq!(texts(d), ("1 W".to_string(), Some("2 kWh".to_string())));
}

#[test]
fn temperature_and_humidity_or_missing_mark() {
    let d = display_temperature_sensor(TemperatureSensorParams { temperature: Some(2105) });
    assert_eq!(texts(d), ("21,05 \u{b0}C".to_string(), None));
    let d = display_temperature_sensor(TemperatureSensorParams { temperature: None });
    assert_eq!(texts(d), (NULL_FORMAT.to_string(), None));
    assert_eq!(NULL_FORMAT, "???");
    let d = display_humidity_sensor(HumiditySensorParams { humidity: Some(4550) });
    assert_eq!(texts(d), ("45,50 %".to_string(), None));
    let d = display_humidity_sensor(HumiditySensorParams { humidity: None });
    assert_eq!(texts(d), ("???".to_string(), None));
}

#[test]
fn occupancy_and_switch() {
    let d = display_occupancy_sensor(OccupancySensorParams { is_occupied: true });
    assert_eq!(texts(d), ("Occupied".to_string(), None));
    let d = display_occupancy_sensor(OccupancySensorParams { is_occupied: false });
    assert_eq!(texts(d), ("Not occupied".to_string(), None));
    let d = display_switch(SwitchParams { current_position: 1, multi_press_max: 2 });
    assert_eq!(texts(d), ("1".to_string(), Some("max 2 presses".to_string())));
}

#[test]
fn role_colors() {
    assert_eq!(role_color(RoutingRole::Leader), "#008d18");
    assert_eq!(role_color(RoutingRole::Router), "#ff790b");
    assert_eq!(role_color(RoutingRole::Unspecified), "#aa0000");
    assert_eq!(role_color(RoutingRole::Unassigned), "#aa0000");
    assert_eq!(role_color(RoutingRole::SleepyEndDevice), "#03d3b0");
    assert_eq!(role_color(RoutingRole::EndDevice), "#0080ca");
    assert_eq!(role_color(RoutingRole::Reed), "#f5c235");
}

#[test]
fn label_classes_and_connection_texts() {
    assert_eq!(ColorLabelStyle::Room.class(), "room");
    assert_eq!(ColorLabelStyle::Label.class(), "label");
    assert_eq!(ColorLabelStyle::Scene.class(), "scene");
    assert_eq!(ServerConnectionState::Initializing.to_string(), "Initializing...");
    assert_eq!(ServerConnectionState::Connected.to_string(), "Connected to server");
    assert_eq!(ServerConnectionState::ConnectionLost.to_string(), "Connection lost");
}

#[test]
fn button_event_lines() {
    assert_eq!(button_event_text(1, None), "PRESS");
    assert_eq!(button_event_text(2, None), "LONG PRESS START");
    assert_eq!(button_event_text(3, Some(1)), "RELEASE");
    assert_eq!(button_event_text(4, None), "LONG PRESS RELEASE");
    assert_eq!(button_event_text(5, Some(3)), "ONGOING MULTIPRESS (3)");
    assert_eq!(button_event_text(6, None), "MULTIPRESS END (999)");
    assert_eq!(button_event_text(9, Some(2)), "UNKOWN");
}

fn status_parts(v: StatusView) -> (Option<String>, Option<String>, &'static str) {
    (v.status, v.details, v.class)
}

#[test]
fn connecting_devices_show_their_stage() {
    let v = connection_status(&DeviceInitStatus::Connecting { stage: DeviceConnectionStage::Queued }, "12:00:01");
    assert_eq!(
        status_parts(v),
        (
            Some("queued".to_string()),
            Some("Connecting...\n last update: queued at 12:00:01\n".to_string()),
            "waiting"
        )
    );
    let v = connection_status(
        &DeviceInitStatus::Connecting { stage: DeviceConnectionStage::Error("timeout".to_string()) },
        "08:15:00",
    );
    assert_eq!(
        status_parts(v),
        (
            Some("Connection error".to_string()),
            Some("Connecting...\n last update: Connection error at 08:15:00\ntimeout".to_string()),
            "error"
        )
    );
    let v = connection_status(&DeviceInitStatus::Connecting { stage: DeviceConnectionStage::StartingListeners }, "t");
    assert_eq!(v.class, "connecting");
    assert_eq!(v.status.as_deref(), Some("start listeners"));
    let v = connection_status(&DeviceInitStatus::Connecting { stage: DeviceConnectionStage::FetchingDeviceInfo }, "t");
    assert_eq!(v.status.as_deref(), Some("fetch device info"));
}

#[test]
fn connected_devices_show_their_subscription() {
    let connected = |s: Option<DeviceSubscriptionStatus>| {
        status_parts(connection_status(&DeviceInitStatus::Connected { subscription_status: s }, "x"))
    };
    assert_eq!(
        connected(Some(DeviceSubscriptionStatus::Established { subscription_id: 42 })),
        (None, Some("connected with subsription_id 42".to_string()), "connected")
    );
    assert_eq!(
        connected(Some(DeviceSubscriptionStatus::Resubscribing { cause: "lost".to_string() })),
        (Some("resubscribing".to_string()), Some("resubscribing because of: lost".to_string()), "connecting")
    );
    assert_eq!(
        connected(Some(DeviceSubscriptionStatus::Lagged { dropped_events: 3 })),
        (Some("lagged (dropped 3)".to_string()), None, "connected")
    );
    assert_eq!(connected(Some(DeviceSubscriptionStatus::Closed)), (Some("closed".to_string()), None, "error"));
    assert_eq!(connected(None), (None, None, "waiting"));
}

#[test]
fn device_type_kinds() {
    assert_eq!(device_type_kind(0x010C), DeviceTypeKind::ColorLight);
    assert_eq!(device_type_kind(0x010D), DeviceTypeKind::ColorLight);
    assert_eq!(device_type_kind(0x0107), DeviceTypeKind::OccupancySensor);
    assert_eq!(device_type_kind(0x0510), DeviceTypeKind::ElectricalSensor);
    assert_eq!(device_type_kind(0x0011), DeviceTypeKind::PowerSource);
    assert_eq!(device_type_kind(0x000F), DeviceTypeKind::Switch);
    assert_eq!(device_type_kind(0x0302), DeviceTypeKind::TemperatureSensor);
    assert_eq!(device_type_kind(0x0307), DeviceTypeKind::HumiditySensor);
    assert_eq!(device_type_kind(0x0100), DeviceTypeKind::Unsupported);
}

#[test]
fn pairing_codes_lose_their_dashes() {
    assert_eq!(pairing_code_digits("0251-520-0076"), "02515200076");
    assert_eq!(pairing_code_digits("MT:Y.K908"), "MT:Y.K908");
    assert_eq!(pairing_code_digits("--"), "");
}

#[test]
fn press_count_of_multipress_events() {
    assert_eq!(multipress_count(&vec![(0, TlvValue::Uint(7)), (1, TlvValue::Uint(3))]), Some(3));
    assert_eq!(multipress_count(&vec![(1, TlvValue::Bool(true)), (1, TlvValue::Uint(3))]), None);
    assert_eq!(multipress_count(&vec![(2, TlvValue::Uint(3))]), None);
    assert_eq!(
        button_event_text(5, multipress_count(&vec![(1, TlvValue::Uint(2))])),
        "ONGOING MULTIPRESS (2)"
    );
}

#[test]
fn scene_asset_changes_reset_the_stack() {
    assert!(asset_change_resets_scenes(AssetKind::Scene));
    assert!(asset_change_resets_scenes(AssetKind::SceneLayer));
    assert!(!asset_change_resets_scenes(AssetKind::Other));
}
