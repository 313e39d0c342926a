use backend::thread::{
    address_map_entries, lookup_ext_address, parse_hex_u64, thread_dataset_from_text, thread_data_from_values, try_thread_data_from_values,
    NeighborTableStruct, RouteTableStruct, RoutingRole, ThreadDataError, TlvValue,
    NEIGHBOR_TABLE, ROUTE_TABLE, ROUTING_ROLE, THREAD_DIAGNOSTICS_CLUSTER,
};

fn neighbor_fields() -> Vec<TlvValue> {
    vec![
        TlvValue::Uint(0x1122_3344_5566_7788),
        TlvValue::Uint(12),
        TlvValue::Uint(0x5800),
        TlvValue::Uint(100),
        TlvValue::Uint(200),
        TlvValue::Uint(3),
        TlvValue::Int(-60),
        TlvValue::Int(-58),
        TlvValue::Uint(1),
        TlvValue::Uint(2),
        TlvValue::Bool(true),
        TlvValue::Bool(true),
        TlvValue::Bool(false),
        TlvValue::Bool(false),
    ]
}

fn route_fields() -> Vec<TlvValue> {
    vec![
        TlvValue::Uint(0xaabb),
        TlvValue::Uint(0x0400),
        TlvValue::Uint(1),
        TlvValue::Uint(2),
        TlvValue::Uint(3),
        TlvValue::Uint(4),
        TlvValue::Uint(5),
        TlvValue::Uint(6),
        TlvValue::Bool(true),
        TlvValue::Bool(false),
    ]
}

fn full_report() -> Vec<(u32, TlvValue)> {
    vec![
        (ROUTING_ROLE, TlvValue::Uint(5)),
        (NEIGHBOR_TABLE, TlvValue::Array(vec![TlvValue::Structure(neighbor_fields())])),
        (ROUTE_TABLE, TlvValue::Array(vec![TlvValue::Structure(route_fields())])),
    ]
}

fn error_of(values: Vec<(u32, TlvValue)>) -> ThreadDataError {
    match thread_data_from_values(&values, None) {
        Err(e) => e,
        Ok(_) => panic!("decoding should fail"),
    }
}

#[test]
fn attribute_numbers() {
    assert_eq!(THREAD_DIAGNOSTICS_CLUSTER, 0x35);
    assert_eq!((ROUTING_ROLE, NEIGHBOR_TABLE, ROUTE_TABLE), (1, 7, 8));
}

#[test]
fn decodes_role_and_tables() {
    let data = thread_data_from_values(&full_report(), Some(0xdead_beef)).unwrap();
    assert_eq!(data.address, Some(0xdead_beef));
    assert_eq!(data.role, RoutingRole::Router);
    assert_eq!(
        data.neighbor_table,
        vec![NeighborTableStruct {
            address: 0x1122_3344_5566_7788,
            age: 12,
            rloc_16: 0x5800,
            link_frame_counter: 100,
            mle_frame_counter: 200,
            lqi: 3,
            average_rssi: -60,
            last_rssi: -58,
            frame_error_rate: 1,
            message_error_rate: 2,
            rx_on_when_idle: true,
            full_thread_device: true,
            full_network_data: false,
            is_child: false,
        }]
    );
    assert_eq!(
        data.route_table,
        vec![RouteTableStruct {
            address: 0xaabb,
            rloc_16: 0x0400,
            router_id: 1,
            next_hop: 2,
            path_cost: 3,
            lqi_in: 4,
            lqi_out: 5,
            age: 6,
            allocated: true,
            link_established: false,
        }]
    );
}

#[test]
fn later_report_replaces_earlier_one() {
    let mut values = full_report();
    values.push((ROUTING_ROLE, TlvValue::Uint(6)));
    values.push((NEIGHBOR_TABLE, TlvValue::Array(vec![])));
    let data = thread_data_from_values(&values, None).unwrap();
    assert_eq!(data.role, RoutingRole::Leader);
    assert_eq!(data.neighbor_table.len(), 0);
    assert_eq!(data.route_table.len(), 1);
}

#[test]
fn numbers_are_cut_to_field_width() {
    let mut fields = neighbor_fields();
    fields[1] = TlvValue::Uint(0x1_0000_0005);
    let values = vec![
        (ROUTING_ROLE, TlvValue::Uint(3)),
        (NEIGHBOR_TABLE, TlvValue::Array(vec![TlvValue::Structure(fields)])),
        (ROUTE_TABLE, TlvValue::Array(vec![])),
    ];
    let data = thread_data_from_values(&values, None).unwrap();
    assert_eq!(data.neighbor_table[0].age, 5);
    assert_eq!(data.role, RoutingRole::EndDevice);
}

#[test]
fn role_errors() {
    assert_eq!(error_of(vec![(ROUTING_ROLE, TlvValue::Bool(true))]), ThreadDataError::RoutingRoleNotUint);
    assert_eq!(error_of(vec![(ROUTING_ROLE, TlvValue::Uint(9))]), ThreadDataError::UnknownRole(9));
}

#[test]
fn table_shape_errors() {
    assert_eq!(error_of(vec![(NEIGHBOR_TABLE, TlvValue::Uint(1))]), ThreadDataError::NeighborTableNotArray);
    assert_eq!(
        error_of(vec![(NEIGHBOR_TABLE, TlvValue::Array(vec![TlvValue::Other]))]),
        ThreadDataError::NeighborEntryNotStructured
    );
    assert_eq!(error_of(vec![(ROUTE_TABLE, TlvValue::Other)]), ThreadDataError::RouteTableNotArray);
    assert_eq!(
        error_of(vec![(ROUTE_TABLE, TlvValue::Array(vec![TlvValue::Uint(1)]))]),
        ThreadDataError::RouteEntryNotStructured
    );
}

#[test]
fn field_kind_errors() {
    let mut fields = neighbor_fields();
    fields[0] = TlvValue::Int(1);
    assert_eq!(
        error_of(vec![(NEIGHBOR_TABLE, TlvValue::Array(vec![TlvValue::Structure(fields)]))]),
        ThreadDataError::NotUint
    );
    let mut fields = neighbor_fields();
    fields[6] = TlvValue::Uint(1);
    assert_eq!(
        error_of(vec![(NEIGHBOR_TABLE, TlvValue::Array(vec![TlvValue::Structure(fields)]))]),
        ThreadDataError::NotInt
    );
    let mut fields = route_fields();
    fields[9] = TlvValue::Uint(1);
    assert_eq!(
        error_of(vec![(ROUTE_TABLE, TlvValue::Array(vec![TlvValue::Structure(fields)]))]),
        ThreadDataError::NotBool
    );
}

#[test]
fn unknown_attribute_and_missing_parts() {
    assert_eq!(error_of(vec![(0x42, TlvValue::Uint(1))]), ThreadDataError::UnknownAttribute(0x42));
    assert_eq!(error_of(vec![]), ThreadDataError::RoutingRoleMissing);
    assert_eq!(error_of(vec![(ROUTING_ROLE, TlvValue::Uint(0))]), ThreadDataError::NeighborTableMissing);
    assert_eq!(
        error_of(vec![(ROUTING_ROLE, TlvValue::Uint(0)), (NEIGHBOR_TABLE, TlvValue::Array(vec![]))]),
        ThreadDataError::RouteTableMissing
    );
}

#[test]
fn first_failure_wins() {
    let values = vec![(ROUTING_ROLE, TlvValue::Uint(8)), (0x99, TlvValue::Other)];
    assert_eq!(error_of(values), ThreadDataError::UnknownRole(8));
}

#[test]
fn row_missing_a_field_gives_none() {
    let mut fields = route_fields();
    fields.pop();
    let values = vec![(ROUTE_TABLE, TlvValue::Array(vec![TlvValue::Structure(fields)]))];
    assert!(try_thread_data_from_values(&values, None).is_none());
    assert!(try_thread_data_from_values(&full_report(), None).unwrap().is_ok());
}

#[test]
fn hex_parsing() {
    assert_eq!(parse_hex_u64("ff"), Some(255));
    assert_eq!(parse_hex_u64("DeadBeef"), Some(0xdead_beef));
    assert_eq!(parse_hex_u64("+1a"), Some(26));
    assert_eq!(parse_hex_u64("ffffffffffffffff"), Some(u64::MAX));
    assert_eq!(parse_hex_u64("0000000000000000001"), Some(1));
}

#[test]
fn hex_parsing_rejects() {
    assert_eq!(parse_hex_u64(""), None);
    assert_eq!(parse_hex_u64("+"), None);
    assert_eq!(parse_hex_u64("-"), None);
    assert_eq!(parse_hex_u64("-1"), None);
    assert_eq!(parse_hex_u64("12g"), None);
    assert_eq!(parse_hex_u64("10000000000000000"), None);
}

#[test]
fn hex_parsing_agrees_with_std() {
    for s in ["0", "7f", "ABCDEF", "+0", "1234567890abcdef", "fffffffffffffffff", "x", " 1"] {
        assert_eq!(parse_hex_u64(s), u64::from_str_radix(s, 16).ok(), "{s}");
    }
}

#[test]
fn address_map_reads_extended_addresses() {
    let entries = vec![
        ("1a2b3c4d5e6f7081".to_string(), "fd00::1".to_string()),
        ("00000000000000ff".to_string(), "fd00::2".to_string()),
    ];
    let map = address_map_entries(&entries);
    assert_eq!(map, vec![("fd00::1".to_string(), 0x1a2b_3c4d_5e6f_7081), ("fd00::2".to_string(), 255)]);
}

#[test]
fn ext_address_lookup_takes_the_last_entry() {
    let entries = vec![
        ("fd00::1".to_string(), 1),
        ("fd00::2".to_string(), 2),
        ("fd00::1".to_string(), 3),
    ];
    assert_eq!(lookup_ext_address(&entries, "fd00::1"), Some(3));
    assert_eq!(lookup_ext_address(&entries, "fd00::2"), Some(2));
    assert_eq!(lookup_ext_address(&entries, "fd00::9"), None);
    assert_eq!(lookup_ext_address(&vec![], "fd00::1"), None);
}

#[test]
fn thread_dataset_hex_text() {
    assert_eq!(thread_dataset_from_text("0e08ff"), Some(vec![0x0e, 0x08, 0xff]));
    assert_eq!(thread_dataset_from_text("AbCd"), Some(vec![0xab, 0xcd]));
    assert_eq!(thread_dataset_from_text(""), Some(vec![]));
    assert_eq!(thread_dataset_from_text("0e0"), None);
    assert_eq!(thread_dataset_from_text("zz"), None);
    assert_eq!(thread_dataset_from_text("0e08\n"), None);
    assert_eq!(thread_dataset_from_text("\u{e9}0"), None);
}
