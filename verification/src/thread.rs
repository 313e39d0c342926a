use vstd::prelude::*;
use vstd::string::StrSliceExecFns;

use crate::numbers::{digit_value, parse_u64_radix, parse_u64_radix_spec};
use crate::text::names_equal;

verus! {

/// The Thread Network Diagnostics cluster.
pub const THREAD_DIAGNOSTICS_CLUSTER: u32 = 0x0035;

/// Attribute: the node's routing role.
pub const ROUTING_ROLE: u32 = 0x0001;

/// Attribute: the neighbor table.
pub const NEIGHBOR_TABLE: u32 = 0x0007;

/// Attribute: the route table.
pub const ROUTE_TABLE: u32 = 0x0008;

/// A decoded attribute value, as far as Thread diagnostics read it.
pub enum TlvValue {
    Uint(u64),
    Int(i64),
    Bool(bool),
    Array(Vec<TlvValue>),
    /// The field values of a structure, in order.
    Structure(Vec<TlvValue>),
    /// Any other kind of value.
    Other,
}

/// The routing role of a Thread node.
#[derive(Clone, Copy, Debug, PartialEq, Eq, Structural)]
pub enum RoutingRole {
    Unspecified,
    Unassigned,
    SleepyEndDevice,
    EndDevice,
    Reed,
    Router,
    Leader,
}

/// One row of a node's neighbor table.
#[derive(Clone, Copy, Debug, PartialEq, Eq, Structural)]
pub struct NeighborTableStruct {
    pub address: u64,
    pub age: u32,
    pub rloc_16: u16,
    pub link_frame_counter: u32,
    pub mle_frame_counter: u32,
    pub lqi: u8,
    pub average_rssi: i8,
    pub last_rssi: i8,
    pub frame_error_rate: u8,
    pub message_error_rate: u8,
    pub rx_on_when_idle: bool,
    pub full_thread_device: bool,
    pub full_network_data: bool,
    pub is_child: bool,
}

/// One row of a node's route table.
#[derive(Clone, Copy, Debug, PartialEq, Eq, Structural)]
pub struct RouteTableStruct {
    pub address: u64,
    pub rloc_16: u16,
    pub router_id: u8,
    pub next_hop: u8,
    pub path_cost: u8,
    pub lqi_in: u8,
    pub lqi_out: u8,
    pub age: u8,
    pub allocated: bool,
    pub link_established: bool,
}

/// What a node reports of its place in the Thread network.
pub struct ThreadDeviceData {
    pub address: Option<u64>,
    pub role: RoutingRole,
    pub neighbor_table: Vec<NeighborTableStruct>,
    pub route_table: Vec<RouteTableStruct>,
}

/// Why the diagnostics of a node could not be decoded.
#[derive(Clone, Copy, Debug, PartialEq, Eq, Structural)]
pub enum ThreadDataError {
    RoutingRoleNotUint,
    UnknownRole(u64),
    NeighborTableNotArray,
    NeighborEntryNotStructured,
    RouteTableNotArray,
    RouteEntryNotStructured,
    NotUint,
    NotInt,
    NotBool,
    UnknownAttribute(u32),
    RoutingRoleMissing,
    NeighborTableMissing,
    RouteTableMissing,
}

/// The kind of value a structure field must have.
#[derive(Clone, Copy, Debug, PartialEq, Eq, Structural)]
pub enum FieldKind {
    Uint,
    Int,
    Bool,
}

/// How decoding ends: with a value, with an error, or by running out of fields.
pub enum Decoded<T> {
    Done(T),
    Failed(ThreadDataError),
    MissingField,
}

/// The kinds of the fields of a neighbor table row, in order.
pub open spec fn neighbor_kinds() -> Seq<FieldKind> {
    seq![
        FieldKind::Uint, FieldKind::Uint, FieldKind::Uint, FieldKind::Uint, FieldKind::Uint,
        FieldKind::Uint, FieldKind::Int, FieldKind::Int, FieldKind::Uint, FieldKind::Uint,
        FieldKind::Bool, FieldKind::Bool, FieldKind::Bool, FieldKind::Bool,
    ]
}

/// The kinds of the fields of a route table row, in order.
pub open spec fn route_kinds() -> Seq<FieldKind> {
    seq![
        FieldKind::Uint, FieldKind::Uint, FieldKind::Uint, FieldKind::Uint, FieldKind::Uint,
        FieldKind::Uint, FieldKind::Uint, FieldKind::Uint, FieldKind::Bool, FieldKind::Bool,
    ]
}

/// Whether `v` has kind `k`.
pub open spec fn has_kind(v: TlvValue, k: FieldKind) -> bool {
    match k {
        FieldKind::Uint => v is Uint,
        FieldKind::Int => v is Int,
        FieldKind::Bool => v is Bool,
    }
}

/// The error for a field that lacks kind `k`.
pub open spec fn kind_error(k: FieldKind) -> ThreadDataError {
    match k {
        FieldKind::Uint => ThreadDataError::NotUint,
        FieldKind::Int => ThreadDataError::NotInt,
        FieldKind::Bool => ThreadDataError::NotBool,
    }
}

/// Checking fields `i..` of `fields` against `kinds` in order: `None` when all fit,
/// else the first failure: `Some(None)` for an absent field, `Some(Some(e))` for a field
/// of the wrong kind.
pub open spec fn field_problem(fields: Seq<TlvValue>, kinds: Seq<FieldKind>, i: nat) -> Option<
    Option<ThreadDataError>,
>
    decreases kinds.len() - i,
{
    if i >= kinds.len() {
        None
    } else if i >= fields.len() {
        Some(None)
    } else if !has_kind(fields[i as int], kinds[i as int]) {
        Some(Some(kind_error(kinds[i as int])))
    } else {
        field_problem(fields, kinds, i + 1)
    }
}

/// The unsigned value of `v`.
pub open spec fn u_of(v: TlvValue) -> u64 {
    match v {
        TlvValue::Uint(x) => x,
        _ => 0,
    }
}

/// The signed value of `v`.
pub open spec fn i_of(v: TlvValue) -> i64 {
    match v {
        TlvValue::Int(x) => x,
        _ => 0,
    }
}

/// The boolean value of `v`.
pub open spec fn b_of(v: TlvValue) -> bool {
    match v {
        TlvValue::Bool(x) => x,
        _ => false,
    }
}

/// The neighbor row built from fields that fit, each number cut to its field's width.
pub open spec fn neighbor_of(f: Seq<TlvValue>) -> NeighborTableStruct {
    NeighborTableStruct {
        address: u_of(f[0]),
        age: u_of(f[1]) as u32,
        rloc_16: u_of(f[2]) as u16,
        link_frame_counter: u_of(f[3]) as u32,
        mle_frame_counter: u_of(f[4]) as u32,
        lqi: u_of(f[5]) as u8,
        average_rssi: i_of(f[6]) as i8,
        last_rssi: i_of(f[7]) as i8,
        frame_error_rate: u_of(f[8]) as u8,
        message_error_rate: u_of(f[9]) as u8,
        rx_on_when_idle: b_of(f[10]),
        full_thread_device: b_of(f[11]),
        full_network_data: b_of(f[12]),
        is_child: b_of(f[13]),
    }
}

/// The route row built from fields that fit, each number cut to its field's width.
pub open spec fn route_of(f: Seq<TlvValue>) -> RouteTableStruct {
    RouteTableStruct {
        address: u_of(f[0]),
        rloc_16: u_of(f[1]) as u16,
        router_id: u_of(f[2]) as u8,
        next_hop: u_of(f[3]) as u8,
        path_cost: u_of(f[4]) as u8,
        lqi_in: u_of(f[5]) as u8,
        lqi_out: u_of(f[6]) as u8,
        age: u_of(f[7]) as u8,
        allocated: b_of(f[8]),
        link_established: b_of(f[9]),
    }
}

/// Decoding the neighbor rows `entries`, appended to the rows `acc` decoded so far.
pub open spec fn neighbors_from(entries: Seq<TlvValue>, acc: Seq<NeighborTableStruct>) -> Decoded<
    Seq<NeighborTableStruct>,
>
    decreases entries.len(),
{
    if entries.len() == 0 {
        Decoded::Done(acc)
    } else {
        match entries[0] {
            TlvValue::Structure(fields) => match field_problem(fields@, neighbor_kinds(), 0) {
                Some(None) => Decoded::MissingField,
                Some(Some(e)) => Decoded::Failed(e),
                None => neighbors_from(entries.drop_first(), acc.push(neighbor_of(fields@))),
            },
            _ => Decoded::Failed(ThreadDataError::NeighborEntryNotStructured),
        }
    }
}

/// Decoding the route rows `entries`, appended to the rows `acc` decoded so far.
pub open spec fn routes_from(entries: Seq<TlvValue>, acc: Seq<RouteTableStruct>) -> Decoded<
    Seq<RouteTableStruct>,
>
    decreases entries.len(),
{
    if entries.len() == 0 {
        Decoded::Done(acc)
    } else {
        match entries[0] {
            TlvValue::Structure(fields) => match field_problem(fields@, route_kinds(), 0) {
                Some(None) => Decoded::MissingField,
                Some(Some(e)) => Decoded::Failed(e),
                None => routes_from(entries.drop_first(), acc.push(route_of(fields@))),
            },
            _ => Decoded::Failed(ThreadDataError::RouteEntryNotStructured),
        }
    }
}

/// The routing role with number `n`.
pub open spec fn role_of(n: u64) -> Option<RoutingRole> {
    if n == 0 {
        Some(RoutingRole::Unspecified)
    } else if n == 1 {
        Some(RoutingRole::Unassigned)
    } else if n == 2 {
        Some(RoutingRole::SleepyEndDevice)
    } else if n == 3 {
        Some(RoutingRole::EndDevice)
    } else if n == 4 {
        Some(RoutingRole::Reed)
    } else if n == 5 {
        Some(RoutingRole::Router)
    } else if n == 6 {
        Some(RoutingRole::Leader)
    } else {
        None
    }
}

/// What has been decoded so far: the role and the two tables, each if seen.
pub struct ThreadParts {
    pub role: Option<RoutingRole>,
    pub neighbors: Option<Seq<NeighborTableStruct>>,
    pub routes: Option<Seq<RouteTableStruct>>,
}

/// Decoding one attribute report into `parts`; a later report of an attribute replaces
/// an earlier one.
pub open spec fn attr_step(attr: u32, value: TlvValue, parts: ThreadParts) -> Decoded<ThreadParts> {
    if attr == ROUTING_ROLE {
        match value {
            TlvValue::Uint(n) => match role_of(n) {
                Some(role) => Decoded::Done(ThreadParts { role: Some(role), ..parts }),
                None => Decoded::Failed(ThreadDataError::UnknownRole(n)),
            },
            _ => Decoded::Failed(ThreadDataError::RoutingRoleNotUint),
        }
    } else if attr == NEIGHBOR_TABLE {
        match value {
            TlvValue::Array(entries) => match neighbors_from(entries@, Seq::empty()) {
                Decoded::Done(rows) => Decoded::Done(ThreadParts { neighbors: Some(rows), ..parts }),
                Decoded::Failed(e) => Decoded::Failed(e),
                Decoded::MissingField => Decoded::MissingField,
            },
            _ => Decoded::Failed(ThreadDataError::NeighborTableNotArray),
        }
    } else if attr == ROUTE_TABLE {
        match value {
            TlvValue::Array(entries) => match routes_from(entries@, Seq::empty()) {
                Decoded::Done(rows) => Decoded::Done(ThreadParts { routes: Some(rows), ..parts }),
                Decoded::Failed(e) => Decoded::Failed(e),
                Decoded::MissingField => Decoded::MissingField,
            },
            _ => Decoded::Failed(ThreadDataError::RouteTableNotArray),
        }
    } else {
        Decoded::Failed(ThreadDataError::UnknownAttribute(attr))
    }
}

/// Decoding the attribute reports `values` in order, starting from `parts`.
pub open spec fn attrs_from(values: Seq<(u32, TlvValue)>, parts: ThreadParts) -> Decoded<ThreadParts>
    decreases values.len(),
{
    if values.len() == 0 {
        Decoded::Done(parts)
    } else {
        match attr_step(values[0].0, values[0].1, parts) {
            Decoded::Done(next) => attrs_from(values.drop_first(), next),
            Decoded::Failed(e) => Decoded::Failed(e),
            Decoded::MissingField => Decoded::MissingField,
        }
    }
}

/// Decoding the attribute reports `values` of a node, checking that all three parts came.
pub open spec fn thread_decode(values: Seq<(u32, TlvValue)>) -> Decoded<ThreadParts> {
    match attrs_from(values, ThreadParts { role: None, neighbors: None, routes: None }) {
        Decoded::Done(parts) => if parts.role is None {
            Decoded::Failed(ThreadDataError::RoutingRoleMissing)
        } else if parts.neighbors is None {
            Decoded::Failed(ThreadDataError::NeighborTableMissing)
        } else if parts.routes is None {
            Decoded::Failed(ThreadDataError::RouteTableMissing)
        } else {
            Decoded::Done(parts)
        },
        other => other,
    }
}

/// `parts` as decoded so far by the exec state.
pub open spec fn parts_view(
    role: Option<RoutingRole>,
    neighbors: Option<Vec<NeighborTableStruct>>,
    routes: Option<Vec<RouteTableStruct>>,
) -> ThreadParts {
    ThreadParts {
        role,
        neighbors: match neighbors {
            Some(v) => Some(v@),
            None => None,
        },
        routes: match routes {
            Some(v) => Some(v@),
            None => None,
        },
    }
}

/// Checks `fields` against `kinds` in order.
fn check_fields(fields: &Vec<TlvValue>, kinds: &Vec<FieldKind>) -> (r: Option<Option<ThreadDataError>>)
    ensures
        r == field_problem(fields@, kinds@, 0),
{
    let mut i: usize = 0;
    while i < kinds.len()
        invariant
            i <= kinds@.len(),
            field_problem(fields@, kinds@, 0) == field_problem(fields@, kinds@, i as nat),
        decreases kinds@.len() - i,
    {
        if i >= fields.len() {
            return Some(None);
        }
        let fits = match kinds[i] {
            FieldKind::Uint => match &fields[i] {
                TlvValue::Uint(_) => true,
                _ => false,
            },
            FieldKind::Int => match &fields[i] {
                TlvValue::Int(_) => true,
                _ => false,
            },
            FieldKind::Bool => match &fields[i] {
                TlvValue::Bool(_) => true,
                _ => false,
            },
        };
        if !fits {
            let e = match kinds[i] {
                FieldKind::Uint => ThreadDataError::NotUint,
                FieldKind::Int => ThreadDataError::NotInt,
                FieldKind::Bool => ThreadDataError::NotBool,
            };
            return Some(Some(e));
        }
        i = i + 1;
    }
    None
}

/// The unsigned value of an unsigned field.
fn uint(v: &TlvValue) -> (r: u64)
    ensures
        r == u_of(*v),
{
    match v {
        TlvValue::Uint(x) => *x,
        _ => 0,
    }
}

/// The signed value of a signed field.
fn sint(v: &TlvValue) -> (r: i64)
    ensures
        r == i_of(*v),
{
    match v {
        TlvValue::Int(x) => *x,
        _ => 0,
    }
}

/// The value of a boolean field.
fn boolean(v: &TlvValue) -> (r: bool)
    ensures
        r == b_of(*v),
{
    match v {
        TlvValue::Bool(x) => *x,
        _ => false,
    }
}

/// The kinds of the neighbor row fields.
fn neighbor_kind_list() -> (r: Vec<FieldKind>)
    ensures
        r@ == neighbor_kinds(),
{
    let r = vec![
        FieldKind::Uint, FieldKind::Uint, FieldKind::Uint, FieldKind::Uint, FieldKind::Uint,
        FieldKind::Uint, FieldKind::Int, FieldKind::Int, FieldKind::Uint, FieldKind::Uint,
        FieldKind::Bool, FieldKind::Bool, FieldKind::Bool, FieldKind::Bool,
    ];
    proof {
        assert(r@ =~= neighbor_kinds());
    }
    r
}

/// The kinds of the route row fields.
fn route_kind_list() -> (r: Vec<FieldKind>)
    ensures
        r@ == route_kinds(),
{
    let r = vec![
        FieldKind::Uint, FieldKind::Uint, FieldKind::Uint, FieldKind::Uint, FieldKind::Uint,
        FieldKind::Uint, FieldKind::Uint, FieldKind::Uint, FieldKind::Bool, FieldKind::Bool,
    ];
    proof {
        assert(r@ =~= route_kinds());
    }
    r
}

/// If no field is missing or of the wrong kind, there are enough fields of the right kinds.
proof fn lemma_fields_fit(fields: Seq<TlvValue>, kinds: Seq<FieldKind>, i: nat)
    requires
        field_problem(fields, kinds, i) is None,
        i <= fields.len(),
    ensures
        fields.len() >= kinds.len(),
        forall|j: int| i <= j < kinds.len() ==> has_kind(fields[j], kinds[j]),
    decreases kinds.len() - i,
{
    if i < kinds.len() {
        lemma_fields_fit(fields, kinds, i + 1);
    }
}

/// Decodes the rows of a neighbor table.
fn decode_neighbors(entries: &Vec<TlvValue>) -> (r: Result<Vec<NeighborTableStruct>, Option<ThreadDataError>>)
    ensures
        match neighbors_from(entries@, Seq::empty()) {
            Decoded::Done(rows) => r matches Ok(v) && v@ == rows,
            Decoded::Failed(e) => r matches Err(Some(x)) && x == e,
            Decoded::MissingField => r matches Err(None),
        },
{
    let kinds = neighbor_kind_list();
    let mut rows: Vec<NeighborTableStruct> = Vec::new();
    let mut i: usize = 0;
    proof {
        assert(entries@.skip(0) =~= entries@);
    }
    while i < entries.len()
        invariant
            kinds@ == neighbor_kinds(),
            i <= entries@.len(),
            neighbors_from(entries@, Seq::empty()) == neighbors_from(entries@.skip(i as int), rows@),
        decreases entries@.len() - i,
    {
        proof {
            assert(entries@.skip(i as int)[0] == entries@[i as int]);
            assert(entries@.skip(i as int).drop_first() =~= entries@.skip(i + 1));
        }
        match &entries[i] {
            TlvValue::Structure(fields) => {
                match check_fields(fields, &kinds) {
                    Some(problem) => {
                        return Err(problem);
                    },
                    None => {},
                }
                proof {
                    lemma_fields_fit(fields@, kinds@, 0);
                }
                let row = NeighborTableStruct {
                    address: uint(&fields[0]),
                    age: uint(&fields[1]) as u32,
                    rloc_16: uint(&fields[2]) as u16,
                    link_frame_counter: uint(&fields[3]) as u32,
                    mle_frame_counter: uint(&fields[4]) as u32,
                    lqi: uint(&fields[5]) as u8,
                    average_rssi: sint(&fields[6]) as i8,
                    last_rssi: sint(&fields[7]) as i8,
                    frame_error_rate: uint(&fields[8]) as u8,
                    message_error_rate: uint(&fields[9]) as u8,
                    rx_on_when_idle: boolean(&fields[10]),
                    full_thread_device: boolean(&fields[11]),
                    full_network_data: boolean(&fields[12]),
                    is_child: boolean(&fields[13]),
                };
                rows.push(row);
            },
            _ => {
                return Err(Some(ThreadDataError::NeighborEntryNotStructured));
            },
        }
        i = i + 1;
    }
    Ok(rows)
}

/// Decodes the rows of a route table.
fn decode_routes(entries: &Vec<TlvValue>) -> (r: Result<Vec<RouteTableStruct>, Option<ThreadDataError>>)
    ensures
        match routes_from(entries@, Seq::empty()) {
            Decoded::Done(rows) => r matches Ok(v) && v@ == rows,
            Decoded::Failed(e) => r matches Err(Some(x)) && x == e,
            Decoded::MissingField => r matches Err(None),
        },
{
    let kinds = route_kind_list();
    let mut rows: Vec<RouteTableStruct> = Vec::new();
    let mut i: usize = 0;
    proof {
        assert(entries@.skip(0) =~= entries@);
    }
    while i < entries.len()
        invariant
            kinds@ == route_kinds(),
            i <= entries@.len(),
            routes_from(entries@, Seq::empty()) == routes_from(entries@.skip(i as int), rows@),
        decreases entries@.len() - i,
    {
        proof {
            assert(entries@.skip(i as int)[0] == entries@[i as int]);
            assert(entries@.skip(i as int).drop_first() =~= entries@.skip(i + 1));
        }
        match &entries[i] {
            TlvValue::Structure(fields) => {
                match check_fields(fields, &kinds) {
                    Some(problem) => {
                        return Err(problem);
                    },
                    None => {},
                }
                proof {
                    lemma_fields_fit(fields@, kinds@, 0);
                }
                let row = RouteTableStruct {
                    address: uint(&fields[0]),
                    rloc_16: uint(&fields[1]) as u16,
                    router_id: uint(&fields[2]) as u8,
                    next_hop: uint(&fields[3]) as u8,
                    path_cost: uint(&fields[4]) as u8,
                    lqi_in: uint(&fields[5]) as u8,
                    lqi_out: uint(&fields[6]) as u8,
                    age: uint(&fields[7]) as u8,
                    allocated: boolean(&fields[8]),
                    link_established: boolean(&fields[9]),
                };
                rows.push(row);
            },
            _ => {
                return Err(Some(ThreadDataError::RouteEntryNotStructured));
            },
        }
        i = i + 1;
    }
    Ok(rows)
}

/// Decodes the Thread diagnostics attribute reports `values` of a node, in order, into
/// its role and tables; `ext_address` is its extended address, if known. `None` when a
/// table row lacks a field.
pub fn try_thread_data_from_values(values: &Vec<(u32, TlvValue)>, ext_address: Option<u64>) -> (r:
    Option<Result<ThreadDeviceData, ThreadDataError>>)
    ensures
        match thread_decode(values@) {
            Decoded::Done(parts) => r matches Some(Ok(d)) && d.address == ext_address && d.role
                == parts.role->0 && d.neighbor_table@ == parts.neighbors->0 && d.route_table@
                == parts.routes->0,
            Decoded::Failed(e) => r matches Some(Err(x)) && x == e,
            Decoded::MissingField => r is None,
        },
{
    let mut role: Option<RoutingRole> = None;
    let mut neighbors: Option<Vec<NeighborTableStruct>> = None;
    let mut routes: Option<Vec<RouteTableStruct>> = None;
    let mut i: usize = 0;
    proof {
        assert(values@.skip(0) =~= values@);
    }
    while i < values.len()
        invariant
            i <= values@.len(),
            attrs_from(values@, ThreadParts { role: None, neighbors: None, routes: None })
                == attrs_from(values@.skip(i as int), parts_view(role, neighbors, routes)),
        decreases values@.len() - i,
    {
        proof {
            assert(values@.skip(i as int)[0] == values@[i as int]);
            assert(values@.skip(i as int).drop_first() =~= values@.skip(i + 1));
        }
        let attr = values[i].0;
        let value = &values[i].1;
        if attr == ROUTING_ROLE {
            match value {
                TlvValue::Uint(n) => {
                    let n = *n;
                    let r = if n == 0 {
                        RoutingRole::Unspecified
                    } else if n == 1 {
                        RoutingRole::Unassigned
                    } else if n == 2 {
                        RoutingRole::SleepyEndDevice
                    } else if n == 3 {
                        RoutingRole::EndDevice
                    } else if n == 4 {
                        RoutingRole::Reed
                    } else if n == 5 {
                        RoutingRole::Router
                    } else if n == 6 {
                        RoutingRole::Leader
                    } else {
                        return Some(Err(ThreadDataError::UnknownRole(n)));
                    };
                    role = Some(r);
                },
                _ => {
                    return Some(Err(ThreadDataError::RoutingRoleNotUint));
                },
            }
        } else if attr == NEIGHBOR_TABLE {
            match value {
                TlvValue::Array(entries) => match decode_neighbors(entries) {
                    Ok(rows) => {
                        neighbors = Some(rows);
                    },
                    Err(None) => {
                        return None;
                    },
                    Err(Some(e)) => {
                        return Some(Err(e));
                    },
                },
                _ => {
                    return Some(Err(ThreadDataError::NeighborTableNotArray));
                },
            }
        } else if attr == ROUTE_TABLE {
            match value {
                TlvValue::Array(entries) => match decode_routes(entries) {
                    Ok(rows) => {
                        routes = Some(rows);
                    },
                    Err(None) => {
                        return None;
                    },
                    Err(Some(e)) => {
                        return Some(Err(e));
                    },
                },
                _ => {
                    return Some(Err(ThreadDataError::RouteTableNotArray));
                },
            }
        } else {
            return Some(Err(ThreadDataError::UnknownAttribute(attr)));
        }
        i = i + 1;
    }
    let role = match role {
        Some(role) => role,
        None => {
            return Some(Err(ThreadDataError::RoutingRoleMissing));
        },
    };
    let neighbor_table = match neighbors {
        Some(rows) => rows,
        None => {
            return Some(Err(ThreadDataError::NeighborTableMissing));
        },
    };
    let route_table = match routes {
        Some(rows) => rows,
        None => {
            return Some(Err(ThreadDataError::RouteTableMissing));
        },
    };
    Some(Ok(ThreadDeviceData { address: ext_address, role, neighbor_table, route_table }))
}

/// Decodes the Thread diagnostics attribute reports `values` of a node, in order, into
/// its role and tables; `ext_address` is its extended address, if known.
pub fn thread_data_from_values(values: &Vec<(u32, TlvValue)>, ext_address: Option<u64>) -> (r:
    Result<ThreadDeviceData, ThreadDataError>)
    requires
        !(thread_decode(values@) is MissingField),
    ensures
        match thread_decode(values@) {
            Decoded::Done(parts) => r matches Ok(d) && d.address == ext_address && d.role
                == parts.role->0 && d.neighbor_table@ == parts.neighbors->0 && d.route_table@
                == parts.routes->0,
            Decoded::Failed(e) => r matches Err(x) && x == e,
            Decoded::MissingField => false,
        },
{
    match try_thread_data_from_values(values, ext_address) {
        Some(r) => r,
        None => Err(ThreadDataError::RoutingRoleMissing),
    }
}

/// Reads `s` as an unsigned 64-bit number in base 16, as `u64::from_str_radix(s, 16)` does.
pub fn parse_hex_u64(s: &str) -> (r: Option<u64>)
    ensures
        r == parse_u64_radix_spec(s@, 16),
{
    parse_u64_radix(s, 16)
}

/// The entries of an address map: each mesh-local address with the extended address
/// written in hexadecimal beside it, read as a number.
pub fn address_map_entries(entries: &Vec<(String, String)>) -> (r: Vec<(String, u64)>)
    requires
        forall|i: int| 0 <= i < entries@.len() ==> (#[trigger] parse_u64_radix_spec(entries@[i].0@, 16)) is Some,
    ensures
        r@.len() == entries@.len(),
        forall|i: int| 0 <= i < entries@.len() ==> (#[trigger] r@[i]).0@ == entries@[i].1@ && Some(
            r@[i].1,
        ) == parse_u64_radix_spec(entries@[i].0@, 16),
{
    let mut out: Vec<(String, u64)> = Vec::new();
    let mut i: usize = 0;
    while i < entries.len()
        invariant
            i <= entries@.len(),
            out@.len() == i,
            forall|i: int| 0 <= i < entries@.len() ==> (#[trigger] parse_u64_radix_spec(entries@[i].0@, 16)) is Some,
            forall|j: int| 0 <= j < i ==> (#[trigger] out@[j]).0@ == entries@[j].1@ && Some(
                out@[j].1,
            ) == parse_u64_radix_spec(entries@[j].0@, 16),
        decreases entries@.len() - i,
    {
        let ext = parse_hex_u64(entries[i].0.as_str());
        let ext = match ext {
            Some(v) => v,
            None => {
                proof {
                    assert(parse_u64_radix_spec(entries@[i as int].0@, 16) is Some);
                }
                0
            },
        };
        out.push((entries[i].1.clone(), ext));
        i = i + 1;
    }
    out
}

/// The extended address that the address map `entries` gives for mesh address `ip`:
/// the one of the last entry for `ip`, as a map built from the entries in order keeps it.
pub open spec fn ext_address_in(entries: Seq<(String, u64)>, ip: Seq<char>) -> Option<u64>
    decreases entries.len(),
{
    if entries.len() == 0 {
        None
    } else if entries.last().0@ == ip {
        Some(entries.last().1)
    } else {
        ext_address_in(entries.drop_last(), ip)
    }
}

/// The extended address of the node with mesh address `ip`, looked up in the address
/// map `entries`; the last entry for `ip` counts.
pub fn lookup_ext_address(entries: &Vec<(String, u64)>, ip: &str) -> (r: Option<u64>)
    ensures
        r == ext_address_in(entries@, ip@),
{
    let mut i: usize = entries.len();
    proof {
        assert(entries@.take(i as int) =~= entries@);
    }
    while i > 0
        invariant
            i <= entries@.len(),
            ext_address_in(entries@, ip@) == ext_address_in(entries@.take(i as int), ip@),
        decreases i,
    {
        proof {
            assert(entries@.take(i as int).drop_last() =~= entries@.take(i - 1));
        }
        if names_equal(entries[i - 1].0.as_str(), ip) {
            return Some(entries[i - 1].1);
        }
        i = i - 1;
    }
    None
}

/// The bytes that the text `s` spells in hexadecimal: two digits a byte, high digit
/// first, either case; `None` for an odd number of characters or one that is no digit.
pub open spec fn hex_bytes(s: Seq<char>) -> Option<Seq<u8>> {
    if s.len() % 2 == 0 && forall|i: int| 0 <= i < s.len() ==> #[trigger] digit_value(s[i], 16) is Some {
        Some(
            Seq::new(
                (s.len() / 2) as nat,
                |i: int| (digit_value(s[2 * i], 16)->0 * 16 + digit_value(s[2 * i + 1], 16)->0) as u8,
            ),
        )
    } else {
        None
    }
}

/// `hex::decode`: the claim is what its source shows, that an odd length fails, that
/// each pair of digits of either case makes one byte, high digit first, and that any
/// other character fails; the decode error itself is dropped.
#[verifier::external_body]
fn decode_hex(text: &str) -> (r: Option<Vec<u8>>)
    ensures
        match r {
            Some(bytes) => hex_bytes(text@) == Some(bytes@),
            None => hex_bytes(text@) is None,
        },
{
    hex::decode(text).ok()
}

/// The Thread operational dataset stored as hexadecimal text, as bytes; `None` when
/// the text is not hexadecimal.
pub fn thread_dataset_from_text(text: &str) -> (r: Option<Vec<u8>>)
    ensures
        match r {
            Some(bytes) => hex_bytes(text@) == Some(bytes@),
            None => hex_bytes(text@) is None,
        },
{
    decode_hex(text)
}


/// The number of `role` in the Matter RoutingRoleEnum.
pub open spec fn role_number(role: RoutingRole) -> u64 {
    match role {
        RoutingRole::Unspecified => 0,
        RoutingRole::Unassigned => 1,
        RoutingRole::SleepyEndDevice => 2,
        RoutingRole::EndDevice => 3,
        RoutingRole::Reed => 4,
        RoutingRole::Router => 5,
        RoutingRole::Leader => 6,
    }
}

/// A routing-role report decodes by the Matter RoutingRoleEnum numbering: 0 Unspecified,
/// 1 Unassigned, 2 SleepyEndDevice, 3 EndDevice, 4 REED, 5 Router, 6 Leader; any other
/// number is an unknown role. Only the role changes.
pub proof fn law_routing_role_numbering(n: u64, parts: ThreadParts)
    ensures
        n == 0 ==> attr_step(ROUTING_ROLE, TlvValue::Uint(n), parts) == Decoded::Done(
            ThreadParts { role: Some(RoutingRole::Unspecified), ..parts },
        ),
        n == 1 ==> attr_step(ROUTING_ROLE, TlvValue::Uint(n), parts) == Decoded::Done(
            ThreadParts { role: Some(RoutingRole::Unassigned), ..parts },
        ),
        n == 2 ==> attr_step(ROUTING_ROLE, TlvValue::Uint(n), parts) == Decoded::Done(
            ThreadParts { role: Some(RoutingRole::SleepyEndDevice), ..parts },
        ),
        n == 3 ==> attr_step(ROUTING_ROLE, TlvValue::Uint(n), parts) == Decoded::Done(
            ThreadParts { role: Some(RoutingRole::EndDevice), ..parts },
        ),
        n == 4 ==> attr_step(ROUTING_ROLE, TlvValue::Uint(n), parts) == Decoded::Done(
            ThreadParts { role: Some(RoutingRole::Reed), ..parts },
        ),
        n == 5 ==> attr_step(ROUTING_ROLE, TlvValue::Uint(n), parts) == Decoded::Done(
            ThreadParts { role: Some(RoutingRole::Router), ..parts },
        ),
        n == 6 ==> attr_step(ROUTING_ROLE, TlvValue::Uint(n), parts) == Decoded::Done(
            ThreadParts { role: Some(RoutingRole::Leader), ..parts },
        ),
        n > 6 ==> attr_step(ROUTING_ROLE, TlvValue::Uint(n), parts) == Decoded::<ThreadParts>::Failed(
            ThreadDataError::UnknownRole(n),
        ),
{
}

/// Decoding from `parts` either leaves the role as it was, with no routing-role report
/// among `values`, or ends with the role numbered by the last such report.
proof fn lemma_role_from_last_report(values: Seq<(u32, TlvValue)>, parts: ThreadParts)
    requires
        attrs_from(values, parts) is Done,
    ensures
        ({
            let p = attrs_from(values, parts)->Done_0;
            ||| p.role == parts.role && forall|j: int|
                0 <= j < values.len() ==> (#[trigger] values[j]).0 != ROUTING_ROLE
            ||| p.role is Some && exists|i: int|
                0 <= i < values.len() && (#[trigger] values[i]).0 == ROUTING_ROLE && values[i].1
                    == TlvValue::Uint(role_number(p.role->0)) && forall|j: int|
                    i < j < values.len() ==> (#[trigger] values[j]).0 != ROUTING_ROLE
        }),
    decreases values.len(),
{
    if values.len() > 0 {
        let next = attr_step(values[0].0, values[0].1, parts)->Done_0;
        let rest = values.drop_first();
        lemma_role_from_last_report(rest, next);
        let p = attrs_from(values, parts)->Done_0;
        assert(p == attrs_from(rest, next)->Done_0);
        if p.role == next.role && forall|j: int|
            0 <= j < rest.len() ==> (#[trigger] rest[j]).0 != ROUTING_ROLE {
            if values[0].0 == ROUTING_ROLE {
                assert(forall|j: int| 0 < j < values.len() ==> values[j] == rest[j - 1]);
                assert(values[0].1 == TlvValue::Uint(role_number(p.role->0)));
            } else {
                assert forall|j: int| 0 <= j < values.len() implies (#[trigger] values[j]).0
                    != ROUTING_ROLE by {
                    if j > 0 {
                        assert(values[j] == rest[j - 1]);
                    }
                }
            }
        } else {
            let i = choose|i: int|
                0 <= i < rest.len() && (#[trigger] rest[i]).0 == ROUTING_ROLE && rest[i].1
                    == TlvValue::Uint(role_number(p.role->0)) && forall|j: int|
                    i < j < rest.len() ==> (#[trigger] rest[j]).0 != ROUTING_ROLE;
            assert(values[i + 1] == rest[i]);
            assert forall|j: int| i + 1 < j < values.len() implies (#[trigger] values[j]).0
                != ROUTING_ROLE by {
                assert(values[j] == rest[j - 1]);
            }
        }
    }
}

/// The role of a decoded node is the one that the last routing-role report among
/// `values` numbers in the Matter RoutingRoleEnum.
pub proof fn law_decoded_role_is_last_report(values: Seq<(u32, TlvValue)>)
    requires
        thread_decode(values) is Done,
    ensures
        ({
            let p = thread_decode(values)->Done_0;
            &&& p.role is Some
            &&& exists|i: int|
                0 <= i < values.len() && (#[trigger] values[i]).0 == ROUTING_ROLE && values[i].1
                    == TlvValue::Uint(role_number(p.role->0)) && forall|j: int|
                    i < j < values.len() ==> (#[trigger] values[j]).0 != ROUTING_ROLE
        }),
{
    lemma_role_from_last_report(values, ThreadParts { role: None, neighbors: None, routes: None });
}


/// A role number names the role with that number in the Matter RoutingRoleEnum, and a
/// number above 6 names none.
pub proof fn law_role_of_inverts_numbering(n: u64, role: RoutingRole)
    ensures
        role_of(n) == Some(role) <==> role_number(role) == n,
        role_of(n) is None <==> n > 6,
{
}


/// Decoding neighbor rows keeps the rows decoded so far and adds one row per entry, in
/// order, each built from its entry's fields.
proof fn lemma_neighbor_rows(entries: Seq<TlvValue>, acc: Seq<NeighborTableStruct>)
    requires
        neighbors_from(entries, acc) is Done,
    ensures
        ({
            let rows = neighbors_from(entries, acc)->Done_0;
            &&& rows.len() == acc.len() + entries.len()
            &&& forall|i: int| 0 <= i < acc.len() ==> rows[i] == acc[i]
            &&& forall|i: int|
                0 <= i < entries.len() ==> (#[trigger] entries[i]) is Structure && field_problem(
                    entries[i]->Structure_0@,
                    neighbor_kinds(),
                    0,
                ) is None && rows[acc.len() + i] == neighbor_of(entries[i]->Structure_0@)
        }),
    decreases entries.len(),
{
    if entries.len() > 0 {
        let fields = entries[0]->Structure_0;
        let rest = entries.drop_first();
        let acc2 = acc.push(neighbor_of(fields@));
        lemma_neighbor_rows(rest, acc2);
        let rows = neighbors_from(entries, acc)->Done_0;
        assert(rows == neighbors_from(rest, acc2)->Done_0);
        assert(rows[acc.len() as int] == acc2[acc.len() as int]);
        assert forall|i: int| 0 <= i < entries.len() implies (#[trigger] entries[i]) is Structure
            && field_problem(entries[i]->Structure_0@, neighbor_kinds(), 0) is None && rows[acc.len()
            + i] == neighbor_of(entries[i]->Structure_0@) by {
            if i > 0 {
                assert(entries[i] == rest[i - 1]);
                assert(acc.len() + i == acc2.len() + (i - 1));
            }
        }
    }
}

/// Decoding route rows keeps the rows decoded so far and adds one row per entry, in
/// order, each built from its entry's fields.
proof fn lemma_route_rows(entries: Seq<TlvValue>, acc: Seq<RouteTableStruct>)
    requires
        routes_from(entries, acc) is Done,
    ensures
        ({
            let rows = routes_from(entries, acc)->Done_0;
            &&& rows.len() == acc.len() + entries.len()
            &&& forall|i: int| 0 <= i < acc.len() ==> rows[i] == acc[i]
            &&& forall|i: int|
                0 <= i < entries.len() ==> (#[trigger] entries[i]) is Structure && field_problem(
                    entries[i]->Structure_0@,
                    route_kinds(),
                    0,
                ) is None && rows[acc.len() + i] == route_of(entries[i]->Structure_0@)
        }),
    decreases entries.len(),
{
    if entries.len() > 0 {
        let fields = entries[0]->Structure_0;
        let rest = entries.drop_first();
        let acc2 = acc.push(route_of(fields@));
        lemma_route_rows(rest, acc2);
        let rows = routes_from(entries, acc)->Done_0;
        assert(rows == routes_from(rest, acc2)->Done_0);
        assert(rows[acc.len() as int] == acc2[acc.len() as int]);
        assert forall|i: int| 0 <= i < entries.len() implies (#[trigger] entries[i]) is Structure
            && field_problem(entries[i]->Structure_0@, route_kinds(), 0) is None && rows[acc.len()
            + i] == route_of(entries[i]->Structure_0@) by {
            if i > 0 {
                assert(entries[i] == rest[i - 1]);
                assert(acc.len() + i == acc2.len() + (i - 1));
            }
        }
    }
}

/// A decoded neighbor table has one row per entry of the reported array, in order; the
/// row of an entry takes its fields in order: address, age, RLOC16, link and MLE frame
/// counters, LQI (unsigned), average and last RSSI (signed), frame and message error
/// rates (unsigned), then the four flags rx-on-when-idle, full Thread device, full
/// network data and is-child.
pub proof fn law_neighbor_table_rows(entries: Seq<TlvValue>)
    requires
        neighbors_from(entries, Seq::empty()) is Done,
    ensures
        ({
            let rows = neighbors_from(entries, Seq::empty())->Done_0;
            &&& rows.len() == entries.len()
            &&& forall|i: int|
                0 <= i < entries.len() ==> ({
                    let f = (#[trigger] entries[i])->Structure_0@;
                    &&& entries[i] is Structure
                    &&& f.len() >= 14
                    &&& f[0] is Uint && f[1] is Uint && f[2] is Uint && f[3] is Uint && f[4] is Uint
                        && f[5] is Uint && f[6] is Int && f[7] is Int && f[8] is Uint && f[9] is Uint
                        && f[10] is Bool && f[11] is Bool && f[12] is Bool && f[13] is Bool
                    &&& rows[i].address == f[0]->Uint_0
                    &&& rows[i].age == f[1]->Uint_0 as u32
                    &&& rows[i].rloc_16 == f[2]->Uint_0 as u16
                    &&& rows[i].link_frame_counter == f[3]->Uint_0 as u32
                    &&& rows[i].mle_frame_counter == f[4]->Uint_0 as u32
                    &&& rows[i].lqi == f[5]->Uint_0 as u8
                    &&& rows[i].average_rssi == f[6]->Int_0 as i8
                    &&& rows[i].last_rssi == f[7]->Int_0 as i8
                    &&& rows[i].frame_error_rate == f[8]->Uint_0 as u8
                    &&& rows[i].message_error_rate == f[9]->Uint_0 as u8
                    &&& rows[i].rx_on_when_idle == f[10]->Bool_0
                    &&& rows[i].full_thread_device == f[11]->Bool_0
                    &&& rows[i].full_network_data == f[12]->Bool_0
                    &&& rows[i].is_child == f[13]->Bool_0
                })
        }),
{
    lemma_neighbor_rows(entries, Seq::empty());
    assert forall|i: int| 0 <= i < entries.len() implies ({
        let f = (#[trigger] entries[i])->Structure_0@;
        &&& f.len() >= 14
        &&& f[0] is Uint && f[1] is Uint && f[2] is Uint && f[3] is Uint && f[4] is Uint
            && f[5] is Uint && f[6] is Int && f[7] is Int && f[8] is Uint && f[9] is Uint
            && f[10] is Bool && f[11] is Bool && f[12] is Bool && f[13] is Bool
    }) by {
        lemma_fields_fit(entries[i]->Structure_0@, neighbor_kinds(), 0);
    }
}


/// A decoded route table has one row per entry of the reported array, in order; the row
/// of an entry takes its fields in order: address, RLOC16, router id, next hop, path
/// cost, LQI in, LQI out, age (all unsigned), then the flags allocated and link
/// established.
pub proof fn law_route_table_rows(entries: Seq<TlvValue>)
    requires
        routes_from(entries, Seq::empty()) is Done,
    ensures
        ({
            let rows = routes_from(entries, Seq::empty())->Done_0;
            &&& rows.len() == entries.len()
            &&& forall|i: int|
                0 <= i < entries.len() ==> ({
                    let f = (#[trigger] entries[i])->Structure_0@;
                    &&& entries[i] is Structure
                    &&& f.len() >= 10
                    &&& f[0] is Uint && f[1] is Uint && f[2] is Uint && f[3] is Uint && f[4] is Uint
                        && f[5] is Uint && f[6] is Uint && f[7] is Uint && f[8] is Bool && f[9] is Bool
                    &&& rows[i].address == f[0]->Uint_0
                    &&& rows[i].rloc_16 == f[1]->Uint_0 as u16
                    &&& rows[i].router_id == f[2]->Uint_0 as u8
                    &&& rows[i].next_hop == f[3]->Uint_0 as u8
                    &&& rows[i].path_cost == f[4]->Uint_0 as u8
                    &&& rows[i].lqi_in == f[5]->Uint_0 as u8
                    &&& rows[i].lqi_out == f[6]->Uint_0 as u8
                    &&& rows[i].age == f[7]->Uint_0 as u8
                    &&& rows[i].allocated == f[8]->Bool_0
                    &&& rows[i].link_established == f[9]->Bool_0
                })
        }),
{
    lemma_route_rows(entries, Seq::empty());
    assert forall|i: int| 0 <= i < entries.len() implies ({
        let f = (#[trigger] entries[i])->Structure_0@;
        &&& f.len() >= 10
        &&& f[0] is Uint && f[1] is Uint && f[2] is Uint && f[3] is Uint && f[4] is Uint
            && f[5] is Uint && f[6] is Uint && f[7] is Uint && f[8] is Bool && f[9] is Bool
    }) by {
        lemma_fields_fit(entries[i]->Structure_0@, route_kinds(), 0);
    }
}


/// The extended address looked up for a mesh address is that of the last entry of the
/// address map for it; there is none when no entry is for it.
pub proof fn law_last_address_entry_counts(entries: Seq<(String, u64)>, ip: Seq<char>)
    ensures
        match ext_address_in(entries, ip) {
            None => forall|j: int| 0 <= j < entries.len() ==> (#[trigger] entries[j]).0@ != ip,
            Some(x) => exists|i: int|
                0 <= i < entries.len() && (#[trigger] entries[i]).0@ == ip && entries[i].1 == x
                    && forall|j: int| i < j < entries.len() ==> (#[trigger] entries[j]).0@ != ip,
        },
    decreases entries.len(),
{
    if entries.len() > 0 {
        let init = entries.drop_last();
        law_last_address_entry_counts(init, ip);
        let n = entries.len() - 1;
        assert(entries[n] == entries.last());
        if entries.last().0@ != ip {
            match ext_address_in(init, ip) {
                None => {
                    assert forall|j: int| 0 <= j < entries.len() implies (#[trigger] entries[j]).0@ != ip by {
                        if j < n {
                            assert(entries[j] == init[j]);
                        }
                    }
                },
                Some(x) => {
                    let i = choose|i: int|
                        0 <= i < init.len() && (#[trigger] init[i]).0@ == ip && init[i].1 == x
                            && forall|j: int| i < j < init.len() ==> (#[trigger] init[j]).0@ != ip;
                    assert(entries[i] == init[i]);
                    assert forall|j: int| i < j < entries.len() implies (#[trigger] entries[j]).0@ != ip by {
                        if j < n {
                            assert(entries[j] == init[j]);
                        }
                    }
                },
            }
        }
    }
}

} // verus!
