use vstd::prelude::*;

verus! {

/// Identifier of an asset (scene, scene layer, room, ...).
pub type AssetId = u64;

/// Node id of a Matter device.
pub type DeviceId = u64;

/// Endpoint number on a Matter device.
pub type EndpointId = u16;

/// A scene, optionally restricted to one room.
#[derive(Clone, Copy, Debug, PartialEq, Eq, Structural)]
pub struct SceneInRoom {
    pub scene: AssetId,
    pub room: Option<AssetId>,
}

/// One endpoint of one device.
#[derive(Clone, Copy, Debug, PartialEq, Eq, Structural)]
pub struct EndpointTarget {
    pub device: DeviceId,
    pub endpoint: EndpointId,
}

} // verus!
