//! The decisions of a Matter home controller: scene stacks and light controls,
//! value and status display, Thread diagnostics decoding, OTA version and image
//! bookkeeping, asset storage, subscriptions and device connections.

pub mod ids;
pub mod keyed;
pub mod assets;
pub mod scene_stack_entry;
pub mod scene_stack;
pub mod target_map;
pub mod controls;
pub mod format;
pub mod numbers;
pub mod text;
pub mod thread;
pub mod ota;
pub mod asset_loader;
pub mod display;
pub mod subscription;
pub mod connection_table;
pub mod device_status;
