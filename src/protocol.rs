//! Identifiers and request bodies that the scheduler shares with the
//! account, device and task services around it.
use vstd::prelude::*;

verus! {

/// Identifies an account.
#[derive(Debug, Clone, Copy, PartialEq, Eq, Structural)]
pub struct AccountId(pub i64);

/// Identifies a device, which draws a fixed effect while it runs.
#[derive(Debug, Clone, Copy, PartialEq, Eq, Structural)]
pub struct DeviceId(pub i64);

/// Identifies a stored event.
#[derive(Debug, Clone, Copy, PartialEq, Eq, Structural)]
pub struct EventId(pub i64);

/// The account that a request was authenticated as.
#[derive(Debug, Clone, Copy, PartialEq, Eq, Structural)]
pub struct Authentication(pub AccountId);

/// Asks to remove a device.
#[derive(Debug, Clone, Copy, PartialEq, Eq, Structural)]
pub struct DeleteDeviceRequest {
    pub id: DeviceId,
}

/// Asks to remove a task.
#[derive(Debug, Clone, Copy, PartialEq, Eq, Structural)]
pub struct DeleteTaskRequest {
    pub id: DeviceId,
}

/// Asks for the events of one device.
#[derive(Debug, Clone, Copy, PartialEq, Eq, Structural)]
pub struct GetDeviceEventsRequest {
    pub device_id: DeviceId,
}

} // verus!
