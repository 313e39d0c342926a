use vstd::prelude::*;
use vstd::string::StringExecFns;

use crate::format::{append_digits, nat_digits};

verus! {

broadcast use vstd::string::group_string_axioms;

/// How far connecting to a device has come.
pub enum DeviceConnectionStage {
    Queued,
    StartingListeners,
    FetchingDeviceInfo,
    /// Connecting failed; the text says why.
    Error(String),
}

/// The state of the attribute subscription of a connected device.
pub enum DeviceSubscriptionStatus {
    Established { subscription_id: u32 },
    Resubscribing { cause: String },
    Lagged { dropped_events: u32 },
    Closed,
}

/// Where a device stands in connecting.
pub enum DeviceInitStatus {
    Connecting { stage: DeviceConnectionStage },
    Connected { subscription_status: Option<DeviceSubscriptionStatus> },
}

/// How a device's connection is shown: a short status, if any, the details behind it,
/// if any, and the style class.
pub struct StatusView {
    pub status: Option<String>,
    pub details: Option<String>,
    pub class: &'static str,
}

/// The short status of a connecting device.
pub open spec fn stage_text(stage: DeviceConnectionStage) -> Seq<char> {
    match stage {
        DeviceConnectionStage::Queued => "queued"@,
        DeviceConnectionStage::StartingListeners => "start listeners"@,
        DeviceConnectionStage::FetchingDeviceInfo => "fetch device info"@,
        DeviceConnectionStage::Error(_) => "Connection error"@,
    }
}

/// The details of a connecting device whose stage was last updated at `time`.
pub open spec fn connecting_details(stage: DeviceConnectionStage, time: Seq<char>) -> Seq<char> {
    "Connecting...\n last update: "@ + stage_text(stage) + " at "@ + time + "\n"@ + match stage {
        DeviceConnectionStage::Error(e) => e@,
        _ => Seq::empty(),
    }
}

/// The short status, the details and the class of a device in `status`, its stage last
/// updated at `time`.
pub open spec fn status_view_spec(status: DeviceInitStatus, time: Seq<char>) -> (
    Option<Seq<char>>,
    Option<Seq<char>>,
    Seq<char>,
) {
    match status {
        DeviceInitStatus::Connecting { stage } => (
            Some(stage_text(stage)),
            Some(connecting_details(stage, time)),
            match stage {
                DeviceConnectionStage::Queued => "waiting"@,
                DeviceConnectionStage::Error(_) => "error"@,
                _ => "connecting"@,
            },
        ),
        DeviceInitStatus::Connected { subscription_status } => match subscription_status {
            Some(DeviceSubscriptionStatus::Established { subscription_id }) => (
                None,
                Some("connected with subsription_id "@ + nat_digits(subscription_id as nat)),
                "connected"@,
            ),
            Some(DeviceSubscriptionStatus::Resubscribing { cause }) => (
                Some("resubscribing"@),
                Some("resubscribing because of: "@ + cause@),
                "connecting"@,
            ),
            Some(DeviceSubscriptionStatus::Lagged { dropped_events }) => (
                Some("lagged (dropped "@ + nat_digits(dropped_events as nat) + ")"@),
                None,
                "connected"@,
            ),
            Some(DeviceSubscriptionStatus::Closed) => (Some("closed"@), None, "error"@),
            None => (None, None, "waiting"@),
        },
    }
}

/// The view of `v` by its characters.
pub open spec fn view_texts(v: StatusView) -> (Option<Seq<char>>, Option<Seq<char>>, Seq<char>) {
    (
        match v.status {
            Some(s) => Some(s@),
            None => None,
        },
        match v.details {
            Some(d) => Some(d@),
            None => None,
        },
        v.class@,
    )
}

/// The short status of a connecting device.
fn stage_status(stage: &DeviceConnectionStage) -> (r: String)
    ensures
        r@ == stage_text(*stage),
{
    match stage {
        DeviceConnectionStage::Queued => String::from_str("queued"),
        DeviceConnectionStage::StartingListeners => String::from_str("start listeners"),
        DeviceConnectionStage::FetchingDeviceInfo => String::from_str("fetch device info"),
        DeviceConnectionStage::Error(_) => String::from_str("Connection error"),
    }
}

/// How the connection of a device in `status` is shown; `time` is when its stage was
/// last updated, as the user reads the time of day.
pub fn connection_status(status: &DeviceInitStatus, time: &str) -> (r: StatusView)
    ensures
        view_texts(r) == status_view_spec(*status, time@),
{
    match status {
        DeviceInitStatus::Connecting { stage } => {
            let short = stage_status(stage);
            let mut details = String::from_str("Connecting...\n last update: ");
            details.append(short.as_str());
            details.append(" at ");
            details.append(time);
            details.append("\n");
            match stage {
                DeviceConnectionStage::Error(e) => {
                    details.append(e.as_str());
                },
                _ => {},
            }
            let class = match stage {
                DeviceConnectionStage::Queued => "waiting",
                DeviceConnectionStage::Error(_) => "error",
                _ => "connecting",
            };
            proof {
                assert(details@ =~= connecting_details(*stage, time@));
            }
            StatusView { status: Some(short), details: Some(details), class }
        },
        DeviceInitStatus::Connected { subscription_status } => match subscription_status {
            Some(DeviceSubscriptionStatus::Established { subscription_id }) => {
                let mut details = String::from_str("connected with subsription_id ");
                append_digits(&mut details, *subscription_id as u64);
                StatusView { status: None, details: Some(details), class: "connected" }
            },
            Some(DeviceSubscriptionStatus::Resubscribing { cause }) => {
                let mut details = String::from_str("resubscribing because of: ");
                details.append(cause.as_str());
                StatusView {
                    status: Some(String::from_str("resubscribing")),
                    details: Some(details),
                    class: "connecting",
                }
            },
            Some(DeviceSubscriptionStatus::Lagged { dropped_events }) => {
                let mut status = String::from_str("lagged (dropped ");
                append_digits(&mut status, *dropped_events as u64);
                status.append(")");
                StatusView { status: Some(status), details: None, class: "connected" }
            },
            Some(DeviceSubscriptionStatus::Closed) => StatusView {
                status: Some(String::from_str("closed")),
                details: None,
                class: "error",
            },
            None => StatusView { status: None, details: None, class: "waiting" },
        },
    }
}

} // verus!
