use vstd::prelude::*;

use crate::device_status::DeviceSubscriptionStatus;
use crate::ids::{DeviceId, EndpointId};

verus! {

/// Number of a cluster.
pub type ClusterId = u32;

/// Number of an attribute of a cluster.
pub type AttrId = u32;

/// Number of an event of a cluster.
pub type EventId = u32;

/// A cluster of an endpoint, with the attributes to listen to, if it is listened to.
pub struct ClusterListen {
    pub id: ClusterId,
    pub listen_attrs: Option<Vec<AttrId>>,
}

/// The clusters of one endpoint of a device.
pub struct EndpointClusters {
    pub endpoint: EndpointId,
    pub clusters: Vec<ClusterListen>,
}

/// The listened clusters among `clusters` of `endpoint`, each with its attributes, in order.
pub open spec fn cluster_listens(endpoint: EndpointId, clusters: Seq<ClusterListen>) -> Seq<
    (EndpointId, ClusterId, Seq<AttrId>),
>
    decreases clusters.len(),
{
    if clusters.len() == 0 {
        Seq::empty()
    } else {
        let rest = cluster_listens(endpoint, clusters.drop_last());
        match clusters.last().listen_attrs {
            Some(attrs) => rest.push((endpoint, clusters.last().id, attrs@)),
            None => rest,
        }
    }
}

/// The listened clusters of all `endpoints`, endpoint by endpoint, each with its attributes.
pub open spec fn device_listens(endpoints: Seq<EndpointClusters>) -> Seq<
    (EndpointId, ClusterId, Seq<AttrId>),
>
    decreases endpoints.len(),
{
    if endpoints.len() == 0 {
        Seq::empty()
    } else {
        device_listens(endpoints.drop_last()) + cluster_listens(
            endpoints.last().endpoint,
            endpoints.last().clusters@,
        )
    }
}

/// A listened cluster by its view.
pub open spec fn listen_view(l: (EndpointId, ClusterId, Vec<AttrId>)) -> (EndpointId, ClusterId, Seq<AttrId>) {
    (l.0, l.1, l.2@)
}

/// A copy of `v`.
fn copy_ids(v: &Vec<AttrId>) -> (r: Vec<AttrId>)
    ensures
        r@ == v@,
{
    let mut out: Vec<AttrId> = Vec::new();
    let mut i: usize = 0;
    while i < v.len()
        invariant
            i <= v@.len(),
            out@ == v@.take(i as int),
        decreases v@.len() - i,
    {
        out.push(v[i]);
        i = i + 1;
        proof {
            assert(out@ =~= v@.take(i as int));
        }
    }
    proof {
        assert(v@.take(i as int) =~= v@);
    }
    out
}

/// The clusters of a device to listen to: for each endpoint in order, each cluster
/// that has attributes to listen to, with those attributes.
pub fn attr_ids_from_device(endpoints: &Vec<EndpointClusters>) -> (r: Vec<(EndpointId, ClusterId, Vec<AttrId>)>)
    ensures
        r@.map_values(|l: (EndpointId, ClusterId, Vec<AttrId>)| listen_view(l)) == device_listens(endpoints@),
{
    let mut out: Vec<(EndpointId, ClusterId, Vec<AttrId>)> = Vec::new();
    let mut i: usize = 0;
    while i < endpoints.len()
        invariant
            i <= endpoints@.len(),
            out@.map_values(|l: (EndpointId, ClusterId, Vec<AttrId>)| listen_view(l)) == device_listens(
                endpoints@.take(i as int),
            ),
        decreases endpoints@.len() - i,
    {
        let ep = &endpoints[i];
        let ghost before = out@.map_values(|l: (EndpointId, ClusterId, Vec<AttrId>)| listen_view(l));
        let mut j: usize = 0;
        while j < ep.clusters.len()
            invariant
                j <= ep.clusters@.len(),
                out@.map_values(|l: (EndpointId, ClusterId, Vec<AttrId>)| listen_view(l)) == before
                    + cluster_listens(ep.endpoint, ep.clusters@.take(j as int)),
            decreases ep.clusters@.len() - j,
        {
            let c = &ep.clusters[j];
            let ghost prev = out@;
            proof {
                assert(ep.clusters@.take(j + 1).drop_last() =~= ep.clusters@.take(j as int));
                assert(ep.clusters@.take(j + 1).last() == *c);
            }
            match &c.listen_attrs {
                Some(attrs) => {
                    let copied = copy_ids(attrs);
                    out.push((ep.endpoint, c.id, copied));
                    proof {
                        assert(out@ =~= prev.push((ep.endpoint, c.id, copied)));
                        assert(out@.map_values(|l: (EndpointId, ClusterId, Vec<AttrId>)| listen_view(l))
                            =~= prev.map_values(|l: (EndpointId, ClusterId, Vec<AttrId>)| listen_view(l)).push(
                            (ep.endpoint, c.id, attrs@),
                        ));
                    }
                },
                None => {},
            }
            j = j + 1;
            proof {
                assert(out@.map_values(|l: (EndpointId, ClusterId, Vec<AttrId>)| listen_view(l))
                    =~= before + cluster_listens(ep.endpoint, ep.clusters@.take(j as int)));
            }
        }
        proof {
            assert(ep.clusters@.take(j as int) =~= ep.clusters@);
            assert(endpoints@.take(i + 1).drop_last() =~= endpoints@.take(i as int));
        }
        i = i + 1;
    }
    proof {
        assert(endpoints@.take(i as int) =~= endpoints@);
    }
    out
}

/// The attribute paths to read and subscribe to: every attribute of every listened
/// cluster, in order.
pub open spec fn read_paths_spec(listens: Seq<(EndpointId, ClusterId, Seq<AttrId>)>) -> Seq<
    (EndpointId, ClusterId, AttrId),
>
    decreases listens.len(),
{
    if listens.len() == 0 {
        Seq::empty()
    } else {
        let l = listens.last();
        read_paths_spec(listens.drop_last()) + l.2.map_values(|a: AttrId| (l.0, l.1, a))
    }
}

/// The attribute paths to subscribe to for the listened clusters `listens`.
pub fn read_paths(listens: &Vec<(EndpointId, ClusterId, Vec<AttrId>)>) -> (r: Vec<(EndpointId, ClusterId, AttrId)>)
    ensures
        r@ == read_paths_spec(listens@.map_values(|l: (EndpointId, ClusterId, Vec<AttrId>)| listen_view(l))),
{
    let ghost views = listens@.map_values(|l: (EndpointId, ClusterId, Vec<AttrId>)| listen_view(l));
    let mut out: Vec<(EndpointId, ClusterId, AttrId)> = Vec::new();
    let mut i: usize = 0;
    while i < listens.len()
        invariant
            i <= listens@.len(),
            views == listens@.map_values(|l: (EndpointId, ClusterId, Vec<AttrId>)| listen_view(l)),
            out@ == read_paths_spec(views.take(i as int)),
        decreases listens@.len() - i,
    {
        let l = &listens[i];
        let ghost before = out@;
        let mut j: usize = 0;
        while j < l.2.len()
            invariant
                j <= l.2@.len(),
                out@ == before + l.2@.take(j as int).map_values(|a: AttrId| (l.0, l.1, a)),
            decreases l.2@.len() - j,
        {
            out.push((l.0, l.1, l.2[j]));
            j = j + 1;
            proof {
                assert(out@ =~= before + l.2@.take(j as int).map_values(|a: AttrId| (l.0, l.1, a)));
            }
        }
        proof {
            assert(l.2@.take(j as int) =~= l.2@);
            assert(views.take(i + 1).drop_last() =~= views.take(i as int));
            assert(views.take(i + 1).last() == listen_view(*l));
        }
        i = i + 1;
    }
    proof {
        assert(views.take(i as int) =~= views);
    }
    out
}

/// The event paths to subscribe to: every listened cluster, in order.
pub fn event_paths(listens: &Vec<(EndpointId, ClusterId, Vec<AttrId>)>) -> (r: Vec<(EndpointId, ClusterId)>)
    ensures
        r@.len() == listens@.len(),
        forall|i: int| 0 <= i < listens@.len() ==> #[trigger] r@[i] == (listens@[i].0, listens@[i].1),
{
    let mut out: Vec<(EndpointId, ClusterId)> = Vec::new();
    let mut i: usize = 0;
    while i < listens.len()
        invariant
            i <= listens@.len(),
            out@.len() == i,
            forall|k: int| 0 <= k < i ==> #[trigger] out@[k] == (listens@[k].0, listens@[k].1),
        decreases listens@.len() - i,
    {
        out.push((listens[i].0, listens[i].1));
        i = i + 1;
    }
    out
}

/// The path of an event of a device.
#[derive(Clone, Copy, Debug, PartialEq, Eq, Structural)]
pub struct EventPath {
    pub device: DeviceId,
    pub endpoint: EndpointId,
    pub cluster: ClusterId,
    pub event: EventId,
}

/// The path of an event report of `device`, if the report names endpoint, cluster and event.
pub fn concrete_event_path(device: DeviceId, endpoint: Option<EndpointId>, cluster: Option<ClusterId>, event: Option<EventId>) -> (r: Option<EventPath>)
    ensures
        match (endpoint, cluster, event) {
            (Some(e), Some(c), Some(v)) => r == Some(EventPath { device, endpoint: e, cluster: c, event: v }),
            _ => r is None,
        },
{
    match (endpoint, cluster, event) {
        (Some(e), Some(c), Some(v)) => Some(EventPath { device, endpoint: e, cluster: c, event: v }),
        _ => None,
    }
}

/// How long after subscribing event reports are ignored, in milliseconds: a device
/// sends old events from earlier connections right after a subscription starts.
pub const STARTUP_EVENT_BLOCK_MS: u64 = 2000;

/// Whether an event report that comes `elapsed_ms` after subscribing passes, when
/// `passed` says whether one has passed before.
pub open spec fn admits(passed: bool, elapsed_ms: u64) -> bool {
    passed || elapsed_ms >= STARTUP_EVENT_BLOCK_MS
}

/// The filter that holds back the event reports at the start of a subscription.
pub struct StartupEventFilter {
    passed: bool,
}

impl StartupEventFilter {
    /// Whether an event report has passed the filter.
    pub closed spec fn has_passed(&self) -> bool {
        self.passed
    }

    /// A filter at the start of a subscription.
    pub fn new() -> (g: Self)
        ensures
            !g.has_passed(),
    {
        StartupEventFilter { passed: false }
    }

    /// Whether the event report arriving `elapsed_ms` after subscribing is handled;
    /// once one is, all later ones are.
    pub fn let_through(&mut self, elapsed_ms: u64) -> (r: bool)
        ensures
            filter_step(old(self).has_passed(), elapsed_ms, r, final(self).has_passed()),
    {
        if !self.passed {
            if elapsed_ms < STARTUP_EVENT_BLOCK_MS {
                return false;
            }
            self.passed = true;
        }
        true
    }
}

/// One report at the filter: with `before` saying whether a report passed earlier, the
/// report arriving `elapsed_ms` after subscribing is let through or not, and `after`
/// says whether one has passed now.
pub open spec fn filter_step(before: bool, elapsed_ms: u64, let_through: bool, after: bool) -> bool {
    &&& let_through == admits(before, elapsed_ms)
    &&& after == (before || let_through)
}

/// Once a report has been let through, the next one is too, however early it comes,
/// and the filter stays open.
pub proof fn law_filter_stays_open(
    passed0: bool,
    elapsed1: u64,
    passed1: bool,
    elapsed2: u64,
    through2: bool,
    passed2: bool,
)
    requires
        filter_step(passed0, elapsed1, true, passed1),
        filter_step(passed1, elapsed2, through2, passed2),
    ensures
        through2,
        passed2,
{
}

/// Appends the elements of `items` to `out`.
fn append_all<T: Copy>(out: &mut Vec<T>, items: &[T])
    ensures
        final(out)@ == old(out)@ + items@,
{
    let ghost start = out@;
    let mut i: usize = 0;
    while i < items.len()
        invariant
            i <= items@.len(),
            out@ == start + items@.take(i as int),
        decreases items@.len() - i,
    {
        out.push(items[i]);
        i = i + 1;
        proof {
            assert(out@ =~= start + items@.take(i as int));
        }
    }
    proof {
        assert(items@.take(i as int) =~= items@);
    }
}

/// The endpoints an attribute dump of a device reads, in order: the root endpoint
/// first when it is asked for, then the endpoints of the device's parts list.
pub fn dump_endpoints(include_root_endpoint: bool, parts: &[EndpointId]) -> (r: Vec<EndpointId>)
    ensures
        r@ == (if include_root_endpoint {
            seq![0u16]
        } else {
            Seq::<EndpointId>::empty()
        }) + parts@,
{
    let mut out: Vec<EndpointId> = Vec::new();
    if include_root_endpoint {
        out.push(0);
    }
    append_all(&mut out, parts);
    out
}

/// The clusters of an endpoint an attribute dump reads, in order: its server
/// clusters, then its client clusters.
pub fn dump_clusters(servers: &[ClusterId], clients: &[ClusterId]) -> (r: Vec<ClusterId>)
    ensures
        r@ == servers@ + clients@,
{
    let mut out: Vec<ClusterId> = Vec::new();
    append_all(&mut out, servers);
    append_all(&mut out, clients);
    proof {
        assert(Seq::<ClusterId>::empty() + servers@ =~= servers@);
    }
    out
}

/// What a device's subscription delivers, as far as the connection decides on it.
pub enum SubscriptionEvent {
    /// An attribute report.
    Report,
    /// An event report that came `elapsed_ms` after subscribing, with the parts of its
    /// path that it names.
    EventData {
        elapsed_ms: u64,
        endpoint: Option<EndpointId>,
        cluster: Option<ClusterId>,
        event: Option<EventId>,
    },
    Resubscribing { cause: String },
    Established { subscription_id: u32 },
    Lagged { dropped: u64 },
    /// Anything else; it is only logged.
    Other,
}

/// What the connection does with one delivery of its subscription.
pub enum SubscriptionAction {
    /// Log the attribute change and pass it on.
    HandleReport,
    /// Log the event at this path and pass it on.
    HandleEvent(EventPath),
    /// Drop an event report from the start of the subscription.
    IgnoreStartupEvent,
    /// Drop an event report whose path is not concrete.
    SkipEventWithoutPath,
    /// Announce a new subscription status.
    Status(DeviceSubscriptionStatus),
    /// Only log the delivery.
    LogOnly,
}

/// One delivery `ev` of the subscription of `device`, with the filter at `passed`:
/// the action taken, and whether the filter is open afterwards.
pub open spec fn subscription_step_spec(device: DeviceId, passed: bool, ev: SubscriptionEvent) -> (
    SubscriptionAction,
    bool,
) {
    match ev {
        SubscriptionEvent::Report => (SubscriptionAction::HandleReport, passed),
        SubscriptionEvent::EventData { elapsed_ms, endpoint, cluster, event } => if !admits(
            passed,
            elapsed_ms,
        ) {
            (SubscriptionAction::IgnoreStartupEvent, passed)
        } else {
            match (endpoint, cluster, event) {
                (Some(e), Some(c), Some(v)) => (
                    SubscriptionAction::HandleEvent(
                        EventPath { device, endpoint: e, cluster: c, event: v },
                    ),
                    true,
                ),
                _ => (SubscriptionAction::SkipEventWithoutPath, true),
            }
        },
        SubscriptionEvent::Resubscribing { cause } => (
            SubscriptionAction::Status(DeviceSubscriptionStatus::Resubscribing { cause }),
            passed,
        ),
        SubscriptionEvent::Established { subscription_id } => (
            SubscriptionAction::Status(DeviceSubscriptionStatus::Established { subscription_id }),
            passed,
        ),
        SubscriptionEvent::Lagged { dropped } => (
            SubscriptionAction::Status(
                DeviceSubscriptionStatus::Lagged { dropped_events: dropped as u32 },
            ),
            passed,
        ),
        SubscriptionEvent::Other => (SubscriptionAction::LogOnly, passed),
    }
}

impl StartupEventFilter {
    /// Decides on one delivery `ev` of the subscription of `device`: what to do with
    /// it, holding back event reports at the start of the subscription.
    pub fn step(&mut self, device: DeviceId, ev: SubscriptionEvent) -> (r: SubscriptionAction)
        ensures
            (r, final(self).has_passed()) == subscription_step_spec(device, old(self).has_passed(), ev),
    {
        match ev {
            SubscriptionEvent::Report => SubscriptionAction::HandleReport,
            SubscriptionEvent::EventData { elapsed_ms, endpoint, cluster, event } => {
                if !self.let_through(elapsed_ms) {
                    return SubscriptionAction::IgnoreStartupEvent;
                }
                match concrete_event_path(device, endpoint, cluster, event) {
                    Some(path) => SubscriptionAction::HandleEvent(path),
                    None => SubscriptionAction::SkipEventWithoutPath,
                }
            },
            SubscriptionEvent::Resubscribing { cause } => SubscriptionAction::Status(
                DeviceSubscriptionStatus::Resubscribing { cause },
            ),
            SubscriptionEvent::Established { subscription_id } => SubscriptionAction::Status(
                DeviceSubscriptionStatus::Established { subscription_id },
            ),
            SubscriptionEvent::Lagged { dropped } => SubscriptionAction::Status(
                DeviceSubscriptionStatus::Lagged { dropped_events: dropped as u32 },
            ),
            SubscriptionEvent::Other => SubscriptionAction::LogOnly,
        }
    }
}


/// Event reports that come within two seconds of subscribing are held back until one has
/// come later than that; from then on every event report is handled, an event at a
/// concrete path as an event of this device at that path. The filter opens only on
/// a report it lets through.
pub proof fn law_startup_events_held_back(
    device: DeviceId,
    passed: bool,
    elapsed_ms: u64,
    endpoint: Option<EndpointId>,
    cluster: Option<ClusterId>,
    event: Option<EventId>,
)
    ensures
        ({
            let (action, after) = subscription_step_spec(
                device,
                passed,
                SubscriptionEvent::EventData { elapsed_ms, endpoint, cluster, event },
            );
            &&& !passed && elapsed_ms < 2000 ==> action is IgnoreStartupEvent && !after
            &&& (passed || elapsed_ms >= 2000) ==> after && match (endpoint, cluster, event) {
                (Some(e), Some(c), Some(v)) => action == SubscriptionAction::HandleEvent(
                    EventPath { device, endpoint: e, cluster: c, event: v },
                ),
                _ => action is SkipEventWithoutPath,
            }
        }),
        !passed && elapsed_ms < 2000 ==> filter_step(passed, elapsed_ms, false, false),
        (passed || elapsed_ms >= 2000) ==> filter_step(passed, elapsed_ms, true, true),
{
}

} // verus!
