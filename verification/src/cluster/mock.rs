//! Clusters of pins on the chips of a mock backend.

use std::collections::VecDeque;

use vstd::prelude::*;

use crate::cluster::error::MockError;
use crate::cluster::error::MockErrorModel;
use crate::cluster::pinspec::PinSpec;
use crate::cluster::properties::GPIOPinConfig;
use crate::cluster::properties::GPIOProperties;
use crate::cluster::properties::PropertyEventMode;
use crate::cluster::snapshot::level_edge;
use crate::cluster::snapshot::line_of;
use crate::cluster::snapshot::BackendSnapshot;
use crate::cluster::snapshot::LineSnapshot;
use crate::protocol::request::EdgeMode;
use crate::protocol::response::EventType;

verus! {

/// A pin of a cluster.
#[derive(Debug, PartialEq, Eq)]
pub struct ClusterPin {
    pub name: String,
    pub spec: PinSpec,
    pub config: GPIOPinConfig,
    pub props: GPIOProperties,
}

/// A [`ClusterPin`] with its texts as character sequences.
pub ghost struct ClusterPinModel {
    pub name: Seq<char>,
    pub pin: (Seq<char>, u32),
    pub config: GPIOPinConfig,
    pub props: GPIOProperties,
}

impl View for ClusterPin {
    type V = ClusterPinModel;

    open spec fn view(&self) -> ClusterPinModel {
        ClusterPinModel {
            name: self.name@,
            pin: self.spec@,
            config: self.config,
            props: self.props,
        }
    }
}

/// The models of pins.
pub open spec fn pin_models(pins: Seq<ClusterPin>) -> Seq<ClusterPinModel> {
    pins.map_values(|pin: ClusterPin| pin@)
}

/// Pins that are used together, addressed by their index.
pub trait GPIOCluster {
    /// The names of the pins.
    spec fn pin_names(&self) -> Seq<Seq<char>>;

    /// The properties of the pins.
    spec fn pin_properties(&self) -> Seq<GPIOProperties>;

    /// How many pins the cluster has.
    fn pin_count(&self) -> (count: usize)
        ensures
            count == self.pin_names().len(),
            count == self.pin_properties().len(),
    ;

    /// The name of the pin at an index.
    fn pin_name(&self, index: usize) -> (name: Option<&str>)
        ensures
            name is Some <==> index < self.pin_names().len(),
            name matches Some(name) ==> name@ == self.pin_names()[index as int],
    ;

    /// The properties of the pin at an index.
    fn pin_props(&self, index: usize) -> (props: Option<GPIOProperties>)
        ensures
            props is Some <==> index < self.pin_properties().len(),
            props matches Some(props) ==> props == self.pin_properties()[index as int],
    ;
}

/// An open cluster: its pins, and the edges that it has not handed out yet.
#[derive(Debug)]
pub struct MockCluster {
    pub pins: Vec<ClusterPin>,
    pub pending_events: VecDeque<(usize, EventType)>,
}

/// A [`MockCluster`] in mathematical terms.
pub ghost struct ClusterModel {
    pub pins: Seq<ClusterPinModel>,
    pub pending: Seq<(usize, EventType)>,
}

impl View for MockCluster {
    type V = ClusterModel;

    open spec fn view(&self) -> ClusterModel {
        ClusterModel { pins: pin_models(self.pins@), pending: self.pending_events@ }
    }
}

impl GPIOCluster for MockCluster {
    open spec fn pin_names(&self) -> Seq<Seq<char>> {
        self.pins@.map_values(|pin: ClusterPin| pin.name@)
    }

    open spec fn pin_properties(&self) -> Seq<GPIOProperties> {
        self.pins@.map_values(|pin: ClusterPin| pin.props)
    }

    fn pin_count(&self) -> (count: usize) {
        self.pins.len()
    }

    fn pin_name(&self, index: usize) -> (name: Option<&str>) {
        if index < self.pins.len() {
            Some(self.pins[index].name.as_str())
        } else {
            None
        }
    }

    fn pin_props(&self, index: usize) -> (props: Option<GPIOProperties>) {
        if index < self.pins.len() {
            Some(self.pins[index].props)
        } else {
            None
        }
    }
}

// ---------------------------------------------------------------------------
// Edges
// ---------------------------------------------------------------------------

/// Whether a trigger asks for such edges.
pub open spec fn asks_for(edge: EdgeMode, event: EventType) -> bool {
    match edge {
        EdgeMode::Rising => event == EventType::Rising,
        EdgeMode::Falling => event == EventType::Falling,
        EdgeMode::Both => true,
    }
}

/// Whether a line reports such edges.
pub open spec fn reports(mode: PropertyEventMode, event: EventType) -> bool {
    match mode {
        PropertyEventMode::NoEvent => false,
        PropertyEventMode::Rising => event == EventType::Rising,
        PropertyEventMode::Falling => event == EventType::Falling,
        PropertyEventMode::Both => true,
    }
}

/// Whether a trigger asks for such edges.
pub fn edge_mode_matches(edge: EdgeMode, event: EventType) -> (result: bool)
    ensures
        result == asks_for(edge, event),
{
    match edge {
        EdgeMode::Rising => event == EventType::Rising,
        EdgeMode::Falling => event == EventType::Falling,
        EdgeMode::Both => true,
    }
}

/// Whether a line reports such edges.
pub fn property_event_matches(mode: PropertyEventMode, event: EventType) -> (result: bool)
    ensures
        result == reports(mode, event),
{
    match mode {
        PropertyEventMode::NoEvent => false,
        PropertyEventMode::Rising => event == EventType::Rising,
        PropertyEventMode::Falling => event == EventType::Falling,
        PropertyEventMode::Both => true,
    }
}

/// The edge that a pin sees between two states of the chips.
pub open spec fn pin_edge(
    pin: ClusterPinModel,
    previous: Map<Seq<char>, Map<u32, LineSnapshot>>,
    current: Map<Seq<char>, Map<u32, LineSnapshot>>,
) -> Result<Option<EventType>, MockErrorModel> {
    match pin.config {
        GPIOPinConfig::Trigger { edge } => match (
            line_of(previous, pin.pin),
            line_of(current, pin.pin),
        ) {
            (Some(before), Some(after)) => match level_edge(before.level, after.level) {
                Some(event) => if reports(before.reported_edges(), event) && asks_for(edge, event) {
                    Ok(Some(event))
                } else {
                    Ok(None)
                },
                None => Ok(None),
            },
            _ => Err(MockErrorModel::LineNotFound { chip: pin.pin.0, line: pin.pin.1 }),
        },
        _ => Ok(None),
    }
}

/// The edges that the pins of a cluster see between two states of the chips, in the order
/// of the pins. A pin without a line ends the walk.
pub open spec fn cluster_edges(
    pins: Seq<ClusterPinModel>,
    previous: Map<Seq<char>, Map<u32, LineSnapshot>>,
    current: Map<Seq<char>, Map<u32, LineSnapshot>>,
) -> (Seq<(usize, EventType)>, Option<MockErrorModel>)
    decreases pins.len(),
{
    if pins.len() == 0 {
        (Seq::empty(), None)
    } else {
        let (events, fault) = cluster_edges(pins.drop_last(), previous, current);
        if fault is Some {
            (events, fault)
        } else {
            match pin_edge(pins.last(), previous, current) {
                Err(fault) => (events, Some(fault)),
                Ok(None) => (events, None),
                Ok(Some(event)) => (events.push(((pins.len() - 1) as usize, event)), None),
            }
        }
    }
}

proof fn lemma_edges_prefix(
    pins: Seq<ClusterPinModel>,
    previous: Map<Seq<char>, Map<u32, LineSnapshot>>,
    current: Map<Seq<char>, Map<u32, LineSnapshot>>,
    count: int,
)
    requires
        0 <= count <= pins.len(),
        cluster_edges(pins.take(count), previous, current).1 is Some,
    ensures
        cluster_edges(pins, previous, current) == cluster_edges(
            pins.take(count),
            previous,
            current,
        ),
    decreases pins.len(),
{
    if count == pins.len() {
        assert(pins.take(count) =~= pins);
    } else {
        assert(pins.drop_last().take(count) =~= pins.take(count));
        lemma_edges_prefix(pins.drop_last(), previous, current, count);
    }
}

impl MockCluster {
    /// Queues an edge.
    pub fn push_event(&mut self, event: (usize, EventType))
        ensures
            final(self)@ == (ClusterModel {
                pending: old(self)@.pending.push(event),
                ..old(self)@
            }),
    {
        self.pending_events.push_back(event);
    }

    /// Takes the oldest edge.
    pub fn pop_event(&mut self) -> (event: Option<(usize, EventType)>)
        ensures
            match event {
                Some(event) => {
                    &&& old(self)@.pending.len() > 0
                    &&& event == old(self)@.pending[0]
                    &&& final(self)@ == (ClusterModel {
                        pending: old(self)@.pending.skip(1),
                        ..old(self)@
                    })
                },
                None => old(self)@.pending.len() == 0 && final(self)@ == old(self)@,
            },
    {
        let event = self.pending_events.pop_front();
        assert(event is Some ==> self@.pending =~= old(self)@.pending.skip(1));
        event
    }
}

/// Queues the edges that the pins of a cluster see between two states of the chips.
pub fn dispatch_cluster_events(
    cluster: &mut MockCluster,
    previous: &BackendSnapshot,
    current: &BackendSnapshot,
) -> (result: Result<(), MockError>)
    ensures
        final(cluster)@ == (ClusterModel {
            pending: old(cluster)@.pending + cluster_edges(
                old(cluster)@.pins,
                previous@,
                current@,
            ).0,
            ..old(cluster)@
        }),
        match (result, cluster_edges(old(cluster)@.pins, previous@, current@).1) {
            (Ok(_), None) => true,
            (Err(error), Some(expected)) => error@ == expected,
            _ => false,
        },
{
    let ghost given = cluster@;
    let mut index: usize = 0;
    assert(given.pins.take(0) =~= Seq::<ClusterPinModel>::empty());
    assert(given.pending + Seq::<(usize, EventType)>::empty() =~= given.pending);
    while index < cluster.pins.len()
        invariant
            given == old(cluster)@,
            cluster@.pins == given.pins,
            given.pins.len() == cluster.pins@.len(),
            index <= given.pins.len(),
            cluster_edges(given.pins.take(index as int), previous@, current@).1 is None,
            cluster@.pending == given.pending + cluster_edges(
                given.pins.take(index as int),
                previous@,
                current@,
            ).0,
        decreases given.pins.len() - index,
    {
        let ghost next = given.pins.take(index + 1);
        let ghost queued = cluster@.pending;
        proof {
            assert(next.drop_last() =~= given.pins.take(index as int));
            assert(next.last() == cluster.pins@[index as int]@) by {
                assert(cluster@.pins[index as int] == cluster.pins@[index as int]@);
            }
            if cluster_edges(next, previous@, current@).1 is Some {
                lemma_edges_prefix(given.pins, previous@, current@, index + 1);
            }
        }
        let pin = &cluster.pins[index];
        if let GPIOPinConfig::Trigger { edge } = pin.config {
            let before = previous.line(pin.spec.chip_name.as_str(), pin.spec.line_offset);
            let after = current.line(pin.spec.chip_name.as_str(), pin.spec.line_offset);
            match (before, after) {
                (Some(before), Some(after)) => {
                    if let Some(event) = before.level_transition(after) {
                        if property_event_matches(before.event_capability(), event)
                            && edge_mode_matches(edge, event) {
                            cluster.push_event((index, event));
                            assert(cluster@.pending =~= given.pending + cluster_edges(
                                next,
                                previous@,
                                current@,
                            ).0);
                        }
                    }
                },
                _ => {
                    return Err(
                        MockError::LineNotFound {
                            chip: pin.spec.chip_name.clone(),
                            line: pin.spec.line_offset,
                        },
                    );
                },
            }
        }
        index += 1;
    }
    assert(given.pins.take(index as int) =~= given.pins);
    Ok(())
}

} // verus!
