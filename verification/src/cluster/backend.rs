//! The mock backend: the state of the chips and the clusters that are open on them.

use std::collections::BTreeMap;
use std::collections::VecDeque;

use vstd::prelude::*;
use vstd::string::StringExecFns;

use crate::cluster::error::GPIOClusterError;
use crate::cluster::error::MockError;
use crate::cluster::error::MockErrorModel;
use crate::cluster::mock::cluster_edges;
use crate::cluster::mock::dispatch_cluster_events;
use crate::cluster::mock::pin_models;
use crate::cluster::mock::ClusterModel;
use crate::cluster::mock::ClusterPin;
use crate::cluster::mock::ClusterPinModel;
use crate::cluster::mock::MockCluster;
use crate::cluster::pinspec::named_pin;
use crate::cluster::pinspec::PinSpec;
use crate::cluster::properties::GPIOPinConfig;
use crate::cluster::properties::PinLevel;
use crate::cluster::snapshot::config_fault;
use crate::cluster::snapshot::ensure_structure_compatible;
use crate::cluster::snapshot::line_of;
use crate::cluster::snapshot::structure_fault;
use crate::cluster::snapshot::with_level;
use crate::cluster::snapshot::BackendSnapshot;
use crate::cluster::snapshot::LineMode;
use crate::cluster::snapshot::LineSnapshot;
use crate::keys::keys_in_order;
use crate::protocol::response::EventType;
use crate::text::joined;

verus! {

/// Chips by name, and their lines by offset.
pub type Chips = Map<Seq<char>, Map<u32, LineSnapshot>>;

/// The chips, once they are loaded, the open clusters by number, and the first failure of
/// the watcher.
#[derive(Debug)]
pub struct MockBackend {
    pub snapshot: Option<BackendSnapshot>,
    pub clusters: BTreeMap<u64, MockCluster>,
    pub error: Option<String>,
    pub next_cluster_id: u64,
}

/// A [`MockBackend`] in mathematical terms.
pub ghost struct BackendModel {
    pub chips: Option<Chips>,
    pub clusters: Map<u64, ClusterModel>,
    pub error: Option<Seq<char>>,
    pub next_cluster_id: u64,
}

impl View for MockBackend {
    type V = BackendModel;

    open spec fn view(&self) -> BackendModel {
        BackendModel {
            chips: match self.snapshot {
                Some(snapshot) => Some(snapshot@),
                None => None,
            },
            clusters: self.clusters@.map_values(|cluster: MockCluster| cluster@),
            error: match self.error {
                Some(error) => Some(error@),
                None => None,
            },
            next_cluster_id: self.next_cluster_id,
        }
    }
}

// ---------------------------------------------------------------------------
// Outcomes
// ---------------------------------------------------------------------------

/// The pin of a cluster under a name and a configuration.
pub open spec fn pin_configured(
    chips: Chips,
    name: Seq<char>,
    config: GPIOPinConfig,
) -> Result<ClusterPinModel, MockErrorModel> {
    match named_pin(name) {
        Err(reason) => Err(MockErrorModel::InvalidPinName { pin: name, reason }),
        Ok(pin) => match line_of(chips, pin) {
            None => Err(MockErrorModel::LineNotFound { chip: pin.0, line: pin.1 }),
            Some(line) => match config_fault(pin, config, line.mode) {
                Some(fault) => Err(fault),
                None => Ok(ClusterPinModel { name, pin, config, props: line.pin_properties() }),
            },
        },
    }
}

/// The pins of a cluster, the first one that cannot be had deciding.
pub open spec fn pins_configured(
    chips: Chips,
    configs: Seq<(Seq<char>, GPIOPinConfig)>,
) -> Result<Seq<ClusterPinModel>, MockErrorModel>
    decreases configs.len(),
{
    if configs.len() == 0 {
        Ok(Seq::empty())
    } else {
        match pins_configured(chips, configs.drop_last()) {
            Err(fault) => Err(fault),
            Ok(pins) => match pin_configured(chips, configs.last().0, configs.last().1) {
                Err(fault) => Err(fault),
                Ok(pin) => Ok(pins.push(pin)),
            },
        }
    }
}

proof fn lemma_pins_prefix(
    chips: Chips,
    configs: Seq<(Seq<char>, GPIOPinConfig)>,
    count: int,
)
    requires
        0 <= count <= configs.len(),
        pins_configured(chips, configs.take(count)) is Err,
    ensures
        pins_configured(chips, configs) == pins_configured(chips, configs.take(count)),
    decreases configs.len(),
{
    if count == configs.len() {
        assert(configs.take(count) =~= configs);
    } else {
        assert(configs.drop_last().take(count) =~= configs.take(count));
        lemma_pins_prefix(chips, configs.drop_last(), count);
    }
}

/// The chips that operations work on.
pub open spec fn loaded_chips(backend: BackendModel) -> Result<Chips, MockErrorModel> {
    match (backend.error, backend.chips) {
        (Some(error), _) => Err(MockErrorModel::WatcherFailed(error)),
        (None, None) => Err(MockErrorModel::Parse("snapshot missing after load"@)),
        (None, Some(chips)) => Ok(chips),
    }
}

/// Why a cluster cannot be used.
pub open spec fn open_fault(backend: BackendModel, id: u64) -> Option<MockErrorModel> {
    if !backend.clusters.contains_key(id) {
        Some(MockErrorModel::Closed)
    } else {
        match backend.error {
            Some(error) => Some(MockErrorModel::WatcherFailed(error)),
            None => None,
        }
    }
}

/// Whether every index is that of a pin.
pub open spec fn indices_valid(indices: Seq<usize>, count: nat) -> bool {
    forall|i: int| 0 <= i < indices.len() ==> #[trigger] indices[i] < count
}

/// The levels of pins, the first pin without a line deciding.
pub open spec fn levels_read(
    chips: Chips,
    pins: Seq<ClusterPinModel>,
    indices: Seq<usize>,
) -> Result<Seq<PinLevel>, MockErrorModel>
    decreases indices.len(),
{
    if indices.len() == 0 {
        Ok(Seq::empty())
    } else {
        match levels_read(chips, pins, indices.drop_last()) {
            Err(fault) => Err(fault),
            Ok(levels) => {
                let pin = pins[indices.last() as int].pin;
                match line_of(chips, pin) {
                    None => Err(MockErrorModel::LineNotFound { chip: pin.0, line: pin.1 }),
                    Some(line) => Ok(levels.push(line.level)),
                }
            },
        }
    }
}

/// What reading pins of a cluster gives.
pub open spec fn read_outcome(backend: BackendModel, id: u64, indices: Seq<usize>) -> Result<
    Seq<PinLevel>,
    MockErrorModel,
> {
    match open_fault(backend, id) {
        Some(fault) => Err(fault),
        None => {
            let pins = backend.clusters[id].pins;
            if !indices_valid(indices, pins.len()) {
                Err(MockErrorModel::InvalidIndex)
            } else {
                match loaded_chips(backend) {
                    Err(fault) => Err(fault),
                    Ok(chips) => levels_read(chips, pins, indices),
                }
            }
        },
    }
}

/// The chips once levels are written to pins in order, the first pin that cannot be written
/// deciding.
pub open spec fn levels_written(
    chips: Chips,
    pins: Seq<ClusterPinModel>,
    indices: Seq<usize>,
    values: Seq<PinLevel>,
) -> Result<Chips, MockErrorModel>
    decreases indices.len(),
{
    if indices.len() == 0 {
        Ok(chips)
    } else {
        match levels_written(chips, pins, indices.drop_last(), values.drop_last()) {
            Err(fault) => Err(fault),
            Ok(before) => {
                let pin = pins[indices.last() as int].pin;
                match line_of(before, pin) {
                    None => Err(MockErrorModel::LineNotFound { chip: pin.0, line: pin.1 }),
                    Some(line) => if line.mode is Input {
                        Err(MockErrorModel::WriteToInput { chip: pin.0, line: pin.1 })
                    } else {
                        Ok(with_level(before, pin, values.last()))
                    },
                }
            },
        }
    }
}

/// What writing to pins of a cluster makes of the chips.
pub open spec fn write_outcome(
    backend: BackendModel,
    id: u64,
    indices: Seq<usize>,
    values: Seq<PinLevel>,
) -> Result<Chips, MockErrorModel> {
    match open_fault(backend, id) {
        Some(fault) => Err(fault),
        None => {
            let pins = backend.clusters[id].pins;
            if indices.len() != values.len() {
                Err(MockErrorModel::UnmatchedValue)
            } else if !indices_valid(indices, pins.len()) {
                Err(MockErrorModel::InvalidIndex)
            } else {
                match loaded_chips(backend) {
                    Err(fault) => Err(fault),
                    Ok(chips) => levels_written(chips, pins, indices, values),
                }
            }
        },
    }
}

proof fn lemma_read_prefix(
    chips: Chips,
    pins: Seq<ClusterPinModel>,
    indices: Seq<usize>,
    count: int,
)
    requires
        0 <= count <= indices.len(),
        levels_read(chips, pins, indices.take(count)) is Err,
    ensures
        levels_read(chips, pins, indices) == levels_read(chips, pins, indices.take(count)),
    decreases indices.len(),
{
    if count == indices.len() {
        assert(indices.take(count) =~= indices);
    } else {
        assert(indices.drop_last().take(count) =~= indices.take(count));
        lemma_read_prefix(chips, pins, indices.drop_last(), count);
    }
}

proof fn lemma_write_prefix(
    chips: Chips,
    pins: Seq<ClusterPinModel>,
    indices: Seq<usize>,
    values: Seq<PinLevel>,
    count: int,
)
    requires
        indices.len() == values.len(),
        0 <= count <= indices.len(),
        levels_written(chips, pins, indices.take(count), values.take(count)) is Err,
    ensures
        levels_written(chips, pins, indices, values) == levels_written(
            chips,
            pins,
            indices.take(count),
            values.take(count),
        ),
    decreases indices.len(),
{
    if count == indices.len() {
        assert(indices.take(count) =~= indices);
        assert(values.take(count) =~= values);
    } else {
        assert(indices.drop_last().take(count) =~= indices.take(count));
        assert(values.drop_last().take(count) =~= values.take(count));
        lemma_write_prefix(chips, pins, indices.drop_last(), values.drop_last(), count);
    }
}

/// Configurations by pin name, with the names as character sequences.
pub open spec fn config_models(configs: Seq<(&str, GPIOPinConfig)>) -> Seq<
    (Seq<char>, GPIOPinConfig),
> {
    configs.map_values(|config: (&str, GPIOPinConfig)| (config.0@, config.1))
}

// ---------------------------------------------------------------------------
// Operations
// ---------------------------------------------------------------------------

fn check_indices(indices: &Vec<usize>, count: usize) -> (valid: bool)
    ensures
        valid == indices_valid(indices@, count as nat),
{
    let mut index: usize = 0;
    while index < indices.len()
        invariant
            index <= indices@.len(),
            forall|i: int| 0 <= i < index ==> #[trigger] indices@[i] < count,
        decreases indices@.len() - index,
    {
        if indices[index] >= count {
            return false;
        }
        index += 1;
    }
    true
}

fn configure_pin(snapshot: &BackendSnapshot, name: &str, config: GPIOPinConfig) -> (result: Result<
    ClusterPin,
    MockError,
>)
    ensures
        match (result, pin_configured(snapshot@, name@, config)) {
            (Ok(pin), Ok(expected)) => pin@ == expected,
            (Err(error), Err(expected)) => error@ == expected,
            _ => false,
        },
{
    let spec = match PinSpec::parse(name) {
        Ok(spec) => spec,
        Err(reason) => {
            return Err(MockError::InvalidPinName { pin: name.to_owned(), reason });
        },
    };
    match snapshot.line(spec.chip_name.as_str(), spec.line_offset) {
        None => Err(MockError::LineNotFound { chip: spec.chip_name, line: spec.line_offset }),
        Some(line) => match line.validate_config(&spec, &config) {
            Err(error) => Err(error),
            Ok(()) => Ok(
                ClusterPin { name: name.to_owned(), spec, config, props: line.properties() },
            ),
        },
    }
}

impl MockBackend {
    /// A backend whose chips are not loaded yet.
    pub fn new() -> (backend: Self)
        ensures
            backend@ == (BackendModel {
                chips: None,
                clusters: Map::empty(),
                error: None,
                next_cluster_id: 1,
            }),
    {
        let backend = MockBackend {
            snapshot: None,
            clusters: BTreeMap::new(),
            error: None,
            next_cluster_id: 1,
        };
        assert(backend@.clusters =~= Map::<u64, ClusterModel>::empty());
        backend
    }

    /// Whether the chips are still to be loaded.
    pub fn needs_snapshot(&self) -> (result: Result<bool, MockError>)
        ensures
            match (result, self@.error) {
                (Ok(needed), None) => needed == (self@.chips is None),
                (Err(error), Some(text)) => error@ == MockErrorModel::WatcherFailed(text),
                _ => false,
            },
    {
        match &self.error {
            Some(message) => Err(MockError::WatcherFailed(message.clone())),
            None => Ok(self.snapshot.is_none()),
        }
    }

    /// Replaces the chips, after a load or once they have been saved.
    pub fn store_snapshot(&mut self, snapshot: BackendSnapshot)
        ensures
            final(self)@ == (BackendModel { chips: Some(snapshot@), ..old(self)@ }),
    {
        self.snapshot = Some(snapshot);
    }

    /// Opens a cluster of pins and gives its number.
    pub fn cluster(&mut self, configs: &Vec<(&str, GPIOPinConfig)>) -> (result: Result<
        u64,
        MockError,
    >)
        requires
            old(self)@.next_cluster_id < u64::MAX,
        ensures
            match loaded_chips(old(self)@) {
                Err(expected) => (result matches Err(error) && error@ == expected) && final(self)@
                    == old(self)@,
                Ok(chips) => match pins_configured(chips, config_models(configs@)) {
                    Err(expected) => (result matches Err(error) && error@ == expected)
                        && final(self)@ == old(self)@,
                    Ok(pins) => {
                        &&& result == Ok::<u64, MockError>(old(self)@.next_cluster_id)
                        &&& final(self)@ == (BackendModel {
                            clusters: old(self)@.clusters.insert(
                                old(self)@.next_cluster_id,
                                ClusterModel { pins, pending: Seq::empty() },
                            ),
                            next_cluster_id: (old(self)@.next_cluster_id + 1) as u64,
                            ..old(self)@
                        })
                    },
                },
            },
    {
        if let Some(message) = &self.error {
            return Err(MockError::WatcherFailed(message.clone()));
        }
        let snapshot = match &self.snapshot {
            Some(snapshot) => snapshot,
            None => {
                return Err(MockError::Parse("snapshot missing after load".to_owned()));
            },
        };
        let ghost all = config_models(configs@);
        let ghost chips = snapshot@;
        let mut pins: Vec<ClusterPin> = Vec::new();
        assert(pin_models(pins@) =~= Seq::<ClusterPinModel>::empty());
        let mut index: usize = 0;
        while index < configs.len()
            invariant
                index <= configs@.len(),
                all == config_models(configs@),
                all.len() == configs@.len(),
                chips == snapshot@,
                loaded_chips(old(self)@) == Ok::<Chips, MockErrorModel>(chips),
                self@ == old(self)@,
                pins_configured(chips, all.take(index as int)) == Ok::<
                    Seq<ClusterPinModel>,
                    MockErrorModel,
                >(pin_models(pins@)),
            decreases configs@.len() - index,
        {
            let name = configs[index].0;
            let config = configs[index].1;
            let ghost next = all.take(index + 1);
            let ghost before = pins@;
            proof {
                assert(next.drop_last() =~= all.take(index as int));
                assert(next.last() == all[index as int]);
                if pins_configured(chips, next) is Err {
                    lemma_pins_prefix(chips, all, index + 1);
                }
            }
            match configure_pin(snapshot, name, config) {
                Err(error) => {
                    return Err(error);
                },
                Ok(pin) => {
                    pins.push(pin);
                    assert(pin_models(pins@) =~= pin_models(before).push(pin@));
                },
            }
            index += 1;
        }
        assert(all.take(index as int) =~= all);
        let id: u64 = self.next_cluster_id;
        let cluster = MockCluster { pins, pending_events: VecDeque::new() };
        self.next_cluster_id = id + 1;
        self.clusters.insert(id, cluster);
        proof {
            assert(cluster@ == (ClusterModel { pins: pin_models(pins@), pending: Seq::empty() }));
            assert(self@.clusters =~= old(self)@.clusters.insert(id, cluster@));
        }
        Ok(id)
    }

    /// Whether a cluster can be used: it is open and the watcher has not failed.
    pub fn ensure_open(&self, id: u64) -> (result: Result<(), MockError>)
        ensures
            match (result, open_fault(self@, id)) {
                (Ok(_), None) => true,
                (Err(error), Some(expected)) => error@ == expected,
                _ => false,
            },
    {
        if !self.clusters.contains_key(&id) {
            return Err(MockError::Closed);
        }
        match &self.error {
            Some(message) => Err(MockError::WatcherFailed(message.clone())),
            None => Ok(()),
        }
    }

    /// The levels of pins of a cluster, in the order in which they are asked for.
    pub fn read(&self, id: u64, indices: &Vec<usize>) -> (result: Result<Vec<PinLevel>, MockError>)
        ensures
            match (result, read_outcome(self@, id, indices@)) {
                (Ok(levels), Ok(expected)) => levels@ == expected,
                (Err(error), Err(expected)) => error@ == expected,
                _ => false,
            },
    {
        if let Err(error) = self.ensure_open(id) {
            return Err(error);
        }
        let cluster = self.clusters.get(&id).unwrap();
        if !check_indices(indices, cluster.pins.len()) {
            return Err(MockError::InvalidIndex);
        }
        let snapshot = match &self.snapshot {
            Some(snapshot) => snapshot,
            None => {
                return Err(MockError::Parse("snapshot missing after load".to_owned()));
            },
        };
        let ghost pins = self@.clusters[id].pins;
        assert(pins == pin_models(cluster.pins@));
        let mut levels: Vec<PinLevel> = Vec::new();
        let mut index: usize = 0;
        while index < indices.len()
            invariant
                index <= indices@.len(),
                indices_valid(indices@, cluster.pins@.len()),
                pins == pin_models(cluster.pins@),
                read_outcome(self@, id, indices@) == levels_read(snapshot@, pins, indices@),
                levels_read(snapshot@, pins, indices@.take(index as int)) == Ok::<
                    Seq<PinLevel>,
                    MockErrorModel,
                >(levels@),
            decreases indices@.len() - index,
        {
            let at: usize = indices[index];
            let ghost next = indices@.take(index + 1);
            proof {
                assert(next.drop_last() =~= indices@.take(index as int));
                assert(next.last() == at);
                if levels_read(snapshot@, pins, next) is Err {
                    lemma_read_prefix(snapshot@, pins, indices@, index + 1);
                }
            }
            let pin = &cluster.pins[at];
            assert(pins[at as int] == pin@);
            match snapshot.line(pin.spec.chip_name.as_str(), pin.spec.line_offset) {
                None => {
                    return Err(
                        MockError::LineNotFound {
                            chip: pin.spec.chip_name.clone(),
                            line: pin.spec.line_offset,
                        },
                    );
                },
                Some(line) => {
                    levels.push(line.level);
                },
            }
            index += 1;
        }
        assert(indices@.take(index as int) =~= indices@);
        Ok(levels)
    }

    /// The chips once levels are written to pins of a cluster. They are to be saved, and
    /// then stored.
    pub fn write(&self, id: u64, indices: &Vec<usize>, values: &Vec<PinLevel>) -> (result: Result<
        BackendSnapshot,
        MockError,
    >)
        ensures
            match (result, write_outcome(self@, id, indices@, values@)) {
                (Ok(snapshot), Ok(expected)) => snapshot@ == expected,
                (Err(error), Err(expected)) => error@ == expected,
                _ => false,
            },
    {
        if let Err(error) = self.ensure_open(id) {
            return Err(error);
        }
        let cluster = self.clusters.get(&id).unwrap();
        if indices.len() != values.len() {
            return Err(MockError::UnmatchedValue);
        }
        if !check_indices(indices, cluster.pins.len()) {
            return Err(MockError::InvalidIndex);
        }
        let mut snapshot = match &self.snapshot {
            Some(snapshot) => snapshot.duplicate(),
            None => {
                return Err(MockError::Parse("snapshot missing after load".to_owned()));
            },
        };
        let ghost chips = snapshot@;
        let ghost pins = self@.clusters[id].pins;
        assert(pins == pin_models(cluster.pins@));
        assert(indices@.take(0) =~= Seq::<usize>::empty());
        let mut index: usize = 0;
        while index < indices.len()
            invariant
                index <= indices@.len(),
                indices@.len() == values@.len(),
                indices_valid(indices@, cluster.pins@.len()),
                pins == pin_models(cluster.pins@),
                write_outcome(self@, id, indices@, values@) == levels_written(
                    chips,
                    pins,
                    indices@,
                    values@,
                ),
                levels_written(
                    chips,
                    pins,
                    indices@.take(index as int),
                    values@.take(index as int),
                ) == Ok::<Chips, MockErrorModel>(snapshot@),
            decreases indices@.len() - index,
        {
            let at: usize = indices[index];
            let ghost next = indices@.take(index + 1);
            let ghost given = values@.take(index + 1);
            proof {
                assert(next.drop_last() =~= indices@.take(index as int));
                assert(given.drop_last() =~= values@.take(index as int));
                assert(next.last() == at);
                assert(given.last() == values@[index as int]);
                if levels_written(chips, pins, next, given) is Err {
                    lemma_write_prefix(chips, pins, indices@, values@, index + 1);
                }
            }
            let pin = &cluster.pins[at];
            assert(pins[at as int] == pin@);
            let chip = pin.spec.chip_name.as_str();
            let writable = match snapshot.line(chip, pin.spec.line_offset) {
                None => {
                    return Err(
                        MockError::LineNotFound {
                            chip: pin.spec.chip_name.clone(),
                            line: pin.spec.line_offset,
                        },
                    );
                },
                Some(line) => match line.mode {
                    LineMode::Output { .. } => true,
                    LineMode::Input { .. } => false,
                },
            };
            if !writable {
                return Err(
                    MockError::WriteToInput {
                        chip: pin.spec.chip_name.clone(),
                        line: pin.spec.line_offset,
                    },
                );
            }
            snapshot = snapshot.set_level(chip, pin.spec.line_offset, values[index]);
            index += 1;
        }
        assert(indices@.take(index as int) =~= indices@);
        assert(values@.take(index as int) =~= values@);
        Ok(snapshot)
    }

    /// Takes the oldest edge of a cluster. Edges that are queued come out although the
    /// watcher has failed since.
    pub fn poll_event(&mut self, id: u64) -> (result: Result<Option<(usize, EventType)>, MockError>)
        ensures
            if old(self)@.clusters.contains_key(id) && old(self)@.clusters[id].pending.len() > 0 {
                let cluster = old(self)@.clusters[id];
                &&& result == Ok::<Option<(usize, EventType)>, MockError>(Some(cluster.pending[0]))
                &&& final(self)@ == (BackendModel {
                    clusters: old(self)@.clusters.insert(
                        id,
                        ClusterModel { pending: cluster.pending.skip(1), ..cluster },
                    ),
                    ..old(self)@
                })
            } else {
                &&& final(self)@ == old(self)@
                &&& match (result, open_fault(old(self)@, id)) {
                    (Ok(event), None) => event is None,
                    (Err(error), Some(expected)) => error@ == expected,
                    _ => false,
                }
            },
    {
        if !self.clusters.contains_key(&id) {
            return Err(MockError::Closed);
        }
        let ghost before = self@.clusters;
        let mut cluster = self.clusters.remove(&id).unwrap();
        assert(cluster@ == before[id]);
        let event = cluster.pop_event();
        self.clusters.insert(id, cluster);
        assert(self@.clusters =~= before.insert(id, cluster@));
        if event.is_some() {
            return Ok(event);
        }
        assert(self@.clusters =~= before);
        match &self.error {
            Some(message) => Err(MockError::WatcherFailed(message.clone())),
            None => Ok(None),
        }
    }

    /// Closes a cluster; closing it again changes nothing.
    pub fn close(&mut self, id: u64)
        ensures
            final(self)@ == (BackendModel {
                clusters: old(self)@.clusters.remove(id),
                ..old(self)@
            }),
    {
        self.clusters.remove(&id);
        assert(self@.clusters =~= old(self)@.clusters.remove(id));
    }

    /// Notes that the watcher has failed. The first failure stays.
    pub fn set_error(&mut self, message: String)
        ensures
            final(self)@ == failed(old(self)@, message@),
            final(self).snapshot == old(self).snapshot,
    {
        if self.error.is_none() {
            self.error = Some(message);
        }
    }

    /// Takes over the chips of a changed file, and queues the edges of every cluster. A file
    /// that cannot be read, or that changes the structure, fails the watcher.
    pub fn reload_from_disk(&mut self, path: &str, loaded: Result<BackendSnapshot, MockError>)
        ensures
            final(self)@ == reloaded(*old(self), path@, loaded),
    {
        let next = match loaded {
            Ok(snapshot) => snapshot,
            Err(error) => {
                let lead = joined("failed to reload ", path).concat(": ");
                self.set_error(lead.concat(error.message().as_str()));
                return;
            },
        };
        if self.error.is_some() {
            return;
        }
        if self.snapshot.is_none() {
            self.snapshot = Some(next);
            return;
        }
        let previous = self.snapshot.take().unwrap();
        if let Err(error) = ensure_structure_compatible(&previous, &next) {
            self.snapshot = Some(previous);
            self.error = Some(error.message());
            return;
        }
        let ghost before = self.clusters@;
        let ids = keys_in_order(&self.clusters);
        let mut index: usize = 0;
        while index < ids.len()
            invariant
                index <= ids.len(),
                ids@.to_set() == before.dom(),
                ids@.no_duplicates(),
                before == old(self).clusters@,
                self.clusters@.dom() == before.dom(),
                self.error == old(self).error,
                self.next_cluster_id == old(self).next_cluster_id,
                forall|i: int|
                    index <= i < ids@.len() ==> self.clusters@[#[trigger] ids@[i]]
                        == before[ids@[i]],
                forall|i: int|
                    0 <= i < index ==> self.clusters@[#[trigger] ids@[i]]@ == dispatched(
                        before[ids@[i]]@,
                        previous@,
                        next@,
                    ),
            decreases ids.len() - index,
        {
            let id: u64 = ids[index];
            assert(ids@.to_set().contains(id));
            let mut cluster = self.clusters.remove(&id).unwrap();
            let _ = dispatch_cluster_events(&mut cluster, &previous, &next);
            self.clusters.insert(id, cluster);
            assert(self.clusters@.dom() =~= before.dom());
            index += 1;
        }
        self.snapshot = Some(next);
        proof {
            let expected = reloaded(*old(self), path@, loaded);
            assert(self@.chips == expected.chips);
            assert forall|id: u64| before.contains_key(id) implies self.clusters@[id]@
                == dispatched(before[id]@, previous@, next@) by {
                assert(ids@.to_set().contains(id));
                let i = choose|i: int| 0 <= i < ids@.len() && ids@[i] == id;
                assert(self.clusters@[ids@[i]]@ == dispatched(before[ids@[i]]@, previous@, next@));
            }
            assert(self@.clusters =~= expected.clusters);
        }
    }
}

/// The backend after a failure of the watcher.
pub open spec fn failed(backend: BackendModel, message: Seq<char>) -> BackendModel {
    if backend.error is None {
        BackendModel { error: Some(message), ..backend }
    } else {
        backend
    }
}

/// A cluster once it has seen the chips change.
pub open spec fn dispatched(
    cluster: ClusterModel,
    previous: Chips,
    current: Chips,
) -> ClusterModel {
    ClusterModel {
        pending: cluster.pending + cluster_edges(cluster.pins, previous, current).0,
        ..cluster
    }
}

/// The backend after its file has changed.
pub open spec fn reloaded(
    backend: MockBackend,
    path: Seq<char>,
    loaded: Result<BackendSnapshot, MockError>,
) -> BackendModel {
    match loaded {
        Err(error) => failed(
            backend@,
            "failed to reload "@ + path + ": "@ + error@.text(),
        ),
        Ok(next) => if backend@.error is Some {
            backend@
        } else {
            match backend.snapshot {
                None => BackendModel { chips: Some(next@), ..backend@ },
                Some(previous) => match structure_fault(previous, next) {
                    Some(fault) => BackendModel {
                        error: Some(MockErrorModel::WatcherFailed(fault).text()),
                        ..backend@
                    },
                    None => BackendModel {
                        chips: Some(next@),
                        clusters: backend@.clusters.map_values(
                            |cluster: ClusterModel| dispatched(cluster, previous@, next@),
                        ),
                        ..backend@
                    },
                },
            }
        },
    }
}

} // verus!
