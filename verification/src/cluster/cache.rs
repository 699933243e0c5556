//! The targets of a session, resolved to the pins of its cluster.

use std::collections::BTreeMap;

use vstd::prelude::*;
use vstd::string::StringExecFns;

use crate::cluster::indices::IndexList;
use crate::cluster::indices::ResolvedPinIndices;
use crate::cluster::mock::GPIOCluster;
use crate::names::NameMap;
use crate::number::decimal;
use crate::number::number_text;
use crate::protocol::request::PinSelector;
use crate::protocol::request::TargetConfigRequest;
use crate::protocol::response::ResponseMessage;
use crate::protocol::response::ResponseModel;
use crate::session::compiled::TargetMode;
use crate::text::joined;
use crate::text::same_text;

verus! {

/// Why a target cannot be used.
#[derive(Debug, Clone, Copy, PartialEq, Eq)]
pub enum TargetsCacheError<'a> {
    UnknownTarget { target: &'a str },
    TargetNotReadable { target: &'a str },
    TargetNotWritable { target: &'a str },
    ClusterPinMissing { pin: &'a str },
    TargetValueOutOfRange { target: &'a str, value: u8, bits: usize },
    UnmappedEventIndex { index: usize },
}

/// A [`TargetsCacheError`] with its texts as character sequences.
pub ghost enum CacheErrorModel {
    UnknownTarget { target: Seq<char> },
    TargetNotReadable { target: Seq<char> },
    TargetNotWritable { target: Seq<char> },
    ClusterPinMissing { pin: Seq<char> },
    TargetValueOutOfRange { target: Seq<char>, value: u8, bits: usize },
    UnmappedEventIndex { index: usize },
}

impl View for TargetsCacheError<'_> {
    type V = CacheErrorModel;

    open spec fn view(&self) -> CacheErrorModel {
        match *self {
            TargetsCacheError::UnknownTarget { target } => CacheErrorModel::UnknownTarget {
                target: target@,
            },
            TargetsCacheError::TargetNotReadable { target } => CacheErrorModel::TargetNotReadable {
                target: target@,
            },
            TargetsCacheError::TargetNotWritable { target } => CacheErrorModel::TargetNotWritable {
                target: target@,
            },
            TargetsCacheError::ClusterPinMissing { pin } => CacheErrorModel::ClusterPinMissing {
                pin: pin@,
            },
            TargetsCacheError::TargetValueOutOfRange { target, value, bits } =>
                CacheErrorModel::TargetValueOutOfRange { target: target@, value, bits },
            TargetsCacheError::UnmappedEventIndex { index } =>
                CacheErrorModel::UnmappedEventIndex { index },
        }
    }
}

impl CacheErrorModel {
    /// The error in words.
    pub open spec fn text(self) -> Seq<char> {
        match self {
            CacheErrorModel::UnknownTarget { target } => "unknown target `"@ + target + "`"@,
            CacheErrorModel::TargetNotReadable { target } => "target `"@ + target
                + "` is not readable"@,
            CacheErrorModel::TargetNotWritable { target } => "target `"@ + target
                + "` is not writable"@,
            CacheErrorModel::ClusterPinMissing { pin } =>
                "cluster did not expose configured pin `"@ + pin + "`"@,
            CacheErrorModel::TargetValueOutOfRange { target, value, bits } => "target `"@ + target
                + "` value "@ + decimal(value as nat) + " exceeds "@ + decimal(bits as nat)
                + " configured bits"@,
            CacheErrorModel::UnmappedEventIndex { index } => "backend event index "@ + decimal(
                index as nat,
            ) + " is not mapped to a trigger target"@,
        }
    }
}

impl<'a> TargetsCacheError<'a> {
    /// The error in words.
    pub fn message(&self) -> (message: String)
        ensures
            message@ == self@.text(),
    {
        match self {
            TargetsCacheError::UnknownTarget { target } => joined(
                "unknown target `",
                target,
            ).concat("`"),
            TargetsCacheError::TargetNotReadable { target } => joined("target `", target).concat(
                "` is not readable",
            ),
            TargetsCacheError::TargetNotWritable { target } => joined("target `", target).concat(
                "` is not writable",
            ),
            TargetsCacheError::ClusterPinMissing { pin } => joined(
                "cluster did not expose configured pin `",
                pin,
            ).concat("`"),
            TargetsCacheError::TargetValueOutOfRange { target, value, bits } => joined(
                "target `",
                target,
            ).concat("` value ").concat(number_text(*value as u64).as_str()).concat(
                " exceeds ",
            ).concat(number_text(*bits as u64).as_str()).concat(" configured bits"),
            TargetsCacheError::UnmappedEventIndex { index } => joined(
                "backend event index ",
                number_text(*index as u64).as_str(),
            ).concat(" is not mapped to a trigger target"),
        }
    }

    /// The answer to the request that fails.
    pub fn into_response(self, id: &str) -> (response: ResponseMessage)
        ensures
            response@ == (id@, ResponseModel::Error(self@.text())),
    {
        ResponseMessage::error(id, self.message())
    }
}

/// Direction of the pins of a target.
pub type ResolvedPinMode = TargetMode;

/// A target: its direction and its pins.
#[derive(Debug, PartialEq, Eq)]
pub struct CachedTarget {
    pub mode: TargetMode,
    pub indices: ResolvedPinIndices,
}

impl View for CachedTarget {
    type V = (TargetMode, Seq<usize>, bool);

    /// The direction, the pins, and whether the pin stands by itself, rather than in a list of
    /// pins that are packed.
    open spec fn view(&self) -> (TargetMode, Seq<usize>, bool) {
        (self.mode, self.indices@, self.indices is Single)
    }
}

impl CachedTarget {
    /// A target to read.
    pub fn input(indices: ResolvedPinIndices) -> (target: Self)
        ensures
            target == (CachedTarget { mode: TargetMode::Input, indices }),
    {
        CachedTarget { mode: TargetMode::Input, indices }
    }

    /// A target to write.
    pub fn output(indices: ResolvedPinIndices) -> (target: Self)
        ensures
            target == (CachedTarget { mode: TargetMode::Output, indices }),
    {
        CachedTarget { mode: TargetMode::Output, indices }
    }

    /// A target whose edges are reported.
    pub fn trigger(indices: ResolvedPinIndices) -> (target: Self)
        ensures
            target == (CachedTarget { mode: TargetMode::Trigger, indices }),
    {
        CachedTarget { mode: TargetMode::Trigger, indices }
    }
}

/// The targets by name, and the trigger targets by the index of their pin.
#[derive(Debug)]
pub struct TargetsCache {
    targets_by_name: NameMap<CachedTarget>,
    trigger_targets_by_index: BTreeMap<usize, String>,
}

/// A [`TargetsCache`] in mathematical terms.
pub ghost struct CacheModel {
    pub targets: Map<Seq<char>, (TargetMode, Seq<usize>, bool)>,
    pub triggers: Map<usize, Seq<char>>,
}

impl View for TargetsCache {
    type V = CacheModel;

    closed spec fn view(&self) -> CacheModel {
        CacheModel {
            targets: self.targets_by_name.contents().map_values(|target: CachedTarget| target@),
            triggers: self.trigger_targets_by_index@.map_values(|name: String| name@),
        }
    }
}

// ---------------------------------------------------------------------------
// Building
// ---------------------------------------------------------------------------

/// The index of a pin in a cluster; of pins with the same name the last.
pub open spec fn index_of_pin(names: Seq<Seq<char>>, pin: Seq<char>) -> Option<usize>
    decreases names.len(),
{
    if names.len() == 0 {
        None
    } else if names.last() == pin {
        Some((names.len() - 1) as usize)
    } else {
        index_of_pin(names.drop_last(), pin)
    }
}

/// The indices of pins, or the first pin that the cluster does not have.
pub open spec fn indices_of_pins(names: Seq<Seq<char>>, pins: Seq<Seq<char>>) -> Result<
    Seq<usize>,
    Seq<char>,
>
    decreases pins.len(),
{
    if pins.len() == 0 {
        Ok(Seq::empty())
    } else {
        match indices_of_pins(names, pins.drop_last()) {
            Err(missing) => Err(missing),
            Ok(before) => match index_of_pin(names, pins.last()) {
                None => Err(pins.last()),
                Some(index) => Ok(before.push(index)),
            },
        }
    }
}

/// The direction that a configuration asks for.
pub open spec fn configured_mode(config: TargetConfigRequest) -> TargetMode {
    match config {
        TargetConfigRequest::Input { .. } => TargetMode::Input,
        TargetConfigRequest::Output { .. } => TargetMode::Output,
        TargetConfigRequest::Trigger { .. } => TargetMode::Trigger,
    }
}

/// The cache with one more target, or the first of its pins that the cluster does not have.
pub open spec fn target_cached(
    cache: CacheModel,
    names: Seq<Seq<char>>,
    target: Seq<char>,
    config: TargetConfigRequest,
) -> Result<CacheModel, Seq<char>> {
    match indices_of_pins(names, config.pin_names()) {
        Err(missing) => Err(missing),
        Ok(indices) => Ok(
            CacheModel {
                targets: cache.targets.insert(
                    target,
                    (configured_mode(config), indices, config.names_one_pin()),
                ),
                triggers: if config is Trigger {
                    cache.triggers.insert(indices[0], target)
                } else {
                    cache.triggers
                },
            },
        ),
    }
}

/// The cache of targets in the order of their names, or the first missing pin.
pub open spec fn targets_cached(
    names: Seq<Seq<char>>,
    targets: Seq<Seq<char>>,
    configs: Seq<TargetConfigRequest>,
) -> Result<CacheModel, Seq<char>>
    decreases targets.len(),
{
    if targets.len() == 0 {
        Ok(CacheModel { targets: Map::empty(), triggers: Map::empty() })
    } else {
        match targets_cached(names, targets.drop_last(), configs.drop_last()) {
            Err(missing) => Err(missing),
            Ok(before) => target_cached(before, names, targets.last(), configs.last()),
        }
    }
}

proof fn lemma_indices_prefix(names: Seq<Seq<char>>, pins: Seq<Seq<char>>, count: int)
    requires
        0 <= count <= pins.len(),
        indices_of_pins(names, pins.take(count)) is Err,
    ensures
        indices_of_pins(names, pins) == indices_of_pins(names, pins.take(count)),
    decreases pins.len(),
{
    if count == pins.len() {
        assert(pins.take(count) =~= pins);
    } else {
        assert(pins.drop_last().take(count) =~= pins.take(count));
        lemma_indices_prefix(names, pins.drop_last(), count);
    }
}

proof fn lemma_cached_prefix(
    names: Seq<Seq<char>>,
    targets: Seq<Seq<char>>,
    configs: Seq<TargetConfigRequest>,
    count: int,
)
    requires
        targets.len() == configs.len(),
        0 <= count <= targets.len(),
        targets_cached(names, targets.take(count), configs.take(count)) is Err,
    ensures
        targets_cached(names, targets, configs) == targets_cached(
            names,
            targets.take(count),
            configs.take(count),
        ),
    decreases targets.len(),
{
    if count == targets.len() {
        assert(targets.take(count) =~= targets);
        assert(configs.take(count) =~= configs);
    } else {
        assert(targets.drop_last().take(count) =~= targets.take(count));
        assert(configs.drop_last().take(count) =~= configs.take(count));
        lemma_cached_prefix(names, targets.drop_last(), configs.drop_last(), count);
    }
}

fn find_pin<C: GPIOCluster>(cluster: &C, pin: &str) -> (found: Option<usize>)
    ensures
        found == index_of_pin(cluster.pin_names(), pin@),
{
    let ghost names = cluster.pin_names();
    let mut index: usize = cluster.pin_count();
    assert(names.take(index as int) =~= names);
    while index > 0
        invariant
            names == cluster.pin_names(),
            index <= names.len(),
            index_of_pin(names, pin@) == index_of_pin(names.take(index as int), pin@),
        decreases index,
    {
        index -= 1;
        assert(names.take(index + 1).drop_last() =~= names.take(index as int));
        if let Some(name) = cluster.pin_name(index) {
            if same_text(name, pin) {
                return Some(index);
            }
        }
    }
    None
}

fn resolve_pin_indices<'a, C: GPIOCluster>(cluster: &C, pins: &Vec<&'a str>) -> (result: Result<
    IndexList,
    &'a str,
>)
    ensures
        match (
            result,
            indices_of_pins(cluster.pin_names(), pins@.map_values(|pin: &str| pin@)),
        ) {
            (Ok(indices), Ok(expected)) => indices@ == expected,
            (Err(missing), Err(expected)) => missing@ == expected,
            _ => false,
        },
{
    let ghost names = cluster.pin_names();
    let ghost all = pins@.map_values(|pin: &str| pin@);
    let mut indices = IndexList::new();
    let mut index: usize = 0;
    while index < pins.len()
        invariant
            index <= pins@.len(),
            names == cluster.pin_names(),
            all == pins@.map_values(|pin: &str| pin@),
            indices_of_pins(names, all.take(index as int)) == Ok::<Seq<usize>, Seq<char>>(indices@),
        decreases pins@.len() - index,
    {
        let pin = pins[index];
        let ghost next = all.take(index + 1);
        proof {
            assert(next.drop_last() =~= all.take(index as int));
            assert(next.last() == pin@);
            if indices_of_pins(names, next) is Err {
                lemma_indices_prefix(names, all, index + 1);
            }
        }
        match find_pin(cluster, pin) {
            None => {
                return Err(pin);
            },
            Some(found) => {
                indices.push(found);
            },
        }
        index += 1;
    }
    assert(all.take(index as int) =~= all);
    Ok(indices)
}

fn packed_indices(pin: &PinSelector, indices: IndexList) -> (result: ResolvedPinIndices)
    requires
        indices@.len() == pin@.len(),
    ensures
        result@ == indices@,
        result is Single <==> pin is Single,
{
    match pin {
        PinSelector::Single(_) => {
            assert(seq![indices@[0]] =~= indices@);
            ResolvedPinIndices::Single(indices.as_slice()[0])
        },
        PinSelector::Combined(_) => ResolvedPinIndices::Combined(indices),
    }
}

proof fn lemma_indices_length(names: Seq<Seq<char>>, pins: Seq<Seq<char>>)
    ensures
        indices_of_pins(names, pins) matches Ok(indices) ==> indices.len() == pins.len(),
    decreases pins.len(),
{
    if pins.len() > 0 {
        lemma_indices_length(names, pins.drop_last());
    }
}

impl TargetsCache {
    /// Resolves the targets of a request to the pins of a cluster.
    pub fn build<'a, C: GPIOCluster>(
        cluster: &C,
        request: &'a NameMap<TargetConfigRequest>,
    ) -> (result: Result<Self, TargetsCacheError<'a>>)
        ensures
            match (
                result,
                targets_cached(cluster.pin_names(), request.names(), request.values()),
            ) {
                (Ok(cache), Ok(expected)) => cache@ == expected,
                (Err(error), Err(missing)) => error@ == (CacheErrorModel::ClusterPinMissing {
                    pin: missing,
                }),
                _ => false,
            },
    {
        let ghost names = cluster.pin_names();
        let ghost targets = request.names();
        let ghost configs = request.values();
        let count: usize = request.len();
        let mut targets_by_name: NameMap<CachedTarget> = NameMap::new();
        let mut trigger_targets_by_index: BTreeMap<usize, String> = BTreeMap::new();
        let ghost mut built = CacheModel { targets: Map::empty(), triggers: Map::empty() };
        assert(targets_by_name.contents().map_values(|target: CachedTarget| target@)
            =~= built.targets);
        assert(trigger_targets_by_index@.map_values(|name: String| name@) =~= built.triggers);
        let mut index: usize = 0;
        while index < count
            invariant
                names == cluster.pin_names(),
                targets == request.names(),
                configs == request.values(),
                request.wf(),
                count == targets.len(),
                index <= count,
                targets_cached(names, targets.take(index as int), configs.take(index as int))
                    == Ok::<CacheModel, Seq<char>>(built),
                targets_by_name.contents().map_values(|target: CachedTarget| target@)
                    == built.targets,
                trigger_targets_by_index@.map_values(|name: String| name@) == built.triggers,
            decreases count - index,
        {
            let name = request.name_at(index);
            let config = request.value_at(index);
            let ghost before = built;
            proof {
                let next = targets.take(index + 1);
                let given = configs.take(index + 1);
                assert(next.drop_last() =~= targets.take(index as int));
                assert(given.drop_last() =~= configs.take(index as int));
                assert(next.last() == name@);
                assert(given.last() == *config);
                if targets_cached(names, next, given) is Err {
                    lemma_cached_prefix(names, targets, configs, index + 1);
                }
                lemma_indices_length(names, config.pin_names());
            }
            let pins = config.pins();
            assert(pins@.map_values(|pin: &str| pin@) =~= config.pin_names());
            let indices = match resolve_pin_indices(cluster, &pins) {
                Err(pin) => {
                    return Err(TargetsCacheError::ClusterPinMissing { pin });
                },
                Ok(indices) => indices,
            };
            proof {
                built = target_cached(before, names, name@, *config)->Ok_0;
            }
            let target = match config {
                TargetConfigRequest::Input { pin, .. } => CachedTarget::input(
                    packed_indices(pin, indices),
                ),
                TargetConfigRequest::Output { pin, .. } => CachedTarget::output(
                    packed_indices(pin, indices),
                ),
                TargetConfigRequest::Trigger { .. } => {
                    let at: usize = indices.as_slice()[0];
                    let ghost earlier = trigger_targets_by_index@;
                    trigger_targets_by_index.insert(at, name.clone());
                    assert(trigger_targets_by_index@.map_values(|name: String| name@)
                        =~= earlier.map_values(|name: String| name@).insert(at, name@));
                    assert(seq![at] =~= indices@);
                    CachedTarget::trigger(ResolvedPinIndices::Single(at))
                },
            };
            let ghost earlier = targets_by_name.contents();
            targets_by_name = targets_by_name.with(name.clone(), target);
            assert(targets_by_name.contents().map_values(|target: CachedTarget| target@)
                =~= earlier.map_values(|target: CachedTarget| target@).insert(name@, target@));
            index += 1;
        }
        assert(targets.take(index as int) =~= targets);
        assert(configs.take(index as int) =~= configs);
        Ok(TargetsCache { targets_by_name, trigger_targets_by_index })
    }

    /// The targets by name.
    pub fn targets_by_name(&self) -> (targets: &NameMap<CachedTarget>)
        ensures
            self@.targets == targets.contents().map_values(|target: CachedTarget| target@),
    {
        &self.targets_by_name
    }

    /// The target of a name.
    pub fn target<'a>(&self, name: &'a str) -> (result: Result<&CachedTarget, TargetsCacheError<'a>>)
        ensures
            match result {
                Ok(target) => self@.targets.contains_key(name@) && target@
                    == self@.targets[name@],
                Err(error) => !self@.targets.contains_key(name@) && error@ == (
                CacheErrorModel::UnknownTarget { target: name@ }),
            },
    {
        match self.targets_by_name.get(name) {
            Some(target) => Ok(target),
            None => Err(TargetsCacheError::UnknownTarget { target: name }),
        }
    }

    /// The trigger target of the pin at an index.
    pub fn event_target_by_index(&self, index: usize) -> (result: Result<&str, TargetsCacheError<'_>>)
        ensures
            match result {
                Ok(name) => self@.triggers.contains_key(index) && name@ == self@.triggers[index],
                Err(error) => !self@.triggers.contains_key(index) && error@ == (
                CacheErrorModel::UnmappedEventIndex { index }),
            },
    {
        match self.trigger_targets_by_index.get(&index) {
            Some(name) => Ok(name.as_str()),
            None => Err(TargetsCacheError::UnmappedEventIndex { index }),
        }
    }
}

} // verus!
