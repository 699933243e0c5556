//! Opening the cluster of a session.

use vstd::prelude::*;

use crate::cluster::backend::config_models;
use crate::cluster::backend::loaded_chips;
use crate::cluster::backend::pins_configured;
use crate::cluster::backend::BackendModel;
use crate::cluster::backend::MockBackend;
use crate::cluster::cache::targets_cached;
use crate::cluster::cache::CacheErrorModel;
use crate::cluster::context::ContextModel;
use crate::cluster::context::InitializedModel;
use crate::cluster::context::SessionContext;
use crate::cluster::context::SessionStateError;
use crate::cluster::get::cluster_error_response;
use crate::cluster::mock::ClusterModel;
use crate::cluster::mock::ClusterPinModel;
use crate::cluster::mock::GPIOCluster;
use crate::cluster::properties::GPIOPinConfig;
use crate::names::NameMap;
use crate::protocol::request::BiasMode;
use crate::protocol::request::DriveMode;
use crate::protocol::request::TargetConfigRequest;
use crate::protocol::response::ResponseMessage;
use crate::protocol::response::ResponseModel;

verus! {

/// The configuration of every pin of a target. Without a bias an input stays as it is;
/// without a drive an output is push-pull.
pub open spec fn target_pin_config(config: TargetConfigRequest) -> GPIOPinConfig {
    match config {
        TargetConfigRequest::Input { bias, .. } => GPIOPinConfig::Input {
            bias: match bias {
                Some(bias) => bias,
                None => BiasMode::AsIs,
            },
        },
        TargetConfigRequest::Output { drive, .. } => GPIOPinConfig::Output {
            drive: match drive {
                Some(drive) => drive,
                None => DriveMode::PushPull,
            },
        },
        TargetConfigRequest::Trigger { edge, .. } => GPIOPinConfig::Trigger { edge },
    }
}

/// The pins of a target, each with its configuration.
pub open spec fn target_pins(config: TargetConfigRequest) -> Seq<(Seq<char>, GPIOPinConfig)> {
    config.pin_names().map_values(|pin: Seq<char>| (pin, target_pin_config(config)))
}

/// The pins of targets in order, each with its configuration.
pub open spec fn all_pins(configs: Seq<TargetConfigRequest>) -> Seq<(Seq<char>, GPIOPinConfig)>
    decreases configs.len(),
{
    if configs.len() == 0 {
        Seq::empty()
    } else {
        all_pins(configs.drop_last()) + target_pins(configs.last())
    }
}

fn pin_config(config: &TargetConfigRequest) -> (result: GPIOPinConfig)
    ensures
        result == target_pin_config(*config),
{
    match config {
        TargetConfigRequest::Input { bias, .. } => GPIOPinConfig::Input {
            bias: match bias {
                Some(bias) => *bias,
                None => BiasMode::AsIs,
            },
        },
        TargetConfigRequest::Output { drive, .. } => GPIOPinConfig::Output {
            drive: match drive {
                Some(drive) => *drive,
                None => DriveMode::PushPull,
            },
        },
        TargetConfigRequest::Trigger { edge, .. } => GPIOPinConfig::Trigger { edge: *edge },
    }
}

/// The pins of a request, each with its configuration, in the order of the target names.
pub fn pins_with_config<'a>(target: &'a NameMap<TargetConfigRequest>) -> (pins: Vec<
    (&'a str, GPIOPinConfig),
>)
    ensures
        config_models(pins@) == all_pins(target.values()),
{
    let mut pins: Vec<(&'a str, GPIOPinConfig)> = Vec::new();
    let ghost values = target.values();
    let count: usize = target.len();
    assert(config_models(pins@) =~= Seq::<(Seq<char>, GPIOPinConfig)>::empty());
    let mut index: usize = 0;
    while index < count
        invariant
            index <= count,
            count == target.names().len(),
            target.wf(),
            values == target.values(),
            config_models(pins@) == all_pins(values.take(index as int)),
        decreases count - index,
    {
        let config = target.value_at(index);
        let ghost before = pins@;
        let ghost added = target_pins(*config);
        assert(values.take(index + 1).drop_last() =~= values.take(index as int));
        let pin_cfg = pin_config(config);
        let names = config.pins();
        let mut position: usize = 0;
        assert(config_models(before) + added.take(0) =~= config_models(before));
        while position < names.len()
            invariant
                position <= names@.len(),
                names@.len() == config.pin_names().len(),
                forall|i: int|
                    0 <= i < names@.len() ==> (#[trigger] names@[i])@ == config.pin_names()[i],
                pin_cfg == target_pin_config(*config),
                added == target_pins(*config),
                config_models(pins@) == config_models(before) + added.take(position as int),
            decreases names@.len() - position,
        {
            let ghost earlier = pins@;
            pins.push((names[position], pin_cfg));
            position += 1;
            assert(added.take(position as int) =~= added.take(position - 1).push(
                added[position - 1],
            ));
            assert(config_models(pins@) =~= config_models(earlier).push(added[position - 1]));
            assert(config_models(pins@) =~= config_models(before) + added.take(position as int));
        }
        assert(added.take(position as int) =~= added);
        index += 1;
    }
    assert(values.take(index as int) =~= values);
    pins
}

/// What an `init` does: the session, the backend and the answer once it is served.
pub open spec fn init_outcome(
    session: ContextModel,
    backend: BackendModel,
    request_id: Seq<char>,
    targets: Seq<Seq<char>>,
    configs: Seq<TargetConfigRequest>,
) -> (ContextModel, BackendModel, ResponseModel) {
    if session.initialized is Some {
        (
            session,
            backend,
            ResponseModel::Error(SessionStateError::AlreadyInitialized.text()),
        )
    } else {
        match loaded_chips(backend) {
            Err(fault) => (session, backend, ResponseModel::Error(fault.text())),
            Ok(chips) => match pins_configured(chips, all_pins(configs)) {
                Err(fault) => (session, backend, ResponseModel::Error(fault.text())),
                Ok(pins) => {
                    let opened = BackendModel {
                        clusters: backend.clusters.insert(
                            backend.next_cluster_id,
                            ClusterModel { pins, pending: Seq::empty() },
                        ),
                        next_cluster_id: (backend.next_cluster_id + 1) as u64,
                        ..backend
                    };
                    let names = pins.map_values(|pin: ClusterPinModel| pin.name);
                    match targets_cached(names, targets, configs) {
                        Err(missing) => (
                            session,
                            BackendModel {
                                clusters: opened.clusters.remove(backend.next_cluster_id),
                                ..opened
                            },
                            ResponseModel::Error(
                                (CacheErrorModel::ClusterPinMissing { pin: missing }).text(),
                            ),
                        ),
                        Ok(cache) => (
                            ContextModel {
                                initialized: Some(
                                    InitializedModel {
                                        init_request_id: request_id,
                                        cluster: backend.next_cluster_id,
                                        cache,
                                    },
                                ),
                                ..session
                            },
                            opened,
                            ResponseModel::Done,
                        ),
                    }
                },
            },
        }
    }
}

/// Serves `init` requests.
#[derive(Debug)]
pub struct InitHandler;

impl InitHandler {
    /// Opens a cluster of the pins of the targets and initializes the session with it. A
    /// cluster that does not serve the targets is closed again.
    pub fn handle(
        session: &mut SessionContext,
        backend: &mut MockBackend,
        request_id: &str,
        target: &NameMap<TargetConfigRequest>,
    ) -> (response: ResponseMessage)
        requires
            old(backend)@.next_cluster_id < u64::MAX,
        ensures
            ({
                let expected = init_outcome(
                    old(session)@,
                    old(backend)@,
                    request_id@,
                    target.names(),
                    target.values(),
                );
                &&& final(session)@ == expected.0
                &&& final(backend)@ == expected.1
                &&& response@ == (request_id@, expected.2)
            }),
    {
        if let Err(error) = session.enter_init() {
            return error.into_response(request_id);
        }
        let pins = pins_with_config(target);
        let number: u64 = match backend.cluster(&pins) {
            Err(error) => {
                return cluster_error_response(request_id, error);
            },
            Ok(number) => number,
        };
        assert(backend@.clusters.contains_key(number));
        let cluster = backend.clusters.get(&number).unwrap();
        proof {
            assert(backend@.clusters[number] == cluster@);
            let names = cluster@.pins.map_values(|pin: ClusterPinModel| pin.name);
            assert(cluster.pin_names() =~= names);
        }
        match session.initialize(request_id, number, cluster, target) {
            Err(error) => {
                backend.close(number);
                error.into_response(request_id)
            },
            Ok(()) => ResponseMessage::ok(request_id),
        }
    }
}

} // verus!
