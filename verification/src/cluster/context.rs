//! The state of a session on a cluster.

use vstd::prelude::*;

use crate::cluster::cache::targets_cached;
use crate::cluster::cache::CacheErrorModel;
use crate::cluster::cache::CacheModel;
use crate::cluster::cache::TargetsCache;
use crate::cluster::cache::TargetsCacheError;
use crate::cluster::mock::GPIOCluster;
use crate::names::NameMap;
use crate::protocol::request::TargetConfigRequest;
use crate::protocol::response::ResponseMessage;
use crate::protocol::response::ResponseModel;

verus! {

/// Why a session cannot serve a request now.
#[derive(Debug, Clone, Copy, PartialEq, Eq, Structural)]
pub enum SessionStateError {
    AlreadyInitialized,
    NotInitialized,
    Closed,
    SetInProgress,
}

impl SessionStateError {
    /// The error in words.
    pub open spec fn text(self) -> Seq<char> {
        match self {
            SessionStateError::AlreadyInitialized => "session is already initialized"@,
            SessionStateError::NotInitialized => "session is not initialized"@,
            SessionStateError::Closed => "session is closed"@,
            SessionStateError::SetInProgress => "a set request is already in progress"@,
        }
    }

    /// The error in words.
    pub fn message(self) -> (message: String)
        ensures
            message@ == self.text(),
    {
        match self {
            SessionStateError::AlreadyInitialized => "session is already initialized".to_owned(),
            SessionStateError::NotInitialized => "session is not initialized".to_owned(),
            SessionStateError::Closed => "session is closed".to_owned(),
            SessionStateError::SetInProgress => "a set request is already in progress".to_owned(),
        }
    }

    /// The answer to the request.
    pub fn into_response(self, id: &str) -> (response: ResponseMessage)
        ensures
            response@ == (id@, ResponseModel::Error(self.text())),
    {
        ResponseMessage::error(id, self.message())
    }
}

/// What an `init` leaves: its identifier, the number of its cluster, and its targets.
#[derive(Debug)]
pub struct InitializedSession {
    pub init_request_id: String,
    pub cluster: u64,
    pub cache: TargetsCache,
}

/// An [`InitializedSession`] in mathematical terms.
pub ghost struct InitializedModel {
    pub init_request_id: Seq<char>,
    pub cluster: u64,
    pub cache: CacheModel,
}

impl View for InitializedSession {
    type V = InitializedModel;

    open spec fn view(&self) -> InitializedModel {
        InitializedModel {
            init_request_id: self.init_request_id@,
            cluster: self.cluster,
            cache: self.cache@,
        }
    }
}

/// A session: what its `init` left, and whether a `set` is under way.
#[derive(Debug)]
pub struct SessionContext {
    pub initialized: Option<InitializedSession>,
    pub setting: bool,
}

/// A [`SessionContext`] in mathematical terms.
pub ghost struct ContextModel {
    pub initialized: Option<InitializedModel>,
    pub setting: bool,
}

impl View for SessionContext {
    type V = ContextModel;

    open spec fn view(&self) -> ContextModel {
        ContextModel {
            initialized: match self.initialized {
                Some(initialized) => Some(initialized@),
                None => None,
            },
            setting: self.setting,
        }
    }
}

/// Why a session cannot begin a `set`.
pub open spec fn set_fault(session: ContextModel) -> Option<SessionStateError> {
    if session.initialized is None {
        Some(SessionStateError::NotInitialized)
    } else if session.setting {
        Some(SessionStateError::SetInProgress)
    } else {
        None
    }
}

impl SessionContext {
    /// A session before its `init`.
    pub fn new() -> (session: Self)
        ensures
            session@ == (ContextModel { initialized: None, setting: false }),
    {
        SessionContext { initialized: None, setting: false }
    }

    /// Whether the session can be initialized: it is, once.
    pub fn enter_init(&self) -> (result: Result<(), SessionStateError>)
        ensures
            result == if self@.initialized is Some {
                Err::<(), SessionStateError>(SessionStateError::AlreadyInitialized)
            } else {
                Ok::<(), SessionStateError>(())
            },
    {
        if self.initialized.is_some() {
            Err(SessionStateError::AlreadyInitialized)
        } else {
            Ok(())
        }
    }

    /// Initializes the session with the targets of a request on a cluster.
    pub fn initialize<'b, C: GPIOCluster>(
        &mut self,
        request_id: &str,
        number: u64,
        cluster: &C,
        request: &'b NameMap<TargetConfigRequest>,
    ) -> (result: Result<(), TargetsCacheError<'b>>)
        ensures
            match (
                result,
                targets_cached(cluster.pin_names(), request.names(), request.values()),
            ) {
                (Ok(_), Ok(cache)) => final(self)@ == (ContextModel {
                    initialized: Some(
                        InitializedModel {
                            init_request_id: request_id@,
                            cluster: number,
                            cache,
                        },
                    ),
                    ..old(self)@
                }),
                (Err(error), Err(missing)) => {
                    &&& error@ == (CacheErrorModel::ClusterPinMissing { pin: missing })
                    &&& final(self)@ == old(self)@
                },
                _ => false,
            },
    {
        match TargetsCache::build(cluster, request) {
            Err(error) => Err(error),
            Ok(cache) => {
                self.initialized = Some(
                    InitializedSession {
                        init_request_id: request_id.to_owned(),
                        cluster: number,
                        cache,
                    },
                );
                Ok(())
            },
        }
    }

    /// What the `init` left, for a `get`.
    pub fn enter_get(&self) -> (result: Result<&InitializedSession, SessionStateError>)
        ensures
            match (result, self@.initialized) {
                (Ok(initialized), Some(expected)) => initialized@ == expected,
                (Err(error), None) => error == SessionStateError::NotInitialized,
                _ => false,
            },
    {
        match &self.initialized {
            Some(initialized) => Ok(initialized),
            None => Err(SessionStateError::NotInitialized),
        }
    }

    /// Marks that a `set` is under way.
    pub fn enter_set(&mut self) -> (result: Result<(), SessionStateError>)
        ensures
            match (result, set_fault(old(self)@)) {
                (Ok(_), None) => final(self)@ == (ContextModel { setting: true, ..old(self)@ }),
                (Err(error), Some(expected)) => error == expected && final(self)@ == old(self)@,
                _ => false,
            },
    {
        if self.initialized.is_none() {
            return Err(SessionStateError::NotInitialized);
        }
        if self.setting {
            return Err(SessionStateError::SetInProgress);
        }
        self.setting = true;
        Ok(())
    }

    /// Marks that no `set` is under way any more.
    pub fn leave_set(&mut self)
        ensures
            final(self)@ == (ContextModel { setting: false, ..old(self)@ }),
    {
        self.setting = false;
    }
}

} // verus!
