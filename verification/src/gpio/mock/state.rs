//! The state of an open mock chip.

use std::collections::BTreeMap;
use std::collections::VecDeque;
use vstd::prelude::*;

use crate::gpio::libgpiod::EdgeEventType;
use crate::gpio::libgpiod::LineBias;
use crate::gpio::libgpiod::LineDirection;
use crate::gpio::libgpiod::LineEdge;
use crate::gpio::libgpiod::LineValue;
use crate::gpio::mock::config::MockRequestLineState;
use crate::gpio::mock::events::MockEdgeEventRecord;
use crate::gpio::mock::info::effective_direction;
use crate::gpio::mock::info::requested_direction;
use crate::gpio::mock::snapshot::line_level_to_line_value;
use crate::gpio::mock::snapshot::line_value_to_line_level;
use crate::gpio::mock::snapshot::logical_value;
use crate::gpio::mock::snapshot::physical_level;
use crate::gpio::mock::snapshot::ChipModel;
use crate::gpio::mock::snapshot::LineLevel;
use crate::gpio::mock::snapshot::LineModel;
use crate::gpio::mock::snapshot::MockChipSnapshot;
use crate::gpio::mock::snapshot::MockLineSnapshot;
use crate::gpio::traits::EdgeModel;
use crate::keys::ascending_keys;
use crate::keys::keys_in_order;
use crate::keys::offsets_in_order;
use crate::text::same_text;

verus! {

/// Number of a line request on its chip.
pub type RequestId = u64;

/// One line request of a chip.
#[derive(Debug)]
pub struct RequestRegistration {
    pub offsets_in_order: Vec<u32>,
    pub line_settings: BTreeMap<u32, MockRequestLineState>,
    pub consumer: String,
    pub pending_edge_events: VecDeque<MockEdgeEventRecord>,
    pub global_seqno_cursor: u64,
    pub per_line_seqno: BTreeMap<u32, u64>,
    pub closed: bool,
}

/// A [`RequestRegistration`] in mathematical terms.
pub ghost struct RegistrationModel {
    pub offsets: Seq<u32>,
    pub settings: Map<u32, MockRequestLineState>,
    pub consumer: Seq<char>,
    pub pending: Seq<EdgeModel>,
    pub global_seqno: u64,
    pub line_seqno: Map<u32, u64>,
    pub closed: bool,
}

/// The models of queued records.
pub open spec fn record_models(records: Seq<MockEdgeEventRecord>) -> Seq<EdgeModel> {
    Seq::new(records.len(), |i: int| records[i]@)
}

impl View for RequestRegistration {
    type V = RegistrationModel;

    open spec fn view(&self) -> RegistrationModel {
        RegistrationModel {
            offsets: self.offsets_in_order@,
            settings: self.line_settings@,
            consumer: self.consumer@,
            pending: record_models(self.pending_edge_events@),
            global_seqno: self.global_seqno_cursor,
            line_seqno: self.per_line_seqno@,
            closed: self.closed,
        }
    }
}

impl RegistrationModel {
    /// The number of the last event of a line.
    pub open spec fn last_seqno(self, offset: u32) -> u64 {
        if self.line_seqno.contains_key(offset) {
            self.line_seqno[offset]
        } else {
            0
        }
    }

    /// The request names each of its lines once and has settings for all of them, and no line
    /// counts more events than the request.
    pub open spec fn wf(self) -> bool {
        &&& self.offsets.no_duplicates()
        &&& self.settings.dom() == self.offsets.to_set()
        &&& forall|offset: u32| #[trigger] self.last_seqno(offset) <= self.global_seqno
    }

    /// Whether the request is open and holds a line.
    pub open spec fn holds(self, offset: u32) -> bool {
        !self.closed && self.offsets.contains(offset)
    }
}

/// The state of one open mock chip.
#[derive(Debug)]
pub struct MockChipState {
    pub path_string: String,
    pub snapshot: MockChipSnapshot,
    pub requests: BTreeMap<RequestId, RequestRegistration>,
    pub next_request_id: RequestId,
    pub watcher_error: Option<String>,
}

/// A [`MockChipState`] in mathematical terms.
pub ghost struct ChipStateModel {
    pub path: Seq<char>,
    pub chip: ChipModel,
    pub requests: Map<u64, RegistrationModel>,
    pub next_request_id: u64,
    pub watcher_error: Option<Seq<char>>,
}

/// The models of requests by number.
pub open spec fn request_models(requests: Map<u64, RequestRegistration>) -> Map<
    u64,
    RegistrationModel,
> {
    requests.map_values(|registration: RequestRegistration| registration@)
}

impl View for MockChipState {
    type V = ChipStateModel;

    open spec fn view(&self) -> ChipStateModel {
        ChipStateModel {
            path: self.path_string@,
            chip: self.snapshot@,
            requests: request_models(self.requests@),
            next_request_id: self.next_request_id,
            watcher_error: match self.watcher_error {
                Some(text) => Some(text@),
                None => None,
            },
        }
    }
}

impl ChipStateModel {
    /// The number of an open request.
    pub open spec fn is_open(self, id: u64) -> bool {
        self.requests.contains_key(id) && !self.requests[id].closed
    }

    /// Whether an open request holds a line.
    pub open spec fn in_use(self, offset: u32) -> bool {
        exists|id: u64| #[trigger]
            self.requests.contains_key(id) && self.requests[id].holds(offset)
    }

    /// Every request is well formed, holds lines of the chip only, and has an earlier number
    /// than the next one. No line is held twice.
    pub open spec fn wf(self) -> bool {
        &&& forall|id: u64| #[trigger]
            self.requests.contains_key(id) ==> {
                &&& self.requests[id].wf()
                &&& id < self.next_request_id
                &&& forall|offset: u32|
                    self.requests[id].offsets.contains(offset)
                        ==> #[trigger] self.chip.lines.contains_key(offset)
            }
        &&& self.exclusive()
    }

    /// No two open requests hold the same line.
    pub open spec fn exclusive(self) -> bool {
        forall|a: u64, b: u64, offset: u32|
            #![trigger self.requests[a].holds(offset), self.requests[b].holds(offset)]
            self.requests.contains_key(a) && self.requests.contains_key(b)
                && self.requests[a].holds(offset) && self.requests[b].holds(offset) ==> a == b
    }
}

/// A list of offsets contains one.
pub fn contains_offset(offsets: &Vec<u32>, offset: u32) -> (found: bool)
    ensures
        found == offsets@.contains(offset),
{
    let mut index: usize = 0;
    while index < offsets.len()
        invariant
            index <= offsets.len(),
            forall|i: int| 0 <= i < index ==> offsets@[i] != offset,
        decreases offsets.len() - index,
    {
        if offsets[index] == offset {
            return true;
        }
        index += 1;
    }
    false
}

/// The logical value of a physical level.
pub fn to_logical_value(physical: LineLevel, active_low: bool) -> (value: LineValue)
    ensures
        value == logical_value(physical, active_low),
{
    line_level_to_line_value(physical, active_low)
}

/// The physical level of a logical value.
pub fn to_physical_value(logical: LineValue, active_low: bool) -> (level: LineLevel)
    ensures
        level == physical_level(logical, active_low),
{
    line_value_to_line_level(logical, active_low)
}

/// The open chip with a path. One path is one chip, however often it is opened; another path
/// is another chip, whatever file it leads to.
pub fn find_open(paths: &Vec<String>, path: &str) -> (found: Option<usize>)
    ensures
        match found {
            Some(index) => {
                &&& index < paths@.len()
                &&& paths@[index as int]@ == path@
                &&& forall|i: int| 0 <= i < index ==> (#[trigger] paths@[i])@ != path@
            },
            None => forall|i: int| 0 <= i < paths@.len() ==> (#[trigger] paths@[i])@ != path@,
        },
{
    let mut index: usize = 0;
    while index < paths.len()
        invariant
            index <= paths@.len(),
            forall|i: int| 0 <= i < index ==> (#[trigger] paths@[i])@ != path@,
        decreases paths@.len() - index,
    {
        if same_text(paths[index].as_str(), path) {
            return Some(index);
        }
        index += 1;
    }
    None
}

/// A state without requests for a chip that was just read.
pub fn open_chip_state(path: &str, snapshot: MockChipSnapshot) -> (state: MockChipState)
    ensures
        state@ == (ChipStateModel {
            path: path@,
            chip: snapshot@,
            requests: Map::empty(),
            next_request_id: 1,
            watcher_error: None,
        }),
        state@.wf(),
{
    let state = MockChipState {
        path_string: path.to_owned(),
        snapshot,
        requests: BTreeMap::new(),
        next_request_id: 1,
        watcher_error: None,
    };
    assert(state@.requests =~= Map::<u64, RegistrationModel>::empty());
    state
}

/// The open request that holds a line, if there is one.
pub fn find_request_for_offset(state: &MockChipState, offset: u32) -> (found: Option<RequestId>)
    ensures
        match found {
            Some(id) => {
                &&& state@.requests.contains_key(id)
                &&& state@.requests[id].holds(offset)
                &&& forall|other: u64| #[trigger]
                    state@.requests.contains_key(other) && state@.requests[other].holds(offset)
                        ==> id <= other
            },
            None => !state@.in_use(offset),
        },
{
    let ids = keys_in_order(&state.requests);
    let mut index: usize = 0;
    while index < ids.len()
        invariant
            index <= ids.len(),
            ascending_keys(ids@),
            ids@.to_set() == state.requests@.dom(),
            forall|i: int| 0 <= i < index ==> !state@.requests[#[trigger] ids@[i]].holds(offset),
        decreases ids.len() - index,
    {
        let id: u64 = ids[index];
        assert(ids@.to_set().contains(id));
        let registration = state.requests.get(&id).unwrap();
        if !registration.closed && contains_offset(&registration.offsets_in_order, offset) {
            proof {
                assert forall|other: u64| #[trigger] state@.requests.contains_key(other)
                    && state@.requests[other].holds(offset) implies id <= other by {
                    assert(ids@.to_set().contains(other));
                    let k = choose|k: int| 0 <= k < ids@.len() && ids@[k] == other;
                    if k > index {
                        assert(ids@[index as int] < ids@[k]);
                    }
                }
            }
            return Some(id);
        }
        index += 1;
    }
    proof {
        assert forall|id: u64| #[trigger]
            state@.requests.contains_key(id) implies !state@.requests[id].holds(offset) by {
            assert(ids@.to_set().contains(id));
            let k = choose|k: int| 0 <= k < ids@.len() && ids@[k] == id;
            assert(!state@.requests[ids@[k]].holds(offset));
        }
    }
    None
}

/// Whether an open request holds a line.
pub fn offset_in_use(state: &MockChipState, offset: u32) -> (used: bool)
    ensures
        used == state@.in_use(offset),
{
    find_request_for_offset(state, offset).is_some()
}

/// What a request changes of the persisted state of its line: polarity always, direction and
/// bias or drive as far as it asks for them.
pub open spec fn requested_line(line: LineModel, request: MockRequestLineState) -> LineModel {
    let direction = requested_direction(request, line.direction);
    let polarized = LineModel { active_low: request.active_low, direction, ..line };
    if direction == LineDirection::Input && request.bias != LineBias::AsIs {
        LineModel { bias: request.bias, ..polarized }
    } else if direction == LineDirection::Output {
        LineModel { drive: request.drive, ..polarized }
    } else {
        polarized
    }
}

/// Applies the settings of a request to the persisted state of its line.
pub fn apply_persisted_metadata(line: &mut MockLineSnapshot, request: &MockRequestLineState)
    ensures
        final(line)@ == requested_line(old(line)@, *request),
{
    line.active_low = request.active_low;
    let direction = effective_direction(request, line);
    match direction {
        LineDirection::Input => {
            line.direction = LineDirection::Input;
            if request.bias != LineBias::AsIs {
                line.bias = request.bias;
            }
        },
        LineDirection::Output => {
            line.direction = LineDirection::Output;
            line.drive = request.drive;
        },
        LineDirection::AsIs => {},
    }
}

// ---------------------------------------------------------------------------
// Edge events
// ---------------------------------------------------------------------------

/// The edge from one logical value to another.
pub open spec fn transition(previous: LineValue, current: LineValue) -> Option<EdgeEventType> {
    if previous == current {
        None
    } else if current == LineValue::Active {
        Some(EdgeEventType::RisingEdge)
    } else {
        Some(EdgeEventType::FallingEdge)
    }
}

/// The edge from one logical value to another.
pub fn level_transition_event(previous: LineValue, current: LineValue) -> (event: Option<
    EdgeEventType,
>)
    ensures
        event == transition(previous, current),
{
    match (previous, current) {
        (LineValue::Inactive, LineValue::Active) => Some(EdgeEventType::RisingEdge),
        (LineValue::Active, LineValue::Inactive) => Some(EdgeEventType::FallingEdge),
        _ => None,
    }
}

/// Whether edge detection lets an edge through.
pub open spec fn detects(edge: LineEdge, event_type: EdgeEventType) -> bool {
    match edge {
        LineEdge::NoEdge => false,
        LineEdge::Rising => event_type == EdgeEventType::RisingEdge,
        LineEdge::Falling => event_type == EdgeEventType::FallingEdge,
        LineEdge::Both => true,
    }
}

/// Whether edge detection lets an edge through.
pub fn edge_matches_detection(edge: LineEdge, event_type: EdgeEventType) -> (matched: bool)
    ensures
        matched == detects(edge, event_type),
{
    match edge {
        LineEdge::NoEdge => false,
        LineEdge::Rising => event_type == EdgeEventType::RisingEdge,
        LineEdge::Falling => event_type == EdgeEventType::FallingEdge,
        LineEdge::Both => true,
    }
}

/// The request with one more event in its queue, numbered after the last event of the request
/// and after the last event of the line.
pub open spec fn enqueued(
    registration: RegistrationModel,
    event_type: EdgeEventType,
    offset: u32,
    timestamp_ns: u64,
) -> RegistrationModel {
    let global_seqno = (registration.global_seqno + 1) as u64;
    let line_seqno = (registration.last_seqno(offset) + 1) as u64;
    RegistrationModel {
        pending: registration.pending.push(
            EdgeModel { event_type, timestamp_ns, line_offset: offset, global_seqno, line_seqno },
        ),
        global_seqno,
        line_seqno: registration.line_seqno.insert(offset, line_seqno),
        ..registration
    }
}

/// Puts an event into the queue of a request.
pub fn enqueue_edge_event(
    registration: &mut RequestRegistration,
    event_type: EdgeEventType,
    line_offset: u32,
    timestamp_ns: u64,
)
    requires
        old(registration)@.global_seqno < u64::MAX,
        old(registration)@.last_seqno(line_offset) <= old(registration)@.global_seqno,
    ensures
        final(registration)@ == enqueued(
            old(registration)@,
            event_type,
            line_offset,
            timestamp_ns,
        ),
{
    registration.global_seqno_cursor = registration.global_seqno_cursor + 1;
    let global_seqno: u64 = registration.global_seqno_cursor;
    let previous: u64 = match registration.per_line_seqno.get(&line_offset) {
        Some(seqno) => *seqno,
        None => 0,
    };
    let line_seqno: u64 = previous + 1;
    registration.per_line_seqno.insert(line_offset, line_seqno);
    registration.pending_edge_events.push_back(
        MockEdgeEventRecord { event_type, timestamp_ns, line_offset, global_seqno, line_seqno },
    );
    assert(registration@.pending =~= enqueued(
        old(registration)@,
        event_type,
        line_offset,
        timestamp_ns,
    ).pending);
}

} // verus!
