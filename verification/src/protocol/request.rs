//! Requests of a client.

use vstd::prelude::*;
use vstd::string::StringExecFns;

use crate::names::NameMap;
use crate::number::decimal;
use crate::number::number_text;
use crate::protocol::pin_names::texts;
use crate::protocol::pin_names::PinNames;
use crate::text::blank;
use crate::text::is_blank;

verus! {

/// Most pins that one target can combine.
pub const MAX_COMBINED_PINS: usize = 8;

/// A request with the identifier that its reply repeats.
#[derive(Debug, PartialEq, Eq)]
pub struct RequestMessage {
    pub id: String,
    pub payload: RequestPayload,
}

impl RequestMessage {
    /// The identifier of the request.
    pub fn id(&self) -> (id: &str)
        ensures
            id@ == self.id@,
    {
        self.id.as_str()
    }
}

/// What a client asks for.
#[derive(Debug, PartialEq, Eq)]
pub enum RequestPayload {
    /// Configures the targets of the session.
    Init { target: NameMap<TargetConfigRequest> },
    /// Reads targets.
    Get { target: TargetSelector },
    /// Writes targets.
    SetValues { target: SetRequest },
}

/// Bias of an input target.
#[derive(Debug, Clone, Copy, PartialEq, Eq, Structural)]
pub enum BiasMode {
    AsIs,
    Disabled,
    PullUp,
    PullDown,
}

/// Drive of an output target.
#[derive(Debug, Clone, Copy, PartialEq, Eq, Structural)]
pub enum DriveMode {
    PushPull,
    OpenDrain,
    OpenSource,
}

/// Edges that a trigger target reports.
#[derive(Debug, Clone, Copy, PartialEq, Eq, Structural)]
pub enum EdgeMode {
    Rising,
    Falling,
    Both,
}

/// The edges that a trigger target reports when none are named.
pub fn default_edge_mode() -> (edge: EdgeMode)
    ensures
        edge == EdgeMode::Rising,
{
    EdgeMode::Rising
}

/// Configuration of one target.
#[derive(Debug, PartialEq, Eq)]
pub enum TargetConfigRequest {
    /// Lines to read.
    Input { pin: PinSelector, bias: Option<BiasMode> },
    /// Lines to drive. `initial` is driven when the lines are requested, `final_value` when
    /// the session closes; both are packed like the value of a `set`.
    Output {
        pin: PinSelector,
        drive: Option<DriveMode>,
        initial: Option<u8>,
        final_value: Option<u8>,
    },
    /// A line whose edges are reported.
    Trigger { pin: String, edge: EdgeMode },
}

impl TargetConfigRequest {
    /// The names of the pins of the target, in order.
    pub open spec fn pin_names(&self) -> Seq<Seq<char>> {
        match *self {
            TargetConfigRequest::Input { pin, .. } => pin@,
            TargetConfigRequest::Output { pin, .. } => pin@,
            TargetConfigRequest::Trigger { pin, .. } => seq![pin@],
        }
    }

    /// Whether the target names one pin by itself, rather than in a list of pins.
    pub open spec fn names_one_pin(&self) -> bool {
        match *self {
            TargetConfigRequest::Input { pin, .. } => pin is Single,
            TargetConfigRequest::Output { pin, .. } => pin is Single,
            TargetConfigRequest::Trigger { .. } => true,
        }
    }

    /// The names of the pins of the target, in order.
    pub fn pins(&self) -> (pins: Vec<&str>)
        ensures
            pins@.len() == self.pin_names().len(),
            forall|i: int| 0 <= i < pins@.len() ==> (#[trigger] pins@[i])@ == self.pin_names()[i],
    {
        match self {
            TargetConfigRequest::Input { pin, .. } => pin.names(),
            TargetConfigRequest::Output { pin, .. } => pin.names(),
            TargetConfigRequest::Trigger { pin, .. } => {
                let mut pins: Vec<&str> = Vec::new();
                pins.push(pin.as_str());
                pins
            },
        }
    }
}

/// Why a request is not valid.
#[derive(Debug, Clone, Copy, PartialEq, Eq, Structural)]
pub enum RequestFault {
    EmptyString,
    EmptyPinName,
    TooManyPins,
    EmptyPinList,
    EmptyTargetName,
    EmptyTargetList,
    EmptySetObject,
    EmptySetSteps,
    FirstStepLag,
    MissingStepLag(usize),
    EmptySetStep,
}

impl RequestFault {
    /// The reason in words.
    pub open spec fn text(self) -> Seq<char> {
        match self {
            RequestFault::EmptyString => "string value must not be empty"@,
            RequestFault::EmptyPinName => "pin name must not be empty"@,
            RequestFault::TooManyPins => "combined pin list must not contain more than 8 pins"@,
            RequestFault::EmptyPinList => "combined pin list must not be empty"@,
            RequestFault::EmptyTargetName => "target name must not be empty"@,
            RequestFault::EmptyTargetList => "target list must not be empty"@,
            RequestFault::EmptySetObject =>
                "set target object must contain at least one target value"@,
            RequestFault::EmptySetSteps => "set target steps must contain at least one step"@,
            RequestFault::FirstStepLag => "set target[0] must not include lag"@,
            RequestFault::MissingStepLag(index) => "set target["@ + decimal(index as nat)
                + "] must include lag"@,
            RequestFault::EmptySetStep => "set step must contain at least one target value"@,
        }
    }

    /// The reason in words.
    pub fn message(self) -> (message: String)
        ensures
            message@ == self.text(),
    {
        match self {
            RequestFault::EmptyString => "string value must not be empty".to_owned(),
            RequestFault::EmptyPinName => "pin name must not be empty".to_owned(),
            RequestFault::TooManyPins =>
                "combined pin list must not contain more than 8 pins".to_owned(),
            RequestFault::EmptyPinList => "combined pin list must not be empty".to_owned(),
            RequestFault::EmptyTargetName => "target name must not be empty".to_owned(),
            RequestFault::EmptyTargetList => "target list must not be empty".to_owned(),
            RequestFault::EmptySetObject =>
                "set target object must contain at least one target value".to_owned(),
            RequestFault::EmptySetSteps =>
                "set target steps must contain at least one step".to_owned(),
            RequestFault::FirstStepLag => "set target[0] must not include lag".to_owned(),
            RequestFault::MissingStepLag(index) => "set target[".to_owned().concat(
                number_text(index as u64).as_str(),
            ).concat("] must include lag"),
            RequestFault::EmptySetStep =>
                "set step must contain at least one target value".to_owned(),
        }
    }
}

/// Accepts a string that is more than whitespace.
pub fn non_empty_string(value: String) -> (result: Result<String, RequestFault>)
    ensures
        match result {
            Ok(text) => !blank(value@) && text@ == value@,
            Err(fault) => blank(value@) && fault == RequestFault::EmptyString,
        },
{
    if is_blank(value.as_str()) {
        Err(RequestFault::EmptyString)
    } else {
        Ok(value)
    }
}

// ---------------------------------------------------------------------------
// Pins of a target
// ---------------------------------------------------------------------------

/// The pins of a target: one, or several that are packed into one value.
#[derive(Debug, PartialEq, Eq)]
pub enum PinSelector {
    Single(String),
    Combined(PinNames),
}

impl View for PinSelector {
    type V = Seq<Seq<char>>;

    open spec fn view(&self) -> Seq<Seq<char>> {
        match *self {
            PinSelector::Single(pin) => seq![pin@],
            PinSelector::Combined(pins) => pins@,
        }
    }
}

/// Whether these names can be the pins of a combined target.
pub open spec fn combined_fault(names: Seq<Seq<char>>) -> Option<RequestFault>
    decreases names.len(),
{
    if names.len() == 0 {
        None
    } else {
        match combined_fault(names.drop_last()) {
            Some(fault) => Some(fault),
            None => if names.last().len() == 0 {
                Some(RequestFault::EmptyPinName)
            } else if names.len() > MAX_COMBINED_PINS {
                Some(RequestFault::TooManyPins)
            } else {
                None
            },
        }
    }
}

/// The first fault in a list of pin names stays the fault however the list goes on.
pub proof fn lemma_combined_fault(names: Seq<Seq<char>>, count: int)
    requires
        0 <= count <= names.len(),
        combined_fault(names.take(count)) is Some,
    ensures
        combined_fault(names) == combined_fault(names.take(count)),
    decreases names.len(),
{
    if count == names.len() {
        assert(names.take(count) =~= names);
    } else {
        assert(names.drop_last().take(count) =~= names.take(count));
        lemma_combined_fault(names.drop_last(), count);
    }
}

/// Pin names without fault are one to eight, none of them empty.
pub proof fn lemma_combined_valid(names: Seq<Seq<char>>)
    ensures
        combined_fault(names) is None <==> names.len() <= 8 && forall|i: int|
            0 <= i < names.len() ==> (#[trigger] names[i]).len() > 0,
    decreases names.len(),
{
    if names.len() > 0 {
        let front = names.drop_last();
        lemma_combined_valid(front);
        assert(names[names.len() - 1] == names.last());
        if combined_fault(names) is None {
            assert forall|i: int| 0 <= i < names.len() implies (#[trigger] names[i]).len() > 0 by {
                if i < front.len() {
                    assert(front[i] == names[i]);
                }
            }
        } else if names.len() <= 8 && (forall|i: int|
            0 <= i < names.len() ==> (#[trigger] names[i]).len() > 0) {
            assert forall|i: int| 0 <= i < front.len() implies (#[trigger] front[i]).len() > 0 by {
                assert(front[i] == names[i]);
            }
        }
    }
}

/// Collects the pins of a combined target one by one.
pub struct CombinedPinsBuilder {
    pins: PinNames,
}

impl View for CombinedPinsBuilder {
    type V = Seq<Seq<char>>;

    closed spec fn view(&self) -> Seq<Seq<char>> {
        self.pins@
    }
}

impl CombinedPinsBuilder {
    /// No pins yet.
    pub fn new() -> (builder: Self)
        ensures
            builder@ == Seq::<Seq<char>>::empty(),
            combined_fault(builder@) is None,
    {
        CombinedPinsBuilder { pins: PinNames::new() }
    }

    /// Takes one more pin, or says why the list cannot have it.
    pub fn push(&mut self, pin: String) -> (result: Result<(), RequestFault>)
        requires
            combined_fault(old(self)@) is None,
        ensures
            match result {
                Ok(_) => {
                    &&& combined_fault(old(self)@.push(pin@)) is None
                    &&& final(self)@ == old(self)@.push(pin@)
                },
                Err(fault) => {
                    &&& combined_fault(old(self)@.push(pin@)) == Some(fault)
                    &&& final(self)@ == old(self)@
                },
            },
    {
        let ghost now = self@.push(pin@);
        assert(now.drop_last() =~= self@);
        if pin.as_str().is_empty() {
            return Err(RequestFault::EmptyPinName);
        }
        if self.pins.len() >= MAX_COMBINED_PINS {
            return Err(RequestFault::TooManyPins);
        }
        self.pins.push(pin);
        Ok(())
    }

    /// The pins, of which there must be at least one.
    pub fn finish(self) -> (result: Result<PinSelector, RequestFault>)
        ensures
            match result {
                Ok(selector) => {
                    &&& self@.len() > 0
                    &&& selector is Combined
                    &&& selector@ == self@
                },
                Err(fault) => self@.len() == 0 && fault == RequestFault::EmptyPinList,
            },
    {
        if self.pins.len() == 0 {
            Err(RequestFault::EmptyPinList)
        } else {
            Ok(PinSelector::Combined(self.pins))
        }
    }
}

impl PinSelector {
    /// A target with one pin.
    pub fn single(pin: String) -> (result: Result<Self, RequestFault>)
        ensures
            match result {
                Ok(selector) => {
                    &&& pin@.len() > 0
                    &&& selector is Single
                    &&& selector@ == seq![pin@]
                },
                Err(fault) => pin@.len() == 0 && fault == RequestFault::EmptyPinName,
            },
    {
        if pin.as_str().is_empty() {
            Err(RequestFault::EmptyPinName)
        } else {
            Ok(PinSelector::Single(pin))
        }
    }

    /// A target with several pins.
    pub fn combined(pins: Vec<String>) -> (result: Result<Self, RequestFault>)
        ensures
            match result {
                Ok(selector) => {
                    &&& combined_fault(texts(pins@)) is None
                    &&& pins@.len() > 0
                    &&& selector is Combined
                    &&& selector@ == texts(pins@)
                },
                Err(fault) => match combined_fault(texts(pins@)) {
                    Some(expected) => fault == expected,
                    None => pins@.len() == 0 && fault == RequestFault::EmptyPinList,
                },
            },
    {
        let mut builder = CombinedPinsBuilder::new();
        let ghost names = texts(pins@);
        let mut index: usize = 0;
        assert(names.take(0) =~= Seq::<Seq<char>>::empty());
        while index < pins.len()
            invariant
                index <= pins@.len(),
                names == texts(pins@),
                builder@ == names.take(index as int),
                combined_fault(builder@) is None,
            decreases pins@.len() - index,
        {
            assert(names.take(index + 1) =~= names.take(index as int).push(names[index as int]));
            match builder.push(pins[index].clone()) {
                Ok(_) => {},
                Err(fault) => {
                    proof {
                        lemma_combined_fault(names, index + 1);
                    }
                    return Err(fault);
                },
            }
            index += 1;
        }
        assert(names.take(index as int) =~= names);
        builder.finish()
    }

    /// How many pins the target has.
    pub fn len(&self) -> (len: usize)
        ensures
            len == self@.len(),
    {
        match self {
            PinSelector::Single(_) => 1,
            PinSelector::Combined(pins) => pins.len(),
        }
    }

    /// The name of the pin at a position.
    pub fn name_at(&self, index: usize) -> (name: &str)
        requires
            index < self@.len(),
        ensures
            name@ == self@[index as int],
    {
        match self {
            PinSelector::Single(pin) => pin.as_str(),
            PinSelector::Combined(pins) => {
                let names = pins.as_slice();
                assert(texts(names@)[index as int] == names@[index as int]@);
                names[index].as_str()
            },
        }
    }

    /// The names of the pins in order.
    pub fn names(&self) -> (names: Vec<&str>)
        ensures
            names@.len() == self@.len(),
            forall|i: int| 0 <= i < names@.len() ==> (#[trigger] names@[i])@ == self@[i],
    {
        let mut names: Vec<&str> = Vec::new();
        let mut index: usize = 0;
        let len: usize = self.len();
        while index < len
            invariant
                index <= len,
                len == self@.len(),
                names@.len() == index,
                forall|i: int| 0 <= i < names@.len() ==> (#[trigger] names@[i])@ == self@[i],
            decreases len - index,
        {
            names.push(self.name_at(index));
            index += 1;
        }
        names
    }

    /// Walks over the pins in order.
    pub fn iter<'a>(&'a self) -> (iter: PinSelectorIter<'a>)
        ensures
            iter.all() == self@,
            iter.position() == 0,
    {
        PinSelectorIter::new(self)
    }
}

/// Walks over the pins of a target in order.
pub struct PinSelectorIter<'a> {
    selector: &'a PinSelector,
    index: usize,
}

impl<'a> PinSelectorIter<'a> {
    /// All pins of the target.
    pub closed spec fn all(&self) -> Seq<Seq<char>> {
        self.selector@
    }

    /// How many pins lie behind the walk.
    pub closed spec fn position(&self) -> usize {
        self.index
    }

    /// A walk before the first pin.
    pub fn new(selector: &'a PinSelector) -> (iter: Self)
        ensures
            iter.all() == selector@,
            iter.position() == 0,
    {
        PinSelectorIter { selector, index: 0 }
    }

    /// How many pins the target has, wherever the walk stands.
    pub fn len(&self) -> (len: usize)
        ensures
            len == self.all().len(),
    {
        self.selector.len()
    }

    /// How many pins the target has, as a lower and an upper bound.
    pub fn size_hint(&self) -> (hint: (usize, Option<usize>))
        ensures
            hint.0 == self.all().len(),
            hint.1 == Some(hint.0),
    {
        let len: usize = self.len();
        (len, Some(len))
    }

    /// Goes back before the first pin.
    pub fn reset(&mut self)
        ensures
            final(self).all() == old(self).all(),
            final(self).position() == 0,
    {
        self.index = 0;
    }

    /// The next pin.
    pub fn next(&mut self) -> (pin: Option<&'a str>)
        ensures
            final(self).all() == old(self).all(),
            match pin {
                Some(name) => {
                    &&& old(self).position() < old(self).all().len()
                    &&& name@ == old(self).all()[old(self).position() as int]
                    &&& final(self).position() == old(self).position() + 1
                },
                None => {
                    &&& old(self).position() >= old(self).all().len()
                    &&& final(self).position() == old(self).position()
                },
            },
    {
        if self.index < self.selector.len() {
            let name = self.selector.name_at(self.index);
            self.index = self.index + 1;
            Some(name)
        } else {
            None
        }
    }

    /// The next pin behind the next `n`.
    pub fn nth(&mut self, n: usize) -> (pin: Option<&'a str>)
        requires
            old(self).position() + n <= usize::MAX,
        ensures
            final(self).all() == old(self).all(),
            match pin {
                Some(name) => {
                    &&& old(self).position() + n < old(self).all().len()
                    &&& name@ == old(self).all()[old(self).position() + n]
                    &&& final(self).position() == old(self).position() + n + 1
                },
                None => {
                    &&& old(self).position() + n >= old(self).all().len()
                    &&& final(self).position() == old(self).position() + n
                },
            },
    {
        self.index = self.index + n;
        self.next()
    }
}

// ---------------------------------------------------------------------------
// Targets to read
// ---------------------------------------------------------------------------

/// The targets of a `get`: one, or several in order.
#[derive(Debug, PartialEq, Eq)]
pub enum TargetSelector {
    Single(String),
    Multiple(Vec<String>),
}

impl View for TargetSelector {
    type V = Seq<Seq<char>>;

    open spec fn view(&self) -> Seq<Seq<char>> {
        match *self {
            TargetSelector::Single(target) => seq![target@],
            TargetSelector::Multiple(targets) => texts(targets@),
        }
    }
}

/// Collects the targets of a `get` one by one.
pub struct TargetListBuilder {
    targets: Vec<String>,
}

impl View for TargetListBuilder {
    type V = Seq<Seq<char>>;

    closed spec fn view(&self) -> Seq<Seq<char>> {
        texts(self.targets@)
    }
}

impl TargetListBuilder {
    /// No targets yet.
    pub fn new() -> (builder: Self)
        ensures
            builder@ == Seq::<Seq<char>>::empty(),
    {
        let builder = TargetListBuilder { targets: Vec::new() };
        assert(builder@ =~= Seq::<Seq<char>>::empty());
        builder
    }

    /// Takes one more target, whose name must be more than whitespace.
    pub fn push(&mut self, target: String) -> (result: Result<(), RequestFault>)
        ensures
            match result {
                Ok(_) => !blank(target@) && final(self)@ == old(self)@.push(target@),
                Err(fault) => blank(target@) && fault == RequestFault::EmptyTargetName
                    && final(self)@ == old(self)@,
            },
    {
        if is_blank(target.as_str()) {
            return Err(RequestFault::EmptyTargetName);
        }
        let ghost before = self.targets@;
        self.targets.push(target);
        assert(self@ =~= texts(before).push(target@));
        Ok(())
    }

    /// The targets, of which there must be at least one.
    pub fn finish(self) -> (result: Result<TargetSelector, RequestFault>)
        ensures
            match result {
                Ok(selector) => {
                    &&& self@.len() > 0
                    &&& selector is Multiple
                    &&& selector@ == self@
                },
                Err(fault) => self@.len() == 0 && fault == RequestFault::EmptyTargetList,
            },
    {
        if self.targets.len() == 0 {
            Err(RequestFault::EmptyTargetList)
        } else {
            Ok(TargetSelector::Multiple(self.targets))
        }
    }
}

impl TargetSelector {
    /// One target, whose name must be more than whitespace.
    pub fn single(target: String) -> (result: Result<Self, RequestFault>)
        ensures
            match result {
                Ok(selector) => {
                    &&& !blank(target@)
                    &&& selector is Single
                    &&& selector@ == seq![target@]
                },
                Err(fault) => blank(target@) && fault == RequestFault::EmptyTargetName,
            },
    {
        if is_blank(target.as_str()) {
            Err(RequestFault::EmptyTargetName)
        } else {
            Ok(TargetSelector::Single(target))
        }
    }

    /// How many targets there are.
    pub fn len(&self) -> (len: usize)
        ensures
            len == self@.len(),
    {
        match self {
            TargetSelector::Single(_) => 1,
            TargetSelector::Multiple(targets) => targets.len(),
        }
    }

    /// The name of the target at a position.
    pub fn name_at(&self, index: usize) -> (name: &str)
        requires
            index < self@.len(),
        ensures
            name@ == self@[index as int],
    {
        match self {
            TargetSelector::Single(target) => target.as_str(),
            TargetSelector::Multiple(targets) => targets[index].as_str(),
        }
    }

    /// The names of the targets in order.
    pub fn as_slice(&self) -> (names: Vec<&str>)
        ensures
            names@.len() == self@.len(),
            forall|i: int| 0 <= i < names@.len() ==> (#[trigger] names@[i])@ == self@[i],
    {
        let mut names: Vec<&str> = Vec::new();
        let mut index: usize = 0;
        let len: usize = self.len();
        while index < len
            invariant
                index <= len,
                len == self@.len(),
                names@.len() == index,
                forall|i: int| 0 <= i < names@.len() ==> (#[trigger] names@[i])@ == self@[i],
            decreases len - index,
        {
            names.push(self.name_at(index));
            index += 1;
        }
        names
    }
}

// ---------------------------------------------------------------------------
// Values to write
// ---------------------------------------------------------------------------

/// The values of a `set`: at once, or in steps.
#[derive(Debug, PartialEq, Eq)]
pub enum SetRequest {
    Immediate(NameMap<u8>),
    Steps(Vec<SetStepRequest>),
}

/// One step of a `set`: values, and how long after the previous step, in milliseconds.
#[derive(Debug, PartialEq, Eq)]
pub struct SetStepRequest {
    pub lag: u32,
    pub target: NameMap<u8>,
}

impl SetStepRequest {
    /// A step with at least one value.
    pub fn new(lag: u32, target: NameMap<u8>) -> (result: Result<Self, RequestFault>)
        ensures
            match result {
                Ok(step) => target.names().len() > 0 && step.lag == lag && step.target == target,
                Err(fault) => target.names().len() == 0 && fault == RequestFault::EmptySetStep,
            },
    {
        if target.is_empty() {
            Err(RequestFault::EmptySetStep)
        } else {
            Ok(SetStepRequest { lag, target })
        }
    }
}

/// Why a step at a position has the wrong lag, if it has: the first step follows nothing, and
/// every later step follows after some time.
pub open spec fn lag_fault(index: int, lag: u32) -> Option<RequestFault> {
    if index == 0 && lag > 0 {
        Some(RequestFault::FirstStepLag)
    } else if index > 0 && lag == 0 {
        Some(RequestFault::MissingStepLag(index as usize))
    } else {
        None
    }
}

/// Why the first step with a wrong lag has it.
pub open spec fn first_lag_fault(steps: Seq<SetStepRequest>) -> Option<RequestFault>
    decreases steps.len(),
{
    if steps.len() == 0 {
        None
    } else {
        match first_lag_fault(steps.drop_last()) {
            Some(fault) => Some(fault),
            None => lag_fault(steps.len() - 1, steps.last().lag),
        }
    }
}

proof fn lemma_first_lag_fault(steps: Seq<SetStepRequest>, count: int)
    requires
        0 <= count <= steps.len(),
        first_lag_fault(steps.take(count)) is Some,
    ensures
        first_lag_fault(steps) == first_lag_fault(steps.take(count)),
    decreases steps.len(),
{
    if count == steps.len() {
        assert(steps.take(count) =~= steps);
    } else {
        assert(steps.drop_last().take(count) =~= steps.take(count));
        lemma_first_lag_fault(steps.drop_last(), count);
    }
}

/// Steps without a lag fault: only the first has no lag.
pub proof fn lemma_lags_valid(steps: Seq<SetStepRequest>)
    ensures
        first_lag_fault(steps) is None <==> forall|i: int|
            0 <= i < steps.len() ==> ((#[trigger] steps[i]).lag == 0 <==> i == 0),
    decreases steps.len(),
{
    if steps.len() > 0 {
        let front = steps.drop_last();
        lemma_lags_valid(front);
        assert(steps[steps.len() - 1] == steps.last());
        if first_lag_fault(steps) is None {
            assert forall|i: int| 0 <= i < steps.len() implies ((#[trigger] steps[i]).lag == 0
                <==> i == 0) by {
                if i < front.len() {
                    assert(front[i] == steps[i]);
                }
            }
        } else if forall|i: int|
            0 <= i < steps.len() ==> ((#[trigger] steps[i]).lag == 0 <==> i == 0) {
            assert forall|i: int| 0 <= i < front.len() implies ((#[trigger] front[i]).lag == 0
                <==> i == 0) by {
                assert(front[i] == steps[i]);
            }
        }
    }
}

impl SetRequest {
    /// Values to write at once, of which there must be at least one.
    pub fn immediate(target: NameMap<u8>) -> (result: Result<Self, RequestFault>)
        ensures
            match result {
                Ok(request) => target.names().len() > 0 && request == SetRequest::Immediate(
                    target,
                ),
                Err(fault) => target.names().len() == 0 && fault == RequestFault::EmptySetObject,
            },
    {
        if target.is_empty() {
            Err(RequestFault::EmptySetObject)
        } else {
            Ok(SetRequest::Immediate(target))
        }
    }

    /// Steps to write one after the other, of which there must be at least one.
    pub fn steps(steps: Vec<SetStepRequest>) -> (result: Result<Self, RequestFault>)
        ensures
            match result {
                Ok(request) => steps@.len() > 0 && first_lag_fault(steps@) is None && request
                    == SetRequest::Steps(steps),
                Err(fault) => if steps@.len() == 0 {
                    fault == RequestFault::EmptySetSteps
                } else {
                    first_lag_fault(steps@) == Some(fault)
                },
            },
    {
        if steps.len() == 0 {
            return Err(RequestFault::EmptySetSteps);
        }
        let mut index: usize = 0;
        assert(steps@.take(0) =~= Seq::<SetStepRequest>::empty());
        while index < steps.len()
            invariant
                index <= steps@.len(),
                first_lag_fault(steps@.take(index as int)) is None,
            decreases steps@.len() - index,
        {
            let ghost prefix = steps@.take(index + 1);
            proof {
                assert(prefix.drop_last() =~= steps@.take(index as int));
                if first_lag_fault(prefix) is Some {
                    lemma_first_lag_fault(steps@, index + 1);
                }
            }
            let lag: u32 = steps[index].lag;
            if index == 0 && lag > 0 {
                return Err(RequestFault::FirstStepLag);
            }
            if index > 0 && lag == 0 {
                return Err(RequestFault::MissingStepLag(index));
            }
            index += 1;
        }
        assert(steps@.take(index as int) =~= steps@);
        Ok(SetRequest::Steps(steps))
    }
}

} // verus!
