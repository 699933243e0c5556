//! What holds of the requests that are accepted.

use vstd::prelude::*;

use crate::protocol::line::envelope_fault;
use crate::protocol::line::ProtocolErrorModel;
use crate::protocol::request::combined_fault;
use crate::protocol::request::first_lag_fault;
use crate::protocol::request::lemma_combined_valid;
use crate::protocol::request::lemma_lags_valid;
use crate::protocol::request::PinSelector;
use crate::protocol::request::RequestFault;
use crate::protocol::request::SetStepRequest;
use crate::protocol::request::TargetConfigRequest;
use crate::text::blank;

verus! {

/// A line is taken for a request exactly where it is a single line, its identifier holds more
/// than whitespace, and its action is `init`, `get` or `set`.
pub proof fn requests_are_lines_with_id_and_action(
    line: Seq<char>,
    id: Seq<char>,
    action: Seq<char>,
)
    ensures
        ({
            let single = forall|i: int|
                0 <= i < line.len() ==> #[trigger] line[i] != '\n' && line[i] != '\r';
            let fault = envelope_fault(line, Ok::<_, Seq<char>>((id, action)));
            &&& fault is None <==> single && !blank(id) && (action == "init"@ || action == "get"@
                || action == "set"@)
            &&& !single ==> fault == Some(ProtocolErrorModel::InvalidFraming)
            &&& single && blank(id) ==> fault == Some(
                ProtocolErrorModel::Validation("request id must not be empty"@),
            )
            &&& single && !blank(id) && fault is Some ==> fault == Some(
                ProtocolErrorModel::UnknownAction(action),
            )
        }),
{
    if line.contains('\n') {
        let i = choose|i: int| 0 <= i < line.len() && line[i] == '\n';
        assert(line[i] == '\n');
    } else if line.contains('\r') {
        let i = choose|i: int| 0 <= i < line.len() && line[i] == '\r';
        assert(line[i] == '\r');
    } else {
        assert forall|i: int| 0 <= i < line.len() implies #[trigger] line[i] != '\n' && line[i]
            != '\r' by {
            assert(line.contains(line[i]));
        }
    }
}

/// A line that cannot be read is no request, and the reason is told.
pub proof fn unreadable_lines_are_no_requests(line: Seq<char>, error: Seq<char>)
    ensures
        envelope_fault(line, Err::<(Seq<char>, Seq<char>), _>(error)) == Some(
            if line.contains('\n') || line.contains('\r') {
                ProtocolErrorModel::InvalidFraming
            } else {
                ProtocolErrorModel::InvalidJson(error)
            },
        ),
{
}

/// Of combined pins the first that is out of order is told: one without a name, or the ninth.
pub proof fn the_first_pin_out_of_order_is_told(names: Seq<Seq<char>>)
    ensures
        combined_fault(names) is None <==> names.len() <= 8 && forall|i: int|
            0 <= i < names.len() ==> (#[trigger] names[i]).len() > 0,
        combined_fault(names) matches Some(fault) ==> exists|i: int|
            #![trigger names[i]]
            {
                &&& 0 <= i < names.len()
                &&& i <= 8
                &&& forall|j: int| 0 <= j < i ==> (#[trigger] names[j]).len() > 0
                &&& if names[i].len() == 0 {
                    fault == RequestFault::EmptyPinName
                } else {
                    i == 8 && fault == RequestFault::TooManyPins
                }
            },
    decreases names.len(),
{
    lemma_combined_valid(names);
    if names.len() > 0 {
        let front = names.drop_last();
        let last = names.len() - 1;
        the_first_pin_out_of_order_is_told(front);
        assert(forall|i: int| 0 <= i < front.len() ==> #[trigger] front[i] == names[i]);
        assert(names.last() == names[last]);
        match combined_fault(front) {
            Some(fault) => {
                let i = choose|i: int|
                    #![trigger front[i]]
                    {
                        &&& 0 <= i < front.len()
                        &&& i <= 8
                        &&& forall|j: int| 0 <= j < i ==> (#[trigger] front[j]).len() > 0
                        &&& if front[i].len() == 0 {
                            fault == RequestFault::EmptyPinName
                        } else {
                            i == 8 && fault == RequestFault::TooManyPins
                        }
                    };
                assert(names[i] == front[i]);
                assert forall|j: int| 0 <= j < i implies (#[trigger] names[j]).len() > 0 by {
                    assert(front[j] == names[j]);
                }
            },
            None => {
                lemma_combined_valid(front);
                assert forall|j: int| 0 <= j < last implies (#[trigger] names[j]).len() > 0 by {
                    assert(front[j] == names[j]);
                }
            },
        }
    }
}

/// The steps of a `set` follow one another: the first has no lag and every other has one. The
/// first step out of order is told, by its place.
pub proof fn the_first_step_out_of_order_is_told(steps: Seq<SetStepRequest>)
    ensures
        first_lag_fault(steps) is None <==> forall|i: int|
            0 <= i < steps.len() ==> ((#[trigger] steps[i]).lag == 0 <==> i == 0),
        first_lag_fault(steps) matches Some(fault) ==> exists|i: int|
            #![trigger steps[i]]
            {
                &&& 0 <= i < steps.len()
                &&& forall|j: int|
                    0 <= j < i ==> ((#[trigger] steps[j]).lag == 0 <==> j == 0)
                &&& if i == 0 {
                    steps[i].lag > 0 && fault == RequestFault::FirstStepLag
                } else {
                    steps[i].lag == 0 && fault == RequestFault::MissingStepLag(i as usize)
                }
            },
    decreases steps.len(),
{
    lemma_lags_valid(steps);
    if steps.len() > 0 {
        let front = steps.drop_last();
        let last = steps.len() - 1;
        the_first_step_out_of_order_is_told(front);
        assert(steps.last() == steps[last]);
        match first_lag_fault(front) {
            Some(fault) => {
                let i = choose|i: int|
                    #![trigger front[i]]
                    {
                        &&& 0 <= i < front.len()
                        &&& forall|j: int|
                            0 <= j < i ==> ((#[trigger] front[j]).lag == 0 <==> j == 0)
                        &&& if i == 0 {
                            front[i].lag > 0 && fault == RequestFault::FirstStepLag
                        } else {
                            front[i].lag == 0 && fault == RequestFault::MissingStepLag(i as usize)
                        }
                    };
                assert(steps[i] == front[i]);
                assert forall|j: int| 0 <= j < i implies ((#[trigger] steps[j]).lag == 0 <==> j
                    == 0) by {
                    assert(front[j] == steps[j]);
                }
            },
            None => {
                lemma_lags_valid(front);
                assert forall|j: int| 0 <= j < last implies ((#[trigger] steps[j]).lag == 0 <==> j
                    == 0) by {
                    assert(front[j] == steps[j]);
                }
            },
        }
    }
}

/// A target has the pins that it names, in order: one that is named by itself, or those of a
/// list.
pub proof fn targets_have_the_pins_they_name(config: TargetConfigRequest)
    ensures
        config matches TargetConfigRequest::Trigger { pin, .. } ==> config.pin_names() == seq![
            pin@,
        ] && config.names_one_pin(),
        config matches TargetConfigRequest::Input { pin: PinSelector::Single(pin), .. }
            ==> config.pin_names() == seq![pin@] && config.names_one_pin(),
        config matches TargetConfigRequest::Output { pin: PinSelector::Single(pin), .. }
            ==> config.pin_names() == seq![pin@] && config.names_one_pin(),
        config matches TargetConfigRequest::Input { pin: PinSelector::Combined(pins), .. }
            ==> config.pin_names() == pins@ && !config.names_one_pin(),
        config matches TargetConfigRequest::Output { pin: PinSelector::Combined(pins), .. }
            ==> config.pin_names() == pins@ && !config.names_one_pin(),
{
}

} // verus!
