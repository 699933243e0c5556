//! Reading the lines of a batch from the chips of a session.

use vstd::prelude::*;

use crate::gpio::libgpiod::GPIOErrorModel;
use crate::gpio::libgpiod::LineValue;
use crate::gpio::mock::request::values_at;
use crate::gpio::mock::request::MockLineRequest;
use crate::gpio::mock::state::ChipStateModel;
use crate::gpio::mock::state::MockChipState;
use crate::session::batch::describes;
use crate::session::batch::lemma_used_chips;
use crate::session::batch::used_chips;
use crate::session::batch::ChipBatch;
use crate::session::batch::CollectRule;
use crate::session::batch::CombinedOffsets;
use crate::session::execute::pair_readings;
use crate::session::execute::rules_fit;
use crate::session::state::SessionError;
use crate::session::state::SessionErrorModel;

verus! {

/// A chip of a session: its state, and the request for the lines of the session.
pub struct SessionChip<'a> {
    pub state: &'a MockChipState,
    pub request: &'a MockLineRequest,
}

impl View for SessionChip<'_> {
    type V = (ChipStateModel, u64);

    open spec fn view(&self) -> (ChipStateModel, u64) {
        (self.state@, self.request.request_id)
    }
}

/// The models of chips.
pub open spec fn chip_models(chips: Seq<SessionChip>) -> Seq<(ChipStateModel, u64)> {
    chips.map_values(|chip: SessionChip| chip@)
}

/// Where readings go, each with its reading.
pub open spec fn paired_readings(rules: Seq<CollectRule>, values: Seq<LineValue>) -> Seq<
    (CollectRule, LineValue),
> {
    Seq::new(rules.len(), |i: int| (rules[i], values[i]))
}

/// What reading the given chips of a batch in order gives, the first line that cannot be read
/// deciding.
pub open spec fn batch_read(
    chips: Seq<(ChipStateModel, u64)>,
    batch: Seq<ChipBatch<CollectRule>>,
    used: Seq<int>,
) -> Result<Seq<(CollectRule, LineValue)>, GPIOErrorModel>
    decreases used.len(),
{
    if used.len() == 0 {
        Ok(Seq::empty())
    } else {
        match batch_read(chips, batch, used.drop_last()) {
            Err(error) => Err(error),
            Ok(earlier) => {
                let index = used.last();
                let (state, id) = chips[index];
                match values_at(state, id, batch[index].offsets) {
                    Err(error) => Err(error),
                    Ok(values) => Ok(
                        earlier + paired_readings(batch[index].attachments, values),
                    ),
                }
            },
        }
    }
}

proof fn lemma_read_prefix(
    chips: Seq<(ChipStateModel, u64)>,
    batch: Seq<ChipBatch<CollectRule>>,
    used: Seq<int>,
    count: int,
)
    requires
        0 <= count <= used.len(),
        batch_read(chips, batch, used.take(count)) is Err,
    ensures
        batch_read(chips, batch, used) == batch_read(chips, batch, used.take(count)),
    decreases used.len(),
{
    if count == used.len() {
        assert(used.take(count) =~= used);
    } else {
        assert(used.drop_last().take(count) =~= used.take(count));
        lemma_read_prefix(chips, batch, used.drop_last(), count);
    }
}

proof fn lemma_values_count(state: ChipStateModel, id: u64, offsets: Seq<u32>)
    ensures
        values_at(state, id, offsets) matches Ok(values) ==> values.len() == offsets.len(),
    decreases offsets.len(),
{
    if offsets.len() > 0 {
        lemma_values_count(state, id, offsets.drop_last());
    }
}

fn inactive_values(count: usize) -> (values: Vec<LineValue>)
    ensures
        values@.len() == count,
{
    let mut values: Vec<LineValue> = Vec::new();
    while values.len() < count
        invariant
            values@.len() <= count,
        decreases count - values@.len(),
    {
        values.push(LineValue::Inactive);
    }
    values
}

/// Reads the lines of a batch, chip by chip.
pub fn apply_get_batch(chips: &Vec<SessionChip>, batch: &CombinedOffsets<CollectRule>) -> (result:
    Result<Vec<(CollectRule, LineValue)>, SessionError>)
    requires
        batch.wf(),
        batch@.len() <= chips@.len(),
        batch@.len() <= u32::MAX,
    ensures
        match (result, batch_read(chip_models(chips@), batch@, used_chips(batch@))) {
            (Ok(readings), Ok(expected)) => readings@ == expected,
            (Err(error), Err(expected)) => error@ == SessionErrorModel::GPIO(expected),
            _ => false,
        },
        result matches Ok(readings) ==> forall|slots: nat, i: int|
            #![trigger rules_fit(batch@, slots), readings@[i]]
            rules_fit(batch@, slots) && 0 <= i < readings@.len() ==> readings@[i].0.bit_index < 8
                && readings@[i].0.target_slot < slots,
{
    let used = batch.iter();
    let ghost models = chip_models(chips@);
    let ghost order = used_chips(batch@);
    proof {
        lemma_used_chips(batch@);
    }
    let mut readings: Vec<(CollectRule, LineValue)> = Vec::new();
    let mut index: usize = 0;
    while index < used.len()
        invariant
            index <= used@.len(),
            batch.wf(),
            batch@.len() <= chips@.len(),
            models == chip_models(chips@),
            order == used_chips(batch@),
            used@.len() == order.len(),
            forall|i: int| 0 <= i < used@.len() ==> describes(#[trigger] used@[i], batch@, order[i]),
            forall|i: int|
                #![trigger order[i]]
                0 <= i < order.len() ==> 0 <= order[i] < batch@.len(),
            batch_read(models, batch@, order.take(index as int)) == Ok::<
                Seq<(CollectRule, LineValue)>,
                GPIOErrorModel,
            >(readings@),
            forall|slots: nat, i: int|
                #![trigger rules_fit(batch@, slots), readings@[i]]
                rules_fit(batch@, slots) && 0 <= i < readings@.len() ==> readings@[i].0.bit_index
                    < 8 && readings@[i].0.target_slot < slots,
        decreases used@.len() - index,
    {
        let (chip_index, offsets, rules) = used[index];
        let ghost at = order[index as int];
        let ghost before = readings@;
        proof {
            assert(describes(used@[index as int], batch@, at));
            lemma_values_count(models[at].0, models[at].1, batch@[at].offsets);
            let next = order.take(index + 1);
            assert(next.drop_last() =~= order.take(index as int));
            assert(next.last() == at);
            if batch_read(models, batch@, next) is Err {
                lemma_read_prefix(models, batch@, order, index + 1);
            }
        }
        let chip = &chips[chip_index as usize];
        assert(models[at] == chip@);
        let mut values = inactive_values(offsets.len());
        match chip.request.get_values_subset(chip.state, offsets, values.as_mut_slice()) {
            Err(error) => {
                return Err(SessionError::GPIO(error));
            },
            Ok(()) => {},
        }
        assert(batch@[at].offsets.len() == batch@[at].attachments.len());
        pair_readings(&mut readings, rules, &values);
        proof {
            let added = paired_readings(batch@[at].attachments, values@);
            assert(readings@ =~= before + added);
            assert forall|slots: nat, i: int|
                #![trigger rules_fit(batch@, slots), readings@[i]]
                rules_fit(batch@, slots) && 0 <= i < readings@.len() implies readings@[i].0.bit_index
                < 8 && readings@[i].0.target_slot < slots by {
                if i < before.len() {
                    assert(readings@[i] == before[i]);
                } else {
                    assert(readings@[i].0 == batch@[at].attachments[i - before.len()]);
                }
            }
        }
        index += 1;
    }
    assert(order.take(index as int) =~= order);
    Ok(readings)
}

} // verus!
