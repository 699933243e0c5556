//! Reading and driving the lines of a mock request.

use vstd::prelude::*;
use vstd::string::StringExecFns;

use crate::gpio::libgpiod::GPIOError;
use crate::gpio::libgpiod::GPIOErrorModel;
use crate::gpio::libgpiod::LineDirection;
use crate::gpio::libgpiod::LineValue;
use crate::gpio::mock::config::MockRequestLineState;
use crate::gpio::mock::document::serialize_chip_xml;
use crate::gpio::mock::events::MockEdgeEventBuffer;
use crate::gpio::mock::info::effective_direction;
use crate::gpio::mock::info::requested_direction;
use crate::gpio::mock::save::chip_nodes;
use crate::gpio::mock::snapshot::logical_value;
use crate::gpio::mock::snapshot::physical_level;
use crate::gpio::mock::snapshot::ChipModel;
use crate::gpio::mock::snapshot::LineLevel;
use crate::gpio::mock::snapshot::LineModel;
use crate::gpio::mock::state::contains_offset;
use crate::gpio::mock::state::record_models;
use crate::gpio::mock::state::to_logical_value;
use crate::gpio::mock::state::to_physical_value;
use crate::gpio::mock::state::ChipStateModel;
use crate::gpio::mock::state::MockChipState;
use crate::gpio::mock::state::RegistrationModel;
use crate::gpio::mock::state::RequestId;
use crate::gpio::mock::xml::xml_text;
use crate::gpio::traits::EdgeEventBuffer;
use crate::gpio::traits::EdgeModel;
use crate::number::decimal;
use crate::number::number_text;

verus! {

/// A request for lines of a mock chip.
#[derive(Debug, PartialEq, Eq)]
pub struct MockLineRequest {
    pub request_id: RequestId,
    pub chip_name: String,
    pub offsets: Vec<u32>,
}

// ---------------------------------------------------------------------------
// Values
// ---------------------------------------------------------------------------

/// What an open request asks of one of its lines, or why there is nothing to say.
pub open spec fn line_request(state: ChipStateModel, id: u64, offset: u32) -> Result<
    MockRequestLineState,
    GPIOErrorModel,
> {
    if !state.is_open(id) {
        Err(GPIOErrorModel::Closed)
    } else if !state.requests[id].offsets.contains(offset)
        || !state.requests[id].settings.contains_key(offset) {
        Err(GPIOErrorModel::UnconfiguredOffset { offset })
    } else if !state.chip.lines.contains_key(offset) {
        Err(GPIOErrorModel::InvalidOffset(offset))
    } else {
        Ok(state.requests[id].settings[offset])
    }
}

/// The logical value of a line under a request.
pub open spec fn value_at(state: ChipStateModel, id: u64, offset: u32) -> Result<
    LineValue,
    GPIOErrorModel,
> {
    match line_request(state, id, offset) {
        Ok(request) => Ok(logical_value(state.chip.lines[offset].level, request.active_low)),
        Err(error) => Err(error),
    }
}

/// Under which settings a request can drive a line, or why it cannot: only outputs can be
/// driven.
pub open spec fn write_target(state: ChipStateModel, id: u64, offset: u32) -> Result<
    MockRequestLineState,
    GPIOErrorModel,
> {
    match line_request(state, id, offset) {
        Ok(request) => if requested_direction(request, state.chip.lines[offset].direction)
            == LineDirection::Output {
            Ok(request)
        } else {
            Err(
                GPIOErrorModel::Other(
                    "write to non-output line at offset "@ + decimal(offset as nat),
                ),
            )
        },
        Err(error) => Err(error),
    }
}

/// The chip with a line at a level.
pub open spec fn with_level(chip: ChipModel, offset: u32, level: LineLevel) -> ChipModel {
    ChipModel {
        lines: chip.lines.insert(offset, LineModel { level, ..chip.lines[offset] }),
        ..chip
    }
}

fn find_line_request(state: &MockChipState, id: RequestId, offset: u32) -> (result: Result<
    MockRequestLineState,
    GPIOError,
>)
    ensures
        match (result, line_request(state@, id, offset)) {
            (Ok(request), Ok(expected)) => request == expected,
            (Err(error), Err(expected)) => error@ == expected,
            _ => false,
        },
{
    assert(state@.chip.lines.dom() =~= state.snapshot.lines@.dom());
    let registration = match state.requests.get(&id) {
        Some(registration) => registration,
        None => return Err(GPIOError::Closed),
    };
    if registration.closed {
        return Err(GPIOError::Closed);
    }
    if !contains_offset(&registration.offsets_in_order, offset) {
        return Err(GPIOError::UnconfiguredOffset { offset });
    }
    match registration.line_settings.get(&offset) {
        Some(request) => {
            if state.snapshot.lines.contains_key(&offset) {
                Ok(*request)
            } else {
                Err(GPIOError::InvalidOffset(offset))
            }
        },
        None => Err(GPIOError::UnconfiguredOffset { offset }),
    }
}

/// Under which settings a request can drive a line.
pub fn validate_write_target(state: &MockChipState, request_id: RequestId, offset: u32) -> (result:
    Result<MockRequestLineState, GPIOError>)
    ensures
        match (result, write_target(state@, request_id, offset)) {
            (Ok(request), Ok(expected)) => request == expected,
            (Err(error), Err(expected)) => error@ == expected,
            _ => false,
        },
{
    let request = match find_line_request(state, request_id, offset) {
        Ok(request) => request,
        Err(error) => return Err(error),
    };
    let line = state.snapshot.lines.get(&offset).unwrap();
    if effective_direction(&request, line) != LineDirection::Output {
        return Err(
            GPIOError::Other(
                "write to non-output line at offset ".to_owned().concat(
                    number_text(offset as u64).as_str(),
                ),
            ),
        );
    }
    Ok(request)
}

fn put_level(state: &mut MockChipState, offset: u32, level: LineLevel)
    requires
        old(state)@.chip.lines.contains_key(offset),
    ensures
        final(state)@ == (ChipStateModel {
            chip: with_level(old(state)@.chip, offset, level),
            ..old(state)@
        }),
{
    let mut line = state.snapshot.lines.remove(&offset).unwrap();
    line.persisted_level = level;
    state.snapshot.lines.insert(offset, line);
    assert(state@.chip.lines =~= with_level(old(state)@.chip, offset, level).lines);
}

/// The levels that logical values mean for the lines of a request, or why one of them cannot
/// be driven.
pub open spec fn levels_for(
    state: ChipStateModel,
    id: u64,
    offsets: Seq<u32>,
    values: Seq<LineValue>,
) -> Result<Seq<LineLevel>, GPIOErrorModel>
    decreases offsets.len(),
{
    if offsets.len() == 0 {
        Ok(Seq::empty())
    } else {
        match levels_for(state, id, offsets.drop_last(), values) {
            Err(error) => Err(error),
            Ok(levels) => match write_target(state, id, offsets.last()) {
                Err(error) => Err(error),
                Ok(request) => Ok(
                    levels.push(physical_level(values[offsets.len() - 1], request.active_low)),
                ),
            },
        }
    }
}

proof fn lemma_levels_fault(
    state: ChipStateModel,
    id: u64,
    offsets: Seq<u32>,
    values: Seq<LineValue>,
    count: int,
)
    requires
        0 <= count <= offsets.len(),
        levels_for(state, id, offsets.take(count), values) is Err,
    ensures
        levels_for(state, id, offsets, values) == levels_for(
            state,
            id,
            offsets.take(count),
            values,
        ),
    decreases offsets.len(),
{
    if count == offsets.len() {
        assert(offsets.take(count) =~= offsets);
    } else {
        assert(offsets.drop_last().take(count) =~= offsets.take(count));
        lemma_levels_fault(state, id, offsets.drop_last(), values, count);
    }
}

/// The chip with lines at levels, one after the other.
pub open spec fn with_all_levels(
    chip: ChipModel,
    offsets: Seq<u32>,
    levels: Seq<LineLevel>,
) -> ChipModel
    decreases offsets.len(),
{
    if offsets.len() == 0 {
        chip
    } else {
        with_level(
            with_all_levels(chip, offsets.drop_last(), levels),
            offsets.last(),
            levels[offsets.len() - 1],
        )
    }
}

/// The first of these offsets that a list does not contain.
pub open spec fn first_foreign(offsets: Seq<u32>, known: Seq<u32>) -> Option<u32>
    decreases offsets.len(),
{
    if offsets.len() == 0 {
        None
    } else if !known.contains(offsets[0]) {
        Some(offsets[0])
    } else {
        first_foreign(offsets.drop_first(), known)
    }
}

/// What driving lines makes of the chip, or why it is refused. A refused write changes
/// nothing, unless the chip cannot be written to its file.
pub open spec fn write_outcome(
    state: ChipStateModel,
    id: u64,
    offsets: Seq<u32>,
    values: Seq<LineValue>,
) -> (ChipStateModel, Result<Seq<char>, GPIOErrorModel>) {
    match levels_for(state, id, offsets, values) {
        Err(error) => (state, Err(error)),
        Ok(levels) => {
            let chip = with_all_levels(state.chip, offsets, levels);
            let after = ChipStateModel { chip, ..state };
            match chip_nodes(chip) {
                Ok(nodes) => (after, Ok(xml_text(nodes))),
                Err(text) => (after, Err(GPIOErrorModel::Io(text))),
            }
        },
    }
}

/// What driving some lines of a request makes of the chip.
pub open spec fn subset_outcome(
    state: ChipStateModel,
    request: MockLineRequest,
    offsets: Seq<u32>,
    values: Seq<LineValue>,
) -> (ChipStateModel, Result<Seq<char>, GPIOErrorModel>) {
    if offsets.len() != values.len() {
        (
            state,
            Err(
                GPIOErrorModel::LengthMismatch {
                    expected: offsets.len() as usize,
                    actual: values.len() as usize,
                },
            ),
        )
    } else {
        match first_foreign(offsets, request.offsets@) {
            Some(offset) => (state, Err(GPIOErrorModel::UnconfiguredOffset { offset })),
            None => if !state.is_open(request.request_id) {
                (state, Err(GPIOErrorModel::Closed))
            } else {
                write_outcome(state, request.request_id, offsets, values)
            },
        }
    }
}

/// The values of lines under a request, or why one of them has none.
pub open spec fn values_at(state: ChipStateModel, id: u64, offsets: Seq<u32>) -> Result<
    Seq<LineValue>,
    GPIOErrorModel,
>
    decreases offsets.len(),
{
    if offsets.len() == 0 {
        Ok(Seq::empty())
    } else {
        match values_at(state, id, offsets.drop_last()) {
            Err(error) => Err(error),
            Ok(values) => match value_at(state, id, offsets.last()) {
                Err(error) => Err(error),
                Ok(value) => Ok(values.push(value)),
            },
        }
    }
}

/// What reading lines leaves: the values of the lines before the first that has none, and
/// what stood there before for the others.
pub open spec fn values_kept(
    state: ChipStateModel,
    id: u64,
    offsets: Seq<u32>,
    values: Seq<LineValue>,
) -> Seq<LineValue>
    decreases offsets.len(),
{
    match values_at(state, id, offsets) {
        Ok(read) => read + values.skip(read.len() as int),
        Err(_) => if offsets.len() == 0 {
            values
        } else {
            values_kept(state, id, offsets.drop_last(), values)
        },
    }
}

proof fn lemma_values_kept(
    state: ChipStateModel,
    id: u64,
    offsets: Seq<u32>,
    values: Seq<LineValue>,
    count: int,
)
    requires
        0 <= count <= offsets.len(),
        values_at(state, id, offsets.take(count)) is Err,
    ensures
        values_kept(state, id, offsets, values) == values_kept(
            state,
            id,
            offsets.take(count),
            values,
        ),
    decreases offsets.len(),
{
    lemma_values_fault(state, id, offsets, count);
    if count == offsets.len() {
        assert(offsets.take(count) =~= offsets);
    } else {
        assert(offsets.drop_last().take(count) =~= offsets.take(count));
        lemma_values_kept(state, id, offsets.drop_last(), values, count);
    }
}

proof fn lemma_values_fault(state: ChipStateModel, id: u64, offsets: Seq<u32>, count: int)
    requires
        0 <= count <= offsets.len(),
        values_at(state, id, offsets.take(count)) is Err,
    ensures
        values_at(state, id, offsets) == values_at(state, id, offsets.take(count)),
    decreases offsets.len(),
{
    if count == offsets.len() {
        assert(offsets.take(count) =~= offsets);
    } else {
        assert(offsets.drop_last().take(count) =~= offsets.take(count));
        lemma_values_fault(state, id, offsets.drop_last(), count);
    }
}

impl MockLineRequest {
    /// The name of the chip.
    pub fn get_chip_name(&self) -> (name: &str)
        ensures
            name@ == self.chip_name@,
    {
        self.chip_name.as_str()
    }

    /// How many lines the request holds.
    pub fn get_num_requested_lines(&self) -> (count: usize)
        ensures
            count == self.offsets@.len(),
    {
        self.offsets.len()
    }

    /// Copies as many offsets of the request as fit.
    pub fn get_requested_offsets(&self, out: &mut [u32]) -> (count: usize)
        ensures
            count == if old(out)@.len() < self.offsets@.len() {
                old(out)@.len()
            } else {
                self.offsets@.len()
            },
            final(out)@ == self.offsets@.take(count as int) + old(out)@.skip(count as int),
    {
        let count: usize = if out.len() < self.offsets.len() {
            out.len()
        } else {
            self.offsets.len()
        };
        let mut index: usize = 0;
        while index < count
            invariant
                index <= count,
                count <= self.offsets@.len(),
                count <= out@.len(),
                out@.len() == old(out)@.len(),
                out@ == self.offsets@.take(index as int) + old(out)@.skip(index as int),
            decreases count - index,
        {
            out[index] = self.offsets[index];
            index += 1;
            assert(out@ =~= self.offsets@.take(index as int) + old(out)@.skip(index as int));
        }
        count
    }

    /// The logical value of a line of the request.
    pub fn get_value(&self, state: &MockChipState, offset: u32) -> (result: Result<
        LineValue,
        GPIOError,
    >)
        ensures
            match (result, value_at(state@, self.request_id, offset)) {
                (Ok(value), Ok(expected)) => value == expected,
                (Err(error), Err(expected)) => error@ == expected,
                _ => false,
            },
    {
        let request = match find_line_request(state, self.request_id, offset) {
            Ok(request) => request,
            Err(error) => return Err(error),
        };
        let line = state.snapshot.lines.get(&offset).unwrap();
        Ok(to_logical_value(line.persisted_level, request.active_low))
    }

    /// Reads some lines of the request. On an error the values read before it stay.
    pub fn get_values_subset(
        &self,
        state: &MockChipState,
        offsets: &[u32],
        values: &mut [LineValue],
    ) -> (result: Result<(), GPIOError>)
        ensures
            if offsets@.len() != old(values)@.len() {
                &&& result matches Err(error) && error@ == (GPIOErrorModel::LengthMismatch {
                    expected: offsets@.len() as usize,
                    actual: old(values)@.len() as usize,
                })
                &&& final(values)@ == old(values)@
            } else {
                match (result, values_at(state@, self.request_id, offsets@)) {
                    (Ok(_), Ok(expected)) => final(values)@ == expected,
                    (Err(error), Err(expected)) => error@ == expected && final(values)@
                        == values_kept(state@, self.request_id, offsets@, old(values)@),
                    _ => false,
                }
            },
    {
        if offsets.len() != values.len() {
            return Err(
                GPIOError::LengthMismatch { expected: offsets.len(), actual: values.len() },
            );
        }
        let mut index: usize = 0;
        assert(offsets@.take(0) =~= Seq::<u32>::empty());
        while index < offsets.len()
            invariant
                index <= offsets@.len(),
                values@.len() == offsets@.len(),
                old(values)@.len() == offsets@.len(),
                values_at(state@, self.request_id, offsets@.take(index as int)) is Ok,
                values_at(state@, self.request_id, offsets@.take(index as int))->Ok_0
                    == values@.take(index as int),
                values@.skip(index as int) == old(values)@.skip(index as int),
            decreases offsets@.len() - index,
        {
            let ghost prefix = offsets@.take(index + 1);
            proof {
                assert(prefix.drop_last() =~= offsets@.take(index as int));
                if values_at(state@, self.request_id, prefix) is Err {
                    lemma_values_fault(state@, self.request_id, offsets@, index + 1);
                    lemma_values_kept(
                        state@,
                        self.request_id,
                        offsets@,
                        old(values)@,
                        index + 1,
                    );
                }
            }
            let ghost before = values@;
            assert(before.take(index as int) + before.skip(index as int) =~= before);
            match self.get_value(state, offsets[index]) {
                Ok(value) => {
                    values[index] = value;
                    assert(values@.take(index + 1) =~= before.take(index as int).push(value));
                    assert(values@.skip(index + 1) =~= before.skip(index as int).drop_first());
                    assert(old(values)@.skip(index + 1) =~= old(values)@.skip(
                        index as int,
                    ).drop_first());
                },
                Err(error) => {
                    proof {
                        let id = self.request_id;
                        let earlier = offsets@.take(index as int);
                        assert(prefix.last() == offsets@[index as int]);
                        assert(values_at(state@, id, prefix) is Err);
                        assert(values_kept(state@, id, prefix, old(values)@) == values_kept(
                            state@,
                            id,
                            earlier,
                            old(values)@,
                        ));
                        assert(values_kept(state@, id, earlier, old(values)@) =~= values@);
                    }
                    return Err(error);
                },
            }
            index += 1;
        }
        assert(offsets@.take(index as int) =~= offsets@);
        assert(values@.take(index as int) =~= values@);
        Ok(())
    }

    /// Reads all lines of the request in order.
    pub fn get_values(&self, state: &MockChipState, values: &mut [LineValue]) -> (result: Result<
        (),
        GPIOError,
    >)
        ensures
            if self.offsets@.len() != old(values)@.len() {
                &&& result matches Err(error) && error@ == (GPIOErrorModel::LengthMismatch {
                    expected: self.offsets@.len() as usize,
                    actual: old(values)@.len() as usize,
                })
                &&& final(values)@ == old(values)@
            } else {
                match (result, values_at(state@, self.request_id, self.offsets@)) {
                    (Ok(_), Ok(expected)) => final(values)@ == expected,
                    (Err(error), Err(expected)) => error@ == expected && final(values)@
                        == values_kept(state@, self.request_id, self.offsets@, old(values)@),
                    _ => false,
                }
            },
    {
        self.get_values_subset(state, self.offsets.as_slice(), values)
    }

    /// Drives a line of the request and gives the document to persist.
    pub fn set_value(&self, state: &mut MockChipState, offset: u32, value: LineValue) -> (result:
        Result<String, GPIOError>)
        ensures
            final(state)@ == write_outcome(
                old(state)@,
                self.request_id,
                seq![offset],
                seq![value],
            ).0,
            match (
                result,
                write_outcome(old(state)@, self.request_id, seq![offset], seq![value]).1,
            ) {
                (Ok(text), Ok(expected)) => text@ == expected,
                (Err(error), Err(expected)) => error@ == expected,
                _ => false,
            },
    {
        proof {
            reveal_with_fuel(levels_for, 2);
            reveal_with_fuel(with_all_levels, 2);
            assert(seq![offset].drop_last() =~= Seq::<u32>::empty());
        }
        let request = match validate_write_target(state, self.request_id, offset) {
            Ok(request) => request,
            Err(error) => return Err(error),
        };
        put_level(state, offset, to_physical_value(value, request.active_low));
        serialize_chip_xml(&state.snapshot)
    }

    fn ensure_offsets_in_request(&self, offsets: &[u32]) -> (result: Result<(), GPIOError>)
        ensures
            match (result, first_foreign(offsets@, self.offsets@)) {
                (Ok(_), None) => true,
                (Err(error), Some(offset)) => error@ == (GPIOErrorModel::UnconfiguredOffset {
                    offset,
                }),
                _ => false,
            },
    {
        let mut index: usize = 0;
        assert(offsets@.skip(0) =~= offsets@);
        while index < offsets.len()
            invariant
                index <= offsets@.len(),
                first_foreign(offsets@, self.offsets@) == first_foreign(
                    offsets@.skip(index as int),
                    self.offsets@,
                ),
            decreases offsets@.len() - index,
        {
            assert(offsets@.skip(index as int)[0] == offsets@[index as int]);
            assert(offsets@.skip(index as int).drop_first() =~= offsets@.skip(index + 1));
            if !contains_offset(&self.offsets, offsets[index]) {
                return Err(GPIOError::UnconfiguredOffset { offset: offsets[index] });
            }
            index += 1;
        }
        assert(offsets@.skip(index as int).len() == 0);
        Ok(())
    }

    /// Drives some lines of the request and gives the document to persist. Nothing is driven
    /// unless every line can be.
    pub fn set_values_subset(
        &self,
        state: &mut MockChipState,
        offsets: &[u32],
        values: &[LineValue],
    ) -> (result: Result<String, GPIOError>)
        ensures
            final(state)@ == subset_outcome(old(state)@, *self, offsets@, values@).0,
            match (result, subset_outcome(old(state)@, *self, offsets@, values@).1) {
                (Ok(text), Ok(expected)) => text@ == expected,
                (Err(error), Err(expected)) => error@ == expected,
                _ => false,
            },
    {
        if offsets.len() != values.len() {
            return Err(
                GPIOError::LengthMismatch { expected: offsets.len(), actual: values.len() },
            );
        }
        match self.ensure_offsets_in_request(offsets) {
            Ok(_) => {},
            Err(error) => return Err(error),
        }
        let open = match state.requests.get(&self.request_id) {
            Some(registration) => !registration.closed,
            None => false,
        };
        if !open {
            return Err(GPIOError::Closed);
        }
        let ghost id = self.request_id;
        let ghost before = state@;
        let mut levels: Vec<LineLevel> = Vec::new();
        let mut index: usize = 0;
        assert(offsets@.take(0) =~= Seq::<u32>::empty());
        while index < offsets.len()
            invariant
                index <= offsets@.len(),
                offsets@.len() == values@.len(),
                id == self.request_id,
                before == old(state)@,
                before.is_open(id),
                first_foreign(offsets@, self.offsets@) is None,
                state@ == before,
                levels_for(before, id, offsets@.take(index as int), values@) is Ok,
                levels_for(before, id, offsets@.take(index as int), values@)->Ok_0 == levels@,
                levels@.len() == index,
                forall|i: int|
                    0 <= i < index ==> before.chip.lines.contains_key(#[trigger] offsets@[i]),
            decreases offsets@.len() - index,
        {
            let ghost prefix = offsets@.take(index + 1);
            proof {
                assert(prefix.drop_last() =~= offsets@.take(index as int));
                if levels_for(before, id, prefix, values@) is Err {
                    lemma_levels_fault(before, id, offsets@, values@, index + 1);
                }
            }
            match validate_write_target(state, self.request_id, offsets[index]) {
                Ok(request) => {
                    levels.push(to_physical_value(values[index], request.active_low));
                },
                Err(error) => return Err(error),
            }
            index += 1;
        }
        assert(offsets@.take(index as int) =~= offsets@);
        let mut applied: usize = 0;
        while applied < offsets.len()
            invariant
                applied <= offsets@.len(),
                levels@.len() == offsets@.len(),
                state@ == (ChipStateModel {
                    chip: with_all_levels(before.chip, offsets@.take(applied as int), levels@),
                    ..before
                }),
                state@.chip.lines.dom() == before.chip.lines.dom(),
                forall|i: int|
                    0 <= i < offsets@.len() ==> before.chip.lines.contains_key(
                        #[trigger] offsets@[i],
                    ),
            decreases offsets@.len() - applied,
        {
            let ghost prefix = offsets@.take(applied + 1);
            proof {
                assert(prefix.drop_last() =~= offsets@.take(applied as int));
                assert(before.chip.lines.contains_key(offsets@[applied as int]));
                assert(state@.chip.lines.contains_key(offsets@[applied as int]));
            }
            put_level(state, offsets[applied], levels[applied]);
            applied += 1;
            assert(state@.chip.lines.dom() =~= before.chip.lines.dom());
        }
        assert(offsets@.take(applied as int) =~= offsets@);
        serialize_chip_xml(&state.snapshot)
    }

    /// Drives all lines of the request in order and gives the document to persist.
    pub fn set_values(&self, state: &mut MockChipState, values: &[LineValue]) -> (result: Result<
        String,
        GPIOError,
    >)
        ensures
            final(state)@ == subset_outcome(old(state)@, *self, self.offsets@, values@).0,
            match (result, subset_outcome(old(state)@, *self, self.offsets@, values@).1) {
                (Ok(text), Ok(expected)) => text@ == expected,
                (Err(error), Err(expected)) => error@ == expected,
                _ => false,
            },
    {
        self.set_values_subset(state, self.offsets.as_slice(), values)
    }
}

// ---------------------------------------------------------------------------
// Edge events
// ---------------------------------------------------------------------------

/// The chip once some events were taken off the queue of a request.
pub open spec fn drained(state: ChipStateModel, id: u64, count: int) -> ChipStateModel {
    let registration = state.requests[id];
    ChipStateModel {
        requests: state.requests.insert(
            id,
            RegistrationModel { pending: registration.pending.skip(count), ..registration },
        ),
        ..state
    }
}

/// How many events a read takes: as many as there are, as were asked for and as fit.
pub open spec fn read_count(pending: nat, max_events: usize, capacity: usize) -> nat {
    let limit = if max_events < capacity {
        max_events as nat
    } else {
        capacity as nat
    };
    if pending < limit {
        pending
    } else {
        limit
    }
}

impl MockLineRequest {
    /// Moves queued events of the request into a buffer, oldest first.
    pub fn read_edge_events(
        &self,
        state: &mut MockChipState,
        buffer: &mut MockEdgeEventBuffer,
        max_events: usize,
    ) -> (result: Result<usize, GPIOError>)
        ensures
            final(buffer).capacity() == old(buffer).capacity(),
            if !old(state)@.is_open(self.request_id) {
                &&& result matches Err(error) && error@ == GPIOErrorModel::Closed
                &&& final(state)@ == old(state)@
                &&& final(buffer).records() == old(buffer).records()
            } else if old(state)@.requests[self.request_id].pending.len() == 0 {
                &&& result matches Err(error) && error@ == GPIOErrorModel::Other(
                    "no edge events are queued for this mock line request"@,
                )
                &&& final(state)@ == old(state)@
                &&& final(buffer).records() == old(buffer).records()
            } else {
                let pending = old(state)@.requests[self.request_id].pending;
                let count = read_count(pending.len(), max_events, old(buffer).capacity());
                &&& result matches Ok(taken) && taken == count
                &&& final(buffer).records() == pending.take(count as int)
                &&& final(state)@ == drained(old(state)@, self.request_id, count as int)
            },
    {
        let waiting = match state.requests.get(&self.request_id) {
            Some(registration) => {
                if registration.closed {
                    return Err(GPIOError::Closed);
                }
                registration.pending_edge_events.len()
            },
            None => return Err(GPIOError::Closed),
        };
        if waiting == 0 {
            return Err(
                GPIOError::Other("no edge events are queued for this mock line request".to_owned()),
            );
        }
        let ghost id = self.request_id;
        let ghost before = state@;
        let ghost pending = before.requests[id].pending;
        buffer.clear();
        let capacity: usize = buffer.get_capacity();
        let limit: usize = if max_events < capacity {
            max_events
        } else {
            capacity
        };
        let mut registration = state.requests.remove(&self.request_id).unwrap();
        let ghost taken_out = registration@;
        let mut taken: usize = 0;
        assert(pending.take(0) =~= Seq::<EdgeModel>::empty());
        assert(pending.skip(0) =~= pending);
        while taken < limit && registration.pending_edge_events.len() > 0
            invariant
                taken <= limit,
                taken <= pending.len(),
                limit <= buffer.capacity(),
                buffer.capacity() == old(buffer).capacity(),
                buffer.records() == pending.take(taken as int),
                registration@ == (RegistrationModel {
                    pending: pending.skip(taken as int),
                    ..taken_out
                }),
            decreases limit - taken,
        {
            let ghost queue = registration.pending_edge_events@;
            let record = registration.pending_edge_events.pop_front().unwrap();
            proof {
                assert(record_models(queue) == pending.skip(taken as int));
                assert(record_models(queue).len() == queue.len());
                assert(record_models(queue)[0] == record@);
                assert(registration@.pending =~= record_models(queue).drop_first());
                assert(pending.skip(taken as int).drop_first() =~= pending.skip(taken + 1));
                assert(pending.take(taken + 1) =~= pending.take(taken as int).push(record@)) by {
                    assert(pending.skip(taken as int)[0] == pending[taken as int]);
                }
            }
            match buffer.push_record(&record) {
                Ok(_) => {},
                Err(error) => {
                    assert(false);
                    return Err(error);
                },
            }
            taken += 1;
        }
        assert(registration@.pending.len() == registration.pending_edge_events@.len());
        state.requests.insert(self.request_id, registration);
        assert(state@.requests =~= drained(before, id, taken as int).requests);
        Ok(taken)
    }

    /// Whether events are queued for the request.
    pub fn has_pending_events(&self, state: &MockChipState) -> (pending: bool)
        ensures
            pending == (state@.requests.contains_key(self.request_id)
                && state@.requests[self.request_id].pending.len() > 0),
    {
        match state.requests.get(&self.request_id) {
            Some(registration) => registration.pending_edge_events.len() > 0,
            None => false,
        }
    }
}

} // verus!
