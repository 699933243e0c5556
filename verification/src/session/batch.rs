//! Reads and writes of a session, gathered by chip.

use vstd::prelude::*;
use vstd::string::StringExecFns;

use crate::gpio::libgpiod::LineValue;
use crate::number::decimal;
use crate::number::number_text;

verus! {

/// Why a line cannot be added to a batch.
#[derive(Debug, Clone, Copy, PartialEq, Eq, Structural)]
pub enum CombinedOffsetsError {
    InvalidChipIndex { chip_index: u32 },
    DuplicateSetOffset { chip_index: u32, offset: u32 },
}

impl CombinedOffsetsError {
    /// The error in words.
    pub open spec fn text(self) -> Seq<char> {
        match self {
            CombinedOffsetsError::InvalidChipIndex { chip_index } => "chip index "@ + decimal(
                chip_index as nat,
            ) + " is out of range"@,
            CombinedOffsetsError::DuplicateSetOffset { chip_index, offset } =>
                "conflicting set values for chip "@ + decimal(chip_index as nat) + " offset "@
                    + decimal(offset as nat),
        }
    }

    /// The error in words.
    pub fn message(self) -> (message: String)
        ensures
            message@ == self.text(),
    {
        match self {
            CombinedOffsetsError::InvalidChipIndex { chip_index } =>
                "chip index ".to_owned().concat(number_text(chip_index as u64).as_str()).concat(
                    " is out of range",
                ),
            CombinedOffsetsError::DuplicateSetOffset { chip_index, offset } =>
                "conflicting set values for chip ".to_owned().concat(
                    number_text(chip_index as u64).as_str(),
                ).concat(" offset ").concat(number_text(offset as u64).as_str()),
        }
    }
}

/// Where a value that was read goes: a bit of a target.
#[derive(Debug, Clone, Copy, PartialEq, Eq, Structural)]
pub struct CollectRule {
    pub target_slot: usize,
    pub bit_index: usize,
}

/// Lines of one chip, in order, with something attached to each.
pub ghost struct ChipBatch<T> {
    pub offsets: Seq<u32>,
    pub attachments: Seq<T>,
}

#[derive(Debug, PartialEq, Eq)]
struct PerChipOffsets<T> {
    offsets: Vec<u32>,
    attachments: Vec<T>,
}

/// Lines of the chips of a session, with something attached to each.
#[derive(Debug, PartialEq, Eq)]
pub struct CombinedOffsets<T> {
    chips: Vec<PerChipOffsets<T>>,
}

/// The chips of a batch with one more line on one of them.
pub open spec fn with_line<T>(
    chips: Seq<ChipBatch<T>>,
    chip_index: u32,
    offset: u32,
    attachment: T,
) -> Seq<ChipBatch<T>> {
    let chip = chips[chip_index as int];
    chips.update(
        chip_index as int,
        ChipBatch {
            offsets: chip.offsets.push(offset),
            attachments: chip.attachments.push(attachment),
        },
    )
}

/// Adds a line to a batch.
pub open spec fn line_added<T>(
    chips: Seq<ChipBatch<T>>,
    chip_index: u32,
    offset: u32,
    attachment: T,
) -> Result<Seq<ChipBatch<T>>, CombinedOffsetsError> {
    if chip_index < chips.len() {
        Ok(with_line(chips, chip_index, offset, attachment))
    } else {
        Err(CombinedOffsetsError::InvalidChipIndex { chip_index })
    }
}

/// Adds a line to write. A line that is there already must have the same value.
pub open spec fn write_added(
    chips: Seq<ChipBatch<LineValue>>,
    chip_index: u32,
    offset: u32,
    value: LineValue,
) -> Result<Seq<ChipBatch<LineValue>>, CombinedOffsetsError> {
    if chip_index >= chips.len() {
        Err(CombinedOffsetsError::InvalidChipIndex { chip_index })
    } else {
        let chip = chips[chip_index as int];
        match chip.offsets.index_of_first(offset) {
            Some(index) => if chip.attachments[index] == value {
                Ok(chips)
            } else {
                Err(CombinedOffsetsError::DuplicateSetOffset { chip_index, offset })
            },
            None => Ok(with_line(chips, chip_index, offset, value)),
        }
    }
}

/// The chips of a batch that have lines, by number, in order.
pub open spec fn used_chips<T>(chips: Seq<ChipBatch<T>>) -> Seq<int>
    decreases chips.len(),
{
    if chips.len() == 0 {
        Seq::empty()
    } else if chips.last().offsets.len() > 0 {
        used_chips(chips.drop_last()).push(chips.len() - 1)
    } else {
        used_chips(chips.drop_last())
    }
}

/// The used chips are exactly those with lines, in ascending order.
pub proof fn lemma_used_chips<T>(chips: Seq<ChipBatch<T>>)
    ensures
        forall|i: int|
            #![trigger used_chips(chips)[i]]
            0 <= i < used_chips(chips).len() ==> 0 <= used_chips(chips)[i] < chips.len()
                && chips[used_chips(chips)[i]].offsets.len() > 0,
        forall|i: int, j: int|
            0 <= i < j < used_chips(chips).len() ==> #[trigger] used_chips(chips)[i]
                < #[trigger] used_chips(chips)[j],
        forall|k: int|
            0 <= k < chips.len() && (#[trigger] chips[k]).offsets.len() > 0 ==> used_chips(
                chips,
            ).contains(k),
    decreases chips.len(),
{
    if chips.len() > 0 {
        let front = chips.drop_last();
        lemma_used_chips(front);
        let used = used_chips(chips);
        let earlier = used_chips(front);
        assert forall|i: int| #![trigger used[i]] 0 <= i < used.len() implies 0 <= used[i]
            < chips.len() && chips[used[i]].offsets.len() > 0 by {
            if i < earlier.len() {
                assert(used[i] == earlier[i]);
                assert(front[earlier[i]] == chips[earlier[i]]);
            }
        }
        assert forall|i: int, j: int| 0 <= i < j < used.len() implies #[trigger] used[i]
            < #[trigger] used[j] by {
            assert(used[i] == earlier[i]);
            if j < earlier.len() {
                assert(used[j] == earlier[j]);
            }
        }
        assert forall|k: int|
            0 <= k < chips.len() && (#[trigger] chips[k]).offsets.len() > 0 implies used.contains(
            k,
        ) by {
            if k < front.len() {
                assert(front[k] == chips[k]);
                assert(earlier.contains(k));
                let i = choose|i: int| 0 <= i < earlier.len() && earlier[i] == k;
                assert(used[i] == k);
            } else {
                assert(used[earlier.len() as int] == k);
            }
        }
    }
}

/// Whether an entry holds the number, the lines and the attachments of a chip.
pub open spec fn describes<T>(
    entry: (u32, &[u32], &[T]),
    chips: Seq<ChipBatch<T>>,
    chip: int,
) -> bool {
    &&& entry.0 == chip
    &&& entry.1@ == chips[chip].offsets
    &&& entry.2@ == chips[chip].attachments
}

impl<T> CombinedOffsets<T> {
    /// The lines by chip.
    pub closed spec fn view(&self) -> Seq<ChipBatch<T>> {
        Seq::new(
            self.chips@.len(),
            |i: int|
                ChipBatch {
                    offsets: self.chips@[i].offsets@,
                    attachments: self.chips@[i].attachments@,
                },
        )
    }

    /// Every line has something attached.
    pub open spec fn wf(&self) -> bool {
        forall|i: int|
            0 <= i < self@.len() ==> (#[trigger] self@[i]).offsets.len()
                == self@[i].attachments.len()
    }

    /// A batch without lines for this many chips.
    pub fn new(chip_count: usize) -> (batch: Self)
        ensures
            batch.wf(),
            batch@ == Seq::new(
                chip_count as nat,
                |i: int|
                    ChipBatch::<T> { offsets: Seq::empty(), attachments: Seq::empty() },
            ),
    {
        let mut chips: Vec<PerChipOffsets<T>> = Vec::new();
        let mut index: usize = 0;
        while index < chip_count
            invariant
                index <= chip_count,
                chips@.len() == index,
                forall|i: int|
                    0 <= i < index ==> (#[trigger] chips@[i]).offsets@ == Seq::<u32>::empty()
                        && chips@[i].attachments@ == Seq::<T>::empty(),
            decreases chip_count - index,
        {
            chips.push(PerChipOffsets { offsets: Vec::new(), attachments: Vec::new() });
            index += 1;
        }
        let batch = CombinedOffsets { chips };
        assert(batch@ =~= Seq::new(
            chip_count as nat,
            |i: int| ChipBatch::<T> { offsets: Seq::empty(), attachments: Seq::empty() },
        ));
        batch
    }

    /// How many chips the batch is for.
    pub fn chip_count(&self) -> (count: usize)
        ensures
            count == self@.len(),
    {
        self.chips.len()
    }

    /// Adds a line with something attached.
    pub fn add(&mut self, chip_index: u32, offset: u32, attachment: T) -> (result: Result<
        (),
        CombinedOffsetsError,
    >)
        ensures
            match (result, line_added(old(self)@, chip_index, offset, attachment)) {
                (Ok(_), Ok(expected)) => final(self)@ == expected,
                (Err(error), Err(expected)) => error == expected && final(self)@ == old(self)@,
                _ => false,
            },
            old(self).wf() ==> final(self).wf(),
    {
        if chip_index as usize >= self.chips.len() {
            return Err(CombinedOffsetsError::InvalidChipIndex { chip_index });
        }
        let slot: usize = chip_index as usize;
        self.chips[slot].offsets.push(offset);
        self.chips[slot].attachments.push(attachment);
        proof {
            let after = with_line(old(self)@, chip_index, offset, attachment);
            assert(self@ =~= after);
            assert forall|i: int| 0 <= i < self@.len() && old(self).wf() implies (
            #[trigger] self@[i]).offsets.len() == self@[i].attachments.len() by {
                assert(old(self)@[i].offsets.len() == old(self)@[i].attachments.len());
            }
        }
        Ok(())
    }

    /// The lines of a chip.
    pub fn offsets(&self, chip_index: u32) -> (result: Result<&[u32], CombinedOffsetsError>)
        ensures
            match result {
                Ok(offsets) => chip_index < self@.len() && offsets@
                    == self@[chip_index as int].offsets,
                Err(error) => chip_index >= self@.len() && error
                    == (CombinedOffsetsError::InvalidChipIndex { chip_index }),
            },
    {
        if chip_index as usize >= self.chips.len() {
            return Err(CombinedOffsetsError::InvalidChipIndex { chip_index });
        }
        Ok(self.chips[chip_index as usize].offsets.as_slice())
    }

    /// What is attached to the lines of a chip.
    pub fn attachments(&self, chip_index: u32) -> (result: Result<&[T], CombinedOffsetsError>)
        ensures
            match result {
                Ok(attachments) => chip_index < self@.len() && attachments@
                    == self@[chip_index as int].attachments,
                Err(error) => chip_index >= self@.len() && error
                    == (CombinedOffsetsError::InvalidChipIndex { chip_index }),
            },
    {
        if chip_index as usize >= self.chips.len() {
            return Err(CombinedOffsetsError::InvalidChipIndex { chip_index });
        }
        Ok(self.chips[chip_index as usize].attachments.as_slice())
    }

    /// The chips that have lines, in order, with their lines and what is attached to them.
    pub fn iter(&self) -> (used: Vec<(u32, &[u32], &[T])>)
        requires
            self@.len() <= u32::MAX,
        ensures
            used@.len() == used_chips(self@).len(),
            forall|i: int|
                0 <= i < used@.len() ==> describes(
                    #[trigger] used@[i],
                    self@,
                    used_chips(self@)[i],
                ),
    {
        let mut used: Vec<(u32, &[u32], &[T])> = Vec::new();
        let mut index: usize = 0;
        assert(self@.take(0) =~= Seq::<ChipBatch<T>>::empty());
        while index < self.chips.len()
            invariant
                index <= self.chips@.len(),
                self@.len() <= u32::MAX,
                self@.len() == self.chips@.len(),
                used@.len() == used_chips(self@.take(index as int)).len(),
                forall|i: int|
                    0 <= i < used@.len() ==> describes(
                        #[trigger] used@[i],
                        self@,
                        used_chips(self@.take(index as int))[i],
                    ),
            decreases self.chips@.len() - index,
        {
            let ghost prefix = self@.take(index + 1);
            assert(prefix.drop_last() =~= self@.take(index as int));
            assert(prefix.last() == self@[index as int]);
            let ghost before = used@;
            let ghost seen = used_chips(self@.take(index as int));
            if self.chips[index].offsets.len() > 0 {
                used.push(
                    (
                        index as u32,
                        self.chips[index].offsets.as_slice(),
                        self.chips[index].attachments.as_slice(),
                    ),
                );
            }
            index += 1;
            proof {
                let now = used_chips(prefix);
                assert(self@.take(index as int) == prefix);
                assert forall|i: int| 0 <= i < used@.len() implies describes(
                    #[trigger] used@[i],
                    self@,
                    now[i],
                ) by {
                    if i < before.len() {
                        assert(used@[i] == before[i]);
                        assert(now[i] == seen[i]);
                        assert(describes(before[i], self@, seen[i]));
                    }
                }
            }
        }
        assert(self@.take(index as int) =~= self@);
        used
    }
}

fn position_of(offsets: &Vec<u32>, offset: u32) -> (found: Option<usize>)
    ensures
        match found {
            Some(index) => index < offsets@.len() && offsets@.index_of_first(offset) == Some(
                index as int,
            ),
            None => offsets@.index_of_first(offset) is None,
        },
{
    proof {
        offsets@.index_of_first_ensures(offset);
    }
    let mut index: usize = 0;
    while index < offsets.len()
        invariant
            index <= offsets@.len(),
            forall|i: int| 0 <= i < index ==> offsets@[i] != offset,
            offsets@.index_of_first(offset) matches Some(first) ==> {
                &&& 0 <= first < offsets@.len()
                &&& offsets@[first] == offset
                &&& forall|j: int| 0 <= j < first ==> offsets@[j] != offset
            },
            offsets@.contains(offset) ==> offsets@.index_of_first(offset) is Some,
        decreases offsets@.len() - index,
    {
        if offsets[index] == offset {
            assert(offsets@.contains(offset));
            return Some(index);
        }
        index += 1;
    }
    None
}

impl CombinedOffsets<LineValue> {
    /// Adds a line to write. Writing the same value twice is one write; writing two values is
    /// refused.
    pub fn add_set(&mut self, chip_index: u32, offset: u32, value: LineValue) -> (result: Result<
        (),
        CombinedOffsetsError,
    >)
        requires
            old(self).wf(),
        ensures
            match (result, write_added(old(self)@, chip_index, offset, value)) {
                (Ok(_), Ok(expected)) => final(self)@ == expected,
                (Err(error), Err(expected)) => error == expected && final(self)@ == old(self)@,
                _ => false,
            },
            final(self).wf(),
    {
        if chip_index as usize >= self.chips.len() {
            return Err(CombinedOffsetsError::InvalidChipIndex { chip_index });
        }
        let slot: usize = chip_index as usize;
        let ghost chip = self@[slot as int];
        match position_of(&self.chips[slot].offsets, offset) {
            Some(existing) => {
                assert(chip.offsets.len() == chip.attachments.len());
                if self.chips[slot].attachments[existing] != value {
                    return Err(CombinedOffsetsError::DuplicateSetOffset { chip_index, offset });
                }
                Ok(())
            },
            None => self.add(chip_index, offset, value),
        }
    }
}

/// A batch of writes names every line at most once.
pub open spec fn writes_once(chips: Seq<ChipBatch<LineValue>>) -> bool {
    forall|i: int|
        0 <= i < chips.len() ==> (#[trigger] chips[i]).offsets.no_duplicates()
            && chips[i].offsets.len() == chips[i].attachments.len()
}

/// Adding a write keeps a batch that names every line once such a batch, keeps the writes that
/// were there, and adds the new one.
pub proof fn write_added_keeps_writes(
    chips: Seq<ChipBatch<LineValue>>,
    chip_index: u32,
    offset: u32,
    value: LineValue,
)
    requires
        writes_once(chips),
        write_added(chips, chip_index, offset, value) is Ok,
    ensures
        ({
            let after = write_added(chips, chip_index, offset, value)->Ok_0;
            &&& writes_once(after)
            &&& after.len() == chips.len()
            &&& writes(after, chip_index as int, offset, value)
            &&& forall|c: int, o: u32, v: LineValue| writes(chips, c, o, v) ==> #[trigger] writes(
                after,
                c,
                o,
                v,
            )
            &&& forall|c: int, o: u32, v: LineValue| #[trigger]
                writes(after, c, o, v) ==> writes(chips, c, o, v) || (c == chip_index && o
                    == offset && v == value)
        }),
{
    let after = write_added(chips, chip_index, offset, value)->Ok_0;
    let at = chip_index as int;
    let chip = chips[at];
    chip.offsets.index_of_first_ensures(offset);
    if chip.offsets.contains(offset) {
        let k = chip.offsets.index_of_first(offset)->Some_0;
        assert(chip.offsets[k] == offset);
        assert(writes(after, at, offset, value));
    } else {
        let now = after[at];
        assert(now.offsets[chip.offsets.len() as int] == offset);
        assert(now.attachments[chip.offsets.len() as int] == value);
        assert(writes(after, at, offset, value));
        assert forall|i: int| 0 <= i < after.len() implies (
        #[trigger] after[i]).offsets.no_duplicates() && after[i].offsets.len()
            == after[i].attachments.len() by {
            assert(chips[i].offsets.no_duplicates());
        }
        assert forall|c: int, o: u32, v: LineValue| writes(chips, c, o, v) implies
            #[trigger] writes(after, c, o, v) by {
            let k = choose|k: int|
                0 <= k < chips[c].offsets.len() && chips[c].offsets[k] == o
                    && chips[c].attachments[k] == v;
            assert(after[c].offsets[k] == o && after[c].attachments[k] == v);
        }
        assert forall|c: int, o: u32, v: LineValue| #[trigger] writes(after, c, o, v) implies
            writes(chips, c, o, v) || (c == chip_index && o == offset && v == value) by {
            let k = choose|k: int|
                0 <= k < after[c].offsets.len() && after[c].offsets[k] == o
                    && after[c].attachments[k] == v;
            if k < chips[c].offsets.len() {
                assert(chips[c].offsets[k] == o && chips[c].attachments[k] == v);
            }
        }
    }
}

/// Whether a batch writes a value to a line of a chip.
pub open spec fn writes(
    chips: Seq<ChipBatch<LineValue>>,
    chip: int,
    offset: u32,
    value: LineValue,
) -> bool {
    &&& 0 <= chip < chips.len()
    &&& exists|k: int|
        0 <= k < chips[chip].offsets.len() && chips[chip].offsets[k] == offset
            && chips[chip].attachments[k] == value
}

} // verus!
