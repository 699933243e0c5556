use gpiojsonsvc::gpio::libgpiod::LineValue;
use gpiojsonsvc::session::batch::CollectRule;
use gpiojsonsvc::session::batch::CombinedOffsets;
use gpiojsonsvc::session::batch::CombinedOffsetsError;



#[test]
fn preserves_insertion_order_per_chip() {
    let mut batch = CombinedOffsets::<CollectRule>::new(2);
    batch
        .add(
            0,
            1,
            CollectRule {
                target_slot: 0,
                bit_index: 0,
            },
        )
        .expect("add");
    batch
        .add(
            0,
            2,
            CollectRule {
                target_slot: 0,
                bit_index: 1,
            },
        )
        .expect("add");
    batch
        .add(
            1,
            4,
            CollectRule {
                target_slot: 1,
                bit_index: 0,
            },
        )
        .expect("add");

    assert_eq!(batch.offsets(0).expect("offsets"), &[1, 2]);
    assert_eq!(batch.offsets(1).expect("offsets"), &[4]);
}

#[test]
fn iter_used_chips_skips_empty_entries() {
    let mut batch = CombinedOffsets::<u8>::new(3);
    batch.add(1, 7, 1).expect("add");

    let used: Vec<_> = batch.iter();
    assert_eq!(used.len(), 1);
    assert_eq!(used[0].0, 1);
    assert_eq!(used[0].1, &[7]);
    assert_eq!(used[0].2, &[1]);
}

#[test]
fn set_batch_rejects_conflicting_duplicate_offsets() {
    let mut batch = CombinedOffsets::<LineValue>::new(1);
    batch.add_set(0, 2, LineValue::Active).expect("first write");
    assert_eq!(
        batch.add_set(0, 2, LineValue::Inactive),
        Err(CombinedOffsetsError::DuplicateSetOffset {
            chip_index: 0,
            offset: 2,
        })
    );
}

#[test]
fn set_batch_allows_identical_duplicate_offsets() {
    let mut batch = CombinedOffsets::<LineValue>::new(1);
    batch.add_set(0, 2, LineValue::Active).expect("first write");
    batch
        .add_set(0, 2, LineValue::Active)
        .expect("duplicate write");
    assert_eq!(batch.offsets(0).expect("offsets"), &[2]);
}

#[test]
fn invalid_chip_index_is_reported() {
    let batch = CombinedOffsets::<u8>::new(1);
    assert_eq!(
        batch.offsets(3),
        Err(CombinedOffsetsError::InvalidChipIndex { chip_index: 3 })
    );
}
