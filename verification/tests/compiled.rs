use gpiojsonsvc::session::compiled::ChipIndices;
use gpiojsonsvc::session::compiled::CombinedResolvedPinsIter;
use gpiojsonsvc::session::compiled::ResolvedPins;
use gpiojsonsvc::session::pins::PinList;
use gpiojsonsvc::session::pins::ResolvedPin;



#[test]
fn chip_indices_group_by_device_and_use_configured_line() {
    let mut chips = ChipIndices::<()>::new();
    let (first, _) = chips.resolve("/tmp/chip-a.xml", 7);
    let (second, _) = chips.resolve("/tmp/chip-a.xml", 8);
    let (third, _) = chips.resolve("/tmp/chip-b.xml", 0);

    assert_eq!(
        first,
        ResolvedPin {
            chip_index: 0,
            offset: 7,
        }
    );
    assert_eq!(
        second,
        ResolvedPin {
            chip_index: 0,
            offset: 8,
        }
    );
    assert_eq!(
        third,
        ResolvedPin {
            chip_index: 1,
            offset: 0,
        }
    );

    let collected = chips.collect();
    assert_eq!(collected.len(), 2);
    assert_eq!(collected[0].0, "/tmp/chip-a.xml");
    assert_eq!(collected[1].0, "/tmp/chip-b.xml");
}

#[test]
fn resolved_pin_iter_matches_selector_order() {
    let pins = ResolvedPins::Combined(PinList::of(&[
        ResolvedPin {
            chip_index: 0,
            offset: 2,
        },
        ResolvedPin {
            chip_index: 0,
            offset: 3,
        },
    ]));
    let mut it = pins.iter();
    assert_eq!(
        it.next(),
        Some(ResolvedPin {
            chip_index: 0,
            offset: 2
        })
    );
    assert_eq!(
        it.next(),
        Some(ResolvedPin {
            chip_index: 0,
            offset: 3
        })
    );
    assert_eq!(it.next(), None);
}

#[test]
fn combined_resolved_pins_iter_matches_selector_order() {
    let pins = ResolvedPins::Combined(PinList::of(&[
        ResolvedPin {
            chip_index: 0,
            offset: 2,
        },
        ResolvedPin {
            chip_index: 0,
            offset: 3,
        },
    ]));
    let pins_combined = match pins {
        ResolvedPins::Combined(combined) => combined,
        ResolvedPins::Single(_) => panic!("expected combined pins"),
    };
    let mut it = CombinedResolvedPinsIter::new(pins_combined.as_slice());
    assert_eq!(
        it.next(),
        Some((
            ResolvedPin {
                chip_index: 0,
                offset: 2
            },
            1
        ))
    );
    assert_eq!(
        it.next(),
        Some((
            ResolvedPin {
                chip_index: 0,
                offset: 3
            },
            0
        ))
    );
    assert_eq!(it.next(), None);
}

#[test]
fn a_device_keeps_its_number_and_its_slot() {
    let mut chips = ChipIndices::<u8>::new();
    {
        let (index, slot) = chips.get_chip_index("b");
        assert_eq!((index, *slot), (0, None));
        *slot = Some(1);
    }
    {
        let (index, slot) = chips.get_chip_index("a");
        assert_eq!((index, *slot), (1, None));
        *slot = Some(2);
    }
    {
        let (pin, slot) = chips.resolve("b", 9);
        assert_eq!((pin.chip_index, pin.offset, *slot), (0, 9, Some(1)));
        *slot = Some(3);
    }
    assert_eq!(chips.get_chip_index("a").0, 1);
    assert_eq!(chips.get_chip_index("c").0, 2);
    assert_eq!(
        chips.collect(),
        vec![
            ("b".to_owned(), Some(3)),
            ("a".to_owned(), Some(2)),
            ("c".to_owned(), None),
        ]
    );
}
