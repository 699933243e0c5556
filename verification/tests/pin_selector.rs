use gpiojsonsvc::protocol::request::PinSelector;
use gpiojsonsvc::protocol::request::PinSelectorIter;

fn combined(pins: &[&str]) -> PinSelector {
    PinSelector::combined(pins.iter().map(|pin| (*pin).to_owned()).collect()).expect("pins")
}

fn walked<'a>(mut iter: PinSelectorIter<'a>) -> Vec<&'a str> {
    let mut pins = Vec::new();
    while let Some(pin) = iter.next() {
        pins.push(pin);
    }
    pins
}


#[test]
fn single_pin_yields_one_element() {
    let selector = PinSelector::Single("gpiochip0:2".to_owned());
    let pins: Vec<_> = walked(selector.iter());
    assert_eq!(pins, vec!["gpiochip0:2"]);
    assert_eq!(selector.len(), 1);
}

#[test]
fn combined_pins_yield_in_order() {
    let selector = combined(&["gpiochip0:3", "gpiochip1:4", "gpiochip1:5"]);
    let pins: Vec<_> = walked(selector.iter());
    assert_eq!(pins, vec!["gpiochip0:3", "gpiochip1:4", "gpiochip1:5"]);
    assert_eq!(selector.len(), 3);
}

#[test]
fn iter_len_is_total_pin_count() {
    let selector = combined(&["a", "b"]);
    let mut iter = selector.iter();
    assert_eq!(iter.len(), 2);
    assert_eq!(iter.next(), Some("a"));
    assert_eq!(iter.len(), 2);
    assert_eq!(iter.next(), Some("b"));
    assert_eq!(iter.len(), 2);
    assert_eq!(iter.next(), None);
}

#[test]
fn request_size_hint_reports_exact_length() {
    let selector = PinSelector::Single("only".to_owned());
    let iter = selector.iter();
    assert_eq!(iter.size_hint(), (1, Some(1)));

    let selector = combined(&["x", "y"]);
    let mut iter = selector.iter();
    assert_eq!(iter.size_hint(), (2, Some(2)));
    iter.next();
    assert_eq!(iter.size_hint(), (2, Some(2)));
}

#[test]
fn request_reset_restarts_iteration() {
    let selector = combined(&["first", "second"]);
    let mut iter = selector.iter();
    assert_eq!(iter.next(), Some("first"));
    assert_eq!(iter.next(), Some("second"));
    assert_eq!(iter.next(), None);

    iter.reset();
    assert_eq!(walked(iter), vec!["first", "second"]);
}

#[test]
fn request_nth_skips_and_returns_element() {
    let selector =
        combined(&["a", "b", "c"]);
    let mut iter = selector.iter();
    assert_eq!(iter.nth(1), Some("b"));
    assert_eq!(iter.next(), Some("c"));
    assert_eq!(iter.next(), None);
}

#[test]
fn new_builds_same_sequence_as_pin_selector_iter() {
    let selector = combined(&["p0", "p1"]);
    let via_method: Vec<_> = walked(selector.iter());
    let via_new: Vec<_> = walked(PinSelectorIter::new(&selector));
    assert_eq!(via_method, via_new);
}
