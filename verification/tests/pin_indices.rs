use gpiojsonsvc::cluster::indices::IndexList;
use gpiojsonsvc::cluster::indices::ResolvedPinIndices;
use gpiojsonsvc::cluster::indices::ResolvedPinIndicesIter;

fn walked(mut iter: ResolvedPinIndicesIter<'_>) -> Vec<usize> {
    let mut indices = Vec::new();
    while let Some(index) = iter.next() {
        indices.push(index);
    }
    indices
}


#[test]
fn single_index_yields_one_element() {
    let indices = ResolvedPinIndices::Single(2);
    let values: Vec<_> = walked(indices.iter());
    assert_eq!(values, vec![2]);
    assert_eq!(indices.len(), 1);
}

#[test]
fn combined_indices_yield_in_order() {
    let indices = ResolvedPinIndices::Combined(IndexList::of(&[2, 3, 5]));
    let values: Vec<_> = walked(indices.iter());
    assert_eq!(values, vec![2, 3, 5]);
    assert_eq!(indices.len(), 3);
}

#[test]
fn iter_len_is_total_index_count() {
    let indices = ResolvedPinIndices::Combined(IndexList::of(&[10, 20]));
    let mut iter = indices.iter();
    assert_eq!(iter.len(), 2);
    assert_eq!(iter.next(), Some(10));
    assert_eq!(iter.len(), 2);
    assert_eq!(iter.next(), Some(20));
    assert_eq!(iter.len(), 2);
    assert_eq!(iter.next(), None);
}

#[test]
fn cache_size_hint_reports_exact_length() {
    let indices = ResolvedPinIndices::Single(0);
    let iter = indices.iter();
    assert_eq!(iter.size_hint(), (1, Some(1)));

    let indices = ResolvedPinIndices::Combined(IndexList::of(&[1, 2]));
    let mut iter = indices.iter();
    assert_eq!(iter.size_hint(), (2, Some(2)));
    iter.next();
    assert_eq!(iter.size_hint(), (2, Some(2)));
}

#[test]
fn cache_reset_restarts_iteration() {
    let indices = ResolvedPinIndices::Combined(IndexList::of(&[2, 3]));
    let mut iter = indices.iter();
    assert_eq!(iter.next(), Some(2));
    assert_eq!(iter.next(), Some(3));
    assert_eq!(iter.next(), None);

    iter.reset();
    assert_eq!(walked(iter), vec![2, 3]);
}

#[test]
fn cache_nth_skips_and_returns_element() {
    let indices = ResolvedPinIndices::Combined(IndexList::of(&[1, 2, 3]));
    let mut iter = indices.iter();
    assert_eq!(iter.nth(1), Some(2));
    assert_eq!(iter.next(), Some(3));
    assert_eq!(iter.next(), None);
}

#[test]
fn new_builds_same_sequence_as_resolved_pin_indices_iter() {
    let indices = ResolvedPinIndices::Combined(IndexList::of(&[2, 3]));
    let via_method: Vec<_> = walked(indices.iter());
    let via_new: Vec<_> = walked(ResolvedPinIndicesIter::new(&indices));
    assert_eq!(via_method, via_new);
}

#[test]
fn first_index_of_a_list() {
    assert_eq!(ResolvedPinIndices::Single(4).first(), Some(4));
    let indices = ResolvedPinIndices::Combined(IndexList::of(&[7, 1]));
    assert_eq!(indices.first(), Some(7));
    let none = ResolvedPinIndices::Combined(IndexList::new());
    assert_eq!(none.first(), None);
}
