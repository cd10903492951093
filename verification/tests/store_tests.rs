use pillar_sort::store::ConfigError;
use pillar_sort::store::ElementStore;
use pillar_sort::store::SwapInstruction;

#[test]
fn rejects_empty_configuration() {
    let r = ElementStore::new(vec![]);
    assert_eq!(r.err(), Some(ConfigError::TooFewElements));
}

#[test]
fn rejects_single_element_configuration() {
    let r = ElementStore::new(vec![7]);
    assert_eq!(r.err(), Some(ConfigError::TooFewElements));
}

#[test]
fn accepts_two_elements() {
    let store = ElementStore::new(vec![9, 4]).unwrap();
    assert_eq!(store.len(), 2);
    assert_eq!(store.get(0), 9);
    assert_eq!(store.get(1), 4);
}

#[test]
fn set_height_changes_only_that_identity() {
    let mut store = ElementStore::new(vec![5, 6, 7]).unwrap();
    store.set_height(1, 42);
    assert_eq!(store.get(0), 5);
    assert_eq!(store.get(1), 42);
    assert_eq!(store.get(2), 7);
}

#[test]
fn apply_swap_exchanges_the_two_heights() {
    let mut store = ElementStore::new(vec![3, 1, 4]).unwrap();
    let sw = SwapInstruction { a_id: 0, b_id: 2, a_new_height: 4, b_new_height: 3 };
    store.apply_swap(&sw);
    assert_eq!(store.get(0), 4);
    assert_eq!(store.get(1), 1);
    assert_eq!(store.get(2), 3);
}

#[test]
fn elements_lists_ids_in_order_with_heights() {
    let store = ElementStore::new(vec![8, 2, 6]).unwrap();
    let els = store.elements();
    assert_eq!(els.len(), 3);
    for (i, e) in els.iter().enumerate() {
        assert_eq!(e.id, i);
        assert_eq!(e.height, store.get(i));
    }
}
