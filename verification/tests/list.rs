use chat_core::list::{ListState, StatefulList};

#[test]
fn new_list_has_no_selection() {
    let list = StatefulList::with_items(vec!['a', 'b']);
    assert_eq!(list.state.selected(), None);
    assert_eq!(list.items, vec!['a', 'b']);
}

#[test]
fn next_steps_and_wraps_from_last_to_first() {
    let mut list = StatefulList::with_items(vec![1u8, 2, 3]);
    list.next();
    assert_eq!(list.state.selected(), Some(0));
    list.next();
    assert_eq!(list.state.selected(), Some(1));
    list.next();
    assert_eq!(list.state.selected(), Some(2));
    list.next();
    assert_eq!(list.state.selected(), Some(0));
}

#[test]
fn previous_steps_and_wraps_from_first_to_last() {
    let mut list = StatefulList::with_items(vec![1u8, 2, 3]);
    list.previous();
    assert_eq!(list.state.selected(), Some(0));
    list.previous();
    assert_eq!(list.state.selected(), Some(2));
    list.previous();
    assert_eq!(list.state.selected(), Some(1));
    assert_eq!(list.state, ListState { selected: Some(1) });
}

#[test]
fn steps_on_a_single_item_stay_on_it() {
    let mut list = StatefulList::with_items(vec![7u8]);
    list.next();
    assert_eq!(list.state.selected(), Some(0));
    list.next();
    assert_eq!(list.state.selected(), Some(0));
    list.previous();
    assert_eq!(list.state.selected(), Some(0));
}

#[test]
fn steps_on_an_empty_list_change_nothing() {
    let mut list: StatefulList<u8> = StatefulList::with_items(Vec::new());
    list.next();
    assert_eq!(list.state.selected(), None);
    list.previous();
    assert_eq!(list.state.selected(), None);
}

#[test]
fn long_walk_stays_inside_the_list() {
    let mut list = StatefulList::with_items(vec![0u8; 4]);
    for step in 0..50usize {
        if step % 3 == 0 {
            list.previous();
        } else {
            list.next();
        }
        let selected = list.state.selected().unwrap();
        assert!(selected < 4);
    }
}

#[test]
fn select_ignores_an_index_past_the_end() {
    let mut list = StatefulList::with_items(vec![1u8, 2, 3]);
    list.select(2);
    assert_eq!(list.state.selected(), Some(2));
    list.select(3);
    assert_eq!(list.state.selected(), Some(2));
}

#[test]
fn structural_changes_keep_the_selected_index() {
    let mut list = StatefulList::with_items(vec![10u8, 20, 30]);
    list.select(1);
    list.push_back(40);
    assert_eq!(list.items, vec![10, 20, 30, 40]);
    assert_eq!(list.state.selected(), Some(1));
    list.insert_front(5);
    assert_eq!(list.items, vec![5, 10, 20, 30, 40]);
    assert_eq!(list.state.selected(), Some(1));
    list.swap(0, 4);
    assert_eq!(list.items, vec![40, 10, 20, 30, 5]);
    list.swap(3, 1);
    assert_eq!(list.items, vec![40, 30, 20, 10, 5]);
    list.swap(2, 2);
    assert_eq!(list.items, vec![40, 30, 20, 10, 5]);
    assert_eq!(list.state.selected(), Some(1));
}
