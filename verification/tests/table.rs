use hashsync::{RowId, RowTable};

fn sorted(mut ids: Vec<RowId>) -> Vec<RowId> {
    ids.sort();
    ids
}

#[test]
fn new_table_is_empty() {
    let table = RowTable::<i32>::new();
    assert_eq!(table.len(), 0);
    assert!(table.ids().is_empty());
    assert_eq!(table.get(RowId::new(0)), None);
}

#[test]
fn insert_then_get_finds_the_value() {
    let mut table = RowTable::new();
    assert_eq!(table.insert(RowId::new(10), "a"), None);
    assert_eq!(table.insert(RowId::new(20), "b"), None);
    assert_eq!(table.get(RowId::new(10)), Some(&"a"));
    assert_eq!(table.get(RowId::new(20)), Some(&"b"));
    assert_eq!(table.get(RowId::new(30)), None);
    assert_eq!(table.len(), 2);
}

#[test]
fn insert_under_a_used_id_returns_the_old_value() {
    let mut table = RowTable::new();
    table.insert(RowId::new(1), "old");
    table.insert(RowId::new(2), "other");
    assert_eq!(table.insert(RowId::new(1), "new"), Some("old"));
    assert_eq!(table.get(RowId::new(1)), Some(&"new"));
    assert_eq!(table.get(RowId::new(2)), Some(&"other"));
    assert_eq!(table.len(), 2);
    assert_eq!(sorted(table.ids()), vec![RowId::new(1), RowId::new(2)]);
}

#[test]
fn remove_returns_the_value_and_forgets_the_id() {
    let mut table = RowTable::new();
    table.insert(RowId::new(1), 'x');
    assert_eq!(table.remove(RowId::new(1)), Some('x'));
    assert_eq!(table.get(RowId::new(1)), None);
    assert_eq!(table.remove(RowId::new(1)), None);
    assert_eq!(table.len(), 0);
}

#[test]
fn remove_of_an_unknown_id_changes_nothing() {
    let mut table = RowTable::new();
    table.insert(RowId::new(1), 'x');
    assert_eq!(table.remove(RowId::new(2)), None);
    assert_eq!(table.len(), 1);
    assert_eq!(table.get(RowId::new(1)), Some(&'x'));
}

#[test]
fn remove_from_the_middle_keeps_the_others_findable() {
    let mut table = RowTable::new();
    for n in 0..5usize {
        table.insert(RowId::new(n), n * 10);
    }
    assert_eq!(table.remove(RowId::new(1)), Some(10));
    assert_eq!(table.remove(RowId::new(3)), Some(30));
    assert_eq!(table.get(RowId::new(0)), Some(&0));
    assert_eq!(table.get(RowId::new(2)), Some(&20));
    assert_eq!(table.get(RowId::new(4)), Some(&40));
    assert_eq!(table.get(RowId::new(1)), None);
    assert_eq!(table.get(RowId::new(3)), None);
    assert_eq!(sorted(table.ids()), vec![RowId::new(0), RowId::new(2), RowId::new(4)]);
}

#[test]
fn remove_of_the_last_slot_moves_nothing() {
    let mut table = RowTable::new();
    table.insert(RowId::new(7), 'a');
    table.insert(RowId::new(8), 'b');
    assert_eq!(table.remove(RowId::new(8)), Some('b'));
    assert_eq!(table.get(RowId::new(7)), Some(&'a'));
    assert_eq!(table.ids(), vec![RowId::new(7)]);
}

#[test]
fn rows_are_walked_once_each() {
    let mut table = RowTable::new();
    table.insert(RowId::new(5), "five");
    table.insert(RowId::new(3), "three");
    table.insert(RowId::new(9), "nine");
    table.remove(RowId::new(5));
    let mut seen = Vec::new();
    for i in 0..table.len() {
        let row = table.row(i);
        assert_eq!(table.get(row.id()), Some(row.value()));
        seen.push(row.id());
    }
    assert_eq!(sorted(seen), vec![RowId::new(3), RowId::new(9)]);
}

#[test]
fn ids_follow_the_order_of_rows() {
    let mut table = RowTable::new();
    table.insert(RowId::new(2), ());
    table.insert(RowId::new(1), ());
    let ids = table.ids();
    assert_eq!(ids.len(), table.len());
    for i in 0..table.len() {
        assert_eq!(ids[i], table.row(i).id());
    }
}

#[test]
fn an_id_can_be_used_again_after_removal() {
    let mut table = RowTable::new();
    table.insert(RowId::new(1), 1);
    table.remove(RowId::new(1));
    assert_eq!(table.insert(RowId::new(1), 2), None);
    assert_eq!(table.get(RowId::new(1)), Some(&2));
}

#[test]
fn large_ids_are_fine() {
    let mut table = RowTable::new();
    table.insert(RowId::new(usize::MAX), "top");
    assert_eq!(table.get(RowId::new(usize::MAX)), Some(&"top"));
    assert_eq!(table.len(), 1);
}
