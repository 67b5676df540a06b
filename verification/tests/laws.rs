use std::collections::BTreeMap;

use hashsync::{HashSync, IndexId, Indexed, RowId};

fn sorted<T: Ord>(mut items: Vec<T>) -> Vec<T> {
    items.sort();
    items
}

#[test]
fn lookup_returns_exactly_the_rows_with_the_key() {
    let mut hs = HashSync::new();
    let index = hs.index(|&(a, _b): &(i32, i32)| a);
    hs.insert((1, 2));
    hs.insert((2, 3));
    hs.insert((1, 4));
    hs.insert((3, 5));
    hs.insert((1, 6));
    let read = hs.reader(index).unwrap();
    assert_eq!(sorted(read.get_values(&1)), vec![(1, 2), (1, 4), (1, 6)]);
    assert_eq!(read.get_values(&2), vec![(2, 3)]);
    assert_eq!(read.get_values(&3), vec![(3, 5)]);
    assert!(read.get_values(&4).is_empty());
    let ids: Vec<RowId> = read.get(&1).iter().map(|row| row.id()).collect();
    assert_eq!(sorted(ids), vec![RowId::new(0), RowId::new(2), RowId::new(4)]);
}

#[test]
fn delete_empties_the_key_sets_of_the_row() {
    let mut hs = HashSync::new();
    let a = hs.insert((1, 2));
    let b = hs.insert((1, 3));
    let index = hs.index_many(|&(x, y): &(i32, i32)| vec![x, y]);

    assert_eq!(hs.delete(a), Some((1, 2)));
    {
        let read = hs.reader(index).unwrap();
        assert_eq!(read.get(&1), vec![Indexed::new(b, (1, 3))]);
        assert!(read.get(&2).is_empty());
        assert_eq!(sorted(read.keys()), vec![1, 3]);
    }
    assert_eq!(hs.delete(b), Some((1, 3)));
    let read = hs.reader(index).unwrap();
    assert!(read.get(&1).is_empty());
    assert!(read.get(&3).is_empty());
    assert!(read.keys().is_empty());
}

#[test]
fn late_index_sees_earlier_rows() {
    let mut hs = HashSync::new();
    for n in 0..10 {
        hs.insert((n % 3, n));
    }
    let removed = hs.delete(RowId::new(3));
    assert_eq!(removed, Some((0, 3)));
    let index = hs.index(|&(a, _b): &(i32, i32)| a);
    let read = hs.reader(index).unwrap();
    assert_eq!(sorted(read.get_values(&0)), vec![(0, 0), (0, 6), (0, 9)]);
    assert_eq!(sorted(read.get_values(&1)), vec![(1, 1), (1, 4), (1, 7)]);
    assert_eq!(sorted(read.get_values(&2)), vec![(2, 2), (2, 5), (2, 8)]);
    assert_eq!(sorted(read.keys()), vec![0, 1, 2]);
}

#[test]
fn one_row_under_every_key_it_names() {
    let mut hs = HashSync::new();
    let index = hs.index_many(|&(a, b, c): &(i32, i32, i32)| vec![a, b, c]);
    let id = hs.insert((7, 8, 9));
    for key in [7, 8, 9] {
        assert_eq!(hs.reader(index).unwrap().get(&key), vec![Indexed::new(id, (7, 8, 9))]);
    }
    hs.delete(id);
    for key in [7, 8, 9] {
        assert!(hs.reader(index).unwrap().get(&key).is_empty());
    }
    assert!(hs.reader(index).unwrap().keys().is_empty());
}

#[test]
fn indexes_do_not_disturb_each_other() {
    let mut with_two = HashSync::new();
    let mut with_one = HashSync::new();
    let first = with_two.index(|&(a, _b): &(i32, i32)| a);
    let second = with_two.index(|&(_a, b): &(i32, i32)| b);
    let alone = with_one.index(|&(a, _b): &(i32, i32)| a);
    for row in [(1, 2), (1, 3), (3, 2)] {
        with_two.insert(row);
        with_one.insert(row);
    }
    with_two.delete(RowId::new(1));
    with_one.delete(RowId::new(1));
    for key in [1, 2, 3] {
        assert_eq!(
            sorted(with_two.reader(first).unwrap().get_values(&key)),
            sorted(with_one.reader(alone).unwrap().get_values(&key)),
        );
    }
    assert_eq!(sorted(with_two.reader(second).unwrap().get_values(&2)), vec![(1, 2), (3, 2)]);
    assert!(with_two.reader(second).unwrap().get_values(&3).is_empty());
}

#[test]
fn drop_indexes_keeps_rows_and_ids() {
    let mut hs = HashSync::new();
    let a = hs.insert((1, 2));
    let b = hs.insert((1, 3));
    let index = hs.index(|&(x, _y): &(i32, i32)| x);

    let mut hs = hs.drop_indexes();
    assert_eq!(sorted(hs.keys()), vec![a, b]);
    assert_eq!(hs.by_id(a), Some((1, 2)));
    assert_eq!(hs.by_id(b), Some((1, 3)));
    assert!(!hs.has_index(index));
    assert!(hs.has_detached(index));
    assert_eq!(hs.insert((5, 5)), RowId::new(2));
}

#[test]
fn a_handle_from_before_drop_indexes_still_answers() {
    let mut hs = HashSync::new();
    hs.insert((1, 2));
    hs.insert((1, 3));
    hs.insert((3, 1));
    let index = hs.index(|&(a, _b)| a);

    let hs = hs.drop_indexes();
    let read = hs.reader(index).unwrap();
    let rows = read.get_values(&1);
    assert_eq!(rows.len(), 2);
    assert!(rows.contains(&(1, 2)));
    assert!(rows.contains(&(1, 3)));
    assert_eq!(read.get_values(&3), vec![(3, 1)]);
    let keys = read.keys();
    assert_eq!(keys.len(), 2);
    assert!(keys.contains(&1));
    assert!(keys.contains(&3));
}

#[test]
fn a_dropped_index_passes_over_rows_deleted_later() {
    let mut hs = HashSync::new();
    hs.insert((1, 2));
    hs.insert((1, 3));
    let index = hs.index(|&(a, _b)| a);

    let mut hs = hs.drop_indexes();
    assert_eq!(hs.delete(RowId::new(0)), Some((1, 2)));
    assert_eq!(
        hs.reader(index).unwrap().get(&1),
        vec![Indexed::new(RowId::new(1), (1, 3))],
    );
    assert_eq!(hs.reader(index).unwrap().get_values(&1), vec![(1, 3)]);
}

#[test]
fn a_dropped_index_is_not_told_of_later_rows() {
    let mut hs = HashSync::new();
    let a = hs.insert((1, 2));
    let index = hs.index(|&(x, _y)| x);

    let mut hs = hs.drop_indexes();
    let b = hs.insert((1, 3));
    hs.replace(a, (7, 7));
    let later = hs.index(|&(x, _y)| x);

    assert_eq!(hs.reader(index).unwrap().get(&1), vec![Indexed::new(a, (7, 7))]);
    assert!(hs.reader(index).unwrap().get(&7).is_empty());
    assert_eq!(hs.reader(index).unwrap().keys(), vec![1]);
    assert_eq!(hs.reader(later).unwrap().get(&1), vec![Indexed::new(b, (1, 3))]);
    assert_eq!(hs.reader(later).unwrap().get(&7), vec![Indexed::new(a, (7, 7))]);
}

#[test]
fn index_ids_are_not_given_out_twice() {
    let mut hs = HashSync::<(i32, i32), i32>::new();
    let first = hs.index(|&(a, _b)| a);
    let second = hs.index(|&(_a, b)| b);
    assert_eq!(first, IndexId::new(0));
    assert_eq!(second, IndexId::new(1));
    let mut hs = hs.drop_indexes();
    assert_eq!(hs.next_index_id(), IndexId::new(2));
    let third = hs.index(|&(a, _b)| a);
    assert_eq!(third, IndexId::new(2));
    assert!(hs.has_detached(first) && hs.has_detached(second) && hs.has_index(third));
    assert!(!hs.has_detached(third) && !hs.has_index(first) && !hs.has_index(second));
    let hs = hs.drop_indexes();
    assert!(hs.has_detached(first) && hs.has_detached(second) && hs.has_detached(third));
    assert!(hs.reader(first).is_some() && hs.reader(third).is_some());
    assert!(hs.reader(IndexId::new(3)).is_none());
}

#[test]
fn scenario_lookup_then_delete() {
    let mut hs = HashSync::new();
    let first = hs.insert((1, 2));
    hs.insert((1, 3));
    hs.insert((3, 4));
    let index = hs.index(|&(a, _b)| a);
    assert_eq!(sorted(hs.reader(index).unwrap().get_values(&1)), vec![(1, 2), (1, 3)]);
    hs.delete(first);
    assert_eq!(hs.reader(index).unwrap().get_values(&1), vec![(1, 3)]);
}

#[test]
fn scenario_replace_on_an_empty_store_moves_the_generator() {
    let mut hs = HashSync::<&str, usize>::new();
    hs.replace(RowId::new(5), "five");
    assert_eq!(hs.next_id(), RowId::new(6));
    assert_eq!(hs.insert("six"), RowId::new(6));
    assert_eq!(hs.by_id(RowId::new(5)), Some("five"));
    assert_eq!(sorted(hs.keys()), vec![RowId::new(5), RowId::new(6)]);
}

#[test]
fn replace_below_the_generator_leaves_it_alone() {
    let mut hs = HashSync::<i32, i32>::new();
    hs.insert(10);
    hs.insert(11);
    hs.insert(12);
    hs.replace(RowId::new(1), 99);
    assert_eq!(hs.next_id(), RowId::new(3));
    assert_eq!(hs.by_id(RowId::new(1)), Some(99));
    assert_eq!(hs.insert(13), RowId::new(3));
}

#[test]
fn replace_moves_the_row_between_keys() {
    let mut hs = HashSync::new();
    let id = hs.insert((1, 2));
    let index = hs.index(|&(a, _b): &(i32, i32)| a);
    hs.replace(id, (7, 2));
    assert!(hs.reader(index).unwrap().get(&1).is_empty());
    assert_eq!(hs.reader(index).unwrap().get(&7), vec![Indexed::new(id, (7, 2))]);
    assert_eq!(hs.reader(index).unwrap().keys(), vec![7]);
}

#[test]
fn ids_are_not_reused_after_delete() {
    let mut hs = HashSync::<i32, i32>::new();
    let a = hs.insert(1);
    let b = hs.insert(2);
    hs.delete(b);
    hs.delete(a);
    assert_eq!(hs.insert(3), RowId::new(2));
    assert!(hs.by_id(a).is_none());
    assert!(hs.by_id(b).is_none());
}

#[test]
fn delete_of_an_unknown_id_is_a_no_op() {
    let mut hs = HashSync::new();
    let id = hs.insert((1, 2));
    let index = hs.index(|&(a, _b): &(i32, i32)| a);
    assert_eq!(hs.delete(RowId::new(40)), None);
    assert_eq!(hs.delete(id), Some((1, 2)));
    assert_eq!(hs.delete(id), None);
    assert!(hs.keys().is_empty());
    assert!(hs.reader(index).unwrap().keys().is_empty());
    assert_eq!(hs.next_id(), RowId::new(1));
}

#[test]
fn lookups_of_unknown_things_are_empty() {
    let mut hs = HashSync::new();
    hs.insert((1, 2));
    let index = hs.index(|&(a, _b): &(i32, i32)| a);
    assert_eq!(hs.by_id(RowId::new(9)), None);
    assert_eq!(hs.by_id_indexed(RowId::new(9)), None);
    assert!(hs.reader(index).unwrap().get(&9).is_empty());
    assert!(hs.reader(IndexId::new(9)).is_none());
}

#[test]
fn new_store_starts_at_zero() {
    let hs = HashSync::<i32, i32>::new();
    assert!(hs.keys().is_empty());
    assert_eq!(hs.next_id(), RowId::new(0));
    assert_eq!(hs.next_index_id(), IndexId::new(0));
    assert!(!hs.has_index(IndexId::new(0)));
    assert!(!hs.has_detached(IndexId::new(0)));
    let same = HashSync::<i32, i32>::default();
    assert_eq!(same.next_id(), RowId::new(0));
    assert!(same.keys().is_empty());
}

#[test]
fn index_on_an_empty_store_follows_later_rows() {
    let mut hs = HashSync::new();
    let index = hs.index_id(|row: &Indexed<i32>| row.id().0 % 2 == 0);
    let a = hs.insert(10);
    let b = hs.insert(11);
    let c = hs.insert(12);
    let even: Vec<RowId> = hs.reader(index).unwrap().get(&true).iter().map(|r| r.id()).collect();
    let odd: Vec<RowId> = hs.reader(index).unwrap().get(&false).iter().map(|r| r.id()).collect();
    assert_eq!(sorted(even), vec![a, c]);
    assert_eq!(odd, vec![b]);
}

#[test]
fn index_id_many_sees_id_and_value() {
    let mut hs = HashSync::new();
    hs.insert(5usize);
    hs.insert(6usize);
    let index = hs.index_id_many(|row: &Indexed<usize>| vec![row.id().0, *row.value()]);
    assert_eq!(sorted(hs.reader(index).unwrap().keys()), vec![0, 1, 5, 6]);
    assert_eq!(hs.reader(index).unwrap().get_values(&1), vec![6]);
    assert_eq!(hs.reader(index).unwrap().get_values(&5), vec![5]);
}

#[test]
fn many_rows_and_deletes_stay_in_step() {
    let mut hs = HashSync::new();
    let index = hs.index(|n: &usize| n % 7);
    let mut ids = Vec::new();
    for n in 0..200usize {
        ids.push(hs.insert(n));
    }
    for (n, id) in ids.iter().enumerate() {
        if n % 3 == 0 {
            assert_eq!(hs.delete(*id), Some(n));
        }
    }
    assert_eq!(hs.keys().len(), 200 - 67);
    for key in 0..7usize {
        let expected: Vec<usize> = (0..200).filter(|n| n % 7 == key && n % 3 != 0).collect();
        assert_eq!(sorted(hs.reader(index).unwrap().get_values(&key)), expected);
    }
}

#[test]
fn a_long_run_of_operations_agrees_with_a_plain_model() {
    let mut hs = HashSync::<(u64, u64), u64>::new();
    let mut model: BTreeMap<usize, (u64, u64)> = BTreeMap::new();
    let by_first = hs.index(|row: &(u64, u64)| row.0);
    let mut by_both = None;
    let mut state: u64 = 0x2545_f491_4f6c_dd1d;
    let mut next = move || {
        state ^= state << 13;
        state ^= state >> 7;
        state ^= state << 17;
        state
    };
    for step in 0..2000 {
        let row = (next() % 5, next() % 7);
        match next() % 4 {
            0 | 1 => {
                let id = hs.insert(row);
                assert!(model.insert(id.0, row).is_none());
            }
            2 => {
                let id = (next() % 64) as usize;
                assert_eq!(hs.delete(RowId::new(id)), model.remove(&id));
            }
            _ => {
                let id = (next() % 64) as usize;
                hs.replace(RowId::new(id), row);
                model.insert(id, row);
            }
        }
        if step == 700 {
            by_both = Some(hs.index_many(|row: &(u64, u64)| vec![row.0, row.1]));
        }
        if step % 50 == 0 {
            let ids: Vec<usize> = sorted(hs.keys()).iter().map(|id| id.0).collect();
            assert_eq!(ids, model.keys().copied().collect::<Vec<_>>());
            for key in 0..7u64 {
                let found: Vec<usize> =
                    hs.reader(by_first).unwrap().get(&key).iter().map(|r| r.id().0).collect();
                let expected: Vec<usize> =
                    model.iter().filter(|(_, row)| row.0 == key).map(|(id, _)| *id).collect();
                assert_eq!(sorted(found), expected);
                if let Some(index) = by_both {
                    let found: Vec<(usize, (u64, u64))> = hs
                        .reader(index)
                        .unwrap()
                        .get(&key)
                        .iter()
                        .map(|r| (r.id().0, *r.value()))
                        .collect();
                    let expected: Vec<(usize, (u64, u64))> = model
                        .iter()
                        .filter(|(_, row)| row.0 == key || row.1 == key)
                        .map(|(id, row)| (*id, *row))
                        .collect();
                    assert_eq!(sorted(found), expected);
                }
            }
            let keys = sorted(hs.reader(by_first).unwrap().keys());
            let mut expected: Vec<u64> = model.values().map(|row| row.0).collect();
            expected.sort();
            expected.dedup();
            assert_eq!(keys, expected);
        }
    }
    assert!(hs.next_id().0 >= model.keys().next_back().map_or(0, |id| id + 1));
}
