use mpeg2ts_demux::filters::{FilterChange, FilterChangeset, Filters};

#[test]
fn new_table_is_empty() {
    let filters: Filters<u32> = Filters::new();
    assert!(!filters.contains(0));
    assert!(!filters.contains(8191));
    assert!(filters.pids().is_empty());
}

#[test]
fn contains_iff_a_filter_is_stored() {
    let mut filters: Filters<u32> = Filters::new();
    filters.insert(8191, 1);
    filters.insert(17, 2);
    for pid in 0..8192u16 {
        assert_eq!(filters.contains(pid), pid == 17 || pid == 8191);
        assert_eq!(filters.get(pid).is_some(), pid == 17 || pid == 8191);
    }
}

#[test]
fn insert_grows_the_table() {
    let mut filters: Filters<u32> = Filters::new();
    filters.insert(5, 50);
    assert!(filters.contains(5));
    assert!(!filters.contains(4));
    assert!(!filters.contains(6));
    assert_eq!(filters.pids(), vec![5]);
    filters.insert(0, 1);
    filters.insert(9, 90);
    assert_eq!(filters.pids(), vec![0, 5, 9]);
}

#[test]
fn insert_replaces() {
    let mut filters: Filters<u32> = Filters::new();
    filters.insert(3, 1);
    filters.insert(3, 2);
    assert_eq!(filters.get(3), Some(&mut 2));
    assert_eq!(filters.pids(), vec![3]);
}

#[test]
fn get_gives_access_to_the_slot() {
    let mut filters: Filters<u32> = Filters::new();
    filters.insert(3, 1);
    filters.insert(4, 7);
    *filters.get(3).unwrap() += 10;
    assert_eq!(filters.get(3), Some(&mut 11));
    assert_eq!(filters.get(4), Some(&mut 7));
    assert_eq!(filters.get(2), None);
    assert_eq!(filters.get(5), None);
}

#[test]
fn remove_empties_the_slot() {
    let mut filters: Filters<u32> = Filters::new();
    filters.insert(3, 1);
    filters.insert(4, 7);
    filters.remove(3);
    assert!(!filters.contains(3));
    assert!(filters.contains(4));
    // no-op on an empty slot, within the table and beyond it
    filters.remove(3);
    filters.remove(2);
    filters.remove(4000);
    assert_eq!(filters.pids(), vec![4]);
}

#[test]
fn highest_pid_of_the_type() {
    let mut filters: Filters<u32> = Filters::new();
    filters.insert(u16::MAX, 1);
    assert!(filters.contains(u16::MAX));
    assert_eq!(filters.pids(), vec![u16::MAX]);
}

#[test]
fn changeset_applies_in_order() {
    let mut filters: Filters<u32> = Filters::new();
    let mut changes: FilterChangeset<u32> = FilterChangeset::new();
    assert!(changes.is_empty());
    changes.insert(7, 1);
    changes.insert(9, 2);
    changes.remove(7);
    changes.insert(3, 3);
    changes.insert(9, 4);
    assert!(!changes.is_empty());
    assert_eq!(changes.len(), 5);
    changes.apply(&mut filters);
    assert!(changes.is_empty());
    assert_eq!(filters.pids(), vec![3, 9]);
    assert_eq!(filters.get(9), Some(&mut 4));
}

#[test]
fn changeset_remove_then_insert_keeps_the_filter() {
    let mut filters: Filters<u32> = Filters::new();
    filters.insert(7, 1);
    let mut changes: FilterChangeset<u32> = FilterChangeset::new();
    changes.remove(7);
    changes.insert(7, 2);
    changes.apply(&mut filters);
    assert_eq!(filters.get(7), Some(&mut 2));
}

#[test]
fn apply_of_nothing_changes_nothing() {
    let mut filters: Filters<u32> = Filters::new();
    filters.insert(7, 1);
    let mut changes: FilterChangeset<u32> = FilterChangeset::new();
    changes.apply(&mut filters);
    assert!(changes.is_empty());
    assert_eq!(filters.pids(), vec![7]);
}

#[test]
fn changes_are_handed_out_oldest_first() {
    let mut changes: FilterChangeset<u32> = FilterChangeset::new();
    changes.insert(7, 1);
    changes.remove(8);
    let all = changes.into_vec();
    assert_eq!(all.len(), 2);
    assert!(matches!(all[0], FilterChange::Insert(7, 1)));
    assert!(matches!(all[1], FilterChange::Remove(8)));
    assert_eq!(all[0].pid(), 7);
    assert_eq!(all[1].pid(), 8);
    assert!(all[0].is_insert() && !all[0].is_remove());
    assert!(all[1].is_remove() && !all[1].is_insert());
}

#[test]
fn a_single_change_applies() {
    let mut filters: Filters<u32> = Filters::new();
    FilterChange::Insert(2, 5).apply(&mut filters);
    assert_eq!(filters.pids(), vec![2]);
    FilterChange::Remove(2).apply(&mut filters);
    assert!(filters.pids().is_empty());
}

#[test]
fn clear_forgets_the_changes() {
    let mut filters: Filters<u32> = Filters::new();
    let mut changes: FilterChangeset<u32> = FilterChangeset::new();
    changes.insert(7, 1);
    changes.clear();
    assert!(changes.is_empty());
    changes.apply(&mut filters);
    assert!(filters.pids().is_empty());
}
