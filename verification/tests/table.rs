use curver_backend::table::Table;

fn sample() -> Table<u32> {
    let mut table: Table<u32> = Table::new();
    table.insert(10, 100);
    table.insert(20, 200);
    table.insert(30, 300);
    table
}

fn entries(table: &Table<u32>) -> Vec<(u128, u32)> {
    let mut all = Vec::new();
    for i in 0..table.len() {
        all.push((table.key_at(i), *table.value_at(i)));
    }
    all
}

#[test]
fn a_new_table_is_empty() {
    let table: Table<u32> = Table::new();
    assert_eq!(table.len(), 0);
    assert!(table.is_empty());
    assert!(!table.contains_key(0));
    assert_eq!(table.get(0), None);
    assert_eq!(table.position(0), None);
}

#[test]
fn insert_keeps_the_order_of_arrival() {
    let table = sample();
    assert_eq!(entries(&table), vec![(10, 100), (20, 200), (30, 300)]);
    assert_eq!(table.len(), 3);
    assert!(!table.is_empty());
}

#[test]
fn insert_under_a_known_key_replaces_in_place() {
    let mut table = sample();
    table.insert(20, 222);
    assert_eq!(entries(&table), vec![(10, 100), (20, 222), (30, 300)]);
    table.insert(10, 111);
    assert_eq!(entries(&table), vec![(10, 111), (20, 222), (30, 300)]);
}

#[test]
fn remove_takes_one_entry_and_keeps_the_order() {
    let mut table = sample();
    assert!(table.remove(20));
    assert_eq!(entries(&table), vec![(10, 100), (30, 300)]);
    assert!(!table.remove(20));
    assert_eq!(entries(&table), vec![(10, 100), (30, 300)]);
    assert!(table.remove(10));
    assert!(table.remove(30));
    assert!(table.is_empty());
}

#[test]
fn a_key_that_comes_back_goes_to_the_end() {
    let mut table = sample();
    table.remove(10);
    table.insert(10, 1);
    assert_eq!(entries(&table), vec![(20, 200), (30, 300), (10, 1)]);
}

#[test]
fn position_and_get_find_the_entry() {
    let table = sample();
    assert_eq!(table.position(10), Some(0));
    assert_eq!(table.position(30), Some(2));
    assert_eq!(table.position(40), None);
    assert_eq!(table.get(20), Some(&200));
    assert_eq!(table.get(40), None);
    assert!(table.contains_key(30));
    assert!(!table.contains_key(31));
}

#[test]
fn set_value_changes_one_value() {
    let mut table = sample();
    table.set_value(1, 5);
    assert_eq!(entries(&table), vec![(10, 100), (20, 5), (30, 300)]);
}

#[test]
fn value_mut_changes_one_value_in_place() {
    let mut table = sample();
    *table.value_mut(2) += 1;
    assert_eq!(entries(&table), vec![(10, 100), (20, 200), (30, 301)]);
}

#[test]
fn push_entry_adds_at_the_end() {
    let mut table = sample();
    table.push_entry(5, 50);
    assert_eq!(entries(&table), vec![(10, 100), (20, 200), (30, 300), (5, 50)]);
}

#[test]
fn values_are_in_the_order_of_the_entries() {
    assert_eq!(sample().values(), vec![100, 200, 300]);
}

#[test]
fn a_duplicate_is_equal_and_independent() {
    let mut table = sample();
    let copy = table.duplicate();
    assert_eq!(copy, table);
    table.insert(10, 0);
    assert_eq!(entries(&copy), vec![(10, 100), (20, 200), (30, 300)]);
}

#[test]
fn the_largest_key_is_a_key_like_any_other() {
    let mut table: Table<u32> = Table::new();
    table.insert(u128::MAX, 1);
    table.insert(0, 2);
    assert_eq!(table.get(u128::MAX), Some(&1));
    assert_eq!(table.get(0), Some(&2));
}
