use bobobib::ecs::{Entity, FunctionalTable};

fn sorted_entries(table: &FunctionalTable<i64>) -> Vec<(Entity, i64)> {
    let mut entries: Vec<(Entity, i64)> = table.iter().map(|(e, c)| (*e, *c)).collect();
    entries.sort();
    entries
}

#[test]
#[allow(non_snake_case)]
fn test_FunctionalTable_get_set() {
    let mut table: FunctionalTable<isize> = FunctionalTable::new("test".to_string());
    let val = 1;
    let entity = 42;
    table.set(entity, val);
    assert!(val == *table.get(entity));
}

#[test]
fn new_table_is_empty_and_keeps_its_name() {
    let table: FunctionalTable<i64> = FunctionalTable::new("mass".to_string());
    assert_eq!(table.name(), "mass");
    assert_eq!(table.iter().count(), 0);
    assert!(!table.contains(0));
}

#[test]
fn set_overwrites_the_previous_value() {
    let mut table: FunctionalTable<i64> = FunctionalTable::new("t".to_string());
    table.set(3, 10);
    table.set(3, 20);
    assert_eq!(*table.get(3), 20);
    assert_eq!(sorted_entries(&table), vec![(3, 20)]);
}

#[test]
fn set_leaves_other_entities_alone() {
    let mut table: FunctionalTable<i64> = FunctionalTable::new("t".to_string());
    table.set(1, 100);
    table.set(2, 200);
    table.set(1, 101);
    assert_eq!(*table.get(1), 101);
    assert_eq!(*table.get(2), 200);
    assert_eq!(table.name(), "t");
}

#[test]
fn insertion_order_does_not_matter() {
    let mut a: FunctionalTable<i64> = FunctionalTable::new("a".to_string());
    a.set(1, 10);
    a.set(2, 20);
    let mut b: FunctionalTable<i64> = FunctionalTable::new("b".to_string());
    b.set(2, 20);
    b.set(1, 10);
    assert_eq!(sorted_entries(&a), sorted_entries(&b));
}

#[test]
fn contains_tells_which_entities_have_a_component() {
    let mut table: FunctionalTable<i64> = FunctionalTable::new("t".to_string());
    table.set(0, 5);
    table.set(usize::MAX, 6);
    assert!(table.contains(0));
    assert!(table.contains(usize::MAX));
    assert!(!table.contains(1));
}

#[test]
fn iter_visits_every_entry_once() {
    let mut table: FunctionalTable<i64> = FunctionalTable::new("t".to_string());
    table.set(9, 90);
    table.set(4, 40);
    table.set(7, 70);
    table.set(4, 41);
    assert_eq!(sorted_entries(&table), vec![(4, 41), (7, 70), (9, 90)]);
}

#[test]
fn iter_can_be_started_again() {
    let mut table: FunctionalTable<i64> = FunctionalTable::new("t".to_string());
    table.set(1, 1);
    table.set(2, 2);
    assert_eq!(table.iter().count(), 2);
    assert_eq!(table.iter().count(), 2);
    assert_eq!(sorted_entries(&table), vec![(1, 1), (2, 2)]);
}

#[test]
fn apply_rewrites_every_entry_from_its_entity_and_old_value() {
    let mut table: FunctionalTable<i64> = FunctionalTable::new("t".to_string());
    table.set(1, 5);
    table.set(2, 6);
    table.set(3, 7);
    table.apply(&|e: Entity, c: &i64| (e as i64) * 100 + *c);
    assert_eq!(*table.get(1), 105);
    assert_eq!(*table.get(2), 206);
    assert_eq!(*table.get(3), 307);
}

#[test]
fn apply_updates_each_entry_exactly_once() {
    let mut table: FunctionalTable<i64> = FunctionalTable::new("t".to_string());
    for e in 0..50usize {
        table.set(e, e as i64);
    }
    table.apply(&|_e: Entity, c: &i64| *c + 1);
    for e in 0..50usize {
        assert_eq!(*table.get(e), e as i64 + 1);
    }
}

#[test]
fn apply_neither_adds_nor_removes_entities() {
    let mut table: FunctionalTable<i64> = FunctionalTable::new("t".to_string());
    table.set(1, 5);
    table.set(5, 9);
    table.apply(&|_e: Entity, _c: &i64| 0);
    assert_eq!(sorted_entries(&table), vec![(1, 0), (5, 0)]);
    assert!(!table.contains(0));
    assert_eq!(table.name(), "t");
}

#[test]
fn apply_on_an_empty_table_does_nothing() {
    let mut table: FunctionalTable<i64> = FunctionalTable::new("t".to_string());
    table.apply(&|_e: Entity, c: &i64| *c + 1);
    assert_eq!(table.iter().count(), 0);
}

#[test]
fn apply_works_on_values_that_cannot_be_copied() {
    let mut table: FunctionalTable<String> = FunctionalTable::new("labels".to_string());
    table.set(1, "a".to_string());
    table.set(2, "b".to_string());
    table.apply(&|e: Entity, c: &String| format!("{}{}", c, e));
    assert_eq!(table.get(1), "a1");
    assert_eq!(table.get(2), "b2");
}
