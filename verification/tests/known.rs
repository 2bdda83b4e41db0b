use gossip_nodes::known::KnownTable;
use std::collections::HashSet;

fn names(all: &[&str]) -> Vec<String> {
    all.iter().map(|s| s.to_string()).collect()
}

fn set(values: &[u64]) -> HashSet<u64> {
    values.iter().copied().collect()
}

#[test]
fn known_table_starts_with_an_empty_entry_per_member() {
    let table = KnownTable::new(&names(&["n1", "n2", "n3"]));
    for member in ["n1", "n2", "n3"] {
        assert!(table.contains(&member.to_string()));
        assert_eq!(table.get(&member.to_string()), Some(&set(&[])));
    }
    assert!(!table.contains(&"n4".to_string()));
    assert_eq!(table.get(&"n4".to_string()), None);
    assert_eq!(table.get(&"".to_string()), None);
}

#[test]
fn known_table_takes_a_member_named_twice_once() {
    let mut table = KnownTable::new(&names(&["n1", "n2", "n1"]));
    assert!(table.record(&"n1".to_string(), &set(&[4])));
    assert_eq!(table.get(&"n1".to_string()), Some(&set(&[4])));
    assert_eq!(table.get(&"n2".to_string()), Some(&set(&[])));
}

#[test]
fn known_table_of_no_members_knows_nobody() {
    let mut table = KnownTable::new(&names(&[]));
    assert!(!table.contains(&"n1".to_string()));
    assert!(!table.record(&"n1".to_string(), &set(&[1])));
    assert_eq!(table.get(&"n1".to_string()), None);
}

#[test]
fn known_table_records_grow_one_entry_only() {
    let mut table = KnownTable::new(&names(&["n1", "n2"]));
    assert!(table.record(&"n2".to_string(), &set(&[5, 6])));
    assert!(table.record(&"n2".to_string(), &set(&[6, 7])));
    assert_eq!(table.get(&"n2".to_string()), Some(&set(&[5, 6, 7])));
    assert_eq!(table.get(&"n1".to_string()), Some(&set(&[])));
}

#[test]
fn known_table_refuses_a_stranger_and_stays_as_it_was() {
    let mut table = KnownTable::new(&names(&["n1", "n2"]));
    assert!(table.record(&"n1".to_string(), &set(&[1])));
    assert!(!table.record(&"n9".to_string(), &set(&[2])));
    assert!(!table.contains(&"n9".to_string()));
    assert_eq!(table.get(&"n1".to_string()), Some(&set(&[1])));
    assert_eq!(table.get(&"n2".to_string()), Some(&set(&[])));
}
