use sbom_insight::frequency::{Entry, FrequencyTable};

fn entry(key: &str, count: usize) -> Entry {
    Entry { key: key.to_string(), count }
}

fn strings(texts: &[&str]) -> Vec<String> {
    texts.iter().map(|t| t.to_string()).collect()
}

#[test]
fn a_new_table_is_empty() {
    let table = FrequencyTable::new();
    assert_eq!(table.len(), 0);
    assert_eq!(table.get("x"), 0);
    assert!(table.entries().is_empty());
}

#[test]
fn increment_counts_each_key() {
    let mut table = FrequencyTable::new();
    assert!(table.increment("b".to_string()));
    assert!(table.increment("a".to_string()));
    assert!(table.increment("b".to_string()));
    assert_eq!(table.get("a"), 1);
    assert_eq!(table.get("b"), 2);
    assert_eq!(table.get("c"), 0);
    assert_eq!(table.len(), 2);
}

#[test]
fn entries_come_in_the_order_of_their_keys() {
    let mut table = FrequencyTable::new();
    for key in ["m", "z", "a", "m", "NO-CPE", "b", "a", "m"] {
        assert!(table.increment(key.to_string()));
    }
    assert_eq!(
        table.entries(),
        &vec![entry("NO-CPE", 1), entry("a", 2), entry("b", 1), entry("m", 3), entry("z", 1)]
    );
    assert_eq!(
        table.into_entries(),
        vec![entry("NO-CPE", 1), entry("a", 2), entry("b", 1), entry("m", 3), entry("z", 1)]
    );
}

#[test]
fn from_entries_takes_rising_keys() {
    let table = FrequencyTable::from_entries(vec![entry("a", 3), entry("b", 1)]).unwrap();
    assert_eq!(table.get("a"), 3);
    assert_eq!(table.get("b"), 1);
    assert_eq!(table.len(), 2);
    assert!(FrequencyTable::from_entries(Vec::new()).is_some());
    assert!(FrequencyTable::from_entries(vec![entry("only", 0)]).is_some());
}

#[test]
fn from_entries_refuses_keys_out_of_order_or_repeated() {
    assert!(FrequencyTable::from_entries(vec![entry("b", 1), entry("a", 1)]).is_none());
    assert!(FrequencyTable::from_entries(vec![entry("a", 1), entry("a", 1)]).is_none());
    assert!(FrequencyTable::from_entries(vec![entry("a", 1), entry("c", 1), entry("b", 1)]).is_none());
}

#[test]
fn a_count_at_the_largest_number_is_not_raised() {
    let mut table =
        FrequencyTable::from_entries(vec![entry("full", usize::MAX), entry("other", 1)]).unwrap();
    assert!(!table.increment("full".to_string()));
    assert_eq!(table.get("full"), usize::MAX);
    assert_eq!(table.get("other"), 1);
    assert!(table.increment("other".to_string()));
    assert_eq!(table.get("other"), 2);
}

#[test]
fn record_all_counts_every_key() {
    let mut table = FrequencyTable::new();
    assert_eq!(table.record_all(&strings(&["x", "y", "x", "x"])), Ok(()));
    assert_eq!(table.entries(), &vec![entry("x", 3), entry("y", 1)]);
    assert_eq!(table.record_all(&Vec::new()), Ok(()));
    assert_eq!(table.entries(), &vec![entry("x", 3), entry("y", 1)]);
}

#[test]
fn record_all_stops_at_the_first_key_that_is_full() {
    let mut table =
        FrequencyTable::from_entries(vec![entry("b", usize::MAX - 1), entry("c", 5)]).unwrap();
    let error = table.record_all(&strings(&["a", "b", "c", "b", "c", "a"])).unwrap_err();
    assert_eq!(error.key, "b");
    assert_eq!(table.entries(), &vec![entry("a", 1), entry("b", usize::MAX), entry("c", 6)]);
}
