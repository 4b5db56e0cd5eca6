use pinscrape::ledger::Ledger;

#[test]
fn same_link_twice_is_accepted_once() {
    let mut l = Ledger::new();
    assert!(l.try_accept("https://h/originals/a.jpg".to_string()));
    assert_eq!(l.len(), 1);
    assert!(!l.try_accept("https://h/originals/a.jpg".to_string()));
    assert_eq!(l.len(), 1);
    assert!(l.contains("https://h/originals/a.jpg"));
}

#[test]
fn order_of_acceptance_is_kept() {
    let mut l = Ledger::new();
    assert!(l.try_accept("b".to_string()));
    assert!(l.try_accept("a".to_string()));
    assert!(!l.try_accept("b".to_string()));
    assert!(l.try_accept("c".to_string()));
    assert_eq!(l.into_resources(), vec!["b".to_string(), "a".to_string(), "c".to_string()]);
}

#[test]
fn new_ledger_is_empty() {
    let l = Ledger::new();
    assert_eq!(l.len(), 0);
    assert!(!l.contains("a"));
}
