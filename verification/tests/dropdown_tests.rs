use typastry::dropdown::{Dropdown, DropdownEvent};

#[test]
fn closing_without_a_choice_reverts() {
    let mut d = Dropdown::new("Inter".to_string(), false);
    assert_eq!(d.step(DropdownEvent::Opened), None);
    assert!(d.open);
    assert_eq!(d.original.as_deref(), Some("Inter"));
    assert_eq!(d.step(DropdownEvent::Closed), Some("Inter".to_string()));
    assert!(!d.open);
    assert_eq!(d.current, "Inter");
    assert_eq!(d.original, None);
    assert_eq!(d.step(DropdownEvent::Closed), None);
}

#[test]
fn a_committing_choice_is_kept() {
    let mut d = Dropdown::new("11".to_string(), true);
    d.step(DropdownEvent::Opened);
    assert_eq!(d.step(DropdownEvent::Chosen("14".to_string())), Some("14".to_string()));
    assert_eq!(d.current, "14");
    assert!(!d.open);
    assert_eq!(d.step(DropdownEvent::Closed), None);
    assert_eq!(d.current, "14");
}

#[test]
fn a_family_choice_keeps_the_value_to_go_back_to() {
    let mut d = Dropdown::new("Inter".to_string(), false);
    d.step(DropdownEvent::Opened);
    assert_eq!(d.step(DropdownEvent::Chosen("Arial".to_string())), Some("Arial".to_string()));
    assert_eq!(d.current, "Arial");
    assert_eq!(d.original.as_deref(), Some("Inter"));
}
