use coordination::roster::Roster;

#[test]
fn first_holder_is_zero() {
    let roster = Roster::first();
    assert!(roster.contains(0));
    assert!(!roster.contains(1));
    assert_eq!(roster.len(), 1);
    assert!(!roster.is_empty());
}

#[test]
fn identities_are_handed_out_in_order() {
    let mut roster = Roster::first();
    assert_eq!(roster.enroll(), 1);
    assert_eq!(roster.enroll(), 2);
    assert_eq!(roster.enroll(), 3);
    assert_eq!(roster.len(), 4);
    for id in 0..4 {
        assert!(roster.contains(id));
    }
    assert!(!roster.contains(4));
}

#[test]
fn an_identity_is_not_handed_out_twice() {
    let mut roster = Roster::first();
    let second = roster.enroll();
    roster.dismiss(second);
    let third = roster.enroll();
    assert_ne!(third, second);
    assert_eq!(third, 2);
    assert!(!roster.contains(second));
    assert!(roster.contains(third));
    assert_eq!(roster.len(), 2);
}

#[test]
fn roster_is_empty_when_the_last_holder_left() {
    let mut roster = Roster::first();
    let second = roster.enroll();
    roster.dismiss(0);
    assert!(!roster.is_empty());
    assert_eq!(roster.len(), 1);
    roster.dismiss(second);
    assert!(roster.is_empty());
    assert_eq!(roster.len(), 0);
    assert!(!roster.contains(0));
    assert!(!roster.contains(second));
}
