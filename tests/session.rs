use anon_tags::{AnonError, Ledger};

const NOW: i64 = 1_700_000_000;
const HOUR: i64 = 3600;

fn owner(s: &str) -> String {
    s.to_string()
}

fn rows_of(l: &Ledger, who: &str) -> usize {
    l.records.iter().filter(|r| r.owner == who).count()
}

#[test]
fn end_to_end_rotation_until_the_limit() {
    let u1 = owner("u1");
    let mut l = Ledger::new();
    let t0 = l.generate_tag(&u1, NOW).unwrap();
    assert!(t0 < 10000);
    assert_eq!(rows_of(&l, "u1"), 1);
    let (a, t1) = l.rotate_tag(&u1, NOW + 1).unwrap();
    assert_eq!(a, t0);
    assert_ne!(t1, t0);
    assert_eq!(rows_of(&l, "u1"), 2);
    let (b, t2) = l.rotate_tag(&u1, NOW + 2).unwrap();
    assert_eq!(b, t1);
    let (c, _t3) = l.rotate_tag(&u1, NOW + 3).unwrap();
    assert_eq!(c, t2);
    assert_eq!(rows_of(&l, "u1"), 4);
    assert_eq!(l.rotate_tag(&u1, NOW + 4), Err(AnonError::RetagLimit));
    assert_eq!(rows_of(&l, "u1"), 4);
}

#[test]
fn retag_limit_resets_in_the_next_window() {
    let u1 = owner("u1");
    let mut l = Ledger::new();
    assert_eq!(l.send_tag_with_seed(&u1, NOW, 10), Ok(10));
    assert_eq!(l.rotate_tag_with_seed(&u1, NOW, 10), Ok((10, 11)));
    assert_eq!(l.rotate_tag_with_seed(&u1, NOW, 10), Ok((11, 12)));
    assert_eq!(l.rotate_tag_with_seed(&u1, NOW, 10), Ok((12, 13)));
    assert_eq!(l.rotate_tag_with_seed(&u1, NOW, 10), Err(AnonError::RetagLimit));
    assert_eq!(l.send_tag_with_seed(&u1, NOW + HOUR, 10), Ok(10));
    assert_eq!(l.rotate_tag_with_seed(&u1, NOW + HOUR, 20), Ok((10, 20)));
}

#[test]
fn rotating_without_a_tag_is_refused() {
    let mut l = Ledger::new();
    assert_eq!(l.rotate_tag(&owner("u1"), NOW), Err(AnonError::NoTagToRotate));
    l.generate_tag_with_seed(&owner("u1"), NOW - HOUR, 3).unwrap();
    assert_eq!(l.rotate_tag_with_seed(&owner("u1"), NOW, 3), Err(AnonError::NoTagToRotate));
    assert_eq!(l.records.len(), 1);
}

#[test]
fn rotating_into_a_full_range_is_exhausted() {
    let mut l = Ledger::new();
    assert_eq!(l.send_tag_with_seed(&owner("u1"), NOW, 9998), Ok(9998));
    assert_eq!(l.send_tag_with_seed(&owner("u2"), NOW, 9999), Ok(9999));
    assert_eq!(l.rotate_tag_with_seed(&owner("u1"), NOW, 9998), Err(AnonError::Exhausted));
    assert_eq!(l.records.len(), 2);
}

#[test]
fn sending_reuses_the_current_tag() {
    let mut l = Ledger::new();
    let t = l.send_tag(&owner("u1"), NOW).unwrap();
    assert_eq!(l.send_tag(&owner("u1"), NOW + 100), Ok(t));
    assert_eq!(l.send_tag_with_seed(&owner("u1"), NOW + 200, 5000), Ok(t));
    assert_eq!(l.records.len(), 1);
}

#[test]
fn errors_carry_their_user_text() {
    assert_eq!(
        AnonError::Exhausted.to_user_error().message(),
        "No more anonymous tags available! Please wait until the next hour."
    );
    assert_eq!(
        AnonError::RetagLimit.to_user_error().0,
        "You have already retagged the maximum of 3 times this hour! Please wait until the next hour."
    );
    assert_eq!(
        AnonError::NoTagToRotate.to_user_error().0,
        "You don't have a tag to reset! Send an anonymous message with /anon first."
    );
    assert_eq!(AnonError::Internal.to_user_error().0, "Oh no! Error encountered :(");
    assert_eq!(
        AnonError::DeliveryFailed.to_user_error().0,
        "Could not send webhook. Please try again later or contact a moderator."
    );
}

#[test]
fn rotation_within_the_limit_fails_only_when_exhausted() {
    let mut l = Ledger::new();
    assert_eq!(l.send_tag_with_seed(&owner("u1"), NOW, 9999), Ok(9999));
    assert_eq!(l.rotate_tag_with_seed(&owner("u1"), NOW, 9999), Err(AnonError::Exhausted));
    assert_eq!(l.rotate_tag_with_seed(&owner("u1"), NOW, 0), Ok((9999, 0)));
}
