use anon_tags::{avatar_url, check_limits, check_message, display_name, AnonError};

#[test]
fn limits_check_mentions_before_length() {
    assert_eq!(check_limits(8, 2000), Ok(()));
    assert_eq!(check_limits(9, 10), Err(AnonError::TooManyMentions));
    assert_eq!(check_limits(8, 2001), Err(AnonError::MessageTooLong(2001)));
    assert_eq!(check_limits(9, 3000), Err(AnonError::TooManyMentions));
    assert_eq!(check_limits(0, 0), Ok(()));
}

#[test]
fn message_mentions_are_counted() {
    assert_eq!(check_message("hi <@1> <@!2> <@&3>"), Ok(()));
    let eight = "<@1>".repeat(8);
    assert_eq!(check_message(&eight), Ok(()));
    let nine = format!("{eight} and <@!99>");
    assert_eq!(check_message(&nine), Err(AnonError::TooManyMentions));
    let not_mentions = "<@> <@x> <#5> @everyone ".repeat(5);
    assert_eq!(check_message(&not_mentions), Ok(()));
}

#[test]
fn message_length_is_counted_in_bytes() {
    assert_eq!(check_message(&"a".repeat(2000)), Ok(()));
    assert_eq!(check_message(&"a".repeat(2001)), Err(AnonError::MessageTooLong(2001)));
    assert_eq!(check_message(&"é".repeat(1001)), Err(AnonError::MessageTooLong(2002)));
    assert_eq!(check_message(""), Ok(()));
}

#[test]
fn display_name_pads_the_tag() {
    assert_eq!(display_name(42), "Anonymous#0042");
    assert_eq!(display_name(0), "Anonymous#0000");
    assert_eq!(display_name(9999), "Anonymous#9999");
    assert_eq!(display_name(1230), "Anonymous#1230");
}

#[test]
fn avatar_url_depends_on_the_tag_only() {
    assert_eq!(
        avatar_url(42),
        "https://i.pickadummy.com/index.php?imgsize=128&w=5994a6&contrast=1&cache=42"
    );
    assert_eq!(
        avatar_url(0),
        "https://i.pickadummy.com/index.php?imgsize=128&w=5994a6&contrast=1&cache=0"
    );
    assert_eq!(avatar_url(9010), avatar_url(9010));
    assert!(avatar_url(9010).ends_with("cache=9010"));
}

#[test]
fn too_long_text_carries_the_length() {
    let e = check_message(&"a".repeat(2345)).unwrap_err();
    assert_eq!(
        e.to_user_error().0,
        "Message is too long! This could be caused by some mentions. (2345/2000 characters)"
    );
    assert_eq!(
        AnonError::MessageTooLong(0).to_user_error().0,
        "Message is too long! This could be caused by some mentions. (0/2000 characters)"
    );
    assert_eq!(
        AnonError::TooManyMentions.to_user_error().0,
        "Too many mentions! You may send at most 8 role or user mentions in an anonymous message"
    );
}
