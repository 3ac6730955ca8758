use vstd::prelude::*;

use crate::message::{append_decimal, decimal};

verus! {

/// A message meant for the person who issued a command, shown to them verbatim.
pub struct UserError(pub String);

impl UserError {
    /// The text to show.
    pub fn message(&self) -> (r: &String)
        ensures
            r == self.0,
    {
        &self.0
    }
}

/// Why an anonymous-identity operation did not go through.
#[derive(Clone, Copy, Debug, PartialEq, Eq, Structural)]
pub enum AnonError {
    /// Every tag of the current window is taken from the drawn start onward.
    Exhausted,
    /// A rotation was asked for before any tag was held in this window.
    NoTagToRotate,
    /// The owner already rotated the maximum number of times this window.
    RetagLimit,
    /// The message names more users or roles than allowed.
    TooManyMentions,
    /// The message is longer than allowed; it holds this many bytes.
    MessageTooLong(usize),
    /// The message could not be delivered; the claimed tag is kept.
    DeliveryFailed,
    /// Something that should not happen did; details belong in the log.
    Internal,
}

/// The text shown to the user for each error.
pub open spec fn user_text(e: AnonError) -> Seq<char> {
    match e {
        AnonError::Exhausted => "No more anonymous tags available! Please wait until the next hour."@,
        AnonError::NoTagToRotate =>
            "You don't have a tag to reset! Send an anonymous message with /anon first."@,
        AnonError::RetagLimit =>
            "You have already retagged the maximum of 3 times this hour! Please wait until the next hour."@,
        AnonError::TooManyMentions =>
            "Too many mentions! You may send at most 8 role or user mentions in an anonymous message"@,
        AnonError::MessageTooLong(n) => "Message is too long! This could be caused by some mentions. ("@
            + decimal(n as nat) + "/2000 characters)"@,
        AnonError::DeliveryFailed =>
            "Could not send webhook. Please try again later or contact a moderator."@,
        AnonError::Internal => "Oh no! Error encountered :("@,
    }
}

impl AnonError {
    /// The user-facing form of this error.
    pub fn to_user_error(&self) -> (r: UserError)
        ensures
            r.0@ == user_text(*self),
    {
        let text = match self {
            AnonError::Exhausted => "No more anonymous tags available! Please wait until the next hour.",
            AnonError::NoTagToRotate =>
                "You don't have a tag to reset! Send an anonymous message with /anon first.",
            AnonError::RetagLimit =>
                "You have already retagged the maximum of 3 times this hour! Please wait until the next hour.",
            AnonError::TooManyMentions =>
                "Too many mentions! You may send at most 8 role or user mentions in an anonymous message",
            AnonError::MessageTooLong(n) => {
                let mut text = "Message is too long! This could be caused by some mentions. (".to_owned();
                append_decimal(&mut text, *n);
                text.append("/2000 characters)");
                return UserError(text);
            },
            AnonError::DeliveryFailed =>
                "Could not send webhook. Please try again later or contact a moderator.",
            AnonError::Internal => "Oh no! Error encountered :(",
        };
        UserError(text.to_owned())
    }
}

} // verus!
