use vstd::prelude::*;

use crate::error::AnonError;
use crate::ledger::TAG_SPACE;

verus! {

/// Most user or role mentions one anonymous message may hold.
pub const MAX_MENTIONS: usize = 8;

/// Longest anonymous message, in bytes.
pub const MAX_MESSAGE_BYTES: usize = 2000;

/// A user or role mention: `<@id>`, `<@!id>` or `<@&id>`.
pub open spec fn mention_pattern() -> Seq<char> {
    "<@[&!]?(\\d+)>"@
}

/// Number of non-overlapping matches of the regular expression `pattern` in
/// `text`, or `None` if `pattern` does not compile.
pub uninterp spec fn regex_match_count(pattern: Seq<char>, text: Seq<char>) -> Option<usize>;

/// Relies on regex's `Regex::new` and `Regex::find_iter`: compiles `pattern`
/// and counts the non-overlapping matches in `text`.
#[verifier::external_body]
fn count_matches(pattern: &str, text: &str) -> (r: Option<usize>)
    ensures
        r == regex_match_count(pattern@, text@),
{
    match regex::Regex::new(pattern) {
        Ok(re) => Some(re.find_iter(text).count()),
        Err(_) => None,
    }
}

/// The verdict on a message with `mentions` mentions and `bytes` bytes.
pub open spec fn limits_verdict(mentions: int, bytes: int) -> Result<(), AnonError> {
    if mentions > MAX_MENTIONS {
        Err(AnonError::TooManyMentions)
    } else if bytes > MAX_MESSAGE_BYTES {
        Err(AnonError::MessageTooLong(bytes as usize))
    } else {
        Ok(())
    }
}

/// Rejects a message with too many mentions, then one that is too long.
pub fn check_limits(mentions: usize, bytes: usize) -> (r: Result<(), AnonError>)
    ensures
        r == limits_verdict(mentions as int, bytes as int),
{
    if mentions > MAX_MENTIONS {
        Err(AnonError::TooManyMentions)
    } else if bytes > MAX_MESSAGE_BYTES {
        Err(AnonError::MessageTooLong(bytes))
    } else {
        Ok(())
    }
}

/// Checks a message against the mention and length limits.
pub fn check_message(message: &str) -> (r: Result<(), AnonError>)
    ensures
        r == match regex_match_count(mention_pattern(), message@) {
            Some(n) => limits_verdict(n as int, message.len() as int),
            None => Err(AnonError::Internal),
        },
{
    let pattern = "<@[&!]?(\\d+)>";
    proof {
        reveal_strlit("<@[&!]?(\\d+)>");
        assert(pattern@ == mention_pattern());
    }
    match count_matches(pattern, message) {
        Some(n) => check_limits(n, message.len()),
        None => Err(AnonError::Internal),
    }
}

pub open spec fn digit_chars() -> Seq<char> {
    "0123456789"@
}

/// `n` in decimal, without leading zeros.
pub open spec fn decimal(n: nat) -> Seq<char>
    decreases n,
{
    if n < 10 {
        seq![digit_chars()[n as int]]
    } else {
        decimal(n / 10) + seq![digit_chars()[(n % 10) as int]]
    }
}

/// `t` as four decimal digits, with leading zeros.
pub open spec fn padded_tag(t: nat) -> Seq<char> {
    seq![
        digit_chars()[((t / 1000) % 10) as int],
        digit_chars()[((t / 100) % 10) as int],
        digit_chars()[((t / 10) % 10) as int],
        digit_chars()[(t % 10) as int],
    ]
}

pub open spec fn display_name_text(t: nat) -> Seq<char> {
    "Anonymous#"@ + padded_tag(t)
}

pub open spec fn avatar_url_text(t: nat) -> Seq<char> {
    "https://i.pickadummy.com/index.php?imgsize=128&w=5994a6&contrast=1&cache="@ + decimal(t)
}

fn digit_str(d: usize) -> (r: &'static str)
    requires
        d < 10,
    ensures
        r@ == seq![digit_chars()[d as int]],
{
    proof {
        reveal_strlit("0123456789");
        reveal_strlit("0");
        reveal_strlit("1");
        reveal_strlit("2");
        reveal_strlit("3");
        reveal_strlit("4");
        reveal_strlit("5");
        reveal_strlit("6");
        reveal_strlit("7");
        reveal_strlit("8");
        reveal_strlit("9");
    }
    let r = match d {
        0 => "0",
        1 => "1",
        2 => "2",
        3 => "3",
        4 => "4",
        5 => "5",
        6 => "6",
        7 => "7",
        8 => "8",
        _ => "9",
    };
    proof {
        assert(r@ =~= seq![digit_chars()[d as int]]);
    }
    r
}

/// Appends `n` in decimal to `s`.
pub(crate) fn append_decimal(s: &mut String, n: usize)
    ensures
        final(s)@ == old(s)@ + decimal(n as nat),
    decreases n,
{
    if n < 10 {
        s.append(digit_str(n));
    } else {
        append_decimal(s, n / 10);
        s.append(digit_str(n % 10));
        proof {
            assert(final(s)@ =~= old(s)@ + decimal(n as nat));
        }
    }
}

/// The name an anonymous message is shown under: `Anonymous#` and the tag
/// as four digits.
pub fn display_name(tag: u32) -> (r: String)
    requires
        tag < TAG_SPACE,
    ensures
        r@ == display_name_text(tag as nat),
{
    let mut s = "Anonymous#".to_owned();
    let t = tag as usize;
    s.append(digit_str((t / 1000) % 10));
    s.append(digit_str((t / 100) % 10));
    s.append(digit_str((t / 10) % 10));
    s.append(digit_str(t % 10));
    proof {
        assert(s@ =~= display_name_text(tag as nat));
    }
    s
}

/// The avatar shown with an anonymous message: the same for the same tag.
pub fn avatar_url(tag: u32) -> (r: String)
    ensures
        r@ == avatar_url_text(tag as nat),
{
    let mut s = "https://i.pickadummy.com/index.php?imgsize=128&w=5994a6&contrast=1&cache=".to_owned();
    append_decimal(&mut s, tag as usize);
    s
}

} // verus!
