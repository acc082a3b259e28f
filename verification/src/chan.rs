//! Recognising channel names.
use vstd::prelude::*;
use crate::text::starts_with;

verus! {

/// A channel name begins with one of `#`, `&`, `+` or `!`.
pub open spec fn spec_is_channel_name(s: Seq<char>) -> bool {
    ||| starts_with(s, '#')
    ||| starts_with(s, '&')
    ||| starts_with(s, '+')
    ||| starts_with(s, '!')
}

/// Whether `s` names a channel rather than a user.
pub fn is_channel_name(s: &str) -> (r: bool)
    ensures
        r == spec_is_channel_name(s@),
{
    if s.is_empty() {
        return false;
    }
    let c = s.get_char(0);
    c == '#' || c == '&' || c == '+' || c == '!'
}

} // verus!
