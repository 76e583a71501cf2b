//! The two access gates in front of the commands: the guild allow-list
//! (a single configured guild) and the administrative password.

use vstd::prelude::*;

verus! {

/// Whether a command issued from `guild_id` may run: only the one
/// configured guild is allowed.
pub fn guild_authorized(guild_id: u64, allowed_guild: u64) -> (r: bool)
    ensures
        r == (guild_id == allowed_guild),
{
    guild_id == allowed_guild
}

/// Whether the entered administrative password matches the configured one.
pub fn password_accepted(input: &String, expected: &String) -> (r: bool)
    ensures
        r == (input@ == expected@),
{
    *input == *expected
}

} // verus!
