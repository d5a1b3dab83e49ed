//! The handler of the bot's gateway events, and what it decides itself.
use vstd::prelude::*;

verus! {

/// The handler of the bot's gateway events.
#[derive(Debug, Copy, Clone)]
pub struct BurdBotEventHandler;

/// How many members of a server are not in the cache yet; those servers are
/// asked for their members in chunks until none is missing.
pub fn unknown_member_count(member_count: u64, cached_members: usize) -> (r: u64)
    requires
        cached_members <= member_count,
    ensures
        r == member_count - cached_members,
{
    member_count - cached_members as u64
}

} // verus!
