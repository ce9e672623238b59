//! The key under which the data of a user in a guild is stored.

use vstd::prelude::*;

verus! {

/// A user in a guild, as the store keys them: both ids as signed 64-bit
/// numbers, which is how the store holds the unsigned ids of the platform.
#[derive(Clone, Copy, Debug, PartialEq, Eq, Structural)]
pub struct UserKey {
    pub guild: i64,
    pub user: i64,
}

/// The signed number that the store holds for an id: the same 64 bits read
/// as a signed number.
pub open spec fn stored_id(id: u64) -> i64 {
    if id <= i64::MAX {
        id as i64
    } else {
        (id - 0x1_0000_0000_0000_0000) as i64
    }
}

/// The id that a stored number stands for: the same 64 bits read as an
/// unsigned number.
pub open spec fn id_of(stored: i64) -> u64 {
    if stored >= 0 {
        stored as u64
    } else {
        (stored + 0x1_0000_0000_0000_0000) as u64
    }
}

/// Storing an id and reading it back gives the id, and the other way round.
pub proof fn lemma_stored_id_round_trip(id: u64, stored: i64)
    ensures
        id_of(stored_id(id)) == id,
        stored_id(id_of(stored)) == stored,
{
}

/// The signed number that the store holds for an id.
pub fn to_stored(id: u64) -> (stored: i64)
    ensures
        stored == stored_id(id),
{
    if id <= 0x7fff_ffff_ffff_ffff {
        id as i64
    } else {
        -((u64::MAX - id) as i64) - 1
    }
}

/// The id that a stored number stands for.
pub fn from_stored(stored: i64) -> (id: u64)
    ensures
        id == id_of(stored),
{
    if stored >= 0 {
        stored as u64
    } else {
        u64::MAX - ((-(stored + 1)) as u64)
    }
}

impl Default for UserKey {
    fn default() -> (key: Self)
        ensures
            key == (UserKey { guild: 0, user: 0 }),
    {
        UserKey { guild: 0, user: 0 }
    }
}

impl UserKey {
    /// The key of a user in a guild, from their ids.
    pub fn new(user: u64, guild: u64) -> (key: Self)
        ensures
            key.user == stored_id(user),
            key.guild == stored_id(guild),
    {
        UserKey { guild: to_stored(guild), user: to_stored(user) }
    }

    /// The id of the user.
    pub fn user_id(&self) -> (id: u64)
        ensures
            id == id_of(self.user),
    {
        from_stored(self.user)
    }

    /// The id of the guild.
    pub fn guild_id(&self) -> (id: u64)
        ensures
            id == id_of(self.guild),
    {
        from_stored(self.guild)
    }
}

} // verus!
