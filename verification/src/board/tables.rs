//! The board's tables, each held in an `EnumMap`.

use crate::board::state::CastlingRights;
use crate::common::types::Piece;
use enum_map::EnumMap;
use vstd::prelude::*;

verus! {

/// Sets of squares, one for each key, as bits.
#[verifier::external_body]
pub struct SetTable {
    map: EnumMap<u8, u64>,
}

/// What a `SetTable` holds for each key.
pub uninterp spec fn sets_in(table: SetTable) -> Map<u8, u64>;

impl Copy for SetTable {

}

impl Clone for SetTable {
    fn clone(&self) -> (r: SetTable)
        ensures
            r == *self,
    {
        *self
    }
}

impl SetTable {
    /// Calls `EnumMap::default`, which gives every key the default of its
    /// value's type: no bits.
    #[verifier::external_body]
    pub(crate) fn new() -> (r: SetTable)
        ensures
            forall|key: u8| #[trigger] sets_in(r)[key] == 0,
    {
        SetTable { map: EnumMap::default() }
    }

    /// Calls `EnumMap::index`, which gives the value of the key.
    #[verifier::external_body]
    pub(crate) fn get(&self, key: u8) -> (r: u64)
        ensures
            r == sets_in(*self)[key],
    {
        self.map[key]
    }

    /// Calls `EnumMap::index_mut` and stores through it: the key has the new
    /// value, every other key keeps its own.
    #[verifier::external_body]
    pub(crate) fn set(&mut self, key: u8, value: u64)
        ensures
            sets_in(*final(self)) == sets_in(*old(self)).insert(key, value),
    {
        self.map[key] = value;
    }
}

/// The piece on each square, by the square's number.
#[verifier::external_body]
pub struct Mailbox {
    map: EnumMap<u8, Option<Piece>>,
}

/// What a `Mailbox` holds for each key.
pub uninterp spec fn pieces_in(mailbox: Mailbox) -> Map<u8, Option<Piece>>;

impl Copy for Mailbox {

}

impl Clone for Mailbox {
    fn clone(&self) -> (r: Mailbox)
        ensures
            r == *self,
    {
        *self
    }
}

impl Mailbox {
    /// Calls `EnumMap::default`, which gives every key the default of its
    /// value's type: no piece.
    #[verifier::external_body]
    pub(crate) fn new() -> (r: Mailbox)
        ensures
            forall|key: u8| #[trigger] pieces_in(r)[key] is None,
    {
        Mailbox { map: EnumMap::default() }
    }

    /// Calls `EnumMap::index`, which gives the value of the key.
    #[verifier::external_body]
    pub(crate) fn get(&self, key: u8) -> (r: Option<Piece>)
        ensures
            r == pieces_in(*self)[key],
    {
        self.map[key]
    }

    /// Calls `EnumMap::index_mut` and stores through it: the key has the new
    /// value, every other key keeps its own.
    #[verifier::external_body]
    pub(crate) fn set(&mut self, key: u8, value: Option<Piece>)
        ensures
            pieces_in(*final(self)) == pieces_in(*old(self)).insert(key, value),
    {
        self.map[key] = value;
    }
}

/// Each side's rights to castle. White has the key `true`.
#[verifier::external_body]
pub struct RightsTable {
    map: EnumMap<bool, CastlingRights>,
}

/// What a `RightsTable` holds for each key.
pub uninterp spec fn rights_in(table: RightsTable) -> Map<bool, CastlingRights>;

impl Copy for RightsTable {

}

impl Clone for RightsTable {
    fn clone(&self) -> (r: RightsTable)
        ensures
            r == *self,
    {
        *self
    }
}

impl RightsTable {
    /// Calls `EnumMap::from_array`, which stores the array as it is: the first
    /// element is the value of `false`, the second that of `true`.
    #[verifier::external_body]
    pub(crate) fn new(black: CastlingRights, white: CastlingRights) -> (r: RightsTable)
        ensures
            rights_in(r)[false] == black,
            rights_in(r)[true] == white,
    {
        RightsTable { map: EnumMap::from_array([black, white]) }
    }

    /// Calls `EnumMap::index`, which gives the value of the key.
    #[verifier::external_body]
    pub(crate) fn get(&self, key: bool) -> (r: CastlingRights)
        ensures
            r == rights_in(*self)[key],
    {
        self.map[key]
    }

    /// Calls `EnumMap::index_mut` and stores through it: the key has the new
    /// value, every other key keeps its own.
    #[verifier::external_body]
    pub(crate) fn set(&mut self, key: bool, value: CastlingRights)
        ensures
            rights_in(*final(self)) == rights_in(*old(self)).insert(key, value),
    {
        self.map[key] = value;
    }
}

} // verus!
