//! Base direction of text.

use crate::text::str_equal;
use core::cmp::Ordering;
use vstd::prelude::*;
use vstd::std_specs::cmp::PartialOrdSpecImpl;
use vstd::std_specs::convert::TryFromSpecImpl;

verus! {

/// The base direction of a node's text content. Left to right comes before
/// right to left.
#[derive(Clone, Copy, Debug, PartialEq, Eq, Structural, Ord, Hash)]
pub enum Direction {
    /// Left to right, written `ltr`.
    Ltr,
    /// Right to left, written `rtl`.
    Rtl,
}

impl Direction {
    /// The token that stands for a direction.
    pub open spec fn token(self) -> Seq<char> {
        match self {
            Direction::Ltr => "ltr"@,
            Direction::Rtl => "rtl"@,
        }
    }

    /// The direction that a token stands for, if any. Tokens are matched
    /// exactly: no trimming, no case folding.
    pub open spec fn from_token(token: Seq<char>) -> Option<Direction> {
        if token == "ltr"@ {
            Some(Direction::Ltr)
        } else if token == "rtl"@ {
            Some(Direction::Rtl)
        } else {
            None
        }
    }

    /// The digest of a direction.
    pub open spec fn digest_of(self) -> u64 {
        match self {
            Direction::Ltr => 1,
            Direction::Rtl => 2,
        }
    }

    /// A digest of the direction.
    pub fn digest(&self) -> (digest: u64)
        ensures
            digest == self.digest_of(),
    {
        match self {
            Direction::Ltr => 1,
            Direction::Rtl => 2,
        }
    }

    /// What `parse` returns on a token: the direction, or the token itself
    /// where it stands for none.
    pub open spec fn parsed<'a>(token: &'a str) -> Result<Direction, &'a str> {
        match Direction::from_token(token@) {
            Some(direction) => Ok(direction),
            None => Err(token),
        }
    }

    /// Reads a direction from its token and hands back the token when it is
    /// not one of the two.
    pub fn parse<'a>(token: &'a str) -> (result: Result<Direction, &'a str>)
        ensures
            result == Direction::parsed(token),
    {
        if str_equal(token, "ltr") {
            Ok(Direction::Ltr)
        } else if str_equal(token, "rtl") {
            Ok(Direction::Rtl)
        } else {
            Err(token)
        }
    }

    /// The token of this direction.
    pub fn render(&self) -> (token: &'static str)
        ensures
            token@ == self.token(),
    {
        match self {
            Direction::Ltr => "ltr",
            Direction::Rtl => "rtl",
        }
    }

    /// The two tokens differ, so each direction is read back from its own
    /// token, and a token that is read as a direction is that direction's.
    pub proof fn lemma_round_trip(direction: Direction, token: Seq<char>)
        ensures
            Direction::from_token(direction.token()) == Some(direction),
            Direction::from_token(token) == Some(direction) ==> direction.token() == token,
            token != "ltr"@ && token != "rtl"@ ==> Direction::from_token(token) is None,
    {
        reveal_strlit("ltr");
        reveal_strlit("rtl");
        assert("ltr"@[0] != "rtl"@[0]);
    }
}

impl PartialOrd for Direction {
    fn partial_cmp(&self, other: &Self) -> (order: Option<Ordering>) {
        match (self, other) {
            (Direction::Ltr, Direction::Rtl) => Some(Ordering::Less),
            (Direction::Rtl, Direction::Ltr) => Some(Ordering::Greater),
            _ => Some(Ordering::Equal),
        }
    }
}

impl PartialOrdSpecImpl for Direction {
    open spec fn obeys_partial_cmp_spec() -> bool {
        true
    }

    open spec fn partial_cmp_spec(&self, other: &Self) -> Option<Ordering> {
        match (self, other) {
            (Direction::Ltr, Direction::Rtl) => Some(Ordering::Less),
            (Direction::Rtl, Direction::Ltr) => Some(Ordering::Greater),
            _ => Some(Ordering::Equal),
        }
    }
}

impl<'a> TryFrom<&'a str> for Direction {
    type Error = &'a str;

    fn try_from(token: &'a str) -> (result: Result<Direction, &'a str>) {
        Direction::parse(token)
    }
}

impl<'a> TryFromSpecImpl<&'a str> for Direction {
    open spec fn obeys_try_from_spec() -> bool {
        true
    }

    open spec fn try_from_spec(token: &'a str) -> Result<Direction, &'a str> {
        Direction::parsed(token)
    }
}

} // verus!
