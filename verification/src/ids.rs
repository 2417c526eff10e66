//! Identifiers of Wikibase entities.
use vstd::prelude::*;

pub mod consts;

verus! {

/// An item identifier, such as `Q42`.
#[derive(Debug, Clone, Copy, PartialEq, Eq, Hash, PartialOrd, Ord, Structural)]
pub struct Qid(pub u64);

/// A property identifier, such as `P31`.
#[derive(Debug, Clone, Copy, PartialEq, Eq, Hash, PartialOrd, Ord, Structural)]
pub struct Pid(pub u64);

/// A lexeme identifier, such as `L7`.
#[derive(Debug, Clone, Copy, PartialEq, Eq, Hash, PartialOrd, Ord, Structural)]
pub struct Lid(pub u64);

/// A form of a lexeme, such as `L7-F2`.
#[derive(Debug, Clone, Copy, PartialEq, Eq, Hash, PartialOrd, Ord, Structural)]
pub struct Fid(pub Lid, pub u16);

/// A sense of a lexeme, such as `L7-S2`.
#[derive(Debug, Clone, Copy, PartialEq, Eq, Hash, PartialOrd, Ord, Structural)]
pub struct Sid(pub Lid, pub u16);

} // verus!
