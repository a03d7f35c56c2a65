use vstd::prelude::*;

verus! {

/// A decentralized identity key, reduced to its stable numeric fingerprint.
#[derive(Clone, Copy, PartialEq, Eq, Structural, Debug)]
pub struct Did(pub u64);

/// A conversation identifier.
#[derive(Clone, Copy, PartialEq, Eq, Structural, Debug)]
pub struct ChatId(pub u64);

/// A message identifier.
#[derive(Clone, Copy, PartialEq, Eq, Structural, Debug)]
pub struct MsgId(pub u64);

/// An OS window handle, reduced to its numeric identifier.
#[derive(Clone, Copy, PartialEq, Eq, Structural, Debug)]
pub struct WindowId(pub u64);

} // verus!
