use vstd::prelude::*;

verus! {

/// Serializing or deserializing a message failed.
#[derive(Debug, Clone, Copy, PartialEq, Eq, Structural)]
pub struct CustomSerializationError;

impl CustomSerializationError {
    /// The error described in words.
    pub fn message(&self) -> (r: String)
        ensures
            r@ == "An error occurred during the custom (de)serialization"@,
    {
        "An error occurred during the custom (de)serialization".to_owned()
    }
}

/// The default way messages are serialized: FlexBuffers, the schemaless form of
/// FlatBuffers.
#[derive(Debug, Clone, Copy, PartialEq, Eq, Structural)]
pub struct DefaultSerialization {}

/// A message for an actor on this node, without content.
#[derive(Debug, Clone, Copy, PartialEq, Eq, Structural)]
pub struct LocalMessage;

} // verus!
