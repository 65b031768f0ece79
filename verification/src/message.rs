use vstd::prelude::*;
use crate::remote::{RemoteAddr, handle_cloned, clone_handle};
use crate::addr_repr::AddrRepresentation;

verus! {

/// A message on its way to a remote actor: where it goes, its serialized body,
/// the name of its type, the interface it came in through, and the conversation
/// it answers (a 128-bit id), if any.
#[derive(Debug)]
pub struct RemoteWrapper<N> {
    pub destination: RemoteAddr<N>,
    pub message_buffer: Vec<u8>,
    pub identifier: String,
    pub source: Option<N>,
    pub conversation_id: Option<u128>,
}

impl<N> RemoteWrapper<N> {
    /// A message to `destination` with an already serialized body; it has not
    /// come in through any interface.
    pub fn new(
        destination: RemoteAddr<N>,
        message_buffer: Vec<u8>,
        identifier: String,
        conversation_id: Option<u128>,
    ) -> (r: RemoteWrapper<N>)
        ensures
            r.destination == destination,
            r.message_buffer == message_buffer,
            r.identifier == identifier,
            r.source is None,
            r.conversation_id == conversation_id,
    {
        RemoteWrapper { destination, message_buffer, identifier, source: None, conversation_id }
    }
}

impl<N: Clone> Clone for RemoteWrapper<N> {
    fn clone(&self) -> (r: Self)
        ensures
            r.destination.node.socket_addr == self.destination.node.socket_addr,
            AddrRepresentation::parsed_from(self.destination.id.text(), r.destination.id),
            r.message_buffer@ == self.message_buffer@,
            r.identifier@ == self.identifier@,
            handle_cloned(self.source, r.source),
            r.conversation_id == self.conversation_id,
    {
        RemoteWrapper {
            destination: self.destination.clone(),
            message_buffer: self.message_buffer.clone(),
            identifier: self.identifier.clone(),
            source: clone_handle(&self.source),
            conversation_id: self.conversation_id,
        }
    }
}

/// What travels between two nodes: the handshake (a request carrying the
/// sender's listening port and whether the receiver is its seed, and the
/// answer), a message for a remote actor, or the refusal of a connection.
#[derive(Debug)]
pub enum ClusterMessage<N> {
    Request(u16, bool),
    Response,
    Message(RemoteWrapper<N>),
    Decline,
}

impl<N> ClusterMessage<N> {
    /// Whether the message opens a stream, so that the greeting goes before it.
    pub fn needs_prefix(&self) -> (r: bool)
        ensures
            r == (self is Request || self is Response),
    {
        match self {
            ClusterMessage::Request(_, _) => true,
            ClusterMessage::Response => true,
            _ => false,
        }
    }

    /// The serialized body of a message for a remote actor.
    pub fn message_buffer(&self) -> (r: &[u8])
        requires
            self is Message,
        ensures
            r@ == self->Message_0.message_buffer@,
    {
        match self {
            ClusterMessage::Message(wrapper) => wrapper.message_buffer.as_slice(),
            _ => &[],
        }
    }

    /// Puts the body that travelled after the header into the message.
    pub fn set_buffer(&mut self, bytes: Vec<u8>)
        requires
            *old(self) is Message,
        ensures
            *final(self) is Message,
            final(self)->Message_0.message_buffer == bytes,
            final(self)->Message_0.destination == old(self)->Message_0.destination,
            final(self)->Message_0.identifier == old(self)->Message_0.identifier,
            final(self)->Message_0.source == old(self)->Message_0.source,
            final(self)->Message_0.conversation_id == old(self)->Message_0.conversation_id,
    {
        match self {
            ClusterMessage::Message(wrapper) => {
                wrapper.message_buffer = bytes;
            },
            _ => {},
        }
    }
}

} // verus!
