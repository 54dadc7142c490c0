//! The global chat service handler: a short sub-handshake, then a loop that
//! either takes the next packet or lends the connection out.
use vstd::prelude::*;

use crate::connection::{Connection, ConnectionView};
use crate::messages::ProtocolError;

verus! {

/// What the handler's loop has just seen.
#[derive(Debug, PartialEq, Eq, Structural, Clone, Copy)]
pub enum ChatEvent {
    /// The client registered the chat service.
    Register,
    /// Any other packet.
    Packet,
    /// A borrow request is waiting.
    BorrowPending,
}

/// What the handler's loop does next.
#[derive(Debug, PartialEq, Eq, Structural, Clone, Copy)]
pub enum ChatAction {
    /// Wait for the next packet or borrow request.
    Wait,
    /// Lend the handler to the waiting borrow request.
    Lend,
}

/// The chat service's acknowledgement bytes for a service of the given kind,
/// world and channel.
pub open spec fn chat_ack(service: u8, world: u8, channel: u8) -> Seq<u8> {
    seq![
        0xffu8, 0xff, 0xff, 0x7f, 0, 0xff, 0, 0xff,
        service, 0, 0, 0, 0,
        world, channel, 0, 0, 0, 0, 0x1,
    ]
}

/// Handler of the global chat service on one connection.
pub struct GlobalChatHandler {
    conn: Connection,
    registered: bool,
}

impl GlobalChatHandler {
    /// Whether the client has registered the service.
    pub closed spec fn spec_registered(&self) -> bool {
        self.registered
    }

    /// The connection served.
    pub closed spec fn conn_view(&self) -> ConnectionView {
        self.conn@
    }

    /// Takes over a connection; the client has not registered yet.
    pub fn new(conn: Connection) -> (r: Self)
        ensures
            r.conn_view() == conn@,
            !r.spec_registered(),
    {
        GlobalChatHandler { conn, registered: false }
    }

    /// The connection served.
    pub fn connection(&self) -> (r: &Connection)
        ensures
            r@ == self.conn_view(),
    {
        &self.conn
    }

    /// Whether the client has registered the service.
    pub fn is_registered(&self) -> (r: bool)
        ensures
            r == self.spec_registered(),
    {
        self.registered
    }

    /// The acknowledgement that opens the service.
    pub fn greeting(service: u8, world: u8, channel: u8) -> (r: Vec<u8>)
        ensures
            r@ == chat_ack(service, world, channel),
    {
        let r = vec![
            0xff, 0xff, 0xff, 0x7f, 0, 0xff, 0, 0xff,
            service, 0, 0, 0, 0,
            world, channel, 0, 0, 0, 0, 0x1,
        ];
        assert(r@ =~= chat_ack(service, world, channel));
        r
    }

    /// One turn of the handler: the first packet must register the
    /// service; afterwards packets are taken and borrow requests lent to.
    /// A refused turn changes nothing.
    pub fn handle(&mut self, ev: ChatEvent) -> (r: Result<ChatAction, ProtocolError>)
        ensures
            final(self).conn_view() == old(self).conn_view(),
            !old(self).spec_registered() ==> if ev == ChatEvent::Register {
                r == Ok::<ChatAction, ProtocolError>(ChatAction::Wait)
                    && final(self).spec_registered()
            } else {
                r == Err::<ChatAction, ProtocolError>(ProtocolError::UnexpectedMessage)
                    && !final(self).spec_registered()
            },
            old(self).spec_registered() ==> final(self).spec_registered() && r == Ok::<
                ChatAction,
                ProtocolError,
            >(if ev == ChatEvent::BorrowPending {
                ChatAction::Lend
            } else {
                ChatAction::Wait
            }),
    {
        if !self.registered {
            if ev == ChatEvent::Register {
                self.registered = true;
                return Ok(ChatAction::Wait);
            }
            return Err(ProtocolError::UnexpectedMessage);
        }
        if ev == ChatEvent::BorrowPending {
            Ok(ChatAction::Lend)
        } else {
            Ok(ChatAction::Wait)
        }
    }
}

} // verus!
