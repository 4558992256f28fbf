//! The `gnl_foobar_xmpl` family: its name, commands and attributes.

use vstd::prelude::*;
use vstd::utf8::encode_utf8;

use crate::attr::{attrs_view, Attribute};
use crate::engine::{seq_after, Connection};
use crate::error::NlError;
use crate::frame::{message_bytes, message_encodable, MessageModel, NLM_F_DUMP, NLM_F_REQUEST};

verus! {

/// Name under which the kernel module registers the family.
pub const FAMILY_NAME: &'static str = "gnl_foobar_xmpl";

/// Text sent in echo and dump requests.
pub const ECHO_MSG: &'static str = "Some data that has `Nl` trait implemented, like &str";

/// Version written into the family's command headers.
pub const FAMILY_VERSION: u8 = 1;

/// The family's commands, carried in the command header.
#[derive(Debug, Clone, Copy, PartialEq, Eq, Structural)]
pub enum NlFoobarXmplCommand {
    Unspec,
    /// Asks the kernel to send back the `Msg` attribute it received.
    EchoMsg,
    /// Asks the kernel to answer with an error frame.
    ReplyWithNlmsgErr,
}

/// The family's attribute types.
#[derive(Debug, Clone, Copy, PartialEq, Eq, Structural)]
pub enum NlFoobarXmplAttribute {
    Unspec,
    /// A null-terminated string.
    Msg,
}

pub open spec fn command_id(c: NlFoobarXmplCommand) -> u8 {
    match c {
        NlFoobarXmplCommand::Unspec => 0,
        NlFoobarXmplCommand::EchoMsg => 1,
        NlFoobarXmplCommand::ReplyWithNlmsgErr => 2,
    }
}

pub open spec fn attribute_id(a: NlFoobarXmplAttribute) -> u16 {
    match a {
        NlFoobarXmplAttribute::Unspec => 0,
        NlFoobarXmplAttribute::Msg => 1,
    }
}

impl NlFoobarXmplCommand {
    /// The command's id on the wire.
    pub fn id(self) -> (r: u8)
        ensures
            r == command_id(self),
    {
        match self {
            NlFoobarXmplCommand::Unspec => 0,
            NlFoobarXmplCommand::EchoMsg => 1,
            NlFoobarXmplCommand::ReplyWithNlmsgErr => 2,
        }
    }

    /// The command with id `v`; any other id is refused.
    pub fn from_id(v: u8) -> (r: Result<NlFoobarXmplCommand, NlError>)
        ensures
            v <= 2 ==> (r matches Ok(c) && command_id(c) == v),
            v > 2 ==> r == Err::<NlFoobarXmplCommand, _>(NlError::UnknownVariant),
    {
        if v == 0 {
            Ok(NlFoobarXmplCommand::Unspec)
        } else if v == 1 {
            Ok(NlFoobarXmplCommand::EchoMsg)
        } else if v == 2 {
            Ok(NlFoobarXmplCommand::ReplyWithNlmsgErr)
        } else {
            Err(NlError::UnknownVariant)
        }
    }
}

impl NlFoobarXmplAttribute {
    /// The attribute's type id on the wire.
    pub fn id(self) -> (r: u16)
        ensures
            r == attribute_id(self),
    {
        match self {
            NlFoobarXmplAttribute::Unspec => 0,
            NlFoobarXmplAttribute::Msg => 1,
        }
    }

    /// The attribute type with id `v`; any other id is refused.
    pub fn from_id(v: u16) -> (r: Result<NlFoobarXmplAttribute, NlError>)
        ensures
            v <= 1 ==> (r matches Ok(a) && attribute_id(a) == v),
            v > 1 ==> r == Err::<NlFoobarXmplAttribute, _>(NlError::UnknownVariant),
    {
        if v == 0 {
            Ok(NlFoobarXmplAttribute::Unspec)
        } else if v == 1 {
            Ok(NlFoobarXmplAttribute::Msg)
        } else {
            Err(NlError::UnknownVariant)
        }
    }
}

/// The dump request of the family: command `EchoMsg` with `ECHO_MSG` as its
/// `Msg` attribute, request and dump flags set.
pub open spec fn dump_msg_model(family_id: u16, seq: u32, port: u32) -> MessageModel {
    MessageModel {
        msg_type: family_id,
        flags: NLM_F_REQUEST | NLM_F_DUMP,
        seq,
        port,
        command: 1,
        version: FAMILY_VERSION,
        attrs: seq![(1u16, encode_utf8(ECHO_MSG@).push(0))],
    }
}

/// Builds the family's dump request on `conn`.
pub fn build_msg(conn: &mut Connection, family_id: u16) -> (r: Result<Vec<u8>, NlError>)
    ensures
        final(conn).port == old(conn).port,
        final(conn).families == old(conn).families,
        final(conn).next_seq == seq_after(old(conn).next_seq),
        match r {
            Ok(b) => b@ == message_bytes(dump_msg_model(family_id, old(conn).next_seq, old(conn).port)),
            Err(e) => !message_encodable(dump_msg_model(family_id, old(conn).next_seq, old(conn).port).attrs)
                && e == NlError::Encoding,
        },
{
    let mut attrs: Vec<Attribute> = Vec::new();
    attrs.push(Attribute::from_str_value(NlFoobarXmplAttribute::Msg.id(), ECHO_MSG));
    proof {
        assert(attrs_view(attrs@) =~= dump_msg_model(family_id, conn.next_seq, conn.port).attrs);
    }
    conn.dump_request(family_id, NlFoobarXmplCommand::EchoMsg.id(), FAMILY_VERSION, &attrs)
}

} // verus!
