//! Netlink messages: the outer header, the Generic Netlink command header,
//! the attribute payload, and the classification of received frames.

use vstd::prelude::*;
use vstd::slice::slice_subrange;

use crate::attr::{
    align_to, attrs_bytes, attrs_encodable, attrs_view, decode_attributes, decode_attrs, encode_attributes,
    copy_range, lemma_attrs_round_trip, pad, value_fits, Attribute, MAX_BUFFER_LEN,
};
use crate::error::NlError;
use crate::wire::{get_u16, get_u32, le16, le32, lemma_read16_le16, lemma_read32_le32, push_u16, push_u32, read16, read32};

verus! {

/// Size of the outer message header: length, type, flags, sequence, port.
pub const NLMSG_HEADER_LEN: usize = 16;

/// Size of the outer header followed by the command header.
pub const GENL_MESSAGE_HEADER_LEN: usize = 20;

/// Message type of an error frame.
pub const NLMSG_ERROR: u16 = 2;

/// Message type of the frame that ends a dump.
pub const NLMSG_DONE: u16 = 3;

/// Flag set on every request to the kernel.
pub const NLM_F_REQUEST: u16 = 1;

/// Flag asking for an acknowledgement.
pub const NLM_F_ACK: u16 = 4;

/// Flag asking for every entry of a table, sent back as several frames.
pub const NLM_F_DUMP: u16 = 768;

/// What a Generic Netlink message holds, its length field aside.
pub struct MessageModel {
    pub msg_type: u16,
    pub flags: u16,
    pub seq: u32,
    pub port: u32,
    pub command: u8,
    pub version: u8,
    pub attrs: Seq<(u16, Seq<u8>)>,
}

/// A decoded Generic Netlink message.
#[derive(Debug, Clone)]
pub struct GenlMessage {
    pub msg_type: u16,
    pub flags: u16,
    pub seq: u32,
    pub port: u32,
    pub command: u8,
    pub version: u8,
    pub attrs: Vec<Attribute>,
}

impl View for GenlMessage {
    type V = MessageModel;

    open spec fn view(&self) -> MessageModel {
        MessageModel {
            msg_type: self.msg_type,
            flags: self.flags,
            seq: self.seq,
            port: self.port,
            command: self.command,
            version: self.version,
            attrs: attrs_view(self.attrs@),
        }
    }
}

/// A kernel error frame: the error code and the request it rejected, as echoed.
#[derive(Debug, Clone)]
pub struct ErrorReply {
    pub code: i32,
    pub echoed: GenlMessage,
}

/// A received frame, classified.
#[derive(Debug, Clone)]
pub enum Frame {
    Data(GenlMessage),
    Error(ErrorReply),
    Done,
}

pub enum FrameModel {
    Data(MessageModel),
    Error(i32, MessageModel),
    Done,
}

impl View for Frame {
    type V = FrameModel;

    open spec fn view(&self) -> FrameModel {
        match self {
            Frame::Data(m) => FrameModel::Data(m@),
            Frame::Error(e) => FrameModel::Error(e.code, e.echoed@),
            Frame::Done => FrameModel::Done,
        }
    }
}

/// Whether a message with attributes `attrs` can be encoded.
pub open spec fn message_encodable(attrs: Seq<(u16, Seq<u8>)>) -> bool {
    attrs_encodable(attrs) && attrs_bytes(attrs).len() + GENL_MESSAGE_HEADER_LEN <= MAX_BUFFER_LEN
}

/// The wire form of a message: outer header, command header (two reserved
/// zero bytes), then the attributes.
pub open spec fn message_bytes(m: MessageModel) -> Seq<u8> {
    le32((attrs_bytes(m.attrs).len() + GENL_MESSAGE_HEADER_LEN) as u32) + le16(m.msg_type) + le16(m.flags)
        + le32(m.seq) + le32(m.port) + seq![m.command, m.version, 0u8, 0u8] + attrs_bytes(m.attrs)
}

/// The message held in `b`, read as a data message.
pub open spec fn decode_message(b: Seq<u8>) -> Result<MessageModel, NlError> {
    if b.len() < NLMSG_HEADER_LEN {
        Err(NlError::ShortHeader)
    } else if read32(b, 0) != b.len() {
        Err(NlError::LengthMismatch)
    } else if b.len() < GENL_MESSAGE_HEADER_LEN {
        Err(NlError::ShortHeader)
    } else {
        match decode_attrs(b.skip(20)) {
            Ok(a) => Ok(
                MessageModel {
                    msg_type: read16(b, 4),
                    flags: read16(b, 6),
                    seq: read32(b, 8),
                    port: read32(b, 12),
                    command: b[16],
                    version: b[17],
                    attrs: a,
                },
            ),
            Err(e) => Err(e),
        }
    }
}

/// The frame held in `b`: an error frame carries an error code and the echoed
/// request, a terminator carries nothing, and any other type is a data message.
pub open spec fn decode_frame(b: Seq<u8>) -> Result<FrameModel, NlError> {
    if b.len() < NLMSG_HEADER_LEN {
        Err(NlError::ShortHeader)
    } else if read32(b, 0) != b.len() {
        Err(NlError::LengthMismatch)
    } else if read16(b, 4) == NLMSG_ERROR {
        if b.len() < GENL_MESSAGE_HEADER_LEN {
            Err(NlError::ShortErrorBody)
        } else {
            match decode_message(b.skip(20)) {
                Ok(m) => Ok(FrameModel::Error(read32(b, 16) as i32, m)),
                Err(e) => Err(e),
            }
        }
    } else if read16(b, 4) == NLMSG_DONE {
        Ok(FrameModel::Done)
    } else {
        match decode_message(b) {
            Ok(m) => Ok(FrameModel::Data(m)),
            Err(e) => Err(e),
        }
    }
}

/// Encodes a message of type `msg_type` carrying `command` and `attrs`. Fails
/// exactly when an attribute value or the whole message is too large for its
/// length field.
pub fn encode_message(
    msg_type: u16,
    flags: u16,
    seq: u32,
    port: u32,
    command: u8,
    version: u8,
    attrs: &Vec<Attribute>,
) -> (r: Result<Vec<u8>, NlError>)
    ensures
        match r {
            Ok(b) => message_encodable(attrs_view(attrs@)) && b@ == message_bytes(
                MessageModel { msg_type, flags, seq, port, command, version, attrs: attrs_view(attrs@) },
            ),
            Err(e) => !message_encodable(attrs_view(attrs@)) && e == NlError::Encoding,
        },
{
    let body = match encode_attributes(attrs) {
        Ok(body) => body,
        Err(e) => return Err(e),
    };
    if body.len() > MAX_BUFFER_LEN - GENL_MESSAGE_HEADER_LEN {
        return Err(NlError::Encoding);
    }
    let total = (body.len() + GENL_MESSAGE_HEADER_LEN) as u32;
    let mut out: Vec<u8> = Vec::new();
    push_u32(&mut out, total);
    push_u16(&mut out, msg_type);
    push_u16(&mut out, flags);
    push_u32(&mut out, seq);
    push_u32(&mut out, port);
    out.push(command);
    out.push(version);
    out.push(0u8);
    out.push(0u8);
    let ghost head = out@;
    out.extend_from_slice(body.as_slice());
    proof {
        let m = MessageModel { msg_type, flags, seq, port, command, version, attrs: attrs_view(attrs@) };
        assert(out@ =~= message_bytes(m));
    }
    Ok(out)
}

/// The length field of every encoded message equals the message's size.
pub proof fn lemma_length_field(m: MessageModel)
    requires
        message_encodable(m.attrs),
    ensures
        read32(message_bytes(m), 0) == message_bytes(m).len(),
{
    let b = message_bytes(m);
    let total = (attrs_bytes(m.attrs).len() + GENL_MESSAGE_HEADER_LEN) as u32;
    let rest = b.skip(4);
    assert(b =~= Seq::<u8>::empty() + le32(total) + rest);
    lemma_read32_le32(total, Seq::<u8>::empty(), rest);
}

/// Decodes `b` as a data message.
pub fn decode_genl_message(b: &[u8]) -> (r: Result<GenlMessage, NlError>)
    ensures
        match r {
            Ok(m) => decode_message(b@) == Ok::<_, NlError>(m@),
            Err(e) => decode_message(b@) == Err::<MessageModel, _>(e),
        },
{
    if b.len() < NLMSG_HEADER_LEN {
        return Err(NlError::ShortHeader);
    }
    if get_u32(b, 0) as usize != b.len() {
        return Err(NlError::LengthMismatch);
    }
    if b.len() < GENL_MESSAGE_HEADER_LEN {
        return Err(NlError::ShortHeader);
    }
    let rest = slice_subrange(b, GENL_MESSAGE_HEADER_LEN, b.len());
    assert(rest@ =~= b@.skip(20));
    match decode_attributes(rest) {
        Ok(attrs) => Ok(
            GenlMessage {
                msg_type: get_u16(b, 4),
                flags: get_u16(b, 6),
                seq: get_u32(b, 8),
                port: get_u32(b, 12),
                command: b[16],
                version: b[17],
                attrs,
            },
        ),
        Err(e) => Err(e),
    }
}

/// Reads and classifies one received frame.
pub fn decode_response(b: &[u8]) -> (r: Result<Frame, NlError>)
    ensures
        match r {
            Ok(f) => decode_frame(b@) == Ok::<_, NlError>(f@),
            Err(e) => decode_frame(b@) == Err::<FrameModel, _>(e),
        },
{
    if b.len() < NLMSG_HEADER_LEN {
        return Err(NlError::ShortHeader);
    }
    if get_u32(b, 0) as usize != b.len() {
        return Err(NlError::LengthMismatch);
    }
    let msg_type = get_u16(b, 4);
    if msg_type == NLMSG_ERROR {
        if b.len() < GENL_MESSAGE_HEADER_LEN {
            return Err(NlError::ShortErrorBody);
        }
        let code = get_u32(b, 16) as i32;
        let rest = slice_subrange(b, GENL_MESSAGE_HEADER_LEN, b.len());
        assert(rest@ =~= b@.skip(20));
        match decode_genl_message(rest) {
            Ok(echoed) => Ok(Frame::Error(ErrorReply { code, echoed })),
            Err(e) => Err(e),
        }
    } else if msg_type == NLMSG_DONE {
        Ok(Frame::Done)
    } else {
        match decode_genl_message(b) {
            Ok(m) => Ok(Frame::Data(m)),
            Err(e) => Err(e),
        }
    }
}

proof fn lemma_header_fields(b: Seq<u8>, total: u32, msg_type: u16, flags: u16, seq: u32, port: u32, rest: Seq<u8>)
    requires
        b == le32(total) + le16(msg_type) + le16(flags) + le32(seq) + le32(port) + rest,
    ensures
        b.len() == 16 + rest.len(),
        read32(b, 0) == total,
        read16(b, 4) == msg_type,
        read16(b, 6) == flags,
        read32(b, 8) == seq,
        read32(b, 12) == port,
        b.skip(16) == rest,
{
    let e = Seq::<u8>::empty();
    assert(b =~= e + le32(total) + b.skip(4));
    lemma_read32_le32(total, e, b.skip(4));
    assert(b =~= b.take(4) + le16(msg_type) + b.skip(6));
    lemma_read16_le16(msg_type, b.take(4), b.skip(6));
    assert(b =~= b.take(6) + le16(flags) + b.skip(8));
    lemma_read16_le16(flags, b.take(6), b.skip(8));
    assert(b =~= b.take(8) + le32(seq) + b.skip(12));
    lemma_read32_le32(seq, b.take(8), b.skip(12));
    assert(b =~= b.take(12) + le32(port) + b.skip(16));
    lemma_read32_le32(port, b.take(12), b.skip(16));
    assert(b.skip(16) =~= rest);
}

/// Decoding the encoding of a message gives back the message.
pub proof fn lemma_message_round_trip(m: MessageModel)
    requires
        message_encodable(m.attrs),
    ensures
        decode_message(message_bytes(m)) == Ok::<_, NlError>(m),
{
    let b = message_bytes(m);
    let total = (attrs_bytes(m.attrs).len() + GENL_MESSAGE_HEADER_LEN) as u32;
    let rest = seq![m.command, m.version, 0u8, 0u8] + attrs_bytes(m.attrs);
    assert(b =~= le32(total) + le16(m.msg_type) + le16(m.flags) + le32(m.seq) + le32(m.port) + rest);
    lemma_header_fields(b, total, m.msg_type, m.flags, m.seq, m.port, rest);
    assert(b[16] == m.command);
    assert(b[17] == m.version);
    assert(b.skip(20) =~= attrs_bytes(m.attrs));
    assert forall|i: int| 0 <= i < m.attrs.len() implies #[trigger] value_fits(m.attrs[i]) by {}
    lemma_attrs_round_trip(m.attrs);
}

/// The wire form of an error frame: the outer header of type `NLMSG_ERROR`,
/// the error code, then the echoed request.
pub open spec fn error_frame_bytes(code: i32, flags: u16, seq: u32, port: u32, echoed: Seq<u8>) -> Seq<u8> {
    le32((echoed.len() + GENL_MESSAGE_HEADER_LEN) as u32) + le16(NLMSG_ERROR) + le16(flags) + le32(seq)
        + le32(port) + le32(code as u32) + echoed
}

proof fn lemma_error_frame_fields(code: i32, flags: u16, seq: u32, port: u32, echoed: Seq<u8>)
    requires
        echoed.len() + GENL_MESSAGE_HEADER_LEN <= MAX_BUFFER_LEN,
    ensures
        ({
            let b = error_frame_bytes(code, flags, seq, port, echoed);
            &&& b.len() == echoed.len() + 20
            &&& read32(b, 0) == b.len()
            &&& read16(b, 4) == NLMSG_ERROR
            &&& read32(b, 16) as i32 == code
            &&& b.skip(20) == echoed
        }),
{
    let b = error_frame_bytes(code, flags, seq, port, echoed);
    let total = (echoed.len() + GENL_MESSAGE_HEADER_LEN) as u32;
    let rest = le32(code as u32) + echoed;
    assert(b =~= le32(total) + le16(NLMSG_ERROR) + le16(flags) + le32(seq) + le32(port) + rest);
    lemma_header_fields(b, total, NLMSG_ERROR, flags, seq, port, rest);
    assert(b =~= b.take(16) + le32(code as u32) + echoed);
    lemma_read32_le32(code as u32, b.take(16), echoed);
    assert(b.skip(20) =~= echoed);
    assert((code as u32) as i32 == code) by (bit_vector);
}

/// An error frame that echoes an encoded request is classified as an error
/// reply that carries the code and the request, its command id included.
pub proof fn lemma_error_classification(code: i32, flags: u16, seq: u32, port: u32, m: MessageModel)
    requires
        message_encodable(m.attrs),
        message_bytes(m).len() + GENL_MESSAGE_HEADER_LEN <= MAX_BUFFER_LEN,
    ensures
        decode_frame(error_frame_bytes(code, flags, seq, port, message_bytes(m)))
            == Ok::<_, NlError>(FrameModel::Error(code, m)),
        decode_frame(error_frame_bytes(code, flags, seq, port, message_bytes(m))) matches Ok(
            FrameModel::Error(_, echoed),
        ) && echoed.command == m.command,
{
    lemma_error_frame_fields(code, flags, seq, port, message_bytes(m));
    lemma_message_round_trip(m);
}

/// The frames packed one after another in a received datagram, each starting
/// at a four-byte boundary. A final frame may lack its padding.
pub open spec fn frames_of(b: Seq<u8>) -> Result<Seq<Seq<u8>>, NlError>
    decreases b.len(),
{
    if b.len() == 0 {
        Ok(Seq::empty())
    } else if b.len() < NLMSG_HEADER_LEN {
        Err(NlError::ShortHeader)
    } else {
        let len = read32(b, 0) as nat;
        if len < NLMSG_HEADER_LEN || len > b.len() {
            Err(NlError::LengthMismatch)
        } else {
            let next = if len + pad(len) <= b.len() { len + pad(len) } else { b.len() };
            match frames_of(b.skip(next as int)) {
                Ok(rest) => Ok(seq![b.take(len as int)] + rest),
                Err(e) => Err(e),
            }
        }
    }
}

pub open spec fn prepend_frames(p: Seq<Seq<u8>>, r: Result<Seq<Seq<u8>>, NlError>) -> Result<Seq<Seq<u8>>, NlError> {
    match r {
        Ok(s) => Ok(p + s),
        Err(e) => Err(e),
    }
}

pub open spec fn buffers_view(v: Seq<Vec<u8>>) -> Seq<Seq<u8>> {
    v.map_values(|f: Vec<u8>| f@)
}

/// Splits a received datagram into the frames it holds, in order.
pub fn split_frames(b: &[u8]) -> (r: Result<Vec<Vec<u8>>, NlError>)
    ensures
        match r {
            Ok(v) => frames_of(b@) == Ok::<_, NlError>(buffers_view(v@)),
            Err(e) => frames_of(b@) == Err::<Seq<Seq<u8>>, _>(e),
        },
{
    let mut out: Vec<Vec<u8>> = Vec::new();
    let mut pos: usize = 0;
    proof {
        assert(b@.skip(0) =~= b@);
        assert(buffers_view(out@) + Seq::<Seq<u8>>::empty() =~= Seq::<Seq<u8>>::empty());
        match frames_of(b@) {
            Ok(s) => assert(Seq::<Seq<u8>>::empty() + s =~= s),
            Err(_) => {},
        }
    }
    while pos < b.len()
        invariant
            pos <= b@.len(),
            frames_of(b@) == prepend_frames(buffers_view(out@), frames_of(b@.skip(pos as int))),
        decreases b@.len() - pos,
    {
        let ghost rest = b@.skip(pos as int);
        let remaining = b.len() - pos;
        if remaining < NLMSG_HEADER_LEN {
            return Err(NlError::ShortHeader);
        }
        let len = get_u32(b, pos) as usize;
        assert(len == read32(rest, 0));
        if len < NLMSG_HEADER_LEN || len > remaining {
            return Err(NlError::LengthMismatch);
        }
        let frame = copy_range(b, pos, pos + len);
        let next = if remaining - len >= 4 {
            align_to(len)
        } else {
            let p = (4 - len % 4) % 4;
            if p <= remaining - len { len + p } else { remaining }
        };
        proof {
            assert(frame@ =~= rest.take(len as int));
            assert(rest.skip(next as int) =~= b@.skip(pos + next));
            let tail = frames_of(b@.skip(pos + next));
            let prev = buffers_view(out@);
            match tail {
                Ok(ts) => {
                    assert(prev + (seq![frame@] + ts) =~= (prev + seq![frame@]) + ts);
                }
                Err(_) => {}
            }
        }
        let ghost prev_out = out@;
        out.push(frame);
        proof {
            assert(buffers_view(out@) =~= buffers_view(prev_out) + seq![out@.last()@]);
        }
        pos = pos + next;
    }
    proof {
        assert(b@.skip(pos as int) =~= Seq::<u8>::empty());
        assert(buffers_view(out@) + Seq::<Seq<u8>>::empty() =~= buffers_view(out@));
    }
    Ok(out)
}

} // verus!
