//! The exchange logic of a connection: sequence numbers, the family-id cache,
//! single replies, family resolution and dump aggregation. The caller moves
//! the bytes: it sends what these functions build and hands back what it reads.

use vstd::prelude::*;
use vstd::string::StrSliceExecFns;
use vstd::utf8::encode_utf8;

use crate::attr::{attrs_view, decode_attrs, find_attribute, pad, Attribute, MAX_BUFFER_LEN};
use crate::error::NlError;
use crate::frame::{
    decode_frame, error_frame_bytes, lemma_error_classification, GENL_MESSAGE_HEADER_LEN, decode_response, encode_message, message_bytes, message_encodable, Frame,
    FrameModel, GenlMessage, MessageModel, NLM_F_DUMP, NLM_F_REQUEST,
};
use crate::wire::read16;

verus! {

/// Message type of the Generic Netlink controller family.
pub const GENL_ID_CTRL: u16 = 16;

/// The controller's "get family" command.
pub const CTRL_CMD_GETFAMILY: u8 = 3;

/// Version sent in the controller's command header.
pub const CTRL_VERSION: u8 = 2;

/// The controller's attribute that carries a family id.
pub const CTRL_ATTR_FAMILY_ID: u16 = 1;

/// The controller's attribute that carries a family name.
pub const CTRL_ATTR_FAMILY_NAME: u16 = 2;

/// A family name, as bytes, and the id the kernel gave it.
#[derive(Debug, Clone)]
pub struct FamilyEntry {
    pub name: Vec<u8>,
    pub id: u16,
}

/// The state of one connection to the kernel.
#[derive(Debug)]
pub struct Connection {
    /// Port id written into every request.
    pub port: u32,
    /// Sequence number of the next request.
    pub next_seq: u32,
    /// Families resolved on this connection, in order of resolution.
    pub families: Vec<FamilyEntry>,
}

pub open spec fn entries_view(v: Seq<FamilyEntry>) -> Seq<(Seq<u8>, u16)> {
    v.map_values(|e: FamilyEntry| (e.name@, e.id))
}

/// The id most recently resolved for `name`, if any.
pub open spec fn lookup(es: Seq<(Seq<u8>, u16)>, name: Seq<u8>) -> Option<u16>
    decreases es.len(),
{
    if es.len() == 0 {
        None
    } else if es.last().0 == name {
        Some(es.last().1)
    } else {
        lookup(es.drop_last(), name)
    }
}

/// The sequence number that follows `s`, wrapping at the top of its range.
pub open spec fn seq_after(s: u32) -> u32 {
    if s == u32::MAX { 0 } else { (s + 1) as u32 }
}

/// The value of the first attribute of type `t` in `s`.
pub open spec fn first_attr(s: Seq<(u16, Seq<u8>)>, t: u16) -> Option<Seq<u8>>
    decreases s.len(),
{
    if s.len() == 0 {
        None
    } else if s[0].0 == t {
        Some(s[0].1)
    } else {
        first_attr(s.skip(1), t)
    }
}

proof fn lemma_first_attr(s: Seq<(u16, Seq<u8>)>, t: u16, i: int)
    requires
        0 <= i <= s.len(),
        forall|j: int| 0 <= j < i ==> s[j].0 != t,
        i == s.len() || s[i].0 == t,
    ensures
        first_attr(s, t) == (if i < s.len() { Some(s[i].1) } else { None::<Seq<u8>> }),
    decreases i,
{
    if i > 0 {
        let u = s.skip(1);
        assert forall|j: int| 0 <= j < i - 1 implies u[j].0 != t by {
            assert(s[j + 1].0 != t);
        }
        lemma_first_attr(u, t, i - 1);
    }
}

/// The family id carried by a controller reply's attributes.
pub open spec fn family_id_of(attrs: Seq<(u16, Seq<u8>)>) -> Result<u16, NlError> {
    match first_attr(attrs, CTRL_ATTR_FAMILY_ID) {
        None => Err(NlError::MissingAttribute),
        Some(v) => if v.len() == 2 {
            Ok(read16(v, 0))
        } else {
            Err(NlError::MalformedAttribute)
        },
    }
}

/// What a reply to a "get family" request says: an error frame or a terminator
/// means the family is unknown; a data frame must carry the family id.
pub open spec fn resolution(b: Seq<u8>) -> Result<u16, NlError> {
    match decode_frame(b) {
        Err(e) => Err(e),
        Ok(FrameModel::Error(_, _)) => Err(NlError::FamilyNotFound),
        Ok(FrameModel::Done) => Err(NlError::FamilyNotFound),
        Ok(FrameModel::Data(m)) => family_id_of(m.attrs),
    }
}

/// The request that asks the controller for the id of family `name`.
pub open spec fn family_request_model(seq: u32, port: u32, name: Seq<char>) -> MessageModel {
    MessageModel {
        msg_type: GENL_ID_CTRL,
        flags: NLM_F_REQUEST,
        seq,
        port,
        command: CTRL_CMD_GETFAMILY,
        version: CTRL_VERSION,
        attrs: seq![(CTRL_ATTR_FAMILY_NAME, encode_utf8(name).push(0))],
    }
}

fn bytes_equal(a: &Vec<u8>, b: &Vec<u8>) -> (r: bool)
    ensures
        r == (a@ == b@),
{
    if a.len() != b.len() {
        return false;
    }
    let mut i: usize = 0;
    while i < a.len()
        invariant
            i <= a@.len(),
            a@.len() == b@.len(),
            forall|j: int| 0 <= j < i ==> a@[j] == b@[j],
        decreases a.len() - i,
    {
        if a[i] != b[i] {
            return false;
        }
        i = i + 1;
    }
    assert(a@ =~= b@);
    true
}

/// How resolving a family name begins.
pub enum ResolveStart {
    /// The id is cached on this connection: no exchange is needed.
    Cached(u16),
    /// Send this request and hand its reply to `resolve_reply`.
    Request(Vec<u8>),
}

impl Connection {
    /// A fresh connection that writes `port` into its requests and has resolved
    /// no family yet.
    pub fn new(port: u32) -> (r: Connection)
        ensures
            r.port == port,
            r.next_seq == 1,
            r.families@.len() == 0,
    {
        Connection { port, next_seq: 1, families: Vec::new() }
    }

    /// The id cached for family `name` on this connection, if any.
    pub fn cached_family(&self, name: &str) -> (r: Option<u16>)
        ensures
            r == lookup(entries_view(self.families@), encode_utf8(name@)),
    {
        let key = name.as_bytes_vec();
        let mut i: usize = self.families.len();
        assert(self.families@.take(i as int) =~= self.families@);
        while i > 0
            invariant
                i <= self.families@.len(),
                key@ == encode_utf8(name@),
                lookup(entries_view(self.families@), key@) == lookup(
                    entries_view(self.families@.take(i as int)),
                    key@,
                ),
            decreases i,
        {
            let ghost es = entries_view(self.families@.take(i as int));
            proof {
                assert(es.drop_last() =~= entries_view(self.families@.take(i - 1)));
            }
            if bytes_equal(&self.families[i - 1].name, &key) {
                return Some(self.families[i - 1].id);
            }
            i = i - 1;
        }
        None
    }

    /// Takes the sequence number for the next request and encodes that request.
    fn encode_next(
        &mut self,
        msg_type: u16,
        flags: u16,
        command: u8,
        version: u8,
        attrs: &Vec<Attribute>,
    ) -> (r: Result<Vec<u8>, NlError>)
        ensures
            final(self).port == old(self).port,
            final(self).families == old(self).families,
            final(self).next_seq == seq_after(old(self).next_seq),
            match r {
                Ok(b) => message_encodable(attrs_view(attrs@)) && b@ == message_bytes(
                    MessageModel {
                        msg_type,
                        flags,
                        seq: old(self).next_seq,
                        port: old(self).port,
                        command,
                        version,
                        attrs: attrs_view(attrs@),
                    },
                ),
                Err(e) => !message_encodable(attrs_view(attrs@)) && e == NlError::Encoding,
            },
    {
        let seq = self.next_seq;
        self.next_seq = if seq == u32::MAX { 0 } else { seq + 1 };
        encode_message(msg_type, flags, seq, self.port, command, version, attrs)
    }

    /// Builds the request that asks the controller for the id of family `name`.
    /// Fails only where the name is too long for an attribute.
    pub fn family_request(&mut self, name: &str) -> (r: Result<Vec<u8>, NlError>)
        ensures
            final(self).port == old(self).port,
            final(self).families == old(self).families,
            final(self).next_seq == seq_after(old(self).next_seq),
            match r {
                Ok(b) => b@ == message_bytes(family_request_model(old(self).next_seq, old(self).port, name@)),
                Err(e) => !message_encodable(family_request_model(old(self).next_seq, old(self).port, name@).attrs)
                    && e == NlError::Encoding,
            },
    {
        let mut attrs: Vec<Attribute> = Vec::new();
        attrs.push(Attribute::from_str_value(CTRL_ATTR_FAMILY_NAME, name));
        let ghost m = family_request_model(self.next_seq, self.port, name@);
        proof {
            assert(attrs_view(attrs@) =~= m.attrs);
        }
        self.encode_next(GENL_ID_CTRL, NLM_F_REQUEST, CTRL_CMD_GETFAMILY, CTRL_VERSION, &attrs)
    }

    /// Begins resolving `name`: the cached id where there is one, else the
    /// request to send to the controller.
    pub fn start_resolve(&mut self, name: &str) -> (r: Result<ResolveStart, NlError>)
        ensures
            match lookup(entries_view(old(self).families@), encode_utf8(name@)) {
                Some(id) => r matches Ok(ResolveStart::Cached(c)) && c == id && *final(self) == *old(self),
                None => {
                    &&& final(self).port == old(self).port
                    &&& final(self).families == old(self).families
                    &&& final(self).next_seq == seq_after(old(self).next_seq)
                    &&& match r {
                        Ok(ResolveStart::Request(b)) => b@ == message_bytes(
                            family_request_model(old(self).next_seq, old(self).port, name@),
                        ),
                        Ok(ResolveStart::Cached(_)) => false,
                        Err(e) => !message_encodable(
                            family_request_model(old(self).next_seq, old(self).port, name@).attrs,
                        ) && e == NlError::Encoding,
                    }
                },
            },
    {
        match self.cached_family(name) {
            Some(id) => Ok(ResolveStart::Cached(id)),
            None => match self.family_request(name) {
                Ok(b) => Ok(ResolveStart::Request(b)),
                Err(e) => Err(e),
            },
        }
    }

    /// Reads the controller's reply to a `family_request` for `name`; on
    /// success the id is cached on this connection.
    pub fn resolve_reply(&mut self, name: &str, reply: &[u8]) -> (r: Result<u16, NlError>)
        ensures
            r == resolution(reply@),
            final(self).port == old(self).port,
            final(self).next_seq == old(self).next_seq,
            match r {
                Ok(id) => entries_view(final(self).families@) == entries_view(old(self).families@).push(
                    (encode_utf8(name@), id),
                ),
                Err(_) => final(self).families@ == old(self).families@,
            },
    {
        let m = match decode_response(reply) {
            Err(e) => return Err(e),
            Ok(Frame::Error(_)) => return Err(NlError::FamilyNotFound),
            Ok(Frame::Done) => return Err(NlError::FamilyNotFound),
            Ok(Frame::Data(m)) => m,
        };
        let idx = find_attribute(&m.attrs, CTRL_ATTR_FAMILY_ID);
        proof {
            let s = attrs_view(m.attrs@);
            match idx {
                Some(i) => lemma_first_attr(s, CTRL_ATTR_FAMILY_ID, i as int),
                None => lemma_first_attr(s, CTRL_ATTR_FAMILY_ID, s.len() as int),
            }
        }
        let i = match idx {
            None => return Err(NlError::MissingAttribute),
            Some(i) => i,
        };
        let value = &m.attrs[i].value;
        if value.len() != 2 {
            return Err(NlError::MalformedAttribute);
        }
        let id = value[0] as u16 + 256 * (value[1] as u16);
        let ghost prev = self.families@;
        self.families.push(FamilyEntry { name: name.as_bytes_vec(), id });
        proof {
            assert(entries_view(self.families@) =~= entries_view(prev).push((encode_utf8(name@), id)));
        }
        Ok(id)
    }

    /// Builds a request for `command` to family `family_id`; the request flag
    /// is always added to `flags`.
    pub fn request(
        &mut self,
        family_id: u16,
        command: u8,
        version: u8,
        flags: u16,
        attrs: &Vec<Attribute>,
    ) -> (r: Result<Vec<u8>, NlError>)
        ensures
            final(self).port == old(self).port,
            final(self).families == old(self).families,
            final(self).next_seq == seq_after(old(self).next_seq),
            match r {
                Ok(b) => b@ == message_bytes(
                    MessageModel {
                        msg_type: family_id,
                        flags: flags | NLM_F_REQUEST,
                        seq: old(self).next_seq,
                        port: old(self).port,
                        command,
                        version,
                        attrs: attrs_view(attrs@),
                    },
                ),
                Err(e) => !message_encodable(attrs_view(attrs@)) && e == NlError::Encoding,
            },
    {
        self.encode_next(family_id, flags | NLM_F_REQUEST, command, version, attrs)
    }

    /// Builds a dump request for `command` to family `family_id`.
    pub fn dump_request(
        &mut self,
        family_id: u16,
        command: u8,
        version: u8,
        attrs: &Vec<Attribute>,
    ) -> (r: Result<Vec<u8>, NlError>)
        ensures
            final(self).port == old(self).port,
            final(self).families == old(self).families,
            final(self).next_seq == seq_after(old(self).next_seq),
            match r {
                Ok(b) => b@ == message_bytes(
                    MessageModel {
                        msg_type: family_id,
                        flags: NLM_F_REQUEST | NLM_F_DUMP,
                        seq: old(self).next_seq,
                        port: old(self).port,
                        command,
                        version,
                        attrs: attrs_view(attrs@),
                    },
                ),
                Err(e) => !message_encodable(attrs_view(attrs@)) && e == NlError::Encoding,
            },
    {
        self.encode_next(family_id, NLM_F_REQUEST | NLM_F_DUMP, command, version, attrs)
    }
}

/// The errors that decoding a buffer can give.
pub open spec fn is_decode_error(e: NlError) -> bool {
    match e {
        NlError::ShortHeader | NlError::LengthMismatch | NlError::ShortErrorBody
        | NlError::TruncatedAttribute | NlError::MalformedAttribute => true,
        _ => false,
    }
}

proof fn lemma_decode_attrs_errors(b: Seq<u8>)
    ensures
        decode_attrs(b) matches Err(e) ==> is_decode_error(e),
    decreases b.len(),
{
    if b.len() >= 4 {
        let len = read16(b, 0) as nat;
        if 4 <= len <= b.len() {
            let next = if len + pad(len) <= b.len() { len + pad(len) } else { b.len() };
            lemma_decode_attrs_errors(b.skip(next as int));
        }
    }
}

/// Decoding a frame fails only with a decoding error.
pub proof fn lemma_decode_frame_errors(b: Seq<u8>)
    ensures
        decode_frame(b) matches Err(e) ==> is_decode_error(e),
{
    lemma_decode_attrs_errors(b.skip(20));
    if b.len() >= 20 {
        lemma_decode_attrs_errors(b.skip(20).skip(20));
    }
}

/// Reads the single reply to a request: a data frame is the answer, an error
/// frame is the kernel's rejection, and a terminator is out of place.
pub fn reply_result(b: &[u8]) -> (r: Result<GenlMessage, NlError>)
    ensures
        match r {
            Ok(m) => decode_frame(b@) == Ok::<_, NlError>(FrameModel::Data(m@)),
            Err(NlError::Reply(e)) => decode_frame(b@) == Ok::<_, NlError>(FrameModel::Error(e.code, e.echoed@)),
            Err(NlError::UnexpectedDone) => decode_frame(b@) == Ok::<_, NlError>(FrameModel::Done),
            Err(e) => decode_frame(b@) == Err::<FrameModel, _>(e),
        },
{
    proof {
        lemma_decode_frame_errors(b@);
    }
    match decode_response(b) {
        Ok(Frame::Data(m)) => Ok(m),
        Ok(Frame::Error(e)) => Err(NlError::Reply(e)),
        Ok(Frame::Done) => Err(NlError::UnexpectedDone),
        Err(e) => Err(e),
    }
}

/// When the controller answers a "get family" request with an error frame that
/// echoes the request, as it does for a name no module has registered,
/// resolution fails with `FamilyNotFound`.
pub proof fn lemma_unknown_family(code: i32, flags: u16, seq: u32, port: u32, name: Seq<char>)
    requires
        message_encodable(family_request_model(seq, port, name).attrs),
        message_bytes(family_request_model(seq, port, name)).len() + GENL_MESSAGE_HEADER_LEN <= MAX_BUFFER_LEN,
    ensures
        resolution(error_frame_bytes(code, flags, seq, port, message_bytes(family_request_model(seq, port, name))))
            == Err::<u16, _>(NlError::FamilyNotFound),
{
    lemma_error_classification(code, flags, seq, port, family_request_model(seq, port, name));
}

/// The messages of a dump received so far.
pub struct DumpSession {
    pub frames: Vec<GenlMessage>,
}

/// What a dump session becomes after one more frame.
pub enum DumpStep {
    /// A data frame was added; more are to come.
    More(DumpSession),
    /// The terminator arrived: every data frame, in arrival order.
    Complete(Vec<GenlMessage>),
    /// An error frame or an undecodable frame ended the dump.
    Failed(NlError),
}

pub open spec fn messages_view(v: Seq<GenlMessage>) -> Seq<MessageModel> {
    v.map_values(|m: GenlMessage| m@)
}

/// The state of a dump, as a model.
pub enum DumpModel {
    Collecting(Seq<MessageModel>),
    Complete(Seq<MessageModel>),
    Rejected(i32, MessageModel),
    Failed(NlError),
}

impl View for DumpStep {
    type V = DumpModel;

    open spec fn view(&self) -> DumpModel {
        match self {
            DumpStep::More(s) => DumpModel::Collecting(messages_view(s.frames@)),
            DumpStep::Complete(v) => DumpModel::Complete(messages_view(v@)),
            DumpStep::Failed(NlError::Reply(e)) => DumpModel::Rejected(e.code, e.echoed@),
            DumpStep::Failed(e) => DumpModel::Failed(*e),
        }
    }
}

/// One step of a dump that has collected `collected`, on receiving `frame`.
#[verifier::opaque]
pub open spec fn dump_step(collected: Seq<MessageModel>, frame: Seq<u8>) -> DumpModel {
    match decode_frame(frame) {
        Ok(FrameModel::Data(m)) => DumpModel::Collecting(collected.push(m)),
        Ok(FrameModel::Done) => DumpModel::Complete(collected),
        Ok(FrameModel::Error(code, m)) => DumpModel::Rejected(code, m),
        Err(e) => DumpModel::Failed(e),
    }
}

/// Runs a dump from state `s` over the frames a peer sends, reading until the
/// dump ends or the frames run out; also gives how many frames were read.
pub open spec fn run_dump(s: DumpModel, frames: Seq<Seq<u8>>) -> (DumpModel, nat)
    decreases frames.len(),
{
    match s {
        DumpModel::Collecting(c) => if frames.len() == 0 {
            (s, 0)
        } else {
            let (r, n) = run_dump(dump_step(c, frames[0]), frames.skip(1));
            (r, n + 1)
        },
        _ => (s, 0),
    }
}

proof fn lemma_step_data(c: Seq<MessageModel>, f: Seq<u8>, m: MessageModel)
    requires
        decode_frame(f) == Ok::<_, NlError>(FrameModel::Data(m)),
    ensures
        dump_step(c, f) == DumpModel::Collecting(c.push(m)),
{
    reveal(dump_step);
}

proof fn lemma_step_done(c: Seq<MessageModel>, f: Seq<u8>)
    requires
        decode_frame(f) == Ok::<_, NlError>(FrameModel::Done),
    ensures
        dump_step(c, f) == DumpModel::Complete(c),
{
    reveal(dump_step);
}

/// A peer that sends data frames and then a terminator ends the dump on the
/// terminator: the dump yields the data messages in arrival order, and the
/// frames read are the data frames and the terminator, none after.
pub proof fn lemma_dump_aggregation(
    collected: Seq<MessageModel>,
    data: Seq<Seq<u8>>,
    ms: Seq<MessageModel>,
    done: Seq<u8>,
    later: Seq<Seq<u8>>,
)
    requires
        data.len() == ms.len(),
        forall|i: int| 0 <= i < data.len() ==> decode_frame(#[trigger] data[i]) == Ok::<_, NlError>(FrameModel::Data(ms[i])),
        decode_frame(done) == Ok::<_, NlError>(FrameModel::Done),
    ensures
        run_dump(DumpModel::Collecting(collected), data + seq![done] + later)
            == (DumpModel::Complete(collected + ms), data.len() + 1),
    decreases data.len(),
{
    let frames = data + seq![done] + later;
    if data.len() == 0 {
        assert(frames[0] == done);
        lemma_step_done(collected, done);
        assert(frames.skip(1) =~= later);
        assert(collected + ms =~= collected);
        assert(run_dump(DumpModel::Complete(collected), later) == (DumpModel::Complete(collected), 0nat));
    } else {
        assert(frames[0] == data[0]);
        lemma_step_data(collected, data[0], ms[0]);
        let d = data.skip(1);
        let n = ms.skip(1);
        assert forall|i: int| 0 <= i < d.len() implies decode_frame(#[trigger] d[i]) == Ok::<_, NlError>(FrameModel::Data(n[i])) by {
            assert(d[i] == data[i + 1]);
        }
        lemma_dump_aggregation(collected.push(ms[0]), d, n, done, later);
        assert(frames.skip(1) =~= d + seq![done] + later);
        assert(collected.push(ms[0]) + n =~= collected + ms);
        assert(run_dump(dump_step(collected, frames[0]), frames.skip(1)) == (DumpModel::Complete(collected + ms), d.len() + 1));
    }
}

impl DumpSession {
    /// A dump with nothing received yet.
    pub fn new() -> (r: DumpSession)
        ensures
            r.frames@.len() == 0,
    {
        DumpSession { frames: Vec::new() }
    }

    /// Takes one received frame: a data frame is appended, a terminator ends
    /// the dump with everything collected, and an error ends it with the error.
    pub fn receive(self, frame: &[u8]) -> (r: DumpStep)
        ensures
            r@ == dump_step(messages_view(self.frames@), frame@),
    {
        proof {
            reveal(dump_step);
            lemma_decode_frame_errors(frame@);
        }
        let mut frames = self.frames;
        match decode_response(frame) {
            Ok(Frame::Data(m)) => {
                let ghost prev = frames@;
                frames.push(m);
                proof {
                    assert(messages_view(frames@) =~= messages_view(prev).push(frames@.last()@));
                }
                DumpStep::More(DumpSession { frames })
            },
            Ok(Frame::Done) => DumpStep::Complete(frames),
            Ok(Frame::Error(e)) => DumpStep::Failed(NlError::Reply(e)),
            Err(e) => DumpStep::Failed(e),
        }
    }
}

} // verus!
