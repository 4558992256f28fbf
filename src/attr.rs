//! Attributes: typed, length-prefixed records padded to four-byte boundaries.

use vstd::prelude::*;
use vstd::string::StrSliceExecFns;
use vstd::utf8::{decode_utf8, encode_utf8, valid_utf8};

use crate::error::NlError;
use crate::wire::{get_u16, le16, push_u16, read16};

verus! {

/// Size of the length and type fields that open every attribute.
pub const ATTR_HEADER_LEN: usize = 4;

/// The largest value that fits beside the header in a 16-bit length field.
pub const MAX_ATTR_VALUE_LEN: usize = 65531;

/// The largest buffer whose size a 32-bit length field can hold.
pub const MAX_BUFFER_LEN: usize = 4294967295;

/// One attribute: its type id and its raw value, without padding.
#[derive(Debug, Clone)]
pub struct Attribute {
    pub attr_type: u16,
    pub value: Vec<u8>,
}

impl View for Attribute {
    type V = (u16, Seq<u8>);

    open spec fn view(&self) -> (u16, Seq<u8>) {
        (self.attr_type, self.value@)
    }
}

/// The type ids and values of a sequence of attributes.
pub open spec fn attrs_view(v: Seq<Attribute>) -> Seq<(u16, Seq<u8>)> {
    v.map_values(|a: Attribute| a@)
}

/// Zero bytes that bring a length of `n` up to a multiple of four.
pub open spec fn pad(n: nat) -> nat {
    ((4 - n % 4) % 4) as nat
}

pub open spec fn zeros(n: nat) -> Seq<u8> {
    Seq::new(n, |i: int| 0u8)
}

/// A value short enough for the attribute's 16-bit length field.
pub open spec fn value_fits(a: (u16, Seq<u8>)) -> bool {
    a.1.len() <= MAX_ATTR_VALUE_LEN
}

/// The wire form of one attribute: length, type, value, then padding.
pub open spec fn attr_bytes(a: (u16, Seq<u8>)) -> Seq<u8> {
    le16((a.1.len() + 4) as u16) + le16(a.0) + a.1 + zeros(pad(a.1.len() + 4))
}

/// The wire form of a sequence of attributes, one after another.
pub open spec fn attrs_bytes(s: Seq<(u16, Seq<u8>)>) -> Seq<u8>
    decreases s.len(),
{
    if s.len() == 0 {
        Seq::empty()
    } else {
        attr_bytes(s[0]) + attrs_bytes(s.skip(1))
    }
}

/// Whether `s` can be encoded: every value fits its length field, and the whole
/// buffer fits the 32-bit length field of the message that carries it.
pub open spec fn attrs_encodable(s: Seq<(u16, Seq<u8>)>) -> bool {
    &&& forall|i: int| 0 <= i < s.len() ==> #[trigger] value_fits(s[i])
    &&& attrs_bytes(s).len() <= MAX_BUFFER_LEN
}

/// Prepends `p` to a decoded sequence, passing an error through.
pub open spec fn prepend(
    p: Seq<(u16, Seq<u8>)>,
    r: Result<Seq<(u16, Seq<u8>)>, NlError>,
) -> Result<Seq<(u16, Seq<u8>)>, NlError> {
    match r {
        Ok(s) => Ok(p + s),
        Err(e) => Err(e),
    }
}

/// The attributes held in `b`, read front to back. A final attribute may lack
/// its padding.
pub open spec fn decode_attrs(b: Seq<u8>) -> Result<Seq<(u16, Seq<u8>)>, NlError>
    decreases b.len(),
{
    if b.len() == 0 {
        Ok(Seq::empty())
    } else if b.len() < 4 {
        Err(NlError::TruncatedAttribute)
    } else {
        let len = read16(b, 0) as nat;
        if len < 4 {
            Err(NlError::MalformedAttribute)
        } else if len > b.len() {
            Err(NlError::TruncatedAttribute)
        } else {
            let next = if len + pad(len) <= b.len() { len + pad(len) } else { b.len() };
            prepend(seq![(read16(b, 2), b.subrange(4, len as int))], decode_attrs(b.skip(next as int)))
        }
    }
}

/// Relies on neli::consts::alignto: rounds a length up to the next multiple of
/// the netlink attribute alignment, which is four.
#[verifier::external_body]
pub(crate) fn align_to(len: usize) -> (r: usize)
    requires
        len <= usize::MAX - 3,
    ensures
        r == len + pad(len as nat),
{
    neli::consts::alignto(len)
}

proof fn lemma_attrs_bytes_split(s: Seq<(u16, Seq<u8>)>, i: int)
    requires
        0 <= i <= s.len(),
    ensures
        attrs_bytes(s) == attrs_bytes(s.take(i)) + attrs_bytes(s.skip(i)),
    decreases i,
{
    if i == 0 {
        assert(s.take(0) =~= Seq::<(u16, Seq<u8>)>::empty());
        assert(s.skip(0) =~= s);
        assert(attrs_bytes(s.take(0)) =~= Seq::<u8>::empty());
        assert(attrs_bytes(s) =~= attrs_bytes(s.take(i)) + attrs_bytes(s.skip(i)));
    } else {
        let t = s.skip(1);
        lemma_attrs_bytes_split(t, i - 1);
        assert(s.take(i).skip(1) =~= t.take(i - 1));
        assert(s.take(i)[0] == s[0]);
        assert(t.skip(i - 1) =~= s.skip(i));
        assert(attrs_bytes(s) =~= attrs_bytes(s.take(i)) + attrs_bytes(s.skip(i)));
    }
}

proof fn lemma_attrs_bytes_push(s: Seq<(u16, Seq<u8>)>, i: int)
    requires
        0 <= i < s.len(),
    ensures
        attrs_bytes(s.take(i + 1)) == attrs_bytes(s.take(i)) + attr_bytes(s[i]),
{
    let t = s.take(i + 1);
    lemma_attrs_bytes_split(t, i);
    assert(t.take(i) =~= s.take(i));
    let last = t.skip(i);
    assert(last.len() == 1);
    assert(last[0] == s[i]);
    assert(last.skip(1) =~= Seq::<(u16, Seq<u8>)>::empty());
    assert(attrs_bytes(last.skip(1)) =~= Seq::<u8>::empty());
    assert(attrs_bytes(last) == attr_bytes(s[i]) + Seq::<u8>::empty());
    assert(attr_bytes(s[i]) + Seq::<u8>::empty() =~= attr_bytes(s[i]));
}

/// Encodes `attrs` one after another, each padded to a four-byte boundary.
/// Fails exactly when a value is longer than `MAX_ATTR_VALUE_LEN` bytes or the
/// buffer would exceed `MAX_BUFFER_LEN` bytes.
pub fn encode_attributes(attrs: &Vec<Attribute>) -> (r: Result<Vec<u8>, NlError>)
    ensures
        match r {
            Ok(b) => attrs_encodable(attrs_view(attrs@)) && b@ == attrs_bytes(attrs_view(attrs@)),
            Err(e) => !attrs_encodable(attrs_view(attrs@)) && e == NlError::Encoding,
        },
{
    let ghost s = attrs_view(attrs@);
    let mut out: Vec<u8> = Vec::new();
    let mut i: usize = 0;
    proof {
        assert(s.take(0) =~= Seq::<(u16, Seq<u8>)>::empty());
        assert(attrs_bytes(s.take(0)) =~= Seq::<u8>::empty());
    }
    while i < attrs.len()
        invariant
            s == attrs_view(attrs@),
            i <= attrs.len(),
            out@ == attrs_bytes(s.take(i as int)),
            out@.len() <= MAX_BUFFER_LEN,
            forall|j: int| 0 <= j < i ==> #[trigger] value_fits(s[j]),
        decreases attrs.len() - i,
    {
        let a = &attrs[i];
        let vlen = a.value.len();
        proof {
            lemma_attrs_bytes_split(s, i as int + 1);
            lemma_attrs_bytes_push(s, i as int);
        }
        if vlen > MAX_ATTR_VALUE_LEN {
            assert(!value_fits(s[i as int]));
            return Err(NlError::Encoding);
        }
        let total = vlen + ATTR_HEADER_LEN;
        let aligned = align_to(total);
        if aligned > MAX_BUFFER_LEN - out.len() {
            assert(attrs_bytes(s.take(i as int + 1)).len() > MAX_BUFFER_LEN);
            return Err(NlError::Encoding);
        }
        let ghost before = out@;
        push_u16(&mut out, total as u16);
        push_u16(&mut out, a.attr_type);
        let mut k: usize = 0;
        while k < vlen
            invariant
                k <= vlen,
                vlen == a.value@.len(),
                out@ == before + le16(total as u16) + le16(a.attr_type) + a.value@.take(k as int),
            decreases vlen - k,
        {
            out.push(a.value[k]);
            proof {
                assert(a.value@.take(k as int + 1) =~= a.value@.take(k as int).push(a.value@[k as int]));
            }
            k = k + 1;
        }
        let mut p: usize = total;
        while p < aligned
            invariant
                total <= p <= aligned,
                out@ == before + le16(total as u16) + le16(a.attr_type) + a.value@ + zeros((p - total) as nat),
            decreases aligned - p,
        {
            out.push(0u8);
            proof {
                assert(zeros((p + 1 - total) as nat) =~= zeros((p - total) as nat).push(0u8));
            }
            p = p + 1;
        }
        proof {
            assert(a.value@.take(vlen as int) =~= a.value@);
            assert(s[i as int] == a@);
            assert(out@ =~= before + attr_bytes(s[i as int]));
        }
        i = i + 1;
    }
    proof {
        assert(s.take(i as int) =~= s);
    }
    Ok(out)
}

/// Copies `b[start..end]` into a new vector.
pub fn copy_range(b: &[u8], start: usize, end: usize) -> (r: Vec<u8>)
    requires
        start <= end <= b@.len(),
    ensures
        r@ == b@.subrange(start as int, end as int),
{
    let mut out: Vec<u8> = Vec::new();
    let mut k: usize = start;
    while k < end
        invariant
            start <= k <= end,
            end <= b@.len(),
            out@ == b@.subrange(start as int, k as int),
        decreases end - k,
    {
        out.push(b[k]);
        proof {
            assert(b@.subrange(start as int, k as int + 1) =~= b@.subrange(start as int, k as int).push(b@[k as int]));
        }
        k = k + 1;
    }
    out
}

/// Decodes the attributes held in `b`, front to back.
pub fn decode_attributes(b: &[u8]) -> (r: Result<Vec<Attribute>, NlError>)
    ensures
        match r {
            Ok(v) => decode_attrs(b@) == Ok::<_, NlError>(attrs_view(v@)),
            Err(e) => decode_attrs(b@) == Err::<Seq<(u16, Seq<u8>)>, _>(e),
        },
{
    let mut out: Vec<Attribute> = Vec::new();
    let mut pos: usize = 0;
    proof {
        assert(b@.skip(0) =~= b@);
        assert(attrs_view(out@) =~= Seq::<(u16, Seq<u8>)>::empty());
        assert(Seq::<(u16, Seq<u8>)>::empty() + Seq::<(u16, Seq<u8>)>::empty() =~= Seq::<(u16, Seq<u8>)>::empty());
    }
    while pos < b.len()
        invariant
            pos <= b@.len(),
            decode_attrs(b@) == prepend(attrs_view(out@), decode_attrs(b@.skip(pos as int))),
        decreases b@.len() - pos,
    {
        let ghost rest = b@.skip(pos as int);
        let remaining = b.len() - pos;
        if remaining < ATTR_HEADER_LEN {
            return Err(NlError::TruncatedAttribute);
        }
        let len = get_u16(b, pos) as usize;
        assert(len == read16(rest, 0));
        if len < ATTR_HEADER_LEN {
            return Err(NlError::MalformedAttribute);
        }
        if len > remaining {
            return Err(NlError::TruncatedAttribute);
        }
        let attr_type = get_u16(b, pos + 2);
        assert(attr_type == read16(rest, 2));
        let value = copy_range(b, pos + 4, pos + len);
        let aligned = align_to(len);
        let next = if aligned <= remaining { aligned } else { remaining };
        let ghost item = (attr_type, value@);
        proof {
            assert(value@ =~= rest.subrange(4, len as int));
            assert(rest.skip(next as int) =~= b@.skip(pos + next));
            let tail = decode_attrs(b@.skip(pos + next));
            let prev = attrs_view(out@);
            assert(decode_attrs(rest) == prepend(seq![item], tail));
            match tail {
                Ok(ts) => {
                    assert(prev + (seq![item] + ts) =~= (prev + seq![item]) + ts);
                }
                Err(_) => {}
            }
        }
        let ghost prev_out = out@;
        out.push(Attribute { attr_type, value });
        proof {
            assert(attrs_view(out@) =~= attrs_view(prev_out) + seq![item]);
        }
        pos = pos + next;
    }
    proof {
        assert(b@.skip(pos as int) =~= Seq::<u8>::empty());
        assert(attrs_view(out@) + Seq::<(u16, Seq<u8>)>::empty() =~= attrs_view(out@));
    }
    Ok(out)
}

proof fn lemma_decode_one(a: (u16, Seq<u8>), rest: Seq<u8>)
    requires
        value_fits(a),
    ensures
        decode_attrs(attr_bytes(a) + rest) == prepend(seq![a], decode_attrs(rest)),
{
    let head = attr_bytes(a);
    let b = head + rest;
    let len = (a.1.len() + 4) as u16;
    assert(len as nat == a.1.len() + 4);
    assert(head.len() == len + pad(len as nat));
    assert(b[0] == (len % 256) as u8);
    assert(b[1] == (len / 256) as u8);
    assert(b[2] == (a.0 % 256) as u8);
    assert(b[3] == (a.0 / 256) as u8);
    assert(read16(b, 0) == len);
    assert(read16(b, 2) == a.0);
    assert(b.skip(head.len() as int) =~= rest);
    assert(b.subrange(4, len as int) =~= a.1);
}

/// Decoding the encoding of any attribute sequence whose values fit their length
/// fields gives back the same type ids and values, in the same order.
pub proof fn lemma_attrs_round_trip(s: Seq<(u16, Seq<u8>)>)
    requires
        forall|i: int| 0 <= i < s.len() ==> #[trigger] value_fits(s[i]),
    ensures
        decode_attrs(attrs_bytes(s)) == Ok::<_, NlError>(s),
    decreases s.len(),
{
    if s.len() == 0 {
        assert(attrs_bytes(s) =~= Seq::<u8>::empty());
        assert(s =~= Seq::<(u16, Seq<u8>)>::empty());
    } else {
        let t = s.skip(1);
        assert forall|i: int| 0 <= i < t.len() implies #[trigger] value_fits(t[i]) by {
            assert(value_fits(s[i + 1]));
        }
        lemma_attrs_round_trip(t);
        assert(value_fits(s[0]));
        lemma_decode_one(s[0], attrs_bytes(t));
        assert(seq![s[0]] + t =~= s);
    }
}

/// The byte offset at which the `i`-th attribute of `s` starts in its encoding.
pub open spec fn attr_offset(s: Seq<(u16, Seq<u8>)>, i: int) -> nat {
    attrs_bytes(s.take(i)).len()
}

proof fn lemma_attrs_bytes_aligned(s: Seq<(u16, Seq<u8>)>)
    ensures
        attrs_bytes(s).len() % 4 == 0,
    decreases s.len(),
{
    if s.len() > 0 {
        lemma_attrs_bytes_aligned(s.skip(1));
    }
}

/// Every attribute of an encoding starts at a multiple of four, and its length
/// and type fields stand there.
pub proof fn lemma_attr_offsets_aligned(s: Seq<(u16, Seq<u8>)>, i: int)
    requires
        0 <= i < s.len(),
        forall|j: int| 0 <= j < s.len() ==> #[trigger] value_fits(s[j]),
    ensures
        attr_offset(s, i) % 4 == 0,
        attr_offset(s, i) + 4 <= attrs_bytes(s).len(),
        read16(attrs_bytes(s), attr_offset(s, i) as int) == s[i].1.len() + 4,
        read16(attrs_bytes(s), attr_offset(s, i) as int + 2) == s[i].0,
{
    lemma_attrs_bytes_aligned(s.take(i));
    lemma_attrs_bytes_split(s, i);
    let pre = attrs_bytes(s.take(i));
    let rest = s.skip(i);
    let b = attrs_bytes(s);
    let off = pre.len() as int;
    assert(rest[0] == s[i]);
    assert(attrs_bytes(rest) == attr_bytes(s[i]) + attrs_bytes(rest.skip(1)));
    assert(value_fits(s[i]));
    let len = (s[i].1.len() + 4) as u16;
    assert(b[off] == (len % 256) as u8);
    assert(b[off + 1] == (len / 256) as u8);
    assert(b[off + 2] == (s[i].0 % 256) as u8);
    assert(b[off + 3] == (s[i].0 / 256) as u8);
}

/// Returns the index of the first attribute of type `t`, or `None` where no
/// attribute has that type.
pub fn find_attribute(attrs: &Vec<Attribute>, t: u16) -> (r: Option<usize>)
    ensures
        match r {
            Some(i) => i < attrs@.len() && attrs@[i as int].attr_type == t
                && forall|j: int| 0 <= j < i ==> attrs@[j].attr_type != t,
            None => forall|j: int| 0 <= j < attrs@.len() ==> attrs@[j].attr_type != t,
        },
{
    let mut i: usize = 0;
    while i < attrs.len()
        invariant
            i <= attrs@.len(),
            forall|j: int| 0 <= j < i ==> attrs@[j].attr_type != t,
        decreases attrs.len() - i,
    {
        if attrs[i].attr_type == t {
            return Some(i);
        }
        i = i + 1;
    }
    None
}

/// The bytes of a string value without one trailing null terminator, if present.
pub open spec fn strip_nul(v: Seq<u8>) -> Seq<u8> {
    if v.len() > 0 && v.last() == 0 {
        v.drop_last()
    } else {
        v
    }
}

/// Relies on String::from_utf8: it succeeds exactly on valid UTF-8 and then
/// holds the characters those bytes encode.
#[verifier::external_body]
fn utf8_string(b: Vec<u8>) -> (r: Option<String>)
    ensures
        r is Some <==> valid_utf8(b@),
        r matches Some(s) ==> s@ == decode_utf8(b@),
{
    String::from_utf8(b).ok()
}

impl Attribute {
    /// An attribute whose value is `s` as a null-terminated UTF-8 string.
    pub fn from_str_value(attr_type: u16, s: &str) -> (r: Attribute)
        ensures
            r.attr_type == attr_type,
            r.value@ == encode_utf8(s@).push(0),
    {
        let mut value = s.as_bytes_vec();
        value.push(0u8);
        Attribute { attr_type, value }
    }

    /// The value read as a string: one trailing null terminator is dropped, and
    /// the rest must be valid UTF-8.
    pub fn string_value(&self) -> (r: Result<String, NlError>)
        ensures
            valid_utf8(strip_nul(self.value@)) ==> (r matches Ok(s) && s@ == decode_utf8(strip_nul(self.value@))),
            !valid_utf8(strip_nul(self.value@)) ==> r == Err::<String, _>(NlError::InvalidString),
    {
        let n = self.value.len();
        let end = if n > 0 && self.value[n - 1] == 0 { n - 1 } else { n };
        let bytes = copy_range(self.value.as_slice(), 0, end);
        proof {
            assert(bytes@ =~= strip_nul(self.value@));
        }
        match utf8_string(bytes) {
            Some(s) => Ok(s),
            None => Err(NlError::InvalidString),
        }
    }
}

/// A string stored by `from_str_value` reads back unchanged through `string_value`.
pub proof fn lemma_string_value_round_trip(chars: Seq<char>)
    ensures
        valid_utf8(strip_nul(encode_utf8(chars).push(0))),
        decode_utf8(strip_nul(encode_utf8(chars).push(0))) == chars,
{
    assert(strip_nul(encode_utf8(chars).push(0)) =~= encode_utf8(chars));
    vstd::utf8::encode_utf8_valid_utf8(chars);
    vstd::utf8::encode_utf8_decode_utf8(chars);
}

} // verus!
