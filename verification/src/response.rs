//! The saved HTTP response and its storable record form.
//!
//! A response that finished a command is persisted next to the idempotency
//! record so a retry can be answered byte-for-byte. The record form is a
//! single byte string: status, header count, then each header as two
//! length-prefixed byte strings, then the body. Lengths are little-endian;
//! [`lemma_decode_encode`] proves that decoding an encoded response gives
//! the response back unchanged.

use vstd::bytes::*;
use vstd::prelude::*;
use vstd::slice::{slice_subrange, slice_to_vec};
use vstd::string::StringSliceAdditionalSpecFns;

verus! {

/// The mathematical content of a saved response.
#[verifier::ext_equal]
pub struct ResponseModel {
    pub status: u16,
    pub headers: Seq<(Seq<u8>, Seq<u8>)>,
    pub body: Seq<u8>,
}

impl ResponseModel {
    /// A storable response: a real HTTP status, and sizes that the record
    /// form's 64-bit length prefixes can carry.
    pub open spec fn wf(self) -> bool {
        &&& 100 <= self.status < 1000
        &&& self.headers.len() <= 0xffff_ffff_ffff_ffffu64
        &&& forall|i: int|
            0 <= i < self.headers.len() ==> (#[trigger] self.headers[i]).0.len()
                <= 0xffff_ffff_ffff_ffffu64 && self.headers[i].1.len() <= 0xffff_ffff_ffff_ffffu64
    }
}

/// One response header: a name and a value, both byte strings.
#[derive(Clone, Debug)]
pub struct HeaderPair {
    pub name: Vec<u8>,
    pub value: Vec<u8>,
}

impl View for HeaderPair {
    type V = (Seq<u8>, Seq<u8>);

    open spec fn view(&self) -> (Seq<u8>, Seq<u8>) {
        (self.name@, self.value@)
    }
}

/// An HTTP response as the command handler stores and replays it:
/// status, ordered headers, body.
#[derive(Clone, Debug)]
pub struct SavedResponse {
    pub status_code: u16,
    pub headers: Vec<HeaderPair>,
    pub body: Vec<u8>,
}

impl View for SavedResponse {
    type V = ResponseModel;

    open spec fn view(&self) -> ResponseModel {
        ResponseModel {
            status: self.status_code,
            headers: self.headers@.map_values(|h: HeaderPair| h@),
            body: self.body@,
        }
    }
}

impl SavedResponse {
    /// The status code is a real HTTP status.
    pub open spec fn wf(self) -> bool {
        100 <= self.status_code < 1000
    }
}

/// A response held in memory always has a storable model: its vectors are
/// machine-sized, so they fit the record form's 64-bit length prefixes.
pub proof fn lemma_saved_response_model_wf(r: SavedResponse)
    requires
        r.wf(),
    ensures
        r@.wf(),
{
    assert(r.headers@.len() == r.headers.len());
    assert(r@.headers.len() == r.headers@.len());
    assert forall|i: int| 0 <= i < r@.headers.len() implies (#[trigger] r@.headers[i]).0.len()
        <= 0xffff_ffff_ffff_ffffu64 && r@.headers[i].1.len() <= 0xffff_ffff_ffff_ffffu64 by {
        assert(r@.headers[i] == r.headers@[i]@);
        assert(r.headers@[i].name@.len() == r.headers@[i].name.len());
        assert(r.headers@[i].value@.len() == r.headers@[i].value.len());
    }
}

/// The record form of one header: length-prefixed name, length-prefixed value.
pub open spec fn spec_encode_header(h: (Seq<u8>, Seq<u8>)) -> Seq<u8> {
    spec_u64_to_le_bytes(h.0.len() as u64) + h.0 + spec_u64_to_le_bytes(h.1.len() as u64) + h.1
}

/// The record form of a header sequence: each header in order.
pub open spec fn spec_encode_headers(hs: Seq<(Seq<u8>, Seq<u8>)>) -> Seq<u8>
    decreases hs.len(),
{
    if hs.len() == 0 {
        Seq::empty()
    } else {
        spec_encode_header(hs[0]) + spec_encode_headers(hs.drop_first())
    }
}

/// The record form of a whole response.
pub open spec fn spec_encode(m: ResponseModel) -> Seq<u8> {
    spec_u16_to_le_bytes(m.status) + spec_u64_to_le_bytes(m.headers.len() as u64)
        + spec_encode_headers(m.headers) + m.body
}

/// Parses `n` record-form headers from the front of `bytes`; on success
/// returns them with the bytes that follow.
pub open spec fn spec_parse_headers(bytes: Seq<u8>, n: nat) -> Option<
    (Seq<(Seq<u8>, Seq<u8>)>, Seq<u8>),
>
    decreases n,
{
    if n == 0 {
        Some((Seq::empty(), bytes))
    } else if bytes.len() < 8 {
        None
    } else {
        let name_len = spec_u64_from_le_bytes(bytes.take(8)) as int;
        if bytes.len() < 8 + name_len {
            None
        } else {
            let name = bytes.subrange(8, 8 + name_len);
            let rest1 = bytes.skip(8 + name_len);
            if rest1.len() < 8 {
                None
            } else {
                let value_len = spec_u64_from_le_bytes(rest1.take(8)) as int;
                if rest1.len() < 8 + value_len {
                    None
                } else {
                    let value = rest1.subrange(8, 8 + value_len);
                    let rest2 = rest1.skip(8 + value_len);
                    match spec_parse_headers(rest2, (n - 1) as nat) {
                        None => None,
                        Some(p) => Some((seq![(name, value)] + p.0, p.1)),
                    }
                }
            }
        }
    }
}

/// Parses a whole record: status, header count, headers; the rest is the
/// body. Fails on a short record, a status that is not a real HTTP status,
/// or headers that overrun the record.
pub open spec fn spec_decode(bytes: Seq<u8>) -> Option<ResponseModel> {
    if bytes.len() < 10 {
        None
    } else {
        let status = spec_u16_from_le_bytes(bytes.take(2));
        let n = spec_u64_from_le_bytes(bytes.subrange(2, 10));
        if !(100 <= status < 1000) {
            None
        } else {
            match spec_parse_headers(bytes.skip(10), n as nat) {
                None => None,
                Some(p) => Some(ResponseModel { status, headers: p.0, body: p.1 }),
            }
        }
    }
}

/// Sizes that every header of a sequence must respect for its lengths to
/// survive the 64-bit prefixes.
pub open spec fn headers_bounded(hs: Seq<(Seq<u8>, Seq<u8>)>) -> bool {
    forall|i: int|
        0 <= i < hs.len() ==> (#[trigger] hs[i]).0.len() <= 0xffff_ffff_ffff_ffffu64 && hs[i].1.len()
            <= 0xffff_ffff_ffff_ffffu64
}

proof fn lemma_parse_encoded_headers(hs: Seq<(Seq<u8>, Seq<u8>)>, tail: Seq<u8>)
    requires
        headers_bounded(hs),
    ensures
        spec_parse_headers(spec_encode_headers(hs) + tail, hs.len()) == Some((hs, tail)),
    decreases hs.len(),
{
    lemma_auto_spec_u64_to_from_le_bytes();
    if hs.len() == 0 {
        assert(spec_encode_headers(hs) + tail =~= tail);
        assert(spec_parse_headers(tail, 0) == Some((Seq::<(Seq<u8>, Seq<u8>)>::empty(), tail)));
        assert(hs =~= Seq::<(Seq<u8>, Seq<u8>)>::empty());
    } else {
        let h = hs[0];
        let rest = hs.drop_first();
        assert(headers_bounded(rest)) by {
            assert(forall|i: int| 0 <= i < rest.len() ==> rest[i] == hs[i + 1]);
        }
        let name_len_bytes = spec_u64_to_le_bytes(h.0.len() as u64);
        let value_len_bytes = spec_u64_to_le_bytes(h.1.len() as u64);
        let bytes = spec_encode_headers(hs) + tail;
        assert(bytes =~= name_len_bytes + h.0 + value_len_bytes + h.1 + (spec_encode_headers(rest)
            + tail));
        let nl = h.0.len() as int;
        let vl = h.1.len() as int;
        assert(bytes.take(8) =~= name_len_bytes);
        assert(spec_u64_from_le_bytes(bytes.take(8)) as int == nl);
        assert(bytes.len() >= 8 + nl);
        assert(bytes.subrange(8, 8 + nl) =~= h.0);
        let rest1 = bytes.skip(8 + nl);
        assert(rest1 =~= value_len_bytes + h.1 + (spec_encode_headers(rest) + tail));
        assert(rest1.take(8) =~= value_len_bytes);
        assert(spec_u64_from_le_bytes(rest1.take(8)) as int == vl);
        assert(rest1.len() >= 8 + vl);
        assert(rest1.subrange(8, 8 + vl) =~= h.1);
        let rest2 = rest1.skip(8 + vl);
        assert(rest2 =~= spec_encode_headers(rest) + tail);
        lemma_parse_encoded_headers(rest, tail);
        assert(spec_parse_headers(rest2, rest.len()) == Some((rest, tail)));
        assert(seq![(h.0, h.1)] + rest =~= hs);
        assert((h.0, h.1) == h);
    }
}

/// Law: decoding the record form of a storable response gives the response
/// back unchanged.
pub proof fn lemma_decode_encode(m: ResponseModel)
    requires
        m.wf(),
    ensures
        spec_decode(spec_encode(m)) == Some(m),
{
    lemma_auto_spec_u16_to_from_le_bytes();
    lemma_auto_spec_u64_to_from_le_bytes();
    let bytes = spec_encode(m);
    assert(bytes.take(2) =~= spec_u16_to_le_bytes(m.status));
    assert(bytes.subrange(2, 10) =~= spec_u64_to_le_bytes(m.headers.len() as u64));
    assert(spec_u16_from_le_bytes(bytes.take(2)) == m.status);
    assert(spec_u64_from_le_bytes(bytes.subrange(2, 10)) == m.headers.len() as u64);
    assert(bytes.skip(10) =~= spec_encode_headers(m.headers) + m.body);
    assert(headers_bounded(m.headers));
    lemma_parse_encoded_headers(m.headers, m.body);
}

/// Law: two storable responses with the same record form are the same
/// response.
pub proof fn lemma_encode_injective(m1: ResponseModel, m2: ResponseModel)
    requires
        m1.wf(),
        m2.wf(),
        spec_encode(m1) == spec_encode(m2),
    ensures
        m1 == m2,
{
    lemma_decode_encode(m1);
    lemma_decode_encode(m2);
}

proof fn lemma_encode_headers_snoc(hs: Seq<(Seq<u8>, Seq<u8>)>)
    requires
        hs.len() > 0,
    ensures
        spec_encode_headers(hs) == spec_encode_headers(hs.drop_last()) + spec_encode_header(
            hs.last(),
        ),
    decreases hs.len(),
{
    if hs.len() == 1 {
        assert(hs.drop_last() =~= Seq::<(Seq<u8>, Seq<u8>)>::empty());
        assert(hs.drop_first() =~= Seq::<(Seq<u8>, Seq<u8>)>::empty());
        assert(spec_encode_headers(hs.drop_first()) == Seq::<u8>::empty());
        assert(spec_encode_headers(hs.drop_last()) == Seq::<u8>::empty());
        assert(spec_encode_headers(hs) =~= spec_encode_header(hs[0]) + Seq::<u8>::empty());
        assert(spec_encode_header(hs[0]) + Seq::<u8>::empty() =~= spec_encode_header(hs[0]));
        assert(spec_encode_headers(hs.drop_last()) + spec_encode_header(hs.last())
            =~= spec_encode_header(hs[0]));
    } else {
        let rest = hs.drop_first();
        lemma_encode_headers_snoc(rest);
        assert(rest.drop_last() =~= hs.drop_last().drop_first());
        assert(rest.last() == hs.last());
        assert(hs.drop_last()[0] == hs[0]);
        assert(hs.drop_last().len() > 0);
        assert(spec_encode_headers(hs.drop_last()) == spec_encode_header(hs[0])
            + spec_encode_headers(hs.drop_last().drop_first()));
        assert(spec_encode_headers(hs) =~= spec_encode_headers(hs.drop_last())
            + spec_encode_header(hs.last()));
    }
}

/// Turns a response into its record form.
pub fn encode_response(r: &SavedResponse) -> (out: Vec<u8>)
    ensures
        out@ == spec_encode(r@),
{
    let mut out = u16_to_le_bytes(r.status_code);
    let n = r.headers.len();
    let mut count_bytes = u64_to_le_bytes(n as u64);
    out.append(&mut count_bytes);
    let ghost hs = r@.headers;
    assert(hs.len() == n);
    let mut i: usize = 0;
    assert(hs.take(0) =~= Seq::<(Seq<u8>, Seq<u8>)>::empty());
    while i < n
        invariant
            i <= n,
            n == r.headers.len(),
            hs == r@.headers,
            hs.len() == n,
            out@ == spec_u16_to_le_bytes(r.status_code) + spec_u64_to_le_bytes(n as u64)
                + spec_encode_headers(hs.take(i as int)),
        decreases n - i,
    {
        let name_len = r.headers[i].name.len();
        let mut nl_bytes = u64_to_le_bytes(name_len as u64);
        out.append(&mut nl_bytes);
        out.extend_from_slice(r.headers[i].name.as_slice());
        let value_len = r.headers[i].value.len();
        let mut vl_bytes = u64_to_le_bytes(value_len as u64);
        out.append(&mut vl_bytes);
        out.extend_from_slice(r.headers[i].value.as_slice());
        proof {
            let t = hs.take(i + 1);
            assert(t.drop_last() =~= hs.take(i as int));
            assert(t.last() == hs[i as int]);
            lemma_encode_headers_snoc(t);
            assert(hs[i as int] == r.headers@[i as int]@);
            assert(out@ =~= spec_u16_to_le_bytes(r.status_code) + spec_u64_to_le_bytes(n as u64)
                + spec_encode_headers(hs.take(i + 1)));
        }
        i = i + 1;
    }
    assert(hs.take(n as int) =~= hs);
    out.extend_from_slice(r.body.as_slice());
    assert(out@ =~= spec_encode(r@));
    out
}

/// Reads a record form back into a response. Returns the unique response
/// whose record the bytes are, or nothing when the bytes are no record.
pub fn decode_response(bytes: &[u8]) -> (r: Option<SavedResponse>)
    ensures
        match r {
            Some(resp) => spec_decode(bytes@) == Some(resp@),
            None => spec_decode(bytes@) is None,
        },
{
    if bytes.len() < 10 {
        return None;
    }
    let status = u16_from_le_bytes(slice_subrange(bytes, 0, 2));
    proof {
        assert(bytes@.subrange(0, 2) =~= bytes@.take(2));
    }
    if status < 100 || status >= 1000 {
        return None;
    }
    let n64 = u64_from_le_bytes(slice_subrange(bytes, 2, 10));
    proof {
        lemma_parse_headers_needs_bytes(bytes@.skip(10), n64 as nat);
    }
    if n64 > (bytes.len() - 10) as u64 {
        return None;
    }
    let n = n64 as usize;
    let mut headers: Vec<HeaderPair> = Vec::new();
    let mut pos: usize = 10;
    let mut i: usize = 0;
    assert(bytes@.skip(10) =~= bytes@.skip(pos as int));
    while i < n
        invariant
            i <= n,
            n == n64,
            bytes@.len() >= 10,
            status == spec_u16_from_le_bytes(bytes@.take(2)),
            100 <= status < 1000,
            n64 == spec_u64_from_le_bytes(bytes@.subrange(2, 10)),
            10 <= pos <= bytes@.len(),
            headers@.len() == i,
            spec_parse_headers(bytes@.skip(10), n as nat) == (match spec_parse_headers(
                bytes@.skip(pos as int),
                (n - i) as nat,
            ) {
                None => None::<(Seq<(Seq<u8>, Seq<u8>)>, Seq<u8>)>,
                Some(p) => Some(
                    (headers@.map_values(|h: HeaderPair| h@) + p.0, p.1),
                ),
            }),
        decreases n - i,
    {
        let ghost cur = bytes@.skip(pos as int);
        let ghost remaining = (n - i) as nat;
        if bytes.len() - pos < 8 {
            assert(spec_parse_headers(cur, remaining) is None);
            return None;
        }
        let name_len64 = u64_from_le_bytes(slice_subrange(bytes, pos, pos + 8));
        proof {
            assert(bytes@.subrange(pos as int, pos + 8) =~= cur.take(8));
        }
        if name_len64 > (bytes.len() - pos - 8) as u64 {
            assert(spec_parse_headers(cur, remaining) is None);
            return None;
        }
        let name_len = name_len64 as usize;
        let name = slice_to_vec(slice_subrange(bytes, pos + 8, pos + 8 + name_len));
        proof {
            assert(bytes@.subrange(pos + 8, pos + 8 + name_len) =~= cur.subrange(
                8,
                8 + name_len as int,
            ));
        }
        let pos1 = pos + 8 + name_len;
        let ghost rest1 = cur.skip(8 + name_len as int);
        proof {
            assert(rest1 =~= bytes@.skip(pos1 as int));
        }
        if bytes.len() - pos1 < 8 {
            assert(spec_parse_headers(cur, remaining) is None);
            return None;
        }
        let value_len64 = u64_from_le_bytes(slice_subrange(bytes, pos1, pos1 + 8));
        proof {
            assert(bytes@.subrange(pos1 as int, pos1 + 8) =~= rest1.take(8));
        }
        if value_len64 > (bytes.len() - pos1 - 8) as u64 {
            assert(spec_parse_headers(cur, remaining) is None);
            return None;
        }
        let value_len = value_len64 as usize;
        let value = slice_to_vec(slice_subrange(bytes, pos1 + 8, pos1 + 8 + value_len));
        proof {
            assert(bytes@.subrange(pos1 + 8, pos1 + 8 + value_len) =~= rest1.subrange(
                8,
                8 + value_len as int,
            ));
        }
        let ghost rest2 = rest1.skip(8 + value_len as int);
        let ghost old_headers = headers@;
        headers.push(HeaderPair { name, value });
        pos = pos1 + 8 + value_len;
        proof {
            assert(rest2 =~= bytes@.skip(pos as int));
            assert(headers@.map_values(|h: HeaderPair| h@) =~= old_headers.map_values(
                |h: HeaderPair| h@,
            ) + seq![(name@, value@)]);
            assert(forall|p: (Seq<(Seq<u8>, Seq<u8>)>, Seq<u8>)|
                old_headers.map_values(|h: HeaderPair| h@) + (seq![(name@, value@)] + p.0)
                    =~= (old_headers.map_values(|h: HeaderPair| h@) + seq![(name@, value@)])
                    + p.0);
        }
        i = i + 1;
    }
    assert(spec_parse_headers(bytes@.skip(pos as int), 0) == Some(
        (Seq::<(Seq<u8>, Seq<u8>)>::empty(), bytes@.skip(pos as int)),
    ));
    let body = slice_to_vec(slice_subrange(bytes, pos, bytes.len()));
    proof {
        assert(bytes@.subrange(pos as int, bytes@.len() as int) =~= bytes@.skip(pos as int));
        assert(headers@.map_values(|h: HeaderPair| h@) + Seq::<(Seq<u8>, Seq<u8>)>::empty()
            =~= headers@.map_values(|h: HeaderPair| h@));
    }
    let resp = SavedResponse { status_code: status, headers, body };
    Some(resp)
}

/// The model of a "see other" redirect: status 303 with one `Location`
/// header and an empty body.
pub open spec fn see_other_model(location: Seq<u8>) -> ResponseModel {
    ResponseModel {
        status: 303,
        headers: seq![("Location".spec_bytes(), location)],
        body: Seq::empty(),
    }
}

/// A redirect response pointing at `location`, as the command handler
/// stores and returns it.
pub fn see_other(location: &str) -> (r: SavedResponse)
    ensures
        r@ == see_other_model(location.spec_bytes()),
        r.wf(),
        r@.wf(),
{
    let name = "Location".as_bytes_vec();
    let value = location.as_bytes_vec();
    let mut headers: Vec<HeaderPair> = Vec::new();
    headers.push(HeaderPair { name, value });
    let r = SavedResponse { status_code: 303, headers, body: Vec::new() };
    proof {
        assert(r@.headers =~= seq![("Location".spec_bytes(), location.spec_bytes())]);
        assert(r@.body =~= Seq::<u8>::empty());
        assert(r@ =~= see_other_model(location.spec_bytes()));
        lemma_saved_response_model_wf(r);
    }
    r
}

proof fn lemma_parse_headers_needs_bytes(bytes: Seq<u8>, n: nat)
    ensures
        spec_parse_headers(bytes, n) is Some ==> n <= bytes.len(),
    decreases n,
{
    if n > 0 && bytes.len() >= 8 {
        let name_len = spec_u64_from_le_bytes(bytes.take(8)) as int;
        if bytes.len() >= 8 + name_len {
            let rest1 = bytes.skip(8 + name_len);
            if rest1.len() >= 8 {
                let value_len = spec_u64_from_le_bytes(rest1.take(8)) as int;
                if rest1.len() >= 8 + value_len {
                    lemma_parse_headers_needs_bytes(rest1.skip(8 + value_len), (n - 1) as nat);
                }
            }
        }
    }
}

} // verus!
