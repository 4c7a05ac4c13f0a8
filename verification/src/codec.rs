//! The binary wire codec for the daemon protocol.
//!
//! Messages are framed by the encoding's own length information: a one-byte
//! message tag, integers in little-endian order, strings as a byte count
//! followed by their UTF-8 bytes, optional values behind a one-byte presence
//! tag, and string lists behind an element count.  Decoding accepts exactly
//! the encodings of whole messages and nothing else; decoding an encoded
//! message gives the message back.

use vstd::prelude::*;
use vstd::bytes::{
    spec_u32_from_le_bytes, spec_u32_to_le_bytes, spec_u64_from_le_bytes, spec_u64_to_le_bytes,
    u32_from_le_bytes, u32_to_le_bytes, u64_from_le_bytes, u64_to_le_bytes,
    lemma_auto_spec_u32_to_from_le_bytes, lemma_auto_spec_u64_to_from_le_bytes,
};
use vstd::slice::{slice_subrange, slice_to_vec};
use vstd::string::StrSliceExecFns;
use vstd::utf8::{decode_utf8, encode_utf8, valid_utf8, encode_utf8_valid_utf8,
    encode_utf8_decode_utf8};
use crate::protocol::{
    CreateTopicRequest, CreateTopicResponse, ListTopicRequest, ListTopicResponse, Request,
    RequestAbs, Response, ResponseAbs, SearchTopicRequest, SearchTopicResponse,
    UpdateTopicRequest, UpdateTopicResponse, opt_string_abs, strings_abs,
};

verus! {

/// The bytes were not the encoding of a whole message.
#[derive(Clone, Copy, PartialEq, Eq, Structural, Debug)]
pub enum CodecError {
    Malformed,
}

// ---------------------------------------------------------------------------
// The encoding, at the mathematical level.
// ---------------------------------------------------------------------------

pub open spec fn enc_u64(x: u64) -> Seq<u8> {
    spec_u64_to_le_bytes(x)
}

pub open spec fn enc_u32(x: u32) -> Seq<u8> {
    spec_u32_to_le_bytes(x)
}

pub open spec fn enc_bool(b: bool) -> Seq<u8> {
    seq![
        if b {
            1u8
        } else {
            0u8
        },
    ]
}

pub open spec fn enc_string(s: Seq<char>) -> Seq<u8> {
    enc_u64(encode_utf8(s).len() as u64) + encode_utf8(s)
}

pub open spec fn enc_opt_string(o: Option<Seq<char>>) -> Seq<u8> {
    match o {
        None => seq![0u8],
        Some(s) => seq![1u8] + enc_string(s),
    }
}

pub open spec fn enc_strings(v: Seq<Seq<char>>) -> Seq<u8>
    decreases v.len(),
{
    if v.len() == 0 {
        Seq::empty()
    } else {
        enc_string(v[0]) + enc_strings(v.drop_first())
    }
}

pub open spec fn spec_encode_request(m: RequestAbs) -> Seq<u8> {
    match m {
        RequestAbs::CreateTopic { topic_name, content } => seq![0u8] + enc_string(topic_name)
            + enc_string(content),
        RequestAbs::UpdateTopic { topic_name, content } => seq![1u8] + enc_string(topic_name)
            + enc_string(content),
        RequestAbs::SearchTopic { topic_name, query, limit } => seq![2u8] + enc_opt_string(
            topic_name,
        ) + enc_string(query) + enc_u64(limit),
        RequestAbs::ListTopic { topic_name, limit } => seq![3u8] + enc_string(topic_name)
            + enc_u32(limit),
    }
}

pub open spec fn spec_encode_response(m: ResponseAbs) -> Seq<u8> {
    match m {
        ResponseAbs::CreateTopic { success } => seq![0u8] + enc_bool(success),
        ResponseAbs::UpdateTopic { success } => seq![1u8] + enc_bool(success),
        ResponseAbs::SearchTopic { results } => seq![2u8] + enc_u64(results.len() as u64)
            + enc_strings(results),
        ResponseAbs::ListTopic { results } => seq![3u8] + enc_u64(results.len() as u64)
            + enc_strings(results),
    }
}

/// A string whose UTF-8 byte count fits the length field.
pub open spec fn string_encodable(s: Seq<char>) -> bool {
    encode_utf8(s).len() <= u64::MAX
}

/// A request the wire format can carry.  Every request built from executable
/// strings satisfies this.
pub open spec fn request_encodable(m: RequestAbs) -> bool {
    match m {
        RequestAbs::CreateTopic { topic_name, content } => string_encodable(topic_name)
            && string_encodable(content),
        RequestAbs::UpdateTopic { topic_name, content } => string_encodable(topic_name)
            && string_encodable(content),
        RequestAbs::SearchTopic { topic_name, query, .. } => (topic_name matches Some(t)
            ==> string_encodable(t)) && string_encodable(query),
        RequestAbs::ListTopic { topic_name, .. } => string_encodable(topic_name),
    }
}

/// A response the wire format can carry.  Every response built from
/// executable strings satisfies this.
pub open spec fn response_encodable(m: ResponseAbs) -> bool {
    match m {
        ResponseAbs::CreateTopic { .. } => true,
        ResponseAbs::UpdateTopic { .. } => true,
        ResponseAbs::SearchTopic { results } => results.len() <= u64::MAX && forall|i: int|
            0 <= i < results.len() ==> string_encodable(#[trigger] results[i]),
        ResponseAbs::ListTopic { results } => results.len() <= u64::MAX && forall|i: int|
            0 <= i < results.len() ==> string_encodable(#[trigger] results[i]),
    }
}

// ---------------------------------------------------------------------------
// The decoding, at the mathematical level: each reader yields the value and
// the position after it, or nothing when the bytes do not fit the format.
// ---------------------------------------------------------------------------

pub open spec fn dec_u64(bytes: Seq<u8>, i: int) -> Option<(u64, int)> {
    if 0 <= i && i + 8 <= bytes.len() {
        Some((spec_u64_from_le_bytes(bytes.subrange(i, i + 8)), i + 8))
    } else {
        None
    }
}

pub open spec fn dec_u32(bytes: Seq<u8>, i: int) -> Option<(u32, int)> {
    if 0 <= i && i + 4 <= bytes.len() {
        Some((spec_u32_from_le_bytes(bytes.subrange(i, i + 4)), i + 4))
    } else {
        None
    }
}

pub open spec fn dec_bool(bytes: Seq<u8>, i: int) -> Option<(bool, int)> {
    if 0 <= i && i + 1 <= bytes.len() {
        if bytes[i] == 1 {
            Some((true, i + 1))
        } else if bytes[i] == 0 {
            Some((false, i + 1))
        } else {
            None
        }
    } else {
        None
    }
}

pub open spec fn dec_string(bytes: Seq<u8>, i: int) -> Option<(Seq<char>, int)> {
    match dec_u64(bytes, i) {
        None => None,
        Some((n, j)) => {
            if j + n <= bytes.len() {
                if valid_utf8(bytes.subrange(j, j + n)) {
                    Some((decode_utf8(bytes.subrange(j, j + n)), j + n))
                } else {
                    None
                }
            } else {
                None
            }
        },
    }
}

pub open spec fn dec_opt_string(bytes: Seq<u8>, i: int) -> Option<(Option<Seq<char>>, int)> {
    if 0 <= i && i + 1 <= bytes.len() {
        if bytes[i] == 0 {
            Some((None, i + 1))
        } else if bytes[i] == 1 {
            match dec_string(bytes, i + 1) {
                None => None,
                Some((s, j)) => Some((Some(s), j)),
            }
        } else {
            None
        }
    } else {
        None
    }
}

pub open spec fn dec_strings(bytes: Seq<u8>, i: int, count: int) -> Option<(Seq<Seq<char>>, int)>
    decreases count,
{
    if count <= 0 {
        Some((Seq::empty(), i))
    } else {
        match dec_string(bytes, i) {
            None => None,
            Some((s, j)) => match dec_strings(bytes, j, count - 1) {
                None => None,
                Some((rest, k)) => Some((seq![s] + rest, k)),
            },
        }
    }
}

pub open spec fn spec_decode_request(bytes: Seq<u8>) -> Option<RequestAbs> {
    if bytes.len() < 1 {
        None
    } else if bytes[0] == 0 || bytes[0] == 1 {
        match dec_string(bytes, 1) {
            None => None,
            Some((topic_name, i)) => match dec_string(bytes, i) {
                None => None,
                Some((content, j)) => {
                    if j == bytes.len() {
                        if bytes[0] == 0 {
                            Some(RequestAbs::CreateTopic { topic_name, content })
                        } else {
                            Some(RequestAbs::UpdateTopic { topic_name, content })
                        }
                    } else {
                        None
                    }
                },
            },
        }
    } else if bytes[0] == 2 {
        match dec_opt_string(bytes, 1) {
            None => None,
            Some((topic_name, i)) => match dec_string(bytes, i) {
                None => None,
                Some((query, j)) => match dec_u64(bytes, j) {
                    None => None,
                    Some((limit, k)) => {
                        if k == bytes.len() {
                            Some(RequestAbs::SearchTopic { topic_name, query, limit })
                        } else {
                            None
                        }
                    },
                },
            },
        }
    } else if bytes[0] == 3 {
        match dec_string(bytes, 1) {
            None => None,
            Some((topic_name, i)) => match dec_u32(bytes, i) {
                None => None,
                Some((limit, j)) => {
                    if j == bytes.len() {
                        Some(RequestAbs::ListTopic { topic_name, limit })
                    } else {
                        None
                    }
                },
            },
        }
    } else {
        None
    }
}

pub open spec fn spec_decode_response(bytes: Seq<u8>) -> Option<ResponseAbs> {
    if bytes.len() < 1 {
        None
    } else if bytes[0] == 0 || bytes[0] == 1 {
        match dec_bool(bytes, 1) {
            None => None,
            Some((success, i)) => {
                if i == bytes.len() {
                    if bytes[0] == 0 {
                        Some(ResponseAbs::CreateTopic { success })
                    } else {
                        Some(ResponseAbs::UpdateTopic { success })
                    }
                } else {
                    None
                }
            },
        }
    } else if bytes[0] == 2 || bytes[0] == 3 {
        match dec_u64(bytes, 1) {
            None => None,
            Some((count, i)) => match dec_strings(bytes, i, count as int) {
                None => None,
                Some((results, j)) => {
                    if j == bytes.len() {
                        if bytes[0] == 2 {
                            Some(ResponseAbs::SearchTopic { results })
                        } else {
                            Some(ResponseAbs::ListTopic { results })
                        }
                    } else {
                        None
                    }
                },
            },
        }
    } else {
        None
    }
}

// ---------------------------------------------------------------------------
// Encoding, executable.
// ---------------------------------------------------------------------------

fn push_u64(out: &mut Vec<u8>, x: u64)
    ensures
        final(out)@ == old(out)@ + enc_u64(x),
{
    let mut b = u64_to_le_bytes(x);
    out.append(&mut b);
}

fn push_u32(out: &mut Vec<u8>, x: u32)
    ensures
        final(out)@ == old(out)@ + enc_u32(x),
{
    let mut b = u32_to_le_bytes(x);
    out.append(&mut b);
}

fn push_bool(out: &mut Vec<u8>, b: bool)
    ensures
        final(out)@ == old(out)@ + enc_bool(b),
{
    let ghost before = out@;
    if b {
        out.push(1);
    } else {
        out.push(0);
    }
    proof {
        assert(final(out)@ =~= before + enc_bool(b));
    }
}

fn push_string(out: &mut Vec<u8>, s: &String)
    ensures
        final(out)@ == old(out)@ + enc_string(s@),
{
    let ghost before = out@;
    let mut bytes = s.as_str().as_bytes_vec();
    push_u64(out, bytes.len() as u64);
    out.append(&mut bytes);
    proof {
        assert(final(out)@ =~= before + enc_string(s@));
    }
}

fn push_strings(out: &mut Vec<u8>, v: &Vec<String>)
    ensures
        final(out)@ == old(out)@ + enc_strings(strings_abs(v@)),
{
    let ghost before = out@;
    let ghost vabs = strings_abs(v@);
    let n = v.len();
    proof {
        assert(vabs.skip(0) =~= vabs);
    }
    for i in 0..n
        invariant
            n == v@.len(),
            vabs == strings_abs(v@),
            out@ + enc_strings(vabs.skip(i as int)) == before + enc_strings(vabs),
    {
        let ghost sofar = out@;
        proof {
            assert(vabs.skip(i as int)[0] == vabs[i as int]);
            assert(vabs[i as int] == v@[i as int]@);
            assert(vabs.skip(i as int).drop_first() =~= vabs.skip(i + 1));
        }
        push_string(out, &v[i]);
        proof {
            assert(out@ + enc_strings(vabs.skip(i + 1)) =~= sofar + (enc_string(vabs[i as int])
                + enc_strings(vabs.skip(i + 1))));
        }
    }
    proof {
        assert(vabs.skip(n as int) =~= Seq::<Seq<char>>::empty());
        assert(out@ + Seq::<u8>::empty() =~= out@);
    }
}

/// Encodes a request; the result is framed by its own length information.
pub fn encode_request(m: &Request) -> (out: Vec<u8>)
    ensures
        out@ == spec_encode_request(m@),
{
    let mut out: Vec<u8> = Vec::new();
    match m {
        Request::CreateTopic(q) => {
            out.push(0);
            proof {
                assert(out@ =~= seq![0u8]);
            }
            push_string(&mut out, &q.topic_name);
            push_string(&mut out, &q.content);
        },
        Request::UpdateTopic(q) => {
            out.push(1);
            proof {
                assert(out@ =~= seq![1u8]);
            }
            push_string(&mut out, &q.topic_name);
            push_string(&mut out, &q.content);
        },
        Request::SearchTopic(q) => {
            out.push(2);
            proof {
                assert(out@ =~= seq![2u8]);
            }
            match &q.topic_name {
                None => {
                    let ghost sofar = out@;
                    out.push(0);
                    proof {
                        assert(out@ =~= sofar + enc_opt_string(opt_string_abs(q.topic_name)));
                    }
                },
                Some(t) => {
                    let ghost sofar = out@;
                    out.push(1);
                    proof {
                        assert(out@ =~= sofar + seq![1u8]);
                    }
                    push_string(&mut out, t);
                    proof {
                        assert(out@ =~= sofar + enc_opt_string(opt_string_abs(q.topic_name)));
                    }
                },
            }
            push_string(&mut out, &q.query);
            push_u64(&mut out, q.limit);
        },
        Request::ListTopic(q) => {
            out.push(3);
            proof {
                assert(out@ =~= seq![3u8]);
            }
            push_string(&mut out, &q.topic_name);
            push_u32(&mut out, q.limit);
        },
    }
    out
}

/// Encodes a response; the result is framed by its own length information.
pub fn encode_response(m: &Response) -> (out: Vec<u8>)
    ensures
        out@ == spec_encode_response(m@),
{
    let mut out: Vec<u8> = Vec::new();
    match m {
        Response::CreateTopic(p) => {
            out.push(0);
            proof {
                assert(out@ =~= seq![0u8]);
            }
            push_bool(&mut out, p.success);
        },
        Response::UpdateTopic(p) => {
            out.push(1);
            proof {
                assert(out@ =~= seq![1u8]);
            }
            push_bool(&mut out, p.success);
        },
        Response::SearchTopic(p) => {
            out.push(2);
            proof {
                assert(out@ =~= seq![2u8]);
            }
            push_u64(&mut out, p.results.len() as u64);
            push_strings(&mut out, &p.results);
            proof {
                assert(strings_abs(p.results@).len() == p.results@.len());
            }
        },
        Response::ListTopic(p) => {
            out.push(3);
            proof {
                assert(out@ =~= seq![3u8]);
            }
            push_u64(&mut out, p.results.len() as u64);
            push_strings(&mut out, &p.results);
            proof {
                assert(strings_abs(p.results@).len() == p.results@.len());
            }
        },
    }
    out
}

// ---------------------------------------------------------------------------
// Decoding, executable.
// ---------------------------------------------------------------------------

/// Relies on std's `String::from_utf8`: it accepts exactly the valid UTF-8
/// byte sequences, and returns the string of the characters they encode.
#[verifier::external_body]
fn string_from_utf8(bytes: Vec<u8>) -> (r: Option<String>)
    ensures
        r matches Some(s) ==> valid_utf8(bytes@) && s@ == decode_utf8(bytes@),
        r is None ==> !valid_utf8(bytes@),
{
    String::from_utf8(bytes).ok()
}

fn read_u64(bytes: &Vec<u8>, pos: usize) -> (r: Option<(u64, usize)>)
    ensures
        match r {
            Some((x, j)) => dec_u64(bytes@, pos as int) == Some((x, j as int)) && j
                <= bytes@.len(),
            None => dec_u64(bytes@, pos as int) is None,
        },
{
    if pos <= bytes.len() && bytes.len() - pos >= 8 {
        let s = slice_subrange(bytes.as_slice(), pos, pos + 8);
        let x = u64_from_le_bytes(s);
        Some((x, pos + 8))
    } else {
        None
    }
}

fn read_u32(bytes: &Vec<u8>, pos: usize) -> (r: Option<(u32, usize)>)
    ensures
        match r {
            Some((x, j)) => dec_u32(bytes@, pos as int) == Some((x, j as int)) && j
                <= bytes@.len(),
            None => dec_u32(bytes@, pos as int) is None,
        },
{
    if pos <= bytes.len() && bytes.len() - pos >= 4 {
        let s = slice_subrange(bytes.as_slice(), pos, pos + 4);
        let x = u32_from_le_bytes(s);
        Some((x, pos + 4))
    } else {
        None
    }
}

fn read_bool(bytes: &Vec<u8>, pos: usize) -> (r: Option<(bool, usize)>)
    ensures
        match r {
            Some((b, j)) => dec_bool(bytes@, pos as int) == Some((b, j as int)) && j
                <= bytes@.len(),
            None => dec_bool(bytes@, pos as int) is None,
        },
{
    if pos < bytes.len() {
        let byte = bytes[pos];
        if byte == 1 {
            Some((true, pos + 1))
        } else if byte == 0 {
            Some((false, pos + 1))
        } else {
            None
        }
    } else {
        None
    }
}

fn read_string(bytes: &Vec<u8>, pos: usize) -> (r: Option<(String, usize)>)
    ensures
        match r {
            Some((s, j)) => dec_string(bytes@, pos as int) == Some((s@, j as int)) && j
                <= bytes@.len(),
            None => dec_string(bytes@, pos as int) is None,
        },
{
    let (n, i) = match read_u64(bytes, pos) {
        Some(v) => v,
        None => {
            return None;
        },
    };
    if n <= (bytes.len() - i) as u64 {
        let end = i + (n as usize);
        let sl = slice_subrange(bytes.as_slice(), i, end);
        let v = slice_to_vec(sl);
        match string_from_utf8(v) {
            Some(s) => Some((s, end)),
            None => None,
        }
    } else {
        None
    }
}

fn read_opt_string(bytes: &Vec<u8>, pos: usize) -> (r: Option<(Option<String>, usize)>)
    ensures
        match r {
            Some((o, j)) => dec_opt_string(bytes@, pos as int) == Some((opt_string_abs(o), j as int))
                && j <= bytes@.len(),
            None => dec_opt_string(bytes@, pos as int) is None,
        },
{
    if pos < bytes.len() {
        let byte = bytes[pos];
        if byte == 0 {
            Some((None, pos + 1))
        } else if byte == 1 {
            match read_string(bytes, pos + 1) {
                Some((s, j)) => Some((Some(s), j)),
                None => None,
            }
        } else {
            None
        }
    } else {
        None
    }
}

fn read_strings(bytes: &Vec<u8>, pos: usize, count: u64) -> (r: Option<(Vec<String>, usize)>)
    ensures
        match r {
            Some((v, j)) => dec_strings(bytes@, pos as int, count as int) == Some(
                (strings_abs(v@), j as int),
            ),
            None => dec_strings(bytes@, pos as int, count as int) is None,
        },
{
    let mut acc: Vec<String> = Vec::new();
    let mut cur = pos;
    proof {
        assert(strings_abs(acc@) =~= Seq::<Seq<char>>::empty());
    }
    for k in 0..count
        invariant
            k <= count,
            dec_strings(bytes@, pos as int, count as int) == (match dec_strings(
                bytes@,
                cur as int,
                count as int - k as int,
            ) {
                None => None::<(Seq<Seq<char>>, int)>,
                Some((rest, j)) => Some((strings_abs(acc@) + rest, j)),
            }),
    {
        let ghost accabs = strings_abs(acc@);
        let (s, j) = match read_string(bytes, cur) {
            Some(v) => v,
            None => {
                return None;
            },
        };
        acc.push(s);
        proof {
            assert(strings_abs(acc@) =~= accabs.push(s@));
            let inner = dec_strings(bytes@, j as int, count as int - k as int - 1);
            match inner {
                Some((rest2, j2)) => {
                    assert(accabs + (seq![s@] + rest2) =~= accabs.push(s@) + rest2);
                },
                None => {},
            }
        }
        cur = j;
    }
    proof {
        assert(dec_strings(bytes@, cur as int, 0) == Some((Seq::<Seq<char>>::empty(), cur as int)));
        assert(strings_abs(acc@) + Seq::<Seq<char>>::empty() =~= strings_abs(acc@));
    }
    Some((acc, cur))
}

/// Decodes one whole request; trailing bytes, an unknown tag, a short buffer
/// or invalid UTF-8 are rejected.
pub fn decode_request(bytes: &Vec<u8>) -> (r: Result<Request, CodecError>)
    ensures
        r matches Ok(m) ==> spec_decode_request(bytes@) == Some(m@),
        r is Err ==> spec_decode_request(bytes@) is None,
{
    if bytes.len() < 1 {
        return Err(CodecError::Malformed);
    }
    let tag = bytes[0];
    if tag == 0 || tag == 1 {
        let (topic_name, i) = match read_string(bytes, 1) {
            Some(v) => v,
            None => {
                return Err(CodecError::Malformed);
            },
        };
        let (content, j) = match read_string(bytes, i) {
            Some(v) => v,
            None => {
                return Err(CodecError::Malformed);
            },
        };
        if j == bytes.len() {
            if tag == 0 {
                Ok(Request::CreateTopic(CreateTopicRequest { topic_name, content }))
            } else {
                Ok(Request::UpdateTopic(UpdateTopicRequest { topic_name, content }))
            }
        } else {
            Err(CodecError::Malformed)
        }
    } else if tag == 2 {
        let (topic_name, i) = match read_opt_string(bytes, 1) {
            Some(v) => v,
            None => {
                return Err(CodecError::Malformed);
            },
        };
        let (query, j) = match read_string(bytes, i) {
            Some(v) => v,
            None => {
                return Err(CodecError::Malformed);
            },
        };
        let (limit, k) = match read_u64(bytes, j) {
            Some(v) => v,
            None => {
                return Err(CodecError::Malformed);
            },
        };
        if k == bytes.len() {
            Ok(Request::SearchTopic(SearchTopicRequest { topic_name, query, limit }))
        } else {
            Err(CodecError::Malformed)
        }
    } else if tag == 3 {
        let (topic_name, i) = match read_string(bytes, 1) {
            Some(v) => v,
            None => {
                return Err(CodecError::Malformed);
            },
        };
        let (limit, j) = match read_u32(bytes, i) {
            Some(v) => v,
            None => {
                return Err(CodecError::Malformed);
            },
        };
        if j == bytes.len() {
            Ok(Request::ListTopic(ListTopicRequest { topic_name, limit }))
        } else {
            Err(CodecError::Malformed)
        }
    } else {
        Err(CodecError::Malformed)
    }
}

/// Decodes one whole response; trailing bytes, an unknown tag, a short
/// buffer or invalid UTF-8 are rejected.
pub fn decode_response(bytes: &Vec<u8>) -> (r: Result<Response, CodecError>)
    ensures
        r matches Ok(m) ==> spec_decode_response(bytes@) == Some(m@),
        r is Err ==> spec_decode_response(bytes@) is None,
{
    if bytes.len() < 1 {
        return Err(CodecError::Malformed);
    }
    let tag = bytes[0];
    if tag == 0 || tag == 1 {
        let (success, i) = match read_bool(bytes, 1) {
            Some(v) => v,
            None => {
                return Err(CodecError::Malformed);
            },
        };
        if i == bytes.len() {
            if tag == 0 {
                Ok(Response::CreateTopic(CreateTopicResponse { success }))
            } else {
                Ok(Response::UpdateTopic(UpdateTopicResponse { success }))
            }
        } else {
            Err(CodecError::Malformed)
        }
    } else if tag == 2 || tag == 3 {
        let (count, i) = match read_u64(bytes, 1) {
            Some(v) => v,
            None => {
                return Err(CodecError::Malformed);
            },
        };
        let (results, j) = match read_strings(bytes, i, count) {
            Some(v) => v,
            None => {
                return Err(CodecError::Malformed);
            },
        };
        if j == bytes.len() {
            if tag == 2 {
                Ok(Response::SearchTopic(SearchTopicResponse { results }))
            } else {
                Ok(Response::ListTopic(ListTopicResponse { results }))
            }
        } else {
            Err(CodecError::Malformed)
        }
    } else {
        Err(CodecError::Malformed)
    }
}

// ---------------------------------------------------------------------------
// Decoding inverts encoding.
// ---------------------------------------------------------------------------

proof fn lemma_read_back_u64(prefix: Seq<u8>, x: u64, rest: Seq<u8>)
    ensures
        dec_u64(prefix + enc_u64(x) + rest, prefix.len() as int) == Some(
            (x, prefix.len() as int + 8),
        ),
{
    lemma_auto_spec_u64_to_from_le_bytes();
    let ctx = prefix + enc_u64(x) + rest;
    assert(enc_u64(x).len() == 8);
    assert(ctx.subrange(prefix.len() as int, prefix.len() as int + 8) =~= enc_u64(x));
}

proof fn lemma_read_back_u32(prefix: Seq<u8>, x: u32, rest: Seq<u8>)
    ensures
        dec_u32(prefix + enc_u32(x) + rest, prefix.len() as int) == Some(
            (x, prefix.len() as int + 4),
        ),
{
    lemma_auto_spec_u32_to_from_le_bytes();
    let ctx = prefix + enc_u32(x) + rest;
    assert(enc_u32(x).len() == 4);
    assert(ctx.subrange(prefix.len() as int, prefix.len() as int + 4) =~= enc_u32(x));
}

proof fn lemma_read_back_bool(prefix: Seq<u8>, b: bool, rest: Seq<u8>)
    ensures
        dec_bool(prefix + enc_bool(b) + rest, prefix.len() as int) == Some(
            (b, prefix.len() as int + 1),
        ),
{
    let ctx = prefix + enc_bool(b) + rest;
    assert(ctx[prefix.len() as int] == enc_bool(b)[0]);
}

proof fn lemma_read_back_string(prefix: Seq<u8>, s: Seq<char>, rest: Seq<u8>)
    requires
        string_encodable(s),
    ensures
        dec_string(prefix + enc_string(s) + rest, prefix.len() as int) == Some(
            (s, prefix.len() as int + enc_string(s).len()),
        ),
{
    let sb = encode_utf8(s);
    let n = sb.len() as u64;
    let ctx = prefix + enc_string(s) + rest;
    lemma_auto_spec_u64_to_from_le_bytes();
    assert(enc_u64(n).len() == 8);
    assert(enc_string(s).len() == 8 + sb.len());
    assert(ctx =~= prefix + enc_u64(n) + (sb + rest));
    lemma_read_back_u64(prefix, n, sb + rest);
    let j = prefix.len() as int + 8;
    assert(n as int == sb.len());
    assert(ctx.len() == prefix.len() + 8 + sb.len() + rest.len());
    assert(j + n <= ctx.len());
    assert(ctx.subrange(j, j + n as int) =~= sb);
    encode_utf8_valid_utf8(s);
    encode_utf8_decode_utf8(s);
}

proof fn lemma_read_back_opt_string(prefix: Seq<u8>, o: Option<Seq<char>>, rest: Seq<u8>)
    requires
        o matches Some(s) ==> string_encodable(s),
    ensures
        dec_opt_string(prefix + enc_opt_string(o) + rest, prefix.len() as int) == Some(
            (o, prefix.len() as int + enc_opt_string(o).len()),
        ),
{
    let ctx = prefix + enc_opt_string(o) + rest;
    match o {
        None => {
            assert(ctx[prefix.len() as int] == 0u8);
        },
        Some(s) => {
            assert(ctx[prefix.len() as int] == enc_opt_string(o)[0]);
            assert(enc_opt_string(o)[0] == 1u8);
            assert(ctx =~= (prefix + seq![1u8]) + enc_string(s) + rest);
            lemma_read_back_string(prefix + seq![1u8], s, rest);
        },
    }
}

proof fn lemma_read_back_strings(prefix: Seq<u8>, v: Seq<Seq<char>>, rest: Seq<u8>)
    requires
        forall|i: int| 0 <= i < v.len() ==> string_encodable(#[trigger] v[i]),
    ensures
        dec_strings(prefix + enc_strings(v) + rest, prefix.len() as int, v.len() as int) == Some(
            (v, prefix.len() as int + enc_strings(v).len()),
        ),
    decreases v.len(),
{
    let ctx = prefix + enc_strings(v) + rest;
    if v.len() == 0 {
        assert(enc_strings(v) =~= Seq::<u8>::empty());
        assert(v =~= Seq::<Seq<char>>::empty());
    } else {
        assert(ctx =~= prefix + enc_string(v[0]) + (enc_strings(v.drop_first()) + rest));
        lemma_read_back_string(prefix, v[0], enc_strings(v.drop_first()) + rest);
        let p2 = prefix + enc_string(v[0]);
        assert(ctx =~= p2 + enc_strings(v.drop_first()) + rest);
        assert(forall|i: int|
            0 <= i < v.drop_first().len() ==> string_encodable(#[trigger] v.drop_first()[i]));
        lemma_read_back_strings(p2, v.drop_first(), rest);
        assert(seq![v[0]] + v.drop_first() =~= v);
    }
}

/// Decoding an encoded request gives the request back: the wire format is
/// lossless for every request it can carry.
pub proof fn lemma_request_codec_round_trip(m: RequestAbs)
    requires
        request_encodable(m),
    ensures
        spec_decode_request(spec_encode_request(m)) == Some(m),
{
    let ctx = spec_encode_request(m);
    match m {
        RequestAbs::CreateTopic { topic_name, content } => {
            assert(ctx == seq![0u8] + enc_string(topic_name) + enc_string(content));
            assert(ctx[0] == 0u8);
            assert(seq![0u8].len() == 1);
            lemma_read_back_string(seq![0u8], topic_name, enc_string(content));
            let i = 1 + enc_string(topic_name).len() as int;
            assert(dec_string(ctx, 1) == Some((topic_name, i)));
            let p2 = seq![0u8] + enc_string(topic_name);
            assert(ctx =~= p2 + enc_string(content) + Seq::<u8>::empty());
            lemma_read_back_string(p2, content, Seq::empty());
            assert(p2.len() == i);
            assert(dec_string(ctx, i) == Some((content, i + enc_string(content).len() as int)));
            assert(i + enc_string(content).len() as int == ctx.len());
            assert(spec_decode_request(ctx) == Some(RequestAbs::CreateTopic { topic_name, content }));
        },
        RequestAbs::UpdateTopic { topic_name, content } => {
            assert(ctx == seq![1u8] + enc_string(topic_name) + enc_string(content));
            assert(ctx[0] == 1u8);
            assert(seq![1u8].len() == 1);
            lemma_read_back_string(seq![1u8], topic_name, enc_string(content));
            let i = 1 + enc_string(topic_name).len() as int;
            assert(dec_string(ctx, 1) == Some((topic_name, i)));
            let p2 = seq![1u8] + enc_string(topic_name);
            assert(ctx =~= p2 + enc_string(content) + Seq::<u8>::empty());
            lemma_read_back_string(p2, content, Seq::empty());
            assert(p2.len() == i);
            assert(dec_string(ctx, i) == Some((content, i + enc_string(content).len() as int)));
            assert(i + enc_string(content).len() as int == ctx.len());
            assert(spec_decode_request(ctx) == Some(RequestAbs::UpdateTopic { topic_name, content }));
        },
        RequestAbs::SearchTopic { topic_name, query, limit } => {
            assert(ctx == seq![2u8] + enc_opt_string(topic_name) + enc_string(query) + enc_u64(
                limit,
            ));
            assert(ctx[0] == 2u8);
            assert(seq![2u8].len() == 1);
            assert(ctx =~= seq![2u8] + enc_opt_string(topic_name) + (enc_string(query) + enc_u64(
                limit,
            )));
            lemma_read_back_opt_string(seq![2u8], topic_name, enc_string(query) + enc_u64(limit));
            let i = 1 + enc_opt_string(topic_name).len() as int;
            assert(dec_opt_string(ctx, 1) == Some((topic_name, i)));
            let p2 = seq![2u8] + enc_opt_string(topic_name);
            assert(ctx =~= p2 + enc_string(query) + enc_u64(limit));
            lemma_read_back_string(p2, query, enc_u64(limit));
            assert(p2.len() == i);
            let j = i + enc_string(query).len() as int;
            assert(dec_string(ctx, i) == Some((query, j)));
            let p3 = p2 + enc_string(query);
            assert(ctx =~= p3 + enc_u64(limit) + Seq::<u8>::empty());
            lemma_read_back_u64(p3, limit, Seq::empty());
            assert(p3.len() == j);
            assert(dec_u64(ctx, j) == Some((limit, j + 8)));
            assert(j + 8 == ctx.len()) by {
                lemma_auto_spec_u64_to_from_le_bytes();
            }
            assert(spec_decode_request(ctx) == Some(
                RequestAbs::SearchTopic { topic_name, query, limit },
            ));
        },
        RequestAbs::ListTopic { topic_name, limit } => {
            assert(ctx == seq![3u8] + enc_string(topic_name) + enc_u32(limit));
            assert(ctx[0] == 3u8);
            assert(seq![3u8].len() == 1);
            lemma_read_back_string(seq![3u8], topic_name, enc_u32(limit));
            let i = 1 + enc_string(topic_name).len() as int;
            assert(dec_string(ctx, 1) == Some((topic_name, i)));
            let p2 = seq![3u8] + enc_string(topic_name);
            assert(ctx =~= p2 + enc_u32(limit) + Seq::<u8>::empty());
            lemma_read_back_u32(p2, limit, Seq::empty());
            assert(p2.len() == i);
            assert(dec_u32(ctx, i) == Some((limit, i + 4)));
            assert(i + 4 == ctx.len()) by {
                lemma_auto_spec_u32_to_from_le_bytes();
            }
            assert(spec_decode_request(ctx) == Some(RequestAbs::ListTopic { topic_name, limit }));
        },
    }
}

/// Decoding an encoded response gives the response back: the wire format is
/// lossless for every response it can carry.
pub proof fn lemma_response_codec_round_trip(m: ResponseAbs)
    requires
        response_encodable(m),
    ensures
        spec_decode_response(spec_encode_response(m)) == Some(m),
{
    let ctx = spec_encode_response(m);
    match m {
        ResponseAbs::CreateTopic { success } => {
            assert(ctx == seq![0u8] + enc_bool(success));
            assert(ctx[0] == 0u8);
            assert(seq![0u8].len() == 1);
            assert(ctx =~= seq![0u8] + enc_bool(success) + Seq::<u8>::empty());
            lemma_read_back_bool(seq![0u8], success, Seq::empty());
            assert(dec_bool(ctx, 1) == Some((success, 2int)));
            assert(ctx.len() == 2);
            assert(spec_decode_response(ctx) == Some(ResponseAbs::CreateTopic { success }));
        },
        ResponseAbs::UpdateTopic { success } => {
            assert(ctx == seq![1u8] + enc_bool(success));
            assert(ctx[0] == 1u8);
            assert(seq![1u8].len() == 1);
            assert(ctx =~= seq![1u8] + enc_bool(success) + Seq::<u8>::empty());
            lemma_read_back_bool(seq![1u8], success, Seq::empty());
            assert(dec_bool(ctx, 1) == Some((success, 2int)));
            assert(ctx.len() == 2);
            assert(spec_decode_response(ctx) == Some(ResponseAbs::UpdateTopic { success }));
        },
        ResponseAbs::SearchTopic { results } => {
            let n = results.len() as u64;
            assert(ctx == seq![2u8] + enc_u64(n) + enc_strings(results));
            assert(ctx[0] == 2u8);
            assert(seq![2u8].len() == 1);
            lemma_read_back_u64(seq![2u8], n, enc_strings(results));
            assert(dec_u64(ctx, 1) == Some((n, 9int)));
            let p2 = seq![2u8] + enc_u64(n);
            assert(ctx =~= p2 + enc_strings(results) + Seq::<u8>::empty());
            lemma_read_back_strings(p2, results, Seq::empty());
            assert(n as int == results.len());
            assert(p2.len() == 9) by {
                lemma_auto_spec_u64_to_from_le_bytes();
            }
            assert(dec_strings(ctx, 9, n as int) == Some(
                (results, 9 + enc_strings(results).len() as int),
            ));
            assert(9 + enc_strings(results).len() as int == ctx.len()) by {
                lemma_auto_spec_u64_to_from_le_bytes();
            }
            assert(spec_decode_response(ctx) == Some(ResponseAbs::SearchTopic { results }));
        },
        ResponseAbs::ListTopic { results } => {
            let n = results.len() as u64;
            assert(ctx == seq![3u8] + enc_u64(n) + enc_strings(results));
            assert(ctx[0] == 3u8);
            assert(seq![3u8].len() == 1);
            lemma_read_back_u64(seq![3u8], n, enc_strings(results));
            assert(dec_u64(ctx, 1) == Some((n, 9int)));
            let p2 = seq![3u8] + enc_u64(n);
            assert(ctx =~= p2 + enc_strings(results) + Seq::<u8>::empty());
            lemma_read_back_strings(p2, results, Seq::empty());
            assert(n as int == results.len());
            assert(p2.len() == 9) by {
                lemma_auto_spec_u64_to_from_le_bytes();
            }
            assert(dec_strings(ctx, 9, n as int) == Some(
                (results, 9 + enc_strings(results).len() as int),
            ));
            assert(9 + enc_strings(results).len() as int == ctx.len()) by {
                lemma_auto_spec_u64_to_from_le_bytes();
            }
            assert(spec_decode_response(ctx) == Some(ResponseAbs::ListTopic { results }));
        },
    }
}

} // verus!
