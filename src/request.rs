use bytes::BytesMut;
use vstd::prelude::*;
use vstd::string::StringExecFns;
use vstd::slice::slice_subrange;
use vstd::string::StringSliceAdditionalSpecFns;
use vstd::utf8::{decode_utf8, valid_utf8};

use crate::buffer::{buffer_as_slice, buffer_bytes, buffer_len, buffer_split_to};
use crate::string_map::{fold_entries, StringMap};
use crate::tokenize::{address_of, header_bytes, scan_request, Scan, Tokens, tokens_of};

verus! {

#[verifier::external_type_specification]
#[verifier::external_body]
pub struct ExJsonError(serde_json::Error);

broadcast use vstd::utf8::encode_utf8_valid_utf8, vstd::utf8::encode_utf8_decode_utf8;

/// A byte range `[start, end)` of a request's own buffer.
pub type Slice = (usize, usize);

/// The number of header slots handed to the scanner.
pub const HEADER_SLOTS: usize = 16;

/// The range lies within a buffer of `len` bytes.
pub open spec fn within(s: Slice, len: nat) -> bool {
    s.0 <= s.1 && s.1 <= len
}

/// The text that well-formed UTF-8 bytes encode.
pub open spec fn text(b: Seq<u8>) -> Seq<char> {
    decode_utf8(b)
}

/// Why a buffer could not be decoded.
#[derive(Debug)]
pub enum DecodeError {
    /// The bytes break the request grammar, or hold more headers than there
    /// are slots; the scanner's diagnostic.
    MalformedRequest(String),
    /// The scanner handed back a field that does not lie within the buffer.
    DetachedField,
}

/// One decoded request: its own bytes, the ranges of its fields in them, and
/// the parameters that routing fills in.
pub struct Request {
    body: Slice,
    method: Slice,
    path: Slice,
    version: u8,
    headers: Vec<(Slice, Slice)>,
    data: BytesMut,
    params: StringMap,
    query_params: StringMap,
}

/// Relies on `std::str::from_utf8`: it accepts exactly the well-formed UTF-8
/// sequences, and the text it gives back is made of those same bytes.
#[verifier::external_body]
fn utf8_text(b: &[u8]) -> (r: Option<&str>)
    ensures
        r is Some <==> valid_utf8(b@),
        r matches Some(s) ==> s.spec_bytes() == b@,
{
    std::str::from_utf8(b).ok()
}

/// The range `[start, start + part.len())` of `whole`, where those bytes are
/// `part`'s; `None` where they are not, or where the range overruns `whole`.
pub fn span_at(whole: &[u8], part: &[u8], start: usize) -> (r: Option<Slice>)
    ensures
        match r {
            Some(s) => s.0 == start && s.1 == start + part@.len() && within(s, whole@.len())
                && whole@.subrange(s.0 as int, s.1 as int) == part@,
            None => !(start + part@.len() <= whole@.len() && whole@.subrange(
                start as int,
                start + part@.len(),
            ) == part@),
        },
{
    if start > whole.len() || part.len() > whole.len() - start {
        return None;
    }
    let n = whole.len();
    let mut i: usize = 0;
    while i < part.len()
        invariant
            n == whole@.len(),
            start + part@.len() <= whole@.len(),
            i <= part@.len(),
            forall|j: int| 0 <= j < i ==> whole@[start + j] == part@[j],
        decreases part@.len() - i,
    {
        if whole[start + i] != part[i] {
            proof {
                let w = whole@.subrange(start as int, start + part@.len());
                assert(w[i as int] != part@[i as int]);
            }
            return None;
        }
        i = i + 1;
    }
    proof {
        assert(whole@.subrange(start as int, start + part@.len()) =~= part@);
    }
    Some((start, start + part.len()))
}

/// Where the scanner's sub-slice `part` sits in `whole`, found from the two
/// addresses and checked byte for byte.
fn field_span(whole: &[u8], part: &[u8]) -> (r: Option<Slice>)
    ensures
        r matches Some(s) ==> within(s, whole@.len()) && whole@.subrange(s.0 as int, s.1 as int)
            == part@,
{
    let part_at = address_of(part);
    let whole_at = address_of(whole);
    if part_at < whole_at {
        return None;
    }
    span_at(whole, part, part_at - whole_at)
}

impl Request {
    /// The bytes the request owns.
    pub closed spec fn bytes(&self) -> Seq<u8> {
        buffer_bytes(self.data)
    }

    pub closed spec fn method_span(&self) -> Slice {
        self.method
    }

    pub closed spec fn path_span(&self) -> Slice {
        self.path
    }

    pub closed spec fn body_span(&self) -> Slice {
        self.body
    }

    pub closed spec fn header_spans(&self) -> Seq<(Slice, Slice)> {
        self.headers@
    }

    pub closed spec fn version_tag(&self) -> u8 {
        self.version
    }

    pub closed spec fn params_map(&self) -> Map<Seq<char>, Seq<char>> {
        self.params@
    }

    pub closed spec fn query_params_map(&self) -> Map<Seq<char>, Seq<char>> {
        self.query_params@
    }

    pub closed spec fn maps_wf(&self) -> bool {
        self.params.wf() && self.query_params.wf()
    }

    /// The same request with `params` as its route parameters.
    pub closed spec fn with_params(self, params: StringMap) -> Request {
        Request { params, ..self }
    }

    /// The same request with `query_params` as its query parameters.
    pub closed spec fn with_query_params(self, query_params: StringMap) -> Request {
        Request { query_params, ..self }
    }

    /// The bytes that a range resolves to.
    pub open spec fn resolve(&self, s: Slice) -> Seq<u8> {
        self.bytes().subrange(s.0 as int, s.1 as int)
    }

    /// Every range lies within the request's bytes; method, path and header
    /// names are well-formed UTF-8.
    pub open spec fn wf(&self) -> bool {
        &&& self.maps_wf()
        &&& within(self.method_span(), self.bytes().len())
        &&& within(self.path_span(), self.bytes().len())
        &&& within(self.body_span(), self.bytes().len())
        &&& valid_utf8(self.resolve(self.method_span()))
        &&& valid_utf8(self.resolve(self.path_span()))
        &&& forall|i: int|
            0 <= i < self.header_spans().len() ==> {
                &&& within((#[trigger] self.header_spans()[i]).0, self.bytes().len())
                &&& within(self.header_spans()[i].1, self.bytes().len())
                &&& valid_utf8(self.resolve(self.header_spans()[i].0))
            }
    }

    /// Every header value is well-formed UTF-8 too.
    pub open spec fn header_values_are_text(&self) -> bool {
        forall|i: int|
            0 <= i < self.header_spans().len() ==> valid_utf8(
                self.resolve(#[trigger] self.header_spans()[i].1),
            )
    }

    /// Each header as (name, value) text, in wire order.
    pub open spec fn header_texts(&self) -> Seq<(Seq<char>, Seq<char>)> {
        self.header_spans().map_values(
            |h: (Slice, Slice)| (text(self.resolve(h.0)), text(self.resolve(h.1))),
        )
    }

    fn slice(&self, s: Slice) -> (r: &[u8])
        requires
            within(s, self.bytes().len()),
        ensures
            r@ == self.resolve(s),
    {
        let all = buffer_as_slice(&self.data);
        slice_subrange(all, s.0, s.1)
    }

    /// The body as text: the bytes after the header block.
    pub fn raw_body(&self) -> (r: &str)
        requires
            self.wf(),
            valid_utf8(self.resolve(self.body_span())),
        ensures
            r.spec_bytes() == self.resolve(self.body_span()),
            r@ == text(self.resolve(self.body_span())),
    {
        match utf8_text(self.slice(self.body)) {
            Some(s) => s,
            None => vstd::pervasive::unreached(),
        }
    }

    /// Whether the body is well-formed UTF-8, so that `raw_body` applies.
    pub fn body_is_text(&self) -> (r: bool)
        requires
            self.wf(),
        ensures
            r == valid_utf8(self.resolve(self.body_span())),
    {
        utf8_text(self.slice(self.body)).is_some()
    }

    /// The method, as sent.
    pub fn method(&self) -> (r: &str)
        requires
            self.wf(),
        ensures
            r.spec_bytes() == self.resolve(self.method_span()),
            r@ == text(self.resolve(self.method_span())),
    {
        match utf8_text(self.slice(self.method)) {
            Some(s) => s,
            None => vstd::pervasive::unreached(),
        }
    }

    /// The path, as sent.
    pub fn path(&self) -> (r: &str)
        requires
            self.wf(),
        ensures
            r.spec_bytes() == self.resolve(self.path_span()),
            r@ == text(self.resolve(self.path_span())),
    {
        match utf8_text(self.slice(self.path)) {
            Some(s) => s,
            None => vstd::pervasive::unreached(),
        }
    }

    /// The minor protocol version: 1 for `HTTP/1.1`.
    pub fn version(&self) -> (r: u8)
        ensures
            r == self.version_tag(),
    {
        self.version
    }

    /// Whether every header value is well-formed UTF-8, so that `headers`
    /// applies.
    pub fn headers_are_text(&self) -> (r: bool)
        requires
            self.wf(),
        ensures
            r == self.header_values_are_text(),
    {
        let mut i: usize = 0;
        while i < self.headers.len()
            invariant
                self.wf(),
                i <= self.header_spans().len(),
                forall|j: int|
                    0 <= j < i ==> valid_utf8(self.resolve(#[trigger] self.header_spans()[j].1)),
            decreases self.header_spans().len() - i,
        {
            if utf8_text(self.slice(self.headers[i].1)).is_none() {
                return false;
            }
            i = i + 1;
        }
        true
    }

    /// A fresh map from each header name to its value; where a name repeats,
    /// the last value on the wire wins.
    pub fn headers(&self) -> (r: StringMap)
        requires
            self.wf(),
            self.header_values_are_text(),
        ensures
            r.wf(),
            r@ == fold_entries(self.header_texts()),
    {
        let mut map = StringMap::new();
        let mut i: usize = 0;
        while i < self.headers.len()
            invariant
                self.wf(),
                self.header_values_are_text(),
                i <= self.header_spans().len(),
                map.wf(),
                map@ == fold_entries(self.header_texts().take(i as int)),
            decreases self.header_spans().len() - i,
        {
            let pair = self.headers[i];
            let name = match utf8_text(self.slice(pair.0)) {
                Some(s) => s,
                None => vstd::pervasive::unreached(),
            };
            let value = match utf8_text(self.slice(pair.1)) {
                Some(s) => s,
                None => vstd::pervasive::unreached(),
            };
            map.insert(name.to_owned(), value.to_owned());
            proof {
                let t = self.header_texts();
                assert(t.take(i + 1).drop_last() =~= t.take(i as int));
            }
            i = i + 1;
        }
        proof {
            assert(self.header_texts().take(i as int) =~= self.header_texts());
        }
        map
    }

    /// Relies on `serde_json::from_str`: reads `body` as JSON into a `T`, or
    /// says why it cannot. Nothing is promised of the value.
    #[verifier::external_body]
    pub fn body_as<'a, T>(&self, body: &'a str) -> (r: Result<T, serde_json::Error>)
        where T: serde::de::Deserialize<'a>,
    {
        serde_json::from_str(body)
    }

    /// A one-line description: `<HTTP Request METHOD PATH>`.
    pub fn describe(&self) -> (r: String)
        requires
            self.wf(),
        ensures
            r@ == "<HTTP Request "@ + text(self.resolve(self.method_span())) + " "@ + text(
                self.resolve(self.path_span()),
            ) + ">"@,
    {
        let mut out = String::from_str("<HTTP Request ");
        out.append(self.method());
        out.append(" ");
        out.append(self.path());
        out.append(">");
        out
    }

    /// The route parameters; empty until `set_params`.
    pub fn params(&self) -> (r: &StringMap)
        requires
            self.wf(),
        ensures
            r.wf(),
            r@ == self.params_map(),
    {
        &self.params
    }

    /// The query parameters; empty until `set_query_params`.
    pub fn query_params(&self) -> (r: &StringMap)
        requires
            self.wf(),
        ensures
            r.wf(),
            r@ == self.query_params_map(),
    {
        &self.query_params
    }

    /// Replaces the route parameters.
    pub fn set_params(&mut self, params: StringMap)
        requires
            params.wf(),
        ensures
            *final(self) == old(self).with_params(params),
            final(self).params_map() == params@,
            old(self).wf() ==> final(self).wf(),
    {
        self.params = params;
        proof {
            assert(self.header_spans() == old(self).header_spans());
            assert(self.bytes() == old(self).bytes());
        }
    }

    /// Replaces the query parameters.
    pub fn set_query_params(&mut self, query_params: StringMap)
        requires
            query_params.wf(),
        ensures
            *final(self) == old(self).with_query_params(query_params),
            final(self).query_params_map() == query_params@,
            old(self).wf() ==> final(self).wf(),
    {
        self.query_params = query_params;
        proof {
            assert(self.header_spans() == old(self).header_spans());
            assert(self.bytes() == old(self).bytes());
        }
    }
}

/// `r` is the request read from `bytes`, whose scan found the request line and
/// header block `t`: it owns all of `bytes`, its fields resolve to the scanned
/// ones, its body runs from the end of the header block to the end of `bytes`,
/// and it has no parameters yet.
pub open spec fn decoded_from(r: Request, bytes: Seq<u8>, t: Tokens) -> bool {
    match t {
        Tokens::Complete { amt, method, path, version, headers } => {
            &&& r.wf()
            &&& r.bytes() == bytes
            &&& r.resolve(r.method_span()) == method
            &&& r.resolve(r.path_span()) == path
            &&& r.version_tag() == version
            &&& r.body_span() == (amt as usize, bytes.len() as usize)
            &&& r.header_spans().len() == headers.len()
            &&& forall|i: int|
                0 <= i < headers.len() ==> {
                    &&& r.resolve((#[trigger] r.header_spans()[i]).0) == headers[i].0
                    &&& r.resolve(r.header_spans()[i].1) == headers[i].1
                }
            &&& r.params_map() == Map::<Seq<char>, Seq<char>>::empty()
            &&& r.query_params_map() == Map::<Seq<char>, Seq<char>>::empty()
        },
        _ => false,
    }
}

/// Decodes one request from the front of `buf`. Where the bytes end before the
/// header block does, nothing is consumed and the answer is `Ok(None)`. On
/// success the request takes every byte buffered, and `buf` is left empty.
pub fn decode(buf: &mut BytesMut) -> (r: Result<Option<Request>, DecodeError>)
    ensures
        tokens_of(buffer_bytes(*old(buf)), HEADER_SLOTS as nat) is Partial <==> r matches Ok(None),
        tokens_of(buffer_bytes(*old(buf)), HEADER_SLOTS as nat) is Invalid <==> r matches Err(
            DecodeError::MalformedRequest(_),
        ),
        tokens_of(buffer_bytes(*old(buf)), HEADER_SLOTS as nat) is Complete <==> (r matches Ok(
            Some(_),
        ) || r matches Err(DecodeError::DetachedField)),
        r matches Ok(Some(req)) ==> decoded_from(
            req,
            buffer_bytes(*old(buf)),
            tokens_of(buffer_bytes(*old(buf)), HEADER_SLOTS as nat),
        ) && buffer_bytes(*final(buf)).len() == 0,
        !(r matches Ok(Some(_))) ==> *final(buf) == *old(buf),
        buffer_bytes(*old(buf)).len() == 0 ==> r matches Ok(None),
{
    let ghost bytes = buffer_bytes(*buf);
    let len = buffer_len(buf);
    let whole = buffer_as_slice(buf);
    let scan = scan_request(whole, HEADER_SLOTS);
    let ghost t = scan.tokens();
    let parsed = match scan {
        Scan::Partial => return Ok(None),
        Scan::Invalid(msg) => return Err(DecodeError::MalformedRequest(msg)),
        Scan::Complete(p) => p,
    };
    let method = match field_span(whole, parsed.method.as_bytes()) {
        Some(s) => s,
        None => return Err(DecodeError::DetachedField),
    };
    let path = match field_span(whole, parsed.path.as_bytes()) {
        Some(s) => s,
        None => return Err(DecodeError::DetachedField),
    };
    let ghost scanned = t->Complete_headers;
    let mut headers: Vec<(Slice, Slice)> = Vec::new();
    let mut i: usize = 0;
    while i < parsed.headers.len()
        invariant
            whole@ == bytes,
            bytes == buffer_bytes(*old(buf)),
            *buf == *old(buf),
            t is Complete,
            bytes.len() > 0,
            t == tokens_of(bytes, HEADER_SLOTS as nat),
            scanned == parsed.headers@.map_values(|h: (&str, &[u8])| header_bytes(h)),
            i <= parsed.headers@.len(),
            headers@.len() == i,
            forall|j: int|
                0 <= j < i ==> {
                    &&& within((#[trigger] headers@[j]).0, bytes.len())
                    &&& within(headers@[j].1, bytes.len())
                    &&& bytes.subrange(headers@[j].0.0 as int, headers@[j].0.1 as int)
                        == scanned[j].0
                    &&& bytes.subrange(headers@[j].1.0 as int, headers@[j].1.1 as int)
                        == scanned[j].1
                },
        decreases parsed.headers@.len() - i,
    {
        let (name, value) = parsed.headers[i];
        let name_span = match field_span(whole, name.as_bytes()) {
            Some(s) => s,
            None => return Err(DecodeError::DetachedField),
        };
        let value_span = match field_span(whole, value) {
            Some(s) => s,
            None => return Err(DecodeError::DetachedField),
        };
        headers.push((name_span, value_span));
        i = i + 1;
    }
    let version = parsed.version;
    let amt = parsed.amt;
    let data = buffer_split_to(buf, len);
    let req = Request {
        body: (amt, len),
        method,
        path,
        version,
        headers,
        data,
        params: StringMap::new(),
        query_params: StringMap::new(),
    };
    proof {
        assert(buffer_bytes(req.data) =~= bytes);
        assert forall|j: int| 0 <= j < req.header_spans().len() implies valid_utf8(
            req.resolve((#[trigger] req.header_spans()[j]).0),
        ) by {
            assert(scanned[j].0 == parsed.headers@[j].0.spec_bytes());
        }
    }
    Ok(Some(req))
}

/// Setting the route or query parameters and reading them back gives exactly
/// the map that was set.
pub proof fn params_round_trip(r: Request, params: StringMap)
    requires
        params.wf(),
    ensures
        r.with_params(params).params_map() == params@,
        r.with_query_params(params).query_params_map() == params@,
{
}

} // verus!
