use vstd::prelude::*;
use vstd::string::StringSliceAdditionalSpecFns;

verus! {

/// What the request-line and header scanner makes of a byte sequence.
pub enum Tokens {
    /// The bytes end before the header block does.
    Partial,
    /// The bytes break the request grammar, or hold more headers than slots.
    Invalid,
    /// A request line and header block of `amt` bytes; each field as its bytes.
    Complete {
        amt: nat,
        method: Seq<u8>,
        path: Seq<u8>,
        version: u8,
        headers: Seq<(Seq<u8>, Seq<u8>)>,
    },
}

/// How the scanner reads `bytes` when it is given `slots` header slots.
pub uninterp spec fn tokens_of(bytes: Seq<u8>, slots: nat) -> Tokens;

/// The fields of a complete request line and header block, as sub-slices of
/// the scanned bytes.
pub struct Parsed<'a> {
    pub amt: usize,
    pub method: &'a str,
    pub path: &'a str,
    pub version: u8,
    pub headers: Vec<(&'a str, &'a [u8])>,
}

pub enum Scan<'a> {
    Partial,
    Invalid(String),
    Complete(Parsed<'a>),
}

pub open spec fn header_bytes(h: (&str, &[u8])) -> (Seq<u8>, Seq<u8>) {
    (h.0.spec_bytes(), h.1@)
}

impl<'a> Scan<'a> {
    /// The scanner's outcome, with every field as its bytes.
    pub open spec fn tokens(&self) -> Tokens {
        match self {
            Scan::Partial => Tokens::Partial,
            Scan::Invalid(_) => Tokens::Invalid,
            Scan::Complete(p) => Tokens::Complete {
                amt: p.amt as nat,
                method: p.method.spec_bytes(),
                path: p.path.spec_bytes(),
                version: p.version,
                headers: p.headers@.map_values(|h: (&str, &[u8])| header_bytes(h)),
            },
        }
    }
}

/// Relies on `httparse::Request::parse` with `slots` header slots: its outcome
/// depends on the bytes and the slot count alone; a complete request line and
/// header block lies within the bytes and has no more headers than slots; an
/// empty input is partial. The diagnostic is the error's debug form.
#[verifier::external_body]
pub(crate) fn scan_request<'a>(buf: &'a [u8], slots: usize) -> (r: Scan<'a>)
    ensures
        r.tokens() == tokens_of(buf@, slots as nat),
        buf@.len() == 0 ==> r.tokens() is Partial,
        r matches Scan::Complete(p) ==> p.amt <= buf@.len() && p.headers@.len() <= slots,
{
    let mut headers = vec![httparse::EMPTY_HEADER; slots];
    let mut req = httparse::Request::new(&mut headers);
    match req.parse(buf) {
        Ok(httparse::Status::Partial) => Scan::Partial,
        Err(e) => Scan::Invalid(format!("{:?}", e)),
        Ok(httparse::Status::Complete(amt)) => Scan::Complete(Parsed {
            amt,
            method: req.method.unwrap(),
            path: req.path.unwrap(),
            version: req.version.unwrap(),
            headers: req.headers.iter().map(|h| (h.name, h.value)).collect(),
        }),
    }
}

/// Relies on `<[u8]>::as_ptr`: the address of the first byte, as an integer.
/// Nothing is promised of the value: callers check what it leads them to.
#[verifier::external_body]
pub(crate) fn address_of(s: &[u8]) -> (r: usize) {
    s.as_ptr() as usize
}

} // verus!
