//! The HTTP-side data model: the request line, the per-connection parse
//! state and its spec-level mirror. The parse state only ever moves forward
//! (or jumps to `Error`, which is terminal); the transitions themselves are
//! defined in the parser module.

use crate::token::Token;
use vstd::prelude::*;

verus! {

/// The value of a `Host` header, as the bytes that stood on the wire.
pub type Host = Vec<u8>;

#[derive(PartialEq, Eq, Structural, Clone, Copy, Debug)]
pub enum ErrorState {
    InvalidHttp,
    MissingHost,
}

/// How the request body is framed. The core only records the
/// classification; transcoding is outside its scope.
#[derive(PartialEq, Eq, Structural, Clone, Copy, Debug)]
pub enum LengthInformation {
    Length(usize),
    Chunked,
    Compressed,
}

/// A parsed request line: method, request target and the version digits
/// (`1.1` for `HTTP/1.1`), each as the bytes that stood on the wire.
#[derive(Debug, PartialEq, Eq)]
pub struct RRequestLine {
    pub method: Vec<u8>,
    pub uri: Vec<u8>,
    pub version: Vec<u8>,
}

pub struct RRequestLineSpec {
    pub method: Seq<u8>,
    pub uri: Seq<u8>,
    pub version: Seq<u8>,
}

impl View for RRequestLine {
    type V = RRequestLineSpec;

    open spec fn view(&self) -> RRequestLineSpec {
        RRequestLineSpec { method: self.method@, uri: self.uri@, version: self.version@ }
    }
}

/// An element-for-element copy of a byte vector.
pub fn dup_bytes(v: &Vec<u8>) -> (r: Vec<u8>)
    ensures
        r@ == v@,
{
    let mut out: Vec<u8> = Vec::new();
    let mut i: usize = 0;
    while i < v.len()
        invariant
            i <= v@.len(),
            out@ == v@.take(i as int),
        decreases v@.len() - i,
    {
        let b: u8 = v[i];
        out.push(b);
        proof {
            assert(out@ =~= v@.take(i + 1));
        }
        i = i + 1;
    }
    proof {
        assert(out@ =~= v@);
    }
    out
}

impl RRequestLine {
    pub fn duplicate(&self) -> (r: RRequestLine)
        ensures
            r@ == self@,
    {
        RRequestLine {
            method: dup_bytes(&self.method),
            uri: dup_bytes(&self.uri),
            version: dup_bytes(&self.version),
        }
    }
}

/// The per-connection parse state. Offsets count bytes from the front of
/// the accumulated buffer and say where header parsing resumes.
#[derive(Debug, PartialEq, Eq)]
pub enum HttpState {
    Initial,
    Error(ErrorState),
    HasRequestLine(usize, RRequestLine),
    HasHost(usize, RRequestLine, Host),
    HeadersParsed(RRequestLine, Host, LengthInformation),
    Proxying(RRequestLine, Host, LengthInformation, Token),
}

pub enum HttpStateSpec {
    Initial,
    Error(ErrorState),
    HasRequestLine(int, RRequestLineSpec),
    HasHost(int, RRequestLineSpec, Seq<u8>),
    HeadersParsed(RRequestLineSpec, Seq<u8>, LengthInformation),
    Proxying(RRequestLineSpec, Seq<u8>, LengthInformation, Token),
}

impl View for HttpState {
    type V = HttpStateSpec;

    open spec fn view(&self) -> HttpStateSpec {
        match self {
            HttpState::Initial => HttpStateSpec::Initial,
            HttpState::Error(k) => HttpStateSpec::Error(*k),
            HttpState::HasRequestLine(pos, rl) => HttpStateSpec::HasRequestLine(*pos as int, rl@),
            HttpState::HasHost(pos, rl, h) => HttpStateSpec::HasHost(*pos as int, rl@, h@),
            HttpState::HeadersParsed(rl, h, li) => HttpStateSpec::HeadersParsed(rl@, h@, *li),
            HttpState::Proxying(rl, h, li, bt) => HttpStateSpec::Proxying(rl@, h@, *li, *bt),
        }
    }
}

impl HttpState {
    pub fn duplicate(&self) -> (r: HttpState)
        ensures
            r@ == self@,
    {
        match self {
            HttpState::Initial => HttpState::Initial,
            HttpState::Error(k) => HttpState::Error(*k),
            HttpState::HasRequestLine(pos, rl) => HttpState::HasRequestLine(*pos, rl.duplicate()),
            HttpState::HasHost(pos, rl, h) => HttpState::HasHost(
                *pos,
                rl.duplicate(),
                dup_bytes(h),
            ),
            HttpState::HeadersParsed(rl, h, li) => HttpState::HeadersParsed(
                rl.duplicate(),
                dup_bytes(h),
                *li,
            ),
            HttpState::Proxying(rl, h, li, bt) => HttpState::Proxying(
                rl.duplicate(),
                dup_bytes(h),
                *li,
                *bt,
            ),
        }
    }
}

} // verus!
