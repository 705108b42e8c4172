//! The resumable request-head parser. A pure function from (parse state,
//! accumulated bytes) to a new parse state: malformed bytes are terminal
//! errors, missing bytes leave the state unchanged, and the whole head is
//! re-read from the front on every call, so partial reads cost nothing but
//! time. The grammar is the classic HTTP/1.x head: a request line
//! `METHOD SP target SP HTTP/d.d CRLF`, then header lines `name: value CRLF`
//! up to an empty line.

use crate::http::{ErrorState, HttpState, HttpStateSpec, RRequestLine, RRequestLineSpec};
use vstd::prelude::*;

verus! {

pub const BYTE_CR: u8 = 13;

pub const BYTE_LF: u8 = 10;

pub const BYTE_SP: u8 = 32;

pub const BYTE_HT: u8 = 9;

pub const BYTE_COLON: u8 = 58;

/// The character classes the grammar distinguishes.
#[derive(PartialEq, Eq, Structural, Clone, Copy, Debug)]
pub enum ByteClass {
    /// RFC 7230 `tchar`: what a method or header name is made of.
    Tchar,
    /// Printable ASCII without the space: what a request target is made of.
    Vchar,
    /// What a header value is made of: printable ASCII, space or tab.
    HeaderValue,
    /// A single space.
    Space,
    /// An ASCII digit.
    Digit,
}

pub open spec fn in_class(c: ByteClass, b: u8) -> bool {
    match c {
        ByteClass::Tchar => (48 <= b <= 57) || (65 <= b <= 90) || (97 <= b <= 122) || b == 33 || (
        35 <= b <= 39) || b == 42 || b == 43 || b == 45 || b == 46 || b == 94 || b == 95 || b == 96
            || b == 124 || b == 126,
        ByteClass::Vchar => 33 <= b <= 126,
        ByteClass::HeaderValue => b == BYTE_HT || 32 <= b <= 126,
        ByteClass::Space => b == BYTE_SP,
        ByteClass::Digit => 48 <= b <= 57,
    }
}

pub fn class_matches(c: ByteClass, b: u8) -> (r: bool)
    ensures
        r == in_class(c, b),
{
    match c {
        ByteClass::Tchar => (48 <= b && b <= 57) || (65 <= b && b <= 90) || (97 <= b && b <= 122)
            || b == 33 || (35 <= b && b <= 39) || b == 42 || b == 43 || b == 45 || b == 46 || b
            == 94 || b == 95 || b == 96 || b == 124 || b == 126,
        ByteClass::Vchar => 33 <= b && b <= 126,
        ByteClass::HeaderValue => b == BYTE_HT || (32 <= b && b <= 126),
        ByteClass::Space => b == BYTE_SP,
        ByteClass::Digit => 48 <= b && b <= 57,
    }
}

/// Length of the longest run of bytes of class `c` starting at `i`.
pub open spec fn span(s: Seq<u8>, i: int, c: ByteClass) -> nat
    decreases s.len() - i,
{
    if 0 <= i < s.len() && in_class(c, s[i]) {
        (1 + span(s, i + 1, c)) as nat
    } else {
        0
    }
}

/// A span never runs past the end, covers only bytes of its class, and is
/// maximal: the byte after it (if any) is not of the class.
pub proof fn lemma_span_shape(s: Seq<u8>, i: int, c: ByteClass)
    requires
        0 <= i <= s.len(),
    ensures
        i + span(s, i, c) <= s.len(),
        forall|k: int| i <= k < i + span(s, i, c) ==> in_class(c, s[k]),
        i + span(s, i, c) < s.len() ==> !in_class(c, s[i + span(s, i, c)]),
    decreases s.len() - i,
{
    if i < s.len() && in_class(c, s[i]) {
        lemma_span_shape(s, i + 1, c);
    }
}

/// A span that stops strictly inside `s` stops at a real byte, so extending
/// `s` does not change it.
pub proof fn lemma_span_prefix(s: Seq<u8>, t: Seq<u8>, i: int, c: ByteClass)
    requires
        s.len() <= t.len(),
        s == t.take(s.len() as int),
        0 <= i <= s.len(),
        i + span(s, i, c) < s.len(),
    ensures
        span(t, i, c) == span(s, i, c),
    decreases s.len() - i,
{
    assert(forall|k: int| 0 <= k < s.len() ==> s[k] == t[k]);
    if i < s.len() && in_class(c, s[i]) {
        lemma_span_prefix(s, t, i + 1, c);
    } else {
        if i < s.len() {
            assert(!in_class(c, t[i]));
        }
    }
}

pub fn span_from(buf: &Vec<u8>, start: usize, c: ByteClass) -> (n: usize)
    requires
        start <= buf@.len(),
    ensures
        n == span(buf@, start as int, c),
        start + n <= buf@.len(),
{
    let mut i: usize = start;
    while i < buf.len() && class_matches(c, buf[i])
        invariant
            start <= i <= buf@.len(),
            span(buf@, start as int, c) == (i - start) + span(buf@, i as int, c),
        decreases buf@.len() - i,
    {
        assert(span(buf@, i as int, c) == 1 + span(buf@, i + 1, c));
        i = i + 1;
    }
    assert(span(buf@, i as int, c) == 0);
    i - start
}

/// Outcome of matching a fixed number of bytes: a wrong byte is an error, a
/// missing byte means more input is needed.
#[derive(PartialEq, Eq, Structural, Clone, Copy, Debug)]
pub enum Scan {
    ScanError,
    ScanIncomplete,
    ScanOk,
}

/// Match `lit[j..]` against `s` starting at `i`, byte for byte.
pub open spec fn match_at(s: Seq<u8>, i: int, lit: Seq<u8>, j: int) -> Scan
    decreases lit.len() - j,
{
    if j < 0 || j >= lit.len() {
        Scan::ScanOk
    } else if i < 0 || i >= s.len() {
        Scan::ScanIncomplete
    } else if s[i] != lit[j] {
        Scan::ScanError
    } else {
        match_at(s, i + 1, lit, j + 1)
    }
}

/// A full match consumed `lit.len() - j` real bytes of `s`.
pub proof fn lemma_match_ok_bounds(s: Seq<u8>, i: int, lit: Seq<u8>, j: int)
    requires
        0 <= j <= lit.len(),
        0 <= i <= s.len(),
        match_at(s, i, lit, j) == Scan::ScanOk,
    ensures
        i + lit.len() - j <= s.len(),
    decreases lit.len() - j,
{
    if j < lit.len() {
        assert(i < s.len());
        assert(match_at(s, i + 1, lit, j + 1) == Scan::ScanOk);
        lemma_match_ok_bounds(s, i + 1, lit, j + 1);
    }
}

/// A decided match (ok or error) looked only at real bytes, so extending
/// `s` does not change it.
pub proof fn lemma_match_prefix(s: Seq<u8>, t: Seq<u8>, i: int, lit: Seq<u8>, j: int)
    requires
        s.len() <= t.len(),
        s == t.take(s.len() as int),
        0 <= i,
        0 <= j,
        match_at(s, i, lit, j) != Scan::ScanIncomplete,
    ensures
        match_at(t, i, lit, j) == match_at(s, i, lit, j),
    decreases lit.len() - j,
{
    assert(forall|k: int| 0 <= k < s.len() ==> s[k] == t[k]);
    if j < lit.len() && i < s.len() && s[i] == lit[j] {
        lemma_match_prefix(s, t, i + 1, lit, j + 1);
    }
}

pub fn match_lit(buf: &Vec<u8>, i: usize, lit: &[u8]) -> (r: Scan)
    ensures
        r == match_at(buf@, i as int, lit@, 0),
{
    let mut j: usize = 0;
    loop
        invariant
            j <= lit@.len(),
            i + j <= usize::MAX,
            match_at(buf@, i as int, lit@, 0) == match_at(buf@, i + j, lit@, j as int),
        decreases lit@.len() - j,
    {
        if j >= lit.len() {
            return Scan::ScanOk;
        }
        if i + j >= buf.len() {
            return Scan::ScanIncomplete;
        }
        if buf[i + j] != lit[j] {
            return Scan::ScanError;
        }
        j = j + 1;
    }
}

/// Expect a byte of class `c` at `i`.
pub open spec fn check_class_at(s: Seq<u8>, i: int, c: ByteClass) -> Scan {
    if i < 0 || i >= s.len() {
        Scan::ScanIncomplete
    } else if !in_class(c, s[i]) {
        Scan::ScanError
    } else {
        Scan::ScanOk
    }
}

pub fn check_class(buf: &Vec<u8>, i: usize, c: ByteClass) -> (r: Scan)
    ensures
        r == check_class_at(buf@, i as int, c),
{
    if i >= buf.len() {
        Scan::ScanIncomplete
    } else if !class_matches(c, buf[i]) {
        Scan::ScanError
    } else {
        Scan::ScanOk
    }
}

/// Expect the exact byte `b` at `i`.
pub open spec fn check_byte_at(s: Seq<u8>, i: int, b: u8) -> Scan {
    if i < 0 || i >= s.len() {
        Scan::ScanIncomplete
    } else if s[i] != b {
        Scan::ScanError
    } else {
        Scan::ScanOk
    }
}

pub fn check_byte(buf: &Vec<u8>, i: usize, b: u8) -> (r: Scan)
    ensures
        r == check_byte_at(buf@, i as int, b),
{
    if i >= buf.len() {
        Scan::ScanIncomplete
    } else if buf[i] != b {
        Scan::ScanError
    } else {
        Scan::ScanOk
    }
}

/// Copy `buf[a..b]` out, in order.
pub fn copy_range(buf: &Vec<u8>, a: usize, b: usize) -> (r: Vec<u8>)
    requires
        a <= b <= buf@.len(),
    ensures
        r@ == buf@.subrange(a as int, b as int),
{
    let mut out: Vec<u8> = Vec::new();
    let mut i: usize = a;
    while i < b
        invariant
            a <= i <= b <= buf@.len(),
            out@ == buf@.subrange(a as int, i as int),
        decreases b - i,
    {
        let byte: u8 = buf[i];
        out.push(byte);
        proof {
            assert(out@ =~= buf@.subrange(a as int, i + 1));
        }
        i = i + 1;
    }
    out
}

pub const BYTE_DOT: u8 = 46;

/// The bytes of `HTTP/`.
pub open spec fn http_slash() -> Seq<u8> {
    seq![72u8, 84u8, 84u8, 80u8, 47u8]
}

/// What parsing a request line from the front of the buffer yields.
pub enum RlOutcomeSpec {
    Error,
    Incomplete,
    Done(int, RRequestLineSpec),
}

/// The version-and-line-end tail of a request line: `HTTP/` digit `.`
/// digit CRLF, starting at `v0`.
pub open spec fn rl_version(s: Seq<u8>, v0: int, method: Seq<u8>, uri: Seq<u8>) -> RlOutcomeSpec {
    match match_at(s, v0, http_slash(), 0) {
        Scan::ScanError => RlOutcomeSpec::Error,
        Scan::ScanIncomplete => RlOutcomeSpec::Incomplete,
        Scan::ScanOk => match check_class_at(s, v0 + 5, ByteClass::Digit) {
            Scan::ScanError => RlOutcomeSpec::Error,
            Scan::ScanIncomplete => RlOutcomeSpec::Incomplete,
            Scan::ScanOk => match check_byte_at(s, v0 + 6, BYTE_DOT) {
                Scan::ScanError => RlOutcomeSpec::Error,
                Scan::ScanIncomplete => RlOutcomeSpec::Incomplete,
                Scan::ScanOk => match check_class_at(s, v0 + 7, ByteClass::Digit) {
                    Scan::ScanError => RlOutcomeSpec::Error,
                    Scan::ScanIncomplete => RlOutcomeSpec::Incomplete,
                    Scan::ScanOk => match check_byte_at(s, v0 + 8, BYTE_CR) {
                        Scan::ScanError => RlOutcomeSpec::Error,
                        Scan::ScanIncomplete => RlOutcomeSpec::Incomplete,
                        Scan::ScanOk => match check_byte_at(s, v0 + 9, BYTE_LF) {
                            Scan::ScanError => RlOutcomeSpec::Error,
                            Scan::ScanIncomplete => RlOutcomeSpec::Incomplete,
                            Scan::ScanOk => RlOutcomeSpec::Done(
                                v0 + 10,
                                RRequestLineSpec {
                                    method,
                                    uri,
                                    version: s.subrange(v0 + 5, v0 + 8),
                                },
                            ),
                        },
                    },
                },
            },
        },
    }
}

/// Parse a request line `method SP target SP HTTP/d.d CRLF` from the front
/// of `s`. A byte that contradicts the grammar is an error; running out of
/// bytes while everything so far agrees is incomplete.
pub open spec fn rl_outcome(s: Seq<u8>) -> RlOutcomeSpec {
    let m = span(s, 0, ByteClass::Tchar) as int;
    if m == s.len() {
        RlOutcomeSpec::Incomplete
    } else if m == 0 {
        RlOutcomeSpec::Error
    } else if s[m] != BYTE_SP {
        RlOutcomeSpec::Error
    } else {
        let u0 = m + 1;
        let u = span(s, u0, ByteClass::Vchar) as int;
        if u0 + u == s.len() {
            RlOutcomeSpec::Incomplete
        } else if u == 0 {
            RlOutcomeSpec::Error
        } else if s[u0 + u] != BYTE_SP {
            RlOutcomeSpec::Error
        } else {
            rl_version(s, u0 + u + 1, s.take(m), s.subrange(u0, u0 + u))
        }
    }
}

pub enum RlResult {
    Error,
    Incomplete,
    Done(usize, RRequestLine),
}

impl View for RlResult {
    type V = RlOutcomeSpec;

    open spec fn view(&self) -> RlOutcomeSpec {
        match self {
            RlResult::Error => RlOutcomeSpec::Error,
            RlResult::Incomplete => RlOutcomeSpec::Incomplete,
            RlResult::Done(end, rl) => RlOutcomeSpec::Done(*end as int, rl@),
        }
    }
}

pub fn parse_request_line(buf: &Vec<u8>) -> (r: RlResult)
    ensures
        r@ == rl_outcome(buf@),
{
    let n: usize = buf.len();
    let m: usize = span_from(buf, 0, ByteClass::Tchar);
    if m == n {
        return RlResult::Incomplete;
    }
    if m == 0 {
        return RlResult::Error;
    }
    if buf[m] != BYTE_SP {
        return RlResult::Error;
    }
    let u0: usize = m + 1;
    let u: usize = span_from(buf, u0, ByteClass::Vchar);
    if u0 + u == n {
        return RlResult::Incomplete;
    }
    if u == 0 {
        return RlResult::Error;
    }
    if buf[u0 + u] != BYTE_SP {
        return RlResult::Error;
    }
    let v0: usize = u0 + u + 1;
    let lit: Vec<u8> = vec![72u8, 84u8, 84u8, 80u8, 47u8];
    proof {
        assert(lit@ =~= http_slash());
    }
    match match_lit(buf, v0, &lit) {
        Scan::ScanError => RlResult::Error,
        Scan::ScanIncomplete => RlResult::Incomplete,
        Scan::ScanOk => {
            proof {
                lemma_match_ok_bounds(buf@, v0 as int, http_slash(), 0);
            }
            let p: usize = v0 + 5;
            match check_class(buf, p, ByteClass::Digit) {
                Scan::ScanError => RlResult::Error,
                Scan::ScanIncomplete => RlResult::Incomplete,
                Scan::ScanOk => match check_byte(buf, p + 1, BYTE_DOT) {
                    Scan::ScanError => RlResult::Error,
                    Scan::ScanIncomplete => RlResult::Incomplete,
                    Scan::ScanOk => match check_class(buf, p + 2, ByteClass::Digit) {
                        Scan::ScanError => RlResult::Error,
                        Scan::ScanIncomplete => RlResult::Incomplete,
                        Scan::ScanOk => match check_byte(buf, p + 3, BYTE_CR) {
                            Scan::ScanError => RlResult::Error,
                            Scan::ScanIncomplete => RlResult::Incomplete,
                            Scan::ScanOk => match check_byte(buf, p + 4, BYTE_LF) {
                                Scan::ScanError => RlResult::Error,
                                Scan::ScanIncomplete => RlResult::Incomplete,
                                Scan::ScanOk => {
                                    let rl = RRequestLine {
                                        method: copy_range(buf, 0, m),
                                        uri: copy_range(buf, u0, u0 + u),
                                        version: copy_range(buf, p, p + 3),
                                    };
                                    RlResult::Done(v0 + 10, rl)
                                },
                            },
                        },
                    },
                },
            }
        },
    }
}

/// A decided request-line parse (done or error) looked only at real bytes:
/// extending the buffer does not change it.
pub proof fn lemma_rl_prefix(s: Seq<u8>, t: Seq<u8>)
    requires
        s.len() <= t.len(),
        s == t.take(s.len() as int),
        rl_outcome(s) != RlOutcomeSpec::Incomplete,
    ensures
        rl_outcome(t) == rl_outcome(s),
{
    assert(forall|k: int| 0 <= k < s.len() ==> s[k] == t[k]);
    let m = span(s, 0, ByteClass::Tchar) as int;
    lemma_span_shape(s, 0, ByteClass::Tchar);
    assert(m < s.len());
    lemma_span_prefix(s, t, 0, ByteClass::Tchar);
    if m == 0 || s[m] != BYTE_SP {
    } else {
        let u0 = m + 1;
        let u = span(s, u0, ByteClass::Vchar) as int;
        lemma_span_shape(s, u0, ByteClass::Vchar);
        assert(u0 + u < s.len());
        lemma_span_prefix(s, t, u0, ByteClass::Vchar);
        if u == 0 || s[u0 + u] != BYTE_SP {
        } else {
            let v0 = u0 + u + 1;
            assert(match_at(s, v0, http_slash(), 0) != Scan::ScanIncomplete);
            lemma_match_prefix(s, t, v0, http_slash(), 0);
            if match_at(s, v0, http_slash(), 0) == Scan::ScanOk {
                lemma_match_ok_bounds(s, v0, http_slash(), 0);
                assert(t.take(m) =~= s.take(m));
                assert(t.subrange(u0, u0 + u) =~= s.subrange(u0, u0 + u));
                if check_byte_at(s, v0 + 9, BYTE_LF) == Scan::ScanOk {
                    assert(t.subrange(v0 + 5, v0 + 8) =~= s.subrange(v0 + 5, v0 + 8));
                }
            }
        }
    }
}

/// The bytes of `Host`. The header scan matches the name case-sensitively.
pub open spec fn host_name() -> Seq<u8> {
    seq![72u8, 111u8, 115u8, 116u8]
}

/// What parsing the header block yields: on success, the offset just past
/// the terminating empty line and the value of the first `Host` header, if
/// the block holds one.
pub enum HdrsOutcomeSpec {
    Error,
    Incomplete,
    Done(int, Option<Seq<u8>>),
}

/// Parse header lines `name: value CRLF` from `i` up to and including the
/// empty line that ends the block. The whole block must parse before any
/// `Host` value is reported; a wrong byte anywhere in it is an error.
pub open spec fn hdrs_outcome(s: Seq<u8>, i: int) -> HdrsOutcomeSpec
    decreases s.len() - i,
{
    if i < 0 || i >= s.len() {
        HdrsOutcomeSpec::Incomplete
    } else if s[i] == BYTE_CR {
        if i + 1 >= s.len() {
            HdrsOutcomeSpec::Incomplete
        } else if s[i + 1] == BYTE_LF {
            HdrsOutcomeSpec::Done(i + 2, None)
        } else {
            HdrsOutcomeSpec::Error
        }
    } else if !in_class(ByteClass::Tchar, s[i]) {
        HdrsOutcomeSpec::Error
    } else {
        let nl = span(s, i, ByteClass::Tchar) as int;
        if i + nl >= s.len() {
            HdrsOutcomeSpec::Incomplete
        } else if s[i + nl] != BYTE_COLON {
            HdrsOutcomeSpec::Error
        } else {
            let sp = span(s, i + nl + 1, ByteClass::Space) as int;
            let v0 = i + nl + 1 + sp;
            let vl = span(s, v0, ByteClass::HeaderValue) as int;
            let vend = v0 + vl;
            if vend >= s.len() {
                HdrsOutcomeSpec::Incomplete
            } else if s[vend] != BYTE_CR {
                HdrsOutcomeSpec::Error
            } else if vend + 1 >= s.len() {
                HdrsOutcomeSpec::Incomplete
            } else if s[vend + 1] != BYTE_LF {
                HdrsOutcomeSpec::Error
            } else {
                match hdrs_outcome(s, vend + 2) {
                    HdrsOutcomeSpec::Error => HdrsOutcomeSpec::Error,
                    HdrsOutcomeSpec::Incomplete => HdrsOutcomeSpec::Incomplete,
                    HdrsOutcomeSpec::Done(end, rest) => HdrsOutcomeSpec::Done(
                        end,
                        if s.subrange(i, i + nl) == host_name() {
                            Some(s.subrange(v0, vend))
                        } else {
                            rest
                        },
                    ),
                }
            }
        }
    }
}

pub enum HdrsResult {
    Error,
    Incomplete,
    Done(usize, Option<Vec<u8>>),
}

impl View for HdrsResult {
    type V = HdrsOutcomeSpec;

    open spec fn view(&self) -> HdrsOutcomeSpec {
        match self {
            HdrsResult::Error => HdrsOutcomeSpec::Error,
            HdrsResult::Incomplete => HdrsOutcomeSpec::Incomplete,
            HdrsResult::Done(end, host) => HdrsOutcomeSpec::Done(
                *end as int,
                match host {
                    Some(h) => Some(h@),
                    None => None,
                },
            ),
        }
    }
}

/// Compare `buf[a..b]` with `lit`, byte for byte.
pub fn range_matches(buf: &Vec<u8>, a: usize, b: usize, lit: &Vec<u8>) -> (r: bool)
    requires
        a <= b <= buf@.len(),
    ensures
        r == (buf@.subrange(a as int, b as int) == lit@),
{
    let ghost sub = buf@.subrange(a as int, b as int);
    if b - a != lit.len() {
        return false;
    }
    let mut k: usize = 0;
    while k < lit.len()
        invariant
            k <= lit@.len(),
            lit@.len() == b - a,
            a <= b <= buf@.len(),
            sub == buf@.subrange(a as int, b as int),
            forall|j: int| 0 <= j < k ==> sub[j] == lit@[j],
        decreases lit@.len() - k,
    {
        if buf[a + k] != lit[k] {
            proof {
                assert(sub[k as int] != lit@[k as int]);
            }
            return false;
        }
        k = k + 1;
    }
    proof {
        assert(sub =~= lit@);
    }
    true
}

pub fn parse_header_block(buf: &Vec<u8>, i: usize) -> (r: HdrsResult)
    ensures
        r@ == hdrs_outcome(buf@, i as int),
    decreases buf@.len() - i,
{
    let n: usize = buf.len();
    if i >= n {
        return HdrsResult::Incomplete;
    }
    if buf[i] == BYTE_CR {
        if i + 1 >= n {
            return HdrsResult::Incomplete;
        }
        if buf[i + 1] == BYTE_LF {
            return HdrsResult::Done(i + 2, None);
        }
        return HdrsResult::Error;
    }
    if !class_matches(ByteClass::Tchar, buf[i]) {
        return HdrsResult::Error;
    }
    let nl: usize = span_from(buf, i, ByteClass::Tchar);
    if i + nl >= n {
        return HdrsResult::Incomplete;
    }
    if buf[i + nl] != BYTE_COLON {
        return HdrsResult::Error;
    }
    let sp: usize = span_from(buf, i + nl + 1, ByteClass::Space);
    let v0: usize = i + nl + 1 + sp;
    let vl: usize = span_from(buf, v0, ByteClass::HeaderValue);
    let vend: usize = v0 + vl;
    if vend >= n {
        return HdrsResult::Incomplete;
    }
    if buf[vend] != BYTE_CR {
        return HdrsResult::Error;
    }
    if vend + 1 >= n {
        return HdrsResult::Incomplete;
    }
    if buf[vend + 1] != BYTE_LF {
        return HdrsResult::Error;
    }
    proof {
        assert(span(buf@, i as int, ByteClass::Tchar) >= 1);
    }
    match parse_header_block(buf, vend + 2) {
        HdrsResult::Error => HdrsResult::Error,
        HdrsResult::Incomplete => HdrsResult::Incomplete,
        HdrsResult::Done(end, rest) => {
            let host_lit: Vec<u8> = vec![72u8, 111u8, 115u8, 116u8];
            proof {
                assert(host_lit@ =~= host_name());
            }
            if range_matches(buf, i, i + nl, &host_lit) {
                HdrsResult::Done(end, Some(copy_range(buf, v0, vend)))
            } else {
                HdrsResult::Done(end, rest)
            }
        },
    }
}

/// A decided header-block parse (done or error) looked only at real bytes:
/// extending the buffer does not change it.
pub proof fn lemma_hdrs_prefix(s: Seq<u8>, t: Seq<u8>, i: int)
    requires
        s.len() <= t.len(),
        s == t.take(s.len() as int),
        0 <= i,
        hdrs_outcome(s, i) != HdrsOutcomeSpec::Incomplete,
    ensures
        hdrs_outcome(t, i) == hdrs_outcome(s, i),
    decreases s.len() - i,
{
    assert(forall|k: int| 0 <= k < s.len() ==> s[k] == t[k]);
    assert(i < s.len());
    if s[i] == BYTE_CR {
    } else if !in_class(ByteClass::Tchar, s[i]) {
    } else {
        let nl = span(s, i, ByteClass::Tchar) as int;
        lemma_span_shape(s, i, ByteClass::Tchar);
        assert(i + nl < s.len());
        lemma_span_prefix(s, t, i, ByteClass::Tchar);
        if s[i + nl] != BYTE_COLON {
        } else {
            let sp = span(s, i + nl + 1, ByteClass::Space) as int;
            let v0 = i + nl + 1 + sp;
            let vl = span(s, v0, ByteClass::HeaderValue) as int;
            let vend = v0 + vl;
            lemma_span_shape(s, i + nl + 1, ByteClass::Space);
            lemma_span_shape(s, v0, ByteClass::HeaderValue);
            assert(vend < s.len());
            lemma_span_prefix(s, t, i + nl + 1, ByteClass::Space);
            lemma_span_prefix(s, t, v0, ByteClass::HeaderValue);
            if s[vend] != BYTE_CR {
            } else if s[vend + 1] != BYTE_LF {
            } else {
                assert(span(s, i, ByteClass::Tchar) >= 1);
                lemma_hdrs_prefix(s, t, vend + 2);
                assert(t.subrange(i, i + nl) =~= s.subrange(i, i + nl));
                assert(t.subrange(v0, vend) =~= s.subrange(v0, vend));
            }
        }
    }
}

pub open spec fn state_rank(st: HttpStateSpec) -> nat {
    match st {
        HttpStateSpec::Initial => 1,
        _ => 0,
    }
}

/// One parser invocation on the accumulated bytes: from `Initial` parse the
/// request line (and on success go straight on to the headers, which may
/// already be buffered); from `HasRequestLine` parse the header block and
/// scan it, in order, for the first `Host` header. Errors are terminal, and
/// states at or past `HasHost` are not advanced here.
pub open spec fn advance_spec(st: HttpStateSpec, s: Seq<u8>) -> HttpStateSpec
    decreases state_rank(st),
{
    match st {
        HttpStateSpec::Initial => match rl_outcome(s) {
            RlOutcomeSpec::Error => HttpStateSpec::Error(ErrorState::InvalidHttp),
            RlOutcomeSpec::Incomplete => st,
            RlOutcomeSpec::Done(end, rl) => advance_spec(
                HttpStateSpec::HasRequestLine(end, rl),
                s,
            ),
        },
        HttpStateSpec::HasRequestLine(pos, rl) => match hdrs_outcome(s, pos) {
            HdrsOutcomeSpec::Error => HttpStateSpec::Error(ErrorState::InvalidHttp),
            HdrsOutcomeSpec::Incomplete => st,
            HdrsOutcomeSpec::Done(end, host) => match host {
                Some(h) => HttpStateSpec::HasHost(end, rl, h),
                None => HttpStateSpec::HasRequestLine(end, rl),
            },
        },
        _ => st,
    }
}

fn advance_headers(buf: &Vec<u8>, pos: usize, rl: RRequestLine) -> (r: HttpState)
    ensures
        r@ == advance_spec(HttpStateSpec::HasRequestLine(pos as int, rl@), buf@),
{
    match parse_header_block(buf, pos) {
        HdrsResult::Error => HttpState::Error(ErrorState::InvalidHttp),
        HdrsResult::Incomplete => HttpState::HasRequestLine(pos, rl),
        HdrsResult::Done(end, host) => match host {
            Some(h) => HttpState::HasHost(end, rl, h),
            None => HttpState::HasRequestLine(end, rl),
        },
    }
}

/// One parser invocation over the whole accumulated buffer.
pub fn advance(state: &HttpState, buf: &Vec<u8>) -> (r: HttpState)
    ensures
        r@ == advance_spec(state@, buf@),
{
    match state {
        HttpState::Initial => match parse_request_line(buf) {
            RlResult::Error => HttpState::Error(ErrorState::InvalidHttp),
            RlResult::Incomplete => HttpState::Initial,
            RlResult::Done(end, rl) => advance_headers(buf, end, rl),
        },
        HttpState::HasRequestLine(pos, rl) => advance_headers(buf, *pos, rl.duplicate()),
        _ => state.duplicate(),
    }
}

/// Error terminality: once the parse state is `Error`, no further parser
/// invocation changes it.
pub proof fn lemma_error_terminal(st: HttpStateSpec, s: Seq<u8>)
    requires
        st is Error,
    ensures
        advance_spec(st, s) == st,
{
}

/// A request line parsed to completion ends at a real offset of the buffer.
pub proof fn lemma_rl_done_bounds(s: Seq<u8>)
    ensures
        rl_outcome(s) matches RlOutcomeSpec::Done(end, _) ==> 0 <= end <= s.len(),
{
    let m = span(s, 0, ByteClass::Tchar) as int;
    lemma_span_shape(s, 0, ByteClass::Tchar);
    if m == s.len() || m == 0 || s[m] != BYTE_SP {
    } else {
        let u0 = m + 1;
        let u = span(s, u0, ByteClass::Vchar) as int;
        lemma_span_shape(s, u0, ByteClass::Vchar);
    }
}

/// A header block parsed to completion ends past its first byte pair and
/// within the buffer.
pub proof fn lemma_hdrs_done_bounds(s: Seq<u8>, i: int)
    requires
        0 <= i,
    ensures
        hdrs_outcome(s, i) matches HdrsOutcomeSpec::Done(end, _) ==> i + 2 <= end <= s.len(),
    decreases s.len() - i,
{
    if i < s.len() && s[i] != BYTE_CR && in_class(ByteClass::Tchar, s[i]) {
        let nl = span(s, i, ByteClass::Tchar) as int;
        if i + nl < s.len() && s[i + nl] == BYTE_COLON {
            let sp = span(s, i + nl + 1, ByteClass::Space) as int;
            let v0 = i + nl + 1 + sp;
            let vl = span(s, v0, ByteClass::HeaderValue) as int;
            let vend = v0 + vl;
            if vend + 1 < s.len() && s[vend] == BYTE_CR && s[vend + 1] == BYTE_LF {
                assert(span(s, i, ByteClass::Tchar) >= 1);
                lemma_hdrs_done_bounds(s, vend + 2);
            }
        }
    }
}

/// Where a state stands along the forward order of the session.
pub open spec fn state_order(st: HttpStateSpec) -> int {
    match st {
        HttpStateSpec::Initial => 0,
        HttpStateSpec::HasRequestLine(_, _) => 1,
        HttpStateSpec::HasHost(_, _, _) => 2,
        HttpStateSpec::HeadersParsed(_, _, _) => 3,
        HttpStateSpec::Proxying(_, _, _, _) => 4,
        HttpStateSpec::Error(_) => 5,
    }
}

/// The parse state only ever advances forward along its order (`Error`
/// standing at the end as the terminal jump target), and the resume offset
/// never decreases across successive parses of the same growing buffer.
pub proof fn lemma_advance_forward(st: HttpStateSpec, s: Seq<u8>)
    ensures
        state_order(advance_spec(st, s)) >= state_order(st),
        st matches HttpStateSpec::HasRequestLine(p1, _) ==> (advance_spec(st, s) matches
            HttpStateSpec::HasRequestLine(p2, _) ==> p2 >= p1) && (advance_spec(st, s) matches
            HttpStateSpec::HasHost(p2, _, _) ==> p2 >= p1),
{
    match st {
        HttpStateSpec::Initial => {
            match rl_outcome(s) {
                RlOutcomeSpec::Done(end, rl) => {
                    assert(advance_spec(HttpStateSpec::Initial, s) == advance_spec(
                        HttpStateSpec::HasRequestLine(end, rl),
                        s,
                    ));
                },
                _ => {
                },
            }
        },
        HttpStateSpec::HasRequestLine(p1, _) => {
            if p1 >= 0 {
                lemma_hdrs_done_bounds(s, p1);
            }
        },
        _ => {
        },
    }
}

/// The head of `s` parses to completion but holds no `Host` header. A state
/// fed such a buffer sits just past the empty line, and whatever bytes
/// follow it would be re-read as further headers on a later invocation;
/// this is the one shape of input on which chunked feeding may diverge
/// from feeding the buffer whole.
pub open spec fn head_complete_without_host(s: Seq<u8>) -> bool {
    match rl_outcome(s) {
        RlOutcomeSpec::Done(end, _) => match hdrs_outcome(s, end) {
            HdrsOutcomeSpec::Done(_, host) => host is None,
            _ => false,
        },
        _ => false,
    }
}

/// Resumability: parsing a prefix first and then the grown buffer reaches
/// the same state as parsing the grown buffer directly.
pub proof fn lemma_advance_prefix(s: Seq<u8>, t: Seq<u8>)
    requires
        s.len() <= t.len(),
        s == t.take(s.len() as int),
        !head_complete_without_host(t),
    ensures
        advance_spec(advance_spec(HttpStateSpec::Initial, s), t) == advance_spec(
            HttpStateSpec::Initial,
            t,
        ),
{
    match rl_outcome(s) {
        RlOutcomeSpec::Incomplete => {
        },
        RlOutcomeSpec::Error => {
            lemma_rl_prefix(s, t);
        },
        RlOutcomeSpec::Done(end, rl) => {
            lemma_rl_prefix(s, t);
            lemma_rl_done_bounds(s);
            assert(advance_spec(HttpStateSpec::Initial, s) == advance_spec(
                HttpStateSpec::HasRequestLine(end, rl),
                s,
            ));
            assert(advance_spec(HttpStateSpec::Initial, t) == advance_spec(
                HttpStateSpec::HasRequestLine(end, rl),
                t,
            ));
            match hdrs_outcome(s, end) {
                HdrsOutcomeSpec::Incomplete => {
                },
                HdrsOutcomeSpec::Error => {
                    lemma_hdrs_prefix(s, t, end);
                },
                HdrsOutcomeSpec::Done(hend, host) => {
                    lemma_hdrs_prefix(s, t, end);
                    if host is None {
                        assert(head_complete_without_host(t));
                    }
                },
            }
        },
    }
}

/// The states reached by feeding a chain of ever longer prefixes of `f`,
/// oldest first, one parser invocation per prefix.
pub open spec fn feed_prefixes(st: HttpStateSpec, cuts: Seq<int>, f: Seq<u8>) -> HttpStateSpec
    decreases cuts.len(),
{
    if cuts.len() == 0 {
        st
    } else {
        advance_spec(feed_prefixes(st, cuts.drop_last(), f), f.take(cuts.last()))
    }
}

proof fn lemma_feed_prefixes_agree(st: HttpStateSpec, cuts: Seq<int>, f: Seq<u8>, s: Seq<u8>)
    requires
        s.len() <= f.len(),
        s == f.take(s.len() as int),
        forall|k: int| 0 <= k < cuts.len() ==> 0 <= #[trigger] cuts[k] <= s.len(),
    ensures
        feed_prefixes(st, cuts, f) == feed_prefixes(st, cuts, s),
    decreases cuts.len(),
{
    if cuts.len() > 0 {
        lemma_feed_prefixes_agree(st, cuts.drop_last(), f, s);
        assert(f.take(cuts.last()) =~= s.take(cuts.last()));
    }
}

/// Parser monotonicity: feed a buffer in increments, split at any byte
/// boundaries — one parser invocation per increment, each seeing all bytes
/// accumulated so far — and a final invocation on the whole buffer reaches
/// exactly the state that parsing the whole buffer at once reaches. Only a
/// buffer whose head completes without any `Host` header is excluded: there
/// the parser deliberately keeps waiting for more headers, and bytes past
/// the empty line would be re-read as such.
#[verifier::rlimit(50)]
pub proof fn lemma_parser_monotonic(cuts: Seq<int>, f: Seq<u8>)
    requires
        !head_complete_without_host(f),
        forall|k: int| 0 <= k < cuts.len() ==> 0 <= #[trigger] cuts[k] <= f.len(),
        forall|k: int, l: int| 0 <= k <= l < cuts.len() ==> #[trigger] cuts[k] <= #[trigger] cuts[l],
    ensures
        advance_spec(feed_prefixes(HttpStateSpec::Initial, cuts, f), f) == advance_spec(
            HttpStateSpec::Initial,
            f,
        ),
    decreases cuts.len(),
{
    if cuts.len() > 0 {
        let c = cuts.last();
        let s = f.take(c);
        let rest = cuts.drop_last();
        assert(s == f.take(s.len() as int));
        assert(!head_complete_without_host(s)) by {
            if head_complete_without_host(s) {
                lemma_rl_prefix(s, f);
                lemma_rl_done_bounds(s);
                match rl_outcome(s) {
                    RlOutcomeSpec::Done(end, _) => {
                        lemma_hdrs_prefix(s, f, end);
                    },
                    _ => {
                    },
                }
            }
        }
        assert(forall|k: int| 0 <= k < rest.len() ==> 0 <= #[trigger] rest[k] <= s.len());
        lemma_parser_monotonic(rest, s);
        lemma_feed_prefixes_agree(HttpStateSpec::Initial, rest, f, s);
        lemma_advance_prefix(s, f);
    }
}

} // verus!
