//! URLs held as their serialized bytes. Parsing and the resolution of a
//! reference against a base are the work of the `url` crate; the parts that
//! the loader reads (scheme, host, path) are taken from the serialization.

use vstd::prelude::*;
use crate::headers::opt_bytes;

verus! {

/// What `url::Url::parse` serializes the input to, or `None` where it
/// refuses the input.
pub uninterp spec fn parsed_url(s: Seq<u8>) -> Option<Seq<u8>>;

/// What `url::Url::join` serializes `reference`, resolved against `base`,
/// to, or `None` where the base or the reference does not parse.
pub uninterp spec fn joined_url(base: Seq<u8>, reference: Seq<u8>) -> Option<Seq<u8>>;

/// Relies on `url::Url::parse` and `url::Url::as_str`: the serialization of
/// the parsed URL. Input that is not UTF-8 is refused before the call.
#[verifier::external_body]
fn url_parse_bytes(s: &[u8]) -> (r: Option<Vec<u8>>)
    ensures
        opt_bytes(r) == parsed_url(s@),
{
    match std::str::from_utf8(s) {
        Ok(t) => url::Url::parse(t).ok().map(|u| u.as_str().as_bytes().to_vec()),
        Err(_) => None,
    }
}

/// Relies on `url::Url::parse` for the base and `url::Url::join` for the
/// reference: the serialization of the resolved URL.
#[verifier::external_body]
fn url_join_bytes(base: &[u8], reference: &[u8]) -> (r: Option<Vec<u8>>)
    ensures
        opt_bytes(r) == joined_url(base@, reference@),
{
    match (std::str::from_utf8(base), std::str::from_utf8(reference)) {
        (Ok(b), Ok(t)) => match url::Url::parse(b) {
            Ok(u) => u.join(t).ok().map(|j| j.as_str().as_bytes().to_vec()),
            Err(_) => None,
        },
        _ => None,
    }
}

/// Relies on `url::Url::parse` and `url::Url::host_str`: the host of the
/// parsed URL. Input that is not UTF-8 is refused before the call.
#[verifier::external_body]
fn url_host_bytes(s: &[u8]) -> (r: Vec<u8>)
    ensures
        r@ == host_of(s@),
{
    match std::str::from_utf8(s).map(url::Url::parse) {
        Ok(Ok(u)) => u.host_str().unwrap_or("").as_bytes().to_vec(),
        _ => Vec::new(),
    }
}

/// The first index at or after `a` that holds `c`, or the length.
pub open spec fn find_from(s: Seq<u8>, c: u8, a: int) -> int
    decreases s.len() - a,
{
    if a < 0 || a >= s.len() {
        s.len() as int
    } else if s[a] == c {
        a
    } else {
        find_from(s, c, a + 1)
    }
}

/// Bytes that end the first part of an authority (a host, or user info).
pub open spec fn ends_host(c: u8) -> bool {
    c == 58 || c == 47 || c == 63 || c == 35
}

/// Bytes that end a path.
pub open spec fn ends_path(c: u8) -> bool {
    c == 63 || c == 35
}

/// The first index at or after `a` that ends the first part of an
/// authority, or the length.
pub open spec fn host_end_from(s: Seq<u8>, a: int) -> int
    decreases s.len() - a,
{
    if a < 0 || a >= s.len() {
        s.len() as int
    } else if ends_host(s[a]) {
        a
    } else {
        host_end_from(s, a + 1)
    }
}

/// The first index at or after `a` that ends a path, or the length.
pub open spec fn path_end_from(s: Seq<u8>, a: int) -> int
    decreases s.len() - a,
{
    if a < 0 || a >= s.len() {
        s.len() as int
    } else if ends_path(s[a]) {
        a
    } else {
        path_end_from(s, a + 1)
    }
}

/// The index of the colon that ends the scheme (the length if there is none).
pub open spec fn scheme_end(s: Seq<u8>) -> int {
    find_from(s, 58, 0)
}

pub open spec fn scheme_of(s: Seq<u8>) -> Seq<u8> {
    s.subrange(0, scheme_end(s))
}

/// Everything after the scheme's colon.
pub open spec fn after_scheme(s: Seq<u8>) -> Seq<u8> {
    if scheme_end(s) < s.len() {
        s.subrange(scheme_end(s) + 1, s.len() as int)
    } else {
        Seq::empty()
    }
}

/// The serialization carries an authority: `scheme://`.
pub open spec fn has_authority(s: Seq<u8>) -> bool {
    scheme_end(s) + 3 <= s.len() && s[scheme_end(s) + 1] == 47 && s[scheme_end(s) + 2] == 47
}

/// Where the authority starts, just after `://`.
pub open spec fn host_start(s: Seq<u8>) -> int {
    scheme_end(s) + 3
}

/// The host that `url::Url::parse` finds in `s`, as `url::Url::host_str`
/// gives it (an IPv6 literal with its brackets, without any user info or
/// port); empty where there is none or `s` does not parse.
pub uninterp spec fn host_of(s: Seq<u8>) -> Seq<u8>;

/// What follows the authority: the path, query and fragment.
pub open spec fn after_authority(s: Seq<u8>) -> Seq<u8> {
    if has_authority(s) {
        let p = find_path_start(s);
        s.subrange(p, s.len() as int)
    } else {
        Seq::empty()
    }
}

/// The first index after the host that starts the path, query or fragment.
pub open spec fn find_path_start(s: Seq<u8>) -> int {
    let h = host_end_from(s, host_start(s));
    if h < s.len() && s[h] == 58 {
        port_end_from(s, h)
    } else {
        h
    }
}

/// The first index at or after `a` that is `/`, `?` or `#`, or the length.
pub open spec fn port_end_from(s: Seq<u8>, a: int) -> int
    decreases s.len() - a,
{
    if a < 0 || a >= s.len() {
        s.len() as int
    } else if s[a] == 47 || s[a] == 63 || s[a] == 35 {
        a
    } else {
        port_end_from(s, a + 1)
    }
}

/// The path of a URL with an authority (empty otherwise): what follows the
/// authority up to a query or a fragment.
pub open spec fn path_of(s: Seq<u8>) -> Seq<u8> {
    if has_authority(s) {
        let p = find_path_start(s);
        s.subrange(p, path_end_from(s, p))
    } else {
        Seq::empty()
    }
}

pub open spec fn http_scheme() -> Seq<u8> {
    seq![104u8, 116, 116, 112]
}

pub open spec fn https_scheme() -> Seq<u8> {
    seq![104u8, 116, 116, 112, 115]
}

pub open spec fn view_source_scheme() -> Seq<u8> {
    seq![118u8, 105, 101, 119, 45, 115, 111, 117, 114, 99, 101]
}

pub open spec fn is_http_family(scheme: Seq<u8>) -> bool {
    scheme == http_scheme() || scheme == https_scheme()
}

/// The loader serves `http` and `https`, and `view-source:` over either.
pub open spec fn scheme_supported(s: Seq<u8>) -> bool {
    is_http_family(scheme_of(s)) || (scheme_of(s) == view_source_scheme() && is_http_family(
        scheme_of(after_scheme(s)),
    ))
}

/// The same URL over `https`, on the default port (user info is not kept).
pub open spec fn upgraded(s: Seq<u8>) -> Seq<u8> {
    seq![104u8, 116, 116, 112, 115, 58, 47, 47] + host_of(s) + after_authority(s)
}

/// What a load of `s` requests: the inner URL of `view-source:`, else `s`.
pub open spec fn target_of(s: Seq<u8>) -> Seq<u8> {
    if scheme_of(s) == view_source_scheme() {
        after_scheme(s)
    } else {
        s
    }
}

/// A URL: the bytes of its serialization.
#[derive(Clone, Debug, PartialEq, Eq)]
pub struct Url {
    pub serialization: Vec<u8>,
}

impl View for Url {
    type V = Seq<u8>;

    open spec fn view(&self) -> Seq<u8> {
        self.serialization@
    }
}

pub open spec fn opt_url(r: Option<Url>) -> Option<Seq<u8>> {
    match r {
        Some(u) => Some(u@),
        None => None,
    }
}

/// A copy of `s[a..b]`.
pub fn copy_range(s: &[u8], a: usize, b: usize) -> (r: Vec<u8>)
    requires
        a <= b <= s@.len(),
    ensures
        r@ == s@.subrange(a as int, b as int),
{
    let mut r: Vec<u8> = Vec::new();
    let mut i: usize = a;
    while i < b
        invariant
            a <= i <= b <= s@.len(),
            r@ == s@.subrange(a as int, i as int),
        decreases b - i,
    {
        r.push(s[i]);
        i = i + 1;
        assert(r@ =~= s@.subrange(a as int, i as int));
    }
    r
}

/// Whether two byte strings are equal.
pub fn bytes_eq(a: &[u8], b: &[u8]) -> (r: bool)
    ensures
        r == (a@ == b@),
{
    if a.len() != b.len() {
        return false;
    }
    let mut i: usize = 0;
    while i < a.len()
        invariant
            a@.len() == b@.len(),
            0 <= i <= a@.len(),
            forall|j: int| 0 <= j < i ==> a@[j] == b@[j],
        decreases a@.len() - i,
    {
        if a[i] != b[i] {
            return false;
        }
        i = i + 1;
    }
    assert(a@ =~= b@);
    true
}

/// Appends `b` to `a`.
pub fn append_bytes(a: &mut Vec<u8>, b: &[u8])
    ensures
        final(a)@ == old(a)@ + b@,
{
    let mut i: usize = 0;
    while i < b.len()
        invariant
            0 <= i <= b@.len(),
            a@ == old(a)@ + b@.subrange(0, i as int),
        decreases b@.len() - i,
    {
        a.push(b[i]);
        i = i + 1;
        assert(a@ =~= old(a)@ + b@.subrange(0, i as int));
    }
    assert(b@.subrange(0, b@.len() as int) =~= b@);
}

/// The first index at or after `a` that holds `c`, or the length.
pub fn find_byte(s: &[u8], c: u8, a: usize) -> (r: usize)
    requires
        a <= s@.len(),
    ensures
        r == find_from(s@, c, a as int),
{
    let mut i: usize = a;
    while i < s.len() && s[i] != c
        invariant
            a <= i <= s@.len(),
            find_from(s@, c, a as int) == find_from(s@, c, i as int),
        decreases s@.len() - i,
    {
        i = i + 1;
    }
    i
}

fn host_end(s: &[u8], a: usize) -> (r: usize)
    requires
        a <= s@.len(),
    ensures
        r == host_end_from(s@, a as int),
{
    let mut i: usize = a;
    while i < s.len() && !(s[i] == 58 || s[i] == 47 || s[i] == 63 || s[i] == 35)
        invariant
            a <= i <= s@.len(),
            host_end_from(s@, a as int) == host_end_from(s@, i as int),
        decreases s@.len() - i,
    {
        i = i + 1;
    }
    i
}

fn port_end(s: &[u8], a: usize) -> (r: usize)
    requires
        a <= s@.len(),
    ensures
        r == port_end_from(s@, a as int),
{
    let mut i: usize = a;
    while i < s.len() && !(s[i] == 47 || s[i] == 63 || s[i] == 35)
        invariant
            a <= i <= s@.len(),
            port_end_from(s@, a as int) == port_end_from(s@, i as int),
        decreases s@.len() - i,
    {
        i = i + 1;
    }
    i
}

fn path_end(s: &[u8], a: usize) -> (r: usize)
    requires
        a <= s@.len(),
    ensures
        r == path_end_from(s@, a as int),
{
    let mut i: usize = a;
    while i < s.len() && !(s[i] == 63 || s[i] == 35)
        invariant
            a <= i <= s@.len(),
            path_end_from(s@, a as int) == path_end_from(s@, i as int),
        decreases s@.len() - i,
    {
        i = i + 1;
    }
    i
}

pub proof fn lemma_find_bounds(s: Seq<u8>, c: u8, a: int)
    requires
        0 <= a <= s.len(),
    ensures
        a <= find_from(s, c, a) <= s.len(),
    decreases s.len() - a,
{
    if a < s.len() && s[a] != c {
        lemma_find_bounds(s, c, a + 1);
    }
}

pub proof fn lemma_host_end_bounds(s: Seq<u8>, a: int)
    requires
        0 <= a <= s.len(),
    ensures
        a <= host_end_from(s, a) <= s.len(),
    decreases s.len() - a,
{
    if a < s.len() && !ends_host(s[a]) {
        lemma_host_end_bounds(s, a + 1);
    }
}

pub proof fn lemma_port_end_bounds(s: Seq<u8>, a: int)
    requires
        0 <= a <= s.len(),
    ensures
        a <= port_end_from(s, a) <= s.len(),
    decreases s.len() - a,
{
    if a < s.len() && !(s[a] == 47 || s[a] == 63 || s[a] == 35) {
        lemma_port_end_bounds(s, a + 1);
    }
}

pub proof fn lemma_path_end_bounds(s: Seq<u8>, a: int)
    requires
        0 <= a <= s.len(),
    ensures
        a <= path_end_from(s, a) <= s.len(),
    decreases s.len() - a,
{
    if a < s.len() && !ends_path(s[a]) {
        lemma_path_end_bounds(s, a + 1);
    }
}

/// Whether the byte string `s` equals the scheme `http`.
fn is_http(s: &[u8]) -> (r: bool)
    ensures
        r == (s@ == http_scheme()),
{
    let r = s.len() == 4 && s[0] == 104 && s[1] == 116 && s[2] == 116 && s[3] == 112;
    proof {
        if r {
            assert(s@ =~= http_scheme());
        }
    }
    r
}

fn is_https(s: &[u8]) -> (r: bool)
    ensures
        r == (s@ == https_scheme()),
{
    let r = s.len() == 5 && s[0] == 104 && s[1] == 116 && s[2] == 116 && s[3] == 112 && s[4]
        == 115;
    proof {
        if r {
            assert(s@ =~= https_scheme());
        }
    }
    r
}

fn is_view_source(s: &[u8]) -> (r: bool)
    ensures
        r == (s@ == view_source_scheme()),
{
    let r = s.len() == 11 && s[0] == 118 && s[1] == 105 && s[2] == 101 && s[3] == 119 && s[4]
        == 45 && s[5] == 115 && s[6] == 111 && s[7] == 117 && s[8] == 114 && s[9] == 99 && s[10]
        == 101;
    proof {
        if r {
            assert(s@ =~= view_source_scheme());
        }
    }
    r
}

impl Url {
    /// Parses `input` as an absolute URL.
    pub fn parse(input: &[u8]) -> (r: Option<Url>)
        ensures
            opt_url(r) == parsed_url(input@),
    {
        match url_parse_bytes(input) {
            Some(s) => Some(Url { serialization: s }),
            None => None,
        }
    }

    /// Resolves `reference` (absolute or relative) against this URL.
    pub fn join(&self, reference: &[u8]) -> (r: Option<Url>)
        ensures
            opt_url(r) == joined_url(self@, reference@),
    {
        match url_join_bytes(self.serialization.as_slice(), reference) {
            Some(s) => Some(Url { serialization: s }),
            None => None,
        }
    }

    /// The scheme, without its colon.
    pub fn scheme(&self) -> (r: Vec<u8>)
        ensures
            r@ == scheme_of(self@),
    {
        let s = self.serialization.as_slice();
        let e = find_byte(s, 58, 0);
        proof {
            lemma_find_bounds(s@, 58, 0);
        }
        copy_range(s, 0, e)
    }

    /// The host, as the `url` crate reads it; empty where there is none.
    pub fn host(&self) -> (r: Vec<u8>)
        ensures
            r@ == host_of(self@),
    {
        url_host_bytes(self.serialization.as_slice())
    }

    /// Where the path starts, for a URL with an authority.
    fn path_start(&self) -> (r: usize)
        requires
            has_authority(self@),
        ensures
            r == find_path_start(self@),
            r <= self@.len(),
    {
        let s = self.serialization.as_slice();
        let e = find_byte(s, 58, 0);
        assert(s@ == self@);
        let n = s.len();
        assert(e + 3 <= n);
        proof {
            lemma_find_bounds(s@, 58, 0);
            lemma_host_end_bounds(s@, e + 3);
        }
        let h = host_end(s, e + 3);
        if h < s.len() && s[h] == 58 {
            proof {
                lemma_port_end_bounds(s@, h as int);
            }
            port_end(s, h)
        } else {
            h
        }
    }

    /// The path, for a URL with an authority; empty otherwise.
    pub fn path(&self) -> (r: Vec<u8>)
        ensures
            r@ == path_of(self@),
    {
        let s = self.serialization.as_slice();
        let e = find_byte(s, 58, 0);
        proof {
            lemma_find_bounds(s@, 58, 0);
        }
        if e < s.len() && s.len() - e >= 3 && s[e + 1] == 47 && s[e + 2] == 47 {
            let p = self.path_start();
            proof {
                lemma_path_end_bounds(s@, p as int);
            }
            let q = path_end(s, p);
            copy_range(s, p, q)
        } else {
            Vec::new()
        }
    }

    /// Whether the scheme is `https`.
    pub fn is_secure(&self) -> (r: bool)
        ensures
            r == (scheme_of(self@) == https_scheme()),
    {
        let sc = self.scheme();
        is_https(sc.as_slice())
    }

    /// Whether the scheme is `http`.
    pub fn is_plain_http(&self) -> (r: bool)
        ensures
            r == (scheme_of(self@) == http_scheme()),
    {
        let sc = self.scheme();
        is_http(sc.as_slice())
    }

    /// Whether the loader serves this URL: `http`, `https`, or `view-source:`
    /// over one of them.
    pub fn is_supported(&self) -> (r: bool)
        ensures
            r == scheme_supported(self@),
    {
        let s = self.serialization.as_slice();
        let sc = self.scheme();
        if is_http(sc.as_slice()) || is_https(sc.as_slice()) {
            return true;
        }
        if !is_view_source(sc.as_slice()) {
            return false;
        }
        let e = find_byte(s, 58, 0);
        proof {
            lemma_find_bounds(s@, 58, 0);
        }
        if e >= s.len() {
            let ghost empty = Seq::<u8>::empty();
            assert(after_scheme(self@) =~= empty);
            assert(scheme_of(empty) =~= empty);
            return false;
        }
        let inner = Url { serialization: copy_range(s, e + 1, s.len()) };
        let isc = inner.scheme();
        is_http(isc.as_slice()) || is_https(isc.as_slice())
    }

    /// What a load of this URL requests: the inner URL of `view-source:`,
    /// else this URL.
    pub fn target(&self) -> (r: Url)
        ensures
            r@ == target_of(self@),
    {
        let sc = self.scheme();
        if !is_view_source(sc.as_slice()) {
            return self.copy();
        }
        let s = self.serialization.as_slice();
        let e = find_byte(s, 58, 0);
        proof {
            lemma_find_bounds(s@, 58, 0);
        }
        if e >= s.len() {
            assert(after_scheme(self@) =~= Seq::<u8>::empty());
            return Url { serialization: Vec::new() };
        }
        Url { serialization: copy_range(s, e + 1, s.len()) }
    }

    /// The same URL over `https`, on the default port.
    pub fn upgrade_to_https(&self) -> (r: Url)
        ensures
            r@ == upgraded(self@),
    {
        let mut out: Vec<u8> = vec![104u8, 116, 116, 112, 115, 58, 47, 47];
        let host = self.host();
        append_bytes(&mut out, host.as_slice());
        let s = self.serialization.as_slice();
        let e = find_byte(s, 58, 0);
        proof {
            lemma_find_bounds(s@, 58, 0);
        }
        if e < s.len() && s.len() - e >= 3 && s[e + 1] == 47 && s[e + 2] == 47 {
            let p = self.path_start();
            let rest = copy_range(s, p, s.len());
            append_bytes(&mut out, rest.as_slice());
        } else {
            assert(after_authority(self@) =~= Seq::<u8>::empty());
            assert(out@ =~= out@ + Seq::<u8>::empty());
        }
        Url { serialization: out }
    }

    /// A copy of this URL.
    pub fn copy(&self) -> (r: Url)
        ensures
            r@ == self@,
    {
        Url { serialization: self.serialization.clone() }
    }

    /// Whether two URLs serialize to the same bytes.
    pub fn same_as(&self, other: &Url) -> (r: bool)
        ensures
            r == (self@ == other@),
    {
        bytes_eq(self.serialization.as_slice(), other.serialization.as_slice())
    }
}

} // verus!
