//! The cookie jar: cookies keyed by domain, path and name, filled from
//! `Set-Cookie` headers and read back as one `Cookie` request header.

use vstd::prelude::*;
use crate::headers::opt_bytes;
use crate::hsts::{is_subdomain_of, is_subdomain};
use crate::url::{
    Url, bytes_eq, copy_range, append_bytes, host_of, path_of, scheme_of, https_scheme,
    lemma_find_bounds, lemma_host_end_bounds, lemma_port_end_bounds, lemma_path_end_bounds, host_start, host_end_from, port_end_from, path_end_from, find_path_start,
    ends_host, ends_path,
};

verus! {

/// Who sets or reads a cookie: the HTTP layer, or script.
#[derive(Clone, Copy, Debug, PartialEq, Eq, Structural)]
pub enum CookieSource {
    Http,
    NonHttp,
}

/// The attributes of a `Set-Cookie` value as the `cookie` crate reads them.
pub struct CookieParts {
    pub name: Vec<u8>,
    pub value: Vec<u8>,
    pub domain: Option<Vec<u8>>,
    pub path: Option<Vec<u8>>,
    pub secure: bool,
    pub http_only: bool,
}

pub open spec fn parts_view(r: Option<CookieParts>) -> Option<
    (Seq<u8>, Seq<u8>, Option<Seq<u8>>, Option<Seq<u8>>, bool, bool),
> {
    match r {
        Some(p) => Some(
            (p.name@, p.value@, opt_bytes(p.domain), opt_bytes(p.path), p.secure, p.http_only),
        ),
        None => None,
    }
}

/// What `cookie::Cookie::parse` reads from a `Set-Cookie` value: name,
/// value, `Domain` (without a leading dot), `Path`, `Secure`, `HttpOnly`.
pub uninterp spec fn parsed_cookie(s: Seq<u8>) -> Option<
    (Seq<u8>, Seq<u8>, Option<Seq<u8>>, Option<Seq<u8>>, bool, bool),
>;

/// Relies on `cookie::Cookie::parse` and its accessors: the attributes of
/// the parsed cookie, or `None` where parsing fails. Input that is not UTF-8
/// is refused before the call.
#[verifier::external_body]
fn parse_set_cookie(s: &[u8]) -> (r: Option<CookieParts>)
    ensures
        parts_view(r) == parsed_cookie(s@),
{
    match std::str::from_utf8(s).map(cookie::Cookie::parse) {
        Ok(Ok(c)) => Some(CookieParts {
            name: c.name().as_bytes().to_vec(),
            value: c.value().as_bytes().to_vec(),
            domain: c.domain().map(|d| d.as_bytes().to_vec()),
            path: c.path().map(|p| p.as_bytes().to_vec()),
            secure: c.secure().unwrap_or(false),
            http_only: c.http_only().unwrap_or(false),
        }),
        _ => None,
    }
}

/// A cookie as the jar keeps it.
pub ghost struct CookieView {
    pub name: Seq<u8>,
    pub value: Seq<u8>,
    pub domain: Seq<u8>,
    pub path: Seq<u8>,
    pub secure: bool,
    pub http_only: bool,
    pub host_only: bool,
}

#[derive(Clone, Debug, PartialEq, Eq)]
pub struct Cookie {
    pub name: Vec<u8>,
    pub value: Vec<u8>,
    pub domain: Vec<u8>,
    pub path: Vec<u8>,
    pub secure: bool,
    pub http_only: bool,
    /// Sent to the exact host that set it only (no `Domain` attribute).
    pub host_only: bool,
}

impl View for Cookie {
    type V = CookieView;

    open spec fn view(&self) -> CookieView {
        CookieView {
            name: self.name@,
            value: self.value@,
            domain: self.domain@,
            path: self.path@,
            secure: self.secure,
            http_only: self.http_only,
            host_only: self.host_only,
        }
    }
}

/// The index of the last `/` in `p`, or -1.
pub open spec fn last_slash(p: Seq<u8>) -> int
    decreases p.len(),
{
    if p.len() == 0 {
        -1
    } else if p.last() == 47 {
        p.len() - 1
    } else {
        last_slash(p.drop_last())
    }
}

/// The default path of a cookie set by a response to a request for `p`:
/// the directory of `p`, or `/`.
pub open spec fn default_path(p: Seq<u8>) -> Seq<u8> {
    if p.len() == 0 || p[0] != 47 || last_slash(p) <= 0 {
        seq![47u8]
    } else {
        p.subrange(0, last_slash(p))
    }
}

/// `host` lies in `domain`: equal to it, or below it unless host-only.
pub open spec fn domain_matches(host: Seq<u8>, domain: Seq<u8>, host_only: bool) -> bool {
    host == domain || (!host_only && is_subdomain_of(host, domain))
}

/// The cookie path `cp` covers the request path `rp`.
pub open spec fn path_matches(rp: Seq<u8>, cp: Seq<u8>) -> bool {
    rp == cp || (cp.len() < rp.len() && rp.subrange(0, cp.len() as int) == cp && (
    (cp.len() > 0 && cp.last() == 47) || rp[cp.len() as int] == 47))
}

/// The path that cookies are matched against: the URL's, or `/`.
pub open spec fn request_path(url: Seq<u8>) -> Seq<u8> {
    if path_of(url).len() == 0 {
        seq![47u8]
    } else {
        path_of(url)
    }
}

/// The cookie that a `Set-Cookie` value received for `url` creates, or
/// `None` where the value does not parse, its `Domain` does not cover the
/// URL's host, or it is `HttpOnly` and not set by HTTP.
pub open spec fn cookie_from_header(
    value: Seq<u8>,
    url: Seq<u8>,
    source: CookieSource,
) -> Option<CookieView> {
    match parsed_cookie(value) {
        None => None,
        Some(p) => {
            let host = host_of(url);
            let domain_ok = match p.2 {
                Some(d) => domain_matches(host, d, false),
                None => true,
            };
            if !domain_ok || (p.5 && source != CookieSource::Http) {
                None
            } else {
                Some(
                    CookieView {
                        name: p.0,
                        value: p.1,
                        domain: match p.2 {
                            Some(d) => d,
                            None => host,
                        },
                        path: match p.3 {
                            Some(cp) => if cp.len() > 0 && cp[0] == 47 {
                                cp
                            } else {
                                default_path(request_path(url))
                            },
                            None => default_path(request_path(url)),
                        },
                        secure: p.4,
                        http_only: p.5,
                        host_only: p.2 is None,
                    },
                )
            }
        },
    }
}

proof fn lemma_last_slash(p: Seq<u8>)
    ensures
        -1 <= last_slash(p) < p.len(),
        last_slash(p) >= 0 ==> p[last_slash(p)] == 47,
        p.len() > 0 && p[0] == 47 ==> last_slash(p) >= 0,
    decreases p.len(),
{
    if p.len() > 0 && p.last() != 47 {
        lemma_last_slash(p.drop_last());
        if p[0] == 47 {
            assert(p.drop_last()[0] == 47);
        }
    }
}

/// A cookie's default path covers the path it was derived from.
pub proof fn lemma_default_path_matches(rp: Seq<u8>)
    requires
        rp.len() > 0,
        rp[0] == 47,
    ensures
        path_matches(rp, default_path(rp)),
{
    lemma_last_slash(rp);
    let k = last_slash(rp);
    if k <= 0 {
        if rp.len() == 1 {
            assert(rp =~= seq![47u8]);
        } else {
            assert(rp.subrange(0, 1) =~= seq![47u8]);
        }
    } else {
        assert(rp.subrange(0, k).len() == k);
    }
}

proof fn lemma_host_end(s: Seq<u8>, a: int)
    requires
        0 <= a <= s.len(),
    ensures
        host_end_from(s, a) < s.len() ==> ends_host(s[host_end_from(s, a)]),
    decreases s.len() - a,
{
    if a < s.len() && !ends_host(s[a]) {
        lemma_host_end(s, a + 1);
    }
}

proof fn lemma_port_end(s: Seq<u8>, a: int)
    requires
        0 <= a <= s.len(),
    ensures
        port_end_from(s, a) < s.len() ==> (s[port_end_from(s, a)] == 47 || ends_path(
            s[port_end_from(s, a)],
        )),
    decreases s.len() - a,
{
    if a < s.len() && !(s[a] == 47 || s[a] == 63 || s[a] == 35) {
        lemma_port_end(s, a + 1);
    }
}

/// The path that cookies are matched against always starts with `/`.
pub proof fn lemma_request_path_rooted(url: Seq<u8>)
    ensures
        request_path(url).len() > 0,
        request_path(url)[0] == 47,
{
    if path_of(url).len() > 0 {
        let s = url;
        lemma_find_bounds(s, 58, 0);
        let hs = host_start(s);
        lemma_host_end(s, hs);
        lemma_host_end_bounds(s, hs);
        let h = host_end_from(s, hs);
        if h < s.len() && s[h] == 58 {
            lemma_port_end(s, h);
            lemma_port_end_bounds(s, h);
        }
        let p = find_path_start(s);
        lemma_path_end_bounds(s, p);
        if p < s.len() && ends_path(s[p]) {
            assert(path_end_from(s, p) == p);
        }
        if p >= s.len() {
            assert(path_end_from(s, p) == s.len());
        }
        assert(path_of(url)[0] == s[p]);
    }
}

/// The cookie `c` is sent with a request for `url` from `source`.
pub open spec fn cookie_applies(c: CookieView, url: Seq<u8>, source: CookieSource) -> bool {
    &&& domain_matches(host_of(url), c.domain, c.host_only)
    &&& path_matches(request_path(url), c.path)
    &&& (!c.secure || scheme_of(url) == https_scheme())
    &&& (!c.http_only || source == CookieSource::Http)
}

/// `name=value`.
pub open spec fn pair(c: CookieView) -> Seq<u8> {
    c.name + seq![61u8] + c.value
}

/// The `Cookie` header built from the first `n` cookies of `jar`: the
/// pairs of those that apply, joined by `; `.
pub open spec fn header_upto(jar: Seq<CookieView>, n: int, url: Seq<u8>, source: CookieSource) -> Seq<
    u8,
>
    decreases n,
{
    if n <= 0 {
        Seq::empty()
    } else {
        let prev = header_upto(jar, n - 1, url, source);
        if cookie_applies(jar[n - 1], url, source) {
            if prev.len() == 0 {
                pair(jar[n - 1])
            } else {
                prev + seq![59u8, 32] + pair(jar[n - 1])
            }
        } else {
            prev
        }
    }
}

pub open spec fn cookie_header(jar: Seq<CookieView>, url: Seq<u8>, source: CookieSource) -> Option<
    Seq<u8>,
> {
    let h = header_upto(jar, jar.len() as int, url, source);
    if h.len() == 0 {
        None
    } else {
        Some(h)
    }
}

pub open spec fn same_key(a: CookieView, b: CookieView) -> bool {
    a.domain == b.domain && a.path == b.path && a.name == b.name
}

pub open spec fn keys_unique(jar: Seq<CookieView>) -> bool {
    forall|i: int, j: int| 0 <= i < j < jar.len() ==> !same_key(#[trigger] jar[i], #[trigger] jar[j])
}

/// `jar` after `push(c, source)`: an `HttpOnly` cookie from script is
/// refused; otherwise `c` replaces the cookie of the same key, or is added.
pub open spec fn pushed(jar: Seq<CookieView>, c: CookieView, source: CookieSource) -> Seq<
    CookieView,
> {
    if c.http_only && source != CookieSource::Http {
        jar
    } else if exists|i: int| 0 <= i < jar.len() && same_key(#[trigger] jar[i], c) {
        jar.update(choose|i: int| 0 <= i < jar.len() && same_key(#[trigger] jar[i], c), c)
    } else {
        jar.push(c)
    }
}

fn last_slash_index(p: &[u8]) -> (r: Option<usize>)
    ensures
        match r {
            Some(i) => i < p@.len() && i == last_slash(p@),
            None => last_slash(p@) == -1,
        },
{
    let mut j: usize = p.len();
    assert(p@.subrange(0, j as int) =~= p@);
    while j > 0
        invariant
            j <= p@.len(),
            last_slash(p@) == last_slash(p@.subrange(0, j as int)),
        decreases j,
    {
        let ghost q = p@.subrange(0, j as int);
        assert(q.drop_last() =~= p@.subrange(0, j - 1));
        if p[j - 1] == 47 {
            return Some(j - 1);
        }
        j = j - 1;
    }
    None
}

fn default_path_of(p: &[u8]) -> (r: Vec<u8>)
    ensures
        r@ == default_path(p@),
{
    if p.len() == 0 || p[0] != 47 {
        return vec![47u8];
    }
    match last_slash_index(p) {
        Some(k) => if k == 0 {
            vec![47u8]
        } else {
            copy_range(p, 0, k)
        },
        None => vec![47u8],
    }
}

fn request_path_of(url: &Url) -> (r: Vec<u8>)
    ensures
        r@ == request_path(url@),
{
    let p = url.path();
    if p.len() == 0 {
        vec![47u8]
    } else {
        p
    }
}

fn domain_match(host: &[u8], domain: &[u8], host_only: bool) -> (r: bool)
    ensures
        r == domain_matches(host@, domain@, host_only),
{
    bytes_eq(host, domain) || (!host_only && is_subdomain(host, domain))
}

fn path_match(rp: &[u8], cp: &[u8]) -> (r: bool)
    ensures
        r == path_matches(rp@, cp@),
{
    if bytes_eq(rp, cp) {
        return true;
    }
    if cp.len() >= rp.len() {
        return false;
    }
    let head = copy_range(rp, 0, cp.len());
    bytes_eq(head.as_slice(), cp) && ((cp.len() > 0 && cp[cp.len() - 1] == 47) || rp[cp.len()]
        == 47)
}

impl Cookie {
    /// The cookie that a `Set-Cookie` value received in a response for
    /// `url` creates.
    pub fn from_set_cookie(value: &[u8], url: &Url, source: CookieSource) -> (r: Option<Cookie>)
        ensures
            match r {
                Some(c) => cookie_from_header(value@, url@, source) == Some(c@),
                None => cookie_from_header(value@, url@, source) is None,
            },
    {
        let parts = match parse_set_cookie(value) {
            Some(p) => p,
            None => return None,
        };
        let host = url.host();
        let domain_ok = match &parts.domain {
            Some(d) => domain_match(host.as_slice(), d.as_slice(), false),
            None => true,
        };
        if !domain_ok || (parts.http_only && source != CookieSource::Http) {
            return None;
        }
        let host_only = parts.domain.is_none();
        let domain = match parts.domain {
            Some(d) => d,
            None => host,
        };
        let path = match parts.path {
            Some(cp) => if cp.len() > 0 && cp[0] == 47 {
                cp
            } else {
                let rp = request_path_of(url);
                default_path_of(rp.as_slice())
            },
            None => {
                let rp = request_path_of(url);
                default_path_of(rp.as_slice())
            },
        };
        Some(
            Cookie {
                name: parts.name,
                value: parts.value,
                domain,
                path,
                secure: parts.secure,
                http_only: parts.http_only,
                host_only,
            },
        )
    }

    fn applies(&self, host: &[u8], rp: &[u8], secure_url: bool, source: CookieSource) -> (r: bool)
        ensures
            forall|url: Seq<u8>|
                host_of(url) == host@ && request_path(url) == rp@ && (secure_url == (scheme_of(url)
                    == https_scheme())) ==> r == cookie_applies(self@, url, source),
    {
        domain_match(host, self.domain.as_slice(), self.host_only) && path_match(
            rp,
            self.path.as_slice(),
        ) && (!self.secure || secure_url) && (!self.http_only || source == CookieSource::Http)
    }
}

/// The cookies of the jar, each key at most once.
#[derive(Clone, Debug)]
pub struct CookieStorage {
    cookies: Vec<Cookie>,
}

impl View for CookieStorage {
    type V = Seq<CookieView>;

    closed spec fn view(&self) -> Seq<CookieView> {
        self.cookies@.map_values(|c: Cookie| c@)
    }
}

impl CookieStorage {
    pub open spec fn wf(&self) -> bool {
        keys_unique(self@)
    }

    /// An empty jar.
    pub fn new() -> (r: CookieStorage)
        ensures
            r.wf(),
            r@ == Seq::<CookieView>::empty(),
    {
        let r = CookieStorage { cookies: Vec::new() };
        assert(r@ =~= Seq::<CookieView>::empty());
        r
    }

    /// The number of cookies held.
    pub fn len(&self) -> (r: usize)
        ensures
            r == self@.len(),
    {
        self.cookies.len()
    }

    fn find_key(&self, c: &Cookie) -> (r: Option<usize>)
        ensures
            match r {
                Some(i) => i < self@.len() && same_key(self@[i as int], c@),
                None => forall|j: int| 0 <= j < self@.len() ==> !same_key(#[trigger] self@[j], c@),
            },
    {
        let mut i: usize = 0;
        while i < self.cookies.len()
            invariant
                0 <= i <= self@.len(),
                self@.len() == self.cookies@.len(),
                forall|j: int| 0 <= j < i ==> !same_key(#[trigger] self@[j], c@),
            decreases self@.len() - i,
        {
            let k = &self.cookies[i];
            if bytes_eq(k.domain.as_slice(), c.domain.as_slice()) && bytes_eq(
                k.path.as_slice(),
                c.path.as_slice(),
            ) && bytes_eq(k.name.as_slice(), c.name.as_slice()) {
                return Some(i);
            }
            i = i + 1;
        }
        None
    }

    /// Stores `c`, replacing the cookie with the same domain, path and name.
    /// An `HttpOnly` cookie is only taken from HTTP.
    pub fn push(&mut self, c: Cookie, source: CookieSource)
        requires
            old(self).wf(),
        ensures
            final(self).wf(),
            final(self)@ == pushed(old(self)@, c@, source),
    {
        if c.http_only && source != CookieSource::Http {
            return;
        }
        let ghost l = self@;
        let ghost v = c@;
        match self.find_key(&c) {
            Some(i) => {
                proof {
                    assert(0 <= i < l.len() && same_key(#[trigger] l[i as int], v));
                    let k = choose|k: int| 0 <= k < l.len() && same_key(#[trigger] l[k], v);
                    if k != i {
                        if k < i {
                            assert(!same_key(l[k], l[i as int]));
                        } else {
                            assert(!same_key(l[i as int], l[k]));
                        }
                    }
                    assert(k == i);
                }
                self.cookies.set(i, c);
                assert(self@ =~= l.update(i as int, v));
            },
            None => {
                self.cookies.push(c);
                assert(self@ =~= l.push(v));
            },
        }
    }

    /// The `Cookie` header for a request for `url` from `source`: the
    /// `name=value` pairs of the cookies that apply, in the jar's order,
    /// joined by `; `; `None` where none applies.
    pub fn cookies_for_url(&self, url: &Url, source: CookieSource) -> (r: Option<Vec<u8>>)
        ensures
            opt_bytes(r) == cookie_header(self@, url@, source),
    {
        let host = url.host();
        let rp = request_path_of(url);
        let secure_url = url.is_secure();
        let mut out: Vec<u8> = Vec::new();
        let mut i: usize = 0;
        while i < self.cookies.len()
            invariant
                0 <= i <= self@.len(),
                self@.len() == self.cookies@.len(),
                host@ == host_of(url@),
                rp@ == request_path(url@),
                secure_url == (scheme_of(url@) == https_scheme()),
                out@ == header_upto(self@, i as int, url@, source),
            decreases self@.len() - i,
        {
            let c = &self.cookies[i];
            assert(c@ == self@[i as int]);
            if c.applies(host.as_slice(), rp.as_slice(), secure_url, source) {
                if out.len() > 0 {
                    out.push(59u8);
                    out.push(32u8);
                }
                let ghost before = out@;
                append_bytes(&mut out, c.name.as_slice());
                out.push(61u8);
                append_bytes(&mut out, c.value.as_slice());
                assert(out@ =~= before + pair(c@));
            }
            i = i + 1;
        }
        if out.len() == 0 {
            None
        } else {
            Some(out)
        }
    }
}

} // verus!
