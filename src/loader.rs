//! The loader: one logical load of a URL, hop by hop. Each hop upgrades the
//! URL through the HSTS list, checks its scheme, assembles the request
//! headers, hands the request to the transport, records what the response
//! says into the HSTS list and the cookie jar, and then either follows a
//! redirect or decodes the body.

use vstd::prelude::*;
use crate::headers::{
    Headers, header_value, has_header, with_default, eq_ignore_case, bytes_eq_ignore_case,
    lemma_with_default, opt_bytes,
};
use crate::url::{
    Url, opt_url, joined_url, scheme_of, host_of, upgraded, scheme_supported, http_scheme, target_of,
    https_scheme,
};
use crate::hsts::{HstsList, host_secure, parse_sts, upsert, covers};
use crate::cookies::{
    CookieStorage, CookieSource, CookieView, Cookie, cookie_header, cookie_from_header, pushed,
    parsed_cookie, header_upto, cookie_applies, pair, request_path, lemma_request_path_rooted,
    lemma_default_path_matches,
};
use crate::decoder::{decoded, coding_of, decode_body};

verus! {

/// The most redirects that one load follows.
pub const MAX_REDIRECTS: usize = 20;

/// The request methods.
#[derive(Clone, Copy, Debug, PartialEq, Eq, Structural)]
pub enum Method {
    Get,
    Head,
    Post,
    Put,
    Delete,
    Options,
    Trace,
    Connect,
    Patch,
}

/// Why a load failed.
#[derive(Clone, Debug, PartialEq, Eq)]
pub enum LoadError {
    /// The scheme is neither `http` nor `https` (nor `view-source:` over one).
    UnsupportedScheme(Url),
    /// The transport failed (the message is its own), or the final body did
    /// not decode.
    Connection(Url, String),
    /// A `Location` did not resolve, or led back to a URL of the chain.
    InvalidRedirect(Url, String),
    /// The chain of redirects grew past `MAX_REDIRECTS`.
    MaxRedirects(Url),
}

pub ghost enum LoadErrorView {
    UnsupportedScheme(Seq<u8>),
    Connection(Seq<u8>, Seq<char>),
    InvalidRedirect(Seq<u8>, Seq<char>),
    MaxRedirects(Seq<u8>),
}

impl View for LoadError {
    type V = LoadErrorView;

    open spec fn view(&self) -> LoadErrorView {
        match self {
            LoadError::UnsupportedScheme(u) => LoadErrorView::UnsupportedScheme(u@),
            LoadError::Connection(u, m) => LoadErrorView::Connection(u@, m@),
            LoadError::InvalidRedirect(u, m) => LoadErrorView::InvalidRedirect(u@, m@),
            LoadError::MaxRedirects(u) => LoadErrorView::MaxRedirects(u@),
        }
    }
}

/// What the caller asks for.
#[derive(Debug, PartialEq, Eq)]
pub struct LoadData {
    pub url: Url,
    pub method: Method,
    /// Headers that the caller sets; they win over every default.
    pub headers: Headers,
    pub data: Option<Vec<u8>>,
    /// The page that asked for the load, carried from hop to hop.
    pub referrer: Option<Url>,
}

impl LoadData {
    /// A `GET` of `url` with no headers and no body.
    pub fn new(url: Url) -> (r: LoadData)
        ensures
            r.url@ == url@,
            r.method == Method::Get,
            r.headers@ == Seq::<(Seq<u8>, Seq<u8>)>::empty(),
            r.data is None,
            r.referrer is None,
    {
        LoadData { url, method: Method::Get, headers: Headers::new(), data: None, referrer: None }
    }
}

/// What is handed to the transport for one hop.
#[derive(Debug, PartialEq, Eq)]
pub struct HttpRequest {
    pub url: Url,
    pub method: Method,
    pub headers: Headers,
    pub body: Option<Vec<u8>>,
}

/// What the transport hands back for one hop.
#[derive(Debug, PartialEq, Eq)]
pub struct HttpResponse {
    pub status: u16,
    pub status_text: Vec<u8>,
    pub headers: Headers,
    pub body: Vec<u8>,
}

/// The transport: builds and sends the request of one hop. Real network
/// clients and test doubles implement it.
pub trait HttpRequestFactory {
    fn send(&mut self, request: &HttpRequest) -> Result<HttpResponse, LoadError>;
}

/// Mirrors of each hop's request and response, for a debugging client.
#[derive(Debug, PartialEq, Eq)]
pub enum NetworkEvent {
    HttpRequest { url: Url, method: Method, headers: Headers, body: Option<Vec<u8>> },
    HttpResponse { headers: Headers, status: u16, status_text: Vec<u8> },
}

/// `User-Agent`.
pub open spec fn user_agent_name() -> Seq<u8> {
    seq![85u8, 115, 101, 114, 45, 65, 103, 101, 110, 116]
}

fn user_agent_name_bytes() -> (r: Vec<u8>)
    ensures
        r@ == user_agent_name(),
{
    let r: Vec<u8> = vec![85u8, 115, 101, 114, 45, 65, 103, 101, 110, 116];
    assert(r@ =~= user_agent_name());
    r
}

/// `Accept`.
pub open spec fn accept_name() -> Seq<u8> {
    seq![65u8, 99, 99, 101, 112, 116]
}

fn accept_name_bytes() -> (r: Vec<u8>)
    ensures
        r@ == accept_name(),
{
    let r: Vec<u8> = vec![65u8, 99, 99, 101, 112, 116];
    assert(r@ =~= accept_name());
    r
}

/// `Accept-Encoding`.
pub open spec fn accept_encoding_name() -> Seq<u8> {
    seq![65u8, 99, 99, 101, 112, 116, 45, 69, 110, 99, 111, 100, 105, 110, 103]
}

fn accept_encoding_name_bytes() -> (r: Vec<u8>)
    ensures
        r@ == accept_encoding_name(),
{
    let r: Vec<u8> = vec![65u8, 99, 99, 101, 112, 116, 45, 69, 110, 99, 111, 100, 105, 110, 103];
    assert(r@ =~= accept_encoding_name());
    r
}

/// `Content-Length`.
pub open spec fn content_length_name() -> Seq<u8> {
    seq![67u8, 111, 110, 116, 101, 110, 116, 45, 76, 101, 110, 103, 116, 104]
}

fn content_length_name_bytes() -> (r: Vec<u8>)
    ensures
        r@ == content_length_name(),
{
    let r: Vec<u8> = vec![67u8, 111, 110, 116, 101, 110, 116, 45, 76, 101, 110, 103, 116, 104];
    assert(r@ =~= content_length_name());
    r
}

/// `Cookie`.
pub open spec fn cookie_name() -> Seq<u8> {
    seq![67u8, 111, 111, 107, 105, 101]
}

fn cookie_name_bytes() -> (r: Vec<u8>)
    ensures
        r@ == cookie_name(),
{
    let r: Vec<u8> = vec![67u8, 111, 111, 107, 105, 101];
    assert(r@ =~= cookie_name());
    r
}

/// `Set-Cookie`.
pub open spec fn set_cookie_name() -> Seq<u8> {
    seq![83u8, 101, 116, 45, 67, 111, 111, 107, 105, 101]
}

fn set_cookie_name_bytes() -> (r: Vec<u8>)
    ensures
        r@ == set_cookie_name(),
{
    let r: Vec<u8> = vec![83u8, 101, 116, 45, 67, 111, 111, 107, 105, 101];
    assert(r@ =~= set_cookie_name());
    r
}

/// `Strict-Transport-Security`.
pub open spec fn sts_name() -> Seq<u8> {
    seq![83u8, 116, 114, 105, 99, 116, 45, 84, 114, 97, 110, 115, 112, 111, 114, 116, 45, 83, 101, 99, 117, 114, 105, 116, 121]
}

fn sts_name_bytes() -> (r: Vec<u8>)
    ensures
        r@ == sts_name(),
{
    let r: Vec<u8> = vec![83u8, 116, 114, 105, 99, 116, 45, 84, 114, 97, 110, 115, 112, 111, 114, 116, 45, 83, 101, 99, 117, 114, 105, 116, 121];
    assert(r@ =~= sts_name());
    r
}

/// `Location`.
pub open spec fn location_name() -> Seq<u8> {
    seq![76u8, 111, 99, 97, 116, 105, 111, 110]
}

fn location_name_bytes() -> (r: Vec<u8>)
    ensures
        r@ == location_name(),
{
    let r: Vec<u8> = vec![76u8, 111, 99, 97, 116, 105, 111, 110];
    assert(r@ =~= location_name());
    r
}

/// `text/html, application/xhtml+xml, application/xml; q=0.9, */*; q=0.8`.
pub open spec fn default_accept() -> Seq<u8> {
    seq![116u8, 101, 120, 116, 47, 104, 116, 109, 108, 44, 32, 97, 112, 112, 108, 105, 99, 97, 116, 105, 111, 110, 47, 120, 104, 116, 109, 108, 43, 120, 109, 108, 44, 32, 97, 112, 112, 108, 105, 99, 97, 116, 105, 111, 110, 47, 120, 109, 108, 59, 32, 113, 61, 48, 46, 57, 44, 32, 42, 47, 42, 59, 32, 113, 61, 48, 46, 56]
}

fn default_accept_bytes() -> (r: Vec<u8>)
    ensures
        r@ == default_accept(),
{
    let r: Vec<u8> = vec![116u8, 101, 120, 116, 47, 104, 116, 109, 108, 44, 32, 97, 112, 112, 108, 105, 99, 97, 116, 105, 111, 110, 47, 120, 104, 116, 109, 108, 43, 120, 109, 108, 44, 32, 97, 112, 112, 108, 105, 99, 97, 116, 105, 111, 110, 47, 120, 109, 108, 59, 32, 113, 61, 48, 46, 57, 44, 32, 42, 47, 42, 59, 32, 113, 61, 48, 46, 56];
    assert(r@ =~= default_accept());
    r
}

/// `gzip, deflate`.
pub open spec fn default_accept_encoding() -> Seq<u8> {
    seq![103u8, 122, 105, 112, 44, 32, 100, 101, 102, 108, 97, 116, 101]
}

fn default_accept_encoding_bytes() -> (r: Vec<u8>)
    ensures
        r@ == default_accept_encoding(),
{
    let r: Vec<u8> = vec![103u8, 122, 105, 112, 44, 32, 100, 101, 102, 108, 97, 116, 101];
    assert(r@ =~= default_accept_encoding());
    r
}

/// The decimal digits of `n`.
pub open spec fn decimal(n: nat) -> Seq<u8>
    decreases n,
{
    if n < 10 {
        seq![(48 + n) as u8]
    } else {
        decimal(n / 10).push((48 + n % 10) as u8)
    }
}

fn write_decimal(n: usize, out: &mut Vec<u8>)
    ensures
        final(out)@ == old(out)@ + decimal(n as nat),
    decreases n,
{
    if n >= 10 {
        write_decimal(n / 10, out);
    }
    let d: u8 = (n % 10) as u8;
    out.push(48 + d);
    assert(out@ =~= old(out)@ + decimal(n as nat));
}

/// The request headers of a hop: the caller's, then each default whose
/// name the caller has not set: `User-Agent`, `Accept`, `Accept-Encoding`,
/// `Content-Length` (the body's length, or `0` for a method other than
/// `GET` and `HEAD` without a body), and `Cookie` where the jar has one.
pub open spec fn assembled_headers(
    caller: Seq<(Seq<u8>, Seq<u8>)>,
    user_agent: Seq<u8>,
    cookie: Option<Seq<u8>>,
    method: Method,
    body: Option<Seq<u8>>,
) -> Seq<(Seq<u8>, Seq<u8>)> {
    let h1 = with_default(caller, user_agent_name(), user_agent);
    let h2 = with_default(h1, accept_name(), default_accept());
    let h3 = with_default(h2, accept_encoding_name(), default_accept_encoding());
    let h4 = match body {
        Some(b) => with_default(h3, content_length_name(), decimal(b.len())),
        None => if method == Method::Get || method == Method::Head {
            h3
        } else {
            with_default(h3, content_length_name(), seq![48u8])
        },
    };
    match cookie {
        Some(c) => with_default(h4, cookie_name(), c),
        None => h4,
    }
}

/// Assembles the request headers of a hop.
pub fn request_headers(
    caller: &Headers,
    user_agent: &[u8],
    cookie: Option<Vec<u8>>,
    method: Method,
    body: &Option<Vec<u8>>,
) -> (r: Headers)
    ensures
        r@ == assembled_headers(caller@, user_agent@, opt_bytes(cookie), method, opt_bytes(*body)),
{
    let mut h = caller.copy();
    let ua: Vec<u8> = crate::url::copy_range(user_agent, 0, user_agent.len());
    assert(ua@ =~= user_agent@);
    h.set_default(user_agent_name_bytes(), ua);
    h.set_default(accept_name_bytes(), default_accept_bytes());
    h.set_default(accept_encoding_name_bytes(), default_accept_encoding_bytes());
    match body {
        Some(b) => {
            let mut len: Vec<u8> = Vec::new();
            write_decimal(b.len(), &mut len);
            assert(len@ =~= decimal(b@.len()));
            h.set_default(content_length_name_bytes(), len);
        },
        None => {
            if !(method == Method::Get || method == Method::Head) {
                let zero: Vec<u8> = vec![48u8];
                assert(zero@ =~= seq![48u8]);
                h.set_default(content_length_name_bytes(), zero);
            }
        },
    }
    match cookie {
        Some(c) => h.set_default(cookie_name_bytes(), c),
        None => {},
    }
    h
}

/// The URL that a hop for `url` requests: the inner URL of `view-source:`,
/// and an `http` URL whose host the HSTS list holds goes over `https`.
pub open spec fn hop_url(url: Seq<u8>, l: Seq<(Seq<u8>, bool, u64)>) -> Seq<u8> {
    let t = target_of(url);
    if scheme_of(t) == http_scheme() && host_secure(l, host_of(t)) {
        upgraded(t)
    } else {
        t
    }
}

/// The URL that a hop for `url` requests: the inner URL of `view-source:`,
/// upgraded to `https` where the HSTS list asks for it.
pub fn secure_url(url: &Url, hsts: &HstsList) -> (r: Url)
    ensures
        r@ == hop_url(url@, hsts@),
{
    let url = url.target();
    if url.is_plain_http() {
        let host = url.host();
        if hsts.is_host_secure(host.as_slice()) {
            return url.upgrade_to_https();
        }
    }
    url.copy()
}

/// The request of a hop for `data`, or `UnsupportedScheme` naming the URL
/// where it is not served. The body goes out on the first hop only.
pub fn build_request(
    data: &LoadData,
    hsts: &HstsList,
    jar: &CookieStorage,
    user_agent: &[u8],
    first_hop: bool,
) -> (r: Result<HttpRequest, LoadError>)
    ensures
        ({
            let u = hop_url(data.url@, hsts@);
            let body = if first_hop {
                opt_bytes(data.data)
            } else {
                None
            };
            match r {
                Ok(req) => scheme_supported(data.url@) && req.url@ == u && req.method == data.method
                    && opt_bytes(req.body) == body && req.headers@ == assembled_headers(
                    data.headers@,
                    user_agent@,
                    cookie_header(jar@, u, CookieSource::Http),
                    data.method,
                    body,
                ),
                Err(e) => !scheme_supported(data.url@) && e@ == LoadErrorView::UnsupportedScheme(
                    data.url@,
                ),
            }
        }),
{
    if !data.url.is_supported() {
        return Err(LoadError::UnsupportedScheme(data.url.copy()));
    }
    let url = secure_url(&data.url, hsts);
    let body: Option<Vec<u8>> = if first_hop {
        match &data.data {
            Some(b) => {
                let c = b.clone();
                assert(c@ =~= b@);
                Some(c)
            },
            None => None,
        }
    } else {
        None
    };
    let cookie = jar.cookies_for_url(&url, CookieSource::Http);
    let headers = request_headers(&data.headers, user_agent, cookie, data.method, &body);
    Ok(HttpRequest { url, method: data.method, headers, body })
}

/// The HSTS list after a response for `url` with headers `h`: the first
/// `Strict-Transport-Security` field counts, and only over `https`.
pub open spec fn hsts_after(
    l: Seq<(Seq<u8>, bool, u64)>,
    h: Seq<(Seq<u8>, Seq<u8>)>,
    url: Seq<u8>,
) -> Seq<(Seq<u8>, bool, u64)> {
    match header_value(h, sts_name()) {
        Some(v) => match parse_sts(v) {
            Some(d) => if scheme_of(url) == https_scheme() {
                upsert(l, (host_of(url), d.1, d.0))
            } else {
                l
            },
            None => l,
        },
        None => l,
    }
}

/// The jar after the first `n` fields of `h`, a response for `url`: each
/// `Set-Cookie` field that makes a cookie is pushed, from HTTP, in order.
pub open spec fn jar_after_upto(
    jar: Seq<CookieView>,
    h: Seq<(Seq<u8>, Seq<u8>)>,
    n: int,
    url: Seq<u8>,
) -> Seq<CookieView>
    decreases n,
{
    if n <= 0 {
        jar
    } else {
        let prev = jar_after_upto(jar, h, n - 1, url);
        if n - 1 < h.len() && eq_ignore_case(h[n - 1].0, set_cookie_name()) {
            match cookie_from_header(h[n - 1].1, url, CookieSource::Http) {
                Some(c) => pushed(prev, c, CookieSource::Http),
                None => prev,
            }
        } else {
            prev
        }
    }
}

pub open spec fn jar_after(jar: Seq<CookieView>, h: Seq<(Seq<u8>, Seq<u8>)>, url: Seq<u8>) -> Seq<
    CookieView,
> {
    jar_after_upto(jar, h, h.len() as int, url)
}

/// Records what the headers of a response for `url` say into the HSTS
/// list and the cookie jar.
pub fn absorb_response(url: &Url, headers: &Headers, hsts: &mut HstsList, jar: &mut CookieStorage)
    requires
        old(hsts).wf(),
        old(jar).wf(),
    ensures
        final(hsts).wf(),
        final(jar).wf(),
        final(hsts)@ == hsts_after(old(hsts)@, headers@, url@),
        final(jar)@ == jar_after(old(jar)@, headers@, url@),
{
    match headers.get(sts_name_bytes().as_slice()) {
        Some(v) => {
            let host = url.host();
            hsts.record_from_header(host.as_slice(), v.as_slice(), url.is_secure());
        },
        None => {},
    }
    let name = set_cookie_name_bytes();
    let mut i: usize = 0;
    while i < headers.entries.len()
        invariant
            0 <= i <= headers@.len(),
            headers@.len() == headers.entries@.len(),
            name@ == set_cookie_name(),
            jar.wf(),
            jar@ == jar_after_upto(old(jar)@, headers@, i as int, url@),
        decreases headers@.len() - i,
    {
        let field = &headers.entries[i];
        assert(field.view() == headers@[i as int]);
        if bytes_eq_ignore_case(field.name.as_slice(), name.as_slice()) {
            match Cookie::from_set_cookie(field.value.as_slice(), url, CookieSource::Http) {
                Some(c) => jar.push(c, CookieSource::Http),
                None => {},
            }
        }
        i = i + 1;
    }
}

pub open spec fn is_redirect_status(status: u16) -> bool {
    status == 301 || status == 302 || status == 303 || status == 307 || status == 308
}

pub open spec fn redirect_loop_msg() -> Seq<char> {
    "redirect loop"@
}

pub open spec fn invalid_location_msg() -> Seq<char> {
    "invalid location"@
}

/// Where a response leads: `Ok(None)` to stop here, `Ok(Some(next))` to
/// follow a redirect, or the error that ends the load. `visited` holds the
/// URLs requested so far, `redirects` the redirects followed.
pub open spec fn redirect_outcome(
    status: u16,
    h: Seq<(Seq<u8>, Seq<u8>)>,
    url: Seq<u8>,
    visited: Seq<Seq<u8>>,
    redirects: nat,
) -> Result<Option<Seq<u8>>, LoadErrorView> {
    if !is_redirect_status(status) {
        Ok(None)
    } else {
        match header_value(h, location_name()) {
            None => Ok(None),
            Some(loc) => match joined_url(url, loc) {
                None => Err(LoadErrorView::InvalidRedirect(url, invalid_location_msg())),
                Some(next) => if visited.contains(next) {
                    Err(LoadErrorView::InvalidRedirect(url, redirect_loop_msg()))
                } else if redirects + 1 > MAX_REDIRECTS {
                    Err(LoadErrorView::MaxRedirects(url))
                } else {
                    Ok(Some(next))
                },
            },
        }
    }
}

pub open spec fn urls_view(v: Seq<Url>) -> Seq<Seq<u8>> {
    v.map_values(|u: Url| u@)
}

pub open spec fn outcome_view(r: Result<Option<Url>, LoadError>) -> Result<Option<Seq<u8>>, LoadErrorView> {
    match r {
        Ok(o) => Ok(opt_url(o)),
        Err(e) => Err(e@),
    }
}

fn visited_contains(visited: &Vec<Url>, u: &Url) -> (r: bool)
    ensures
        r == urls_view(visited@).contains(u@),
{
    let mut i: usize = 0;
    while i < visited.len()
        invariant
            0 <= i <= visited@.len(),
            forall|j: int| 0 <= j < i ==> (#[trigger] visited@[j])@ != u@,
        decreases visited@.len() - i,
    {
        if visited[i].same_as(u) {
            assert(urls_view(visited@)[i as int] == u@);
            return true;
        }
        i = i + 1;
    }
    assert(!urls_view(visited@).contains(u@)) by {
        if urls_view(visited@).contains(u@) {
            let k = choose|k: int| 0 <= k < urls_view(visited@).len() && urls_view(visited@)[k] == u@;
            assert(visited@[k]@ == u@);
        }
    }
    false
}

/// Decides where a response with `status` and `headers`, received for
/// `url`, leads.
pub fn redirect_decision(
    status: u16,
    headers: &Headers,
    url: &Url,
    visited: &Vec<Url>,
    redirects: usize,
) -> (r: Result<Option<Url>, LoadError>)
    ensures
        outcome_view(r) == redirect_outcome(status, headers@, url@, urls_view(visited@), redirects as nat),
{
    if !(status == 301 || status == 302 || status == 303 || status == 307 || status == 308) {
        return Ok(None);
    }
    let loc = match headers.get(location_name_bytes().as_slice()) {
        Some(l) => l,
        None => return Ok(None),
    };
    let next = match url.join(loc.as_slice()) {
        Some(n) => n,
        None => {
            let msg = "invalid location".to_owned();
            return Err(LoadError::InvalidRedirect(url.copy(), msg));
        },
    };
    if visited_contains(visited, &next) {
        let msg = "redirect loop".to_owned();
        return Err(LoadError::InvalidRedirect(url.copy(), msg));
    }
    if redirects >= MAX_REDIRECTS {
        return Err(LoadError::MaxRedirects(url.copy()));
    }
    Ok(Some(next))
}

/// The method of the hop after a redirect with `status`: `GET` after a 303,
/// and after a 301 or 302 of a `POST`; unchanged otherwise.
pub open spec fn next_method(status: u16, m: Method) -> Method {
    if status == 303 || ((status == 301 || status == 302) && m == Method::Post) {
        Method::Get
    } else {
        m
    }
}

/// The body of the hop after a redirect: dropped where the method turns
/// into `GET`.
pub open spec fn next_data(status: u16, m: Method, data: Option<Seq<u8>>) -> Option<Seq<u8>> {
    if status == 303 || ((status == 301 || status == 302) && m == Method::Post) {
        None
    } else {
        data
    }
}

/// The request description of the hop after a redirect with `status` to
/// `next`.
pub fn follow_redirect(data: LoadData, status: u16, next: Url) -> (r: LoadData)
    ensures
        r.url@ == next@,
        r.method == next_method(status, data.method),
        opt_bytes(r.data) == next_data(status, data.method, opt_bytes(data.data)),
        r.headers@ == data.headers@,
        r.referrer == data.referrer,
{
    let rewrite = status == 303 || ((status == 301 || status == 302) && data.method == Method::Post);
    if rewrite {
        LoadData {
            url: next,
            method: Method::Get,
            headers: data.headers,
            data: None,
            referrer: data.referrer,
        }
    } else {
        LoadData {
            url: next,
            method: data.method,
            headers: data.headers,
            data: data.data,
            referrer: data.referrer,
        }
    }
}

/// The body of the final response for `url`, with its content coding
/// undone. The transport hands over the whole body, so it is decoded at
/// once rather than as it is read; a body that does not decode is reported
/// as a `Connection` error, the failure a reader of a lazily decoded stream
/// would meet.
pub fn finish(url: &Url, response: HttpResponse) -> (r: Result<Vec<u8>, LoadError>)
    ensures
        match decoded(coding_of(response.headers@), response.body@) {
            Some(b) => r is Ok && r->Ok_0@ == b,
            None => r is Err && r->Err_0@ is Connection && r->Err_0@->Connection_0 == url@,
        },
{
    match decode_body(&response.headers, response.body) {
        Some(b) => Ok(b),
        None => Err(LoadError::Connection(url.copy(), "undecodable content".to_owned())),
    }
}

/// The mirror of a request for a debugging client: the URL, method and
/// body of the request, and the headers that the caller set.
pub fn request_event(data: &LoadData, request: &HttpRequest) -> (r: NetworkEvent)
    ensures
        match r {
            NetworkEvent::HttpRequest { url, method, headers, body } => url@ == request.url@
                && method == request.method && headers@ == data.headers@ && opt_bytes(body)
                == opt_bytes(request.body),
            _ => false,
        },
{
    let body = match &request.body {
        Some(b) => {
            let c = b.clone();
            assert(c@ =~= b@);
            Some(c)
        },
        None => None,
    };
    NetworkEvent::HttpRequest {
        url: request.url.copy(),
        method: request.method,
        headers: data.headers.copy(),
        body,
    }
}

/// The mirror of a response for a debugging client.
pub fn response_event(response: &HttpResponse) -> (r: NetworkEvent)
    ensures
        match r {
            NetworkEvent::HttpResponse { headers, status, status_text } => headers@
                == response.headers@ && status == response.status && status_text@
                == response.status_text@,
            _ => false,
        },
{
    let text = response.status_text.clone();
    assert(text@ =~= response.status_text@);
    NetworkEvent::HttpResponse { headers: response.headers.copy(), status: response.status, status_text: text }
}

/// One load in progress: the request description of the next hop, the
/// URLs requested so far, and the redirects followed.
pub struct LoadSession {
    pub data: LoadData,
    pub visited: Vec<Url>,
    pub redirects: usize,
}

impl LoadSession {
    /// A load that has not sent anything yet.
    pub fn new(load_data: LoadData) -> (r: LoadSession)
        ensures
            r.data == load_data,
            r.visited@.len() == 0,
            r.redirects == 0,
    {
        LoadSession { data: load_data, visited: Vec::new(), redirects: 0 }
    }

    /// The request of the next hop (see `build_request`); the body goes
    /// out only before any redirect.
    pub fn request(&self, hsts: &HstsList, jar: &CookieStorage, user_agent: &[u8]) -> (r: Result<
        HttpRequest,
        LoadError,
    >)
        ensures
            ({
                let u = hop_url(self.data.url@, hsts@);
                let body = if self.redirects == 0 {
                    opt_bytes(self.data.data)
                } else {
                    None
                };
                match r {
                    Ok(req) => scheme_supported(self.data.url@) && req.url@ == u && req.method
                        == self.data.method
                        && opt_bytes(req.body) == body && req.headers@ == assembled_headers(
                        self.data.headers@,
                        user_agent@,
                        cookie_header(jar@, u, CookieSource::Http),
                        self.data.method,
                        body,
                    ),
                    Err(e) => !scheme_supported(self.data.url@) && e@
                        == LoadErrorView::UnsupportedScheme(self.data.url@),
                }
            }),
    {
        build_request(&self.data, hsts, jar, user_agent, self.redirects == 0)
    }

    /// Takes the response to the request for `url`: records its headers
    /// into the HSTS list and the jar, then either ends the load (`Some`,
    /// with the decoded body or the error) or moves on to the redirect
    /// target (`None`).
    pub fn response(
        &mut self,
        url: &Url,
        response: HttpResponse,
        hsts: &mut HstsList,
        jar: &mut CookieStorage,
    ) -> (r: Option<Result<Vec<u8>, LoadError>>)
        requires
            old(hsts).wf(),
            old(jar).wf(),
        ensures
            final(hsts).wf(),
            final(jar).wf(),
            final(hsts)@ == hsts_after(old(hsts)@, response.headers@, url@),
            final(jar)@ == jar_after(old(jar)@, response.headers@, url@),
            urls_view(final(self).visited@) == urls_view(old(self).visited@).push(url@),
            match redirect_outcome(
                response.status,
                response.headers@,
                url@,
                urls_view(old(self).visited@).push(url@),
                old(self).redirects as nat,
            ) {
                Ok(None) => r is Some && match decoded(coding_of(response.headers@), response.body@) {
                    Some(b) => r->Some_0 is Ok && r->Some_0->Ok_0@ == b,
                    None => r->Some_0 is Err && r->Some_0->Err_0@ is Connection
                        && r->Some_0->Err_0@->Connection_0 == url@,
                },
                Err(e) => r is Some && r->Some_0 is Err && r->Some_0->Err_0@ == e,
                Ok(Some(next)) => {
                    &&& r is None
                    &&& final(self).redirects == old(self).redirects + 1
                    &&& final(self).redirects <= MAX_REDIRECTS
                    &&& final(self).data.url@ == next
                    &&& final(self).data.method == next_method(response.status, old(self).data.method)
                    &&& opt_bytes(final(self).data.data) == next_data(
                        response.status,
                        old(self).data.method,
                        opt_bytes(old(self).data.data),
                    )
                    &&& final(self).data.headers@ == old(self).data.headers@
                },
            },
    {
        absorb_response(url, &response.headers, hsts, jar);
        let ghost before = self.visited@;
        self.visited.push(url.copy());
        assert(urls_view(self.visited@) =~= urls_view(before).push(url@));
        match redirect_decision(response.status, &response.headers, url, &self.visited, self.redirects) {
            Err(e) => Some(Err(e)),
            Ok(None) => Some(finish(url, response)),
            Ok(Some(next)) => {
                let mut data = LoadData::new(Url { serialization: Vec::new() });
                std::mem::swap(&mut self.data, &mut data);
                self.data = follow_redirect(data, response.status, next);
                self.redirects = self.redirects + 1;
                None
            },
        }
    }
}

/// `ev` mirrors the request of the first hop of a load of `data` begun
/// with the HSTS list `l`.
pub open spec fn mirrors_first_hop(ev: NetworkEvent, data: LoadData, l: Seq<(Seq<u8>, bool, u64)>) -> bool {
    match ev {
        NetworkEvent::HttpRequest { url, method, headers, body } => url@ == hop_url(data.url@, l)
            && method == data.method && headers@ == data.headers@ && opt_bytes(body) == opt_bytes(
            data.data,
        ),
        _ => false,
    }
}

/// The number of events in a devtools log (none without a sink).
pub open spec fn log_len(d: Option<Vec<NetworkEvent>>) -> int {
    match d {
        Some(v) => v@.len() as int,
        None => 0,
    }
}

fn notify(devtools: &mut Option<Vec<NetworkEvent>>, event: NetworkEvent)
    ensures
        match *old(devtools) {
            Some(v) => (*final(devtools)) is Some && (*final(devtools))->Some_0@ == v@.push(event),
            None => (*final(devtools)) is None,
        },
{
    match devtools {
        Some(v) => v.push(event),
        None => {},
    }
}

/// Whatever header the caller sets goes out exactly as the caller set it:
/// no default overrides it.
pub proof fn lemma_caller_headers_win(
    caller: Seq<(Seq<u8>, Seq<u8>)>,
    user_agent: Seq<u8>,
    cookie: Option<Seq<u8>>,
    method: Method,
    body: Option<Seq<u8>>,
    name: Seq<u8>,
)
    requires
        has_header(caller, name),
    ensures
        header_value(assembled_headers(caller, user_agent, cookie, method, body), name)
            == header_value(caller, name),
{
    let h1 = with_default(caller, user_agent_name(), user_agent);
    let h2 = with_default(h1, accept_name(), default_accept());
    let h3 = with_default(h2, accept_encoding_name(), default_accept_encoding());
    lemma_with_default(caller, user_agent_name(), user_agent, name);
    lemma_with_default(h1, accept_name(), default_accept(), name);
    lemma_with_default(h2, accept_encoding_name(), default_accept_encoding(), name);
    let h4 = match body {
        Some(b) => with_default(h3, content_length_name(), decimal(b.len())),
        None => if method == Method::Get || method == Method::Head {
            h3
        } else {
            with_default(h3, content_length_name(), seq![48u8])
        },
    };
    match body {
        Some(b) => lemma_with_default(h3, content_length_name(), decimal(b.len()), name),
        None => lemma_with_default(h3, content_length_name(), seq![48u8], name),
    }
    match cookie {
        Some(c) => lemma_with_default(h4, cookie_name(), c, name),
        None => {},
    }
}

/// A request with a method other than `GET` and `HEAD` and no body carries
/// `Content-Length: 0`, unless the caller set that header.
pub proof fn lemma_content_length_zero_without_body(
    caller: Seq<(Seq<u8>, Seq<u8>)>,
    user_agent: Seq<u8>,
    cookie: Option<Seq<u8>>,
    method: Method,
)
    requires
        method != Method::Get,
        method != Method::Head,
        !has_header(caller, content_length_name()),
    ensures
        header_value(assembled_headers(caller, user_agent, cookie, method, None), content_length_name())
            == Some(seq![48u8]),
{
    let n = content_length_name();
    let h1 = with_default(caller, user_agent_name(), user_agent);
    let h2 = with_default(h1, accept_name(), default_accept());
    let h3 = with_default(h2, accept_encoding_name(), default_accept_encoding());
    let h4 = with_default(h3, n, seq![48u8]);
    lemma_with_default(caller, user_agent_name(), user_agent, n);
    lemma_with_default(h1, accept_name(), default_accept(), n);
    lemma_with_default(h2, accept_encoding_name(), default_accept_encoding(), n);
    assert(eq_ignore_case(n, n));
    lemma_with_default(h3, n, seq![48u8], n);
    match cookie {
        Some(c) => lemma_with_default(h4, cookie_name(), c, n),
        None => {},
    }
}

/// A chain that comes back to where it started fails as a redirect loop:
/// after `a` redirected to `b`, a redirect from `b` back to `a` is refused.
pub proof fn lemma_redirect_back_is_loop(
    s1: u16,
    h1: Seq<(Seq<u8>, Seq<u8>)>,
    s2: u16,
    h2: Seq<(Seq<u8>, Seq<u8>)>,
    a: Seq<u8>,
    b: Seq<u8>,
    redirects: nat,
)
    requires
        redirect_outcome(s1, h1, a, seq![a], redirects) == Ok::<Option<Seq<u8>>, LoadErrorView>(Some(b)),
        is_redirect_status(s2),
        header_value(h2, location_name()) is Some,
        joined_url(b, header_value(h2, location_name())->Some_0) == Some(a),
    ensures
        redirect_outcome(s2, h2, b, seq![a, b], redirects + 1) == Err::<Option<Seq<u8>>, LoadErrorView>(
            LoadErrorView::InvalidRedirect(b, redirect_loop_msg()),
        ),
{
    assert(seq![a, b][0] == a);
}

/// Once `MAX_REDIRECTS` redirects have been followed, one more fails with
/// `MaxRedirects` naming the URL that answered with it.
pub proof fn lemma_redirect_limit(
    status: u16,
    h: Seq<(Seq<u8>, Seq<u8>)>,
    url: Seq<u8>,
    visited: Seq<Seq<u8>>,
    next: Seq<u8>,
)
    requires
        is_redirect_status(status),
        header_value(h, location_name()) is Some,
        joined_url(url, header_value(h, location_name())->Some_0) == Some(next),
        !visited.contains(next),
    ensures
        redirect_outcome(status, h, url, visited, MAX_REDIRECTS as nat) == Err::<Option<Seq<u8>>, LoadErrorView>(
            LoadErrorView::MaxRedirects(url),
        ),
{
}

/// A `POST` answered by 301, 302 or 303 goes on as a `GET` without a body;
/// 307 and 308 keep the method, and the body stays in the request
/// description, though no hop after the first sends it (see
/// `build_request`).
pub proof fn lemma_post_redirect_becomes_get(status: u16, data: Option<Seq<u8>>)
    ensures
        (status == 301 || status == 302 || status == 303) ==> next_method(status, Method::Post)
            == Method::Get && next_data(status, Method::Post, data) is None,
        (status == 307 || status == 308) ==> next_method(status, Method::Post) == Method::Post
            && next_data(status, Method::Post, data) == data,
{
}

/// A usable `Strict-Transport-Security` header on an `https` response puts
/// the host on the HSTS list; on any other response it changes nothing.
pub proof fn lemma_sts_header_registers_secure_hosts(
    l: Seq<(Seq<u8>, bool, u64)>,
    h: Seq<(Seq<u8>, Seq<u8>)>,
    url: Seq<u8>,
)
    requires
        header_value(h, sts_name()) is Some,
        parse_sts(header_value(h, sts_name())->Some_0) is Some,
    ensures
        scheme_of(url) == https_scheme() ==> host_secure(hsts_after(l, h, url), host_of(url)),
        scheme_of(url) != https_scheme() ==> hsts_after(l, h, url) == l,
{
    if scheme_of(url) == https_scheme() {
        let d = parse_sts(header_value(h, sts_name())->Some_0)->Some_0;
        let e = (host_of(url), d.1, d.0);
        let r = upsert(l, e);
        if exists|i: int| 0 <= i < l.len() && (#[trigger] l[i]).0 == e.0 {
            let k = choose|i: int| 0 <= i < l.len() && (#[trigger] l[i]).0 == e.0;
            assert(r[k] == e);
            assert(covers(r[k], host_of(url)));
        } else {
            assert(r[l.len() as int] == e);
            assert(covers(r[l.len() as int], host_of(url)));
        }
    }
}

/// An empty jar has no `Cookie` header for any URL. After a response for
/// `url` whose only header is a `Set-Cookie` without a `Path` attribute,
/// the jar hands that cookie's `name=value` back for `url`, unless the
/// cookie is `Secure` and `url` is not `https`.
pub proof fn lemma_set_cookie_is_sent_back(h: Seq<(Seq<u8>, Seq<u8>)>, url: Seq<u8>, c: CookieView)
    requires
        h.len() == 1,
        eq_ignore_case(h[0].0, set_cookie_name()),
        cookie_from_header(h[0].1, url, CookieSource::Http) == Some(c),
        parsed_cookie(h[0].1)->Some_0.3 is None,
        !c.secure || scheme_of(url) == https_scheme(),
    ensures
        cookie_header(Seq::<CookieView>::empty(), url, CookieSource::Http) is None,
        cookie_header(jar_after(Seq::<CookieView>::empty(), h, url), url, CookieSource::Http)
            == Some(pair(c)),
{
    let empty = Seq::<CookieView>::empty();
    assert(header_upto(empty, 0, url, CookieSource::Http).len() == 0);
    assert(jar_after_upto(empty, h, 0, url) == empty);
    let jar = jar_after(empty, h, url);
    assert(jar == pushed(empty, c, CookieSource::Http));
    assert(jar == empty.push(c));
    lemma_request_path_rooted(url);
    lemma_default_path_matches(request_path(url));
    assert(cookie_applies(c, url, CookieSource::Http));
    assert(jar[0] == c);
    assert(header_upto(jar, 0, url, CookieSource::Http).len() == 0);
    assert(pair(c).len() > 0);
}

/// Loads `load_data`: follows redirects, keeps the HSTS list and the
/// cookie jar up to date from every response, mirrors each hop to
/// `devtools` where a sink is given, and returns the final body, decoded.
/// A URL that is not served fails before the transport is touched. With a
/// sink, the first event added mirrors the first hop's request, and each hop
/// adds at most two events, so at most `MAX_REDIRECTS + 1` hops are made.
pub fn load<F: HttpRequestFactory>(
    load_data: LoadData,
    hsts: &mut HstsList,
    cookie_jar: &mut CookieStorage,
    devtools: &mut Option<Vec<NetworkEvent>>,
    factory: &mut F,
    user_agent: &[u8],
) -> (r: Result<Vec<u8>, LoadError>)
    requires
        old(hsts).wf(),
        old(cookie_jar).wf(),
    ensures
        final(hsts).wf(),
        final(cookie_jar).wf(),
        (*old(devtools)) is None ==> (*final(devtools)) is None,
        (*old(devtools)) is Some ==> (*final(devtools)) is Some && log_len(*final(devtools))
            <= log_len(*old(devtools)) + 2 * (MAX_REDIRECTS + 1),
        (*old(devtools)) is Some && scheme_supported(load_data.url@) ==> log_len(*final(devtools))
            > log_len(*old(devtools)) && mirrors_first_hop(
            (*final(devtools))->Some_0@[log_len(*old(devtools))],
            load_data,
            old(hsts)@,
        ),
        !scheme_supported(load_data.url@) ==> r is Err && r->Err_0@ == LoadErrorView::UnsupportedScheme(load_data.url@),
        !scheme_supported(load_data.url@) ==> *final(factory) == *old(factory),
        !scheme_supported(load_data.url@) ==> *final(devtools) == *old(devtools),
        !scheme_supported(load_data.url@) ==> final(hsts)@ == old(hsts)@,
        !scheme_supported(load_data.url@) ==> final(cookie_jar)@ == old(cookie_jar)@,
{
    let ghost url0 = load_data.url@;
    let ghost d0 = *devtools;
    let ghost l0 = hsts@;
    let mut session = LoadSession::new(load_data);
    loop
        invariant
            hsts.wf(),
            cookie_jar.wf(),
            session.redirects <= MAX_REDIRECTS,
            url0 == load_data.url@,
            !scheme_supported(url0) ==> session.redirects == 0,
            (*old(devtools)) is None ==> (*devtools) is None,
            d0 == *old(devtools),
            l0 == old(hsts)@,
            d0 is Some ==> (*devtools) is Some && log_len(*devtools) <= log_len(d0) + 2
                * session.redirects,
            d0 is Some && session.redirects > 0 ==> log_len(*devtools) > log_len(d0)
                && mirrors_first_hop((*devtools)->Some_0@[log_len(d0)], load_data, l0),
            session.redirects == 0 ==> {
                &&& session.data == load_data
                &&& *factory == *old(factory)
                &&& *devtools == *old(devtools)
                &&& hsts@ == old(hsts)@
                &&& cookie_jar@ == old(cookie_jar)@
            },
        decreases MAX_REDIRECTS - session.redirects,
    {
        let request = match session.request(hsts, cookie_jar, user_agent) {
            Ok(req) => req,
            Err(e) => return Err(e),
        };
        notify(devtools, request_event(&session.data, &request));
        assert(d0 is Some && session.redirects == 0 && scheme_supported(url0) ==> mirrors_first_hop(
            (*devtools)->Some_0@[log_len(d0)],
            load_data,
            l0,
        ));
        let response = match factory.send(&request) {
            Ok(resp) => resp,
            Err(e) => return Err(e),
        };
        notify(devtools, response_event(&response));
        match session.response(&request.url, response, hsts, cookie_jar) {
            Some(r) => {
                return r;
            },
            None => {},
        }
    }
}

} // verus!
