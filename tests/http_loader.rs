use flate2::write::{DeflateEncoder, GzEncoder};
use flate2::Compression;
use http_loader::cookies::{Cookie, CookieSource, CookieStorage};
use http_loader::headers::Headers;
use http_loader::hsts::HstsList;
use http_loader::loader::{
    load, HttpRequest, HttpRequestFactory, HttpResponse, LoadData, LoadError, Method,
    NetworkEvent,
};
use http_loader::url::Url;
use std::io::Write;

const DEFAULT_USER_AGENT: &str = "Test-agent";

fn url(s: &str) -> Url {
    Url::parse(s.as_bytes()).unwrap()
}

fn domain(u: &Url) -> String {
    String::from_utf8(u.host()).unwrap()
}

fn headers_with(name: &str, value: &str) -> Headers {
    let mut h = Headers::new();
    h.append(name.as_bytes().to_vec(), value.as_bytes().to_vec());
    h
}

fn respond_with(body: Vec<u8>) -> HttpResponse {
    respond_with_headers(body, Headers::new())
}

fn respond_with_headers(body: Vec<u8>, mut headers: Headers) -> HttpResponse {
    headers.set(b"Content-Length".to_vec(), body.len().to_string().into_bytes());
    HttpResponse { status: 200, status_text: b"Ok".to_vec(), headers, body }
}

fn redirect_to(location: String) -> HttpResponse {
    HttpResponse {
        status: 301,
        status_text: b"Moved Permanently".to_vec(),
        headers: headers_with("Location", &location),
        body: Vec::new(),
    }
}

enum ResponseType {
    Redirect(String),
    Text(Vec<u8>),
    WithHeaders(Vec<u8>, Headers),
}

fn response_for_request_type(t: ResponseType) -> Result<HttpResponse, LoadError> {
    match t {
        ResponseType::Redirect(location) => Ok(redirect_to(location)),
        ResponseType::Text(b) => Ok(respond_with(b)),
        ResponseType::WithHeaders(b, h) => Ok(respond_with_headers(b, h)),
    }
}

struct AssertMustHaveHeadersRequestFactory {
    expected_headers: Headers,
    body: Vec<u8>,
}

impl HttpRequestFactory for AssertMustHaveHeadersRequestFactory {
    fn send(&mut self, request: &HttpRequest) -> Result<HttpResponse, LoadError> {
        for header in self.expected_headers.entries.iter() {
            assert_eq!(request.headers.get(&header.name), Some(header.value.clone()));
        }
        response_for_request_type(ResponseType::Text(self.body.clone()))
    }
}

fn fresh_state() -> (HstsList, CookieStorage) {
    (HstsList::new(), CookieStorage::new())
}

fn run<F: HttpRequestFactory>(
    load_data: LoadData,
    hsts: &mut HstsList,
    jar: &mut CookieStorage,
    factory: &mut F,
) -> Result<Vec<u8>, LoadError> {
    let mut devtools: Option<Vec<NetworkEvent>> = None;
    load(load_data, hsts, jar, &mut devtools, factory, DEFAULT_USER_AGENT.as_bytes())
}

fn assert_cookie_for_domain(jar: &CookieStorage, domain: &str, cookie: &str) {
    let u = url(domain);
    match jar.cookies_for_url(&u, CookieSource::Http) {
        Some(list) => assert_eq!(cookie.to_string(), String::from_utf8(list).unwrap()),
        None => assert_eq!(cookie.len(), 0),
    }
}

#[test]
fn test_load_when_request_is_not_get_or_head_and_there_is_no_body_content_length_should_be_set_to_0() {
    let mut load_data = LoadData::new(url("http://mozilla.com"));
    load_data.data = None;
    load_data.method = Method::Post;
    let (mut hsts, mut jar) = fresh_state();
    let mut factory = AssertMustHaveHeadersRequestFactory {
        expected_headers: headers_with("Content-Length", "0"),
        body: Vec::new(),
    };
    let _ = run(load_data, &mut hsts, &mut jar, &mut factory);
}

#[test]
fn test_request_and_response_data_with_network_messages() {
    struct Factory;

    impl HttpRequestFactory for Factory {
        fn send(&mut self, _: &HttpRequest) -> Result<HttpResponse, LoadError> {
            let headers = headers_with("Host", "foo.bar");
            response_for_request_type(ResponseType::WithHeaders(b"Yay!".to_vec(), headers))
        }
    }

    let (mut hsts, mut jar) = fresh_state();
    let u = url("https://mozilla.com");
    let mut load_data = LoadData::new(u.clone());
    let request_headers = headers_with("Host", "bar.foo");
    load_data.headers = request_headers.clone();
    let mut devtools: Option<Vec<NetworkEvent>> = Some(Vec::new());
    let _ = load(load_data, &mut hsts, &mut jar, &mut devtools, &mut Factory,
                 DEFAULT_USER_AGENT.as_bytes());

    let events = devtools.unwrap();
    assert_eq!(events.len(), 2);

    let httprequest = NetworkEvent::HttpRequest {
        url: u,
        method: Method::Get,
        headers: request_headers,
        body: None,
    };

    let content = "Yay!";
    let mut response_headers = headers_with("Host", "foo.bar");
    response_headers.set(b"Content-Length".to_vec(), content.len().to_string().into_bytes());
    let httpresponse = NetworkEvent::HttpResponse {
        headers: response_headers,
        status: 200,
        status_text: b"Ok".to_vec(),
    };

    assert_eq!(events[0], httprequest);
    assert_eq!(events[1], httpresponse);
}

#[test]
fn test_load_when_redirecting_from_a_post_should_rewrite_next_request_as_get() {
    struct Factory;

    impl HttpRequestFactory for Factory {
        fn send(&mut self, request: &HttpRequest) -> Result<HttpResponse, LoadError> {
            if domain(&request.url) == "mozilla.com" {
                assert_eq!(Method::Post, request.method);
                response_for_request_type(ResponseType::Redirect("http://mozilla.org".to_string()))
            } else {
                assert_eq!(Method::Get, request.method);
                response_for_request_type(ResponseType::Text(b"Yay!".to_vec()))
            }
        }
    }

    let mut load_data = LoadData::new(url("http://mozilla.com"));
    load_data.method = Method::Post;
    let (mut hsts, mut jar) = fresh_state();
    let _ = run(load_data, &mut hsts, &mut jar, &mut Factory);
}

#[test]
fn test_load_should_decode_the_response_as_deflate_when_response_headers_have_content_encoding_deflate() {
    struct Factory;

    impl HttpRequestFactory for Factory {
        fn send(&mut self, _: &HttpRequest) -> Result<HttpResponse, LoadError> {
            let mut e = DeflateEncoder::new(Vec::new(), Compression::default());
            e.write_all(b"Yay!").unwrap();
            let encoded_content = e.finish().unwrap();
            let headers = headers_with("Content-Encoding", "deflate");
            response_for_request_type(ResponseType::WithHeaders(encoded_content, headers))
        }
    }

    let load_data = LoadData::new(url("http://mozilla.com"));
    let (mut hsts, mut jar) = fresh_state();
    let response = run(load_data, &mut hsts, &mut jar, &mut Factory).unwrap();
    assert_eq!(String::from_utf8(response).unwrap(), "Yay!");
}

#[test]
fn test_load_should_decode_the_response_as_gzip_when_response_headers_have_content_encoding_gzip() {
    struct Factory;

    impl HttpRequestFactory for Factory {
        fn send(&mut self, _: &HttpRequest) -> Result<HttpResponse, LoadError> {
            let mut e = GzEncoder::new(Vec::new(), Compression::default());
            e.write_all(b"Yay!").unwrap();
            let encoded_content = e.finish().unwrap();
            let headers = headers_with("Content-Encoding", "gzip");
            response_for_request_type(ResponseType::WithHeaders(encoded_content, headers))
        }
    }

    let load_data = LoadData::new(url("http://mozilla.com"));
    let (mut hsts, mut jar) = fresh_state();
    let response = run(load_data, &mut hsts, &mut jar, &mut Factory).unwrap();
    assert_eq!(String::from_utf8(response).unwrap(), "Yay!");
}

#[test]
fn test_load_doesnt_send_request_body_on_any_redirect() {
    struct Factory;

    impl HttpRequestFactory for Factory {
        fn send(&mut self, request: &HttpRequest) -> Result<HttpResponse, LoadError> {
            if domain(&request.url) == "mozilla.com" {
                assert_eq!(Some(b"Body on POST!".to_vec()), request.body);
                response_for_request_type(ResponseType::Redirect("http://mozilla.org".to_string()))
            } else {
                assert_eq!(None, request.body);
                response_for_request_type(ResponseType::Text(b"Yay!".to_vec()))
            }
        }
    }

    let mut load_data = LoadData::new(url("http://mozilla.com"));
    load_data.data = Some(b"Body on POST!".to_vec());
    let (mut hsts, mut jar) = fresh_state();
    let _ = run(load_data, &mut hsts, &mut jar, &mut Factory);
}

struct StsFactory;

impl HttpRequestFactory for StsFactory {
    fn send(&mut self, _: &HttpRequest) -> Result<HttpResponse, LoadError> {
        let headers = headers_with("Strict-Transport-Security", "max-age=31536000");
        response_for_request_type(ResponseType::WithHeaders(b"Yay!".to_vec(), headers))
    }
}

#[test]
fn test_load_doesnt_add_host_to_sts_list_when_url_is_http_even_if_sts_headers_are_present() {
    let load_data = LoadData::new(url("http://mozilla.com"));
    let (mut hsts, mut jar) = fresh_state();
    let _ = run(load_data, &mut hsts, &mut jar, &mut StsFactory);
    assert_eq!(hsts.is_host_secure(b"mozilla.com"), false);
}

#[test]
fn test_load_adds_host_to_sts_list_when_url_is_https_and_sts_headers_are_present() {
    let load_data = LoadData::new(url("https://mozilla.com"));
    let (mut hsts, mut jar) = fresh_state();
    let _ = run(load_data, &mut hsts, &mut jar, &mut StsFactory);
    assert!(hsts.is_host_secure(b"mozilla.com"));
}

#[test]
fn test_load_sets_cookies_in_the_resource_manager_when_it_get_set_cookie_header_in_response() {
    struct Factory;

    impl HttpRequestFactory for Factory {
        fn send(&mut self, _: &HttpRequest) -> Result<HttpResponse, LoadError> {
            let headers = headers_with("set-cookie", "mozillaIs=theBest");
            response_for_request_type(ResponseType::WithHeaders(b"Yay!".to_vec(), headers))
        }
    }

    let (mut hsts, mut jar) = fresh_state();
    assert_cookie_for_domain(&jar, "http://mozilla.com", "");
    let load_data = LoadData::new(url("http://mozilla.com"));
    let _ = run(load_data, &mut hsts, &mut jar, &mut Factory);
    assert_cookie_for_domain(&jar, "http://mozilla.com", "mozillaIs=theBest");
}

#[test]
fn test_load_sets_requests_cookies_header_for_url_by_getting_cookies_from_the_resource_manager() {
    let u = url("http://mozilla.com");
    let mut load_data = LoadData::new(u.clone());
    load_data.data = Some(b"Yay!".to_vec());
    let (mut hsts, mut jar) = fresh_state();
    let cookie = Cookie::from_set_cookie(b"mozillaIs=theBest", &u, CookieSource::Http).unwrap();
    jar.push(cookie, CookieSource::Http);
    let mut factory = AssertMustHaveHeadersRequestFactory {
        expected_headers: headers_with("Cookie", "mozillaIs=theBest"),
        body: b"Yay!".to_vec(),
    };
    let _ = run(load_data, &mut hsts, &mut jar, &mut factory);
}

#[test]
fn test_load_sets_content_length_to_length_of_request_body() {
    let content = "This is a request body";
    let mut load_data = LoadData::new(url("http://mozilla.com"));
    load_data.data = Some(content.as_bytes().to_vec());
    let content_len = format!("{}", content.len());
    let (mut hsts, mut jar) = fresh_state();
    let mut factory = AssertMustHaveHeadersRequestFactory {
        expected_headers: headers_with("Content-Length", &content_len),
        body: content.as_bytes().to_vec(),
    };
    let _ = run(load_data, &mut hsts, &mut jar, &mut factory);
}

#[test]
fn test_load_uses_explicit_accept_from_headers_in_load_data() {
    let mut load_data = LoadData::new(url("http://mozilla.com"));
    load_data.data = Some(b"Yay!".to_vec());
    load_data.headers.set(b"Accept".to_vec(), b"text/html".to_vec());
    let (mut hsts, mut jar) = fresh_state();
    let mut factory = AssertMustHaveHeadersRequestFactory {
        expected_headers: headers_with("Accept", "text/html"),
        body: b"Yay!".to_vec(),
    };
    let _ = run(load_data, &mut hsts, &mut jar, &mut factory);
}

#[test]
fn test_load_sets_default_accept_to_html_xhtml_xml_and_then_anything_else() {
    let mut load_data = LoadData::new(url("http://mozilla.com"));
    load_data.data = Some(b"Yay!".to_vec());
    let (mut hsts, mut jar) = fresh_state();
    let mut factory = AssertMustHaveHeadersRequestFactory {
        expected_headers: headers_with(
            "Accept",
            "text/html, application/xhtml+xml, application/xml; q=0.9, */*; q=0.8",
        ),
        body: b"Yay!".to_vec(),
    };
    let _ = run(load_data, &mut hsts, &mut jar, &mut factory);
}

#[test]
fn test_load_uses_explicit_accept_encoding_from_load_data_headers() {
    let mut load_data = LoadData::new(url("http://mozilla.com"));
    load_data.data = Some(b"Yay!".to_vec());
    load_data.headers.set(b"Accept-Encoding".to_vec(), b"chunked".to_vec());
    let (mut hsts, mut jar) = fresh_state();
    let mut factory = AssertMustHaveHeadersRequestFactory {
        expected_headers: headers_with("Accept-Encoding", "chunked"),
        body: b"Yay!".to_vec(),
    };
    let _ = run(load_data, &mut hsts, &mut jar, &mut factory);
}

#[test]
fn test_load_sets_default_accept_encoding_to_gzip_and_deflate() {
    let mut load_data = LoadData::new(url("http://mozilla.com"));
    load_data.data = Some(b"Yay!".to_vec());
    let (mut hsts, mut jar) = fresh_state();
    let mut factory = AssertMustHaveHeadersRequestFactory {
        expected_headers: headers_with("Accept-Encoding", "gzip, deflate"),
        body: b"Yay!".to_vec(),
    };
    let _ = run(load_data, &mut hsts, &mut jar, &mut factory);
}

#[test]
fn test_load_errors_when_there_a_redirect_loop() {
    struct Factory;

    impl HttpRequestFactory for Factory {
        fn send(&mut self, request: &HttpRequest) -> Result<HttpResponse, LoadError> {
            let d = domain(&request.url);
            if d == "mozilla.com" {
                response_for_request_type(ResponseType::Redirect("http://mozilla.org".to_string()))
            } else if d == "mozilla.org" {
                response_for_request_type(ResponseType::Redirect("http://mozilla.com".to_string()))
            } else {
                panic!("unexpected host {:?}", request.url)
            }
        }
    }

    let load_data = LoadData::new(url("http://mozilla.com"));
    let (mut hsts, mut jar) = fresh_state();
    match run(load_data, &mut hsts, &mut jar, &mut Factory) {
        Err(LoadError::InvalidRedirect(_, msg)) => {
            assert_eq!(msg, "redirect loop");
        },
        _ => panic!("expected max redirects to fail"),
    }
}

#[test]
fn test_load_errors_when_there_is_too_many_redirects() {
    struct Factory;

    impl HttpRequestFactory for Factory {
        fn send(&mut self, request: &HttpRequest) -> Result<HttpResponse, LoadError> {
            if domain(&request.url) == "mozilla.com" {
                let here = String::from_utf8(request.url.serialization.clone()).unwrap();
                response_for_request_type(ResponseType::Redirect(format!("{}/1", here)))
            } else {
                panic!("unexpected host {:?}", request.url)
            }
        }
    }

    let load_data = LoadData::new(url("http://mozilla.com"));
    let (mut hsts, mut jar) = fresh_state();
    match run(load_data, &mut hsts, &mut jar, &mut Factory) {
        Err(LoadError::MaxRedirects(u)) => {
            assert_eq!(domain(&u), "mozilla.com")
        },
        _ => panic!("expected max redirects to fail"),
    }
}

#[test]
fn test_load_follows_a_redirect() {
    struct Factory;

    impl HttpRequestFactory for Factory {
        fn send(&mut self, request: &HttpRequest) -> Result<HttpResponse, LoadError> {
            let d = domain(&request.url);
            if d == "mozilla.com" {
                response_for_request_type(ResponseType::Redirect("http://mozilla.org".to_string()))
            } else if d == "mozilla.org" {
                response_for_request_type(ResponseType::Text(b"Yay!".to_vec()))
            } else {
                panic!("unexpected host {:?}", request.url)
            }
        }
    }

    let load_data = LoadData::new(url("http://mozilla.com"));
    let (mut hsts, mut jar) = fresh_state();
    match run(load_data, &mut hsts, &mut jar, &mut Factory) {
        Err(e) => panic!("expected to follow a redirect {:?}", e),
        Ok(lr) => {
            assert_eq!(String::from_utf8(lr).unwrap(), "Yay!".to_string());
        },
    }
}

struct DontConnectFactory;

impl HttpRequestFactory for DontConnectFactory {
    fn send(&mut self, request: &HttpRequest) -> Result<HttpResponse, LoadError> {
        Err(LoadError::Connection(request.url.clone(), "should not have connected".to_string()))
    }
}

#[test]
fn test_load_errors_when_scheme_is_not_http_or_https() {
    let load_data = LoadData::new(url("ftp://not-supported"));
    let (mut hsts, mut jar) = fresh_state();
    match run(load_data, &mut hsts, &mut jar, &mut DontConnectFactory) {
        Err(LoadError::UnsupportedScheme(_)) => {},
        _ => panic!("expected ftp scheme to be unsupported"),
    }
}

#[test]
fn test_load_errors_when_viewing_source_and_inner_url_scheme_is_not_http_or_https() {
    let load_data = LoadData::new(url("view-source:ftp://not-supported"));
    let (mut hsts, mut jar) = fresh_state();
    match run(load_data, &mut hsts, &mut jar, &mut DontConnectFactory) {
        Err(LoadError::UnsupportedScheme(_)) => {},
        _ => panic!("expected ftp scheme to be unsupported"),
    }
}
