//! The trusted boundary to the HTTP stack: the `ureq` client, the `url`
//! parser and the cookie jar. Everything below is believed, not proved;
//! each item's comment names the outside functions it relies on.

use vstd::prelude::*;

verus! {

#[verifier::external_type_specification]
#[verifier::external_body]
pub struct ExAgent(ureq::Agent);

#[verifier::external_type_specification]
#[verifier::external_body]
pub struct ExResponse(ureq::Response);

#[verifier::external_type_specification]
#[verifier::external_body]
pub struct ExTransport(ureq::Transport);

/// Whether `url::Url::parse` accepts `s` as a URL that can take appended
/// path segments and carries a domain.
pub uninterp spec fn is_base_with_domain(s: Seq<char>) -> bool;

/// The URL text after one path segment is appended, percent-encoded as
/// `url::PathSegmentsMut::push` writes it.
pub uninterp spec fn with_path_segment(base: Seq<char>, seg: Seq<char>) -> Seq<char>;

/// Relies on `url::Url::parse`, `Url::cannot_be_a_base` and `Url::domain`:
/// together they decide whether `s` is a workable base URL with a domain.
#[verifier::external_body]
pub(crate) fn check_base_url(s: &str) -> (r: bool)
    ensures
        r == is_base_with_domain(s@),
{
    match url::Url::parse(s) {
        Ok(u) => !u.cannot_be_a_base() && u.domain().is_some(),
        Err(_) => false,
    }
}

/// Relies on `url::Url::parse` and `url::PathSegmentsMut::push`: appending
/// one segment to a base URL that takes segments yields the pushed URL's
/// text, and the result is again a base URL with the same domain.
#[verifier::external_body]
pub(crate) fn push_url_segment(base: &str, seg: &str) -> (r: String)
    requires
        is_base_with_domain(base@),
    ensures
        r@ == with_path_segment(base@, seg@),
        is_base_with_domain(r@),
{
    let mut u = url::Url::parse(base).unwrap();
    u.path_segments_mut().unwrap().push(seg);
    u.to_string()
}

/// Relies on `ureq::agent`: a fresh client with an empty cookie jar.
#[verifier::external_body]
pub(crate) fn new_plain_agent() -> ureq::Agent {
    ureq::agent()
}

/// Relies on `cookie::Cookie::build`, `cookie_store::CookieStore::insert_raw`
/// and `ureq::AgentBuilder::cookie_store`: a fresh client whose jar holds one
/// cookie `name=value` scoped to the base URL's domain and path `/`. `None`
/// when the jar refuses the cookie.
#[verifier::external_body]
pub(crate) fn agent_with_cookie(base: &str, name: &str, value: &str) -> (r: Option<ureq::Agent>)
    requires
        is_base_with_domain(base@),
{
    let u = url::Url::parse(base).ok()?;
    let domain = u.domain()?.to_owned();
    let mut jar = cookie_store::CookieStore::default();
    let c = cookie::Cookie::build((name, value)).domain(domain).path("/").build();
    jar.insert_raw(&c, &u).ok()?;
    Some(ureq::builder().cookie_store(jar).build())
}

/// What one HTTP exchange came back as, before the body is read.
pub enum RawReply {
    /// The server accepted the request.
    Succeeded(ureq::Response),
    /// The server answered with an error status.
    HttpError(u16, ureq::Response),
    /// No response: the transport failed.
    Failed(ureq::Transport),
}

/// Relies on `ureq::Agent::get` and `ureq::Request::call`: performs one GET
/// and tells the three outcomes of `ureq::Error` apart, moving fields only.
#[verifier::external_body]
pub(crate) fn http_get(agent: &ureq::Agent, url: &str) -> RawReply {
    match agent.get(url).call() {
        Ok(r) => RawReply::Succeeded(r),
        Err(ureq::Error::Status(code, r)) => RawReply::HttpError(code, r),
        Err(ureq::Error::Transport(t)) => RawReply::Failed(t),
    }
}

/// Relies on `ureq::Agent::post`, `ureq::Request::set` and
/// `ureq::Request::send_bytes`: performs one POST of a JSON body and tells
/// the outcomes of `ureq::Error` apart, moving fields only.
#[verifier::external_body]
pub(crate) fn http_post_json(agent: &ureq::Agent, url: &str, body: &[u8]) -> RawReply {
    match agent.post(url).set("Content-Type", "application/json").send_bytes(body) {
        Ok(r) => RawReply::Succeeded(r),
        Err(ureq::Error::Status(code, r)) => RawReply::HttpError(code, r),
        Err(ureq::Error::Transport(t)) => RawReply::Failed(t),
    }
}

/// Relies on `ureq::Response::into_string`: the body decoded as UTF-8
/// (lossily, should a server send invalid sequences), `None` when reading
/// it fails. `into_string` refuses bodies over its own cap.
#[verifier::external_body]
pub(crate) fn read_body(r: ureq::Response) -> Option<Vec<u8>> {
    match r.into_string() {
        Ok(s) => Some(s.into_bytes()),
        Err(_) => None,
    }
}

/// Relies on `ureq::Agent::cookie_store` and `cookie_store::CookieStore::get`:
/// the value of the unexpired cookie `name` for the base URL's domain and
/// path `/`, if the jar holds one.
#[verifier::external_body]
pub(crate) fn cookie_value(agent: &ureq::Agent, base: &str, name: &str) -> (r: Option<String>)
    requires
        is_base_with_domain(base@),
{
    let u = url::Url::parse(base).ok()?;
    let domain = u.domain()?;
    let jar = agent.cookie_store();
    let c = jar.get(domain, "/", name)?;
    Some(c.value().to_owned())
}

} // verus!
