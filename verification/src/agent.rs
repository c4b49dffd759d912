//! The authenticated HTTP agent: base-URL handling, the login handshake,
//! and the translation of every fetched outcome into a value or a typed
//! error. The network itself sits behind the trusted items in `transport`;
//! everything that decides is here, and verified.

use vstd::prelude::*;

use crate::error::ApiError;
use crate::json::{json_doc, lookup, parse_json, render, JsonVal, JsonValue};
use crate::transport::{
    agent_with_cookie, check_base_url, cookie_value, http_get, http_post_json,
    is_base_with_domain, new_plain_agent, push_url_segment, read_body, with_path_segment,
    RawReply,
};
use vstd::string::StringSliceAdditionalSpecFns;

verus! {

/// An auth token as handed out by the proxy: the raw value of its session
/// cookie. The value is reachable only through `expose`, so the token
/// never gains a printable form. Its memory is not scrubbed on drop, and
/// the HTTP client's cookie jar keeps the plaintext cookie regardless: an
/// accepted limitation, not a guarantee.
pub struct AuthToken {
    value: String,
}

impl View for AuthToken {
    type V = Seq<char>;

    closed spec fn view(&self) -> Seq<char> {
        self.value@
    }
}

impl AuthToken {
    pub fn new(value: String) -> (t: AuthToken)
        ensures
            t@ == value@,
    {
        AuthToken { value }
    }

    /// The raw cookie value, for sending and for external persistence.
    pub fn expose(&self) -> (r: &String)
        ensures
            r@ == self@,
    {
        &self.value
    }
}

/// A passphrase on its way to the unseal endpoint. The bytes are reachable
/// only by consuming the value, so the passphrase never gains a printable
/// form. Its memory is not scrubbed on drop.
pub struct Passphrase {
    bytes: Vec<u8>,
}

impl View for Passphrase {
    type V = Seq<u8>;

    closed spec fn view(&self) -> Seq<u8> {
        self.bytes@
    }
}

impl Passphrase {
    pub fn new(bytes: Vec<u8>) -> (p: Passphrase)
        ensures
            p@ == bytes@,
    {
        Passphrase { bytes }
    }
}

/// What one HTTP exchange came back as, once the body was read.
pub enum Fetched {
    /// The server accepted the request; the body's bytes, or `None` when
    /// they could not be read.
    Success(Option<Vec<u8>>),
    /// The server answered with this error status; its body's bytes, or
    /// `None` when they could not be read.
    Status(u16, Option<Vec<u8>>),
    /// No response: the transport failed.
    TransportFailed(ureq::Transport),
}

/// The message of a JSON error body of the shape `{message, variant}`,
/// when the body has exactly that shape.
pub open spec fn error_message_of(body: Seq<u8>) -> Option<Seq<u8>> {
    match json_doc(body) {
        Some(JsonVal::Obj(ps)) => match (
            lookup(ps, "message".spec_bytes()),
            lookup(ps, "variant".spec_bytes()),
        ) {
            (Some(JsonVal::Str(m)), Some(JsonVal::Str(_))) => Some(m),
            _ => None,
        },
        _ => None,
    }
}

/// The error a non-success status with this body maps to: `Api` carrying
/// the server's message and code when the body has the error shape, else
/// `Serialization`.
fn api_failure(code: u16, body: &Vec<u8>) -> (e: ApiError)
    ensures
        match error_message_of(body@) {
            Some(m) => e matches ApiError::Api { msg, code: c } && msg@ == m && c == code,
            None => e is Serialization,
        },
{
    match parse_json(body) {
        Some(doc) => {
            let msg = match doc.get("message".as_bytes()) {
                Some(f) => match f.as_str() {
                    Some(m) => Some(crate::json::copy_bytes(m)),
                    None => None,
                },
                None => None,
            };
            let variant_ok = match doc.get("variant".as_bytes()) {
                Some(f) => f.as_str().is_some(),
                None => false,
            };
            match (msg, variant_ok) {
                (Some(m), true) => ApiError::Api { msg: m, code },
                _ => ApiError::Serialization,
            }
        },
        None => ApiError::Serialization,
    }
}

/// What every fetched outcome yields when the caller wants the body as a
/// document: the parsed body on success, and on each failure exactly the
/// error the taxonomy assigns to it.
pub fn interpret_response(f: Fetched) -> (r: Result<JsonValue, ApiError>)
    ensures
        match f {
            Fetched::Success(body) => match body {
                Some(b) => match json_doc(b@) {
                    Some(v) => r matches Ok(rv) && rv@ == v,
                    None => r matches Err(e) && e is Serialization,
                },
                None => r matches Err(e) && e is Io,
            },
            Fetched::Status(code, body) => match body {
                Some(b) => match error_message_of(b@) {
                    Some(m) => r matches Err(e) && e matches ApiError::Api { msg, code: c }
                        && msg@ == m && c == code,
                    None => r matches Err(e) && e is Serialization,
                },
                None => r matches Err(e) && e is Io,
            },
            Fetched::TransportFailed(t) => r matches Err(e) && e matches ApiError::Transport(t2)
                && t2 == t,
        },
{
    match f {
        Fetched::Success(body) => match body {
            Some(b) => match parse_json(&b) {
                Some(v) => Ok(v),
                None => Err(ApiError::Serialization),
            },
            None => Err(ApiError::Io),
        },
        Fetched::Status(code, body) => match body {
            Some(b) => Err(api_failure(code, &b)),
            None => Err(ApiError::Io),
        },
        Fetched::TransportFailed(t) => Err(ApiError::Transport(t)),
    }
}

/// As `interpret_response`, except that a 404 status yields `Ok(None)`
/// instead of an error, whatever its body holds and whether or not the
/// body could be read.
pub fn interpret_response_opt(f: Fetched) -> (r: Result<Option<JsonValue>, ApiError>)
    ensures
        match f {
            Fetched::Success(body) => match body {
                Some(b) => match json_doc(b@) {
                    Some(v) => r matches Ok(o) && o matches Some(rv) && rv@ == v,
                    None => r matches Err(e) && e is Serialization,
                },
                None => r matches Err(e) && e is Io,
            },
            Fetched::Status(code, body) => if code == 404 {
                r matches Ok(o) && o is None
            } else {
                match body {
                    Some(b) => match error_message_of(b@) {
                        Some(m) => r matches Err(e) && e matches ApiError::Api { msg, code: c }
                            && msg@ == m && c == code,
                        None => r matches Err(e) && e is Serialization,
                    },
                    None => r matches Err(e) && e is Io,
                }
            },
            Fetched::TransportFailed(t) => r matches Err(e) && e matches ApiError::Transport(t2)
                && t2 == t,
        },
{
    match &f {
        Fetched::Status(code, _) => {
            if *code == 404 {
                return Ok(None);
            }
        },
        _ => {},
    }
    match interpret_response(f) {
        Ok(v) => Ok(Some(v)),
        Err(e) => Err(e),
    }
}

/// As `interpret_response` for callers that ignore the response body's
/// content, as the unseal and settings endpoints call for: any accepted
/// request whose body could be read — the proxy sends an empty one — is
/// success, whatever the body holds; a body that could not be read is
/// still an I/O failure, and the other failures map exactly as the
/// taxonomy assigns them.
pub fn interpret_response_ignoring_body(f: Fetched) -> (r: Result<(), ApiError>)
    ensures
        match f {
            Fetched::Success(body) => match body {
                Some(_) => r is Ok,
                None => r matches Err(e) && e is Io,
            },
            Fetched::Status(code, body) => match body {
                Some(b) => match error_message_of(b@) {
                    Some(m) => r matches Err(e) && e matches ApiError::Api { msg, code: c }
                        && msg@ == m && c == code,
                    None => r matches Err(e) && e is Serialization,
                },
                None => r matches Err(e) && e is Io,
            },
            Fetched::TransportFailed(t) => r matches Err(e) && e matches ApiError::Transport(t2)
                && t2 == t,
        },
{
    match f {
        Fetched::Success(body) => match body {
            Some(_) => Ok(()),
            None => Err(ApiError::Io),
        },
        Fetched::Status(code, body) => match body {
            Some(b) => Err(api_failure(code, &b)),
            None => Err(ApiError::Io),
        },
        Fetched::TransportFailed(t) => Err(ApiError::Transport(t)),
    }
}

/// Whether a probe answered that the token is good: `Ok(true)` on any
/// success, `Ok(false)` exactly on a server-reported 403, and every other
/// failure handed back unchanged.
pub fn token_accepted(probe: Result<JsonValue, ApiError>) -> (r: Result<bool, ApiError>)
    ensures
        probe matches Ok(_) ==> (r matches Ok(b) && b),
        probe matches Err(e) ==> if e matches ApiError::Api { code: 403u16, .. } {
            r matches Ok(b) && !b
        } else {
            r matches Err(e2) && e2 == e
        },
{
    match probe {
        Ok(_) => Ok(true),
        Err(ApiError::Api { code: 403, .. }) => Ok(false),
        Err(e) => Err(e),
    }
}

/// The URL text after appending each segment in turn to `base`.
pub open spec fn url_of(base: Seq<char>, segs: Seq<&str>) -> Seq<char>
    decreases segs.len(),
{
    if segs.len() == 0 {
        base
    } else {
        url_of(with_path_segment(base, segs[0]@), segs.drop_first())
    }
}

/// A cookie-bearing HTTP client scoped to one base URL. One long-lived
/// value serves a whole process invocation.
pub struct Client {
    client: ureq::Agent,
    base: String,
}

impl Client {
    /// The base URL's text.
    pub closed spec fn base_spec(&self) -> Seq<char> {
        self.base@
    }

    #[verifier::type_invariant]
    spec fn wf(self) -> bool {
        is_base_with_domain(self.base@)
    }

    /// A fresh, unauthenticated client. Succeeds exactly when the base URL
    /// parses, takes appended path segments, and carries a domain.
    pub fn new(base: String) -> (r: Result<Client, ApiError>)
        ensures
            r matches Ok(a) ==> (is_base_with_domain(base@) && a.base_spec() == base@),
            r matches Err(e) ==> (!is_base_with_domain(base@) && e is UrlConstruction),
    {
        if check_base_url(base.as_str()) {
            Ok(Client { client: new_plain_agent(), base })
        } else {
            Err(ApiError::UrlConstruction)
        }
    }

    /// The URL for a request: the path segments appended in order to the
    /// base URL.
    pub fn url_for(&self, segs: &[&str]) -> (r: String)
        ensures
            r@ == url_of(self.base_spec(), segs@),
    {
        proof {
            use_type_invariant(self);
        }
        let mut cur: String = self.base.clone();
        let n = segs.len();
        let mut i: usize = 0;
        assert(segs@.skip(0) =~= segs@);
        while i < n
            invariant
                i <= n,
                n == segs@.len(),
                is_base_with_domain(cur@),
                url_of(self.base_spec(), segs@) == url_of(cur@, segs@.skip(i as int)),
            decreases n - i,
        {
            let ghost rest = segs@.skip(i as int);
            assert(rest[0] == segs@[i as int]);
            assert(rest.drop_first() =~= segs@.skip(i + 1));
            cur = push_url_segment(cur.as_str(), segs[i]);
            i = i + 1;
        }
        assert(url_of(cur@, segs@.skip(n as int)) == cur@);
        cur
    }

    /// One GET, from the raw exchange down to the read body.
    fn fetch_get(&self, url: &str) -> Fetched {
        match http_get(&self.client, url) {
            RawReply::Succeeded(resp) => Fetched::Success(read_body(resp)),
            RawReply::HttpError(code, resp) => Fetched::Status(code, read_body(resp)),
            RawReply::Failed(t) => Fetched::TransportFailed(t),
        }
    }

    /// One POST of a JSON body, from the raw exchange down to the read body.
    fn fetch_post(&self, url: &str, body: &Vec<u8>) -> Fetched {
        match http_post_json(&self.client, url, body.as_slice()) {
            RawReply::Succeeded(resp) => Fetched::Success(read_body(resp)),
            RawReply::HttpError(code, resp) => Fetched::Status(code, read_body(resp)),
            RawReply::Failed(t) => Fetched::TransportFailed(t),
        }
    }

    /// GET the resource under these path segments. What each fetched
    /// outcome yields is pinned by `interpret_response`; the base URL was
    /// checked at construction, so a URL error can never come back.
    pub fn get(&self, segs: &[&str]) -> (r: Result<JsonValue, ApiError>)
        ensures
            r matches Err(e) ==> !(e is UrlConstruction),
    {
        let url = self.url_for(segs);
        let f = self.fetch_get(url.as_str());
        interpret_response(f)
    }

    /// GET the resource under these path segments, reading a 404 answer as
    /// `None`. What each fetched outcome yields is pinned by
    /// `interpret_response_opt`.
    pub fn get_opt(&self, segs: &[&str]) -> (r: Result<Option<JsonValue>, ApiError>)
        ensures
            r matches Err(e) ==> !(e is UrlConstruction),
    {
        let url = self.url_for(segs);
        let f = self.fetch_get(url.as_str());
        interpret_response_opt(f)
    }

    /// POST `body` to these path segments. What each fetched outcome
    /// yields is pinned by `interpret_response`; the base URL was checked
    /// at construction, so a URL error can never come back.
    pub fn post(&self, segs: &[&str], body: &JsonValue) -> (r: Result<JsonValue, ApiError>)
        ensures
            r matches Err(e) ==> !(e is UrlConstruction),
    {
        let url = self.url_for(segs);
        let bytes = render(body);
        let f = self.fetch_post(url.as_str(), &bytes);
        interpret_response(f)
    }

    /// POST `body` to these path segments, ignoring the content of the
    /// body the server answers with; the proxy answers these requests with
    /// an empty body. What each fetched outcome yields is pinned by
    /// `interpret_response_ignoring_body`; the base URL was checked at
    /// construction, so a URL error can never come back.
    pub fn post_ignoring_body(&self, segs: &[&str], body: &JsonValue) -> (r: Result<
        (),
        ApiError,
    >)
        ensures
            r matches Err(e) ==> !(e is UrlConstruction),
    {
        let url = self.url_for(segs);
        let bytes = render(body);
        let f = self.fetch_post(url.as_str(), &bytes);
        interpret_response_ignoring_body(f)
    }
}

/// The unseal request's body: an object with the passphrase under its
/// well-known key.
pub open spec fn login_body_of(pass: Seq<u8>) -> JsonVal {
    JsonVal::Obj(seq![("passphrase".spec_bytes(), JsonVal::Str(pass))])
}

/// What the login handshake hands back, given how the unseal POST ended
/// and what the cookie jar then held: a failed unseal is handed back
/// unchanged; a successful one must have left the auth cookie, whose raw
/// value becomes the token; a cookie missing after success is an I/O
/// failure.
pub fn login_outcome(unseal: Result<(), ApiError>, cookie: Option<String>) -> (r: Result<
    AuthToken,
    ApiError,
>)
    ensures
        match unseal {
            Ok(_) => match cookie {
                Some(v) => r matches Ok(t) && t@ == v@,
                None => r matches Err(e) && e is Io,
            },
            Err(e) => r matches Err(e2) && e2 == e,
        },
{
    match unseal {
        Ok(_) => match cookie {
            Some(v) => Ok(AuthToken::new(v)),
            None => Err(ApiError::Io),
        },
        Err(e) => Err(e),
    }
}

/// The unseal request's body for this passphrase.
pub fn unseal_body(passphrase: Passphrase) -> (b: JsonValue)
    ensures
        b@ == login_body_of(passphrase@),
{
    let mut pairs: Vec<(Vec<u8>, JsonValue)> = Vec::new();
    let key = crate::json::str_bytes("passphrase");
    pairs.push((key, JsonValue::Str(passphrase.bytes)));
    proof {
        crate::json::lemma_jv_pairs(pairs@);
        assert(crate::json::jv_pairs(pairs@) =~= seq![
            ("passphrase".spec_bytes(), JsonVal::Str(passphrase@)),
        ]);
    }
    JsonValue::Obj(pairs)
}

impl Client {
    /// Attaches `token` as the auth cookie, then probes the identities
    /// listing. `Ok(None)` exactly when the server refuses the probe with
    /// a 403 error body: the token is invalid or expired. Any other
    /// failure is handed back unchanged, as `token_accepted` pins down.
    pub fn with_token(base: String, token: &AuthToken) -> (r: Result<Option<Client>, ApiError>)
        ensures
            !is_base_with_domain(base@) ==> (r matches Err(e) && e is UrlConstruction),
            r matches Err(e) ==> (e is UrlConstruction ==> !is_base_with_domain(base@)),
            r matches Ok(o) ==> (o matches Some(a) ==> a.base_spec() == base@),
    {
        if !check_base_url(base.as_str()) {
            return Err(ApiError::UrlConstruction);
        }
        let client = match agent_with_cookie(base.as_str(), "auth-token", token.expose().as_str())
            {
            Some(c) => c,
            None => {
                return Err(ApiError::Io);
            },
        };
        let agent = Client { client, base };
        let probe = agent.get(&["v1", "identities"]);
        match token_accepted(probe) {
            Ok(true) => Ok(Some(agent)),
            Ok(false) => Ok(None),
            Err(e) => Err(e),
        }
    }

    /// Posts the passphrase to the unseal endpoint — whose answer carries
    /// an empty body, ignored as `interpret_response_ignoring_body` lays
    /// out — and reads back the `auth-token` cookie the server set; what
    /// the handshake hands back for each unseal outcome and jar state is
    /// pinned by `login_outcome`. The proxy restarts its internal state
    /// after unsealing; give it a moment before the first authenticated
    /// request.
    pub fn with_login(base: String, passphrase: Passphrase) -> (r: Result<
        (Client, AuthToken),
        ApiError,
    >)
        ensures
            !is_base_with_domain(base@) ==> (r matches Err(e) && e is UrlConstruction),
            r matches Err(e) ==> (e is UrlConstruction ==> !is_base_with_domain(base@)),
            r matches Ok(p) ==> p.0.base_spec() == base@,
    {
        if !check_base_url(base.as_str()) {
            return Err(ApiError::UrlConstruction);
        }
        let client = new_plain_agent();
        let agent = Client { client, base };
        let body = unseal_body(passphrase);
        let unseal = agent.post_ignoring_body(&["v1", "keystore", "unseal"], &body);
        proof {
            use_type_invariant(&agent);
        }
        let cookie = cookie_value(&agent.client, agent.base.as_str(), "auth-token");
        match login_outcome(unseal, cookie) {
            Ok(token) => Ok((agent, token)),
            Err(e) => Err(e),
        }
    }
}

} // verus!
