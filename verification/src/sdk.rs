//! The client SDK's data: request and response bodies, its error type, and
//! the rules its HTTP transport applies to statuses, errors and queries.

use vstd::prelude::*;
use vstd::string::*;

use crate::text::{decimal, decimal_string};

verus! {

/// Unified error type for all SDK operations.
#[derive(Debug)]
pub enum SdkError {
    /// No valid authentication token is available.
    Unauthenticated,
    /// The server could not be reached.
    ConnectionFailed(String),
    /// The server returned an unexpected HTTP status.
    HttpError { status: i32, message: String },
    /// Serialisation or deserialisation failed.
    SerdeError(String),
    /// Any other error.
    Internal(String),
}

/// An integer in decimal, with a `-` when negative.
pub open spec fn int_text(n: int) -> Seq<char> {
    if n < 0 {
        seq!['-'] + decimal((-n) as nat)
    } else {
        decimal(n as nat)
    }
}

fn i32_string(n: i32) -> (r: String)
    ensures
        r@ == int_text(n as int),
{
    if n < 0 {
        let m: u64 = (0 - (n as i64)) as u64;
        let mut s = "-".to_owned();
        proof {
            reveal_strlit("-");
        }
        s.append(decimal_string(m).as_str());
        s
    } else {
        decimal_string(n as u64)
    }
}

/// What `Display` shows for an SDK error.
pub open spec fn sdk_error_text(e: SdkError) -> Seq<char> {
    match e {
        SdkError::Unauthenticated => "Not authenticated"@,
        SdkError::ConnectionFailed(s) => "Connection failed: "@ + s@,
        SdkError::HttpError { status, message } => "HTTP error ("@ + int_text(status as int) + "): "@
            + message@,
        SdkError::SerdeError(s) => "Serialization error: "@ + s@,
        SdkError::Internal(s) => s@,
    }
}

impl SdkError {
    /// The error as text (what `Display` shows).
    pub fn to_string(&self) -> (r: String)
        ensures
            r@ == sdk_error_text(*self),
    {
        match self {
            SdkError::Unauthenticated => "Not authenticated".to_owned(),
            SdkError::ConnectionFailed(s) => {
                let mut m = "Connection failed: ".to_owned();
                m.append(s.as_str());
                m
            },
            SdkError::HttpError { status, message } => {
                let mut m = "HTTP error (".to_owned();
                m.append(i32_string(*status).as_str());
                m.append("): ");
                m.append(message.as_str());
                m
            },
            SdkError::SerdeError(s) => {
                let mut m = "Serialization error: ".to_owned();
                m.append(s.as_str());
                m
            },
            SdkError::Internal(s) => s.clone(),
        }
    }
}

/// The page size a query asks for when it does not say.
pub fn default_page_size() -> (r: u64)
    ensures
        r == 40,
{
    40
}

/// What an HTTP status means for a request: 401 is `Unauthenticated`, any
/// other status from 400 on an `HttpError` with text `HTTP <status>`.
pub fn check_status(status: u16) -> (r: Result<(), SdkError>)
    ensures
        status == 401 ==> r matches Err(SdkError::Unauthenticated),
        status != 401 && status >= 400 ==> (r matches Err(SdkError::HttpError { status: st, message })
            && st == status as i32 && message@ == "HTTP "@ + decimal(status as nat)),
        status < 400 ==> r is Ok,
{
    if status == 401 {
        Err(SdkError::Unauthenticated)
    } else if status >= 400 {
        let mut m = "HTTP ".to_owned();
        m.append(decimal_string(status as u64).as_str());
        Err(SdkError::HttpError { status: status as i32, message: m })
    } else {
        Ok(())
    }
}

/// The error for a failed transport request, from what the transport
/// reports: whether it could not connect or timed out, the HTTP status it
/// got (if any) and its message.
pub fn classify_transport_error(connect_or_timeout: bool, status: Option<u16>, text: String) -> (r:
    SdkError)
    ensures
        connect_or_timeout ==> (r matches SdkError::ConnectionFailed(m) && m == text),
        !connect_or_timeout && status == Some(401u16) ==> r matches SdkError::Unauthenticated,
        !connect_or_timeout && (status matches Some(s) && s != 401) ==> (r matches SdkError::HttpError {
            status: st,
            message,
        } && st == status->0 as i32 && message == text),
        !connect_or_timeout && status is None ==> (r matches SdkError::Internal(m) && m == text),
{
    if connect_or_timeout {
        SdkError::ConnectionFailed(text)
    } else {
        match status {
            Some(s) => if s == 401 {
                SdkError::Unauthenticated
            } else {
                SdkError::HttpError { status: s as i32, message: text }
            },
            None => SdkError::Internal(text),
        }
    }
}

/// A query parameter's value, as the serialised request holds it.
#[derive(Debug)]
pub enum QueryValue {
    Str(String),
    /// A number, as written.
    Number(String),
    Bool(bool),
    /// A null, a list or an object.
    Other,
}

/// The `key=value` text of a parameter, if it is sent: strings that are not
/// empty, numbers and booleans are.
pub open spec fn query_pair(key: Seq<char>, value: QueryValue) -> Option<Seq<char>> {
    match value {
        QueryValue::Str(s) => if s@.len() > 0 {
            Some(key + seq!['='] + s@)
        } else {
            None
        },
        QueryValue::Number(n) => Some(key + seq!['='] + n@),
        QueryValue::Bool(b) => Some(key + seq!['='] + (if b {
            "true"@
        } else {
            "false"@
        })),
        QueryValue::Other => None,
    }
}

/// A boolean parameter is always sent, as its key, `=` and its own value:
/// the text after the `=` is `true` exactly when the value is true, and
/// `false` exactly when it is false.
pub proof fn lemma_bool_parameter_text(key: Seq<char>, b: bool)
    ensures
        query_pair(key, QueryValue::Bool(b)) is Some,
        query_pair(key, QueryValue::Bool(b))->Some_0.take(key.len() as int + 1) == key.push('='),
        query_pair(key, QueryValue::Bool(b))->Some_0.skip(key.len() as int + 1) == seq!['t', 'r', 'u', 'e'] <==> b,
        query_pair(key, QueryValue::Bool(b))->Some_0.skip(key.len() as int + 1) == seq!['f', 'a', 'l', 's', 'e'] <==> !b,
{
    reveal_strlit("true");
    reveal_strlit("false");
    let t = query_pair(key, QueryValue::Bool(b))->Some_0;
    let v: Seq<char> = if b { "true"@ } else { "false"@ };
    assert(t == key + seq!['='] + v);
    assert(t.take(key.len() as int + 1) =~= key.push('='));
    assert(t.skip(key.len() as int + 1) =~= v);
    assert("true"@ =~= seq!['t', 'r', 'u', 'e']);
    assert("false"@ =~= seq!['f', 'a', 'l', 's', 'e']);
    assert(seq!['t', 'r', 'u', 'e'] != seq!['f', 'a', 'l', 's', 'e']) by {
        assert(seq!['t', 'r', 'u', 'e'].len() != seq!['f', 'a', 'l', 's', 'e'].len());
    }
}

/// A text parameter is sent as `key=text` exactly when the text is not
/// empty; a number is always sent as `key=` and the number as written;
/// a null, list or object is never sent.
pub proof fn lemma_text_parameters(key: Seq<char>, s: String, n: String)
    ensures
        query_pair(key, QueryValue::Str(s)) is Some <==> s@.len() > 0,
        s@.len() > 0 ==> query_pair(key, QueryValue::Str(s))->Some_0 == key.push('=') + s@,
        query_pair(key, QueryValue::Number(n)) == Some(key.push('=') + n@),
        query_pair(key, QueryValue::Other) is None,
{
    assert(key + seq!['='] =~= key.push('='));
}

/// The pairs that are sent, in order.
pub open spec fn query_pairs(params: Seq<(String, QueryValue)>) -> Seq<Seq<char>>
    decreases params.len(),
{
    if params.len() == 0 {
        Seq::empty()
    } else {
        match query_pair(params.last().0@, params.last().1) {
            Some(p) => query_pairs(params.drop_last()).push(p),
            None => query_pairs(params.drop_last()),
        }
    }
}

/// The parts joined with `&`.
pub open spec fn join_amp(parts: Seq<Seq<char>>) -> Seq<char>
    decreases parts.len(),
{
    if parts.len() == 0 {
        Seq::empty()
    } else if parts.len() == 1 {
        parts[0]
    } else {
        join_amp(parts.drop_last()) + seq!['&'] + parts.last()
    }
}

/// The query string for the parameters: empty when none is sent, else `?`
/// and the pairs joined with `&`.
pub open spec fn page_query_text(params: Seq<(String, QueryValue)>) -> Seq<char> {
    let parts = query_pairs(params);
    if parts.len() == 0 {
        Seq::empty()
    } else {
        seq!['?'] + join_amp(parts)
    }
}

/// Builds the query string of a paged request from its parameters, in
/// order.
pub fn build_page_query(params: &Vec<(String, QueryValue)>) -> (r: String)
    ensures
        r@ == page_query_text(params@),
{
    let mut out: String = String::new();
    let mut count: usize = 0;
    let mut i: usize = 0;
    assert(params@.take(0) =~= Seq::<(String, QueryValue)>::empty());
    while i < params.len()
        invariant
            0 <= i <= params@.len(),
            count == query_pairs(params@.take(i as int)).len(),
            count <= i,
            out@ == join_amp(query_pairs(params@.take(i as int))),
        decreases params.len() - i,
    {
        let ghost before = query_pairs(params@.take(i as int));
        assert(params@.take(i + 1).drop_last() =~= params@.take(i as int));
        let (key, value) = (&params[i].0, &params[i].1);
        let pair: Option<String> = match value {
            QueryValue::Str(s) => if s.unicode_len() > 0 {
                let mut p = key.clone();
                p.append("=");
                p.append(s.as_str());
                Some(p)
            } else {
                None
            },
            QueryValue::Number(n) => {
                let mut p = key.clone();
                p.append("=");
                p.append(n.as_str());
                Some(p)
            },
            QueryValue::Bool(b) => {
                let mut p = key.clone();
                p.append("=");
                if *b {
                    p.append("true");
                } else {
                    p.append("false");
                }
                Some(p)
            },
            QueryValue::Other => None,
        };
        proof {
            reveal_strlit("=");
            assert(params@.take(i + 1).last() == params@[i as int]);
            if pair is Some {
                assert(query_pair(key@, *value) == Some(pair->0@));
            } else {
                assert(query_pair(key@, *value) is None);
            }
        }
        match pair {
            Some(p) => {
                assert(query_pairs(params@.take(i + 1)) == before.push(p@));
                assert(before.push(p@).drop_last() =~= before);
                if count > 0 {
                    out.append("&");
                    proof {
                        reveal_strlit("&");
                    }
                }
                out.append(p.as_str());
                count = count + 1;
            },
            None => {
                assert(query_pairs(params@.take(i + 1)) == before);
            },
        }
        i = i + 1;
    }
    assert(params@.take(params@.len() as int) =~= params@);
    if count == 0 {
        String::new()
    } else {
        let mut r = "?".to_owned();
        proof {
            reveal_strlit("?");
        }
        r.append(out.as_str());
        r
    }
}

/// The base URL of the HTTP API on `hostname` and `port`.
pub fn http_base_url(hostname: &str, port: u16) -> (r: String)
    ensures
        r@ == "http://"@ + hostname@ + seq![':'] + decimal(port as nat) + "/api"@,
{
    let mut r = "http://".to_owned();
    r.append(hostname);
    r.append(":");
    proof {
        reveal_strlit(":");
    }
    r.append(decimal_string(port as u64).as_str());
    r.append("/api");
    r
}

/// The URL of a request: the base URL, the path, and `?` with the query
/// string when there is one.
pub fn request_url(base_url: &str, path: &str, query_string: &str) -> (r: String)
    ensures
        r@ == base_url@ + path@ + if query_string@.len() == 0 {
            Seq::<char>::empty()
        } else {
            seq!['?'] + query_string@
        },
{
    let mut r = base_url.to_owned();
    r.append(path);
    if query_string.unicode_len() > 0 {
        r.append("?");
        proof {
            reveal_strlit("?");
        }
        r.append(query_string);
    } else {
        assert(r@ + Seq::<char>::empty() =~= r@);
    }
    r
}

/// Whether `url::Host::parse` accepts a text as a host.
pub uninterp spec fn host_parses(hostname: Seq<char>) -> bool;

/// `url::Host::parse(hostname).is_ok()`: whether the text is a domain name,
/// an IPv4 address or a bracketed IPv6 address. This depends on the text
/// alone, named by `host_parses`; the rules themselves are not stated.
#[verifier::external_body]
fn host_is_valid(hostname: &str) -> (r: bool)
    ensures
        r == host_parses(hostname@),
{
    url::Host::parse(hostname).is_ok()
}

/// Whether a client may be created for `hostname`: it must parse as a host.
pub fn hostname_is_valid(hostname: &str) -> (r: bool)
    ensures
        r == host_parses(hostname@),
{
    host_is_valid(hostname)
}

/// The state of the HTTP transport: the base URL of the API and the session
/// token that requests carry once a login succeeded. (The HTTP client that
/// sends the requests is held beside it.)
pub struct HttpApi {
    pub base_url: String,
    token: Option<String>,
}

impl HttpApi {
    /// The base URL of the API.
    pub closed spec fn base(&self) -> Seq<char> {
        self.base_url@
    }

    /// The session token, if one is kept.
    pub closed spec fn session(&self) -> Option<Seq<char>> {
        match self.token {
            Some(t) => Some(t@),
            None => None,
        }
    }

    /// A transport for the API on `hostname` and `port`, with no token yet.
    pub fn new(hostname: &str, port: u16) -> (r: Self)
        ensures
            r.base() == "http://"@ + hostname@ + seq![':'] + decimal(port as nat) + "/api"@,
            r.session() is None,
    {
        HttpApi { base_url: http_base_url(hostname, port), token: None }
    }

    /// Keeps `token` as the session token.
    pub fn set_token(&mut self, token: String)
        ensures
            final(self).session() == Some(token@),
            final(self).base() == old(self).base(),
    {
        self.token = Some(token);
    }

    /// The session token, if one is kept.
    pub fn get_token(&self) -> (r: Option<String>)
        ensures
            match r {
                Some(t) => self.session() == Some(t@),
                None => self.session() is None,
            },
    {
        match &self.token {
            Some(t) => Some(t.clone()),
            None => None,
        }
    }

    /// Forgets the session token.
    pub fn logout(&mut self)
        ensures
            final(self).session() is None,
            final(self).base() == old(self).base(),
    {
        self.token = None;
    }

    /// Records the answer to a login: the token it returned becomes the
    /// session token; a failed login leaves the session as it was.
    pub fn login_answered(&mut self, answer: Result<String, SdkError>) -> (r: Result<(), SdkError>)
        ensures
            final(self).base() == old(self).base(),
            match answer {
                Ok(t) => r is Ok && final(self).session() == Some(t@),
                Err(e) => r == Err::<(), SdkError>(e) && final(self).session() == old(self).session(),
            },
    {
        match answer {
            Ok(t) => {
                self.token = Some(t);
                Ok(())
            },
            Err(e) => Err(e),
        }
    }
}

/// The direct (in-process) transport. Every request it is given fails
/// with the error that [`DirectApi::unavailable`] returns.
pub struct DirectApi;

impl DirectApi {
    pub fn new(_hostname: &'static str, _port: u16) -> (r: Self) {
        DirectApi
    }

    /// Keeps no token.
    pub fn set_token(&mut self, _token: String) {
    }

    pub fn get_token(&self) -> (r: Option<String>)
        ensures
            r is None,
    {
        None
    }

    pub fn logout(&mut self) {
    }

    /// The error every request of this transport answers.
    pub fn unavailable(&self) -> (r: SdkError)
        ensures
            r matches SdkError::Internal(m) && m@ == "Direct transport not implemented yet"@,
    {
        SdkError::Internal("Direct transport not implemented yet".to_owned())
    }
}

/// The inter-process transport. Every request it is given fails with the
/// error that [`IpcApi::unavailable`] returns.
pub struct IpcApi;

impl IpcApi {
    pub fn new(_hostname: &'static str, _port: u16) -> (r: Self) {
        IpcApi
    }

    /// Keeps no token.
    pub fn set_token(&mut self, _token: String) {
    }

    pub fn get_token(&self) -> (r: Option<String>)
        ensures
            r is None,
    {
        None
    }

    pub fn logout(&mut self) {
    }

    /// The error every request of this transport answers.
    pub fn unavailable(&self) -> (r: SdkError)
        ensures
            r matches SdkError::Internal(m) && m@ == "IPC transport not implemented yet"@,
    {
        SdkError::Internal("IPC transport not implemented yet".to_owned())
    }
}

} // verus!
