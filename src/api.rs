//! The provider's HTTP interface: where requests go, what they carry, and
//! what a response status means.
use vstd::prelude::*;

verus! {

/// Base of every endpoint of the provider's DNS API.
pub const API_BASE: &'static str = "https://api.porkbun.com/api/json/v3/dns/";

/// A service that answers a GET with the caller's public address as plain text.
pub const IP_ECHO_URL: &'static str = "https://ifconfig.me/ip";

/// The two keys that authenticate every request.
pub struct Credentials {
    pub secret_api_key: String,
    pub api_key: String,
}

impl Credentials {
    pub fn new(secret_api_key: String, api_key: String) -> (r: Credentials)
        ensures
            r.secret_api_key == secret_api_key,
            r.api_key == api_key,
    {
        Credentials { secret_api_key, api_key }
    }
}

/// What an update request achieved, as the provider's status tells it.
#[derive(PartialEq, Eq, Structural, Debug, Clone, Copy)]
pub enum Outcome {
    Unchanged,
    Updated,
}

pub open spec fn is_success(status: u16) -> bool {
    200 <= status && status < 300
}

/// Any 2xx status means the record was updated; any other status means it was
/// not. The provider answers an update to the address a record already holds
/// with an error status, so a rejected update is reported as unchanged too.
pub fn outcome_of_status(status: u16) -> (r: Outcome)
    ensures
        r == (if is_success(status) {
            Outcome::Updated
        } else {
            Outcome::Unchanged
        }),
{
    if 200 <= status && status < 300 {
        Outcome::Updated
    } else {
        Outcome::Unchanged
    }
}

/// The JSON string literal that stands for `s`.
pub uninterp spec fn json_quoted(s: Seq<char>) -> Seq<char>;

/// Relies on serde_json::to_string: a `str` is written as one JSON string
/// literal, quotes and escapes included, which depends on the text alone.
/// Writing a `str` into a buffer in memory cannot fail.
#[verifier::external_body]
fn json_string(s: &str) -> (r: String)
    ensures
        r@ == json_quoted(s@),
{
    match serde_json::to_string(s) {
        Ok(t) => t,
        Err(_) => String::new(),
    }
}

pub open spec fn retrieve_url(site: Seq<char>) -> Seq<char> {
    API_BASE@ + "retrieve/"@ + site
}

/// The edit endpoint of the A record of `label` under `site`; an empty label
/// stands for the record of `site` itself.
pub open spec fn edit_url(site: Seq<char>, label: Seq<char>) -> Seq<char> {
    API_BASE@ + "editByNameType/"@ + site + "/A/"@ + label
}

pub open spec fn credentials_body(secret: Seq<char>, key: Seq<char>) -> Seq<char> {
    "{\"secretapikey\":"@ + json_quoted(secret) + ",\"apikey\":"@ + json_quoted(key) + "}"@
}

pub open spec fn update_body(secret: Seq<char>, key: Seq<char>, ip: Seq<char>) -> Seq<char> {
    "{\"secretapikey\":"@ + json_quoted(secret) + ",\"apikey\":"@ + json_quoted(key)
        + ",\"content\":"@ + json_quoted(ip) + "}"@
}

/// The endpoint that lists the records of `site`.
pub fn retrieve_url_for(site: &str) -> (r: String)
    ensures
        r@ == retrieve_url(site@),
{
    let mut u = String::from_str(API_BASE);
    u.append("retrieve/");
    u.append(site);
    u
}

/// The endpoint that edits the A record of `label` under `site`.
pub fn edit_url_for(site: &str, label: &str) -> (r: String)
    ensures
        r@ == edit_url(site@, label@),
{
    let mut u = String::from_str(API_BASE);
    u.append("editByNameType/");
    u.append(site);
    u.append("/A/");
    u.append(label);
    u
}

/// The body of a request that only authenticates.
pub fn credentials_body_for(c: &Credentials) -> (r: String)
    ensures
        r@ == credentials_body(c.secret_api_key@, c.api_key@),
{
    let mut b = String::from_str("{\"secretapikey\":");
    let q = json_string(c.secret_api_key.as_str());
    b.append(q.as_str());
    b.append(",\"apikey\":");
    let q = json_string(c.api_key.as_str());
    b.append(q.as_str());
    b.append("}");
    b
}

/// The body of a request that points a record at `ip`.
pub fn update_body_for(c: &Credentials, ip: &str) -> (r: String)
    ensures
        r@ == update_body(c.secret_api_key@, c.api_key@, ip@),
{
    let mut b = String::from_str("{\"secretapikey\":");
    let q = json_string(c.secret_api_key.as_str());
    b.append(q.as_str());
    b.append(",\"apikey\":");
    let q = json_string(c.api_key.as_str());
    b.append(q.as_str());
    b.append(",\"content\":");
    let q = json_string(ip);
    b.append(q.as_str());
    b.append("}");
    b
}

} // verus!
