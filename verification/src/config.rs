//! The application's run-time configuration.
use vstd::prelude::*;

verus! {

broadcast use vstd::string::group_string_axioms;

/// Default body capture limit: 256 KiB.
pub const DEFAULT_MAX_BODY_SIZE: usize = 262144;

/// The application's run-time configuration, persisted as `config.json`.
pub struct AppConfig {
    pub listen_addr: String,
    pub upstream_proxy: Option<String>,
    pub capture_body: bool,
    pub max_body_size: usize,
    /// Point the system proxy at the proxy while it runs, and restore it on stop.
    pub auto_system_proxy: bool,
    /// Global HTTPS MITM host patterns, one per entry, such as `*` or `*.example.com`.
    pub mitm_hosts: Vec<String>,
}

impl Default for AppConfig {
    /// Listens on all IPv4 interfaces at port 34567, no upstream proxy, bodies
    /// captured up to 256 KiB, system proxy taken over, no MITM hosts.
    fn default() -> (r: Self)
        ensures
            r.listen_addr@ == "0.0.0.0:34567"@,
            r.upstream_proxy is None,
            r.capture_body,
            r.max_body_size == 256 * 1024,
            r.auto_system_proxy,
            r.mitm_hosts@.len() == 0,
    {
        AppConfig {
            listen_addr: "0.0.0.0:34567".to_owned(),
            upstream_proxy: None,
            capture_body: true,
            max_body_size: DEFAULT_MAX_BODY_SIZE,
            auto_system_proxy: true,
            mitm_hosts: Vec::new(),
        }
    }
}

/// The text is a JSON document, as `serde_json::from_str::<serde_json::Value>`
/// reads it, whose top level is an object with a member named `key`.
pub uninterp spec fn json_has_member(text: Seq<char>, key: Seq<char>) -> bool;

/// Reads `text` with `serde_json::from_str::<serde_json::Value>` and looks
/// `key` up with `Value::get`. Claimed: the answer is the name
/// `json_has_member` of the text and the key (false where the text does not
/// read as JSON).
#[verifier::external_body]
fn json_text_has_member(text: &str, key: &str) -> (r: bool)
    ensures
        r == json_has_member(text@, key@),
{
    match serde_json::from_str::<serde_json::Value>(text) {
        Ok(value) => value.get(key).is_some(),
        Err(_) => false,
    }
}

/// Whether the configuration file holds a global MITM host list: its text
/// (`None` when it could not be read) has a top-level `mitmHosts` member.
pub fn has_mitm_hosts_config(content: Option<String>) -> (r: bool)
    ensures
        r == match content {
            Some(c) => json_has_member(c@, "mitmHosts"@),
            None => false,
        },
{
    match content {
        Some(c) => json_text_has_member(c.as_str(), "mitmHosts"),
        None => false,
    }
}

} // verus!
