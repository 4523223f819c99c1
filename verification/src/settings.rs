//! The values that callers hand in and get back: proxy settings, managed
//! targets and the platform the program runs on.

use vstd::prelude::*;
use crate::text::chars::{chars_of, owned, push_chars, push_str, string_of};
use crate::text::numbers::{decimal, decimal_chars};

verus! {

/// The text of an optional string.
pub open spec fn opt_text(o: Option<String>) -> Option<Seq<char>> {
    match o {
        Some(s) => Some(s@),
        None => None,
    }
}

/// The text of a result that is a string either way.
pub open spec fn text_result(r: Result<String, String>) -> Result<Seq<char>, Seq<char>> {
    match r {
        Ok(s) => Ok(s@),
        Err(e) => Err(e@),
    }
}

/// A copy of an optional string.
pub fn copy_opt(o: &Option<String>) -> (r: Option<String>)
    ensures
        opt_text(r) == opt_text(*o),
{
    match o {
        Some(s) => Some(owned(s.as_str())),
        None => None,
    }
}

/// The family of operating systems that decides where configuration lives.
#[derive(Clone, Copy, Debug, PartialEq, Eq, Structural)]
pub enum Platform {
    Windows,
    MacOs,
    Other,
}

/// The proxy addresses to write into a target's configuration.
#[derive(Debug, Clone, PartialEq, Eq)]
pub struct ProxySettings {
    pub http_proxy: String,
    pub https_proxy: String,
    pub no_proxy: String,
}

/// What a `ProxySettings` holds, as texts.
pub struct ProxySettingsView {
    pub http_proxy: Seq<char>,
    pub https_proxy: Seq<char>,
    pub no_proxy: Seq<char>,
}

impl View for ProxySettings {
    type V = ProxySettingsView;

    open spec fn view(&self) -> ProxySettingsView {
        ProxySettingsView {
            http_proxy: self.http_proxy@,
            https_proxy: self.https_proxy@,
            no_proxy: self.no_proxy@,
        }
    }
}

/// The hosts that never go through a proxy.
pub open spec fn no_proxy_hosts() -> Seq<char> {
    "localhost,127.0.0.1,::1"@
}

impl Default for ProxySettings {
    /// A local proxy on port 7890 for both schemes.
    fn default() -> (r: ProxySettings)
        ensures
            r@.http_proxy == "http://127.0.0.1:7890"@,
            r@.https_proxy == "http://127.0.0.1:7890"@,
            r@.no_proxy == no_proxy_hosts(),
    {
        ProxySettings {
            http_proxy: owned("http://127.0.0.1:7890"),
            https_proxy: owned("http://127.0.0.1:7890"),
            no_proxy: owned("localhost,127.0.0.1,::1"),
        }
    }
}

/// The address of the HTTP proxy at `host` and `port`.
pub open spec fn proxy_url(host: Seq<char>, port: u16) -> Seq<char> {
    "http://"@ + host + ":"@ + decimal(port as nat)
}

/// The settings that send both schemes through the HTTP proxy at `host` and
/// `port`, and the local hosts round it.
pub open spec fn settings_for(host: Seq<char>, port: u16) -> ProxySettingsView {
    ProxySettingsView {
        http_proxy: proxy_url(host, port),
        https_proxy: proxy_url(host, port),
        no_proxy: no_proxy_hosts(),
    }
}

fn proxy_address(host: &str, port: u16) -> (r: String)
    ensures
        r@ == proxy_url(host@, port),
{
    let mut out = chars_of("http://");
    push_str(&mut out, host);
    push_str(&mut out, ":");
    push_chars(&mut out, &decimal_chars(port as u32));
    string_of(&out)
}

/// The settings for the HTTP proxy at `host` and `port`.
pub fn proxy_settings_for(host: &str, port: u16) -> (r: ProxySettings)
    ensures
        r@ == settings_for(host@, port),
{
    ProxySettings {
        http_proxy: proxy_address(host, port),
        https_proxy: proxy_address(host, port),
        no_proxy: owned("localhost,127.0.0.1,::1"),
    }
}

/// One managed target as the presentation layer sees it.
#[derive(Debug, Clone, PartialEq, Eq)]
pub struct SoftwareConfig {
    pub name: String,
    /// `"ini"`, `"json"`, `"xml"` or `"env"`.
    pub config_type: String,
    pub enabled: bool,
    pub installed: bool,
    pub config_path: Option<String>,
    pub is_custom: bool,
}

/// What a `SoftwareConfig` holds, as texts.
pub struct SoftwareConfigView {
    pub name: Seq<char>,
    pub config_type: Seq<char>,
    pub enabled: bool,
    pub installed: bool,
    pub config_path: Option<Seq<char>>,
    pub is_custom: bool,
}

impl View for SoftwareConfig {
    type V = SoftwareConfigView;

    open spec fn view(&self) -> SoftwareConfigView {
        SoftwareConfigView {
            name: self.name@,
            config_type: self.config_type@,
            enabled: self.enabled,
            installed: self.installed,
            config_path: opt_text(self.config_path),
            is_custom: self.is_custom,
        }
    }
}

} // verus!
