//! The generated XML document of the IDE's proxy settings. The document is
//! written anew from a host and a port; nothing of an earlier document is
//! kept.

use vstd::prelude::*;
use crate::seqs::views;
use crate::settings::ProxySettings;
use crate::text::chars::{chars_of, owned, push_chars, push_str, string_of};
use crate::text::lines::{split, split_chars};
use crate::text::numbers::{decimal, decimal_chars, parse_u16, parse_unsigned};
use crate::text::search::{begins_with, starts_with, strip_prefix_chars, without_prefix};

verus! {

/// The message for an address that does not hold exactly one colon after
/// its scheme.
pub open spec fn bad_address() -> Seq<char> {
    "无效的代理地址格式"@
}

/// The message for a port that is no number from 0 to 65535.
pub open spec fn bad_port() -> Seq<char> {
    "无效的端口号"@
}

/// `url` without its scheme: what follows one leading `http://` or one
/// leading `https://`, and `url` itself where it begins with neither. A
/// scheme that stands there twice is cut once.
pub open spec fn address(url: Seq<char>) -> Seq<char> {
    if starts_with(url, "http://"@) {
        without_prefix(url, "http://"@)
    } else {
        without_prefix(url, "https://"@)
    }
}

/// The host and the port that `url` names. The address after the one
/// optional scheme must hold exactly one colon; the host stands before it,
/// as it is, and the port after it, a number from 0 to 65535.
pub open spec fn parsed_proxy(url: Seq<char>) -> Result<(Seq<char>, nat), Seq<char>> {
    let parts = split(address(url), ':');
    if parts.len() != 2 {
        Err(bad_address())
    } else {
        match parse_unsigned(parts[1], 0xffff) {
            Some(port) => Ok((parts[0], port)),
            None => Err(bad_port()),
        }
    }
}

/// What a parsed proxy address holds, as a text and a number.
pub open spec fn proxy_result(r: Result<(String, u16), String>) -> Result<
    (Seq<char>, nat),
    Seq<char>,
> {
    match r {
        Ok((host, port)) => Ok((host@, port as nat)),
        Err(e) => Err(e@),
    }
}

/// The host and the port that `url` names.
pub fn parse_proxy_url(url: &str) -> (r: Result<(String, u16), String>)
    ensures
        proxy_result(r) == parsed_proxy(url@),
{
    let text = chars_of(url);
    let plain = chars_of("http://");
    let rest = if begins_with(&text, &plain) {
        strip_prefix_chars(&text, &plain)
    } else {
        strip_prefix_chars(&text, &chars_of("https://"))
    };
    let parts = split_chars(&rest, ':');
    assert(views(parts@).len() == parts.len());
    if parts.len() != 2 {
        return Err(owned("无效的代理地址格式"));
    }
    assert(views(parts@)[0] == parts@[0]@);
    assert(views(parts@)[1] == parts@[1]@);
    match parse_u16(&parts[1]) {
        Some(port) => Ok((string_of(&parts[0]), port)),
        None => Err(owned("无效的端口号")),
    }
}

/// The document that routes the IDE through the proxy at `host` and `port`.
pub open spec fn document(host: Seq<char>, port: nat) -> Seq<char> {
    "<application>\n  <component name=\"HttpConfigurable\">\n    <option name=\"USE_HTTP_PROXY\" value=\"true\"/>\n    <option name=\"PROXY_HOST\" value=\""@
        + host + "\"/>\n    <option name=\"PROXY_PORT\" value=\""@ + decimal(port)
        + "\"/>\n  </component>\n</application>"@
}

/// The document for the proxy that `http_proxy` names, or the reason why it
/// names none.
pub open spec fn apply(http_proxy: Seq<char>) -> Result<Seq<char>, Seq<char>> {
    match parsed_proxy(http_proxy) {
        Ok((host, port)) => Ok(document(host, port)),
        Err(e) => Err(e),
    }
}

/// The document that routes the IDE through the proxy at `host` and `port`.
pub fn proxy_document(host: &str, port: u16) -> (r: String)
    ensures
        r@ == document(host@, port as nat),
{
    let mut out = chars_of(
        "<application>\n  <component name=\"HttpConfigurable\">\n    <option name=\"USE_HTTP_PROXY\" value=\"true\"/>\n    <option name=\"PROXY_HOST\" value=\"",
    );
    push_str(&mut out, host);
    push_str(&mut out, "\"/>\n    <option name=\"PROXY_PORT\" value=\"");
    push_chars(&mut out, &decimal_chars(port as u32));
    push_str(&mut out, "\"/>\n  </component>\n</application>");
    string_of(&out)
}

/// The document for the HTTP proxy of `settings`, or the reason why its
/// address names no host and port.
pub fn set_idea_proxy(settings: &ProxySettings) -> (r: Result<String, String>)
    ensures
        crate::settings::text_result(r) == apply(settings@.http_proxy),
{
    match parse_proxy_url(settings.http_proxy.as_str()) {
        Ok((host, port)) => Ok(proxy_document(host.as_str(), port)),
        Err(e) => Err(e),
    }
}

} // verus!
