//! The JSON dialect of editor settings: one object whose member
//! `http.proxy` holds the proxy.

use vstd::prelude::*;
use crate::outside::{parse_document, parsed_document, render_object, rendered_object};
use crate::pairs::{
    lemma_lookup_with, lemma_lookup_without, lemma_without_absent, lemma_without_with, lookup,
    remove_key, set_key, with_entry, without_key,
};
use crate::seqs::{lemma_views_push, views};
use crate::settings::{text_result, ProxySettings};
use crate::text::chars::owned;

verus! {

/// A JSON value that is no string, kept as the parser made it.
pub struct RawJson {
    pub(crate) value: serde_json::Value,
}

/// The value of one member of a JSON object.
pub enum JsonValue {
    /// A string.
    Text(String),
    /// Any other value.
    Other(RawJson),
}

/// What a `JsonValue` holds: the text of a string, or the other value
/// itself.
pub enum JsonValueView {
    Text(Seq<char>),
    Other(RawJson),
}

impl View for JsonValue {
    type V = JsonValueView;

    open spec fn view(&self) -> JsonValueView {
        match self {
            JsonValue::Text(text) => JsonValueView::Text(text@),
            JsonValue::Other(raw) => JsonValueView::Other(*raw),
        }
    }
}

/// The members of a JSON object as a model: pairs of key and value, in
/// order.
pub type Members = Seq<(Seq<char>, JsonValueView)>;

/// A JSON object: its members in order.
pub struct JsonObject {
    pub(crate) members: Vec<(String, JsonValue)>,
}

impl View for JsonObject {
    type V = Members;

    closed spec fn view(&self) -> Members {
        views(self.members@)
    }
}

/// The key under which the editors keep the proxy.
pub open spec fn proxy_key() -> Seq<char> {
    "http.proxy"@
}

/// The members whose value is a string, as pairs of key and text, in their
/// order.
pub open spec fn text_members(members: Members) -> Seq<(Seq<char>, Seq<char>)>
    decreases members.len(),
{
    if members.len() == 0 {
        Seq::empty()
    } else {
        let rest = text_members(members.drop_last());
        match members.last().1 {
            JsonValueView::Text(text) => rest.push((members.last().0, text)),
            JsonValueView::Other(_) => rest,
        }
    }
}

/// What a text holds as JSON.
pub enum ParsedJson {
    /// An object.
    Object(JsonObject),
    /// A document that is no object: an array, a number, a string, a truth
    /// value or `null`.
    Other,
    /// No JSON document.
    Invalid,
}

/// What a `ParsedJson` holds: of an object its members.
pub enum ParsedJsonView {
    Object(Members),
    Other,
    Invalid,
}

impl View for ParsedJson {
    type V = ParsedJsonView;

    open spec fn view(&self) -> ParsedJsonView {
        match self {
            ParsedJson::Object(object) => ParsedJsonView::Object(object@),
            ParsedJson::Other => ParsedJsonView::Other,
            ParsedJson::Invalid => ParsedJsonView::Invalid,
        }
    }
}

/// The members that `text` stands for: those of the object it holds, and
/// none where it holds no object.
pub open spec fn members_of(text: Seq<char>) -> Members {
    match parsed_document(text) {
        ParsedJsonView::Object(members) => members,
        _ => Seq::empty(),
    }
}

/// Whether `text` holds a JSON document that is no object.
pub open spec fn holds_other_document(text: Seq<char>) -> bool {
    parsed_document(text) is Other
}

impl JsonObject {
    /// The object without members.
    pub fn new() -> (r: JsonObject)
        ensures
            r@ == Members::empty(),
    {
        let r = JsonObject { members: Vec::new() };
        assert(r@ =~= Members::empty());
        r
    }

    /// The object that `text` holds, or the object without members where
    /// `text` holds none.
    pub fn parse(text: &str) -> (r: JsonObject)
        ensures
            r@ == members_of(text@),
    {
        match parse_document(text) {
            ParsedJson::Object(object) => object,
            _ => JsonObject::new(),
        }
    }

    /// The pretty-printed text of the object, or the printer's error.
    pub fn render(&self) -> (r: Result<String, String>)
        ensures
            text_result(r) == rendered_object(self@),
    {
        render_object(self)
    }

    /// The number of members.
    pub fn len(&self) -> (n: usize)
        ensures
            n == self@.len(),
    {
        self.members.len()
    }

    /// Takes every member with the key `key` out.
    pub fn remove(&mut self, key: &str)
        ensures
            final(self)@ == without_key(old(self)@, key@),
    {
        remove_key(&mut self.members, key);
    }

    /// Sets the member `key` to the string `value`.
    pub fn set_text(&mut self, key: &str, value: &str)
        ensures
            final(self)@ == with_entry(old(self)@, key@, JsonValueView::Text(value@)),
    {
        set_key(&mut self.members, owned(key), JsonValue::Text(owned(value)));
    }

    /// The members whose value is a string, as pairs of key and text.
    pub fn texts(&self) -> (r: Vec<(String, String)>)
        ensures
            views(r@) == text_members(self@),
    {
        let ghost all = self@;
        let mut r: Vec<(String, String)> = Vec::new();
        let mut i: usize = 0;
        assert(all.take(0) =~= Members::empty());
        assert(views(r@) =~= text_members(all.take(0)));
        while i < self.members.len()
            invariant
                i <= self.members.len(),
                all == views(self.members@),
                views(r@) == text_members(all.take(i as int)),
            decreases self.members.len() - i,
        {
            proof {
                assert(all.take(i + 1).drop_last() =~= all.take(i as int));
                assert(all.take(i + 1).last() == self.members@[i as int]@);
            }
            let ghost before = r@;
            match &self.members[i].1 {
                JsonValue::Text(text) => {
                    let pair = (owned(self.members[i].0.as_str()), owned(text.as_str()));
                    r.push(pair);
                    proof {
                        lemma_views_push(before, pair);
                    }
                },
                JsonValue::Other(_) => {},
            }
            i += 1;
        }
        assert(all.take(self.members.len() as int) =~= all);
        r
    }
}

/// The members that the content of a settings file stands for; a file that
/// does not exist stands for none.
pub open spec fn settings_of(content: Option<Seq<char>>) -> Members {
    match content {
        Some(text) => members_of(text),
        None => Seq::empty(),
    }
}

/// The settings with the proxy set to `http_proxy`: the member `http.proxy`
/// holds it as a string, and every other member is as it was.
pub open spec fn with_proxy(members: Members, http_proxy: Seq<char>) -> Members {
    with_entry(members, proxy_key(), JsonValueView::Text(http_proxy))
}

/// The settings without the proxy: no member `http.proxy`, and every other
/// member as it was.
pub open spec fn without_proxy(members: Members) -> Members {
    without_key(members, proxy_key())
}

/// The settings that `content` holds with the proxy set to `http_proxy`,
/// pretty-printed. Content that holds no JSON object counts as an object
/// without members.
pub open spec fn apply(content: Option<Seq<char>>, http_proxy: Seq<char>) -> Result<
    Seq<char>,
    Seq<char>,
> {
    rendered_object(with_proxy(settings_of(content), http_proxy))
}

/// The settings that `content` holds without the proxy, pretty-printed. A
/// document that is no object has no member to take out and stays as it is,
/// to the letter; text that is no JSON document counts as an object without
/// members.
pub open spec fn strip(content: Seq<char>) -> Result<Seq<char>, Seq<char>> {
    if holds_other_document(content) {
        Ok(content)
    } else {
        rendered_object(without_proxy(members_of(content)))
    }
}

/// Sets the proxy in the settings.
pub fn set_proxy(object: &mut JsonObject, http_proxy: &str)
    ensures
        final(object)@ == with_proxy(old(object)@, http_proxy@),
{
    object.set_text("http.proxy", http_proxy);
}

/// Takes the proxy out of the settings.
pub fn clear_proxy(object: &mut JsonObject)
    ensures
        final(object)@ == without_proxy(old(object)@),
{
    object.remove("http.proxy");
}

/// The settings file with the proxy of `settings` set, or the printer's
/// error. `content` is what the file holds, `None` where there is no file.
pub fn set_json_proxy(content: &Option<String>, settings: &ProxySettings) -> (r: Result<
    String,
    String,
>)
    ensures
        text_result(r) == apply(crate::settings::opt_text(*content), settings@.http_proxy),
{
    let mut object = match content {
        Some(text) => JsonObject::parse(text.as_str()),
        None => JsonObject::new(),
    };
    set_proxy(&mut object, settings.http_proxy.as_str());
    object.render()
}

/// `content` without the proxy, or the printer's error.
pub fn clear_json_proxy(content: &str) -> (r: Result<String, String>)
    ensures
        text_result(r) == strip(content@),
{
    let mut object = match parse_document(content) {
        ParsedJson::Object(object) => object,
        ParsedJson::Other => {
            return Ok(owned(content));
        },
        ParsedJson::Invalid => JsonObject::new(),
    };
    clear_proxy(&mut object);
    object.render()
}

/// Setting the proxy twice to the same address gives what setting it once
/// gives.
pub proof fn law_set_proxy_twice(members: Members, http_proxy: Seq<char>)
    ensures
        with_proxy(with_proxy(members, http_proxy), http_proxy) == with_proxy(members, http_proxy),
{
    lemma_without_with(members, proxy_key(), JsonValueView::Text(http_proxy));
}

/// Taking the proxy out after setting it gives what taking it out alone
/// gives; settings that held no proxy come back as they were.
pub proof fn law_clear_after_set(members: Members, http_proxy: Seq<char>)
    ensures
        without_proxy(with_proxy(members, http_proxy)) == without_proxy(members),
        lookup(members, proxy_key()) is None ==> without_proxy(with_proxy(members, http_proxy))
            == members,
{
    lemma_without_with(members, proxy_key(), JsonValueView::Text(http_proxy));
    if lookup(members, proxy_key()) is None {
        lemma_without_absent(members, proxy_key());
    }
}

/// Setting the proxy and taking it out touch the member `http.proxy` and no
/// other: every other key has the value it had.
pub proof fn law_other_members_untouched(members: Members, http_proxy: Seq<char>, key: Seq<char>)
    requires
        key != proxy_key(),
    ensures
        lookup(with_proxy(members, http_proxy), key) == lookup(members, key),
        lookup(without_proxy(members), key) == lookup(members, key),
        lookup(with_proxy(members, http_proxy), proxy_key()) == Some(
            JsonValueView::Text(http_proxy),
        ),
        lookup(without_proxy(members), proxy_key()) is None,
{
    lemma_lookup_with(members, proxy_key(), JsonValueView::Text(http_proxy), key);
    lemma_lookup_without(members, proxy_key(), key);
}

/// Strip after apply gives what strip alone gives, where the text that the
/// printer wrote is read back as the object that was printed. A document
/// that is no object is left out: apply replaces it by an object.
pub proof fn law_strip_after_apply(content: Seq<char>, http_proxy: Seq<char>)
    requires
        !holds_other_document(content),
        apply(Some(content), http_proxy) matches Ok(text) ==> parsed_document(text)
            == ParsedJsonView::Object(with_proxy(members_of(content), http_proxy)),
    ensures
        apply(Some(content), http_proxy) matches Ok(text) ==> strip(text) == strip(content),
{
    law_clear_after_set(members_of(content), http_proxy);
}

} // verus!
