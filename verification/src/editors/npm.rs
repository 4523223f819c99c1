//! The flat key-value dialect of npm's configuration.

use vstd::prelude::*;
use crate::seqs::{lemma_filter_empty, lemma_filter_push, views};
use crate::settings::ProxySettings;
use crate::text::chars::{
    chars_of, is_blank, is_space, lemma_trim_end, lemma_trim_end_blank_tail,
    lemma_trim_end_keeps_prefix, lemma_trim_end_twice, lemma_trim_end_visible, lemma_trim_start,
    lemma_trim_start_blank_head, lemma_trim_start_empty, lemma_trim_start_visible, push_chars,
    push_str, string_of, trim, trim_chars, trim_end, trim_start,
};
use crate::text::lines::{
    ends_in_return, first_index, joined, lemma_first_index, lemma_joined_keeps_returns,
    lemma_joined_lines, lemma_joined_terminated, lemma_lines_concat, lemma_lines_hold_no_feed,
    lemma_lines_single, lemma_lines_terminated, lemma_lines_unterminated, lemma_returns_kept_skip,
    lines, no_line_ends_in_return, returns_kept, single_line, split_lines, whole_line, without_cr,
};
use crate::text::search::{begins_with, fold_chars, folded, starts_with};

verus! {

/// Whether `line` sets a proxy: trimmed and in lower case, it starts with
/// `proxy=` or `https-proxy=`.
pub open spec fn sets_proxy(line: Seq<char>) -> bool {
    let t = folded(trim(line));
    starts_with(t, "proxy="@) || starts_with(t, "https-proxy="@)
}

/// The lines of `ls` that set no proxy, in their order.
pub open spec fn kept(ls: Seq<Seq<char>>) -> Seq<Seq<char>> {
    ls.filter(|line: Seq<char>| !sets_proxy(line))
}

/// `content` without the lines that set a proxy; a line feed stands between
/// each two lines that stay, and none after the last.
pub open spec fn strip_lines(content: Seq<char>) -> Seq<char> {
    joined(kept(lines(content)))
}

/// `content` without the lines that set a proxy and without white space at
/// either end.
pub open spec fn strip(content: Seq<char>) -> Seq<char> {
    trim(strip_lines(content))
}

/// The two lines that set the proxy.
pub open spec fn proxy_lines(http_proxy: Seq<char>, https_proxy: Seq<char>) -> Seq<char> {
    "\nproxy="@ + http_proxy + "\n"@ + "https-proxy="@ + https_proxy + "\n"@
}

/// `content` with the proxy set: its proxy lines are taken out, the two new
/// ones follow what is left, and the white space at either end of the whole
/// is cut off.
pub open spec fn apply(content: Seq<char>, http_proxy: Seq<char>, https_proxy: Seq<char>) -> Seq<
    char,
> {
    trim(strip_lines(content) + proxy_lines(http_proxy, https_proxy))
}

fn line_sets_proxy(line: &Vec<char>) -> (r: bool)
    ensures
        r == sets_proxy(line@),
{
    let t = fold_chars(&trim_chars(line));
    let plain = chars_of("proxy=");
    let secure = chars_of("https-proxy=");
    begins_with(&t, &plain) || begins_with(&t, &secure)
}

/// Joining one more line puts a line feed before it, unless it is the first.
proof fn lemma_joined_push(ls: Seq<Seq<char>>, line: Seq<char>)
    ensures
        joined(ls.push(line)) == if ls.len() == 0 {
            line
        } else {
            joined(ls) + seq!['\n'] + line
        },
    decreases ls.len(),
{
    let more = ls.push(line);
    if ls.len() == 0 {
    } else {
        assert(more.drop_first() == ls.drop_first().push(line));
        lemma_joined_push(ls.drop_first(), line);
        assert(more[0] == ls[0]);
        if ls.len() == 1 {
            assert(joined(more) == ls[0] + seq!['\n'] + line);
        } else {
            let tail = joined(ls.drop_first());
            assert(joined(more) == ls[0] + seq!['\n'] + (tail + seq!['\n'] + line));
            assert(ls[0] + seq!['\n'] + (tail + seq!['\n'] + line) =~= ls[0] + seq!['\n'] + tail
                + seq!['\n'] + line);
        }
    }
}

/// `content` without the lines that set a proxy.
pub fn remove_npm_proxy_lines(content: &str) -> (r: String)
    ensures
        r@ == strip_lines(content@),
{
    let text = chars_of(content);
    let ls = split_lines(&text);
    let ghost all = lines(content@);
    let mut out: Vec<char> = Vec::new();
    let mut first = true;
    let mut i: usize = 0;
    assert(all.take(0) == Seq::<Seq<char>>::empty());
    proof {
        lemma_filter_empty(|line: Seq<char>| !sets_proxy(line));
    }
    while i < ls.len()
        invariant
            i <= ls.len(),
            views(ls@) == all,
            out@ == joined(kept(all.take(i as int))),
            first == (kept(all.take(i as int)).len() == 0),
        decreases ls.len() - i,
    {
        proof {
            assert(all.take(i + 1) == all.take(i as int).push(all[i as int]));
            assert(all[i as int] == ls@[i as int]@);
            lemma_filter_push(all.take(i as int), all[i as int], |line: Seq<char>| !sets_proxy(line));
            lemma_joined_push(kept(all.take(i as int)), all[i as int]);
        }
        if !line_sets_proxy(&ls[i]) {
            if !first {
                out.push('\n');
            }
            push_chars(&mut out, &ls[i]);
            first = false;
        }
        i += 1;
    }
    assert(all.take(ls.len() as int) == all);
    string_of(&out)
}

/// `content` without the lines that set a proxy, trimmed.
pub fn clear_npm_proxy(content: &str) -> (r: String)
    ensures
        r@ == strip(content@),
{
    let stripped = remove_npm_proxy_lines(content);
    let out = chars_of(stripped.as_str());
    string_of(&trim_chars(&out))
}

/// `content` with the proxy of `settings` set.
pub fn set_npm_proxy(content: &str, settings: &ProxySettings) -> (r: String)
    ensures
        r@ == apply(content@, settings@.http_proxy, settings@.https_proxy),
{
    let stripped = remove_npm_proxy_lines(content);
    let mut out = chars_of(stripped.as_str());
    push_str(&mut out, "\nproxy=");
    push_str(&mut out, settings.http_proxy.as_str());
    push_str(&mut out, "\n");
    push_str(&mut out, "https-proxy=");
    push_str(&mut out, settings.https_proxy.as_str());
    push_str(&mut out, "\n");
    assert(out@ == strip_lines(content@) + proxy_lines(
        settings@.http_proxy,
        settings@.https_proxy,
    ));
    string_of(&trim_chars(&out))
}

/// What is kept of two lists of lines in a row is what is kept of the one,
/// then what is kept of the other.
proof fn lemma_kept_concat(a: Seq<Seq<char>>, b: Seq<Seq<char>>)
    ensures
        kept(a + b) == kept(a) + kept(b),
    decreases b.len(),
{
    let keep = |line: Seq<char>| !sets_proxy(line);
    if b.len() == 0 {
        lemma_filter_empty(keep);
        assert(a + b == a);
        assert(kept(a) + Seq::<Seq<char>>::empty() == kept(a));
    } else {
        let front = b.drop_last();
        assert(b == front.push(b.last()));
        assert(a + b == (a + front).push(b.last()));
        lemma_kept_concat(a, front);
        lemma_filter_push(a + front, b.last(), keep);
        lemma_filter_push(front, b.last(), keep);
        assert(kept(a) + kept(front).push(b.last()) == (kept(a) + kept(front)).push(b.last()));
    }
}

/// A line that begins with `key`, a key that ends in `=` and holds neither
/// white space nor capital letters, begins with it after trimming and
/// folding as well.
proof fn lemma_setting_line(key: Seq<char>, value: Seq<char>)
    requires
        key.len() > 0,
        key.last() == '=',
        forall|k: int| 0 <= k < key.len() ==> !is_space_or_capital(key[k]),
    ensures
        starts_with(folded(trim(without_cr(key + value))), key),
{
    let line = without_cr(key + value);
    assert(line.len() >= key.len());
    assert forall|k: int| 0 <= k < key.len() implies line[k] == key[k] by {
        assert((key + value)[k] == key[k]);
    }
    assert(!is_space_or_capital(key[0]));
    assert(!is_space_or_capital(key[key.len() - 1]));
    assert(trim_start(line) == line);
    lemma_trim_end_keeps_prefix(line, key.len() as int);
    let t = trim(line);
    assert(t.take(key.len() as int) == line.take(key.len() as int));
    assert forall|k: int| 0 <= k < key.len() implies folded(t)[k] == key[k] by {
        assert(t[k] == t.take(key.len() as int)[k]);
        assert(line.take(key.len() as int)[k] == line[k]);
        assert(!is_space_or_capital(key[k]));
    }
    assert(folded(t).take(key.len() as int) =~= key);
}

/// Whether `c` is white space or an ASCII capital letter.
pub open spec fn is_space_or_capital(c: char) -> bool {
    crate::text::chars::is_space(c) || ('A' <= c && c <= 'Z')
}

/// Whether no line of `ls` sets a proxy.
pub open spec fn all_kept(ls: Seq<Seq<char>>) -> bool {
    forall|i: int| 0 <= i < ls.len() ==> !sets_proxy(#[trigger] ls[i])
}

/// Lines of which none sets a proxy are all kept.
proof fn lemma_kept_all(ls: Seq<Seq<char>>)
    requires
        all_kept(ls),
    ensures
        kept(ls) == ls,
    decreases ls.len(),
{
    let keep = |line: Seq<char>| !sets_proxy(line);
    if ls.len() == 0 {
        lemma_filter_empty(keep);
        assert(ls =~= Seq::<Seq<char>>::empty());
    } else {
        let front = ls.drop_last();
        assert forall|i: int| 0 <= i < front.len() implies !sets_proxy(#[trigger] front[i]) by {
            assert(front[i] == ls[i]);
        }
        lemma_kept_all(front);
        assert(ls == front.push(ls.last()));
        assert(!sets_proxy(ls[ls.len() - 1]));
        lemma_filter_push(front, ls.last(), keep);
    }
}

/// What is kept sets no proxy, and is among the lines it was kept of.
proof fn lemma_kept_are_lines(ls: Seq<Seq<char>>)
    ensures
        all_kept(kept(ls)),
        forall|i: int|
            0 <= i < kept(ls).len() ==> exists|j: int|
                0 <= j < ls.len() && ls[j] == #[trigger] kept(ls)[i],
    decreases ls.len(),
{
    let keep = |line: Seq<char>| !sets_proxy(line);
    if ls.len() == 0 {
        lemma_filter_empty(keep);
    } else {
        let front = ls.drop_last();
        lemma_kept_are_lines(front);
        assert(ls == front.push(ls.last()));
        lemma_filter_push(front, ls.last(), keep);
        assert forall|i: int| 0 <= i < kept(ls).len() implies exists|j: int|
            0 <= j < ls.len() && ls[j] == #[trigger] kept(ls)[i] by {
            if i < kept(front).len() {
                assert(kept(ls)[i] == kept(front)[i]);
                let j = choose|j: int| 0 <= j < front.len() && front[j] == kept(front)[i];
                assert(ls[j] == front[j]);
            } else {
                assert(ls[ls.len() - 1] == kept(ls)[i]);
            }
        }
        assert forall|i: int| 0 <= i < kept(ls).len() implies !sets_proxy(
            #[trigger] kept(ls)[i],
        ) by {
            if i < kept(front).len() {
                assert(kept(ls)[i] == kept(front)[i]);
            }
        }
    }
}

/// Cutting the white space off the front of a text takes no line that sets
/// a proxy in: leading white space does not decide whether a line does.
proof fn lemma_trimmed_lines_kept(y: Seq<char>)
    requires
        returns_kept(y),
        all_kept(lines(y + seq!['\n'])),
    ensures
        all_kept(lines(trim_start(y) + seq!['\n'])),
    decreases y.len(),
{
    let feed = seq!['\n'];
    if y.len() > 0 && is_space(y[0]) {
        let rest = y.drop_first();
        let whole = y + feed;
        let shorter = rest + feed;
        assert(whole.drop_first() == shorter);
        assert(rest == y.skip(1));
        lemma_returns_kept_skip(y, 1);
        lemma_first_index(whole, '\n');
        lemma_first_index(shorter, '\n');
        let i = first_index(whole, '\n') as int;
        assert(whole[whole.len() - 1] == '\n');
        assert(shorter[shorter.len() - 1] == '\n');
        assert(i < whole.len()) by {
            if i >= whole.len() {
                assert(whole[whole.len() - 1] != '\n');
            }
        }
        if y[0] == '\n' {
            assert(i == 0);
            assert(whole.skip(1) == shorter);
            assert(lines(whole) == seq![without_cr(whole.take(0))] + lines(shorter));
            assert forall|k: int| 0 <= k < lines(shorter).len() implies !sets_proxy(
                #[trigger] lines(shorter)[k],
            ) by {
                assert(lines(whole)[k + 1] == lines(shorter)[k]);
            }
        } else {
            assert(first_index(shorter, '\n') == i - 1);
            assert(i - 1 < shorter.len());
            let line = whole.take(i);
            let cut = shorter.take(i - 1);
            assert(cut == line.drop_first());
            assert(whole.skip(i + 1) == shorter.skip(i));
            let more = lines(whole.skip(i + 1));
            assert(lines(whole) == seq![without_cr(line)] + more);
            assert(lines(shorter) == seq![without_cr(cut)] + more);
            assert(y[i - 1] != '\r') by {
                if i < y.len() {
                    assert(y[i] == whole[i]);
                }
            }
            assert(without_cr(line) == line) by {
                assert(line.last() == y[i - 1]);
            }
            assert(without_cr(cut) == cut) by {
                if cut.len() > 0 {
                    assert(cut.last() == y[i - 1]);
                }
            }
            assert(line[0] == y[0]);
            assert(trim_start(line) == trim_start(cut));
            assert(lines(whole)[0] == line);
            assert(!sets_proxy(line));
            assert forall|k: int| 0 <= k < lines(shorter).len() implies !sets_proxy(
                #[trigger] lines(shorter)[k],
            ) by {
                if k > 0 {
                    assert(lines(whole)[k] == more[k - 1]);
                    assert(lines(shorter)[k] == more[k - 1]);
                }
            }
        }
        lemma_trimmed_lines_kept(rest);
    }
}

/// The two lines that set the proxy, without the line feed before them.
pub open spec fn proxy_tail(http_proxy: Seq<char>, https_proxy: Seq<char>) -> Seq<char> {
    "proxy="@ + http_proxy + "\n"@ + "https-proxy="@ + https_proxy + "\n"@
}

/// A setting: a key and a value on one line.
spec fn setting(key: Seq<char>, value: Seq<char>) -> Seq<char> {
    key + value
}

/// A setting whose value is written on one line holds no line feed, where
/// its key holds none.
proof fn lemma_setting_is_one_line(key: Seq<char>, value: Seq<char>)
    requires
        single_line(value),
        single_line(key),
    ensures
        single_line(setting(key, value)),
{
    let line = setting(key, value);
    assert forall|k: int| 0 <= k < line.len() implies line[k] != '\n' by {
        if k >= key.len() {
            assert(line[k] == value[k - key.len()]);
        } else {
            assert(line[k] == key[k]);
        }
    }
}

/// The two keys: neither holds white space, a capital letter or a line
/// feed, and both end in `=`.
proof fn lemma_keys()
    ensures
        "proxy="@.len() == 6,
        "https-proxy="@.len() == 12,
        "proxy="@.last() == '=',
        "https-proxy="@.last() == '=',
        forall|k: int| 0 <= k < 6 ==> !is_space_or_capital(#[trigger] "proxy="@[k]),
        forall|k: int| 0 <= k < 12 ==> !is_space_or_capital(#[trigger] "https-proxy="@[k]),
        single_line("proxy="@),
        single_line("https-proxy="@),
{
    reveal_strlit("proxy=");
    reveal_strlit("https-proxy=");
}

/// The block of the two proxy lines is a line feed and then the two lines.
proof fn lemma_proxy_lines_shape(http_proxy: Seq<char>, https_proxy: Seq<char>)
    ensures
        proxy_lines(http_proxy, https_proxy) == seq!['\n'] + proxy_tail(http_proxy, https_proxy),
        proxy_tail(http_proxy, https_proxy) == setting("proxy="@, http_proxy) + seq!['\n']
            + setting("https-proxy="@, https_proxy) + seq!['\n'],
{
    reveal_strlit("\nproxy=");
    reveal_strlit("proxy=");
    reveal_strlit("\n");
    let feed = seq!['\n'];
    assert("\n"@ =~= feed);
    assert("\nproxy="@ =~= feed + "proxy="@);
    assert(proxy_lines(http_proxy, https_proxy) =~= feed + proxy_tail(http_proxy, https_proxy));
    assert(proxy_tail(http_proxy, https_proxy) =~= setting("proxy="@, http_proxy) + feed + setting(
        "https-proxy="@,
        https_proxy,
    ) + feed);
}

/// A setting with its back trimmed is one line that still begins with the
/// key, so it sets what the key names.
proof fn lemma_trimmed_setting(key: Seq<char>, value: Seq<char>)
    requires
        key.len() > 0,
        key.last() == '=',
        forall|k: int| 0 <= k < key.len() ==> !is_space_or_capital(#[trigger] key[k]),
        single_line(key),
        single_line(value),
    ensures
        !is_blank(setting(key, value)),
        trim_end(setting(key, value)).len() > 0,
        single_line(trim_end(setting(key, value))),
        starts_with(folded(trim(trim_end(setting(key, value)))), key),
{
    let line = setting(key, value);
    let short = trim_end(line);
    let n = key.len() as int;
    lemma_setting_is_one_line(key, value);
    assert(line[0] == key[0]);
    assert(!is_space_or_capital(key[0]));
    assert(line[n - 1] == key[n - 1]);
    assert(!is_space_or_capital(key[n - 1]));
    lemma_trim_end_keeps_prefix(line, n);
    lemma_trim_end(line);
    lemma_trim_end_twice(line);
    assert forall|k: int| 0 <= k < short.len() implies short[k] != '\n' by {
        assert(short[k] == line[k]);
    }
    assert(short[0] == line[0]);
    assert(trim_start(short) == short);
    assert(trim(short) == short);
    assert forall|k: int| 0 <= k < n implies folded(short)[k] == key[k] by {
        assert(short[k] == short.take(n)[k]);
        assert(line.take(n)[k] == line[k]);
        assert(line[k] == key[k]);
        assert(!is_space_or_capital(key[k]));
    }
    assert(folded(short).take(n) =~= key);
}

/// Nothing is kept of two lines that set a proxy.
proof fn lemma_both_dropped(one: Seq<char>, other: Seq<char>)
    requires
        sets_proxy(one),
        sets_proxy(other),
    ensures
        kept(seq![one] + seq![other]).len() == 0,
{
    let keep = |line: Seq<char>| !sets_proxy(line);
    lemma_filter_empty(keep);
    lemma_filter_push(Seq::<Seq<char>>::empty(), one, keep);
    lemma_filter_push(Seq::<Seq<char>>::empty().push(one), other, keep);
    assert(seq![one] + seq![other] =~= Seq::<Seq<char>>::empty().push(one).push(other));
}

/// The two lines that set the proxy begin with a visible character, and
/// nothing is kept of them after trimming their back.
proof fn lemma_proxy_tail(http_proxy: Seq<char>, https_proxy: Seq<char>)
    requires
        single_line(http_proxy),
        single_line(https_proxy),
    ensures
        proxy_lines(http_proxy, https_proxy) == seq!['\n'] + proxy_tail(http_proxy, https_proxy),
        !is_blank(proxy_tail(http_proxy, https_proxy)),
        trim_start(proxy_tail(http_proxy, https_proxy)) == proxy_tail(http_proxy, https_proxy),
        kept(lines(trim_end(proxy_tail(http_proxy, https_proxy)))).len() == 0,
{
    let feed = seq!['\n'];
    let first = setting("proxy="@, http_proxy);
    let second = setting("https-proxy="@, https_proxy);
    let tail = proxy_tail(http_proxy, https_proxy);
    lemma_keys();
    lemma_proxy_lines_shape(http_proxy, https_proxy);
    lemma_trimmed_setting("proxy="@, http_proxy);
    lemma_trimmed_setting("https-proxy="@, https_proxy);
    lemma_setting_is_one_line("proxy="@, http_proxy);
    assert(tail[0] == first[0]);
    assert(first[0] == "proxy="@[0]);
    assert(!is_space_or_capital("proxy="@[0]));
    assert(!is_space(tail[0]));
    assert(is_space('\n'));
    lemma_trim_end_blank_tail(first + feed + second, feed);
    lemma_trim_end_visible(first + feed, second);
    let short = trim_end(second);
    assert(trim_end(tail) == first + feed + short);
    lemma_lines_single(first);
    lemma_lines_unterminated(short);
    lemma_lines_concat(first, short);
    let l1 = without_cr(first);
    assert(lines(trim_end(tail)) == seq![l1] + seq![short]);
    lemma_setting_line("proxy="@, http_proxy);
    assert(sets_proxy(l1));
    assert(sets_proxy(short));
    lemma_both_dropped(l1, short);
}

/// Whether no line that stripping keeps of `content` ends in a carriage
/// return, which reading the lines again would drop.
pub open spec fn keeps_whole_lines(content: Seq<char>) -> bool {
    forall|i: int|
        0 <= i < kept(lines(content)).len() ==> !ends_in_return(
            #[trigger] kept(lines(content))[i],
        )
}

/// Where no line of a configuration ends in a carriage return, no line
/// that stripping keeps of it does.
pub proof fn lemma_whole_lines_are_kept_whole(content: Seq<char>)
    requires
        no_line_ends_in_return(content),
    ensures
        keeps_whole_lines(content),
{
    let all = lines(content);
    let held = kept(all);
    lemma_kept_are_lines(all);
    assert forall|i: int| 0 <= i < held.len() implies !ends_in_return(#[trigger] held[i]) by {
        let j = choose|j: int| 0 <= j < all.len() && all[j] == held[i];
        assert(!ends_in_return(all[j]));
    }
}

/// The lines that are kept are whole lines where none ends in a carriage
/// return: none holds a line feed anyway.
proof fn lemma_kept_lines_are_whole(content: Seq<char>)
    requires
        keeps_whole_lines(content),
    ensures
        forall|i: int|
            0 <= i < kept(lines(content)).len() ==> whole_line(#[trigger] kept(lines(content))[i]),
{
    let all = lines(content);
    let held = kept(all);
    lemma_kept_are_lines(all);
    assert forall|i: int| 0 <= i < held.len() implies whole_line(#[trigger] held[i]) by {
        let j = choose|j: int| 0 <= j < all.len() && all[j] == held[i];
        assert forall|k: int| 0 <= k < held[i].len() implies held[i][k] != '\n' by {
            lemma_lines_hold_no_feed(content, j, k);
        }
    }
}

/// What is kept of the lines of a configuration, joined and ended with a
/// line feed, has those lines and no others, where none of them ends in a
/// carriage return.
proof fn lemma_kept_text_lines(content: Seq<char>)
    requires
        keeps_whole_lines(content),
        kept(lines(content)).len() > 0,
    ensures
        lines(strip_lines(content) + seq!['\n']) == kept(lines(content)),
        all_kept(lines(strip_lines(content) + seq!['\n'])),
{
    let all = lines(content);
    let held = kept(all);
    lemma_kept_are_lines(all);
    lemma_joined_terminated(held);
    lemma_kept_lines_are_whole(content);
    lemma_lines_terminated(held);
}

/// Whether stripping takes both of the lines that set the proxy away.
pub open spec fn owned(http_proxy: Seq<char>, https_proxy: Seq<char>) -> bool {
    kept(lines(trim_end(proxy_tail(http_proxy, https_proxy)))).len() == 0
}

/// Whether what is kept of the configuration is stable under stripping: cut
/// free of white space at its front and ended with a line feed, it has the
/// lines that it is joined of.
pub open spec fn stable(content: Seq<char>) -> bool {
    strip_lines(trim_start(strip_lines(content)) + seq!['\n']) == trim_start(
        strip_lines(content),
    )
}

/// Both of the lines that set the proxy are taken away where both addresses
/// are written on one line.
pub proof fn lemma_proxy_lines_are_owned(http_proxy: Seq<char>, https_proxy: Seq<char>)
    requires
        single_line(http_proxy),
        single_line(https_proxy),
    ensures
        owned(http_proxy, https_proxy),
{
    lemma_proxy_tail(http_proxy, https_proxy);
}

/// What is kept of a configuration is stable where none of the lines that
/// are kept ends in a carriage return.
pub proof fn lemma_whole_lines_are_stable(content: Seq<char>)
    requires
        keeps_whole_lines(content),
    ensures
        stable(content),
{
    let feed = seq!['\n'];
    let none = Seq::<char>::empty();
    let held = strip_lines(content);
    let front = trim_start(held);
    lemma_trim_start(held);
    lemma_kept_lines_are_whole(content);
    lemma_joined_keeps_returns(kept(lines(content)));
    lemma_returns_kept_skip(held, held.len() - front.len());
    lemma_joined_lines(front);
    if kept(lines(content)).len() == 0 {
        assert(held == none);
        assert(front == none);
        assert(none + feed == feed);
        lemma_lines_single(none);
        assert(without_cr(none) == none);
        assert(trim(none) == none);
        reveal_strlit("proxy=");
        reveal_strlit("https-proxy=");
        assert(!sets_proxy(none));
        assert(all_kept(seq![none]));
        lemma_kept_all(seq![none]);
    } else {
        lemma_kept_text_lines(content);
        lemma_trimmed_lines_kept(held);
        lemma_kept_all(lines(front + feed));
    }
}

/// Stripping the lines of what `apply` gives leaves what was kept of the
/// configuration, without the white space at its front.
proof fn lemma_strip_lines_of_applied(
    content: Seq<char>,
    http_proxy: Seq<char>,
    https_proxy: Seq<char>,
)
    requires
        owned(http_proxy, https_proxy),
        stable(content),
    ensures
        strip_lines(apply(content, http_proxy, https_proxy)) == trim_start(strip_lines(content)),
{
    let feed = seq!['\n'];
    let held = strip_lines(content);
    let tail = proxy_tail(http_proxy, https_proxy);
    let short = trim_end(tail);
    let none = Seq::<char>::empty();
    lemma_tail_begins(http_proxy, https_proxy);
    assert(is_space('\n'));
    assert(held + (feed + tail) == held + feed + tail);
    assert(kept(lines(short)) =~= Seq::<Seq<char>>::empty());
    if is_blank(held) {
        lemma_trim_start_blank_head(held, feed + tail);
        lemma_trim_start_blank_head(feed, tail);
        assert(apply(content, http_proxy, https_proxy) == short);
        lemma_trim_start_empty(held);
        assert(joined(Seq::<Seq<char>>::empty()) == none);
        assert(trim_start(held) =~= none);
    } else {
        let front = trim_start(held);
        lemma_trim_start_visible(held, feed + tail);
        lemma_trim_end_visible(front + feed, tail);
        assert(front + (feed + tail) == front + feed + tail);
        assert(apply(content, http_proxy, https_proxy) == front + feed + short);
        lemma_lines_concat(front, short);
        lemma_kept_concat(lines(front + feed), lines(short));
        assert(kept(lines(front + feed)) + Seq::<Seq<char>>::empty() == kept(
            lines(front + feed),
        ));
    }
}

/// The block of the two proxy lines is a line feed and then the two lines,
/// which begin with a visible character.
proof fn lemma_tail_begins(http_proxy: Seq<char>, https_proxy: Seq<char>)
    ensures
        proxy_lines(http_proxy, https_proxy) == seq!['\n'] + proxy_tail(http_proxy, https_proxy),
        !is_blank(proxy_tail(http_proxy, https_proxy)),
        trim_start(proxy_tail(http_proxy, https_proxy)) == proxy_tail(http_proxy, https_proxy),
{
    let tail = proxy_tail(http_proxy, https_proxy);
    let first = setting("proxy="@, http_proxy);
    lemma_keys();
    lemma_proxy_lines_shape(http_proxy, https_proxy);
    assert(tail[0] == first[0]);
    assert(first[0] == "proxy="@[0]);
    assert(!is_space_or_capital("proxy="@[0]));
    assert(!is_space(tail[0]));
}

/// Enable twice with the same settings gives what enable once gives: the
/// new proxy lines replace the old ones. This holds where stripping takes
/// both new lines away, and where what is kept of the configuration is
/// stable under stripping.
pub proof fn law_apply_twice(content: Seq<char>, http_proxy: Seq<char>, https_proxy: Seq<char>)
    requires
        owned(http_proxy, https_proxy),
        stable(content),
    ensures
        apply(apply(content, http_proxy, https_proxy), http_proxy, https_proxy) == apply(
            content,
            http_proxy,
            https_proxy,
        ),
{
    let held = strip_lines(content);
    let block = proxy_lines(http_proxy, https_proxy);
    lemma_strip_lines_of_applied(content, http_proxy, https_proxy);
    lemma_tail_begins(http_proxy, https_proxy);
    lemma_trim_start(held);
    if is_blank(held) {
        lemma_trim_start_empty(held);
        assert(trim_start(held) + block == block);
        lemma_trim_start_blank_head(held, block);
    } else {
        lemma_trim_start_empty(held);
        lemma_trim_start_empty(trim_start(held));
        lemma_trim_start_visible(held, block);
        lemma_trim_start_visible(trim_start(held), block);
    }
}

/// Strip after apply gives what strip alone gives: the lines that the
/// editor does not own come back as they were kept. It holds under the
/// conditions of `law_apply_twice`.
pub proof fn law_strip_after_apply(content: Seq<char>, http_proxy: Seq<char>, https_proxy: Seq<char>)
    requires
        owned(http_proxy, https_proxy),
        stable(content),
    ensures
        strip(apply(content, http_proxy, https_proxy)) == strip(content),
{
    lemma_strip_lines_of_applied(content, http_proxy, https_proxy);
    lemma_trim_start(strip_lines(content));
}

/// Enable twice gives what enable once gives, and strip after apply gives
/// what strip alone gives, for every configuration of which no kept line
/// ends in a carriage return and all addresses that are written on one
/// line. Files with a carriage return before each line feed are among
/// them.
pub proof fn law_apply_twice_plain(content: Seq<char>, http_proxy: Seq<char>, https_proxy: Seq<char>)
    requires
        keeps_whole_lines(content),
        single_line(http_proxy),
        single_line(https_proxy),
    ensures
        apply(apply(content, http_proxy, https_proxy), http_proxy, https_proxy) == apply(
            content,
            http_proxy,
            https_proxy,
        ),
        strip(apply(content, http_proxy, https_proxy)) == strip(content),
{
    lemma_proxy_lines_are_owned(http_proxy, https_proxy);
    lemma_whole_lines_are_stable(content);
    law_apply_twice(content, http_proxy, https_proxy);
    law_strip_after_apply(content, http_proxy, https_proxy);
}

} // verus!
