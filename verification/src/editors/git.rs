//! The sectioned key-value dialect of Git's configuration.

use vstd::prelude::*;
use crate::seqs::views;
use crate::settings::ProxySettings;
use crate::text::chars::{
    chars_of, is_blank, is_space, lemma_trim_end, lemma_trim_end_blank_tail, lemma_trim_end_empty,
    lemma_trim_end_keeps_head, lemma_trim_end_twice, lemma_trim_push_space, lemma_trimmed_end,
    push_chars, push_str, same_chars, slice_of, string_of, trim, trim_chars, trim_end,
    trim_end_chars, trim_start,
};
use crate::text::lines::{
    ends_in_return, lemma_first_index_at, lemma_lines_concat, lemma_lines_extend_last,
    lemma_lines_feed_after_return, lemma_lines_final_feed, lemma_lines_hold_no_feed,
    lemma_lines_single, lemma_lines_terminated, lemma_lines_unterminated, lemma_terminated_concat,
    lines, no_line_ends_in_return, single_line, split_lines, terminated, whole_line, without_cr,
};
use crate::text::search::{fold_chars, folded};

verus! {

/// Whether `line` opens a section: trimmed, it starts with `[` and ends with
/// `]`.
pub open spec fn is_header(line: Seq<char>) -> bool {
    let t = trim(line);
    t.len() >= 2 && t[0] == '[' && t.last() == ']'
}

/// The name of the section that the header `line` opens, in lower case.
pub open spec fn section_name(line: Seq<char>) -> Seq<char> {
    let t = trim(line);
    folded(t.subrange(1, t.len() - 1))
}

/// Whether `line` opens one of the two sections that hold a proxy.
pub open spec fn opens_proxy_section(line: Seq<char>) -> bool {
    is_header(line) && (section_name(line) == "http"@ || section_name(line) == "https"@)
}

/// Whether the lines after `line` are left out, given whether `line` itself
/// followed lines that were: a header decides anew, any other line carries
/// the state on.
pub open spec fn skipping_after(line: Seq<char>, skipping: bool) -> bool {
    if is_header(line) {
        opens_proxy_section(line)
    } else {
        skipping
    }
}

/// The lines of `ls` outside the proxy sections, in their order.
pub open spec fn kept(ls: Seq<Seq<char>>, skipping: bool) -> Seq<Seq<char>>
    decreases ls.len(),
{
    if ls.len() == 0 {
        Seq::empty()
    } else {
        let now = skipping_after(ls[0], skipping);
        let head = if now {
            Seq::<Seq<char>>::empty()
        } else {
            seq![ls[0]]
        };
        head + kept(ls.drop_first(), now)
    }
}

/// `content` without its proxy sections: every line from a header `[http]`
/// or `[https]`, whatever its case, up to the next header of another
/// section is left out. The lines that stay end with a line feed each, and
/// the white space at the end of the whole is cut off.
pub open spec fn strip(content: Seq<char>) -> Seq<char> {
    trim_end(terminated(kept(lines(content), false)))
}

/// The two sections that set the proxy.
pub open spec fn proxy_block(http_proxy: Seq<char>, https_proxy: Seq<char>) -> Seq<char> {
    "\n[http]\n\tproxy = "@ + http_proxy + "\n[https]\n\tproxy = "@ + https_proxy + "\n"@
}

/// `content` with the proxy set: its proxy sections are taken out and the
/// two new ones follow what is left.
pub open spec fn apply(content: Seq<char>, http_proxy: Seq<char>, https_proxy: Seq<char>) -> Seq<
    char,
> {
    strip(content) + proxy_block(http_proxy, https_proxy)
}

/// Whether `line` opens a section, and whether that section holds a proxy.
fn classify(line: &Vec<char>) -> (r: (bool, bool))
    ensures
        r.0 == is_header(line@),
        r.1 == opens_proxy_section(line@),
{
    let t = trim_chars(line);
    let n = t.len();
    if n >= 2 && t[0] == '[' && t[n - 1] == ']' {
        let name = fold_chars(&slice_of(&t, 1, n - 1));
        let http = chars_of("http");
        let https = chars_of("https");
        (true, same_chars(&name, &http) || same_chars(&name, &https))
    } else {
        (false, false)
    }
}

/// The first of some lines comes out first, with its line feed.
proof fn lemma_terminated_first(line: Seq<char>, rest: Seq<Seq<char>>)
    ensures
        terminated(seq![line] + rest) == line + seq!['\n'] + terminated(rest),
{
    assert((seq![line] + rest).drop_first() == rest);
}

/// `content` without its proxy sections.
pub fn remove_git_proxy_section(content: &str) -> (r: String)
    ensures
        r@ == strip(content@),
{
    let text = chars_of(content);
    let ls = split_lines(&text);
    let ghost all = lines(content@);
    let mut out: Vec<char> = Vec::new();
    let mut skipping = false;
    let mut i: usize = 0;
    assert(all.skip(0) == all);
    while i < ls.len()
        invariant
            i <= ls.len(),
            views(ls@) == all,
            out@ + terminated(kept(all.skip(i as int), skipping)) == terminated(kept(all, false)),
        decreases ls.len() - i,
    {
        let ghost rest = all.skip(i as int);
        let ghost before = out@;
        let ghost was = skipping;
        assert(rest[0] == ls@[i as int]@);
        assert(rest.drop_first() == all.skip(i + 1));
        let (header, proxy) = classify(&ls[i]);
        if header {
            skipping = proxy;
        }
        assert(skipping == skipping_after(rest[0], was));
        if !skipping {
            push_chars(&mut out, &ls[i]);
            out.push('\n');
            proof {
                let tail = kept(all.skip(i + 1), skipping);
                lemma_terminated_first(rest[0], tail);
                assert(kept(rest, was) == seq![rest[0]] + tail);
                assert(out@ == before + (rest[0] + seq!['\n']));
                assert(out@ + terminated(tail) == before + (rest[0] + seq!['\n'] + terminated(
                    tail,
                )));
            }
        } else {
            proof {
                let tail = kept(all.skip(i + 1), skipping);
                assert(Seq::<Seq<char>>::empty() + tail == tail);
            }
        }
        i += 1;
    }
    assert(terminated(kept(all.skip(i as int), skipping)) == Seq::<char>::empty());
    assert(out@ + Seq::<char>::empty() == out@);
    let trimmed = trim_end_chars(&out);
    string_of(&trimmed)
}

/// `content` with the proxy of `settings` set.
pub fn set_git_proxy(content: &str, settings: &ProxySettings) -> (r: String)
    ensures
        r@ == apply(content@, settings@.http_proxy, settings@.https_proxy),
{
    let stripped = remove_git_proxy_section(content);
    let mut out = chars_of(stripped.as_str());
    push_str(&mut out, "\n[http]\n\tproxy = ");
    push_str(&mut out, settings.http_proxy.as_str());
    push_str(&mut out, "\n[https]\n\tproxy = ");
    push_str(&mut out, settings.https_proxy.as_str());
    push_str(&mut out, "\n");
    assert(out@ == apply(content@, settings@.http_proxy, settings@.https_proxy));
    string_of(&out)
}

/// Whether lines are left out after all of `ls`, given whether they were
/// before.
pub open spec fn skipping_after_all(ls: Seq<Seq<char>>, skipping: bool) -> bool
    decreases ls.len(),
{
    if ls.len() == 0 {
        skipping
    } else {
        skipping_after_all(ls.drop_first(), skipping_after(ls[0], skipping))
    }
}

/// What is kept of two lists of lines in a row is what is kept of the
/// first, then what is kept of the second in the state the first leaves.
proof fn lemma_kept_concat(x: Seq<Seq<char>>, y: Seq<Seq<char>>, skipping: bool)
    ensures
        kept(x + y, skipping) == kept(x, skipping) + kept(y, skipping_after_all(x, skipping)),
    decreases x.len(),
{
    if x.len() == 0 {
        assert(x + y == y);
        assert(Seq::<Seq<char>>::empty() + kept(y, skipping) == kept(y, skipping));
    } else {
        let now = skipping_after(x[0], skipping);
        let head = if now {
            Seq::<Seq<char>>::empty()
        } else {
            seq![x[0]]
        };
        assert((x + y)[0] == x[0]);
        assert((x + y).drop_first() == x.drop_first() + y);
        lemma_kept_concat(x.drop_first(), y, now);
        assert(head + (kept(x.drop_first(), now) + kept(y, skipping_after_all(x, skipping)))
            == head + kept(x.drop_first(), now) + kept(y, skipping_after_all(x, skipping)));
    }
}

/// Lines that begin with a header are kept alike in either state.
proof fn lemma_kept_from_header(ls: Seq<Seq<char>>, one: bool, other: bool)
    requires
        ls.len() > 0,
        is_header(ls[0]),
    ensures
        kept(ls, one) == kept(ls, other),
{
}

/// The block of the two proxy sections is a line feed and then lines of
/// which the first is a header.
proof fn lemma_block_shape(http_proxy: Seq<char>, https_proxy: Seq<char>)
    ensures
        proxy_block(http_proxy, https_proxy).len() > 0,
        proxy_block(http_proxy, https_proxy)[0] == '\n',
        lines(proxy_block(http_proxy, https_proxy).drop_first()).len() > 0,
        is_header(lines(proxy_block(http_proxy, https_proxy).drop_first())[0]),
{
    let first = "\n[http]\n\tproxy = "@;
    let block = proxy_block(http_proxy, https_proxy);
    reveal_strlit("\n[http]\n\tproxy = ");
    assert(first.len() == 17);
    assert(block.len() >= 17);
    assert forall|k: int| 0 <= k < 17 implies block[k] == first[k] by {}
    let rest = block.drop_first();
    let header = seq!['[', 'h', 't', 't', 'p', ']'];
    assert forall|k: int| 0 <= k < 16 implies rest[k] == first[k + 1] by {
        assert(rest[k] == block[k + 1]);
    }
    assert(rest[0] == '[');
    assert(rest[1] == 'h');
    assert(rest[2] == 't');
    assert(rest[3] == 't');
    assert(rest[4] == 'p');
    assert(rest[5] == ']');
    assert(rest[6] == '\n');
    lemma_first_index_at(rest, '\n', 6);
    assert(rest.take(6) =~= header);
    assert(without_cr(header) == header);
    assert(lines(rest)[0] == header);
    assert(trim_start(header) == header);
    assert(trim_end(header) == header);
    assert(trim(header) == header);
}

/// Appending the proxy block to a text without trailing white space, and
/// stripping, gives what stripping the text gives; provided that stripping
/// takes the whole block away.
proof fn lemma_strip_block_after(r: Seq<char>, http_proxy: Seq<char>, https_proxy: Seq<char>)
    requires
        trim_end(r) == r,
        strip(proxy_block(http_proxy, https_proxy)).len() == 0,
    ensures
        strip(r + proxy_block(http_proxy, https_proxy)) == strip(r),
{
    let block = proxy_block(http_proxy, https_proxy);
    let feed = seq!['\n'];
    let rest = block.drop_first();
    lemma_block_shape(http_proxy, https_proxy);
    assert(block == feed + rest);
    if r.len() == 0 {
        assert(r + block == block);
        assert(lines(r) == Seq::<Seq<char>>::empty());
        assert(kept(lines(r), false) == Seq::<Seq<char>>::empty());
        assert(terminated(kept(lines(r), false)) == Seq::<char>::empty());
    } else {
        lemma_trimmed_end(r);
        assert(is_space('\n'));
        assert(is_space('\r'));
        assert(r + block == r + feed + rest);
        lemma_lines_concat(r, rest);
        lemma_lines_final_feed(r);
        lemma_kept_concat(lines(r), lines(rest), false);
        let state = skipping_after_all(lines(r), false);
        lemma_kept_from_header(lines(rest), state, false);
        let tail = terminated(kept(lines(rest), false));
        lemma_terminated_concat(kept(lines(r), false), kept(lines(rest), false));
        // The block alone: an empty line, then the same lines.
        let none = Seq::<char>::empty();
        assert(none + feed + rest == block);
        lemma_lines_concat(none, rest);
        assert(none + feed == feed);
        lemma_first_index_at(feed, '\n', 0);
        assert(feed.take(0) == none);
        assert(feed.skip(1) == none);
        assert(lines(feed.skip(1)) == Seq::<Seq<char>>::empty());
        assert(lines(feed) == seq![none] + Seq::<Seq<char>>::empty());
        assert(lines(feed) == seq![none]);
        assert(lines(block) == seq![none] + lines(rest));
        lemma_kept_concat(seq![none], lines(rest), false);
        assert(trim(none) == none);
        assert(!is_header(none));
        assert(seq![none].drop_first() == Seq::<Seq<char>>::empty());
        assert(skipping_after_all(seq![none].drop_first(), false) == false);
        assert(skipping_after_all(seq![none], false) == false);
        assert(kept(seq![none].drop_first(), false) == Seq::<Seq<char>>::empty());
        assert(kept(seq![none], false) == seq![none] + Seq::<Seq<char>>::empty());
        assert(kept(seq![none], false) == seq![none]);
        lemma_terminated_concat(seq![none], kept(lines(rest), false));
        assert(terminated(seq![none].drop_first()) == Seq::<char>::empty());
        assert(terminated(seq![none]) == none + feed + Seq::<char>::empty());
        assert(terminated(seq![none]) == feed);
        assert(terminated(kept(lines(block), false)) == feed + tail);
        lemma_trim_end_empty(feed + tail);
        assert forall|i: int| 0 <= i < tail.len() implies is_space(#[trigger] tail[i]) by {
            assert((feed + tail)[i + 1] == tail[i]);
        }
        lemma_trim_end_blank_tail(terminated(kept(lines(r), false)), tail);
    }
}

/// The line that sets the proxy to `value` is no header.
proof fn lemma_setting_is_no_header(value: Seq<char>)
    ensures
        !is_header(without_cr("\tproxy = "@ + value)),
{
    reveal_strlit("\tproxy = ");
    let key = "\tproxy = "@;
    assert(key.len() == 9);
    let line = without_cr(key + value);
    assert(line.len() >= 8);
    assert(line[0] == key[0]);
    assert(line[1] == key[1]);
    assert(line[0] == '\t');
    assert(line[1] == 'p');
    let rest = line.drop_first();
    assert(rest[0] == 'p');
    assert(trim_start(rest) == rest);
    assert(trim_start(line) == rest);
    lemma_trim_end_keeps_head(rest);
}

/// A header in brackets round `name`, without spaces, is a header of the
/// section `name` in lower case.
proof fn lemma_plain_header(name: Seq<char>)
    requires
        forall|k: int| 0 <= k < name.len() ==> name[k] != '\n',
    ensures
        is_header(seq!['['] + name + seq![']']),
        section_name(seq!['['] + name + seq![']']) == folded(name),
        without_cr(seq!['['] + name + seq![']']) == seq!['['] + name + seq![']'],
{
    let header = seq!['['] + name + seq![']'];
    assert(header[0] == '[');
    assert(header.last() == ']');
    assert(trim_start(header) == header);
    assert(trim_end(header) == header);
    assert(header.subrange(1, header.len() - 1) == name);
}

/// Stripping takes the whole proxy block away where both addresses are
/// written on one line.
pub proof fn lemma_block_is_owned(http_proxy: Seq<char>, https_proxy: Seq<char>)
    requires
        single_line(http_proxy),
        single_line(https_proxy),
    ensures
        strip(proxy_block(http_proxy, https_proxy)).len() == 0,
{
    reveal_strlit("\n[http]\n\tproxy = ");
    reveal_strlit("\n[https]\n\tproxy = ");
    reveal_strlit("\n");
    reveal_strlit("\tproxy = ");
    reveal_strlit("http");
    reveal_strlit("https");
    let feed = seq!['\n'];
    let none = Seq::<char>::empty();
    let key = "\tproxy = "@;
    let plain = seq!['['] + "http"@ + seq![']'];
    let secure = seq!['['] + "https"@ + seq![']'];
    let first = key + http_proxy;
    let second = key + https_proxy;
    let block = proxy_block(http_proxy, https_proxy);
    assert("\n[http]\n\tproxy = "@ =~= feed + plain + feed + key);
    assert("\n[https]\n\tproxy = "@ =~= feed + secure + feed + key);
    assert("\n"@ =~= feed);
    let b4 = second + feed;
    let b3 = secure + feed + b4;
    let b2 = first + feed + b3;
    let b1 = plain + feed + b2;
    let b0 = none + feed + b1;
    assert(block =~= b0);
    assert forall|k: int| 0 <= k < plain.len() implies plain[k] != '\n' by {}
    assert forall|k: int| 0 <= k < secure.len() implies secure[k] != '\n' by {}
    assert forall|k: int| 0 <= k < first.len() implies first[k] != '\n' by {
        if k >= key.len() {
            assert(first[k] == http_proxy[k - key.len()]);
        }
    }
    assert forall|k: int| 0 <= k < second.len() implies second[k] != '\n' by {
        if k >= key.len() {
            assert(second[k] == https_proxy[k - key.len()]);
        }
    }
    lemma_lines_single(none);
    lemma_lines_single(plain);
    lemma_lines_single(first);
    lemma_lines_single(secure);
    lemma_lines_single(second);
    lemma_lines_concat(none, b1);
    lemma_lines_concat(plain, b2);
    lemma_lines_concat(first, b3);
    lemma_lines_concat(secure, b4);
    let l0 = without_cr(none);
    let l1 = without_cr(plain);
    let l2 = without_cr(first);
    let l3 = without_cr(secure);
    let l4 = without_cr(second);
    assert(l0 == none);
    assert(lines(b4) == seq![l4]);
    assert(lines(b3) == seq![l3] + seq![l4]);
    assert(lines(b2) == seq![l2] + (seq![l3] + seq![l4]));
    assert(lines(b1) == seq![l1] + (seq![l2] + (seq![l3] + seq![l4])));
    assert(lines(b0) == seq![l0] + (seq![l1] + (seq![l2] + (seq![l3] + seq![l4]))));
    let all = seq![l0, l1, l2, l3, l4];
    assert(lines(block) =~= all);
    lemma_plain_header("http"@);
    lemma_plain_header("https"@);
    assert(folded("http"@) =~= "http"@);
    assert(folded("https"@) =~= "https"@);
    lemma_setting_is_no_header(http_proxy);
    lemma_setting_is_no_header(https_proxy);
    assert(trim(none) == none);
    assert(!is_header(l0));
    assert(opens_proxy_section(l1));
    assert(!is_header(l2));
    assert(opens_proxy_section(l3));
    assert(!is_header(l4));
    let t1 = all.drop_first();
    let t2 = t1.drop_first();
    let t3 = t2.drop_first();
    let t4 = t3.drop_first();
    let t5 = t4.drop_first();
    assert(t1[0] == l1);
    assert(t2[0] == l2);
    assert(t3[0] == l3);
    assert(t4[0] == l4);
    assert(t5.len() == 0);
    assert(kept(t5, true) == Seq::<Seq<char>>::empty());
    assert(kept(t4, true) == Seq::<Seq<char>>::empty() + kept(t5, true));
    assert(kept(t3, true) == Seq::<Seq<char>>::empty() + kept(t4, true));
    assert(kept(t2, true) == Seq::<Seq<char>>::empty() + kept(t3, true));
    assert(kept(t1, false) == Seq::<Seq<char>>::empty() + kept(t2, true));
    assert(kept(all, false) == seq![l0] + kept(t1, false));
    assert(kept(all, false) =~= seq![none]);
    assert(seq![none].drop_first() == Seq::<Seq<char>>::empty());
    assert(terminated(seq![none].drop_first()) == Seq::<char>::empty());
    assert(terminated(seq![none]) =~= feed);
    assert(is_space('\n'));
    assert(feed.drop_last() == none);
    assert(trim_end(feed.drop_last()) == none);
    assert(trim_end(feed) == none);
}

/// Keeping again what was kept keeps all of it.
proof fn lemma_kept_twice(ls: Seq<Seq<char>>, skipping: bool)
    ensures
        kept(kept(ls, skipping), false) == kept(ls, skipping),
    decreases ls.len(),
{
    if ls.len() > 0 {
        let now = skipping_after(ls[0], skipping);
        let rest = kept(ls.drop_first(), now);
        lemma_kept_twice(ls.drop_first(), now);
        if now {
            assert(Seq::<Seq<char>>::empty() + rest == rest);
        } else {
            let again = seq![ls[0]] + rest;
            assert(again[0] == ls[0]);
            assert(again.drop_first() == rest);
            assert(skipping_after(ls[0], false) == false);
        }
    }
}

/// What is kept is among the lines it was kept of.
proof fn lemma_kept_are_lines(ls: Seq<Seq<char>>, skipping: bool)
    ensures
        forall|i: int|
            0 <= i < kept(ls, skipping).len() ==> exists|j: int|
                0 <= j < ls.len() && ls[j] == #[trigger] kept(ls, skipping)[i],
    decreases ls.len(),
{
    if ls.len() > 0 {
        let now = skipping_after(ls[0], skipping);
        let tail = ls.drop_first();
        let rest = kept(tail, now);
        lemma_kept_are_lines(tail, now);
        let all = kept(ls, skipping);
        assert forall|i: int| 0 <= i < all.len() implies exists|j: int|
            0 <= j < ls.len() && ls[j] == #[trigger] all[i] by {
            if now {
                assert(all == Seq::<Seq<char>>::empty() + rest);
                assert(all[i] == rest[i]);
                let j = choose|j: int| 0 <= j < tail.len() && tail[j] == rest[i];
                assert(ls[j + 1] == tail[j]);
            } else if i == 0 {
                assert(all[0] == ls[0]);
            } else {
                assert(all[i] == rest[i - 1]);
                let j = choose|j: int| 0 <= j < tail.len() && tail[j] == rest[i - 1];
                assert(ls[j + 1] == tail[j]);
            }
        }
    }
}

/// What is kept of lines and one more line: the line comes last if it is
/// kept, and white space at its end does not decide whether it is.
proof fn lemma_kept_last(ls: Seq<Seq<char>>, line: Seq<char>, c: char)
    requires
        is_space(c),
    ensures
        ({
            let state = skipping_after_all(ls, false);
            let before = kept(ls, false);
            if skipping_after(line, state) {
                kept(ls.push(line), false) == before && kept(ls.push(line.push(c)), false)
                    == before
            } else {
                kept(ls.push(line), false) == before.push(line) && kept(
                    ls.push(line.push(c)),
                    false,
                ) == before.push(line.push(c))
            }
        }),
{
    let state = skipping_after_all(ls, false);
    let longer = line.push(c);
    lemma_trim_push_space(line, c);
    assert(skipping_after(longer, state) == skipping_after(line, state));
    assert(ls.push(line) == ls + seq![line]);
    assert(ls.push(longer) == ls + seq![longer]);
    lemma_kept_concat(ls, seq![line], false);
    lemma_kept_concat(ls, seq![longer], false);
    assert(seq![line].drop_first() == Seq::<Seq<char>>::empty());
    assert(seq![longer].drop_first() == Seq::<Seq<char>>::empty());
    assert(kept(seq![line].drop_first(), skipping_after(line, state)) == Seq::<
        Seq<char>,
    >::empty());
    assert(kept(seq![longer].drop_first(), skipping_after(longer, state)) == Seq::<
        Seq<char>,
    >::empty());
    let before = kept(ls, false);
    if skipping_after(line, state) {
        assert(kept(seq![line], state) == Seq::<Seq<char>>::empty() + Seq::<Seq<char>>::empty());
        assert(kept(seq![longer], state) == Seq::<Seq<char>>::empty() + Seq::<
            Seq<char>,
        >::empty());
        assert(before + (Seq::<Seq<char>>::empty() + Seq::<Seq<char>>::empty()) == before);
    } else {
        assert(kept(seq![line], state) == seq![line] + Seq::<Seq<char>>::empty());
        assert(kept(seq![longer], state) == seq![longer] + Seq::<Seq<char>>::empty());
        assert(before + (seq![line] + Seq::<Seq<char>>::empty()) == before.push(line));
        assert(before + (seq![longer] + Seq::<Seq<char>>::empty()) == before.push(longer));
    }
}

/// A line with white space at its end comes out of `terminated` and the
/// trimming after it like the line without.
proof fn lemma_terminated_last(ls: Seq<Seq<char>>, line: Seq<char>, c: char)
    requires
        is_space(c),
    ensures
        trim_end(terminated(ls.push(line.push(c)))) == trim_end(terminated(ls.push(line))),
{
    let feed = seq!['\n'];
    let none = Seq::<char>::empty();
    let longer = line.push(c);
    assert(is_space('\n'));
    assert(ls.push(line) == ls + seq![line]);
    assert(ls.push(longer) == ls + seq![longer]);
    lemma_terminated_concat(ls, seq![line]);
    lemma_terminated_concat(ls, seq![longer]);
    assert(seq![line].drop_first() == Seq::<Seq<char>>::empty());
    assert(seq![longer].drop_first() == Seq::<Seq<char>>::empty());
    assert(terminated(seq![line].drop_first()) == none);
    assert(terminated(seq![longer].drop_first()) == none);
    assert(terminated(seq![line]) == line + feed + none);
    assert(terminated(seq![longer]) == longer + feed + none);
    let base = terminated(ls) + line;
    assert(terminated(ls) + (line + feed + none) == base + feed);
    assert(terminated(ls) + (longer + feed + none) == base + (seq![c] + feed));
    assert(is_blank(feed));
    assert(is_blank(seq![c] + feed)) by {
        assert forall|i: int| 0 <= i < 2 implies is_space(#[trigger] (seq![c] + feed)[i]) by {}
    }
    lemma_trim_end_blank_tail(base, feed);
    lemma_trim_end_blank_tail(base, seq![c] + feed);
}

/// A blank line after some lines does not show after stripping.
proof fn lemma_blank_line_after(ls: Seq<Seq<char>>, line: Seq<char>)
    requires
        is_blank(line),
    ensures
        trim_end(terminated(kept(ls.push(line), false))) == trim_end(
            terminated(kept(ls, false)),
        ),
{
    let feed = seq!['\n'];
    let none = Seq::<char>::empty();
    let state = skipping_after_all(ls, false);
    assert(is_space('\n'));
    crate::text::chars::lemma_trim_start_empty(line);
    assert(trim(line) == none);
    assert(!is_header(line));
    assert(ls.push(line) == ls + seq![line]);
    lemma_kept_concat(ls, seq![line], false);
    assert(seq![line].drop_first() == Seq::<Seq<char>>::empty());
    assert(kept(seq![line].drop_first(), state) == Seq::<Seq<char>>::empty());
    let before = kept(ls, false);
    if state {
        assert(kept(seq![line], state) == Seq::<Seq<char>>::empty() + Seq::<Seq<char>>::empty());
        assert(before + (Seq::<Seq<char>>::empty() + Seq::<Seq<char>>::empty()) == before);
    } else {
        assert(kept(seq![line], state) == seq![line] + Seq::<Seq<char>>::empty());
        assert(before + (seq![line] + Seq::<Seq<char>>::empty()) == before + seq![line]);
        lemma_terminated_concat(before, seq![line]);
        assert(terminated(seq![line].drop_first()) == none);
        assert(terminated(seq![line]) == line + feed + none);
        assert(line + feed + none == line + feed);
        assert(is_blank(line + feed)) by {
            assert forall|i: int| 0 <= i < (line + feed).len() implies is_space(
                #[trigger] (line + feed)[i],
            ) by {
                if i < line.len() {
                    assert((line + feed)[i] == line[i]);
                }
            }
        }
        lemma_trim_end_blank_tail(terminated(before), line + feed);
    }
}

/// White space put after a text does not show after stripping.
proof fn lemma_strip_push_space(t: Seq<char>, c: char)
    requires
        is_space(c),
    ensures
        strip(t.push(c)) == strip(t),
{
    let feed = seq!['\n'];
    let none = Seq::<char>::empty();
    let longer = t.push(c);
    if t.len() == 0 {
        assert(lines(t) == Seq::<Seq<char>>::empty());
        assert(longer == none + seq![c]);
        if c == '\n' {
            assert(longer == none + feed);
            lemma_lines_single(none);
            assert(without_cr(none) == none);
            assert(lines(longer) == Seq::<Seq<char>>::empty().push(none));
            lemma_blank_line_after(Seq::<Seq<char>>::empty(), none);
        } else {
            assert(longer =~= seq![c]);
            lemma_lines_unterminated(longer);
            assert(lines(longer) == Seq::<Seq<char>>::empty().push(longer));
            lemma_blank_line_after(Seq::<Seq<char>>::empty(), longer);
        }
    } else if t.last() == '\n' {
        let front = t.drop_last();
        assert(t == front + feed);
        let added = if c == '\n' {
            none
        } else {
            seq![c]
        };
        if c == '\n' {
            assert(longer == front + feed + feed);
            lemma_lines_concat(front, feed);
            assert(feed == none + feed);
            lemma_lines_single(none);
            assert(without_cr(none) == none);
            assert(lines(feed) == seq![none]);
        } else {
            assert(longer == front + feed + seq![c]);
            lemma_lines_concat(front, seq![c]);
            lemma_lines_unterminated(seq![c]);
        }
        assert(lines(longer) == lines(t) + seq![added]);
        assert(lines(t) + seq![added] == lines(t).push(added));
        lemma_blank_line_after(lines(t), added);
    } else if c == '\n' {
        assert(longer == t + feed);
        if t.last() == '\r' {
            // The line feed ends the last line, which loses its carriage return.
            lemma_lines_feed_after_return(t);
            let all = lines(t);
            let front = all.drop_last();
            let line = all.last();
            let short = line.drop_last();
            assert(line == short.push('\r'));
            assert(all == front.push(line));
            assert(is_space('\r'));
            lemma_kept_last(front, short, '\r');
            let state = skipping_after_all(front, false);
            if !skipping_after(short, state) {
                lemma_terminated_last(kept(front, false), short, '\r');
            }
        } else {
            lemma_lines_final_feed(t);
        }
    } else {
        lemma_lines_extend_last(t, c);
        let all = lines(t);
        let front = all.drop_last();
        let line = all.last();
        assert(all == front.push(line));
        lemma_kept_last(front, line, c);
        let state = skipping_after_all(front, false);
        if !skipping_after(line, state) {
            lemma_terminated_last(kept(front, false), line, c);
        }
    }
}

/// White space after a text does not show after stripping.
proof fn lemma_strip_blank_tail(r: Seq<char>, w: Seq<char>)
    requires
        is_blank(w),
    ensures
        strip(r + w) == strip(r),
    decreases w.len(),
{
    if w.len() == 0 {
        assert(r + w == r);
    } else {
        let front = w.drop_last();
        let whole = r + w;
        assert(whole == (r + front).push(w.last()));
        assert(is_space(w[w.len() - 1]));
        assert(is_blank(front)) by {
            assert forall|i: int| 0 <= i < front.len() implies is_space(#[trigger] front[i]) by {
                assert(front[i] == w[i]);
            }
        }
        lemma_strip_push_space(r + front, w.last());
        lemma_strip_blank_tail(r, front);
    }
}

/// Whether no line that stripping keeps of `content` ends in a carriage
/// return, which reading the lines again would drop.
pub open spec fn keeps_whole_lines(content: Seq<char>) -> bool {
    forall|i: int|
        0 <= i < kept(lines(content), false).len() ==> !ends_in_return(
            #[trigger] kept(lines(content), false)[i],
        )
}

/// Where no line of a configuration ends in a carriage return, no line
/// that stripping keeps of it does.
pub proof fn lemma_whole_lines_are_kept_whole(content: Seq<char>)
    requires
        no_line_ends_in_return(content),
    ensures
        keeps_whole_lines(content),
{
    let all = lines(content);
    let held = kept(all, false);
    lemma_kept_are_lines(all, false);
    assert forall|i: int| 0 <= i < held.len() implies !ends_in_return(#[trigger] held[i]) by {
        let j = choose|j: int| 0 <= j < all.len() && all[j] == held[i];
        assert(!ends_in_return(all[j]));
    }
}

/// What stripping keeps of a configuration is stable under stripping where
/// none of the lines that are kept ends in a carriage return.
pub proof fn lemma_whole_lines_are_stable(content: Seq<char>)
    requires
        keeps_whole_lines(content),
    ensures
        strip(strip(content)) == strip(content),
{
    let all = lines(content);
    let held = kept(all, false);
    let text = terminated(held);
    let r = trim_end(text);
    lemma_kept_are_lines(all, false);
    assert forall|i: int| 0 <= i < held.len() implies whole_line(#[trigger] held[i]) by {
        let j = choose|j: int| 0 <= j < all.len() && all[j] == held[i];
        assert forall|k: int| 0 <= k < held[i].len() implies held[i][k] != '\n' by {
            lemma_lines_hold_no_feed(content, j, k);
        }
    }
    lemma_lines_terminated(held);
    lemma_kept_twice(all, false);
    assert(strip(text) == r);
    lemma_trim_end(text);
    let w = text.skip(r.len() as int);
    assert(text == r + w);
    lemma_strip_blank_tail(r, w);
}

/// Enable twice gives what enable once gives, and strip after apply gives
/// what strip alone gives, for every configuration of which no kept line
/// ends in a carriage return and all addresses that are written on one
/// line. Files with a carriage return before each line feed are among
/// them.
pub proof fn law_apply_twice_plain(content: Seq<char>, http_proxy: Seq<char>, https_proxy: Seq<char>)
    requires
        keeps_whole_lines(content),
        single_line(http_proxy),
        single_line(https_proxy),
    ensures
        apply(apply(content, http_proxy, https_proxy), http_proxy, https_proxy) == apply(
            content,
            http_proxy,
            https_proxy,
        ),
        strip(apply(content, http_proxy, https_proxy)) == strip(content),
{
    lemma_whole_lines_are_stable(content);
    lemma_block_is_owned(http_proxy, https_proxy);
    law_apply_twice(content, http_proxy, https_proxy);
    law_strip_after_apply(content, http_proxy, https_proxy);
}

/// Enable twice with the same settings gives what enable once gives. This
/// holds where the text that stripping keeps is stable under stripping, and
/// where stripping takes the whole proxy block away: a proxy address that
/// opens a section of its own would stay behind.
pub proof fn law_apply_twice(content: Seq<char>, http_proxy: Seq<char>, https_proxy: Seq<char>)
    requires
        strip(strip(content)) == strip(content),
        strip(proxy_block(http_proxy, https_proxy)).len() == 0,
    ensures
        apply(apply(content, http_proxy, https_proxy), http_proxy, https_proxy) == apply(
            content,
            http_proxy,
            https_proxy,
        ),
{
    lemma_trim_end_twice(terminated(kept(lines(content), false)));
    lemma_strip_block_after(strip(content), http_proxy, https_proxy);
}

/// Strip after apply gives what strip alone gives: the sections that the
/// editor does not own come back as they were kept. It holds under the
/// conditions of `law_apply_twice`.
pub proof fn law_strip_after_apply(content: Seq<char>, http_proxy: Seq<char>, https_proxy: Seq<char>)
    requires
        strip(strip(content)) == strip(content),
        strip(proxy_block(http_proxy, https_proxy)).len() == 0,
    ensures
        strip(apply(content, http_proxy, https_proxy)) == strip(content),
{
    lemma_trim_end_twice(terminated(kept(lines(content), false)));
    lemma_strip_block_after(strip(content), http_proxy, https_proxy);
}

} // verus!
