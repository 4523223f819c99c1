//! The proxy in the environment variables of the user. Their snapshots are
//! JSON objects from variable name to value, kept apart from the snapshots
//! of files.

use vstd::prelude::*;
use crate::backup::{no_backup_dir, opt_snapshots, snapshots_after, SnapshotPair, SnapshotPairView};
use crate::editors::json::{members_of, text_members, JsonObject, JsonValueView, Members};
use crate::outside::rendered_object;
use crate::pairs::{lookup, position_of, remove_key, set_key, with_entry, without_key};
use crate::seqs::views;
use crate::settings::{copy_opt, opt_text, text_result, ProxySettings, ProxySettingsView};
use crate::text::chars::owned;

verus! {

/// The environment variables of the user as far as this crate reads them,
/// and their snapshots.
#[derive(Debug, Clone, PartialEq, Eq)]
pub struct EnvTarget {
    /// Name and value of each variable that is set.
    pub vars: Vec<(String, String)>,
    /// The snapshots, if the backup directory could be resolved.
    pub backups: Option<SnapshotPair>,
}

/// What an `EnvTarget` holds, as texts.
pub struct EnvTargetView {
    pub vars: Seq<(Seq<char>, Seq<char>)>,
    pub backups: Option<SnapshotPairView>,
}

impl View for EnvTarget {
    type V = EnvTargetView;

    open spec fn view(&self) -> EnvTargetView {
        EnvTargetView { vars: views(self.vars@), backups: opt_snapshots(self.backups) }
    }
}

/// The variable that holds the proxy for HTTP.
pub open spec fn http_var() -> Seq<char> {
    "HTTP_PROXY"@
}

/// The variable that holds the proxy for HTTPS.
pub open spec fn https_var() -> Seq<char> {
    "HTTPS_PROXY"@
}

/// The variable that holds the hosts that go round the proxy.
pub open spec fn no_proxy_var() -> Seq<char> {
    "NO_PROXY"@
}

/// The message after the variables were set.
pub open spec fn env_set() -> Seq<char> {
    "环境变量已设置（新终端窗口生效）"@
}

/// The message after the variables were put back from the last snapshot.
pub open spec fn env_restored() -> Seq<char> {
    "已还原上次环境变量（新终端窗口生效）"@
}

/// The message after the variables were put back from the first snapshot.
pub open spec fn env_reset() -> Seq<char> {
    "已重置到初始环境变量（新终端窗口生效）"@
}

/// The message where there is no first snapshot to go back to.
pub open spec fn nothing_to_reset() -> Seq<char> {
    "没有初始备份，无需重置"@
}

/// The message for a last snapshot whose place cannot be resolved.
pub open spec fn no_current_path() -> Seq<char> {
    "无法获取当前备份路径"@
}

/// The message for a first snapshot whose place cannot be resolved.
pub open spec fn no_original_path() -> Seq<char> {
    "无法获取初始备份路径"@
}

/// `members` with the variable `name` as a member, if it is set.
pub open spec fn noted(members: Members, vars: Seq<(Seq<char>, Seq<char>)>, name: Seq<char>)
    -> Members {
    match lookup(vars, name) {
        Some(value) => with_entry(members, name, JsonValueView::Text(value)),
        None => members,
    }
}

/// The members of a snapshot of the variables: one for each of the three
/// variables that is set.
pub open spec fn snapshot_members(vars: Seq<(Seq<char>, Seq<char>)>) -> Members {
    noted(noted(noted(Seq::empty(), vars, http_var()), vars, https_var()), vars, no_proxy_var())
}

/// The variables with the three set to what `settings` holds.
pub open spec fn assigned(vars: Seq<(Seq<char>, Seq<char>)>, settings: ProxySettingsView) -> Seq<
    (Seq<char>, Seq<char>),
> {
    with_entry(
        with_entry(with_entry(vars, http_var(), settings.http_proxy), https_var(), settings.https_proxy),
        no_proxy_var(),
        settings.no_proxy,
    )
}

/// The variables without the three.
pub open spec fn cleared(vars: Seq<(Seq<char>, Seq<char>)>) -> Seq<(Seq<char>, Seq<char>)> {
    without_key(without_key(without_key(vars, http_var()), https_var()), no_proxy_var())
}

/// The variables after each of `pairs` was set in turn.
pub open spec fn assign_all(vars: Seq<(Seq<char>, Seq<char>)>, pairs: Seq<(Seq<char>, Seq<char>)>)
    -> Seq<(Seq<char>, Seq<char>)>
    decreases pairs.len(),
{
    if pairs.len() == 0 {
        vars
    } else {
        with_entry(assign_all(vars, pairs.drop_last()), pairs.last().0, pairs.last().1)
    }
}

/// The variables that a snapshot names, with their values: its members
/// whose value is a string. A snapshot that does not exist or holds no JSON
/// object names none.
pub open spec fn named_in(blob: Option<Seq<char>>) -> Seq<(Seq<char>, Seq<char>)> {
    match blob {
        Some(text) => text_members(members_of(text)),
        None => Seq::empty(),
    }
}

/// The variables after a restore from the snapshot `blob`: the three are
/// unset, then every variable that the snapshot names is set.
pub open spec fn restored_vars(vars: Seq<(Seq<char>, Seq<char>)>, blob: Option<Seq<char>>) -> Seq<
    (Seq<char>, Seq<char>),
> {
    assign_all(cleared(vars), named_in(blob))
}

/// The target after the proxy was set: a snapshot of the three variables is
/// taken first, then they are set.
pub open spec fn enabled(target: EnvTargetView, settings: ProxySettingsView) -> (
    EnvTargetView,
    Result<Seq<char>, Seq<char>>,
) {
    match target.backups {
        None => (target, Err(no_backup_dir())),
        Some(pair) => match rendered_object(snapshot_members(target.vars)) {
            Err(e) => (target, Err(e)),
            Ok(blob) => (
                EnvTargetView {
                    vars: assigned(target.vars, settings),
                    backups: Some(snapshots_after(pair, blob)),
                },
                Ok(env_set()),
            ),
        },
    }
}

/// The target after the variables were put back from the last snapshot.
pub open spec fn disabled(target: EnvTargetView) -> (EnvTargetView, Result<Seq<char>, Seq<char>>) {
    match target.backups {
        None => (target, Err(no_current_path())),
        Some(pair) => (
            EnvTargetView { vars: restored_vars(target.vars, pair.current), ..target },
            Ok(env_restored()),
        ),
    }
}

/// The target after the variables were put back from the first snapshot;
/// unchanged where there is none.
pub open spec fn reset(target: EnvTargetView) -> (EnvTargetView, Result<Seq<char>, Seq<char>>) {
    match target.backups {
        None => (target, Err(no_original_path())),
        Some(pair) => match pair.original {
            None => (target, Ok(nothing_to_reset())),
            Some(text) => (
                EnvTargetView { vars: restored_vars(target.vars, Some(text)), ..target },
                Ok(env_reset()),
            ),
        },
    }
}

fn note(object: &mut JsonObject, vars: &Vec<(String, String)>, name: &str)
    ensures
        final(object)@ == noted(old(object)@, views(vars@), name@),
{
    match position_of(vars, name) {
        Some(i) => {
            object.set_text(name, vars[i].1.as_str());
        },
        None => {},
    }
}

/// The snapshot of the three variables: a JSON object with one member for
/// each that is set, pretty-printed; or the printer's error.
pub fn env_snapshot(vars: &Vec<(String, String)>) -> (r: Result<String, String>)
    ensures
        text_result(r) == rendered_object(snapshot_members(views(vars@))),
{
    let mut object = JsonObject::new();
    note(&mut object, vars, "HTTP_PROXY");
    note(&mut object, vars, "HTTPS_PROXY");
    note(&mut object, vars, "NO_PROXY");
    object.render()
}

/// The variables that the snapshot `blob` names, with their values.
pub fn env_assignments(blob: &Option<String>) -> (r: Vec<(String, String)>)
    ensures
        views(r@) == named_in(opt_text(*blob)),
{
    match blob {
        Some(text) => JsonObject::parse(text.as_str()).texts(),
        None => {
            let r: Vec<(String, String)> = Vec::new();
            assert(views(r@) =~= Seq::<(Seq<char>, Seq<char>)>::empty());
            r
        },
    }
}

/// Puts the variables back from the snapshot `blob`.
pub fn restore_env_from_backup(vars: &mut Vec<(String, String)>, blob: &Option<String>)
    ensures
        views(final(vars)@) == restored_vars(views(old(vars)@), opt_text(*blob)),
{
    remove_key(vars, "HTTP_PROXY");
    remove_key(vars, "HTTPS_PROXY");
    remove_key(vars, "NO_PROXY");
    let pairs = env_assignments(blob);
    let ghost base = views(vars@);
    let ghost all = views(pairs@);
    let mut i: usize = 0;
    assert(all.take(0) =~= Seq::<(Seq<char>, Seq<char>)>::empty());
    while i < pairs.len()
        invariant
            i <= pairs.len(),
            all == views(pairs@),
            views(vars@) == assign_all(base, all.take(i as int)),
        decreases pairs.len() - i,
    {
        proof {
            assert(all.take(i + 1).drop_last() =~= all.take(i as int));
            assert(all.take(i + 1).last() == pairs@[i as int]@);
        }
        set_key(vars, owned(pairs[i].0.as_str()), owned(pairs[i].1.as_str()));
        i += 1;
    }
    assert(all.take(pairs.len() as int) =~= all);
}

/// Sets the proxy in the variables, after a snapshot of what they held.
pub fn enable_windows_env_proxy(target: &mut EnvTarget, settings: &ProxySettings) -> (r: Result<
    String,
    String,
>)
    ensures
        final(target)@ == enabled(old(target)@, settings@).0,
        text_result(r) == enabled(old(target)@, settings@).1,
{
    let first = match &target.backups {
        None => {
            return Err(owned("无法获取备份目录"));
        },
        Some(pair) => copy_opt(&pair.original),
    };
    let blob = match env_snapshot(&target.vars) {
        Err(e) => {
            return Err(e);
        },
        Ok(blob) => blob,
    };
    let original = match first {
        Some(text) => text,
        None => owned(blob.as_str()),
    };
    target.backups = Some(SnapshotPair { original: Some(original), current: Some(blob) });
    set_key(&mut target.vars, owned("HTTP_PROXY"), owned(settings.http_proxy.as_str()));
    set_key(&mut target.vars, owned("HTTPS_PROXY"), owned(settings.https_proxy.as_str()));
    set_key(&mut target.vars, owned("NO_PROXY"), owned(settings.no_proxy.as_str()));
    Ok(owned("环境变量已设置（新终端窗口生效）"))
}

/// Puts the variables back from the last snapshot.
pub fn disable_windows_env_proxy(target: &mut EnvTarget) -> (r: Result<String, String>)
    ensures
        final(target)@ == disabled(old(target)@).0,
        text_result(r) == disabled(old(target)@).1,
{
    let blob = match &target.backups {
        None => {
            return Err(owned("无法获取当前备份路径"));
        },
        Some(pair) => copy_opt(&pair.current),
    };
    restore_env_from_backup(&mut target.vars, &blob);
    Ok(owned("已还原上次环境变量（新终端窗口生效）"))
}

/// Puts the variables back from the first snapshot, if there is one.
pub fn reset_windows_env_to_original(target: &mut EnvTarget) -> (r: Result<String, String>)
    ensures
        final(target)@ == reset(old(target)@).0,
        text_result(r) == reset(old(target)@).1,
{
    let blob = match &target.backups {
        None => {
            return Err(owned("无法获取初始备份路径"));
        },
        Some(pair) => copy_opt(&pair.original),
    };
    if blob.is_none() {
        return Ok(owned("没有初始备份，无需重置"));
    }
    restore_env_from_backup(&mut target.vars, &blob);
    Ok(owned("已重置到初始环境变量（新终端窗口生效）"))
}

} // verus!
