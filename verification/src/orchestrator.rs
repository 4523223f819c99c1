//! Enable, disable and reset for one target and for a list of targets,
//! with a report line for each.

use vstd::prelude::*;
use crate::backup::{backed_up, backup_config, restore_config, restored, FileTarget, FileTargetView};
use crate::editors::env::{
    disable_windows_env_proxy, enable_windows_env_proxy, nothing_to_reset,
    reset_windows_env_to_original, EnvTarget, EnvTargetView,
};
use crate::editors::git::{remove_git_proxy_section, set_git_proxy};
use crate::editors::json::{clear_json_proxy, set_json_proxy};
use crate::editors::npm::{clear_npm_proxy, set_npm_proxy};
use crate::editors::xml::set_idea_proxy;
use crate::editors::{env, git, json, npm, xml};
use crate::profile_manager::{ProxyProfile, ProxyProfileView};
use crate::seqs::views;
use crate::settings::{
    proxy_settings_for, settings_for, text_result, Platform, ProxySettings, ProxySettingsView,
};
use crate::text::chars::{chars_of, owned, push_str, same_text, string_of};

verus! {

/// The dialect in which a target keeps its configuration.
#[derive(Clone, Copy, Debug, PartialEq, Eq, Structural)]
pub enum Editor {
    Git,
    Npm,
    Json,
    Xml,
}

/// The editor for the target `name`; `None` for a name that this crate
/// cannot edit.
pub open spec fn editor_for(name: Seq<char>) -> Option<Editor> {
    if name == "Git"@ {
        Some(Editor::Git)
    } else if name == "npm"@ {
        Some(Editor::Npm)
    } else if name == "Cursor"@ || name == "VSCode"@ {
        Some(Editor::Json)
    } else if name == "IDEA"@ {
        Some(Editor::Xml)
    } else {
        None
    }
}

/// The editor for the target `name`.
pub fn editor_of(name: &str) -> (r: Option<Editor>)
    ensures
        r == editor_for(name@),
{
    if same_text(name, "Git") {
        Some(Editor::Git)
    } else if same_text(name, "npm") {
        Some(Editor::Npm)
    } else if same_text(name, "Cursor") || same_text(name, "VSCode") {
        Some(Editor::Json)
    } else if same_text(name, "IDEA") {
        Some(Editor::Xml)
    } else {
        None
    }
}

/// The name of the target that stands for the environment variables.
pub open spec fn env_target_name() -> Seq<char> {
    "Windows Terminal"@
}

/// The message after the proxy was set.
pub open spec fn proxy_on() -> Seq<char> {
    "代理已开启"@
}

/// The message after the proxy was taken out.
pub open spec fn proxy_off() -> Seq<char> {
    "代理已关闭"@
}

/// The message where there is no configuration to take a proxy out of.
pub open spec fn nothing_to_strip() -> Seq<char> {
    "配置文件不存在，无需操作"@
}

/// The message after the proxy was set for the IDE.
pub open spec fn ide_on() -> Seq<char> {
    "代理已开启（需重启 IDEA）"@
}

/// The message after the proxy was taken out for the IDE.
pub open spec fn ide_off() -> Seq<char> {
    "代理已关闭（需重启 IDEA）"@
}

/// The message after the configuration was put back from the last snapshot.
pub open spec fn restored_last() -> Seq<char> {
    "已还原上次配置"@
}

/// The message after the configuration was put back from the first
/// snapshot.
pub open spec fn reset_done() -> Seq<char> {
    "已重置到初始状态"@
}

/// The message for a target whose configuration path cannot be resolved.
pub open spec fn no_config_path() -> Seq<char> {
    "无法获取配置路径"@
}

/// The message for a target that this crate cannot edit.
pub open spec fn unsupported() -> Seq<char> {
    "不支持的软件"@
}

/// The message for the environment variables on a platform that has none
/// to edit.
pub open spec fn windows_only() -> Seq<char> {
    "Windows Terminal 仅支持 Windows 系统"@
}

/// What a file reads as: its content, and nothing where it does not exist.
pub open spec fn read(content: Option<Seq<char>>) -> Seq<char> {
    match content {
        Some(text) => text,
        None => Seq::empty(),
    }
}

/// The configuration with the proxy set, and the message that goes with
/// it; or the reason why it was not set.
pub open spec fn applied(
    editor: Option<Editor>,
    content: Option<Seq<char>>,
    settings: ProxySettingsView,
) -> Result<(Seq<char>, Seq<char>), Seq<char>> {
    match editor {
        Some(Editor::Git) => Ok(
            (git::apply(read(content), settings.http_proxy, settings.https_proxy), proxy_on()),
        ),
        Some(Editor::Npm) => Ok(
            (npm::apply(read(content), settings.http_proxy, settings.https_proxy), proxy_on()),
        ),
        Some(Editor::Json) => match json::apply(content, settings.http_proxy) {
            Ok(text) => Ok((text, proxy_on())),
            Err(e) => Err(e),
        },
        Some(Editor::Xml) => match xml::apply(settings.http_proxy) {
            Ok(text) => Ok((text, ide_on())),
            Err(e) => Err(e),
        },
        None => Err(unsupported()),
    }
}

/// The configuration with the proxy taken out by the editor, and the
/// message that goes with it; or the reason why it was not taken out. A
/// configuration of `None` is a file that does not exist; the IDE's file is
/// deleted.
pub open spec fn stripped(editor: Option<Editor>, content: Option<Seq<char>>) -> Result<
    (Option<Seq<char>>, Seq<char>),
    Seq<char>,
> {
    match editor {
        Some(Editor::Git) => match content {
            Some(text) => Ok((Some(git::strip(text)), proxy_off())),
            None => Ok((None, nothing_to_strip())),
        },
        Some(Editor::Npm) => match content {
            Some(text) => Ok((Some(npm::strip(text)), proxy_off())),
            None => Ok((None, nothing_to_strip())),
        },
        Some(Editor::Json) => match content {
            Some(text) => match json::strip(text) {
                Ok(out) => Ok((Some(out), proxy_off())),
                Err(e) => Err(e),
            },
            None => Ok((None, nothing_to_strip())),
        },
        Some(Editor::Xml) => Ok((None, ide_off())),
        None => Err(unsupported()),
    }
}

/// The target `name` after enable, and what enable reports. The
/// configuration is backed up first; a failure of the backup leaves
/// everything as it was, a failure of the editor leaves the configuration
/// as it was.
pub open spec fn enabled(name: Seq<char>, target: FileTargetView, settings: ProxySettingsView) -> (
    FileTargetView,
    Result<Seq<char>, Seq<char>>,
) {
    if target.path is None {
        (target, Err(no_config_path()))
    } else {
        match backed_up(target) {
            Err(e) => (target, Err(e)),
            Ok(saved) => match applied(editor_for(name), saved.content, settings) {
                Ok((text, message)) => (
                    FileTargetView { content: Some(text), ..saved },
                    Ok(message),
                ),
                Err(e) => (saved, Err(e)),
            },
        }
    }
}

/// The target `name` after disable, and what disable reports. The last
/// snapshot is put back where there is one; where there is none, the editor
/// takes the proxy out.
pub open spec fn disabled(name: Seq<char>, target: FileTargetView) -> (
    FileTargetView,
    Result<Seq<char>, Seq<char>>,
) {
    if target.path is None {
        (target, Err(no_config_path()))
    } else {
        match restored(target, false) {
            Err(e) => (target, Err(e)),
            Ok(Some(after)) => (after, Ok(restored_last())),
            Ok(None) => match stripped(editor_for(name), target.content) {
                Ok((content, message)) => (FileTargetView { content, ..target }, Ok(message)),
                Err(e) => (target, Err(e)),
            },
        }
    }
}

/// The target after reset, and what reset reports. The first snapshot is
/// put back; where there is none, nothing changes and that is reported as a
/// success.
pub open spec fn reset(target: FileTargetView) -> (FileTargetView, Result<Seq<char>, Seq<char>>) {
    if target.path is None {
        (target, Err(no_config_path()))
    } else {
        match restored(target, true) {
            Err(e) => (target, Err(e)),
            Ok(Some(after)) => (after, Ok(reset_done())),
            Ok(None) => (target, Ok(nothing_to_reset())),
        }
    }
}

/// Sets the proxy for the file target `name`.
pub fn enable_file_proxy(name: &str, target: &mut FileTarget, settings: &ProxySettings) -> (r:
    Result<String, String>)
    ensures
        final(target)@ == enabled(name@, old(target)@, settings@).0,
        text_result(r) == enabled(name@, old(target)@, settings@).1,
{
    if target.path.is_none() {
        return Err(owned("无法获取配置路径"));
    }
    match backup_config(target) {
        Err(e) => {
            return Err(e);
        },
        Ok(()) => {},
    }
    proof {
        reveal_strlit("");
        assert(""@ =~= Seq::<char>::empty());
    }
    let edited = match editor_of(name) {
        Some(Editor::Git) => {
            let text = match &target.content {
                Some(text) => set_git_proxy(text.as_str(), settings),
                None => set_git_proxy("", settings),
            };
            Ok((text, owned("代理已开启")))
        },
        Some(Editor::Npm) => {
            let text = match &target.content {
                Some(text) => set_npm_proxy(text.as_str(), settings),
                None => set_npm_proxy("", settings),
            };
            Ok((text, owned("代理已开启")))
        },
        Some(Editor::Json) => match set_json_proxy(&target.content, settings) {
            Ok(text) => Ok((text, owned("代理已开启"))),
            Err(e) => Err(e),
        },
        Some(Editor::Xml) => match set_idea_proxy(settings) {
            Ok(text) => Ok((text, owned("代理已开启（需重启 IDEA）"))),
            Err(e) => Err(e),
        },
        None => Err(owned("不支持的软件")),
    };
    match edited {
        Ok((text, message)) => {
            target.content = Some(text);
            Ok(message)
        },
        Err(e) => Err(e),
    }
}

/// Takes the proxy out for the file target `name`.
pub fn disable_file_proxy(name: &str, target: &mut FileTarget) -> (r: Result<String, String>)
    ensures
        final(target)@ == disabled(name@, old(target)@).0,
        text_result(r) == disabled(name@, old(target)@).1,
{
    if target.path.is_none() {
        return Err(owned("无法获取配置路径"));
    }
    match restore_config(target, false) {
        Err(e) => {
            return Err(e);
        },
        Ok(true) => {
            return Ok(owned("已还原上次配置"));
        },
        Ok(false) => {},
    }
    match editor_of(name) {
        Some(Editor::Git) => match &target.content {
            Some(text) => {
                let out = remove_git_proxy_section(text.as_str());
                target.content = Some(out);
                Ok(owned("代理已关闭"))
            },
            None => Ok(owned("配置文件不存在，无需操作")),
        },
        Some(Editor::Npm) => match &target.content {
            Some(text) => {
                let out = clear_npm_proxy(text.as_str());
                target.content = Some(out);
                Ok(owned("代理已关闭"))
            },
            None => Ok(owned("配置文件不存在，无需操作")),
        },
        Some(Editor::Json) => match &target.content {
            Some(text) => match clear_json_proxy(text.as_str()) {
                Ok(out) => {
                    target.content = Some(out);
                    Ok(owned("代理已关闭"))
                },
                Err(e) => Err(e),
            },
            None => Ok(owned("配置文件不存在，无需操作")),
        },
        Some(Editor::Xml) => {
            target.content = None;
            Ok(owned("代理已关闭（需重启 IDEA）"))
        },
        None => Err(owned("不支持的软件")),
    }
}

/// Puts the first snapshot of a file target back. A target that was never
/// backed up stays as it is, and that counts as a success.
pub fn reset_file_to_original(target: &mut FileTarget) -> (r: Result<String, String>)
    ensures
        final(target)@ == reset(old(target)@).0,
        text_result(r) == reset(old(target)@).1,
        old(target)@.path is Some && (old(target)@.backups matches Some(pair)
            && pair.original is None) ==> final(target)@ == old(target)@ && r is Ok && r->Ok_0@
            == nothing_to_reset(),
{
    if target.path.is_none() {
        return Err(owned("无法获取配置路径"));
    }
    match restore_config(target, true) {
        Err(e) => Err(e),
        Ok(true) => Ok(owned("已重置到初始状态")),
        Ok(false) => Ok(owned("没有初始备份，无需重置")),
    }
}

/// What is on disk for one target: files for most, the environment
/// variables for one.
#[derive(Debug, Clone, PartialEq, Eq)]
pub enum TargetState {
    Files(FileTarget),
    Env(EnvTarget),
}

/// What a `TargetState` holds, as texts.
pub enum TargetStateView {
    Files(FileTargetView),
    Env(EnvTargetView),
}

impl View for TargetState {
    type V = TargetStateView;

    open spec fn view(&self) -> TargetStateView {
        match self {
            TargetState::Files(files) => TargetStateView::Files(files@),
            TargetState::Env(vars) => TargetStateView::Env(vars@),
        }
    }
}

/// A target by name, with what is on disk for it.
#[derive(Debug, Clone, PartialEq, Eq)]
pub struct Target {
    pub name: String,
    pub state: TargetState,
}

impl View for Target {
    type V = (Seq<char>, TargetStateView);

    open spec fn view(&self) -> (Seq<char>, TargetStateView) {
        (self.name@, self.state@)
    }
}

/// Whether the target `name` cannot be handled on `platform`: it stands for
/// the environment variables, which this crate edits on Windows only.
pub open spec fn out_of_place(name: Seq<char>, platform: Platform) -> bool {
    name == env_target_name() && platform != Platform::Windows
}

/// The target `name` after enable on `platform`, and what enable reports.
/// The state decides which family of editors runs.
pub open spec fn enabled_state(
    name: Seq<char>,
    platform: Platform,
    state: TargetStateView,
    settings: ProxySettingsView,
) -> (TargetStateView, Result<Seq<char>, Seq<char>>) {
    if out_of_place(name, platform) {
        (state, Err(windows_only()))
    } else {
        match state {
            TargetStateView::Files(files) => (
                TargetStateView::Files(enabled(name, files, settings).0),
                enabled(name, files, settings).1,
            ),
            TargetStateView::Env(vars) => (
                TargetStateView::Env(env::enabled(vars, settings).0),
                env::enabled(vars, settings).1,
            ),
        }
    }
}

/// The target `name` after disable on `platform`, and what disable reports.
pub open spec fn disabled_state(name: Seq<char>, platform: Platform, state: TargetStateView) -> (
    TargetStateView,
    Result<Seq<char>, Seq<char>>,
) {
    if out_of_place(name, platform) {
        (state, Err(windows_only()))
    } else {
        match state {
            TargetStateView::Files(files) => (
                TargetStateView::Files(disabled(name, files).0),
                disabled(name, files).1,
            ),
            TargetStateView::Env(vars) => (
                TargetStateView::Env(env::disabled(vars).0),
                env::disabled(vars).1,
            ),
        }
    }
}

/// The target `name` after reset on `platform`, and what reset reports.
pub open spec fn reset_state(name: Seq<char>, platform: Platform, state: TargetStateView) -> (
    TargetStateView,
    Result<Seq<char>, Seq<char>>,
) {
    if out_of_place(name, platform) {
        (state, Err(windows_only()))
    } else {
        match state {
            TargetStateView::Files(files) => (
                TargetStateView::Files(reset(files).0),
                reset(files).1,
            ),
            TargetStateView::Env(vars) => (
                TargetStateView::Env(env::reset(vars).0),
                env::reset(vars).1,
            ),
        }
    }
}

fn is_out_of_place(name: &str, platform: Platform) -> (r: bool)
    ensures
        r == out_of_place(name@, platform),
{
    same_text(name, "Windows Terminal") && platform != Platform::Windows
}

/// Sets the proxy for the target `name`.
pub fn enable_proxy_for_software(
    name: &str,
    platform: Platform,
    state: &mut TargetState,
    settings: &ProxySettings,
) -> (r: Result<String, String>)
    ensures
        final(state)@ == enabled_state(name@, platform, old(state)@, settings@).0,
        text_result(r) == enabled_state(name@, platform, old(state)@, settings@).1,
{
    if is_out_of_place(name, platform) {
        return Err(owned("Windows Terminal 仅支持 Windows 系统"));
    }
    match state {
        TargetState::Files(files) => enable_file_proxy(name, files, settings),
        TargetState::Env(vars) => enable_windows_env_proxy(vars, settings),
    }
}

/// Takes the proxy out for the target `name`.
pub fn disable_proxy_for_software(name: &str, platform: Platform, state: &mut TargetState) -> (r:
    Result<String, String>)
    ensures
        final(state)@ == disabled_state(name@, platform, old(state)@).0,
        text_result(r) == disabled_state(name@, platform, old(state)@).1,
{
    if is_out_of_place(name, platform) {
        return Err(owned("Windows Terminal 仅支持 Windows 系统"));
    }
    match state {
        TargetState::Files(files) => disable_file_proxy(name, files),
        TargetState::Env(vars) => disable_windows_env_proxy(vars),
    }
}

/// Puts the first snapshot of the target `name` back.
pub fn reset_software_to_original(name: &str, platform: Platform, state: &mut TargetState) -> (r:
    Result<String, String>)
    ensures
        final(state)@ == reset_state(name@, platform, old(state)@).0,
        text_result(r) == reset_state(name@, platform, old(state)@).1,
{
    if is_out_of_place(name, platform) {
        return Err(owned("Windows Terminal 仅支持 Windows 系统"));
    }
    match state {
        TargetState::Files(files) => reset_file_to_original(files),
        TargetState::Env(vars) => reset_windows_env_to_original(vars),
    }
}

/// The line that reports what happened to the target `name`: a check mark
/// and the message after a success, a cross and the reason after a failure.
pub open spec fn report_line(name: Seq<char>, outcome: Result<Seq<char>, Seq<char>>) -> Seq<char> {
    match outcome {
        Ok(message) => "✓ "@ + name + ": "@ + message,
        Err(reason) => "✗ "@ + name + ": "@ + reason,
    }
}

/// The line that reports what happened to the target `name`.
pub fn report(name: &str, outcome: &Result<String, String>) -> (line: String)
    ensures
        line@ == report_line(name@, text_result(*outcome)),
{
    let mut out: Vec<char> = Vec::new();
    match outcome {
        Ok(message) => {
            push_str(&mut out, "✓ ");
            push_str(&mut out, name);
            push_str(&mut out, ": ");
            push_str(&mut out, message.as_str());
        },
        Err(reason) => {
            push_str(&mut out, "✗ ");
            push_str(&mut out, name);
            push_str(&mut out, ": ");
            push_str(&mut out, reason.as_str());
        },
    }
    string_of(&out)
}

/// The targets after enable was tried on each, in order.
pub open spec fn all_enabled(
    targets: Seq<(Seq<char>, TargetStateView)>,
    platform: Platform,
    settings: ProxySettingsView,
) -> Seq<(Seq<char>, TargetStateView)> {
    Seq::new(
        targets.len(),
        |i: int| (targets[i].0, enabled_state(targets[i].0, platform, targets[i].1, settings).0),
    )
}

/// The report of enable: one line for each target, in order.
pub open spec fn enable_report(
    targets: Seq<(Seq<char>, TargetStateView)>,
    platform: Platform,
    settings: ProxySettingsView,
) -> Seq<Seq<char>> {
    Seq::new(
        targets.len(),
        |i: int|
            report_line(
                targets[i].0,
                enabled_state(targets[i].0, platform, targets[i].1, settings).1,
            ),
    )
}

/// The targets after disable was tried on each, in order.
pub open spec fn all_disabled(targets: Seq<(Seq<char>, TargetStateView)>, platform: Platform)
    -> Seq<(Seq<char>, TargetStateView)> {
    Seq::new(
        targets.len(),
        |i: int| (targets[i].0, disabled_state(targets[i].0, platform, targets[i].1).0),
    )
}

/// The report of disable: one line for each target, in order.
pub open spec fn disable_report(targets: Seq<(Seq<char>, TargetStateView)>, platform: Platform)
    -> Seq<Seq<char>> {
    Seq::new(
        targets.len(),
        |i: int|
            report_line(targets[i].0, disabled_state(targets[i].0, platform, targets[i].1).1),
    )
}

/// The targets after reset was tried on each, in order.
pub open spec fn all_reset(targets: Seq<(Seq<char>, TargetStateView)>, platform: Platform) -> Seq<
    (Seq<char>, TargetStateView),
> {
    Seq::new(
        targets.len(),
        |i: int| (targets[i].0, reset_state(targets[i].0, platform, targets[i].1).0),
    )
}

/// The report of reset: one line for each target, in order.
pub open spec fn reset_report(targets: Seq<(Seq<char>, TargetStateView)>, platform: Platform)
    -> Seq<Seq<char>> {
    Seq::new(
        targets.len(),
        |i: int| report_line(targets[i].0, reset_state(targets[i].0, platform, targets[i].1).1),
    )
}

/// Takes the first target out of the list.
fn take_first(targets: &mut Vec<Target>) -> (first: Target)
    requires
        old(targets).len() > 0,
    ensures
        first@ == views(old(targets)@)[0],
        views(final(targets)@) == views(old(targets)@).skip(1),
{
    let first = targets.remove(0);
    assert(views(targets@) =~= views(old(targets)@).skip(1));
    first
}

/// Sets the proxy for every target of the list, each on its own: the
/// failure of one leaves the others untouched. The report has one line for
/// each target, in the order of the list.
pub fn enable_proxy(targets: &mut Vec<Target>, platform: Platform, settings: &ProxySettings) -> (r:
    Result<Vec<String>, String>)
    ensures
        r is Ok,
        views(r->Ok_0@) == enable_report(views(old(targets)@), platform, settings@),
        views(final(targets)@) == all_enabled(views(old(targets)@), platform, settings@),
{
    let ghost all = views(targets@);
    let mut done: Vec<Target> = Vec::new();
    let mut lines: Vec<String> = Vec::new();
    while targets.len() > 0
        invariant
            done.len() == lines.len(),
            done.len() + targets.len() == all.len(),
            views(targets@) == all.skip(done.len() as int),
            forall|k: int|
                0 <= k < done.len() ==> (#[trigger] done@[k])@ == all_enabled(
                    all,
                    platform,
                    settings@,
                )[k],
            forall|k: int|
                0 <= k < lines.len() ==> (#[trigger] lines@[k])@ == enable_report(
                    all,
                    platform,
                    settings@,
                )[k],
        decreases targets.len(),
    {
        let ghost at = done.len() as int;
        let mut target = take_first(targets);
        assert(target@ == all[at]);
        let outcome = enable_proxy_for_software(
            target.name.as_str(),
            platform,
            &mut target.state,
            settings,
        );
        lines.push(report(target.name.as_str(), &outcome));
        done.push(target);
        assert(views(targets@) =~= all.skip(at + 1));
    }
    *targets = done;
    assert(views(lines@) =~= enable_report(all, platform, settings@));
    assert(views(targets@) =~= all_enabled(all, platform, settings@));
    Ok(lines)
}

/// Takes the proxy out for every target of the list, each on its own. The
/// report has one line for each target, in the order of the list.
pub fn disable_proxy(targets: &mut Vec<Target>, platform: Platform) -> (r: Result<
    Vec<String>,
    String,
>)
    ensures
        r is Ok,
        views(r->Ok_0@) == disable_report(views(old(targets)@), platform),
        views(final(targets)@) == all_disabled(views(old(targets)@), platform),
{
    let ghost all = views(targets@);
    let mut done: Vec<Target> = Vec::new();
    let mut lines: Vec<String> = Vec::new();
    while targets.len() > 0
        invariant
            done.len() == lines.len(),
            done.len() + targets.len() == all.len(),
            views(targets@) == all.skip(done.len() as int),
            forall|k: int|
                0 <= k < done.len() ==> (#[trigger] done@[k])@ == all_disabled(all, platform)[k],
            forall|k: int|
                0 <= k < lines.len() ==> (#[trigger] lines@[k])@ == disable_report(
                    all,
                    platform,
                )[k],
        decreases targets.len(),
    {
        let ghost at = done.len() as int;
        let mut target = take_first(targets);
        assert(target@ == all[at]);
        let outcome = disable_proxy_for_software(target.name.as_str(), platform, &mut target.state);
        lines.push(report(target.name.as_str(), &outcome));
        done.push(target);
        assert(views(targets@) =~= all.skip(at + 1));
    }
    *targets = done;
    assert(views(lines@) =~= disable_report(all, platform));
    assert(views(targets@) =~= all_disabled(all, platform));
    Ok(lines)
}

/// Puts the first snapshot back for every target of the list, each on its
/// own. The report has one line for each target, in the order of the list.
pub fn reset_to_original(targets: &mut Vec<Target>, platform: Platform) -> (r: Result<
    Vec<String>,
    String,
>)
    ensures
        r is Ok,
        views(r->Ok_0@) == reset_report(views(old(targets)@), platform),
        views(final(targets)@) == all_reset(views(old(targets)@), platform),
{
    let ghost all = views(targets@);
    let mut done: Vec<Target> = Vec::new();
    let mut lines: Vec<String> = Vec::new();
    while targets.len() > 0
        invariant
            done.len() == lines.len(),
            done.len() + targets.len() == all.len(),
            views(targets@) == all.skip(done.len() as int),
            forall|k: int|
                0 <= k < done.len() ==> (#[trigger] done@[k])@ == all_reset(all, platform)[k],
            forall|k: int|
                0 <= k < lines.len() ==> (#[trigger] lines@[k])@ == reset_report(
                    all,
                    platform,
                )[k],
        decreases targets.len(),
    {
        let ghost at = done.len() as int;
        let mut target = take_first(targets);
        assert(target@ == all[at]);
        let outcome = reset_software_to_original(target.name.as_str(), platform, &mut target.state);
        lines.push(report(target.name.as_str(), &outcome));
        done.push(target);
        assert(views(targets@) =~= all.skip(at + 1));
    }
    *targets = done;
    assert(views(lines@) =~= reset_report(all, platform));
    assert(views(targets@) =~= all_reset(all, platform));
    Ok(lines)
}

/// A target together with the name of the profile it is to use.
#[derive(Debug, Clone, PartialEq, Eq)]
pub struct ProfiledTarget {
    pub target: Target,
    pub profile_name: String,
}

impl View for ProfiledTarget {
    type V = ((Seq<char>, TargetStateView), Seq<char>);

    open spec fn view(&self) -> ((Seq<char>, TargetStateView), Seq<char>) {
        (self.target@, self.profile_name@)
    }
}

/// The last profile named `name`.
pub open spec fn profile_named(profiles: Seq<ProxyProfileView>, name: Seq<char>) -> Option<
    ProxyProfileView,
>
    decreases profiles.len(),
{
    if profiles.len() == 0 {
        None
    } else if profiles.last().name == name {
        Some(profiles.last())
    } else {
        profile_named(profiles.drop_last(), name)
    }
}

/// The message for a profile that cannot be found.
pub open spec fn profile_not_found(name: Seq<char>) -> Seq<char> {
    "未找到配置 '"@ + name + "'"@
}

/// One target after enable with its profile, and what is reported: the
/// profile gives the proxy's host and port; a profile that cannot be found
/// is a failure that leaves the target untouched.
pub open spec fn enabled_with_profile(
    profiles: Seq<ProxyProfileView>,
    platform: Platform,
    entry: ((Seq<char>, TargetStateView), Seq<char>),
) -> (TargetStateView, Result<Seq<char>, Seq<char>>) {
    match profile_named(profiles, entry.1) {
        Some(profile) => enabled_state(
            entry.0.0,
            platform,
            entry.0.1,
            settings_for(profile.host, profile.port),
        ),
        None => (entry.0.1, Err(profile_not_found(entry.1))),
    }
}

/// The targets after enable was tried on each with its profile, in order.
pub open spec fn all_enabled_with_profiles(
    profiles: Seq<ProxyProfileView>,
    platform: Platform,
    entries: Seq<((Seq<char>, TargetStateView), Seq<char>)>,
) -> Seq<((Seq<char>, TargetStateView), Seq<char>)> {
    Seq::new(
        entries.len(),
        |i: int|
            (
                (entries[i].0.0, enabled_with_profile(profiles, platform, entries[i]).0),
                entries[i].1,
            ),
    )
}

/// The report of enable with profiles: one line for each target, in order.
pub open spec fn profile_report(
    profiles: Seq<ProxyProfileView>,
    platform: Platform,
    entries: Seq<((Seq<char>, TargetStateView), Seq<char>)>,
) -> Seq<Seq<char>> {
    Seq::new(
        entries.len(),
        |i: int|
            report_line(entries[i].0.0, enabled_with_profile(profiles, platform, entries[i]).1),
    )
}

fn find_profile_named(profiles: &Vec<ProxyProfile>, name: &str) -> (r: Option<usize>)
    ensures
        match r {
            Some(i) => i < profiles.len() && profile_named(views(profiles@), name@) == Some(
                profiles@[i as int]@,
            ),
            None => profile_named(views(profiles@), name@) is None,
        },
{
    let ghost all = views(profiles@);
    let mut i: usize = profiles.len();
    assert(all.take(i as int) =~= all);
    while i > 0
        invariant
            i <= profiles.len(),
            all == views(profiles@),
            profile_named(all.take(i as int), name@) == profile_named(all, name@),
        decreases i,
    {
        assert(all.take(i as int).last() == profiles@[i - 1]@);
        assert(all.take(i as int).drop_last() =~= all.take(i - 1));
        i -= 1;
        if same_text(profiles[i].name.as_str(), name) {
            return Some(i);
        }
    }
    None
}

/// Whether a profile named `name` is among `profiles`.
pub fn knows_profile(profiles: &Vec<ProxyProfile>, name: &str) -> (r: bool)
    ensures
        r == (profile_named(views(profiles@), name@) is Some),
{
    find_profile_named(profiles, name).is_some()
}

fn take_first_profiled(entries: &mut Vec<ProfiledTarget>) -> (first: ProfiledTarget)
    requires
        old(entries).len() > 0,
    ensures
        first@ == views(old(entries)@)[0],
        views(final(entries)@) == views(old(entries)@).skip(1),
{
    let first = entries.remove(0);
    assert(views(entries@) =~= views(old(entries)@).skip(1));
    first
}

fn not_found(profile_name: &str) -> (r: String)
    ensures
        r@ == profile_not_found(profile_name@),
{
    let mut out = chars_of("未找到配置 '");
    push_str(&mut out, profile_name);
    push_str(&mut out, "'");
    string_of(&out)
}

/// Sets the proxy for every target of the list, each from the profile it
/// names. The report has one line for each target, in the order of the
/// list.
pub fn enable_proxy_with_profiles(
    profiles: &Vec<ProxyProfile>,
    entries: &mut Vec<ProfiledTarget>,
    platform: Platform,
) -> (r: Result<Vec<String>, String>)
    ensures
        r is Ok,
        views(r->Ok_0@) == profile_report(views(profiles@), platform, views(old(entries)@)),
        views(final(entries)@) == all_enabled_with_profiles(
            views(profiles@),
            platform,
            views(old(entries)@),
        ),
{
    let ghost all = views(entries@);
    let ghost known = views(profiles@);
    let mut done: Vec<ProfiledTarget> = Vec::new();
    let mut lines: Vec<String> = Vec::new();
    while entries.len() > 0
        invariant
            done.len() == lines.len(),
            done.len() + entries.len() == all.len(),
            views(entries@) == all.skip(done.len() as int),
            known == views(profiles@),
            forall|k: int|
                0 <= k < done.len() ==> (#[trigger] done@[k])@ == all_enabled_with_profiles(
                    known,
                    platform,
                    all,
                )[k],
            forall|k: int|
                0 <= k < lines.len() ==> (#[trigger] lines@[k])@ == profile_report(
                    known,
                    platform,
                    all,
                )[k],
        decreases entries.len(),
    {
        let ghost at = done.len() as int;
        let mut entry = take_first_profiled(entries);
        assert(entry@ == all[at]);
        let outcome = match find_profile_named(profiles, entry.profile_name.as_str()) {
            Some(i) => {
                let settings = proxy_settings_for(profiles[i].host.as_str(), profiles[i].port);
                enable_proxy_for_software(
                    entry.target.name.as_str(),
                    platform,
                    &mut entry.target.state,
                    &settings,
                )
            },
            None => Err(not_found(entry.profile_name.as_str())),
        };
        lines.push(report(entry.target.name.as_str(), &outcome));
        done.push(entry);
        assert(views(entries@) =~= all.skip(at + 1));
    }
    *entries = done;
    assert(views(lines@) =~= profile_report(known, platform, all));
    assert(views(entries@) =~= all_enabled_with_profiles(known, platform, all));
    Ok(lines)
}

/// After enable, enable again and reset, the configuration is what the
/// first backup ever taken of the target holds: the first snapshot that was
/// there before, or else the configuration from before the first enable, or
/// else, where there was no file then, what the first enable wrote. Where
/// no backup was ever taken, reset changes nothing.
pub proof fn law_reset_restores_first_backup(
    name: Seq<char>,
    target: FileTargetView,
    first: ProxySettingsView,
    second: ProxySettingsView,
)
    requires
        target.path is Some,
        target.backups is Some,
    ensures
        ({
            let once = enabled(name, target, first).0;
            let twice = enabled(name, once, second).0;
            let after = reset(twice).0;
            let captured = if target.backups->0.original is Some {
                target.backups->0.original
            } else if target.content is Some {
                target.content
            } else {
                once.content
            };
            &&& twice.backups->0.original == captured
            &&& captured is Some ==> after.content == captured
            &&& captured is None ==> after == twice
        }),
{
}

/// Whether the editor of the target `name`, run on what it wrote for
/// `content`, writes the same again. An editor that fails writes nothing,
/// and that counts.
pub open spec fn edit_repeats(name: Seq<char>, content: Option<Seq<char>>, settings: ProxySettingsView)
    -> bool {
    match applied(editor_for(name), content, settings) {
        Ok((text, _)) => match applied(editor_for(name), Some(text), settings) {
            Ok((again, _)) => again == text,
            Err(_) => false,
        },
        Err(_) => true,
    }
}

/// Enable twice with the same settings leaves the configuration that
/// enable once leaves, for every target whose editor repeats itself.
pub proof fn law_enable_twice(name: Seq<char>, target: FileTargetView, settings: ProxySettingsView)
    requires
        edit_repeats(name, target.content, settings),
    ensures
        enabled(name, enabled(name, target, settings).0, settings).0.content == enabled(
            name,
            target,
            settings,
        ).0.content,
{
}

/// The editor of Git repeats itself where what it keeps of the
/// configuration is stable under stripping and where stripping takes the
/// whole proxy block away.
pub proof fn law_git_edit_repeats(content: Option<Seq<char>>, settings: ProxySettingsView)
    requires
        git::strip(git::strip(read(content))) == git::strip(read(content)),
        git::strip(git::proxy_block(settings.http_proxy, settings.https_proxy)).len() == 0,
    ensures
        edit_repeats("Git"@, content, settings),
{
    git::law_apply_twice(read(content), settings.http_proxy, settings.https_proxy);
}

/// The editor of npm repeats itself where stripping takes both new proxy
/// lines away and where what it keeps of the configuration is stable under
/// stripping.
pub proof fn law_npm_edit_repeats(content: Option<Seq<char>>, settings: ProxySettingsView)
    requires
        npm::owned(settings.http_proxy, settings.https_proxy),
        npm::stable(read(content)),
    ensures
        edit_repeats("npm"@, content, settings),
{
    npm::law_apply_twice(read(content), settings.http_proxy, settings.https_proxy);
    assert(editor_for("npm"@) == Some(Editor::Npm)) by {
        reveal_strlit("Git");
        reveal_strlit("npm");
        assert("Git"@.len() == 3);
        assert("npm"@.len() == 3);
        assert("Git"@[0] != "npm"@[0]);
    }
}

/// The editor of the settings in JSON repeats itself where the text that
/// the printer wrote is read back as the members that were printed.
pub proof fn law_json_edit_repeats(
    name: Seq<char>,
    content: Option<Seq<char>>,
    settings: ProxySettingsView,
)
    requires
        editor_for(name) == Some(Editor::Json),
        json::apply(content, settings.http_proxy) matches Ok(text) ==> json::members_of(text)
            == json::with_proxy(json::settings_of(content), settings.http_proxy),
    ensures
        edit_repeats(name, content, settings),
{
    json::law_set_proxy_twice(json::settings_of(content), settings.http_proxy);
}

/// The editor of the IDE repeats itself: it writes the document anew from
/// the settings alone.
pub proof fn law_ide_edit_repeats(content: Option<Seq<char>>, settings: ProxySettingsView)
    ensures
        edit_repeats("IDEA"@, content, settings),
{
    assert(editor_for("IDEA"@) == Some(Editor::Xml)) by {
        reveal_strlit("IDEA");
        reveal_strlit("Git");
        reveal_strlit("npm");
        reveal_strlit("Cursor");
        reveal_strlit("VSCode");
        assert("IDEA"@.len() == 4);
        assert("Git"@.len() == 3);
        assert("npm"@.len() == 3);
        assert("Cursor"@.len() == 6);
        assert("VSCode"@.len() == 6);
    }
}

/// After enable and disable, the configuration is what it was before the
/// enable, whether the enable succeeded or not.
pub proof fn law_disable_restores_previous(
    name: Seq<char>,
    target: FileTargetView,
    settings: ProxySettingsView,
)
    requires
        target.content is Some,
    ensures
        disabled(name, enabled(name, target, settings).0).0.content == target.content,
{
}

/// The IDE's configuration is one file that enable writes and disable
/// deletes: where there was no file and no last snapshot before enable,
/// there is no file after disable.
pub proof fn law_disable_deletes_generated_file(target: FileTargetView, settings: ProxySettingsView)
    requires
        target.path is Some,
        target.content is None,
        target.backups matches Some(pair) && pair.current is None,
    ensures
        disabled("IDEA"@, enabled("IDEA"@, target, settings).0).0.content is None,
{
    assert(editor_for("IDEA"@) == Some(Editor::Xml)) by {
        reveal_strlit("IDEA");
        reveal_strlit("Git");
        reveal_strlit("npm");
        reveal_strlit("Cursor");
        reveal_strlit("VSCode");
        assert("IDEA"@.len() == 4);
        assert("Git"@.len() == 3);
        assert("npm"@.len() == 3);
        assert("Cursor"@.len() == 6);
        assert("VSCode"@.len() == 6);
    }
}

/// Reset on a target that was never backed up reports a success with the
/// message that there is nothing to do, and changes nothing.
pub proof fn law_reset_without_backup(target: FileTargetView)
    requires
        target.path is Some,
        target.backups matches Some(pair) && pair.original is None,
    ensures
        reset(target) == (target, Ok::<Seq<char>, Seq<char>>(nothing_to_reset())),
{
}

} // verus!
