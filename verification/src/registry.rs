//! The targets this crate knows and where each keeps its configuration.

use vstd::prelude::*;
use crate::outside::{config_dir, home_dir};
use crate::profile_manager::{CustomSoftware, CustomSoftwareView};
use crate::seqs::{lemma_views_push, views};
use crate::settings::{opt_text, Platform, SoftwareConfig, SoftwareConfigView};
use crate::text::chars::{chars_of, owned, push_str, same_text, string_of};
use crate::text::search::{
    begins_with, comes_before, lemma_precedes_irreflexive, lemma_precedes_transitive, precedes,
    starts_with,
};

verus! {

/// The character that the platform puts between the parts of a path.
pub open spec fn separator(platform: Platform) -> char {
    if platform == Platform::Windows {
        '\\'
    } else {
        '/'
    }
}

/// Whether `c` separates the parts of a path on the platform.
pub open spec fn is_separator(c: char, platform: Platform) -> bool {
    c == '/' || (platform == Platform::Windows && c == '\\')
}

/// `base` extended by the relative path `part`: a separator stands between
/// the two unless `base` is empty or ends with one already.
pub open spec fn join(base: Seq<char>, part: Seq<char>, platform: Platform) -> Seq<char> {
    if base.len() == 0 || is_separator(base.last(), platform) {
        base + part
    } else {
        base.push(separator(platform)) + part
    }
}

/// `base` extended by the relative path `part`.
pub fn join_path(base: &str, part: &str, platform: Platform) -> (r: String)
    ensures
        r@ == join(base@, part@, platform),
{
    let mut v = chars_of(base);
    let open = if v.len() == 0 {
        true
    } else {
        let last = v[v.len() - 1];
        last == '/' || (platform == Platform::Windows && last == '\\')
    };
    if !open {
        if platform == Platform::Windows {
            v.push('\\');
        } else {
            v.push('/');
        }
    }
    push_str(&mut v, part);
    string_of(&v)
}

/// What the name of every install directory of the IDE begins with.
pub open spec fn install_prefix() -> Seq<char> {
    "IntelliJIdea"@
}

/// The name that comes last in the order of dictionaries among those that
/// begin with the install prefix; `None` where no name does.
pub open spec fn latest_install(names: Seq<Seq<char>>) -> Option<Seq<char>>
    decreases names.len(),
{
    if names.len() == 0 {
        None
    } else {
        let rest = latest_install(names.drop_last());
        let last = names.last();
        if !starts_with(last, install_prefix()) {
            rest
        } else {
            match rest {
                Some(best) if !precedes(best, last) => rest,
                _ => Some(last),
            }
        }
    }
}

/// `latest_install` picks a name of the list that begins with the install
/// prefix and that no other such name of the list comes after; it picks none
/// only where no name begins with the prefix.
pub proof fn law_latest_install_comes_last(names: Seq<Seq<char>>)
    ensures
        latest_install(names) is None <==> forall|j: int|
            0 <= j < names.len() ==> !starts_with(#[trigger] names[j], install_prefix()),
        latest_install(names) matches Some(best) ==> {
            &&& names.contains(best)
            &&& starts_with(best, install_prefix())
            &&& forall|j: int|
                0 <= j < names.len() && starts_with(#[trigger] names[j], install_prefix())
                    ==> !precedes(best, names[j])
        },
    decreases names.len(),
{
    if names.len() > 0 {
        let front = names.drop_last();
        let last = names.last();
        law_latest_install_comes_last(front);
        assert forall|j: int| 0 <= j < front.len() implies front[j] == names[j] by {}
        match latest_install(names) {
            None => {
                assert forall|j: int| 0 <= j < names.len() implies !starts_with(
                    #[trigger] names[j],
                    install_prefix(),
                ) by {
                    if j < front.len() {
                        assert(front[j] == names[j]);
                    }
                }
            },
            Some(best) => {
                if latest_install(front) == Some(best) {
                    let k = choose|k: int| 0 <= k < front.len() && front[k] == best;
                    assert(names[k] == best);
                } else {
                    assert(names[names.len() - 1] == best);
                }
                assert forall|j: int|
                    0 <= j < names.len() && starts_with(
                        #[trigger] names[j],
                        install_prefix(),
                    ) implies !precedes(best, names[j]) by {
                    if j < front.len() {
                        assert(front[j] == names[j]);
                        let old_best = latest_install(front)->0;
                        if old_best != best {
                            if precedes(best, names[j]) {
                                lemma_precedes_transitive(old_best, best, names[j]);
                            }
                        }
                    } else {
                        lemma_precedes_irreflexive(last);
                    }
                }
            },
        }
    }
}

/// The install directory that stands for the latest version: the name that
/// comes last in the order of dictionaries, not the greatest version number.
pub fn latest_idea_dir(entries: &Vec<String>) -> (r: Option<String>)
    ensures
        opt_text(r) == latest_install(views(entries@)),
{
    let prefix = chars_of("IntelliJIdea");
    let ghost names = views(entries@);
    let mut best: Option<usize> = None;
    let mut i: usize = 0;
    assert(names.take(0) == Seq::<Seq<char>>::empty());
    while i < entries.len()
        invariant
            i <= entries.len(),
            names == views(entries@),
            prefix@ == install_prefix(),
            match best {
                Some(b) => b < i && latest_install(names.take(i as int)) == Some(names[b as int]),
                None => latest_install(names.take(i as int)) is None,
            },
        decreases entries.len() - i,
    {
        let name = chars_of(entries[i].as_str());
        proof {
            assert(names.take(i + 1).drop_last() == names.take(i as int));
            assert(names.take(i + 1).last() == names[i as int]);
            assert(name@ == names[i as int]);
        }
        if begins_with(&name, &prefix) {
            match best {
                Some(b) => {
                    let held = chars_of(entries[b].as_str());
                    if comes_before(&held, &name) {
                        best = Some(i);
                    }
                },
                None => {
                    best = Some(i);
                },
            }
        }
        i += 1;
    }
    assert(names.take(entries.len() as int) == names);
    match best {
        Some(b) => Some(owned(entries[b].as_str())),
        None => None,
    }
}

/// Where an editor of the VS Code family keeps its settings: `app` names the
/// editor's directory.
pub open spec fn settings_path(
    app: Seq<char>,
    platform: Platform,
    home: Seq<char>,
    config: Option<Seq<char>>,
) -> Option<Seq<char>> {
    if platform == Platform::MacOs {
        Some(
            join(
                home,
                "Library/Application Support/"@ + app + "/User/settings.json"@,
                platform,
            ),
        )
    } else {
        match config {
            Some(dir) => Some(
                join(join(join(dir, app, platform), "User"@, platform), "settings.json"@, platform),
            ),
            None => None,
        }
    }
}

/// The directory in which the IDE's vendor keeps one directory per installed
/// version; `None` on a platform where this crate does not look for the IDE.
pub open spec fn vendor_dir(
    platform: Platform,
    home: Option<Seq<char>>,
    config: Option<Seq<char>>,
) -> Option<Seq<char>> {
    match (home, platform, config) {
        (Some(_), Platform::Windows, Some(dir)) => Some(join(dir, "JetBrains"@, platform)),
        (Some(h), Platform::MacOs, _) => Some(
            join(h, "Library/Application Support/JetBrains"@, platform),
        ),
        _ => None,
    }
}

/// Where the IDE keeps its proxy settings: in the latest install directory
/// among `entries`, the names found in the vendor directory.
pub open spec fn idea_path(
    platform: Platform,
    home: Option<Seq<char>>,
    config: Option<Seq<char>>,
    entries: Seq<Seq<char>>,
) -> Option<Seq<char>> {
    match (vendor_dir(platform, home, config), latest_install(entries)) {
        (Some(dir), Some(latest)) => Some(
            join(
                join(join(dir, latest, platform), "options"@, platform),
                "proxy.settings.xml"@,
                platform,
            ),
        ),
        _ => None,
    }
}

/// Where the target `name` keeps its configuration. No target has a path
/// where the home directory is unknown, and only the five file-based targets
/// ever have one.
pub open spec fn config_path(
    name: Seq<char>,
    platform: Platform,
    home: Option<Seq<char>>,
    config: Option<Seq<char>>,
    entries: Seq<Seq<char>>,
) -> Option<Seq<char>> {
    match home {
        None => None,
        Some(h) => if name == "Git"@ {
            Some(join(h, ".gitconfig"@, platform))
        } else if name == "npm"@ {
            Some(join(h, ".npmrc"@, platform))
        } else if name == "Cursor"@ {
            settings_path("Cursor"@, platform, h, config)
        } else if name == "VSCode"@ {
            settings_path("Code"@, platform, h, config)
        } else if name == "IDEA"@ {
            idea_path(platform, home, config, entries)
        } else {
            None
        },
    }
}

fn settings_path_for(app: &str, platform: Platform, home: &str, config: &Option<String>) -> (r:
    Option<String>)
    ensures
        opt_text(r) == settings_path(app@, platform, home@, opt_text(*config)),
{
    if platform == Platform::MacOs {
        let mut part = chars_of("Library/Application Support/");
        push_str(&mut part, app);
        push_str(&mut part, "/User/settings.json");
        let part = string_of(&part);
        Some(join_path(home, part.as_str(), platform))
    } else {
        match config {
            Some(dir) => {
                let app_dir = join_path(dir.as_str(), app, platform);
                let user_dir = join_path(app_dir.as_str(), "User", platform);
                Some(join_path(user_dir.as_str(), "settings.json", platform))
            },
            None => None,
        }
    }
}

/// The vendor directory to list, given the two directories the platform
/// reports.
pub fn vendor_dir_for(platform: Platform, home: &Option<String>, config: &Option<String>) -> (r:
    Option<String>)
    ensures
        opt_text(r) == vendor_dir(platform, opt_text(*home), opt_text(*config)),
{
    match home {
        None => None,
        Some(h) => match platform {
            Platform::Windows => match config {
                Some(dir) => Some(join_path(dir.as_str(), "JetBrains", platform)),
                None => None,
            },
            Platform::MacOs => Some(
                join_path(h.as_str(), "Library/Application Support/JetBrains", platform),
            ),
            Platform::Other => None,
        },
    }
}

/// The configuration path of the target `name`, given the two directories
/// the platform reports and the names found in the vendor directory.
pub fn config_path_for(
    name: &str,
    platform: Platform,
    home: &Option<String>,
    config: &Option<String>,
    vendor_entries: &Vec<String>,
) -> (r: Option<String>)
    ensures
        opt_text(r) == config_path(
            name@,
            platform,
            opt_text(*home),
            opt_text(*config),
            views(vendor_entries@),
        ),
{
    match home {
        None => None,
        Some(h) => {
            if same_text(name, "Git") {
                Some(join_path(h.as_str(), ".gitconfig", platform))
            } else if same_text(name, "npm") {
                Some(join_path(h.as_str(), ".npmrc", platform))
            } else if same_text(name, "Cursor") {
                settings_path_for("Cursor", platform, h.as_str(), config)
            } else if same_text(name, "VSCode") {
                settings_path_for("Code", platform, h.as_str(), config)
            } else if same_text(name, "IDEA") {
                match (vendor_dir_for(platform, home, config), latest_idea_dir(vendor_entries)) {
                    (Some(dir), Some(latest)) => {
                        let install = join_path(dir.as_str(), latest.as_str(), platform);
                        let options = join_path(install.as_str(), "options", platform);
                        Some(join_path(options.as_str(), "proxy.settings.xml", platform))
                    },
                    _ => None,
                }
            } else {
                None
            }
        },
    }
}

/// The vendor directory to list on this machine. The two directories come
/// from the environment; whatever they are, the result is the vendor
/// directory for them.
pub fn vendor_directory(platform: Platform) -> (r: Option<String>)
    ensures
        exists|home: Option<Seq<char>>, config: Option<Seq<char>>|
            opt_text(r) == #[trigger] vendor_dir(platform, home, config),
{
    let home = home_dir();
    let config = config_dir();
    vendor_dir_for(platform, &home, &config)
}

/// The configuration path of the target `name` on this machine. The two
/// directories come from the environment; whatever they are, the result is
/// the path for them.
pub fn get_config_path(name: &str, platform: Platform, vendor_entries: &Vec<String>) -> (r:
    Option<String>)
    ensures
        exists|home: Option<Seq<char>>, config: Option<Seq<char>>|
            opt_text(r) == #[trigger] config_path(
                name@,
                platform,
                home,
                config,
                views(vendor_entries@),
            ),
{
    let home = home_dir();
    let config = config_dir();
    config_path_for(name, platform, &home, &config, vendor_entries)
}

/// A built-in target before anything is known of the machine.
pub open spec fn builtin_entry(name: Seq<char>, config_type: Seq<char>) -> SoftwareConfigView {
    SoftwareConfigView {
        name,
        config_type,
        enabled: true,
        installed: false,
        config_path: None,
        is_custom: false,
    }
}

/// The target that stands for the environment variables of the user.
pub open spec fn env_entry() -> SoftwareConfigView {
    SoftwareConfigView {
        name: "Windows Terminal"@,
        config_type: "env"@,
        enabled: true,
        installed: true,
        config_path: Some("HKEY_CURRENT_USER\\Environment"@),
        is_custom: false,
    }
}

/// The built-in targets: five that live in files and, on Windows, the
/// environment variables.
pub open spec fn builtin(platform: Platform) -> Seq<SoftwareConfigView> {
    let files = seq![
        builtin_entry("Git"@, "ini"@),
        builtin_entry("npm"@, "ini"@),
        builtin_entry("Cursor"@, "json"@),
        builtin_entry("VSCode"@, "json"@),
        builtin_entry("IDEA"@, "xml"@),
    ];
    if platform == Platform::Windows {
        files.push(env_entry())
    } else {
        files
    }
}

fn new_entry(name: &str, config_type: &str) -> (r: SoftwareConfig)
    ensures
        r@ == builtin_entry(name@, config_type@),
{
    SoftwareConfig {
        name: owned(name),
        config_type: owned(config_type),
        enabled: true,
        installed: false,
        config_path: None,
        is_custom: false,
    }
}

fn env_target() -> (r: SoftwareConfig)
    ensures
        r@ == env_entry(),
{
    SoftwareConfig {
        name: owned("Windows Terminal"),
        config_type: owned("env"),
        enabled: true,
        installed: true,
        config_path: Some(owned("HKEY_CURRENT_USER\\Environment")),
        is_custom: false,
    }
}

/// The built-in targets.
pub fn builtin_software(platform: Platform) -> (list: Vec<SoftwareConfig>)
    ensures
        views(list@) == builtin(platform),
{
    let mut list: Vec<SoftwareConfig> = Vec::new();
    list.push(new_entry("Git", "ini"));
    list.push(new_entry("npm", "ini"));
    list.push(new_entry("Cursor", "json"));
    list.push(new_entry("VSCode", "json"));
    list.push(new_entry("IDEA", "xml"));
    if platform == Platform::Windows {
        list.push(env_target());
    }
    assert(views(list@) =~= builtin(platform));
    list
}

/// What was found on disk for the configuration path of one target.
#[derive(Debug, Clone, PartialEq, Eq)]
pub struct PathProbe {
    /// The target's name.
    pub name: String,
    /// Its configuration path.
    pub path: String,
    /// Whether something exists at the path.
    pub exists: bool,
    /// Whether the directory that would hold the path exists.
    pub parent_exists: bool,
}

/// What a `PathProbe` holds, as texts.
pub struct PathProbeView {
    pub name: Seq<char>,
    pub path: Seq<char>,
    pub exists: bool,
    pub parent_exists: bool,
}

impl View for PathProbe {
    type V = PathProbeView;

    open spec fn view(&self) -> PathProbeView {
        PathProbeView {
            name: self.name@,
            path: self.path@,
            exists: self.exists,
            parent_exists: self.parent_exists,
        }
    }
}

/// The first probe made for the target `name`.
pub open spec fn first_probe(probes: Seq<PathProbeView>, name: Seq<char>) -> Option<
    PathProbeView,
>
    decreases probes.len(),
{
    if probes.len() == 0 {
        None
    } else if probes[0].name == name {
        Some(probes[0])
    } else {
        first_probe(probes.drop_first(), name)
    }
}

/// A target after its probe: it has the probed path, and counts as installed
/// where the path or its directory exists. A target that was not probed
/// stays as it is.
pub open spec fn probed(target: SoftwareConfigView, probes: Seq<PathProbeView>)
    -> SoftwareConfigView {
    match first_probe(probes, target.name) {
        Some(p) => SoftwareConfigView {
            installed: p.exists || p.parent_exists,
            config_path: Some(p.path),
            ..target
        },
        None => target,
    }
}

/// The built-in targets after their probes.
pub open spec fn software_list(platform: Platform, probes: Seq<PathProbeView>) -> Seq<
    SoftwareConfigView,
> {
    Seq::new(builtin(platform).len(), |i: int| probed(builtin(platform)[i], probes))
}

fn apply_probe(target: SoftwareConfig, probes: &Vec<PathProbe>) -> (r: SoftwareConfig)
    ensures
        r@ == probed(target@, views(probes@)),
{
    let ghost all = views(probes@);
    let mut i: usize = 0;
    assert(all.skip(0) == all);
    while i < probes.len()
        invariant
            i <= probes.len(),
            all == views(probes@),
            first_probe(all.skip(i as int), target@.name) == first_probe(all, target@.name),
        decreases probes.len() - i,
    {
        assert(all.skip(i as int)[0] == probes@[i as int]@);
        if same_text(probes[i].name.as_str(), target.name.as_str()) {
            return SoftwareConfig {
                name: target.name,
                config_type: target.config_type,
                enabled: target.enabled,
                installed: probes[i].exists || probes[i].parent_exists,
                config_path: Some(owned(probes[i].path.as_str())),
                is_custom: target.is_custom,
            };
        }
        assert(all.skip(i as int).drop_first() == all.skip(i + 1));
        i += 1;
    }
    target
}

/// The built-in targets with what the probes found: the first probe made
/// for a target gives it its path and decides whether it counts as
/// installed.
pub fn get_software_list(platform: Platform, probes: &Vec<PathProbe>) -> (list: Vec<
    SoftwareConfig,
>)
    ensures
        views(list@) == software_list(platform, views(probes@)),
{
    let mut list: Vec<SoftwareConfig> = Vec::new();
    list.push(apply_probe(new_entry("Git", "ini"), probes));
    list.push(apply_probe(new_entry("npm", "ini"), probes));
    list.push(apply_probe(new_entry("Cursor", "json"), probes));
    list.push(apply_probe(new_entry("VSCode", "json"), probes));
    list.push(apply_probe(new_entry("IDEA", "xml"), probes));
    if platform == Platform::Windows {
        list.push(apply_probe(env_target(), probes));
    }
    assert(views(list@) =~= software_list(platform, views(probes@)));
    list
}

/// A target that the user declared, as the presentation layer sees it: it
/// counts as installed, and its path is the one the user gave.
pub open spec fn declared(software: CustomSoftwareView) -> SoftwareConfigView {
    SoftwareConfigView {
        name: software.name,
        config_type: software.config_type,
        enabled: true,
        installed: true,
        config_path: Some(software.config_path),
        is_custom: true,
    }
}

/// The targets of `list` followed by the declared targets, in their order.
pub open spec fn with_declared(list: Seq<SoftwareConfigView>, custom: Seq<CustomSoftwareView>)
    -> Seq<SoftwareConfigView> {
    list + Seq::new(custom.len(), |i: int| declared(custom[i]))
}

/// Adds the targets that the user declared to the list.
pub fn add_declared_software(list: &mut Vec<SoftwareConfig>, custom: &Vec<CustomSoftware>)
    ensures
        views(final(list)@) == with_declared(views(old(list)@), views(custom@)),
{
    let ghost base = views(list@);
    let ghost all = views(custom@);
    let mut i: usize = 0;
    assert(views(list@) =~= base + Seq::new(0, |k: int| declared(all[k])));
    while i < custom.len()
        invariant
            i <= custom.len(),
            all == views(custom@),
            views(list@) == base + Seq::new(i as nat, |k: int| declared(all[k])),
        decreases custom.len() - i,
    {
        let ghost before = list@;
        let item = SoftwareConfig {
            name: owned(custom[i].name.as_str()),
            config_type: owned(custom[i].config_type.as_str()),
            enabled: true,
            installed: true,
            config_path: Some(owned(custom[i].config_path.as_str())),
            is_custom: true,
        };
        assert(item@ == declared(all[i as int]));
        list.push(item);
        proof {
            lemma_views_push(before, item);
            assert(views(list@) =~= base + Seq::new((i + 1) as nat, |k: int| declared(all[k])));
        }
        i += 1;
    }
}

} // verus!
