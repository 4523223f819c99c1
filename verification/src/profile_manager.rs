//! The user's configuration: named proxy endpoints, which target uses
//! which, targets the user declared, and what closing the window does.

use vstd::prelude::*;
use crate::seqs::{
    lemma_filter_empty, lemma_filter_members, lemma_filter_push, lemma_views_push, views,
};
use crate::text::chars::{chars_of, owned, push_str, same_text, string_of};

verus! {

/// A named proxy endpoint.
#[derive(Debug, Clone, PartialEq, Eq)]
pub struct ProxyProfile {
    pub name: String,
    pub host: String,
    pub port: u16,
}

/// What a `ProxyProfile` holds, as texts.
pub struct ProxyProfileView {
    pub name: Seq<char>,
    pub host: Seq<char>,
    pub port: u16,
}

impl View for ProxyProfile {
    type V = ProxyProfileView;

    open spec fn view(&self) -> ProxyProfileView {
        ProxyProfileView { name: self.name@, host: self.host@, port: self.port }
    }
}

/// The profile that a target uses.
#[derive(Debug, Clone, PartialEq, Eq)]
pub struct SoftwareProxyMapping {
    pub software_name: String,
    pub profile_name: String,
}

/// What a `SoftwareProxyMapping` holds, as texts.
pub struct SoftwareProxyMappingView {
    pub software_name: Seq<char>,
    pub profile_name: Seq<char>,
}

impl View for SoftwareProxyMapping {
    type V = SoftwareProxyMappingView;

    open spec fn view(&self) -> SoftwareProxyMappingView {
        SoftwareProxyMappingView {
            software_name: self.software_name@,
            profile_name: self.profile_name@,
        }
    }
}

/// A target that the user declared.
#[derive(Debug, Clone, PartialEq, Eq)]
pub struct CustomSoftware {
    pub name: String,
    /// `"json"`, `"ini"` or `"env"`.
    pub config_type: String,
    pub config_path: String,
}

/// What a `CustomSoftware` holds, as texts.
pub struct CustomSoftwareView {
    pub name: Seq<char>,
    pub config_type: Seq<char>,
    pub config_path: Seq<char>,
}

impl View for CustomSoftware {
    type V = CustomSoftwareView;

    open spec fn view(&self) -> CustomSoftwareView {
        CustomSoftwareView {
            name: self.name@,
            config_type: self.config_type@,
            config_path: self.config_path@,
        }
    }
}

/// What closing the window does.
#[derive(Debug, Clone, PartialEq, Eq)]
pub struct ClosePreference {
    /// Whether the choice is remembered.
    pub remember: bool,
    /// `"minimize"` or `"exit"`.
    pub action: String,
}

/// What a `ClosePreference` holds, as texts.
pub struct ClosePreferenceView {
    pub remember: bool,
    pub action: Seq<char>,
}

impl View for ClosePreference {
    type V = ClosePreferenceView;

    open spec fn view(&self) -> ClosePreferenceView {
        ClosePreferenceView { remember: self.remember, action: self.action@ }
    }
}

impl Default for ClosePreference {
    /// Closing minimizes, and the choice is asked for again.
    fn default() -> (r: ClosePreference)
        ensures
            r@ == (ClosePreferenceView { remember: false, action: "minimize"@ }),
    {
        ClosePreference { remember: false, action: owned("minimize") }
    }
}

/// Everything the user configured.
#[derive(Debug, Clone, PartialEq, Eq)]
pub struct UserConfig {
    pub profiles: Vec<ProxyProfile>,
    pub mappings: Vec<SoftwareProxyMapping>,
    pub custom_software: Vec<CustomSoftware>,
    pub close_preference: ClosePreference,
}

/// What a `UserConfig` holds, as texts.
pub struct UserConfigView {
    pub profiles: Seq<ProxyProfileView>,
    pub mappings: Seq<SoftwareProxyMappingView>,
    pub custom_software: Seq<CustomSoftwareView>,
    pub close_preference: ClosePreferenceView,
}

impl View for UserConfig {
    type V = UserConfigView;

    open spec fn view(&self) -> UserConfigView {
        UserConfigView {
            profiles: views(self.profiles@),
            mappings: views(self.mappings@),
            custom_software: views(self.custom_software@),
            close_preference: self.close_preference@,
        }
    }
}

/// A profile on the local host.
pub open spec fn local_profile(name: Seq<char>, port: u16) -> ProxyProfileView {
    ProxyProfileView { name, host: "127.0.0.1"@, port }
}

/// The three profiles that a new configuration starts with.
pub open spec fn preset_profiles() -> Seq<ProxyProfileView> {
    seq![
        local_profile("Clash"@, 7890),
        local_profile("V2Ray"@, 10808),
        local_profile("Veee"@, 15236),
    ]
}

fn preset(name: &str, port: u16) -> (r: ProxyProfile)
    ensures
        r@ == local_profile(name@, port),
{
    ProxyProfile { name: owned(name), host: owned("127.0.0.1"), port }
}

impl Default for UserConfig {
    /// The configuration of a user who has configured nothing: the three
    /// preset profiles, no mappings, no declared targets.
    fn default() -> (r: UserConfig)
        ensures
            r@.profiles == preset_profiles(),
            r@.mappings.len() == 0,
            r@.custom_software.len() == 0,
            r@.close_preference == (ClosePreferenceView { remember: false, action: "minimize"@ }),
    {
        let mut profiles: Vec<ProxyProfile> = Vec::new();
        profiles.push(preset("Clash", 7890));
        profiles.push(preset("V2Ray", 10808));
        profiles.push(preset("Veee", 15236));
        assert(views(profiles@) =~= preset_profiles());
        UserConfig {
            profiles,
            mappings: Vec::new(),
            custom_software: Vec::new(),
            close_preference: ClosePreference::default(),
        }
    }
}

/// Whether a profile named `name` is among `profiles`.
pub open spec fn has_profile(profiles: Seq<ProxyProfileView>, name: Seq<char>) -> bool {
    exists|i: int| 0 <= i < profiles.len() && (#[trigger] profiles[i]).name == name
}

/// Whether a declared target named `name` is among `list`.
pub open spec fn has_custom(list: Seq<CustomSoftwareView>, name: Seq<char>) -> bool {
    exists|i: int| 0 <= i < list.len() && (#[trigger] list[i]).name == name
}

/// The position of the first profile named `name`.
pub open spec fn profile_index(profiles: Seq<ProxyProfileView>, name: Seq<char>) -> Option<int>
    decreases profiles.len(),
{
    if profiles.len() == 0 {
        None
    } else if profiles.last().name == name && profile_index(profiles.drop_last(), name) is None {
        Some(profiles.len() - 1)
    } else {
        profile_index(profiles.drop_last(), name)
    }
}

/// `profile_index` finds a profile of the name where there is one, and the
/// first of them.
pub proof fn lemma_profile_index(profiles: Seq<ProxyProfileView>, name: Seq<char>)
    ensures
        profile_index(profiles, name) is Some <==> has_profile(profiles, name),
        profile_index(profiles, name) matches Some(i) ==> 0 <= i < profiles.len() && profiles[i].name
            == name && forall|k: int| 0 <= k < i ==> (#[trigger] profiles[k]).name != name,
        profile_index(profiles, name) is None ==> forall|k: int|
            0 <= k < profiles.len() ==> (#[trigger] profiles[k]).name != name,
    decreases profiles.len(),
{
    if profiles.len() > 0 {
        let front = profiles.drop_last();
        lemma_profile_index(front, name);
        assert forall|k: int| 0 <= k < front.len() implies front[k] == profiles[k] by {}
        if has_profile(profiles, name) {
            let i = choose|i: int| 0 <= i < profiles.len() && (#[trigger] profiles[i]).name == name;
            if i < front.len() {
                assert(front[i].name == name);
            }
        }
        if has_profile(front, name) {
            let i = choose|i: int| 0 <= i < front.len() && (#[trigger] front[i]).name == name;
            assert(profiles[i].name == name);
        }
        match profile_index(profiles, name) {
            Some(i) => {
                assert(profiles[i].name == name);
                assert forall|k: int| 0 <= k < i implies (#[trigger] profiles[k]).name != name by {
                    assert(front[k] == profiles[k]);
                }
            },
            None => {
                assert forall|k: int| 0 <= k < profiles.len() implies (#[trigger] profiles[k]).name
                    != name by {
                    if k < front.len() {
                        assert(front[k] == profiles[k]);
                    }
                }
            },
        }
    }
}

/// The position of the first mapping for the target `software`.
pub open spec fn mapping_index(mappings: Seq<SoftwareProxyMappingView>, software: Seq<char>)
    -> Option<int>
    decreases mappings.len(),
{
    if mappings.len() == 0 {
        None
    } else if mappings.last().software_name == software && mapping_index(
        mappings.drop_last(),
        software,
    ) is None {
        Some(mappings.len() - 1)
    } else {
        mapping_index(mappings.drop_last(), software)
    }
}

/// The message for a profile that is there already.
pub open spec fn profile_exists(name: Seq<char>) -> Seq<char> {
    "配置组 '"@ + name + "' 已存在"@
}

/// The message for a profile that is not there.
pub open spec fn profile_missing(name: Seq<char>) -> Seq<char> {
    "配置组 '"@ + name + "' 不存在"@
}

/// The message for a declared target that is there already.
pub open spec fn software_exists(name: Seq<char>) -> Seq<char> {
    "软件 '"@ + name + "' 已存在"@
}

/// The message for a declared target that is not there.
pub open spec fn software_missing(name: Seq<char>) -> Seq<char> {
    "软件 '"@ + name + "' 不存在"@
}

fn message(before: &str, name: &str, after: &str) -> (r: String)
    ensures
        r@ == before@ + name@ + after@,
{
    let mut out = chars_of(before);
    push_str(&mut out, name);
    push_str(&mut out, after);
    string_of(&out)
}

/// What a configuration or the reason for none holds, as texts.
pub open spec fn config_result(r: Result<UserConfig, String>) -> Result<UserConfigView, Seq<char>> {
    match r {
        Ok(config) => Ok(config@),
        Err(e) => Err(e@),
    }
}

fn find_profile(profiles: &Vec<ProxyProfile>, name: &str) -> (r: Option<usize>)
    ensures
        match r {
            Some(i) => profile_index(views(profiles@), name@) == Some(i as int),
            None => profile_index(views(profiles@), name@) is None,
        },
{
    let ghost all = views(profiles@);
    let mut i: usize = 0;
    assert(all.take(0) =~= Seq::<ProxyProfileView>::empty());
    while i < profiles.len()
        invariant
            i <= profiles.len(),
            all == views(profiles@),
            profile_index(all.take(i as int), name@) is None,
        decreases profiles.len() - i,
    {
        proof {
            assert(all.take(i + 1).drop_last() =~= all.take(i as int));
            assert(all.take(i + 1).last() == profiles@[i as int]@);
        }
        if same_text(profiles[i].name.as_str(), name) {
            proof {
                lemma_index_stays(all, name@, i as int);
            }
            return Some(i);
        }
        i += 1;
    }
    assert(all.take(profiles.len() as int) =~= all);
    None
}

/// Once a beginning of the profiles holds the name, the position found in
/// it is the position found in all of them.
proof fn lemma_index_stays(profiles: Seq<ProxyProfileView>, name: Seq<char>, i: int)
    requires
        0 <= i < profiles.len(),
        profile_index(profiles.take(i + 1), name) == Some(i),
    ensures
        profile_index(profiles, name) == Some(i),
    decreases profiles.len(),
{
    if profiles.len() == i + 1 {
        assert(profiles.take(i + 1) =~= profiles);
    } else {
        assert(profiles.drop_last().take(i + 1) =~= profiles.take(i + 1));
        lemma_index_stays(profiles.drop_last(), name, i);
    }
}

fn find_mapping(mappings: &Vec<SoftwareProxyMapping>, software: &str) -> (r: Option<usize>)
    ensures
        match r {
            Some(i) => i < mappings.len() && mapping_index(views(mappings@), software@) == Some(
                i as int,
            ),
            None => mapping_index(views(mappings@), software@) is None,
        },
{
    let ghost all = views(mappings@);
    let mut i: usize = 0;
    assert(all.take(0) =~= Seq::<SoftwareProxyMappingView>::empty());
    while i < mappings.len()
        invariant
            i <= mappings.len(),
            all == views(mappings@),
            mapping_index(all.take(i as int), software@) is None,
        decreases mappings.len() - i,
    {
        proof {
            assert(all.take(i + 1).drop_last() =~= all.take(i as int));
            assert(all.take(i + 1).last() == mappings@[i as int]@);
        }
        if same_text(mappings[i].software_name.as_str(), software) {
            proof {
                lemma_mapping_index_stays(all, software@, i as int);
            }
            return Some(i);
        }
        i += 1;
    }
    assert(all.take(mappings.len() as int) =~= all);
    None
}

proof fn lemma_mapping_index_stays(
    mappings: Seq<SoftwareProxyMappingView>,
    software: Seq<char>,
    i: int,
)
    requires
        0 <= i < mappings.len(),
        mapping_index(mappings.take(i + 1), software) == Some(i),
    ensures
        mapping_index(mappings, software) == Some(i),
    decreases mappings.len(),
{
    if mappings.len() == i + 1 {
        assert(mappings.take(i + 1) =~= mappings);
    } else {
        assert(mappings.drop_last().take(i + 1) =~= mappings.take(i + 1));
        lemma_mapping_index_stays(mappings.drop_last(), software, i);
    }
}

/// The configuration with one more profile, unless a profile of that name
/// is there already.
pub open spec fn profile_added(config: UserConfigView, profile: ProxyProfileView) -> Result<
    UserConfigView,
    Seq<char>,
> {
    if has_profile(config.profiles, profile.name) {
        Err(profile_exists(profile.name))
    } else {
        Ok(UserConfigView { profiles: config.profiles.push(profile), ..config })
    }
}

/// Adds a profile.
pub fn add_profile(config: UserConfig, profile: ProxyProfile) -> (r: Result<UserConfig, String>)
    ensures
        config_result(r) == profile_added(config@, profile@),
{
    proof {
        lemma_profile_index(config@.profiles, profile@.name);
    }
    if find_profile(&config.profiles, profile.name.as_str()).is_some() {
        return Err(message("配置组 '", profile.name.as_str(), "' 已存在"));
    }
    let mut config = config;
    let ghost before = config.profiles@;
    config.profiles.push(profile);
    proof {
        lemma_views_push(before, profile);
    }
    Ok(config)
}

/// The profiles that are not named `name`, in their order.
pub open spec fn profiles_without(profiles: Seq<ProxyProfileView>, name: Seq<char>) -> Seq<
    ProxyProfileView,
> {
    profiles.filter(|p: ProxyProfileView| p.name != name)
}

/// The mappings that do not use the profile `profile`, in their order.
pub open spec fn mappings_without_profile(
    mappings: Seq<SoftwareProxyMappingView>,
    profile: Seq<char>,
) -> Seq<SoftwareProxyMappingView> {
    mappings.filter(|m: SoftwareProxyMappingView| m.profile_name != profile)
}

/// The mappings that are not for the target `software`, in their order.
pub open spec fn mappings_without_software(
    mappings: Seq<SoftwareProxyMappingView>,
    software: Seq<char>,
) -> Seq<SoftwareProxyMappingView> {
    mappings.filter(|m: SoftwareProxyMappingView| m.software_name != software)
}

/// The declared targets that are not named `name`, in their order.
pub open spec fn custom_without(list: Seq<CustomSoftwareView>, name: Seq<char>) -> Seq<
    CustomSoftwareView,
> {
    list.filter(|s: CustomSoftwareView| s.name != name)
}

/// The configuration without the profile `name` and without the mappings
/// that used it, unless no profile has that name.
pub open spec fn profile_deleted(config: UserConfigView, name: Seq<char>) -> Result<
    UserConfigView,
    Seq<char>,
> {
    if !has_profile(config.profiles, name) {
        Err(profile_missing(name))
    } else {
        Ok(
            UserConfigView {
                profiles: profiles_without(config.profiles, name),
                mappings: mappings_without_profile(config.mappings, name),
                ..config
            },
        )
    }
}

fn drop_profiles(profiles: Vec<ProxyProfile>, name: &str) -> (r: Vec<ProxyProfile>)
    ensures
        views(r@) == profiles_without(views(profiles@), name@),
{
    let ghost all = views(profiles@);
    let ghost keep = |p: ProxyProfileView| p.name != name@;
    let mut rest = profiles;
    let mut out: Vec<ProxyProfile> = Vec::new();
    let ghost mut done: int = 0;
    proof {
        lemma_filter_empty(keep);
        assert(all.take(0) =~= Seq::<ProxyProfileView>::empty());
        assert(all.skip(0) =~= all);
        assert(views(out@) =~= Seq::<ProxyProfileView>::empty());
    }
    while rest.len() > 0
        invariant
            0 <= done <= all.len(),
            views(rest@) == all.skip(done),
            views(out@) == all.take(done).filter(keep),
            keep == |p: ProxyProfileView| p.name != name@,
        decreases rest.len(),
    {
        let ghost before = out@;
        let ghost held = rest@;
        assert(views(held).len() == all.len() - done);
        let item = rest.remove(0);
        proof {
            assert(item@ == views(held)[0]);
            assert(views(rest@) =~= all.skip(done + 1)) by {
                assert forall|k: int| 0 <= k < held.len() - 1 implies views(rest@)[k] == all.skip(
                    done + 1,
                )[k] by {
                    assert(views(held)[k + 1] == all.skip(done)[k + 1]);
                }
            }
            assert(all.take(done + 1) =~= all.take(done).push(item@));
            lemma_filter_push(all.take(done), item@, keep);
            done = done + 1;
        }
        if !same_text(item.name.as_str(), name) {
            out.push(item);
            proof {
                lemma_views_push(before, item);
            }
        }
    }
    assert(all.take(done) =~= all);
    out
}

fn drop_mappings_of_profile(mappings: Vec<SoftwareProxyMapping>, profile: &str) -> (r: Vec<
    SoftwareProxyMapping,
>)
    ensures
        views(r@) == mappings_without_profile(views(mappings@), profile@),
{
    let ghost all = views(mappings@);
    let ghost keep = |m: SoftwareProxyMappingView| m.profile_name != profile@;
    let mut rest = mappings;
    let mut out: Vec<SoftwareProxyMapping> = Vec::new();
    let ghost mut done: int = 0;
    proof {
        lemma_filter_empty(keep);
        assert(all.take(0) =~= Seq::<SoftwareProxyMappingView>::empty());
        assert(all.skip(0) =~= all);
        assert(views(out@) =~= Seq::<SoftwareProxyMappingView>::empty());
    }
    while rest.len() > 0
        invariant
            0 <= done <= all.len(),
            views(rest@) == all.skip(done),
            views(out@) == all.take(done).filter(keep),
            keep == |m: SoftwareProxyMappingView| m.profile_name != profile@,
        decreases rest.len(),
    {
        let ghost before = out@;
        let ghost held = rest@;
        assert(views(held).len() == all.len() - done);
        let item = rest.remove(0);
        proof {
            assert(item@ == views(held)[0]);
            assert(views(rest@) =~= all.skip(done + 1)) by {
                assert forall|k: int| 0 <= k < held.len() - 1 implies views(rest@)[k] == all.skip(
                    done + 1,
                )[k] by {
                    assert(views(held)[k + 1] == all.skip(done)[k + 1]);
                }
            }
            assert(all.take(done + 1) =~= all.take(done).push(item@));
            lemma_filter_push(all.take(done), item@, keep);
            done = done + 1;
        }
        if !same_text(item.profile_name.as_str(), profile) {
            out.push(item);
            proof {
                lemma_views_push(before, item);
            }
        }
    }
    assert(all.take(done) =~= all);
    out
}

fn drop_mappings_of_software(mappings: Vec<SoftwareProxyMapping>, software: &str) -> (r: Vec<
    SoftwareProxyMapping,
>)
    ensures
        views(r@) == mappings_without_software(views(mappings@), software@),
{
    let ghost all = views(mappings@);
    let ghost keep = |m: SoftwareProxyMappingView| m.software_name != software@;
    let mut rest = mappings;
    let mut out: Vec<SoftwareProxyMapping> = Vec::new();
    let ghost mut done: int = 0;
    proof {
        lemma_filter_empty(keep);
        assert(all.take(0) =~= Seq::<SoftwareProxyMappingView>::empty());
        assert(all.skip(0) =~= all);
        assert(views(out@) =~= Seq::<SoftwareProxyMappingView>::empty());
    }
    while rest.len() > 0
        invariant
            0 <= done <= all.len(),
            views(rest@) == all.skip(done),
            views(out@) == all.take(done).filter(keep),
            keep == |m: SoftwareProxyMappingView| m.software_name != software@,
        decreases rest.len(),
    {
        let ghost before = out@;
        let ghost held = rest@;
        assert(views(held).len() == all.len() - done);
        let item = rest.remove(0);
        proof {
            assert(item@ == views(held)[0]);
            assert(views(rest@) =~= all.skip(done + 1)) by {
                assert forall|k: int| 0 <= k < held.len() - 1 implies views(rest@)[k] == all.skip(
                    done + 1,
                )[k] by {
                    assert(views(held)[k + 1] == all.skip(done)[k + 1]);
                }
            }
            assert(all.take(done + 1) =~= all.take(done).push(item@));
            lemma_filter_push(all.take(done), item@, keep);
            done = done + 1;
        }
        if !same_text(item.software_name.as_str(), software) {
            out.push(item);
            proof {
                lemma_views_push(before, item);
            }
        }
    }
    assert(all.take(done) =~= all);
    out
}

fn drop_custom(list: Vec<CustomSoftware>, name: &str) -> (r: Vec<CustomSoftware>)
    ensures
        views(r@) == custom_without(views(list@), name@),
{
    let ghost all = views(list@);
    let ghost keep = |s: CustomSoftwareView| s.name != name@;
    let mut rest = list;
    let mut out: Vec<CustomSoftware> = Vec::new();
    let ghost mut done: int = 0;
    proof {
        lemma_filter_empty(keep);
        assert(all.take(0) =~= Seq::<CustomSoftwareView>::empty());
        assert(all.skip(0) =~= all);
        assert(views(out@) =~= Seq::<CustomSoftwareView>::empty());
    }
    while rest.len() > 0
        invariant
            0 <= done <= all.len(),
            views(rest@) == all.skip(done),
            views(out@) == all.take(done).filter(keep),
            keep == |s: CustomSoftwareView| s.name != name@,
        decreases rest.len(),
    {
        let ghost before = out@;
        let ghost held = rest@;
        assert(views(held).len() == all.len() - done);
        let item = rest.remove(0);
        proof {
            assert(item@ == views(held)[0]);
            assert(views(rest@) =~= all.skip(done + 1)) by {
                assert forall|k: int| 0 <= k < held.len() - 1 implies views(rest@)[k] == all.skip(
                    done + 1,
                )[k] by {
                    assert(views(held)[k + 1] == all.skip(done)[k + 1]);
                }
            }
            assert(all.take(done + 1) =~= all.take(done).push(item@));
            lemma_filter_push(all.take(done), item@, keep);
            done = done + 1;
        }
        if !same_text(item.name.as_str(), name) {
            out.push(item);
            proof {
                lemma_views_push(before, item);
            }
        }
    }
    assert(all.take(done) =~= all);
    out
}

/// Deletes the profile `profile_name` and every mapping that uses it.
pub fn delete_profile(config: UserConfig, profile_name: &str) -> (r: Result<UserConfig, String>)
    ensures
        config_result(r) == profile_deleted(config@, profile_name@),
{
    proof {
        lemma_profile_index(config@.profiles, profile_name@);
    }
    if find_profile(&config.profiles, profile_name).is_none() {
        return Err(message("配置组 '", profile_name, "' 不存在"));
    }
    Ok(
        UserConfig {
            profiles: drop_profiles(config.profiles, profile_name),
            mappings: drop_mappings_of_profile(config.mappings, profile_name),
            custom_software: config.custom_software,
            close_preference: config.close_preference,
        },
    )
}

/// The mappings with the target `software` on the profile `profile`: its
/// first mapping is changed, or a new one comes last where it had none.
pub open spec fn mapping_set(
    mappings: Seq<SoftwareProxyMappingView>,
    software: Seq<char>,
    profile: Seq<char>,
) -> Seq<SoftwareProxyMappingView> {
    let mapping = SoftwareProxyMappingView { software_name: software, profile_name: profile };
    match mapping_index(mappings, software) {
        Some(i) => mappings.update(i, mapping),
        None => mappings.push(mapping),
    }
}

/// The configuration with the target `software` on the profile `profile`,
/// unless no profile has that name.
pub open spec fn mapping_updated(config: UserConfigView, software: Seq<char>, profile: Seq<char>)
    -> Result<UserConfigView, Seq<char>> {
    if !has_profile(config.profiles, profile) {
        Err(profile_missing(profile))
    } else {
        Ok(UserConfigView { mappings: mapping_set(config.mappings, software, profile), ..config })
    }
}

/// Puts the target `software_name` on the profile `profile_name`.
pub fn update_software_mapping(config: UserConfig, software_name: &str, profile_name: &str) -> (r:
    Result<UserConfig, String>)
    ensures
        config_result(r) == mapping_updated(config@, software_name@, profile_name@),
{
    proof {
        lemma_profile_index(config@.profiles, profile_name@);
    }
    if find_profile(&config.profiles, profile_name).is_none() {
        return Err(message("配置组 '", profile_name, "' 不存在"));
    }
    let mut config = config;
    let ghost before = config.mappings@;
    let mapping = SoftwareProxyMapping {
        software_name: owned(software_name),
        profile_name: owned(profile_name),
    };
    match find_mapping(&config.mappings, software_name) {
        Some(i) => {
            config.mappings.set(i, mapping);
            assert(views(config.mappings@) =~= views(before).update(i as int, mapping@));
        },
        None => {
            config.mappings.push(mapping);
            proof {
                lemma_views_push(before, mapping);
            }
        },
    }
    Ok(config)
}

/// The mappings with every use of the profile `old_name` turned into a use
/// of `new_name`.
pub open spec fn mappings_renamed(
    mappings: Seq<SoftwareProxyMappingView>,
    old_name: Seq<char>,
    new_name: Seq<char>,
) -> Seq<SoftwareProxyMappingView> {
    Seq::new(
        mappings.len(),
        |i: int|
            if mappings[i].profile_name == old_name {
                SoftwareProxyMappingView { profile_name: new_name, ..mappings[i] }
            } else {
                mappings[i]
            },
    )
}

/// Whether `profile` would take a name that another profile has: it is to
/// replace the profile `old_name`, has a name of its own, and a profile of
/// that name is there already.
pub open spec fn name_taken(
    profiles: Seq<ProxyProfileView>,
    old_name: Seq<char>,
    profile: ProxyProfileView,
) -> bool {
    profile.name != old_name && has_profile(profiles, profile.name)
}

/// The configuration with the first profile named `old_name` replaced by
/// `profile`, and with every mapping that used the old name on the new one.
/// Nothing changes where no profile has the old name, nor where the new
/// name is another profile's: a name is the key of one profile.
pub open spec fn profile_updated(
    config: UserConfigView,
    old_name: Seq<char>,
    profile: ProxyProfileView,
) -> Result<UserConfigView, Seq<char>> {
    match profile_index(config.profiles, old_name) {
        None => Err(profile_missing(old_name)),
        Some(i) => if name_taken(config.profiles, old_name, profile) {
            Err(profile_exists(profile.name))
        } else {
            Ok(
                UserConfigView {
                    profiles: config.profiles.update(i, profile),
                    mappings: mappings_renamed(config.mappings, old_name, profile.name),
                    ..config
                },
            )
        },
    }
}

fn rename_in_mappings(mappings: Vec<SoftwareProxyMapping>, old_name: &str, new_name: &str) -> (r:
    Vec<SoftwareProxyMapping>)
    ensures
        views(r@) == mappings_renamed(views(mappings@), old_name@, new_name@),
{
    let ghost all = views(mappings@);
    let ghost wanted = mappings_renamed(all, old_name@, new_name@);
    let mut rest = mappings;
    let mut out: Vec<SoftwareProxyMapping> = Vec::new();
    assert(all.skip(0) =~= all);
    while rest.len() > 0
        invariant
            out.len() + rest.len() == all.len(),
            views(rest@) == all.skip(out.len() as int),
            wanted == mappings_renamed(all, old_name@, new_name@),
            forall|k: int| 0 <= k < out.len() ==> (#[trigger] out@[k])@ == wanted[k],
        decreases rest.len(),
    {
        let ghost at = out.len() as int;
        let ghost held = rest@;
        let item = rest.remove(0);
        proof {
            assert(item@ == views(held)[0]);
            assert(views(rest@) =~= all.skip(at + 1)) by {
                assert forall|k: int| 0 <= k < held.len() - 1 implies views(rest@)[k] == all.skip(
                    at + 1,
                )[k] by {
                    assert(views(held)[k + 1] == all.skip(at)[k + 1]);
                }
            }
        }
        if same_text(item.profile_name.as_str(), old_name) {
            out.push(
                SoftwareProxyMapping {
                    software_name: item.software_name,
                    profile_name: owned(new_name),
                },
            );
        } else {
            out.push(item);
        }
    }
    assert(views(out@) =~= wanted);
    out
}

/// Replaces the profile `old_name` by `profile`; the mappings follow the
/// name. A new name that another profile has is refused.
pub fn update_profile(config: UserConfig, old_name: &str, profile: ProxyProfile) -> (r: Result<
    UserConfig,
    String,
>)
    ensures
        config_result(r) == profile_updated(config@, old_name@, profile@),
{
    let at = match find_profile(&config.profiles, old_name) {
        None => {
            return Err(message("配置组 '", old_name, "' 不存在"));
        },
        Some(at) => at,
    };
    proof {
        lemma_profile_index(config@.profiles, old_name@);
        lemma_profile_index(config@.profiles, profile@.name);
    }
    if !same_text(profile.name.as_str(), old_name) && find_profile(
        &config.profiles,
        profile.name.as_str(),
    ).is_some() {
        return Err(message("配置组 '", profile.name.as_str(), "' 已存在"));
    }
    let mut profiles = config.profiles;
    let ghost before = profiles@;
    let mappings = rename_in_mappings(config.mappings, old_name, profile.name.as_str());
    profiles.set(at, profile);
    assert(views(profiles@) =~= views(before).update(at as int, profile@));
    Ok(
        UserConfig {
            profiles,
            mappings,
            custom_software: config.custom_software,
            close_preference: config.close_preference,
        },
    )
}

/// The configuration with one more declared target, unless a declared
/// target of that name is there already.
pub open spec fn custom_added(config: UserConfigView, software: CustomSoftwareView) -> Result<
    UserConfigView,
    Seq<char>,
> {
    if has_custom(config.custom_software, software.name) {
        Err(software_exists(software.name))
    } else {
        Ok(UserConfigView { custom_software: config.custom_software.push(software), ..config })
    }
}

fn custom_declared(list: &Vec<CustomSoftware>, name: &str) -> (r: bool)
    ensures
        r == has_custom(views(list@), name@),
{
    let mut i: usize = 0;
    while i < list.len()
        invariant
            i <= list.len(),
            forall|k: int| 0 <= k < i ==> (#[trigger] views(list@)[k]).name != name@,
        decreases list.len() - i,
    {
        if same_text(list[i].name.as_str(), name) {
            assert(views(list@)[i as int].name == name@);
            return true;
        }
        i += 1;
    }
    false
}

/// Declares a target.
pub fn add_custom_software(config: UserConfig, software: CustomSoftware) -> (r: Result<
    UserConfig,
    String,
>)
    ensures
        config_result(r) == custom_added(config@, software@),
{
    if custom_declared(&config.custom_software, software.name.as_str()) {
        return Err(message("软件 '", software.name.as_str(), "' 已存在"));
    }
    let mut config = config;
    let ghost before = config.custom_software@;
    config.custom_software.push(software);
    proof {
        lemma_views_push(before, software);
    }
    Ok(config)
}

/// The configuration without the declared target `name` and without the
/// mappings for it, unless no declared target has that name.
pub open spec fn custom_deleted(config: UserConfigView, name: Seq<char>) -> Result<
    UserConfigView,
    Seq<char>,
> {
    if !has_custom(config.custom_software, name) {
        Err(software_missing(name))
    } else {
        Ok(
            UserConfigView {
                custom_software: custom_without(config.custom_software, name),
                mappings: mappings_without_software(config.mappings, name),
                ..config
            },
        )
    }
}

/// Takes a declared target back, and every mapping for it.
pub fn delete_custom_software(config: UserConfig, software_name: &str) -> (r: Result<
    UserConfig,
    String,
>)
    ensures
        config_result(r) == custom_deleted(config@, software_name@),
{
    if !custom_declared(&config.custom_software, software_name) {
        return Err(message("软件 '", software_name, "' 不存在"));
    }
    Ok(
        UserConfig {
            profiles: config.profiles,
            mappings: drop_mappings_of_software(config.mappings, software_name),
            custom_software: drop_custom(config.custom_software, software_name),
            close_preference: config.close_preference,
        },
    )
}

/// Whether every mapping uses a profile that is there.
pub open spec fn references_hold(config: UserConfigView) -> bool {
    forall|i: int|
        0 <= i < config.mappings.len() ==> has_profile(
            config.profiles,
            (#[trigger] config.mappings[i]).profile_name,
        )
}

/// Whether no two profiles have one name.
pub open spec fn distinct_names(profiles: Seq<ProxyProfileView>) -> bool {
    forall|i: int, j: int|
        0 <= i < j < profiles.len() ==> (#[trigger] profiles[i]).name != (
        #[trigger] profiles[j]).name
}

/// Taking the profiles of one name out of profiles with distinct names
/// leaves profiles with distinct names.
proof fn lemma_without_keeps_distinct(profiles: Seq<ProxyProfileView>, name: Seq<char>)
    requires
        distinct_names(profiles),
    ensures
        distinct_names(profiles_without(profiles, name)),
    decreases profiles.len(),
{
    let stays = |p: ProxyProfileView| p.name != name;
    if profiles.len() == 0 {
        lemma_filter_empty(stays);
    } else {
        let front = profiles.drop_last();
        let last = profiles.last();
        assert forall|i: int, j: int| 0 <= i < j < front.len() implies (#[trigger] front[i]).name
            != (#[trigger] front[j]).name by {
            assert(front[i] == profiles[i]);
            assert(front[j] == profiles[j]);
        }
        lemma_without_keeps_distinct(front, name);
        lemma_filter_members(front, stays);
        assert(profiles == front.push(last));
        lemma_filter_push(front, last, stays);
        let kept = front.filter(stays);
        let out = profiles.filter(stays);
        assert forall|i: int, j: int| 0 <= i < j < out.len() implies (#[trigger] out[i]).name != (
        #[trigger] out[j]).name by {
            if j < kept.len() {
                assert(out[i] == kept[i]);
                assert(out[j] == kept[j]);
            } else {
                assert(out[j] == last);
                assert(out[i] == kept[i]);
                let k = choose|k: int| 0 <= k < front.len() && front[k] == kept[i];
                assert(profiles[k] == front[k]);
                assert(profiles[k].name != profiles[profiles.len() - 1].name);
            }
        }
    }
}

/// A name stays the key of one profile: adding, deleting and replacing a
/// profile leave no two profiles with one name where there were none.
pub proof fn law_profile_names_stay_distinct(
    config: UserConfigView,
    profile: ProxyProfileView,
    old_name: Seq<char>,
)
    requires
        distinct_names(config.profiles),
    ensures
        profile_added(config, profile) matches Ok(after) ==> distinct_names(after.profiles),
        profile_deleted(config, old_name) matches Ok(after) ==> distinct_names(after.profiles),
        profile_updated(config, old_name, profile) matches Ok(after) ==> distinct_names(
            after.profiles,
        ),
{
    if let Ok(after) = profile_added(config, profile) {
        assert forall|i: int, j: int| 0 <= i < j < after.profiles.len() implies (
        #[trigger] after.profiles[i]).name != (#[trigger] after.profiles[j]).name by {
            assert(after.profiles[i] == config.profiles[i]);
            if j < config.profiles.len() {
                assert(after.profiles[j] == config.profiles[j]);
            }
        }
    }
    if let Ok(after) = profile_deleted(config, old_name) {
        lemma_without_keeps_distinct(config.profiles, old_name);
    }
    if let Ok(after) = profile_updated(config, old_name, profile) {
        lemma_profile_index(config.profiles, old_name);
        let at = profile_index(config.profiles, old_name)->0;
        assert forall|i: int, j: int| 0 <= i < j < after.profiles.len() implies (
        #[trigger] after.profiles[i]).name != (#[trigger] after.profiles[j]).name by {
            assert(config.profiles[i].name != config.profiles[j].name);
            if i != at && j != at {
                assert(after.profiles[i] == config.profiles[i]);
                assert(after.profiles[j] == config.profiles[j]);
            }
        }
    }
}

/// A new profile leaves every mapping with its profile.
pub proof fn law_add_profile_keeps_references(config: UserConfigView, profile: ProxyProfileView)
    requires
        references_hold(config),
    ensures
        profile_added(config, profile) matches Ok(after) ==> references_hold(after),
{
    if let Ok(after) = profile_added(config, profile) {
        assert forall|i: int| 0 <= i < after.mappings.len() implies has_profile(
            after.profiles,
            (#[trigger] after.mappings[i]).profile_name,
        ) by {
            let name = config.mappings[i].profile_name;
            let k = choose|k: int|
                0 <= k < config.profiles.len() && (#[trigger] config.profiles[k]).name == name;
            assert(after.profiles[k].name == name);
        }
    }
}

/// Deleting a profile deletes the mappings that use it, so every mapping
/// that stays has its profile.
pub proof fn law_delete_profile_keeps_references(config: UserConfigView, name: Seq<char>)
    requires
        references_hold(config),
    ensures
        profile_deleted(config, name) matches Ok(after) ==> references_hold(after),
        profile_deleted(config, name) matches Ok(after) ==> !has_profile(after.profiles, name)
            && forall|i: int|
            0 <= i < after.mappings.len() ==> (#[trigger] after.mappings[i]).profile_name != name,
{
    if let Ok(after) = profile_deleted(config, name) {
        let stays = |p: ProxyProfileView| p.name != name;
        let used = |m: SoftwareProxyMappingView| m.profile_name != name;
        lemma_filter_members(config.profiles, stays);
        lemma_filter_members(config.mappings, used);
        assert forall|i: int| 0 <= i < after.mappings.len() implies has_profile(
            after.profiles,
            (#[trigger] after.mappings[i]).profile_name,
        ) && after.mappings[i].profile_name != name by {
            let m = after.mappings[i];
            assert(used(m));
            let j = choose|j: int| 0 <= j < config.mappings.len() && config.mappings[j] == m;
            assert(has_profile(config.profiles, config.mappings[j].profile_name));
            let k = choose|k: int|
                0 <= k < config.profiles.len() && (#[trigger] config.profiles[k]).name
                    == m.profile_name;
            assert(stays(config.profiles[k]));
            let at = choose|at: int|
                0 <= at < after.profiles.len() && after.profiles[at] == config.profiles[k];
            assert(after.profiles[at].name == m.profile_name);
        }
        if has_profile(after.profiles, name) {
            let at = choose|at: int|
                0 <= at < after.profiles.len() && (#[trigger] after.profiles[at]).name == name;
            assert(stays(after.profiles[at]));
        }
    }
}

/// A target is put on a profile that is there, so every mapping has its
/// profile afterwards.
pub proof fn law_update_mapping_keeps_references(
    config: UserConfigView,
    software: Seq<char>,
    profile: Seq<char>,
)
    requires
        references_hold(config),
    ensures
        mapping_updated(config, software, profile) matches Ok(after) ==> references_hold(after),
{
    if let Ok(after) = mapping_updated(config, software, profile) {
        lemma_mapping_index(config.mappings, software);
        assert forall|i: int| 0 <= i < after.mappings.len() implies has_profile(
            after.profiles,
            (#[trigger] after.mappings[i]).profile_name,
        ) by {
            if i < config.mappings.len() && after.mappings[i] == config.mappings[i] {
                assert(has_profile(config.profiles, config.mappings[i].profile_name));
            } else {
                assert(after.mappings[i].profile_name == profile);
            }
        }
    }
}

/// `mapping_index` stays within the mappings.
pub proof fn lemma_mapping_index(mappings: Seq<SoftwareProxyMappingView>, software: Seq<char>)
    ensures
        mapping_index(mappings, software) matches Some(i) ==> 0 <= i < mappings.len()
            && mappings[i].software_name == software,
    decreases mappings.len(),
{
    if mappings.len() > 0 {
        lemma_mapping_index(mappings.drop_last(), software);
        if let Some(i) = mapping_index(mappings.drop_last(), software) {
            assert(mappings.drop_last()[i] == mappings[i]);
        }
    }
}

/// The mappings follow a profile to its new name, so every mapping has its
/// profile afterwards; and the names of the profiles stay distinct.
pub proof fn law_update_profile_keeps_references(
    config: UserConfigView,
    old_name: Seq<char>,
    profile: ProxyProfileView,
)
    requires
        references_hold(config),
    ensures
        profile_updated(config, old_name, profile) matches Ok(after) ==> references_hold(after),
        profile_updated(config, old_name, profile) matches Ok(after) ==> (distinct_names(
            config.profiles,
        ) ==> distinct_names(after.profiles)),
{
    if distinct_names(config.profiles) {
        law_profile_names_stay_distinct(config, profile, old_name);
    }
    if let Ok(after) = profile_updated(config, old_name, profile) {
        lemma_profile_index(config.profiles, old_name);
        let at = profile_index(config.profiles, old_name)->0;
        assert(after.profiles[at] == profile);
        assert forall|i: int| 0 <= i < after.mappings.len() implies has_profile(
            after.profiles,
            (#[trigger] after.mappings[i]).profile_name,
        ) by {
            let before = config.mappings[i];
            if before.profile_name == old_name {
                assert(after.mappings[i].profile_name == profile.name);
                assert(after.profiles[at].name == profile.name);
            } else {
                assert(after.mappings[i] == before);
                assert(has_profile(config.profiles, before.profile_name));
                let k = choose|k: int|
                    0 <= k < config.profiles.len() && (#[trigger] config.profiles[k]).name
                        == before.profile_name;
                assert(k != at);
                assert(after.profiles[k].name == before.profile_name);
            }
        }
    }
}

/// Declaring a target and taking one back leave every mapping that stays
/// with its profile.
pub proof fn law_custom_software_keeps_references(
    config: UserConfigView,
    software: CustomSoftwareView,
    name: Seq<char>,
)
    requires
        references_hold(config),
    ensures
        custom_added(config, software) matches Ok(after) ==> references_hold(after),
        custom_deleted(config, name) matches Ok(after) ==> references_hold(after),
{
    if let Ok(after) = custom_deleted(config, name) {
        let stays = |m: SoftwareProxyMappingView| m.software_name != name;
        lemma_filter_members(config.mappings, stays);
        assert forall|i: int| 0 <= i < after.mappings.len() implies has_profile(
            after.profiles,
            (#[trigger] after.mappings[i]).profile_name,
        ) by {
            let m = after.mappings[i];
            let j = choose|j: int| 0 <= j < config.mappings.len() && config.mappings[j] == m;
            assert(has_profile(config.profiles, config.mappings[j].profile_name));
        }
    }
}

} // verus!
