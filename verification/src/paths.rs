//! Where this crate keeps its own files: the snapshots and the user's
//! configuration.

use vstd::prelude::*;
use crate::outside::{data_local_dir, home_dir};
use crate::registry::{join, join_path};
use crate::settings::{opt_text, Platform};
use crate::text::chars::{chars_of, push_str, string_of};

verus! {

/// The directory of the snapshots below the local data directory `base`.
pub open spec fn backup_dir(base: Seq<char>, platform: Platform) -> Seq<char> {
    join(join(base, "proxy-manager"@, platform), "backups"@, platform)
}

/// The file of the first snapshot of the target `name`.
pub open spec fn original_backup_path(base: Seq<char>, name: Seq<char>, platform: Platform) -> Seq<
    char,
> {
    join(backup_dir(base, platform), name + ".original.backup"@, platform)
}

/// The file of the last snapshot of the target `name`.
pub open spec fn current_backup_path(base: Seq<char>, name: Seq<char>, platform: Platform) -> Seq<
    char,
> {
    join(backup_dir(base, platform), name + ".current.backup"@, platform)
}

/// The file of the first snapshot of the environment variables.
pub open spec fn env_original_backup_path(base: Seq<char>, platform: Platform) -> Seq<char> {
    join(backup_dir(base, platform), "windows_env.original.backup.json"@, platform)
}

/// The file of the last snapshot of the environment variables.
pub open spec fn env_current_backup_path(base: Seq<char>, platform: Platform) -> Seq<char> {
    join(backup_dir(base, platform), "windows_env.current.backup.json"@, platform)
}

/// The file of the user's configuration: below the home directory, or
/// below the working directory where the home directory is unknown.
pub open spec fn user_config_path(home: Option<Seq<char>>, platform: Platform) -> Seq<char> {
    let base = match home {
        Some(dir) => dir,
        None => "."@,
    };
    join(join(base, ".proxy-manager"@, platform), "user_config.json"@, platform)
}

/// The directory of the snapshots below `base`.
pub fn backup_dir_in(base: &str, platform: Platform) -> (r: String)
    ensures
        r@ == backup_dir(base@, platform),
{
    let top = join_path(base, "proxy-manager", platform);
    join_path(top.as_str(), "backups", platform)
}

fn snapshot_path(base: &str, name: &str, suffix: &str, platform: Platform) -> (r: String)
    ensures
        r@ == join(backup_dir(base@, platform), name@ + suffix@, platform),
{
    let dir = backup_dir_in(base, platform);
    let mut file = chars_of(name);
    push_str(&mut file, suffix);
    let file = string_of(&file);
    join_path(dir.as_str(), file.as_str(), platform)
}

/// The file of the first snapshot of the target `name` below `base`.
pub fn original_backup_path_in(base: &str, name: &str, platform: Platform) -> (r: String)
    ensures
        r@ == original_backup_path(base@, name@, platform),
{
    snapshot_path(base, name, ".original.backup", platform)
}

/// The file of the last snapshot of the target `name` below `base`.
pub fn current_backup_path_in(base: &str, name: &str, platform: Platform) -> (r: String)
    ensures
        r@ == current_backup_path(base@, name@, platform),
{
    snapshot_path(base, name, ".current.backup", platform)
}

/// The file of the first snapshot of the environment variables below
/// `base`.
pub fn env_original_backup_path_in(base: &str, platform: Platform) -> (r: String)
    ensures
        r@ == env_original_backup_path(base@, platform),
{
    let dir = backup_dir_in(base, platform);
    join_path(dir.as_str(), "windows_env.original.backup.json", platform)
}

/// The file of the last snapshot of the environment variables below `base`.
pub fn env_current_backup_path_in(base: &str, platform: Platform) -> (r: String)
    ensures
        r@ == env_current_backup_path(base@, platform),
{
    let dir = backup_dir_in(base, platform);
    join_path(dir.as_str(), "windows_env.current.backup.json", platform)
}

/// The file of the user's configuration, given the home directory.
pub fn user_config_path_in(home: &Option<String>, platform: Platform) -> (r: String)
    ensures
        r@ == user_config_path(opt_text(*home), platform),
{
    let dir = match home {
        Some(dir) => join_path(dir.as_str(), ".proxy-manager", platform),
        None => join_path(".", ".proxy-manager", platform),
    };
    join_path(dir.as_str(), "user_config.json", platform)
}

/// The directory of the snapshots on this machine; `None` where the
/// platform reports no local data directory. That directory comes from the
/// environment; whatever is reported, the result is the directory for it.
pub fn get_backup_dir(platform: Platform) -> (r: Option<String>)
    ensures
        exists|base: Option<Seq<char>>|
            opt_text(r) == #[trigger] backup_dir_under(base, platform),
{
    let base = data_local_dir();
    backup_dir_for(&base, platform)
}

/// The file of the first snapshot of the target `software_name` on this
/// machine; `None` where the platform reports no local data directory.
/// Whatever is reported, the result is the file for it.
pub fn get_original_backup_path(software_name: &str, platform: Platform) -> (r: Option<String>)
    ensures
        exists|base: Option<Seq<char>>|
            opt_text(r) == #[trigger] original_backup_path_under(base, software_name@, platform),
{
    let base = data_local_dir();
    original_backup_path_for(&base, software_name, platform)
}

/// The file of the last snapshot of the target `software_name` on this
/// machine; `None` where the platform reports no local data directory.
/// That directory comes from the environment; whatever is reported, the
/// result is the file for it.
pub fn get_current_backup_path(software_name: &str, platform: Platform) -> (r: Option<String>)
    ensures
        exists|base: Option<Seq<char>>|
            opt_text(r) == #[trigger] current_backup_path_under(base, software_name@, platform),
{
    let base = data_local_dir();
    current_backup_path_for(&base, software_name, platform)
}

/// The file of the first snapshot of the environment variables on this
/// machine; `None` where the platform reports no local data directory.
/// That directory comes from the environment; whatever is reported, the
/// result is the file for it.
pub fn get_env_original_backup_path(platform: Platform) -> (r: Option<String>)
    ensures
        exists|base: Option<Seq<char>>|
            opt_text(r) == #[trigger] env_original_backup_path_under(base, platform),
{
    let base = data_local_dir();
    env_original_backup_path_for(&base, platform)
}

/// The file of the last snapshot of the environment variables on this
/// machine; `None` where the platform reports no local data directory.
/// That directory comes from the environment; whatever is reported, the
/// result is the file for it.
pub fn get_env_current_backup_path(platform: Platform) -> (r: Option<String>)
    ensures
        exists|base: Option<Seq<char>>|
            opt_text(r) == #[trigger] env_current_backup_path_under(base, platform),
{
    let base = data_local_dir();
    env_current_backup_path_for(&base, platform)
}

/// The file of the user's configuration on this machine. The home
/// directory comes from the environment; whatever it is, the result is the
/// file for it.
pub fn get_user_config_path(platform: Platform) -> (r: String)
    ensures
        exists|home: Option<Seq<char>>| r@ == #[trigger] user_config_path(home, platform),
{
    let home = home_dir();
    user_config_path_in(&home, platform)
}

/// The directory of the snapshots for what the platform reports as the
/// local data directory: below that directory, and none where none is
/// reported.
pub open spec fn backup_dir_under(base: Option<Seq<char>>, platform: Platform) -> Option<
    Seq<char>,
> {
    match base {
        Some(dir) => Some(backup_dir(dir, platform)),
        None => None,
    }
}

/// The file of the first snapshot of the target `name` for what the
/// platform reports as the local data directory.
pub open spec fn original_backup_path_under(
    base: Option<Seq<char>>,
    name: Seq<char>,
    platform: Platform,
) -> Option<Seq<char>> {
    match base {
        Some(dir) => Some(original_backup_path(dir, name, platform)),
        None => None,
    }
}

/// The file of the last snapshot of the target `name` for what the platform
/// reports as the local data directory.
pub open spec fn current_backup_path_under(
    base: Option<Seq<char>>,
    name: Seq<char>,
    platform: Platform,
) -> Option<Seq<char>> {
    match base {
        Some(dir) => Some(current_backup_path(dir, name, platform)),
        None => None,
    }
}

/// The file of the first snapshot of the environment variables for what the
/// platform reports as the local data directory.
pub open spec fn env_original_backup_path_under(base: Option<Seq<char>>, platform: Platform)
    -> Option<Seq<char>> {
    match base {
        Some(dir) => Some(env_original_backup_path(dir, platform)),
        None => None,
    }
}

/// The file of the last snapshot of the environment variables for what the
/// platform reports as the local data directory.
pub open spec fn env_current_backup_path_under(base: Option<Seq<char>>, platform: Platform)
    -> Option<Seq<char>> {
    match base {
        Some(dir) => Some(env_current_backup_path(dir, platform)),
        None => None,
    }
}

/// The directory of the snapshots, given what the platform reports as the
/// local data directory.
pub fn backup_dir_for(base: &Option<String>, platform: Platform) -> (r: Option<String>)
    ensures
        opt_text(r) == backup_dir_under(opt_text(*base), platform),
{
    match base {
        Some(dir) => Some(backup_dir_in(dir.as_str(), platform)),
        None => None,
    }
}

/// The file of the first snapshot of the target `name`, given what the
/// platform reports as the local data directory.
pub fn original_backup_path_for(base: &Option<String>, name: &str, platform: Platform) -> (r:
    Option<String>)
    ensures
        opt_text(r) == original_backup_path_under(opt_text(*base), name@, platform),
{
    match base {
        Some(dir) => Some(original_backup_path_in(dir.as_str(), name, platform)),
        None => None,
    }
}

/// The file of the last snapshot of the target `name`, given what the
/// platform reports as the local data directory.
pub fn current_backup_path_for(base: &Option<String>, name: &str, platform: Platform) -> (r:
    Option<String>)
    ensures
        opt_text(r) == current_backup_path_under(opt_text(*base), name@, platform),
{
    match base {
        Some(dir) => Some(current_backup_path_in(dir.as_str(), name, platform)),
        None => None,
    }
}

/// The file of the first snapshot of the environment variables, given what
/// the platform reports as the local data directory.
pub fn env_original_backup_path_for(base: &Option<String>, platform: Platform) -> (r: Option<
    String,
>)
    ensures
        opt_text(r) == env_original_backup_path_under(opt_text(*base), platform),
{
    match base {
        Some(dir) => Some(env_original_backup_path_in(dir.as_str(), platform)),
        None => None,
    }
}

/// The file of the last snapshot of the environment variables, given what
/// the platform reports as the local data directory.
pub fn env_current_backup_path_for(base: &Option<String>, platform: Platform) -> (r: Option<
    String,
>)
    ensures
        opt_text(r) == env_current_backup_path_under(opt_text(*base), platform),
{
    match base {
        Some(dir) => Some(env_current_backup_path_in(dir.as_str(), platform)),
        None => None,
    }
}

} // verus!
