use proxy_manager::paths::{
    backup_dir_for, backup_dir_in, current_backup_path_for, current_backup_path_in,
    env_current_backup_path_for, env_current_backup_path_in, env_original_backup_path_for,
    env_original_backup_path_in, get_backup_dir, get_current_backup_path,
    get_env_current_backup_path, get_env_original_backup_path, get_original_backup_path,
    get_user_config_path, original_backup_path_for, original_backup_path_in,
    user_config_path_in,
};
use proxy_manager::profile_manager::CustomSoftware;
use proxy_manager::registry::{
    add_declared_software, builtin_software, config_path_for, get_config_path,
    get_software_list, join_path, latest_idea_dir, vendor_dir_for, vendor_directory, PathProbe,
};
use proxy_manager::settings::{proxy_settings_for, Platform, ProxySettings, SoftwareConfig};

fn some(s: &str) -> Option<String> {
    Some(s.to_string())
}

fn names(list: &[&str]) -> Vec<String> {
    list.iter().map(|s| s.to_string()).collect()
}

#[test]
fn default_settings() {
    let d = ProxySettings::default();
    assert_eq!(d.http_proxy, "http://127.0.0.1:7890");
    assert_eq!(d.https_proxy, "http://127.0.0.1:7890");
    assert_eq!(d.no_proxy, "localhost,127.0.0.1,::1");
}

#[test]
fn settings_from_host_and_port() {
    let s = proxy_settings_for("127.0.0.1", 7890);
    assert_eq!(s, ProxySettings::default());
    let s = proxy_settings_for("proxy.local", 0);
    assert_eq!(s.http_proxy, "http://proxy.local:0");
    assert_eq!(s.https_proxy, "http://proxy.local:0");
    assert_eq!(s.no_proxy, "localhost,127.0.0.1,::1");
}

#[test]
fn joining_paths() {
    assert_eq!(join_path("/home/a", ".gitconfig", Platform::Other), "/home/a/.gitconfig");
    assert_eq!(join_path("/home/a/", ".gitconfig", Platform::MacOs), "/home/a/.gitconfig");
    assert_eq!(join_path("", "x", Platform::Other), "x");
    assert_eq!(join_path("C:\\Users\\a", "x", Platform::Windows), "C:\\Users\\a\\x");
    assert_eq!(join_path("C:\\Users\\a\\", "x", Platform::Windows), "C:\\Users\\a\\x");
    assert_eq!(join_path("C:/Users/a/", "x", Platform::Windows), "C:/Users/a/x");
    assert_eq!(join_path("a\\", "x", Platform::Other), "a\\/x");
}

#[test]
fn paths_of_the_file_targets() {
    let home = some("/home/a");
    let config = some("/home/a/.config");
    let none: Vec<String> = Vec::new();
    let p = |name: &str| config_path_for(name, Platform::Other, &home, &config, &none);
    assert_eq!(p("Git"), some("/home/a/.gitconfig"));
    assert_eq!(p("npm"), some("/home/a/.npmrc"));
    assert_eq!(p("Cursor"), some("/home/a/.config/Cursor/User/settings.json"));
    assert_eq!(p("VSCode"), some("/home/a/.config/Code/User/settings.json"));
    assert_eq!(p("IDEA"), None);
    assert_eq!(p("Windows Terminal"), None);
    assert_eq!(p("git"), None);
    assert_eq!(p(""), None);
}

#[test]
fn paths_on_macos_and_windows() {
    let home = some("/Users/a");
    let config = some("/Users/a/Library/Application Support");
    let dirs = names(&["IntelliJIdea2023.1", "PyCharm2024.1", "IntelliJIdea2024.2"]);
    let p = |name: &str| config_path_for(name, Platform::MacOs, &home, &config, &dirs);
    assert_eq!(p("Cursor"), some("/Users/a/Library/Application Support/Cursor/User/settings.json"));
    assert_eq!(p("VSCode"), some("/Users/a/Library/Application Support/Code/User/settings.json"));
    assert_eq!(
        p("IDEA"),
        some("/Users/a/Library/Application Support/JetBrains/IntelliJIdea2024.2/options/proxy.settings.xml")
    );
    let home = some("C:\\Users\\a");
    let config = some("C:\\Users\\a\\AppData\\Roaming");
    let p = |name: &str| config_path_for(name, Platform::Windows, &home, &config, &dirs);
    assert_eq!(p("Git"), some("C:\\Users\\a\\.gitconfig"));
    assert_eq!(p("Cursor"), some("C:\\Users\\a\\AppData\\Roaming\\Cursor\\User\\settings.json"));
    assert_eq!(
        p("IDEA"),
        some("C:\\Users\\a\\AppData\\Roaming\\JetBrains\\IntelliJIdea2024.2\\options\\proxy.settings.xml")
    );
    let no_config = None;
    assert_eq!(config_path_for("Cursor", Platform::Windows, &home, &no_config, &dirs), None);
    assert_eq!(config_path_for("IDEA", Platform::Windows, &home, &no_config, &dirs), None);
    assert_eq!(
        config_path_for("Cursor", Platform::MacOs, &home, &no_config, &dirs),
        some("C:\\Users\\a/Library/Application Support/Cursor/User/settings.json")
    );
}

#[test]
fn no_home_directory_means_no_path() {
    let config = some("/c");
    let dirs = names(&["IntelliJIdea1"]);
    for name in ["Git", "npm", "Cursor", "VSCode", "IDEA"] {
        for platform in [Platform::Windows, Platform::MacOs, Platform::Other] {
            assert_eq!(config_path_for(name, platform, &None, &config, &dirs), None);
        }
    }
    assert_eq!(vendor_dir_for(Platform::Windows, &None, &config), None);
}

#[test]
fn vendor_directories() {
    let home = some("/h");
    let config = some("/c");
    assert_eq!(vendor_dir_for(Platform::Windows, &home, &config), some("/c\\JetBrains"));
    assert_eq!(vendor_dir_for(Platform::Windows, &home, &None), None);
    assert_eq!(
        vendor_dir_for(Platform::MacOs, &home, &None),
        some("/h/Library/Application Support/JetBrains")
    );
    assert_eq!(vendor_dir_for(Platform::Other, &home, &config), None);
}

#[test]
fn latest_install_is_last_in_the_order_of_dictionaries() {
    assert_eq!(latest_idea_dir(&names(&[])), None);
    assert_eq!(latest_idea_dir(&names(&["PyCharm2024", "intellijidea1"])), None);
    assert_eq!(
        latest_idea_dir(&names(&["IntelliJIdea2023.3", "IntelliJIdea2024.1", "IntelliJIdea2022.1"])),
        some("IntelliJIdea2024.1")
    );
    // Not a comparison of version numbers: 9 comes after 10.
    assert_eq!(
        latest_idea_dir(&names(&["IntelliJIdea9", "IntelliJIdea10"])),
        some("IntelliJIdea9")
    );
    assert_eq!(
        latest_idea_dir(&names(&["IntelliJIdea", "WebStorm9", "IntelliJIdea"])),
        some("IntelliJIdea")
    );
}

#[test]
fn paths_on_this_machine_follow_the_rules() {
    let none: Vec<String> = Vec::new();
    if let Some(path) = get_config_path("Git", Platform::Other, &none) {
        assert!(path.ends_with(".gitconfig"));
    }
    if let Some(path) = get_config_path("Cursor", Platform::Other, &none) {
        assert!(path.ends_with("/Cursor/User/settings.json"));
    }
    assert_eq!(get_config_path("IDEA", Platform::Other, &none), None);
    assert_eq!(get_config_path("Windows Terminal", Platform::Windows, &none), None);
    assert_eq!(get_config_path("something else", Platform::Other, &none), None);
    assert_eq!(vendor_directory(Platform::Other), None);
    if let Some(dir) = get_backup_dir(Platform::Other) {
        assert!(dir.ends_with("/proxy-manager/backups"));
    }
    if let Some(path) = get_original_backup_path("Git", Platform::Other) {
        assert!(path.ends_with("/proxy-manager/backups/Git.original.backup"));
    }
    if let Some(path) = get_current_backup_path("Git", Platform::Other) {
        assert!(path.ends_with("/proxy-manager/backups/Git.current.backup"));
    }
    if let Some(path) = get_env_original_backup_path(Platform::Windows) {
        assert!(path.ends_with("\\proxy-manager\\backups\\windows_env.original.backup.json"));
    }
    if let Some(path) = get_env_current_backup_path(Platform::Windows) {
        assert!(path.ends_with("\\proxy-manager\\backups\\windows_env.current.backup.json"));
    }
    assert!(get_user_config_path(Platform::Other).ends_with("/.proxy-manager/user_config.json"));
}

#[test]
fn layout_of_the_backup_directory() {
    assert_eq!(backup_dir_in("/d", Platform::Other), "/d/proxy-manager/backups");
    assert_eq!(
        original_backup_path_in("/d", "Git", Platform::Other),
        "/d/proxy-manager/backups/Git.original.backup"
    );
    assert_eq!(
        current_backup_path_in("/d", "VSCode", Platform::Other),
        "/d/proxy-manager/backups/VSCode.current.backup"
    );
    assert_eq!(
        env_original_backup_path_in("C:\\d", Platform::Windows),
        "C:\\d\\proxy-manager\\backups\\windows_env.original.backup.json"
    );
    assert_eq!(
        env_current_backup_path_in("C:\\d", Platform::Windows),
        "C:\\d\\proxy-manager\\backups\\windows_env.current.backup.json"
    );
    assert_eq!(
        user_config_path_in(&some("/home/a"), Platform::Other),
        "/home/a/.proxy-manager/user_config.json"
    );
    assert_eq!(user_config_path_in(&None, Platform::Other), "./.proxy-manager/user_config.json");
}

fn entry(name: &str, kind: &str) -> SoftwareConfig {
    SoftwareConfig {
        name: name.to_string(),
        config_type: kind.to_string(),
        enabled: true,
        installed: false,
        config_path: None,
        is_custom: false,
    }
}

#[test]
fn built_in_targets() {
    let list = builtin_software(Platform::Other);
    assert_eq!(
        list,
        vec![
            entry("Git", "ini"),
            entry("npm", "ini"),
            entry("Cursor", "json"),
            entry("VSCode", "json"),
            entry("IDEA", "xml"),
        ]
    );
    assert_eq!(builtin_software(Platform::MacOs), list);
    let windows = builtin_software(Platform::Windows);
    assert_eq!(windows.len(), 6);
    assert_eq!(windows[..5], list[..]);
    assert_eq!(
        windows[5],
        SoftwareConfig {
            name: "Windows Terminal".to_string(),
            config_type: "env".to_string(),
            enabled: true,
            installed: true,
            config_path: some("HKEY_CURRENT_USER\\Environment"),
            is_custom: false,
        }
    );
}

#[test]
fn software_list_takes_path_and_presence_from_the_probes() {
    let probes = vec![
        PathProbe {
            name: "npm".to_string(),
            path: "/home/a/.npmrc".to_string(),
            exists: false,
            parent_exists: true,
        },
        PathProbe {
            name: "Git".to_string(),
            path: "/home/a/.gitconfig".to_string(),
            exists: true,
            parent_exists: false,
        },
        PathProbe {
            name: "Git".to_string(),
            path: "/elsewhere".to_string(),
            exists: false,
            parent_exists: false,
        },
        PathProbe {
            name: "Cursor".to_string(),
            path: "/x/settings.json".to_string(),
            exists: false,
            parent_exists: false,
        },
    ];
    let list = get_software_list(Platform::Other, &probes);
    assert_eq!(list.len(), 5);
    assert_eq!(list[0].config_path, some("/home/a/.gitconfig"));
    assert!(list[0].installed);
    assert_eq!(list[1].config_path, some("/home/a/.npmrc"));
    assert!(list[1].installed);
    assert_eq!(list[2].config_path, some("/x/settings.json"));
    assert!(!list[2].installed);
    assert_eq!(list[3], entry("VSCode", "json"));
    assert_eq!(list[4], entry("IDEA", "xml"));
    let windows = get_software_list(Platform::Windows, &probes);
    assert_eq!(windows.len(), 6);
    assert!(windows[5].installed);
    assert_eq!(windows[5].config_path, some("HKEY_CURRENT_USER\\Environment"));
}

#[test]
fn declared_targets_follow_the_built_in_ones() {
    let mut list = builtin_software(Platform::Other);
    let custom = vec![
        CustomSoftware {
            name: "Mine".to_string(),
            config_type: "json".to_string(),
            config_path: "/m.json".to_string(),
        },
        CustomSoftware {
            name: "Other".to_string(),
            config_type: "ini".to_string(),
            config_path: "/o.ini".to_string(),
        },
    ];
    add_declared_software(&mut list, &custom);
    assert_eq!(list.len(), 7);
    assert_eq!(list[4], entry("IDEA", "xml"));
    assert_eq!(
        list[5],
        SoftwareConfig {
            name: "Mine".to_string(),
            config_type: "json".to_string(),
            enabled: true,
            installed: true,
            config_path: some("/m.json"),
            is_custom: true,
        }
    );
    assert_eq!(list[6].name, "Other");
    assert!(list[6].is_custom);
}

#[test]
fn backup_paths_follow_the_reported_data_directory() {
    let base = some("/d");
    assert_eq!(backup_dir_for(&base, Platform::Other), some("/d/proxy-manager/backups"));
    assert_eq!(
        original_backup_path_for(&base, "npm", Platform::Other),
        some("/d/proxy-manager/backups/npm.original.backup")
    );
    assert_eq!(
        current_backup_path_for(&base, "npm", Platform::Other),
        some("/d/proxy-manager/backups/npm.current.backup")
    );
    assert_eq!(
        env_original_backup_path_for(&some("C:\\d"), Platform::Windows),
        some("C:\\d\\proxy-manager\\backups\\windows_env.original.backup.json")
    );
    assert_eq!(
        env_current_backup_path_for(&some("C:\\d"), Platform::Windows),
        some("C:\\d\\proxy-manager\\backups\\windows_env.current.backup.json")
    );
    assert_eq!(backup_dir_for(&None, Platform::Other), None);
    assert_eq!(original_backup_path_for(&None, "npm", Platform::Other), None);
    assert_eq!(current_backup_path_for(&None, "npm", Platform::Other), None);
    assert_eq!(env_original_backup_path_for(&None, Platform::Windows), None);
    assert_eq!(env_current_backup_path_for(&None, Platform::Windows), None);
}

#[test]
fn backup_paths_on_this_machine_lie_below_one_directory() {
    let dir = get_backup_dir(Platform::Other);
    let original = get_original_backup_path("Git", Platform::Other);
    let current = get_current_backup_path("Git", Platform::Other);
    assert_eq!(dir.is_some(), original.is_some());
    assert_eq!(dir.is_some(), current.is_some());
    if let (Some(dir), Some(original), Some(current)) = (dir, original, current) {
        assert_eq!(original, format!("{}/Git.original.backup", dir));
        assert_eq!(current, format!("{}/Git.current.backup", dir));
    }
}
