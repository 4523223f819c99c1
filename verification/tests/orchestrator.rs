use proxy_manager::backup::{backup_config, restore_config, FileTarget, SnapshotPair};
use proxy_manager::editors::env::EnvTarget;
use proxy_manager::orchestrator::{
    disable_file_proxy, disable_proxy, disable_proxy_for_software, editor_of, enable_file_proxy,
    enable_proxy, enable_proxy_for_software, enable_proxy_with_profiles, knows_profile, report,
    reset_file_to_original, reset_software_to_original, reset_to_original, Editor,
    ProfiledTarget, Target, TargetState,
};
use proxy_manager::profile_manager::ProxyProfile;
use proxy_manager::settings::{Platform, ProxySettings};

fn settings(http: &str, https: &str) -> ProxySettings {
    ProxySettings {
        http_proxy: http.to_string(),
        https_proxy: https.to_string(),
        no_proxy: "localhost,127.0.0.1,::1".to_string(),
    }
}

fn fresh(content: Option<&str>) -> FileTarget {
    FileTarget {
        path: Some("/config".to_string()),
        content: content.map(|c| c.to_string()),
        backups: Some(SnapshotPair { original: None, current: None }),
    }
}

fn ok(message: &str) -> Result<String, String> {
    Ok(message.to_string())
}

fn err(message: &str) -> Result<String, String> {
    Err(message.to_string())
}

const NAMES: [&str; 5] = ["Git", "npm", "Cursor", "VSCode", "IDEA"];

#[test]
fn editors_by_name() {
    assert_eq!(editor_of("Git"), Some(Editor::Git));
    assert_eq!(editor_of("npm"), Some(Editor::Npm));
    assert_eq!(editor_of("Cursor"), Some(Editor::Json));
    assert_eq!(editor_of("VSCode"), Some(Editor::Json));
    assert_eq!(editor_of("IDEA"), Some(Editor::Xml));
    assert_eq!(editor_of("Windows Terminal"), None);
    assert_eq!(editor_of("git"), None);
}

#[test]
fn backup_writes_the_first_snapshot_once_and_the_last_always() {
    let mut t = fresh(Some("one"));
    assert_eq!(backup_config(&mut t), Ok(()));
    assert_eq!(
        t.backups,
        Some(SnapshotPair { original: Some("one".to_string()), current: Some("one".to_string()) })
    );
    t.content = Some("two".to_string());
    assert_eq!(backup_config(&mut t), Ok(()));
    assert_eq!(
        t.backups,
        Some(SnapshotPair { original: Some("one".to_string()), current: Some("two".to_string()) })
    );
    assert_eq!(t.content, Some("two".to_string()));
}

#[test]
fn backup_of_a_missing_file_does_nothing() {
    let mut t = fresh(None);
    let before = t.clone();
    assert_eq!(backup_config(&mut t), Ok(()));
    assert_eq!(t, before);
    let mut t = FileTarget { path: None, content: None, backups: None };
    assert_eq!(backup_config(&mut t), Ok(()));
}

#[test]
fn backup_needs_the_backup_directory() {
    let mut t = FileTarget {
        path: Some("/p".to_string()),
        content: Some("x".to_string()),
        backups: None,
    };
    let before = t.clone();
    assert_eq!(backup_config(&mut t), Err("无法获取备份目录".to_string()));
    assert_eq!(t, before);
    assert_eq!(restore_config(&mut t, true), Err("无法获取备份路径".to_string()));
    assert_eq!(restore_config(&mut t, false), Err("无法获取备份路径".to_string()));
    assert_eq!(t, before);
}

#[test]
fn restore_takes_the_chosen_snapshot_and_keeps_both() {
    let pair = SnapshotPair { original: Some("first".to_string()), current: Some("last".to_string()) };
    let mut t = FileTarget {
        path: Some("/p".to_string()),
        content: Some("now".to_string()),
        backups: Some(pair.clone()),
    };
    assert_eq!(restore_config(&mut t, false), Ok(true));
    assert_eq!(t.content, Some("last".to_string()));
    assert_eq!(t.backups, Some(pair.clone()));
    assert_eq!(restore_config(&mut t, true), Ok(true));
    assert_eq!(t.content, Some("first".to_string()));
    assert_eq!(t.backups, Some(pair));
    let mut t = fresh(Some("now"));
    assert_eq!(restore_config(&mut t, true), Ok(false));
    assert_eq!(restore_config(&mut t, false), Ok(false));
    assert_eq!(t.content, Some("now".to_string()));
}

#[test]
fn enable_twice_is_enable_once() {
    let s = settings("http://127.0.0.1:7890", "http://127.0.0.1:7891");
    let contents = [
        Some("[user]\n\tname = a\n[http]\n\tproxy = old\n"),
        Some("registry=https://registry.npmjs.org/\nproxy=http://old:1\n"),
        Some("{\"editor.fontSize\": 14, \"http.proxy\": \"old\"}"),
        Some("{\"a\": [1, 2.5, null, {\"b\": \"c\"}]}"),
        Some("<application/>"),
    ];
    for (name, content) in NAMES.iter().zip(contents) {
        for start in [content, None] {
            let mut t = fresh(start);
            assert!(enable_file_proxy(name, &mut t, &s).is_ok());
            let once = t.content.clone();
            assert!(once.is_some());
            assert!(enable_file_proxy(name, &mut t, &s).is_ok());
            assert_eq!(t.content, once, "{}", name);
        }
    }
}

#[test]
fn reset_after_two_enables_restores_what_the_first_backup_captured() {
    let a = settings("http://a:1", "http://a:2");
    let b = settings("http://b:3", "http://b:4");
    for name in NAMES {
        let mut t = fresh(Some("{\"k\": 1}"));
        assert!(enable_file_proxy(name, &mut t, &a).is_ok());
        let after_a = t.content.clone();
        assert!(enable_file_proxy(name, &mut t, &b).is_ok());
        assert_eq!(t.backups.as_ref().unwrap().current, after_a);
        assert_eq!(reset_file_to_original(&mut t), ok("已重置到初始状态"));
        assert_eq!(t.content, Some("{\"k\": 1}".to_string()), "{}", name);
        assert_eq!(t.backups.as_ref().unwrap().original, Some("{\"k\": 1}".to_string()));
    }
}

#[test]
fn reset_keeps_an_earlier_first_snapshot() {
    let a = settings("http://a:1", "http://a:2");
    let mut t = FileTarget {
        path: Some("/p".to_string()),
        content: Some("later".to_string()),
        backups: Some(SnapshotPair { original: Some("earliest".to_string()), current: None }),
    };
    assert!(enable_file_proxy("Git", &mut t, &a).is_ok());
    assert!(enable_file_proxy("Git", &mut t, &a).is_ok());
    assert_eq!(reset_file_to_original(&mut t), ok("已重置到初始状态"));
    assert_eq!(t.content, Some("earliest".to_string()));
}

#[test]
fn reset_where_the_file_came_with_the_first_enable() {
    let a = settings("http://a:1", "http://a:2");
    let b = settings("http://b:3", "http://b:4");
    let mut t = fresh(None);
    assert!(enable_file_proxy("npm", &mut t, &a).is_ok());
    let written = t.content.clone();
    assert_eq!(t.backups, Some(SnapshotPair { original: None, current: None }));
    assert!(enable_file_proxy("npm", &mut t, &b).is_ok());
    assert_eq!(reset_file_to_original(&mut t), ok("已重置到初始状态"));
    assert_eq!(t.content, written);
}

#[test]
fn disable_after_enable_restores_what_was_there() {
    let a = settings("http://a:1", "http://a:2");
    let bad = settings("nonsense", "x");
    for name in NAMES {
        for s in [&a, &bad] {
            let mut t = fresh(Some("{\"before\": true}"));
            let _ = enable_file_proxy(name, &mut t, s);
            assert_eq!(disable_file_proxy(name, &mut t), ok("已还原上次配置"));
            assert_eq!(t.content, Some("{\"before\": true}".to_string()), "{}", name);
        }
    }
}

#[test]
fn disable_without_backup_lets_the_editor_strip() {
    let mut t = fresh(Some("[user]\n\tname = a\n[http]\n\tproxy = p\n"));
    assert_eq!(disable_file_proxy("Git", &mut t), ok("代理已关闭"));
    assert_eq!(t.content, Some("[user]\n\tname = a".to_string()));

    let mut t = fresh(Some("\na=1\nproxy=p\nhttps-proxy=q\n"));
    assert_eq!(disable_file_proxy("npm", &mut t), ok("代理已关闭"));
    assert_eq!(t.content, Some("a=1".to_string()));

    let mut t = fresh(Some("{\"http.proxy\": \"p\", \"x\": true}"));
    assert_eq!(disable_file_proxy("Cursor", &mut t), ok("代理已关闭"));
    assert_eq!(t.content, Some("{\n  \"x\": true\n}".to_string()));

    let mut t = fresh(Some("<application/>"));
    assert_eq!(disable_file_proxy("IDEA", &mut t), ok("代理已关闭（需重启 IDEA）"));
    assert_eq!(t.content, None);
    let mut t = fresh(None);
    assert_eq!(disable_file_proxy("IDEA", &mut t), ok("代理已关闭（需重启 IDEA）"));
    assert_eq!(t.content, None);

    for name in ["Git", "npm", "Cursor", "VSCode"] {
        let mut t = fresh(None);
        assert_eq!(disable_file_proxy(name, &mut t), ok("配置文件不存在，无需操作"));
        assert_eq!(t.content, None);
    }
}

#[test]
fn a_generated_file_is_gone_after_enable_and_disable() {
    let a = settings("http://a:1", "x");
    let mut t = fresh(None);
    assert_eq!(enable_file_proxy("IDEA", &mut t, &a), ok("代理已开启（需重启 IDEA）"));
    assert!(t.content.is_some());
    assert_eq!(disable_file_proxy("IDEA", &mut t), ok("代理已关闭（需重启 IDEA）"));
    assert_eq!(t.content, None);
}

#[test]
fn a_missing_file_counts_as_empty_content() {
    let a = settings("http://a:1", "http://a:2");
    let mut t = fresh(None);
    assert_eq!(enable_file_proxy("Git", &mut t, &a), ok("代理已开启"));
    assert_eq!(
        t.content,
        Some("\n[http]\n\tproxy = http://a:1\n[https]\n\tproxy = http://a:2\n".to_string())
    );
    let mut t = fresh(None);
    assert_eq!(enable_file_proxy("VSCode", &mut t, &a), ok("代理已开启"));
    assert_eq!(t.content, Some("{\n  \"http.proxy\": \"http://a:1\"\n}".to_string()));
    assert_eq!(t.backups, Some(SnapshotPair { original: None, current: None }));
}

#[test]
fn targets_without_a_path_are_rejected() {
    let a = settings("http://a:1", "http://a:2");
    for name in ["Git", "IDEA", "unknown"] {
        let mut t = FileTarget {
            path: None,
            content: Some("x".to_string()),
            backups: Some(SnapshotPair { original: Some("o".to_string()), current: None }),
        };
        let before = t.clone();
        assert_eq!(enable_file_proxy(name, &mut t, &a), err("无法获取配置路径"));
        assert_eq!(disable_file_proxy(name, &mut t), err("无法获取配置路径"));
        assert_eq!(reset_file_to_original(&mut t), err("无法获取配置路径"));
        assert_eq!(t, before);
    }
}

#[test]
fn unknown_targets_are_not_edited() {
    let a = settings("http://a:1", "http://a:2");
    let mut t = fresh(Some("x"));
    assert_eq!(enable_file_proxy("Mine", &mut t, &a), err("不支持的软件"));
    assert_eq!(t.content, Some("x".to_string()));
    assert_eq!(t.backups.as_ref().unwrap().current, Some("x".to_string()));
    let mut t = fresh(Some("x"));
    assert_eq!(disable_file_proxy("Mine", &mut t), err("不支持的软件"));
    assert_eq!(t.content, Some("x".to_string()));
}

#[test]
fn enable_fails_without_backup_directory_and_touches_nothing() {
    let a = settings("http://a:1", "http://a:2");
    let mut t = FileTarget {
        path: Some("/p".to_string()),
        content: Some("x".to_string()),
        backups: None,
    };
    let before = t.clone();
    assert_eq!(enable_file_proxy("Git", &mut t, &a), err("无法获取备份目录"));
    assert_eq!(t, before);
    assert_eq!(disable_file_proxy("Git", &mut t), err("无法获取备份路径"));
    assert_eq!(reset_file_to_original(&mut t), err("无法获取备份路径"));
    assert_eq!(t, before);
}

#[test]
fn a_bad_port_is_reported() {
    let mut t = fresh(None);
    assert_eq!(enable_file_proxy("IDEA", &mut t, &settings("http://h:port", "")), err("无效的端口号"));
    assert_eq!(t.content, None);
}

#[test]
fn report_lines() {
    assert_eq!(report("Git", &ok("代理已开启")), "✓ Git: 代理已开启");
    assert_eq!(report("npm", &err("无法获取配置路径")), "✗ npm: 无法获取配置路径");
    assert_eq!(report("", &ok("")), "✓ : ");
}

fn slot(name: &str, content: Option<&str>) -> Target {
    Target { name: name.to_string(), state: TargetState::Files(fresh(content)) }
}

fn env_slot() -> Target {
    Target {
        name: "Windows Terminal".to_string(),
        state: TargetState::Env(EnvTarget {
            vars: vec![("HTTP_PROXY".to_string(), "before".to_string())],
            backups: Some(SnapshotPair { original: None, current: None }),
        }),
    }
}

#[test]
fn a_batch_reports_each_target_in_order_and_goes_on_after_a_failure() {
    let s = settings("http://a:1", "http://a:2");
    let mut targets = vec![
        slot("npm", Some("a=1")),
        Target {
            name: "Cursor".to_string(),
            state: TargetState::Files(FileTarget { path: None, content: None, backups: None }),
        },
        slot("IDEA", None),
        env_slot(),
        slot("Git", None),
    ];
    let lines = enable_proxy(&mut targets, Platform::Other, &s).unwrap();
    assert_eq!(
        lines,
        vec![
            "✓ npm: 代理已开启",
            "✗ Cursor: 无法获取配置路径",
            "✓ IDEA: 代理已开启（需重启 IDEA）",
            "✗ Windows Terminal: Windows Terminal 仅支持 Windows 系统",
            "✓ Git: 代理已开启",
        ]
    );
    assert_eq!(targets.len(), 5);
    assert_eq!(targets[0].name, "npm");
    assert_eq!(targets[4].name, "Git");
    assert_eq!(targets[3], env_slot());
    match &targets[0].state {
        TargetState::Files(files) => {
            assert_eq!(files.content, Some("a=1\nproxy=http://a:1\nhttps-proxy=http://a:2".to_string()))
        }
        TargetState::Env(_) => panic!("a file target stays a file target"),
    }

    let lines = disable_proxy(&mut targets, Platform::Other).unwrap();
    assert_eq!(
        lines,
        vec![
            "✓ npm: 已还原上次配置",
            "✗ Cursor: 无法获取配置路径",
            "✓ IDEA: 代理已关闭（需重启 IDEA）",
            "✗ Windows Terminal: Windows Terminal 仅支持 Windows 系统",
            "✓ Git: 代理已关闭",
        ]
    );
    let lines = reset_to_original(&mut targets, Platform::Other).unwrap();
    assert_eq!(
        lines,
        vec![
            "✓ npm: 已重置到初始状态",
            "✗ Cursor: 无法获取配置路径",
            "✓ IDEA: 没有初始备份，无需重置",
            "✗ Windows Terminal: Windows Terminal 仅支持 Windows 系统",
            "✓ Git: 没有初始备份，无需重置",
        ]
    );
    assert_eq!(enable_proxy(&mut Vec::new(), Platform::Other, &s), Ok(Vec::new()));
}

#[test]
fn the_environment_target_runs_on_windows_only() {
    let s = settings("http://a:1", "http://a:2");
    for platform in [Platform::MacOs, Platform::Other] {
        let mut t = env_slot();
        assert_eq!(
            enable_proxy_for_software("Windows Terminal", platform, &mut t.state, &s),
            err("Windows Terminal 仅支持 Windows 系统")
        );
        assert_eq!(
            disable_proxy_for_software("Windows Terminal", platform, &mut t.state),
            err("Windows Terminal 仅支持 Windows 系统")
        );
        assert_eq!(
            reset_software_to_original("Windows Terminal", platform, &mut t.state),
            err("Windows Terminal 仅支持 Windows 系统")
        );
        assert_eq!(t, env_slot());
    }
    let mut t = env_slot();
    assert_eq!(
        enable_proxy_for_software("Windows Terminal", Platform::Windows, &mut t.state, &s),
        ok("环境变量已设置（新终端窗口生效）")
    );
    assert_eq!(
        disable_proxy_for_software("Windows Terminal", Platform::Windows, &mut t.state),
        ok("已还原上次环境变量（新终端窗口生效）")
    );
    match &t.state {
        TargetState::Env(vars) => {
            assert_eq!(vars.vars, vec![("HTTP_PROXY".to_string(), "before".to_string())])
        }
        TargetState::Files(_) => panic!("the environment stays the environment"),
    }
    assert_eq!(
        reset_software_to_original("Windows Terminal", Platform::Windows, &mut t.state),
        ok("已重置到初始环境变量（新终端窗口生效）")
    );
}

#[test]
fn profiles_give_the_proxy_for_each_target() {
    let profiles = vec![
        ProxyProfile { name: "Clash".to_string(), host: "127.0.0.1".to_string(), port: 7890 },
        ProxyProfile { name: "Twice".to_string(), host: "first".to_string(), port: 1 },
        ProxyProfile { name: "Twice".to_string(), host: "second".to_string(), port: 2 },
    ];
    let mut entries = vec![
        ProfiledTarget { target: slot("Git", Some("[user]")), profile_name: "Clash".to_string() },
        ProfiledTarget { target: slot("npm", Some("a=1")), profile_name: "Gone".to_string() },
        ProfiledTarget { target: slot("npm", None), profile_name: "Twice".to_string() },
    ];
    let lines = enable_proxy_with_profiles(&profiles, &mut entries, Platform::Other).unwrap();
    assert_eq!(
        lines,
        vec!["✓ Git: 代理已开启", "✗ npm: 未找到配置 'Gone'", "✓ npm: 代理已开启"]
    );
    match &entries[0].target.state {
        TargetState::Files(files) => assert_eq!(
            files.content,
            Some(
                "[user]\n[http]\n\tproxy = http://127.0.0.1:7890\n[https]\n\tproxy = http://127.0.0.1:7890\n"
                    .to_string()
            )
        ),
        TargetState::Env(_) => panic!("a file target stays a file target"),
    }
    assert_eq!(entries[1].target, slot("npm", Some("a=1")));
    match &entries[2].target.state {
        TargetState::Files(files) => assert_eq!(
            files.content,
            Some("proxy=http://second:2\nhttps-proxy=http://second:2".to_string())
        ),
        TargetState::Env(_) => panic!("a file target stays a file target"),
    }
    assert_eq!(entries[2].profile_name, "Twice");
}

#[test]
fn known_profiles() {
    let profiles = vec![
        ProxyProfile { name: "Clash".to_string(), host: "127.0.0.1".to_string(), port: 7890 },
        ProxyProfile { name: "Veee".to_string(), host: "127.0.0.1".to_string(), port: 15236 },
    ];
    assert!(knows_profile(&profiles, "Clash"));
    assert!(knows_profile(&profiles, "Veee"));
    assert!(!knows_profile(&profiles, "clash"));
    assert!(!knows_profile(&profiles, ""));
    assert!(!knows_profile(&Vec::new(), "Clash"));
}
