use proxy_manager::backup::{FileTarget, SnapshotPair};
use proxy_manager::editors::git::{remove_git_proxy_section, set_git_proxy};
use proxy_manager::editors::json::{clear_json_proxy, set_json_proxy};
use proxy_manager::editors::npm::{clear_npm_proxy, remove_npm_proxy_lines, set_npm_proxy};
use proxy_manager::editors::xml::{parse_proxy_url, proxy_document, set_idea_proxy};
use proxy_manager::orchestrator::{disable_file_proxy, enable_file_proxy, reset_file_to_original};
use proxy_manager::profile_manager::{
    delete_profile, update_software_mapping, ProxyProfile, SoftwareProxyMapping, UserConfig,
};
use proxy_manager::settings::ProxySettings;

fn settings(http: &str, https: &str) -> ProxySettings {
    ProxySettings {
        http_proxy: http.to_string(),
        https_proxy: https.to_string(),
        no_proxy: "localhost,127.0.0.1,::1".to_string(),
    }
}

fn target(path: &str, content: Option<&str>) -> FileTarget {
    FileTarget {
        path: Some(path.to_string()),
        content: content.map(|c| c.to_string()),
        backups: Some(SnapshotPair { original: None, current: None }),
    }
}

#[test]
fn git_enable_keeps_user_block_before_proxy_block() {
    let s = settings("http://127.0.0.1:7890", "http://127.0.0.1:7890");
    let mut t = target("/home/a/.gitconfig", Some("[user]\n\tname = a\n"));
    let r = enable_file_proxy("Git", &mut t, &s);
    assert_eq!(r, Ok("代理已开启".to_string()));
    let content = t.content.unwrap();
    assert_eq!(
        content,
        "[user]\n\tname = a\n[http]\n\tproxy = http://127.0.0.1:7890\n[https]\n\tproxy = http://127.0.0.1:7890\n"
    );
    let user = content.find("[user]").unwrap();
    let http = content.find("[http]").unwrap();
    assert!(user < http);
    assert!(content.contains("[http]\n\tproxy = http://127.0.0.1:7890"));
}

#[test]
fn git_apply_on_text() {
    let s = settings("http://a:1", "http://b:2");
    assert_eq!(
        set_git_proxy("", &s),
        "\n[http]\n\tproxy = http://a:1\n[https]\n\tproxy = http://b:2\n"
    );
    assert_eq!(
        set_git_proxy("[HTTP]\n\tproxy = old\n[core]\n\tx = 1\n  [Https]  \nproxy = o\n", &s),
        "[core]\n\tx = 1\n[http]\n\tproxy = http://a:1\n[https]\n\tproxy = http://b:2\n"
    );
}

#[test]
fn git_strip_removes_sections_whatever_their_case() {
    assert_eq!(remove_git_proxy_section("[Http]\nproxy = x\n[user]\nname = a\n\n"), "[user]\nname = a");
    assert_eq!(remove_git_proxy_section("a\r\n[https]\r\nb\r\n[x]\r\nc"), "a\n[x]\nc");
    assert_eq!(remove_git_proxy_section(""), "");
    assert_eq!(remove_git_proxy_section("[httpx]\nproxy = 1"), "[httpx]\nproxy = 1");
    assert_eq!(remove_git_proxy_section("[ http ]\nproxy = 1"), "[ http ]\nproxy = 1");
}

#[test]
fn npm_enable_replaces_stale_proxy_line() {
    let s = settings("http://127.0.0.1:7890", "http://127.0.0.1:7890");
    let mut t = target(
        "/home/a/.npmrc",
        Some("registry=https://registry.npmjs.org/\nproxy=http://old:1\n"),
    );
    let r = enable_file_proxy("npm", &mut t, &s);
    assert_eq!(r, Ok("代理已开启".to_string()));
    assert_eq!(
        t.content.unwrap(),
        "registry=https://registry.npmjs.org/\nproxy=http://127.0.0.1:7890\nhttps-proxy=http://127.0.0.1:7890"
    );
}

#[test]
fn npm_strip_and_apply_on_text() {
    assert_eq!(remove_npm_proxy_lines("a=1\n  PROXY=x\nHttps-Proxy=y\nb=2\n"), "a=1\nb=2");
    assert_eq!(clear_npm_proxy("\n\nproxy=x\na=1\n\n"), "a=1");
    let s = settings("h", "s");
    assert_eq!(set_npm_proxy("", &s), "proxy=h\nhttps-proxy=s");
    assert_eq!(set_npm_proxy("noproxy=1", &s), "noproxy=1\nproxy=h\nhttps-proxy=s");
}

#[test]
fn json_enable_then_disable_without_backup() {
    let s = settings("http://127.0.0.1:7890", "http://127.0.0.1:7890");
    let on = set_json_proxy(&Some("{\"editor.fontSize\": 14}".to_string()), &s).unwrap();
    assert_eq!(
        on,
        "{\n  \"editor.fontSize\": 14,\n  \"http.proxy\": \"http://127.0.0.1:7890\"\n}"
    );
    let off = clear_json_proxy(&on).unwrap();
    assert_eq!(off, "{\n  \"editor.fontSize\": 14\n}");

    let mut t = FileTarget {
        path: Some("settings.json".to_string()),
        content: Some(on),
        backups: Some(SnapshotPair { original: None, current: None }),
    };
    let r = disable_file_proxy("VSCode", &mut t);
    assert_eq!(r, Ok("代理已关闭".to_string()));
    assert_eq!(t.content.unwrap(), "{\n  \"editor.fontSize\": 14\n}");
}

#[test]
fn json_unparsable_content_counts_as_empty_object() {
    let s = settings("http://p:1", "x");
    assert_eq!(
        set_json_proxy(&Some("not json".to_string()), &s).unwrap(),
        "{\n  \"http.proxy\": \"http://p:1\"\n}"
    );
    assert_eq!(set_json_proxy(&None, &s).unwrap(), "{\n  \"http.proxy\": \"http://p:1\"\n}");
    assert_eq!(clear_json_proxy("not json").unwrap(), "{}");
    assert_eq!(clear_json_proxy("").unwrap(), "{}");
    assert_eq!(clear_json_proxy("{\"a\": 1").unwrap(), "{}");
    assert_eq!(set_json_proxy(&Some("[1, 2]".to_string()), &s).unwrap(), "{\n  \"http.proxy\": \"http://p:1\"\n}");
}

#[test]
fn json_strip_leaves_a_document_that_is_no_object_as_it_is() {
    for text in ["[1, 2]", " [ 1 ,\n2 ]\n", "null", "3", "\"http.proxy\"", "true", "[{\"http.proxy\": 1}]"] {
        assert_eq!(clear_json_proxy(text), Ok(text.to_string()), "{:?}", text);
        let mut t = FileTarget {
            path: Some("settings.json".to_string()),
            content: Some(text.to_string()),
            backups: Some(SnapshotPair { original: None, current: None }),
        };
        assert_eq!(disable_file_proxy("Cursor", &mut t), Ok("代理已关闭".to_string()));
        assert_eq!(t.content, Some(text.to_string()));
    }
}

#[test]
fn xml_enable_rejects_malformed_proxy_and_leaves_file() {
    let s = settings("not-a-url", "x");
    let mut t = target("proxy.settings.xml", Some("<old/>"));
    let r = enable_file_proxy("IDEA", &mut t, &s);
    assert_eq!(r, Err("无效的代理地址格式".to_string()));
    assert_eq!(t.content, Some("<old/>".to_string()));
    assert_eq!(set_idea_proxy(&s), Err("无效的代理地址格式".to_string()));
}

#[test]
fn xml_document_and_proxy_url() {
    assert_eq!(parse_proxy_url("http://127.0.0.1:7890"), Ok(("127.0.0.1".to_string(), 7890)));
    assert_eq!(parse_proxy_url("https://host:0"), Ok(("host".to_string(), 0)));
    assert_eq!(parse_proxy_url("host:65535"), Ok(("host".to_string(), 65535)));
    assert_eq!(parse_proxy_url("host:65536"), Err("无效的端口号".to_string()));
    assert_eq!(parse_proxy_url("host:+80"), Ok(("host".to_string(), 80)));
    assert_eq!(parse_proxy_url("host:"), Err("无效的端口号".to_string()));
    assert_eq!(parse_proxy_url("http://http://h:80"), Err("无效的代理地址格式".to_string()));
    assert_eq!(parse_proxy_url("https://https://h:80"), Err("无效的代理地址格式".to_string()));
    assert_eq!(parse_proxy_url("https://http://h:80"), Err("无效的代理地址格式".to_string()));
    assert_eq!(parse_proxy_url("http://h:80"), Ok(("h".to_string(), 80)));
    assert_eq!(parse_proxy_url("ftp://h:80"), Err("无效的代理地址格式".to_string()));
    assert_eq!(parse_proxy_url(":80"), Ok(("".to_string(), 80)));
    assert_eq!(parse_proxy_url("a:b:1"), Err("无效的代理地址格式".to_string()));
    assert_eq!(
        proxy_document("127.0.0.1", 7890),
        "<application>\n  <component name=\"HttpConfigurable\">\n    <option name=\"USE_HTTP_PROXY\" value=\"true\"/>\n    <option name=\"PROXY_HOST\" value=\"127.0.0.1\"/>\n    <option name=\"PROXY_PORT\" value=\"7890\"/>\n  </component>\n</application>"
    );
}

#[test]
fn deleting_a_profile_removes_the_mappings_that_use_it() {
    let mut config = UserConfig::default();
    config = update_software_mapping(config, "Git", "Clash").unwrap();
    config = update_software_mapping(config, "npm", "Clash").unwrap();
    config = update_software_mapping(config, "Cursor", "V2Ray").unwrap();
    assert_eq!(config.mappings.len(), 3);
    let config = delete_profile(config, "Clash").unwrap();
    assert_eq!(
        config.mappings,
        vec![SoftwareProxyMapping {
            software_name: "Cursor".to_string(),
            profile_name: "V2Ray".to_string()
        }]
    );
    assert_eq!(
        config.profiles,
        vec![
            ProxyProfile { name: "V2Ray".to_string(), host: "127.0.0.1".to_string(), port: 10808 },
            ProxyProfile { name: "Veee".to_string(), host: "127.0.0.1".to_string(), port: 15236 },
        ]
    );
}

#[test]
fn reset_without_backup_is_a_success_that_changes_nothing() {
    let mut t = target("/home/a/.gitconfig", Some("[user]\n"));
    let before = t.clone();
    assert_eq!(reset_file_to_original(&mut t), Ok("没有初始备份，无需重置".to_string()));
    assert_eq!(t, before);
}

#[test]
fn apply_then_strip_restores_what_the_editor_does_not_own() {
    let s = settings("http://127.0.0.1:7890", "http://127.0.0.1:7891");
    for content in ["", "[user]\n\tname = a", "[core]\n\teditor = vi\n\n[alias]\n\tco = checkout"] {
        let applied = set_git_proxy(content, &s);
        assert_eq!(remove_git_proxy_section(&applied), remove_git_proxy_section(content));
        assert_eq!(remove_git_proxy_section(&applied), content);
    }
    for content in ["", "registry=https://registry.npmjs.org/", "a=1\n\nb=2", "  a=1  \n b=2"] {
        let applied = set_npm_proxy(content, &s);
        assert_eq!(clear_npm_proxy(&applied), clear_npm_proxy(content));
    }
    for content in ["{}", "{\"editor.fontSize\": 14}", "{\"a\": {\"http.proxy\": 1}, \"b\": [\"x\"]}"] {
        let applied = set_json_proxy(&Some(content.to_string()), &s).unwrap();
        assert_eq!(clear_json_proxy(&applied), clear_json_proxy(content));
    }
}

#[test]
fn apply_twice_is_apply_once_on_texts() {
    let s = settings("http://127.0.0.1:7890", "http://127.0.0.1:7891 ");
    for content in ["", "\n\n", "  x = 1", "[http]\nproxy=1\n[a]\nb\n\n", "a\n\n\nb\n", "a\r\nb\r\n"] {
        let once = set_git_proxy(content, &s);
        assert_eq!(set_git_proxy(&once, &s), once, "{:?}", content);
        let once = set_npm_proxy(content, &s);
        assert_eq!(set_npm_proxy(&once, &s), once, "{:?}", content);
    }
}

#[test]
fn a_carriage_return_that_is_kept_is_lost_when_the_lines_are_read_again() {
    let s = settings("http://p:1", "http://p:2");
    let once = set_git_proxy("a\r\r\nb", &s);
    assert_eq!(once, "a\r\nb\n[http]\n\tproxy = http://p:1\n[https]\n\tproxy = http://p:2\n");
    let twice = set_git_proxy(&once, &s);
    assert_eq!(twice, "a\nb\n[http]\n\tproxy = http://p:1\n[https]\n\tproxy = http://p:2\n");
    let once = set_npm_proxy("a\r\r\nb", &s);
    assert_eq!(once, "a\r\nb\nproxy=http://p:1\nhttps-proxy=http://p:2");
    let twice = set_npm_proxy(&once, &s);
    assert_eq!(twice, "a\nb\nproxy=http://p:1\nhttps-proxy=http://p:2");
}

#[test]
fn an_address_that_opens_a_section_of_its_own_stays_behind() {
    let s = settings("x\n[user]\n\tname = b", "y");
    let once = set_git_proxy("", &s);
    let twice = set_git_proxy(&once, &s);
    assert_eq!(remove_git_proxy_section(&once), "\n[user]\n\tname = b");
    assert!(twice.len() > once.len());
}

#[test]
fn files_with_a_carriage_return_before_each_line_feed() {
    let s = settings("http://p:1", "http://p:2");
    let git = "[core]\r\n\tautocrlf = true\r\n[http]\r\n\tproxy = old\r\n[user]\r\n\tname = a\r\n";
    let once = set_git_proxy(git, &s);
    assert_eq!(
        once,
        "[core]\n\tautocrlf = true\n[user]\n\tname = a\n[http]\n\tproxy = http://p:1\n[https]\n\tproxy = http://p:2\n"
    );
    assert_eq!(set_git_proxy(&once, &s), once);
    assert_eq!(remove_git_proxy_section(&once), remove_git_proxy_section(git));
    let npm = "registry=https://registry.npmjs.org/\r\nproxy=http://old:1\r\nstrict-ssl=true\r\n";
    let once = set_npm_proxy(npm, &s);
    assert_eq!(
        once,
        "registry=https://registry.npmjs.org/\nstrict-ssl=true\nproxy=http://p:1\nhttps-proxy=http://p:2"
    );
    assert_eq!(set_npm_proxy(&once, &s), once);
    assert_eq!(clear_npm_proxy(&once), clear_npm_proxy(npm));
    let inside = "a \r b\r\n\r c";
    let once = set_git_proxy(inside, &s);
    assert_eq!(set_git_proxy(&once, &s), once);
    let once = set_npm_proxy(inside, &s);
    assert_eq!(set_npm_proxy(&once, &s), once);
}
