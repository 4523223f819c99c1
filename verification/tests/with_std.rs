//! The editors and parsers against the same rules written with the string
//! methods of the standard library, on every text that a few tokens make.

use proxy_manager::editors::git::{remove_git_proxy_section, set_git_proxy};
use proxy_manager::editors::npm::{clear_npm_proxy, remove_npm_proxy_lines, set_npm_proxy};
use proxy_manager::editors::xml::parse_proxy_url;
use proxy_manager::port_detector::{
    pid_on_line, port_of_address, port_on_lsof_line, port_on_netstat_line,
};
use proxy_manager::settings::ProxySettings;

const TOKENS: [&str; 18] = [
    "[http]",
    "[HTTPS]",
    "[https",
    "[user]",
    "[ http ]",
    "\tproxy = x",
    "Proxy=x",
    "https-PROXY=y",
    "noproxy=1",
    "name = a",
    " ",
    "\t",
    "\n",
    "\r",
    "\u{2028}",
    "[\u{212a}ttp]",
    "]",
    "[",
];

fn texts(max: usize) -> Vec<String> {
    let mut all = vec![String::new()];
    let mut last = vec![String::new()];
    for _ in 0..max {
        let mut next = Vec::new();
        for text in &last {
            for token in TOKENS {
                next.push(format!("{}{}", text, token));
            }
        }
        all.extend(next.iter().cloned());
        last = next;
    }
    all
}

fn git_strip_with_std(content: &str) -> String {
    let mut result = String::new();
    let mut skip_section = false;
    for line in content.lines() {
        let trimmed = line.trim();
        if trimmed.starts_with('[') && trimmed.ends_with(']') {
            let section_name = trimmed[1..trimmed.len() - 1].to_lowercase();
            skip_section = section_name == "http" || section_name == "https";
            if !skip_section {
                result.push_str(line);
                result.push('\n');
            }
        } else if !skip_section {
            result.push_str(line);
            result.push('\n');
        }
    }
    result.trim_end().to_string()
}

fn npm_strip_with_std(content: &str) -> String {
    content
        .lines()
        .filter(|line| {
            let trimmed = line.trim().to_lowercase();
            !trimmed.starts_with("proxy=") && !trimmed.starts_with("https-proxy=")
        })
        .collect::<Vec<_>>()
        .join("\n")
}

fn settings(http: &str, https: &str) -> ProxySettings {
    ProxySettings {
        http_proxy: http.to_string(),
        https_proxy: https.to_string(),
        no_proxy: String::new(),
    }
}

#[test]
fn git_strip_agrees_with_the_standard_library() {
    for text in texts(4) {
        assert_eq!(remove_git_proxy_section(&text), git_strip_with_std(&text), "{:?}", text);
    }
}

#[test]
fn npm_strip_agrees_with_the_standard_library() {
    for text in texts(4) {
        let expected = npm_strip_with_std(&text);
        assert_eq!(remove_npm_proxy_lines(&text), expected, "{:?}", text);
        assert_eq!(clear_npm_proxy(&text), expected.trim(), "{:?}", text);
    }
}

#[test]
fn apply_agrees_with_the_standard_library() {
    let s = settings("http://h:1 ", "\thttps://s:2\n");
    for text in texts(3) {
        let git = format!(
            "{}\n[http]\n\tproxy = {}\n[https]\n\tproxy = {}\n",
            git_strip_with_std(&text),
            s.http_proxy,
            s.https_proxy
        );
        assert_eq!(set_git_proxy(&text, &s), git, "{:?}", text);
        let npm = format!(
            "{}\nproxy={}\nhttps-proxy={}\n",
            npm_strip_with_std(&text),
            s.http_proxy,
            s.https_proxy
        );
        assert_eq!(set_npm_proxy(&text, &s), npm.trim(), "{:?}", text);
    }
}

fn proxy_url_with_std(url: &str) -> Result<(String, u16), String> {
    let url = match url.strip_prefix("http://") {
        Some(rest) => rest,
        None => url.strip_prefix("https://").unwrap_or(url),
    };
    let parts: Vec<&str> = url.split(':').collect();
    if parts.len() != 2 {
        return Err("无效的代理地址格式".to_string());
    }
    let host = parts[0].to_string();
    let port = parts[1].parse::<u16>().map_err(|_| "无效的端口号".to_string())?;
    Ok((host, port))
}

#[test]
fn proxy_addresses_agree_with_the_standard_library() {
    let tokens =
        ["http://", "https://", "http:/", "host", ":", "80", "65535", "65536", "+", "-", " ", "0", "/"];
    let mut all = vec![String::new()];
    let mut last = vec![String::new()];
    for _ in 0..4 {
        let mut next = Vec::new();
        for text in &last {
            for token in tokens {
                next.push(format!("{}{}", text, token));
            }
        }
        all.extend(next.iter().cloned());
        last = next;
    }
    for url in all {
        assert_eq!(parse_proxy_url(&url), proxy_url_with_std(&url), "{:?}", url);
    }
}

fn v(s: &str) -> Vec<char> {
    s.chars().collect()
}

fn tasklist_pid_with_std(line: &str, process_name: &str) -> Option<u32> {
    let lower_line = line.to_lowercase();
    if lower_line.contains(&process_name.to_lowercase()) {
        let parts: Vec<&str> = line.split(',').collect();
        if parts.len() >= 2 {
            if let Ok(pid) = parts[1].trim_matches('"').parse::<u32>() {
                return Some(pid);
            }
        }
    }
    None
}

fn port_with_std(address: &str) -> Option<u16> {
    let port_str = address.rsplit(':').next()?;
    let port = port_str.parse::<u16>().ok()?;
    if port > 1000 && port < 65535 {
        Some(port)
    } else {
        None
    }
}

fn netstat_with_std(line: &str, pids: &[u32]) -> Option<(u16, u32)> {
    if !line.contains("LISTENING") {
        return None;
    }
    let parts: Vec<&str> = line.split_whitespace().collect();
    if parts.len() < 5 {
        return None;
    }
    let pid = parts[parts.len() - 1].parse::<u32>().ok()?;
    if !pids.contains(&pid) {
        return None;
    }
    Some((port_with_std(parts[1])?, pid))
}

fn lsof_with_std(line: &str, process_name: &str) -> Option<(u16, u32)> {
    let lower_line = line.to_lowercase();
    if !lower_line.contains(&process_name.to_lowercase()) {
        return None;
    }
    if !line.contains("LISTEN") {
        return None;
    }
    let parts: Vec<&str> = line.split_whitespace().collect();
    if parts.len() < 9 {
        return None;
    }
    let pid = parts[1].parse::<u32>().unwrap_or(0);
    Some((port_with_std(parts[8])?, pid))
}

#[test]
fn lines_of_the_utilities_agree_with_the_standard_library() {
    let tokens = [
        "Clash", "clash", "\"", ",", "4321", "77", " ", "\t", "LISTENING", "LISTEN", "TCP",
        "127.0.0.1:7890", "[::]:1080", ":", "x", "\u{212a}",
    ];
    let mut all = vec![String::new()];
    let mut last = vec![String::new()];
    for _ in 0..4 {
        let mut next = Vec::new();
        for text in &last {
            for token in tokens {
                next.push(format!("{}{}", text, token));
            }
        }
        all.extend(next.iter().cloned());
        last = next;
    }
    let pids = vec![4321];
    let long = "Clash 4321 u fd type dev size node 127.0.0.1:7890 LISTEN";
    all.push(long.to_string());
    all.push(long.replace("4321", "n/a"));
    all.push(long.replace("7890", "999"));
    all.push("TCP 0.0.0.0:7890 0.0.0.0:0 LISTENING 4321".to_string());
    for line in all {
        for name in ["clash", "CLASH", "k", ""] {
            let lowered = v(&line.to_lowercase());
            let lowered_name = v(&name.to_lowercase());
            assert_eq!(
                pid_on_line(&v(&line), &lowered, &lowered_name),
                tasklist_pid_with_std(&line, name),
                "{:?}",
                line
            );
            assert_eq!(
                port_on_lsof_line(&v(&line), &lowered, &lowered_name),
                lsof_with_std(&line, name),
                "{:?}",
                line
            );
        }
        assert_eq!(port_on_netstat_line(&v(&line), &pids), netstat_with_std(&line, &pids));
        assert_eq!(port_of_address(&v(&line)), port_with_std(&line), "{:?}", line);
    }
}
