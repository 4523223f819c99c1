use proxy_manager::port_detector::{
    classify_ports, detect_port_by_custom_name, detect_port_by_process_names,
    detect_port_by_vpn_name, find_ports_by_process_name, find_preset, get_vpn_configs,
    pid_on_line, port_of_address, port_on_lsof_line, port_on_netstat_line, DetectedPort,
    ProcessSnapshot, VpnConfig,
};
use proxy_manager::settings::Platform;

fn v(s: &str) -> Vec<char> {
    s.chars().collect()
}

fn port(port: u16, kind: &str, name: &str, pid: u32) -> DetectedPort {
    DetectedPort { port, port_type: kind.to_string(), process_name: name.to_string(), pid }
}

const TASKLIST: &str = "\"System\",\"4\",\"Services\",\"0\",\"144 K\"\r\n\"Clash for Windows.exe\",\"4321\",\"Console\",\"1\",\"90,000 K\"\r\n\"clash-win64.exe\",\"5000\",\"Console\",\"1\",\"20,000 K\"\r\n\"v2rayN.exe\",\"abc\",\"Console\",\"1\",\"1 K\"\r\nclash\r\n";

const NETSTAT: &str = "\r\nActive Connections\r\n\r\n  Proto  Local Address          Foreign Address        State           PID\r\n  TCP    127.0.0.1:7890         0.0.0.0:0              LISTENING       4321\r\n  TCP    127.0.0.1:7891         0.0.0.0:0              LISTENING       4321\r\n  TCP    0.0.0.0:135            0.0.0.0:0              LISTENING       4321\r\n  TCP    0.0.0.0:9090           0.0.0.0:0              LISTENING       5000\r\n  TCP    0.0.0.0:7890           0.0.0.0:0              LISTENING       5000\r\n  TCP    [::]:65535             [::]:0                 LISTENING       5000\r\n  TCP    127.0.0.1:50000        127.0.0.1:7890         ESTABLISHED     4321\r\n  TCP    127.0.0.1:8080         0.0.0.0:0              LISTENING       77\r\n  UDP    0.0.0.0:5353           *:*                                    4321\r\n";

const LSOF: &str = "COMMAND     PID  USER   FD   TYPE DEVICE SIZE/OFF NODE NAME\nClashX     501  alice   10u  IPv4 0xabc      0t0  TCP 127.0.0.1:7890 (LISTEN)\nClashX     501  alice   11u  IPv4 0xabd      0t0  TCP *:7891 (LISTEN)\nClashX     n/a  alice   12u  IPv6 0xabe      0t0  TCP [::1]:9090 (LISTEN)\nClashX     501  alice   13u  IPv4 0xabf      0t0  TCP 127.0.0.1:50000->127.0.0.1:7890 (ESTABLISHED)\nSafari     600  alice   14u  IPv4 0xac0      0t0  TCP *:8080 (LISTEN)\nclashx     502  alice   15u  IPv4 0xac1      0t0  TCP *:80 (LISTEN)\nClashX 503 alice (LISTEN)\n";

fn windows() -> ProcessSnapshot {
    ProcessSnapshot {
        tasklist: Some(TASKLIST.to_string()),
        netstat: Some(NETSTAT.to_string()),
        lsof: None,
    }
}

fn macos() -> ProcessSnapshot {
    ProcessSnapshot { tasklist: None, netstat: None, lsof: Some(LSOF.to_string()) }
}

#[test]
fn known_programs() {
    let list = get_vpn_configs();
    let names: Vec<&str> = list.iter().map(|c| c.name.as_str()).collect();
    assert_eq!(names, vec!["Clash", "V2Ray", "Veee", "Shadowsocks", "Surge"]);
    assert_eq!(
        list[0],
        VpnConfig {
            name: "Clash".to_string(),
            process_names: vec![
                "clash".to_string(),
                "clash-windows".to_string(),
                "Clash for Windows".to_string(),
                "cfw".to_string(),
                "clash-verge".to_string(),
                "ClashX".to_string(),
            ],
            default_http_port: 7890,
            default_socks_port: 7891,
        }
    );
    assert_eq!(list[1].process_names, vec!["v2ray", "v2rayN", "v2ray-core"]);
    assert_eq!((list[1].default_http_port, list[1].default_socks_port), (10808, 10809));
    assert_eq!(list[2].process_names, vec!["veee", "Veee"]);
    assert_eq!((list[2].default_http_port, list[2].default_socks_port), (15236, 15235));
    assert_eq!(list[3].process_names, vec!["ss-local", "shadowsocks", "Shadowsocks", "sslocal"]);
    assert_eq!((list[3].default_http_port, list[3].default_socks_port), (1080, 1080));
    assert_eq!(list[4].process_names, vec!["Surge", "surge-cli"]);
    assert_eq!((list[4].default_http_port, list[4].default_socks_port), (6152, 6153));
}

#[test]
fn process_ids_in_the_process_list() {
    let line = "\"Clash for Windows.exe\",\"4321\",\"Console\",\"1\",\"90,000 K\"";
    assert_eq!(pid_on_line(&v(line), &v(&line.to_lowercase()), &v("clash")), Some(4321));
    assert_eq!(pid_on_line(&v(line), &v(&line.to_lowercase()), &v("v2ray")), None);
    assert_eq!(pid_on_line(&v(line), &v(line), &v("clash")), None);
    assert_eq!(pid_on_line(&v("clash"), &v("clash"), &v("clash")), None);
    assert_eq!(pid_on_line(&v("clash,\"x\""), &v("clash,\"x\""), &v("clash")), None);
    assert_eq!(pid_on_line(&v("clash,\"\"7\"\",z"), &v("clash"), &v("")), Some(7));
    assert_eq!(pid_on_line(&v("a,4294967296"), &v("a"), &v("a")), None);
    assert_eq!(pid_on_line(&v("a,4294967295"), &v("a"), &v("a")), Some(4294967295));
}

#[test]
fn ports_of_addresses() {
    assert_eq!(port_of_address(&v("127.0.0.1:7890")), Some(7890));
    assert_eq!(port_of_address(&v("[::]:1080")), Some(1080));
    assert_eq!(port_of_address(&v("*:1001")), Some(1001));
    assert_eq!(port_of_address(&v("*:1000")), None);
    assert_eq!(port_of_address(&v("*:65534")), Some(65534));
    assert_eq!(port_of_address(&v("*:65535")), None);
    assert_eq!(port_of_address(&v("*:65536")), None);
    assert_eq!(port_of_address(&v("7890")), Some(7890));
    assert_eq!(port_of_address(&v("7890:")), None);
    assert_eq!(port_of_address(&v("a:b")), None);
}

#[test]
fn lines_of_the_socket_lists() {
    let pids = vec![4321, 5000];
    let line = "  TCP    127.0.0.1:7890         0.0.0.0:0              LISTENING       4321";
    assert_eq!(port_on_netstat_line(&v(line), &pids), Some((7890, 4321)));
    assert_eq!(port_on_netstat_line(&v(line), &vec![1]), None);
    assert_eq!(port_on_netstat_line(&v(&line.replace("LISTENING", "listening")), &pids), None);
    assert_eq!(port_on_netstat_line(&v("TCP 1.1.1.1:7890 LISTENING 4321"), &pids), None);
    assert_eq!(port_on_netstat_line(&v("TCP 1.1.1.1:7890 x LISTENING 4321"), &pids), Some((7890, 4321)));
    assert_eq!(port_on_netstat_line(&v("TCP 1.1.1.1:7890 x LISTENING 4321x"), &pids), None);

    let line = "ClashX     501  alice   10u  IPv4 0xabc      0t0  TCP 127.0.0.1:7890 (LISTEN)";
    assert_eq!(port_on_lsof_line(&v(line), &v(&line.to_lowercase()), &v("clashx")), Some((7890, 501)));
    assert_eq!(port_on_lsof_line(&v(line), &v(&line.to_lowercase()), &v("ClashX")), None);
    assert_eq!(port_on_lsof_line(&v(line), &v(&line.to_lowercase()), &v("surge")), None);
    let line = "ClashX     n/a  alice   12u  IPv6 0xabe      0t0  TCP [::1]:9090 (LISTEN)";
    assert_eq!(port_on_lsof_line(&v(line), &v(&line.to_lowercase()), &v("clashx")), Some((9090, 0)));
    assert_eq!(port_on_lsof_line(&v("ClashX 503 alice (LISTEN)"), &v("clashx"), &v("clashx")), None);
}

#[test]
fn ports_of_a_process_on_windows() {
    let found = find_ports_by_process_name("Clash", Platform::Windows, &windows());
    assert_eq!(
        found,
        Some(vec![
            port(7890, "unknown", "Clash", 4321),
            port(7891, "unknown", "Clash", 4321),
            port(9090, "unknown", "Clash", 5000),
            port(7890, "unknown", "Clash", 5000),
        ])
    );
    assert_eq!(find_ports_by_process_name("surge", Platform::Windows, &windows()), None);
    assert_eq!(find_ports_by_process_name("v2rayn", Platform::Windows, &windows()), None);
    assert_eq!(find_ports_by_process_name("SYSTEM", Platform::Windows, &windows()), Some(vec![]));
    let mut no_netstat = windows();
    no_netstat.netstat = None;
    assert_eq!(find_ports_by_process_name("clash", Platform::Windows, &no_netstat), None);
    let mut no_tasklist = windows();
    no_tasklist.tasklist = None;
    assert_eq!(find_ports_by_process_name("clash", Platform::Windows, &no_tasklist), None);
}

#[test]
fn ports_of_a_process_on_macos_and_elsewhere() {
    assert_eq!(
        find_ports_by_process_name("ClashX", Platform::MacOs, &macos()),
        Some(vec![
            port(7890, "unknown", "ClashX", 501),
            port(7891, "unknown", "ClashX", 501),
            port(9090, "unknown", "ClashX", 0),
        ])
    );
    assert_eq!(find_ports_by_process_name("surge", Platform::MacOs, &macos()), Some(vec![]));
    assert_eq!(find_ports_by_process_name("ClashX", Platform::MacOs, &windows()), None);
    assert_eq!(find_ports_by_process_name("ClashX", Platform::Other, &macos()), None);
    assert_eq!(find_ports_by_process_name("Clash", Platform::Other, &windows()), None);
}

#[test]
fn classification_sorts_drops_doubles_and_names_kinds() {
    let configs = get_vpn_configs();
    let clash = &configs[0];
    let ports = vec![
        port(9090, "unknown", "b", 2),
        port(7891, "unknown", "a", 1),
        port(7890, "unknown", "first", 1),
        port(1080, "unknown", "a", 1),
        port(7890, "unknown", "second", 2),
        port(8118, "kept", "a", 1),
        port(9090, "other", "c", 3),
    ];
    assert_eq!(
        classify_ports(ports, clash),
        vec![
            port(1080, "socks", "a", 1),
            port(7890, "http", "first", 1),
            port(7891, "socks", "a", 1),
            port(8118, "http", "a", 1),
            port(9090, "unknown", "b", 2),
        ]
    );
    assert_eq!(classify_ports(vec![], clash), vec![]);
    let shadowsocks = &configs[3];
    assert_eq!(
        classify_ports(vec![port(1080, "unknown", "s", 1), port(6153, "unknown", "s", 1)], shadowsocks),
        vec![port(1080, "http", "s", 1), port(6153, "socks", "s", 1)]
    );
    let odd = VpnConfig {
        name: "Odd".to_string(),
        process_names: vec![],
        default_http_port: 7891,
        default_socks_port: 7890,
    };
    assert_eq!(
        classify_ports(
            vec![
                port(7891, "unknown", "o", 1),
                port(7890, "unknown", "o", 1),
                port(3128, "unknown", "o", 1),
                port(10808, "unknown", "o", 1),
                port(15236, "unknown", "o", 1),
                port(6152, "unknown", "o", 1),
                port(8080, "unknown", "o", 1),
                port(10809, "unknown", "o", 1),
                port(15235, "unknown", "o", 1),
                port(2000, "mine", "o", 1),
            ],
            &odd
        ),
        vec![
            port(2000, "mine", "o", 1),
            port(3128, "http", "o", 1),
            port(6152, "http", "o", 1),
            port(7890, "socks", "o", 1),
            port(7891, "http", "o", 1),
            port(8080, "http", "o", 1),
            port(10808, "http", "o", 1),
            port(10809, "socks", "o", 1),
            port(15235, "socks", "o", 1),
            port(15236, "http", "o", 1),
        ]
    );
}

#[test]
fn a_known_program_that_runs() {
    let result = detect_port_by_vpn_name("CLASH", Platform::Windows, &windows());
    assert!(result.success);
    assert_eq!(result.message, "检测到 Clash 正在运行");
    assert_eq!(
        result.ports,
        vec![
            port(7890, "http", "clash", 4321),
            port(7891, "socks", "clash", 4321),
            port(9090, "unknown", "clash", 5000),
        ]
    );
    let result = detect_port_by_vpn_name("clash", Platform::MacOs, &macos());
    assert_eq!(result.message, "检测到 Clash 正在运行");
    assert_eq!(
        result.ports,
        vec![
            port(7890, "http", "clash", 501),
            port(7891, "socks", "clash", 501),
            port(9090, "unknown", "clash", 0),
        ]
    );
}

#[test]
fn a_known_program_that_does_not_run_has_its_default_ports() {
    for name in ["Surge", "surge", "SURGE"] {
        for (platform, snapshot) in [
            (Platform::Windows, windows()),
            (Platform::MacOs, macos()),
            (Platform::Other, windows()),
        ] {
            let result = detect_port_by_vpn_name(name, platform, &snapshot);
            assert!(result.success);
            assert_eq!(result.message, "未检测到 Surge 运行，使用默认端口");
            assert_eq!(
                result.ports,
                vec![port(6152, "http", "Surge", 0), port(6153, "socks", "Surge", 0)]
            );
        }
    }
    let configs = get_vpn_configs();
    let result = detect_port_by_process_names(&vec![], &configs[1], Platform::Windows, &windows());
    assert_eq!(result.message, "未检测到 V2Ray 运行，使用默认端口");
    assert_eq!(
        result.ports,
        vec![port(10808, "http", "V2Ray", 0), port(10809, "socks", "V2Ray", 0)]
    );
}

#[test]
fn a_program_this_crate_does_not_know() {
    let result = detect_port_by_vpn_name("Safari", Platform::MacOs, &macos());
    assert!(result.success);
    assert_eq!(result.message, "检测到 Safari 正在运行");
    assert_eq!(result.ports, vec![port(8080, "unknown", "Safari", 600)]);
    let result = detect_port_by_vpn_name("nothing", Platform::MacOs, &macos());
    assert!(!result.success);
    assert_eq!(result.message, "未找到名为 nothing 的进程");
    assert_eq!(result.ports, vec![]);
    let result = detect_port_by_custom_name("System", Platform::Windows, &windows());
    assert!(!result.success);
    assert_eq!(result.message, "未找到名为 System 的进程");
    let result = detect_port_by_custom_name("Safari", Platform::Other, &macos());
    assert!(!result.success);
}

#[test]
fn names_are_compared_in_lower_case_as_unicode_has_it() {
    // The Kelvin sign has the lower-case form k.
    let result = detect_port_by_vpn_name("Shadowsoc\u{212a}s", Platform::Other, &windows());
    assert!(result.success);
    assert_eq!(result.message, "未检测到 Shadowsocks 运行，使用默认端口");
    let lowered = vec!["clash".to_string(), "v2ray".to_string(), "clash".to_string()];
    assert_eq!(find_preset(&lowered, "clash"), Some(0));
    assert_eq!(find_preset(&lowered, "v2ray"), Some(1));
    assert_eq!(find_preset(&lowered, "Clash"), None);
    assert_eq!(find_preset(&vec![], ""), None);
}
