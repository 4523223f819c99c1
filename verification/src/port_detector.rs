//! Finding the ports on which a proxy program listens, from what the
//! operating system's utilities print. The findings are a best effort.

use vstd::prelude::*;
use crate::outside::{lowercase, lowercased};
use crate::seqs::{lemma_views_push, views};
use crate::settings::{opt_text, Platform};
use crate::text::chars::{chars_of, owned, push_str, same_text, string_of};
use crate::text::lines::{lines, split, split_chars, split_lines, split_words, words};
use crate::text::numbers::{parse_u16, parse_u32, parse_unsigned};
use crate::text::search::{contains, has_substring, trim_char, trim_char_chars};

verus! {

/// A proxy program that this crate knows: the names its processes go by and
/// the ports it listens on unless told otherwise.
#[derive(Debug, Clone, PartialEq, Eq)]
pub struct VpnConfig {
    pub name: String,
    pub process_names: Vec<String>,
    pub default_http_port: u16,
    pub default_socks_port: u16,
}

/// What a `VpnConfig` holds, as texts.
pub struct VpnConfigView {
    pub name: Seq<char>,
    pub process_names: Seq<Seq<char>>,
    pub default_http_port: u16,
    pub default_socks_port: u16,
}

impl View for VpnConfig {
    type V = VpnConfigView;

    open spec fn view(&self) -> VpnConfigView {
        VpnConfigView {
            name: self.name@,
            process_names: views(self.process_names@),
            default_http_port: self.default_http_port,
            default_socks_port: self.default_socks_port,
        }
    }
}

/// A port on which a process listens.
#[derive(Debug, Clone, PartialEq, Eq)]
pub struct DetectedPort {
    pub port: u16,
    /// `"http"`, `"socks"` or `"unknown"`.
    pub port_type: String,
    pub process_name: String,
    pub pid: u32,
}

/// What a `DetectedPort` holds, as texts.
pub struct DetectedPortView {
    pub port: u16,
    pub port_type: Seq<char>,
    pub process_name: Seq<char>,
    pub pid: u32,
}

impl View for DetectedPort {
    type V = DetectedPortView;

    open spec fn view(&self) -> DetectedPortView {
        DetectedPortView {
            port: self.port,
            port_type: self.port_type@,
            process_name: self.process_name@,
            pid: self.pid,
        }
    }
}

/// What a detection found.
#[derive(Debug, Clone, PartialEq, Eq)]
pub struct DetectionResult {
    pub success: bool,
    pub message: String,
    pub ports: Vec<DetectedPort>,
}

/// What a `DetectionResult` holds, as texts.
pub struct DetectionResultView {
    pub success: bool,
    pub message: Seq<char>,
    pub ports: Seq<DetectedPortView>,
}

impl View for DetectionResult {
    type V = DetectionResultView;

    open spec fn view(&self) -> DetectionResultView {
        DetectionResultView {
            success: self.success,
            message: self.message@,
            ports: views(self.ports@),
        }
    }
}

/// What the operating system's utilities printed; `None` for a utility that
/// was not run or could not be run.
#[derive(Debug, Clone, PartialEq, Eq)]
pub struct ProcessSnapshot {
    /// `tasklist /FO CSV /NH`: the processes, on Windows.
    pub tasklist: Option<String>,
    /// `netstat -ano`: the sockets with their owners, on Windows.
    pub netstat: Option<String>,
    /// `lsof -i -P -n`: the sockets with their owners, on macOS.
    pub lsof: Option<String>,
}

/// What a `ProcessSnapshot` holds, as texts.
pub struct ProcessSnapshotView {
    pub tasklist: Option<Seq<char>>,
    pub netstat: Option<Seq<char>>,
    pub lsof: Option<Seq<char>>,
}

impl View for ProcessSnapshot {
    type V = ProcessSnapshotView;

    open spec fn view(&self) -> ProcessSnapshotView {
        ProcessSnapshotView {
            tasklist: opt_text(self.tasklist),
            netstat: opt_text(self.netstat),
            lsof: opt_text(self.lsof),
        }
    }
}

/// The proxy programs that this crate knows.
pub open spec fn presets() -> Seq<VpnConfigView> {
    seq![
        VpnConfigView {
            name: "Clash"@,
            process_names: seq![
                "clash"@,
                "clash-windows"@,
                "Clash for Windows"@,
                "cfw"@,
                "clash-verge"@,
                "ClashX"@,
            ],
            default_http_port: 7890,
            default_socks_port: 7891,
        },
        VpnConfigView {
            name: "V2Ray"@,
            process_names: seq!["v2ray"@, "v2rayN"@, "v2ray-core"@],
            default_http_port: 10808,
            default_socks_port: 10809,
        },
        VpnConfigView {
            name: "Veee"@,
            process_names: seq!["veee"@, "Veee"@],
            default_http_port: 15236,
            default_socks_port: 15235,
        },
        VpnConfigView {
            name: "Shadowsocks"@,
            process_names: seq!["ss-local"@, "shadowsocks"@, "Shadowsocks"@, "sslocal"@],
            default_http_port: 1080,
            default_socks_port: 1080,
        },
        VpnConfigView {
            name: "Surge"@,
            process_names: seq!["Surge"@, "surge-cli"@],
            default_http_port: 6152,
            default_socks_port: 6153,
        },
    ]
}

/// The proxy programs that this crate knows.
pub fn get_vpn_configs() -> (list: Vec<VpnConfig>)
    ensures
        views(list@) == presets(),
{
    let mut clash: Vec<String> = Vec::new();
    clash.push(owned("clash"));
    clash.push(owned("clash-windows"));
    clash.push(owned("Clash for Windows"));
    clash.push(owned("cfw"));
    clash.push(owned("clash-verge"));
    clash.push(owned("ClashX"));
    let mut v2ray: Vec<String> = Vec::new();
    v2ray.push(owned("v2ray"));
    v2ray.push(owned("v2rayN"));
    v2ray.push(owned("v2ray-core"));
    let mut veee: Vec<String> = Vec::new();
    veee.push(owned("veee"));
    veee.push(owned("Veee"));
    let mut shadowsocks: Vec<String> = Vec::new();
    shadowsocks.push(owned("ss-local"));
    shadowsocks.push(owned("shadowsocks"));
    shadowsocks.push(owned("Shadowsocks"));
    shadowsocks.push(owned("sslocal"));
    let mut surge: Vec<String> = Vec::new();
    surge.push(owned("Surge"));
    surge.push(owned("surge-cli"));
    let mut list: Vec<VpnConfig> = Vec::new();
    list.push(
        VpnConfig {
            name: owned("Clash"),
            process_names: clash,
            default_http_port: 7890,
            default_socks_port: 7891,
        },
    );
    list.push(
        VpnConfig {
            name: owned("V2Ray"),
            process_names: v2ray,
            default_http_port: 10808,
            default_socks_port: 10809,
        },
    );
    list.push(
        VpnConfig {
            name: owned("Veee"),
            process_names: veee,
            default_http_port: 15236,
            default_socks_port: 15235,
        },
    );
    list.push(
        VpnConfig {
            name: owned("Shadowsocks"),
            process_names: shadowsocks,
            default_http_port: 1080,
            default_socks_port: 1080,
        },
    );
    list.push(
        VpnConfig {
            name: owned("Surge"),
            process_names: surge,
            default_http_port: 6152,
            default_socks_port: 6153,
        },
    );
    proof {
        assert(views(list@).len() == 5);
        assert(views(list@)[0].process_names =~= presets()[0].process_names);
        assert(views(list@)[1].process_names =~= presets()[1].process_names);
        assert(views(list@)[2].process_names =~= presets()[2].process_names);
        assert(views(list@)[3].process_names =~= presets()[3].process_names);
        assert(views(list@)[4].process_names =~= presets()[4].process_names);
        assert(views(list@) =~= presets());
    }
    list
}

/// The process id on a line of the process list: the second of the fields
/// that commas separate, without the quotes round it.
pub open spec fn tasklist_pid(line: Seq<char>) -> Option<u32> {
    let fields = split(line, ',');
    if fields.len() >= 2 {
        match parse_unsigned(trim_char(fields[1], '"'), 0xffff_ffff) {
            Some(pid) => Some(pid as u32),
            None => None,
        }
    } else {
        None
    }
}

/// The process id on a line of the process list, if the line names the
/// process: `lowered_line` is the line in lower case and `lowered_name` the
/// name of the process in lower case.
pub open spec fn named_pid(line: Seq<char>, lowered_line: Seq<char>, lowered_name: Seq<char>)
    -> Option<u32> {
    if contains(lowered_line, lowered_name) {
        tasklist_pid(line)
    } else {
        None
    }
}

/// The process id on a line of the process list, if the line names the
/// process.
pub fn pid_on_line(line: &Vec<char>, lowered_line: &Vec<char>, lowered_name: &Vec<char>) -> (r:
    Option<u32>)
    ensures
        r == named_pid(line@, lowered_line@, lowered_name@),
{
    if !has_substring(lowered_line, lowered_name) {
        return None;
    }
    let fields = split_chars(line, ',');
    assert(views(fields@).len() == fields.len());
    if fields.len() >= 2 {
        assert(views(fields@)[1] == fields@[1]@);
        parse_u32(&trim_char_chars(&fields[1], '"'))
    } else {
        None
    }
}

/// The process ids on the lines of the process list that name the process.
pub open spec fn tasklist_pids(all: Seq<Seq<char>>, lowered_name: Seq<char>) -> Seq<u32>
    decreases all.len(),
{
    if all.len() == 0 {
        Seq::empty()
    } else {
        let rest = tasklist_pids(all.drop_last(), lowered_name);
        match named_pid(all.last(), lowercased(all.last()), lowered_name) {
            Some(pid) => rest.push(pid),
            None => rest,
        }
    }
}

fn pids_in(output: &str, lowered_name: &Vec<char>) -> (pids: Vec<u32>)
    ensures
        pids@ == tasklist_pids(lines(output@), lowered_name@),
{
    let all = split_lines(&chars_of(output));
    let ghost model = lines(output@);
    let mut pids: Vec<u32> = Vec::new();
    let mut i: usize = 0;
    assert(model.take(0) =~= Seq::<Seq<char>>::empty());
    while i < all.len()
        invariant
            i <= all.len(),
            views(all@) == model,
            pids@ == tasklist_pids(model.take(i as int), lowered_name@),
        decreases all.len() - i,
    {
        proof {
            assert(model.take(i + 1).drop_last() =~= model.take(i as int));
            assert(model.take(i + 1).last() == all@[i as int]@);
        }
        let line = string_of(&all[i]);
        let lowered = chars_of(lowercase(line.as_str()).as_str());
        match pid_on_line(&all[i], &lowered, lowered_name) {
            Some(pid) => {
                pids.push(pid);
            },
            None => {},
        }
        i += 1;
    }
    assert(model.take(all.len() as int) =~= model);
    pids
}

/// The port at the end of a socket address, if it is one a proxy would
/// use: above 1000 and below 65535.
pub open spec fn proxy_port(address: Seq<char>) -> Option<u16> {
    match parse_unsigned(split(address, ':').last(), 0xffff) {
        Some(port) => if 1000 < port < 65535 {
            Some(port as u16)
        } else {
            None
        },
        None => None,
    }
}

/// The port at the end of a socket address, if it is one a proxy would use.
pub fn port_of_address(address: &Vec<char>) -> (r: Option<u16>)
    ensures
        r == proxy_port(address@),
{
    let fields = split_chars(address, ':');
    assert(views(fields@).len() == fields.len());
    assert(views(fields@).last() == fields@[fields.len() - 1]@);
    match parse_u16(&fields[fields.len() - 1]) {
        Some(port) => if port > 1000 && port < 65535 {
            Some(port)
        } else {
            None
        },
        None => None,
    }
}

/// The port and the process id on a line of the socket list of Windows: the
/// line says `LISTENING`, has five words or more, its last word is one of
/// `pids`, and its second word is an address that ends in a proxy's port.
pub open spec fn netstat_port(line: Seq<char>, pids: Seq<u32>) -> Option<(u16, u32)> {
    let fields = words(line);
    if contains(line, "LISTENING"@) && fields.len() >= 5 {
        match parse_unsigned(fields.last(), 0xffff_ffff) {
            Some(pid) => if pids.contains(pid as u32) {
                match proxy_port(fields[1]) {
                    Some(port) => Some((port, pid as u32)),
                    None => None,
                }
            } else {
                None
            },
            None => None,
        }
    } else {
        None
    }
}

fn holds(pids: &Vec<u32>, pid: u32) -> (r: bool)
    ensures
        r == pids@.contains(pid),
{
    let mut i: usize = 0;
    while i < pids.len()
        invariant
            i <= pids.len(),
            forall|k: int| 0 <= k < i ==> pids@[k] != pid,
        decreases pids.len() - i,
    {
        if pids[i] == pid {
            return true;
        }
        i += 1;
    }
    false
}

/// The port and the process id on a line of the socket list of Windows.
pub fn port_on_netstat_line(line: &Vec<char>, pids: &Vec<u32>) -> (r: Option<(u16, u32)>)
    ensures
        r == netstat_port(line@, pids@),
{
    if !has_substring(line, &chars_of("LISTENING")) {
        return None;
    }
    let fields = split_words(line);
    assert(views(fields@).len() == fields.len());
    if fields.len() < 5 {
        return None;
    }
    assert(views(fields@).last() == fields@[fields.len() - 1]@);
    assert(views(fields@)[1] == fields@[1]@);
    match parse_u32(&fields[fields.len() - 1]) {
        Some(pid) => if holds(pids, pid) {
            match port_of_address(&fields[1]) {
                Some(port) => Some((port, pid)),
                None => None,
            }
        } else {
            None
        },
        None => None,
    }
}

/// A port as it is found: of unknown kind.
pub open spec fn found(port: u16, pid: u32, process_name: Seq<char>) -> DetectedPortView {
    DetectedPortView { port, port_type: "unknown"@, process_name, pid }
}

/// The ports on the lines of the socket list of Windows that the processes
/// `pids` listen on, in the order of the lines.
pub open spec fn netstat_ports(all: Seq<Seq<char>>, pids: Seq<u32>, process_name: Seq<char>)
    -> Seq<DetectedPortView>
    decreases all.len(),
{
    if all.len() == 0 {
        Seq::empty()
    } else {
        let rest = netstat_ports(all.drop_last(), pids, process_name);
        match netstat_port(all.last(), pids) {
            Some((port, pid)) => rest.push(found(port, pid, process_name)),
            None => rest,
        }
    }
}

fn new_port(port: u16, pid: u32, process_name: &str) -> (r: DetectedPort)
    ensures
        r@ == found(port, pid, process_name@),
{
    DetectedPort { port, port_type: owned("unknown"), process_name: owned(process_name), pid }
}

fn ports_in_netstat(output: &str, pids: &Vec<u32>, process_name: &str) -> (ports: Vec<
    DetectedPort,
>)
    ensures
        views(ports@) == netstat_ports(lines(output@), pids@, process_name@),
{
    let all = split_lines(&chars_of(output));
    let ghost model = lines(output@);
    let mut ports: Vec<DetectedPort> = Vec::new();
    let mut i: usize = 0;
    assert(model.take(0) =~= Seq::<Seq<char>>::empty());
    assert(views(ports@) =~= Seq::<DetectedPortView>::empty());
    while i < all.len()
        invariant
            i <= all.len(),
            views(all@) == model,
            views(ports@) == netstat_ports(model.take(i as int), pids@, process_name@),
        decreases all.len() - i,
    {
        proof {
            assert(model.take(i + 1).drop_last() =~= model.take(i as int));
            assert(model.take(i + 1).last() == all@[i as int]@);
        }
        match port_on_netstat_line(&all[i], pids) {
            Some((port, pid)) => {
                let ghost before = ports@;
                let item = new_port(port, pid, process_name);
                ports.push(item);
                proof {
                    lemma_views_push(before, item);
                }
            },
            None => {},
        }
        i += 1;
    }
    assert(model.take(all.len() as int) =~= model);
    ports
}

/// The port and the process id on a line of the socket list of macOS: the
/// line names the process, says `LISTEN` and has nine words or more; its
/// second word is the process id, 0 where it is no number, and its ninth an
/// address that ends in a proxy's port.
pub open spec fn lsof_port(line: Seq<char>, lowered_line: Seq<char>, lowered_name: Seq<char>)
    -> Option<(u16, u32)> {
    let fields = words(line);
    if contains(lowered_line, lowered_name) && contains(line, "LISTEN"@) && fields.len() >= 9 {
        let pid = match parse_unsigned(fields[1], 0xffff_ffff) {
            Some(pid) => pid as u32,
            None => 0u32,
        };
        match proxy_port(fields[8]) {
            Some(port) => Some((port, pid)),
            None => None,
        }
    } else {
        None
    }
}

/// The port and the process id on a line of the socket list of macOS.
pub fn port_on_lsof_line(line: &Vec<char>, lowered_line: &Vec<char>, lowered_name: &Vec<char>)
    -> (r: Option<(u16, u32)>)
    ensures
        r == lsof_port(line@, lowered_line@, lowered_name@),
{
    if !has_substring(lowered_line, lowered_name) {
        return None;
    }
    if !has_substring(line, &chars_of("LISTEN")) {
        return None;
    }
    let fields = split_words(line);
    assert(views(fields@).len() == fields.len());
    if fields.len() < 9 {
        return None;
    }
    assert(views(fields@)[1] == fields@[1]@);
    assert(views(fields@)[8] == fields@[8]@);
    let pid = match parse_u32(&fields[1]) {
        Some(pid) => pid,
        None => 0,
    };
    match port_of_address(&fields[8]) {
        Some(port) => Some((port, pid)),
        None => None,
    }
}

/// The ports on the lines of the socket list of macOS that the process
/// listens on, in the order of the lines.
pub open spec fn lsof_ports(all: Seq<Seq<char>>, lowered_name: Seq<char>, process_name: Seq<char>)
    -> Seq<DetectedPortView>
    decreases all.len(),
{
    if all.len() == 0 {
        Seq::empty()
    } else {
        let rest = lsof_ports(all.drop_last(), lowered_name, process_name);
        match lsof_port(all.last(), lowercased(all.last()), lowered_name) {
            Some((port, pid)) => rest.push(found(port, pid, process_name)),
            None => rest,
        }
    }
}

fn ports_in_lsof(output: &str, lowered_name: &Vec<char>, process_name: &str) -> (ports: Vec<
    DetectedPort,
>)
    ensures
        views(ports@) == lsof_ports(lines(output@), lowered_name@, process_name@),
{
    let all = split_lines(&chars_of(output));
    let ghost model = lines(output@);
    let mut ports: Vec<DetectedPort> = Vec::new();
    let mut i: usize = 0;
    assert(model.take(0) =~= Seq::<Seq<char>>::empty());
    assert(views(ports@) =~= Seq::<DetectedPortView>::empty());
    while i < all.len()
        invariant
            i <= all.len(),
            views(all@) == model,
            views(ports@) == lsof_ports(model.take(i as int), lowered_name@, process_name@),
        decreases all.len() - i,
    {
        proof {
            assert(model.take(i + 1).drop_last() =~= model.take(i as int));
            assert(model.take(i + 1).last() == all@[i as int]@);
        }
        let line = string_of(&all[i]);
        let lowered = chars_of(lowercase(line.as_str()).as_str());
        match port_on_lsof_line(&all[i], &lowered, lowered_name) {
            Some((port, pid)) => {
                let ghost before = ports@;
                let item = new_port(port, pid, process_name);
                ports.push(item);
                proof {
                    lemma_views_push(before, item);
                }
            },
            None => {},
        }
        i += 1;
    }
    assert(model.take(all.len() as int) =~= model);
    ports
}

/// The ports that the process `process_name` listens on, as far as the
/// snapshot shows: on Windows the process list gives its process ids and
/// the socket list their ports; on macOS the socket list gives both.
/// `None` where the platform has no such utilities, a utility's output is
/// missing, or the process list of Windows does not name the process.
pub open spec fn ports_found(
    process_name: Seq<char>,
    platform: Platform,
    snapshot: ProcessSnapshotView,
) -> Option<Seq<DetectedPortView>> {
    match platform {
        Platform::Windows => match snapshot.tasklist {
            None => None,
            Some(processes) => {
                let pids = tasklist_pids(lines(processes), lowercased(process_name));
                if pids.len() == 0 {
                    None
                } else {
                    match snapshot.netstat {
                        None => None,
                        Some(sockets) => Some(netstat_ports(lines(sockets), pids, process_name)),
                    }
                }
            },
        },
        Platform::MacOs => match snapshot.lsof {
            None => None,
            Some(sockets) => Some(
                lsof_ports(lines(sockets), lowercased(process_name), process_name),
            ),
        },
        Platform::Other => None,
    }
}

/// The views of optional ports.
pub open spec fn opt_ports(o: Option<Vec<DetectedPort>>) -> Option<Seq<DetectedPortView>> {
    match o {
        Some(ports) => Some(views(ports@)),
        None => None,
    }
}

/// The ports that the process `process_name` listens on, as far as the
/// snapshot shows.
pub fn find_ports_by_process_name(
    process_name: &str,
    platform: Platform,
    snapshot: &ProcessSnapshot,
) -> (r: Option<Vec<DetectedPort>>)
    ensures
        opt_ports(r) == ports_found(process_name@, platform, snapshot@),
{
    match platform {
        Platform::Windows => {
            let processes = match &snapshot.tasklist {
                None => {
                    return None;
                },
                Some(processes) => processes,
            };
            let lowered_name = chars_of(lowercase(process_name).as_str());
            let pids = pids_in(processes.as_str(), &lowered_name);
            if pids.len() == 0 {
                return None;
            }
            match &snapshot.netstat {
                None => None,
                Some(sockets) => Some(ports_in_netstat(sockets.as_str(), &pids, process_name)),
            }
        },
        Platform::MacOs => match &snapshot.lsof {
            None => None,
            Some(sockets) => {
                let lowered_name = chars_of(lowercase(process_name).as_str());
                Some(ports_in_lsof(sockets.as_str(), &lowered_name, process_name))
            },
        },
        Platform::Other => None,
    }
}

/// The kind of a port for the program `config`: its own default ports
/// first, then the ports that proxies commonly use for HTTP and for SOCKS;
/// `current` for any other port.
pub open spec fn port_kind(port: u16, config: VpnConfigView, current: Seq<char>) -> Seq<char> {
    if port == config.default_http_port {
        "http"@
    } else if port == config.default_socks_port {
        "socks"@
    } else if port == 7890 || port == 8080 || port == 8118 || port == 3128 || port == 10808 || port
        == 15236 || port == 6152 {
        "http"@
    } else if port == 7891 || port == 1080 || port == 10809 || port == 15235 || port == 6153 {
        "socks"@
    } else {
        current
    }
}

/// A port with its kind for the program `config`.
pub open spec fn classified(port: DetectedPortView, config: VpnConfigView) -> DetectedPortView {
    DetectedPortView { port_type: port_kind(port.port, config, port.port_type), ..port }
}

/// `sorted` with `port` at its place in the order of port numbers, unless
/// `sorted` holds that port number already.
pub open spec fn inserted(sorted: Seq<DetectedPortView>, port: DetectedPortView) -> Seq<
    DetectedPortView,
>
    decreases sorted.len(),
{
    if sorted.len() == 0 {
        seq![port]
    } else if sorted.last().port < port.port {
        sorted.push(port)
    } else if sorted.last().port == port.port {
        sorted
    } else {
        inserted(sorted.drop_last(), port).push(sorted.last())
    }
}

/// The ports in the order of their numbers, each number once: of several
/// ports with one number the first stays.
pub open spec fn sorted_unique(ports: Seq<DetectedPortView>) -> Seq<DetectedPortView>
    decreases ports.len(),
{
    if ports.len() == 0 {
        Seq::empty()
    } else {
        inserted(sorted_unique(ports.drop_last()), ports.last())
    }
}

/// The ports in the order of their numbers, each number once and each with
/// its kind.
pub open spec fn classify(ports: Seq<DetectedPortView>, config: VpnConfigView) -> Seq<
    DetectedPortView,
> {
    Seq::new(
        sorted_unique(ports).len(),
        |i: int| classified(sorted_unique(ports)[i], config),
    )
}

/// Whether the port numbers grow from each port to the next.
pub open spec fn increasing(ports: Seq<DetectedPortView>) -> bool {
    forall|i: int, j: int|
        0 <= i < j < ports.len() ==> (#[trigger] ports[i]).port < (#[trigger] ports[j]).port
}

/// Whether some port of `ports` has the number `number`.
pub open spec fn has_port(ports: Seq<DetectedPortView>, number: u16) -> bool {
    exists|i: int| 0 <= i < ports.len() && (#[trigger] ports[i]).port == number
}

/// Inserting into ports whose numbers grow gives ports whose numbers grow,
/// with the numbers that were there and the new one.
pub proof fn lemma_inserted(sorted: Seq<DetectedPortView>, port: DetectedPortView)
    requires
        increasing(sorted),
    ensures
        increasing(inserted(sorted, port)),
        has_port(inserted(sorted, port), port.port),
        forall|number: u16| #[trigger]
            has_port(sorted, number) ==> has_port(inserted(sorted, port), number),
        forall|number: u16| #[trigger]
            has_port(inserted(sorted, port), number) ==> has_port(sorted, number) || number
                == port.port,
    decreases sorted.len(),
{
    let after = inserted(sorted, port);
    if sorted.len() == 0 {
        assert(after[0] == port);
    } else if sorted.last().port < port.port {
        assert forall|i: int, j: int| 0 <= i < j < after.len() implies (#[trigger] after[i]).port
            < (#[trigger] after[j]).port by {
            assert(after[i] == sorted[i]);
            if j == after.len() - 1 {
                if i < sorted.len() - 1 {
                    assert(sorted[i].port < sorted[sorted.len() - 1].port);
                }
            } else {
                assert(after[j] == sorted[j]);
            }
        }
        assert(after[after.len() - 1].port == port.port);
        assert forall|number: u16| #[trigger] has_port(sorted, number) implies has_port(
            after,
            number,
        ) by {
            let i = choose|i: int| 0 <= i < sorted.len() && (#[trigger] sorted[i]).port == number;
            assert(after[i].port == number);
        }
        assert forall|number: u16| #[trigger] has_port(after, number) implies has_port(
            sorted,
            number,
        ) || number == port.port by {
            let i = choose|i: int| 0 <= i < after.len() && (#[trigger] after[i]).port == number;
            if i < sorted.len() {
                assert(sorted[i].port == number);
            }
        }
    } else if sorted.last().port == port.port {
        assert(sorted[sorted.len() - 1].port == port.port);
    } else {
        let front = sorted.drop_last();
        let last = sorted.last();
        assert forall|i: int, j: int| 0 <= i < j < front.len() implies (#[trigger] front[i]).port
            < (#[trigger] front[j]).port by {
            assert(front[i] == sorted[i]);
            assert(front[j] == sorted[j]);
        }
        lemma_inserted(front, port);
        let middle = inserted(front, port);
        assert(after == middle.push(last));
        assert forall|number: u16| has_port(middle, number) implies number < last.port by {
            if has_port(front, number) {
                let k = choose|k: int| 0 <= k < front.len() && (#[trigger] front[k]).port
                    == number;
                assert(sorted[k].port < sorted[sorted.len() - 1].port);
            }
        }
        assert forall|i: int, j: int| 0 <= i < j < after.len() implies (#[trigger] after[i]).port
            < (#[trigger] after[j]).port by {
            assert(after[i] == middle[i]);
            if j == after.len() - 1 {
                assert(has_port(middle, middle[i].port));
            } else {
                assert(after[j] == middle[j]);
            }
        }
        assert(has_port(after, port.port)) by {
            let k = choose|k: int| 0 <= k < middle.len() && (#[trigger] middle[k]).port
                == port.port;
            assert(after[k].port == port.port);
        }
        assert forall|number: u16| #[trigger] has_port(sorted, number) implies has_port(
            after,
            number,
        ) by {
            let i = choose|i: int| 0 <= i < sorted.len() && (#[trigger] sorted[i]).port == number;
            if i < front.len() {
                assert(front[i].port == number);
                assert(has_port(front, number));
                let k = choose|k: int| 0 <= k < middle.len() && (#[trigger] middle[k]).port
                    == number;
                assert(after[k].port == number);
            } else {
                assert(after[after.len() - 1].port == number);
            }
        }
        assert forall|number: u16| #[trigger] has_port(after, number) implies has_port(
            sorted,
            number,
        ) || number == port.port by {
            let i = choose|i: int| 0 <= i < after.len() && (#[trigger] after[i]).port == number;
            if i < middle.len() {
                assert(middle[i].port == number);
                assert(has_port(middle, number));
                if has_port(front, number) {
                    let k = choose|k: int| 0 <= k < front.len() && (#[trigger] front[k]).port
                        == number;
                    assert(sorted[k].port == number);
                }
            } else {
                assert(sorted[sorted.len() - 1].port == number);
            }
        }
    }
}

/// What `sorted_unique` gives has growing port numbers, so each number
/// once, and has exactly the port numbers of what it was given.
pub proof fn lemma_sorted_unique(ports: Seq<DetectedPortView>)
    ensures
        increasing(sorted_unique(ports)),
        forall|number: u16| #[trigger]
            has_port(ports, number) ==> has_port(sorted_unique(ports), number),
        forall|number: u16| #[trigger]
            has_port(sorted_unique(ports), number) ==> has_port(ports, number),
    decreases ports.len(),
{
    if ports.len() > 0 {
        let front = ports.drop_last();
        let unique = sorted_unique(front);
        lemma_sorted_unique(front);
        lemma_inserted(unique, ports.last());
        assert forall|number: u16| #[trigger] has_port(ports, number) implies has_port(
            sorted_unique(ports),
            number,
        ) by {
            let i = choose|i: int| 0 <= i < ports.len() && (#[trigger] ports[i]).port == number;
            if i < front.len() {
                assert(front[i].port == number);
                assert(has_port(front, number));
                assert(has_port(unique, number));
            }
        }
        assert forall|number: u16| #[trigger] has_port(sorted_unique(ports), number) implies has_port(
            ports,
            number,
        ) by {
            if has_port(unique, number) {
                assert(has_port(front, number));
                let i = choose|i: int| 0 <= i < front.len() && (#[trigger] front[i]).port
                    == number;
                assert(ports[i].port == number);
            } else {
                assert(ports[ports.len() - 1].port == number);
            }
        }
    }
}

/// What `classify` gives has growing port numbers, so each number once,
/// and has exactly the port numbers that were found.
pub proof fn law_classified_ports_are_sorted(ports: Seq<DetectedPortView>, config: VpnConfigView)
    ensures
        increasing(classify(ports, config)),
        forall|number: u16| #[trigger]
            has_port(ports, number) ==> has_port(classify(ports, config), number),
        forall|number: u16| #[trigger]
            has_port(classify(ports, config), number) ==> has_port(ports, number),
{
    lemma_sorted_unique(ports);
    let sorted = sorted_unique(ports);
    let out = classify(ports, config);
    assert forall|i: int, j: int| 0 <= i < j < out.len() implies (#[trigger] out[i]).port < (
    #[trigger] out[j]).port by {
        assert(sorted[i].port < sorted[j].port);
    }
    assert forall|number: u16| #[trigger] has_port(ports, number) implies has_port(
        out,
        number,
    ) by {
        assert(has_port(sorted, number));
        let i = choose|i: int| 0 <= i < sorted.len() && (#[trigger] sorted[i]).port == number;
        assert(out[i].port == number);
    }
    assert forall|number: u16| #[trigger] has_port(out, number) implies has_port(
        ports,
        number,
    ) by {
        let i = choose|i: int| 0 <= i < out.len() && (#[trigger] out[i]).port == number;
        assert(sorted[i].port == number);
        assert(has_port(sorted, number));
    }
}

/// The first of `ports` with the number `number`.
pub open spec fn first_with_port(ports: Seq<DetectedPortView>, number: u16) -> Option<
    DetectedPortView,
>
    decreases ports.len(),
{
    if ports.len() == 0 {
        None
    } else {
        match first_with_port(ports.drop_last(), number) {
            Some(port) => Some(port),
            None => if ports.last().port == number {
                Some(ports.last())
            } else {
                None
            },
        }
    }
}

/// There is a first port of a number exactly where there is a port of that
/// number.
proof fn lemma_first_with_port(ports: Seq<DetectedPortView>, number: u16)
    ensures
        first_with_port(ports, number) is Some <==> has_port(ports, number),
    decreases ports.len(),
{
    if ports.len() > 0 {
        let front = ports.drop_last();
        lemma_first_with_port(front, number);
        if has_port(front, number) {
            let i = choose|i: int| 0 <= i < front.len() && (#[trigger] front[i]).port == number;
            assert(ports[i].port == number);
        }
        if has_port(ports, number) {
            let i = choose|i: int| 0 <= i < ports.len() && (#[trigger] ports[i]).port == number;
            if i < front.len() {
                assert(front[i].port == number);
            }
        }
        if ports.last().port == number {
            assert(ports[ports.len() - 1].port == number);
        }
    }
}

/// What inserting gives was there before, or is the new port, which comes
/// in only where its number was not there.
proof fn lemma_inserted_from(sorted: Seq<DetectedPortView>, port: DetectedPortView)
    requires
        increasing(sorted),
    ensures
        forall|i: int|
            0 <= i < inserted(sorted, port).len() ==> (exists|k: int|
                0 <= k < sorted.len() && sorted[k] == #[trigger] inserted(sorted, port)[i]) || (
            inserted(sorted, port)[i] == port && !has_port(sorted, port.port)),
    decreases sorted.len(),
{
    let after = inserted(sorted, port);
    if sorted.len() == 0 {
    } else if sorted.last().port < port.port {
        assert(!has_port(sorted, port.port)) by {
            if has_port(sorted, port.port) {
                let k = choose|k: int|
                    0 <= k < sorted.len() && (#[trigger] sorted[k]).port == port.port;
                if k < sorted.len() - 1 {
                    assert(sorted[k].port < sorted[sorted.len() - 1].port);
                }
            }
        }
        assert forall|i: int| 0 <= i < after.len() implies (exists|k: int|
            0 <= k < sorted.len() && sorted[k] == #[trigger] after[i]) || (after[i] == port
            && !has_port(sorted, port.port)) by {
            if i < sorted.len() {
                assert(sorted[i] == after[i]);
            }
        }
    } else if sorted.last().port == port.port {
        assert forall|i: int| 0 <= i < after.len() implies (exists|k: int|
            0 <= k < sorted.len() && sorted[k] == #[trigger] after[i]) || (after[i] == port
            && !has_port(sorted, port.port)) by {
            assert(sorted[i] == after[i]);
        }
    } else {
        let front = sorted.drop_last();
        let last = sorted.last();
        assert forall|i: int, j: int| 0 <= i < j < front.len() implies (#[trigger] front[i]).port
            < (#[trigger] front[j]).port by {
            assert(front[i] == sorted[i]);
            assert(front[j] == sorted[j]);
        }
        lemma_inserted_from(front, port);
        let middle = inserted(front, port);
        assert(after == middle.push(last));
        assert forall|i: int| 0 <= i < after.len() implies (exists|k: int|
            0 <= k < sorted.len() && sorted[k] == #[trigger] after[i]) || (after[i] == port
            && !has_port(sorted, port.port)) by {
            if i < middle.len() {
                assert(after[i] == middle[i]);
                if exists|k: int| 0 <= k < front.len() && front[k] == middle[i] {
                    let k = choose|k: int| 0 <= k < front.len() && front[k] == middle[i];
                    assert(sorted[k] == after[i]);
                } else {
                    assert(middle[i] == port && !has_port(front, port.port));
                    if has_port(sorted, port.port) {
                        let k = choose|k: int|
                            0 <= k < sorted.len() && (#[trigger] sorted[k]).port == port.port;
                        if k < front.len() {
                            assert(front[k].port == port.port);
                        }
                    }
                }
            } else {
                assert(sorted[sorted.len() - 1] == after[i]);
            }
        }
    }
}

/// Every port that `sorted_unique` gives is the first port of its number
/// in what it was given.
proof fn lemma_sorted_unique_firsts(ports: Seq<DetectedPortView>)
    ensures
        forall|i: int|
            0 <= i < sorted_unique(ports).len() ==> first_with_port(
                ports,
                (#[trigger] sorted_unique(ports)[i]).port,
            ) == Some(sorted_unique(ports)[i]),
    decreases ports.len(),
{
    if ports.len() > 0 {
        let front = ports.drop_last();
        let last = ports.last();
        let unique = sorted_unique(front);
        let after = sorted_unique(ports);
        lemma_sorted_unique_firsts(front);
        lemma_sorted_unique(front);
        lemma_inserted_from(unique, last);
        assert forall|i: int| 0 <= i < after.len() implies first_with_port(
            ports,
            (#[trigger] after[i]).port,
        ) == Some(after[i]) by {
            if exists|k: int| 0 <= k < unique.len() && unique[k] == after[i] {
                let k = choose|k: int| 0 <= k < unique.len() && unique[k] == after[i];
                assert(first_with_port(front, unique[k].port) == Some(unique[k]));
            } else {
                assert(after[i] == last && !has_port(unique, last.port));
                lemma_first_with_port(front, last.port);
                if has_port(front, last.port) {
                    assert(has_port(unique, last.port));
                }
            }
        }
    }
}

/// Of several ports with one number the first stays: every port that
/// `classify` gives is the first port of its number that was found, with
/// its kind.
pub proof fn law_classified_ports_are_first(ports: Seq<DetectedPortView>, config: VpnConfigView)
    ensures
        forall|i: int|
            0 <= i < classify(ports, config).len() ==> (first_with_port(
                ports,
                (#[trigger] classify(ports, config)[i]).port,
            ) matches Some(port) && classify(ports, config)[i] == classified(port, config)),
{
    lemma_sorted_unique_firsts(ports);
    let sorted = sorted_unique(ports);
    let out = classify(ports, config);
    assert forall|i: int| 0 <= i < out.len() implies (first_with_port(
        ports,
        (#[trigger] out[i]).port,
    ) matches Some(port) && out[i] == classified(port, config)) by {
        assert(out[i] == classified(sorted[i], config));
        assert(first_with_port(ports, sorted[i].port) == Some(sorted[i]));
    }
}

fn insert_port(sorted: &mut Vec<DetectedPort>, port: DetectedPort)
    ensures
        views(final(sorted)@) == inserted(views(old(sorted)@), port@),
{
    let ghost all = views(sorted@);
    let mut i: usize = sorted.len();
    assert(all.take(i as int) =~= all);
    assert(all.skip(i as int) =~= Seq::<DetectedPortView>::empty());
    assert(inserted(all, port@) + Seq::<DetectedPortView>::empty() =~= inserted(all, port@));
    while i > 0 && sorted[i - 1].port > port.port
        invariant
            i <= sorted.len(),
            all == views(sorted@),
            sorted@ == old(sorted)@,
            inserted(all, port@) == inserted(all.take(i as int), port@) + all.skip(i as int),
        decreases i,
    {
        proof {
            let here = all.take(i as int);
            assert(here.last() == all[i - 1]);
            assert(here.drop_last() =~= all.take(i - 1));
            assert(inserted(here, port@) == inserted(all.take(i - 1), port@).push(all[i - 1]));
            assert(inserted(all.take(i - 1), port@).push(all[i - 1]) + all.skip(i as int)
                =~= inserted(all.take(i - 1), port@) + all.skip(i - 1));
        }
        i -= 1;
    }
    if i > 0 && sorted[i - 1].port == port.port {
        proof {
            assert(all.take(i as int).last() == all[i - 1]);
            assert(all.take(i as int) + all.skip(i as int) =~= all);
        }
        return ;
    }
    proof {
        let here = all.take(i as int);
        if i > 0 {
            assert(here.last() == all[i - 1]);
        }
        assert(inserted(here, port@) =~= here.push(port@));
    }
    sorted.insert(i, port);
    assert(views(sorted@) =~= all.take(i as int).push(port@) + all.skip(i as int));
}

fn kind_of(port: u16, config: &VpnConfig, current: String) -> (r: String)
    ensures
        r@ == port_kind(port, config@, current@),
{
    if port == config.default_http_port {
        owned("http")
    } else if port == config.default_socks_port {
        owned("socks")
    } else if port == 7890 || port == 8080 || port == 8118 || port == 3128 || port == 10808 || port
        == 15236 || port == 6152 {
        owned("http")
    } else if port == 7891 || port == 1080 || port == 10809 || port == 15235 || port == 6153 {
        owned("socks")
    } else {
        current
    }
}

/// The ports in the order of their numbers, each number once and each with
/// its kind for the program `config`.
pub fn classify_ports(ports: Vec<DetectedPort>, config: &VpnConfig) -> (r: Vec<DetectedPort>)
    ensures
        views(r@) == classify(views(ports@), config@),
{
    let ghost all = views(ports@);
    let mut rest = ports;
    let mut sorted: Vec<DetectedPort> = Vec::new();
    let ghost mut done: int = 0;
    assert(all.take(0) =~= Seq::<DetectedPortView>::empty());
    assert(all.skip(0) =~= all);
    assert(views(sorted@) =~= Seq::<DetectedPortView>::empty());
    while rest.len() > 0
        invariant
            0 <= done <= all.len(),
            views(rest@) == all.skip(done),
            views(sorted@) == sorted_unique(all.take(done)),
        decreases rest.len(),
    {
        let ghost held = rest@;
        assert(views(held).len() == all.len() - done);
        let port = rest.remove(0);
        proof {
            assert(port@ == views(held)[0]);
            assert(views(rest@) =~= all.skip(done + 1)) by {
                assert forall|k: int| 0 <= k < held.len() - 1 implies views(rest@)[k] == all.skip(
                    done + 1,
                )[k] by {
                    assert(views(held)[k + 1] == all.skip(done)[k + 1]);
                }
            }
            assert(all.take(done + 1).drop_last() =~= all.take(done));
            assert(all.take(done + 1).last() == port@);
            done = done + 1;
        }
        insert_port(&mut sorted, port);
    }
    assert(all.take(done) =~= all);
    let ghost unique = sorted_unique(all);
    let mut r: Vec<DetectedPort> = Vec::new();
    assert(unique.skip(0) =~= unique);
    while sorted.len() > 0
        invariant
            r.len() + sorted.len() == unique.len(),
            views(sorted@) == unique.skip(r.len() as int),
            forall|k: int| 0 <= k < r.len() ==> (#[trigger] r@[k])@ == classified(unique[k], config@),
        decreases sorted.len(),
    {
        let ghost at = r.len() as int;
        let ghost held = sorted@;
        let port = sorted.remove(0);
        proof {
            assert(port@ == views(held)[0]);
            assert(views(sorted@) =~= unique.skip(at + 1)) by {
                assert forall|k: int| 0 <= k < held.len() - 1 implies views(sorted@)[k]
                    == unique.skip(at + 1)[k] by {
                    assert(views(held)[k + 1] == unique.skip(at)[k + 1]);
                }
            }
        }
        let kind = kind_of(port.port, config, port.port_type);
        r.push(
            DetectedPort {
                port: port.port,
                port_type: kind,
                process_name: port.process_name,
                pid: port.pid,
            },
        );
    }
    assert(views(r@) =~= classify(all, config@));
    r
}

/// The ports that a program is taken to listen on while it does not run.
pub open spec fn default_ports(config: VpnConfigView) -> Seq<DetectedPortView> {
    seq![
        DetectedPortView {
            port: config.default_http_port,
            port_type: "http"@,
            process_name: config.name,
            pid: 0,
        },
        DetectedPortView {
            port: config.default_socks_port,
            port_type: "socks"@,
            process_name: config.name,
            pid: 0,
        },
    ]
}

/// The ports that the processes `process_names` listen on, one process
/// after the other.
pub open spec fn gathered(
    process_names: Seq<Seq<char>>,
    platform: Platform,
    snapshot: ProcessSnapshotView,
) -> Seq<DetectedPortView>
    decreases process_names.len(),
{
    if process_names.len() == 0 {
        Seq::empty()
    } else {
        let rest = gathered(process_names.drop_last(), platform, snapshot);
        match ports_found(process_names.last(), platform, snapshot) {
            Some(ports) => rest + ports,
            None => rest,
        }
    }
}

/// The message that a program runs.
pub open spec fn running(name: Seq<char>) -> Seq<char> {
    "检测到 "@ + name + " 正在运行"@
}

/// The message that a program does not run.
pub open spec fn not_running(name: Seq<char>) -> Seq<char> {
    "未检测到 "@ + name + " 运行，使用默认端口"@
}

/// The message that no process goes by a name.
pub open spec fn no_process(name: Seq<char>) -> Seq<char> {
    "未找到名为 "@ + name + " 的进程"@
}

/// What is detected for a known program from the names of its processes:
/// the ports they listen on, in order and with their kinds; or, where none
/// was found, the program's default ports. Either counts as a success.
pub open spec fn detection_for(
    process_names: Seq<Seq<char>>,
    config: VpnConfigView,
    platform: Platform,
    snapshot: ProcessSnapshotView,
) -> DetectionResultView {
    let all = gathered(process_names, platform, snapshot);
    if all.len() == 0 {
        DetectionResultView {
            success: true,
            message: not_running(config.name),
            ports: default_ports(config),
        }
    } else {
        DetectionResultView {
            success: true,
            message: running(config.name),
            ports: classify(all, config),
        }
    }
}

/// What is detected for a program that this crate does not know: the ports
/// that a process of that name listens on, as they were found; a failure
/// where there is none.
pub open spec fn custom_detection(name: Seq<char>, platform: Platform, snapshot: ProcessSnapshotView)
    -> DetectionResultView {
    match ports_found(name, platform, snapshot) {
        Some(ports) if ports.len() > 0 => DetectionResultView {
            success: true,
            message: running(name),
            ports,
        },
        _ => DetectionResultView { success: false, message: no_process(name), ports: Seq::empty() },
    }
}

/// The position of the first known program whose name is `lowered_name` in
/// lower case.
pub open spec fn preset_index(lowered_presets: Seq<Seq<char>>, lowered_name: Seq<char>) -> Option<
    int,
>
    decreases lowered_presets.len(),
{
    if lowered_presets.len() == 0 {
        None
    } else if lowered_presets.last() == lowered_name && preset_index(
        lowered_presets.drop_last(),
        lowered_name,
    ) is None {
        Some(lowered_presets.len() - 1)
    } else {
        preset_index(lowered_presets.drop_last(), lowered_name)
    }
}

/// The names of the known programs in lower case.
pub open spec fn lowered_presets() -> Seq<Seq<char>> {
    Seq::new(presets().len(), |i: int| lowercased(presets()[i].name))
}

/// What is detected for the program `vpn_name`: a known program is found
/// by its name, whatever its case, and looked for under the names of its
/// processes; any other name is looked for as the name of a process.
pub open spec fn detection(vpn_name: Seq<char>, platform: Platform, snapshot: ProcessSnapshotView)
    -> DetectionResultView {
    match preset_index(lowered_presets(), lowercased(vpn_name)) {
        Some(i) => detection_for(presets()[i].process_names, presets()[i], platform, snapshot),
        None => custom_detection(vpn_name, platform, snapshot),
    }
}

fn text_around(before: &str, name: &str, after: &str) -> (r: String)
    ensures
        r@ == before@ + name@ + after@,
{
    let mut out = chars_of(before);
    push_str(&mut out, name);
    push_str(&mut out, after);
    string_of(&out)
}

fn default_port(port: u16, kind: &str, name: &str) -> (r: DetectedPort)
    ensures
        r@ == (DetectedPortView { port, port_type: kind@, process_name: name@, pid: 0 }),
{
    DetectedPort { port, port_type: owned(kind), process_name: owned(name), pid: 0 }
}

/// What is detected for the known program `config` from the names of its
/// processes.
pub fn detect_port_by_process_names(
    process_names: &Vec<String>,
    config: &VpnConfig,
    platform: Platform,
    snapshot: &ProcessSnapshot,
) -> (r: DetectionResult)
    ensures
        r@ == detection_for(views(process_names@), config@, platform, snapshot@),
{
    let ghost all = views(process_names@);
    let mut found: Vec<DetectedPort> = Vec::new();
    let mut i: usize = 0;
    assert(all.take(0) =~= Seq::<Seq<char>>::empty());
    assert(views(found@) =~= Seq::<DetectedPortView>::empty());
    while i < process_names.len()
        invariant
            i <= process_names.len(),
            all == views(process_names@),
            views(found@) == gathered(all.take(i as int), platform, snapshot@),
        decreases process_names.len() - i,
    {
        proof {
            assert(all.take(i + 1).drop_last() =~= all.take(i as int));
            assert(all.take(i + 1).last() == process_names@[i as int]@);
        }
        match find_ports_by_process_name(process_names[i].as_str(), platform, snapshot) {
            Some(ports) => {
                let ghost before = found@;
                let ghost added = ports@;
                let mut ports = ports;
                found.append(&mut ports);
                assert(views(found@) =~= views(before) + views(added)) by {
                    assert(found@ =~= before + added);
                }
            },
            None => {},
        }
        i += 1;
    }
    assert(all.take(process_names.len() as int) =~= all);
    if found.len() == 0 {
        let mut ports: Vec<DetectedPort> = Vec::new();
        ports.push(default_port(config.default_http_port, "http", config.name.as_str()));
        ports.push(default_port(config.default_socks_port, "socks", config.name.as_str()));
        assert(views(ports@) =~= default_ports(config@));
        DetectionResult {
            success: true,
            message: text_around("未检测到 ", config.name.as_str(), " 运行，使用默认端口"),
            ports,
        }
    } else {
        DetectionResult {
            success: true,
            message: text_around("检测到 ", config.name.as_str(), " 正在运行"),
            ports: classify_ports(found, config),
        }
    }
}

/// What is detected for a program that this crate does not know.
pub fn detect_port_by_custom_name(name: &str, platform: Platform, snapshot: &ProcessSnapshot) -> (r:
    DetectionResult)
    ensures
        r@ == custom_detection(name@, platform, snapshot@),
{
    match find_ports_by_process_name(name, platform, snapshot) {
        Some(ports) => {
            if ports.len() > 0 {
                return DetectionResult {
                    success: true,
                    message: text_around("检测到 ", name, " 正在运行"),
                    ports,
                };
            }
        },
        None => {},
    }
    let ports: Vec<DetectedPort> = Vec::new();
    assert(views(ports@) =~= Seq::<DetectedPortView>::empty());
    DetectionResult { success: false, message: text_around("未找到名为 ", name, " 的进程"), ports }
}

/// The position of the first of `lowered_names` that is `lowered_name`.
pub fn find_preset(lowered_names: &Vec<String>, lowered_name: &str) -> (r: Option<usize>)
    ensures
        match r {
            Some(i) => i < lowered_names.len() && preset_index(
                views(lowered_names@),
                lowered_name@,
            ) == Some(i as int),
            None => preset_index(views(lowered_names@), lowered_name@) is None,
        },
{
    let ghost all = views(lowered_names@);
    let mut i: usize = 0;
    assert(all.take(0) =~= Seq::<Seq<char>>::empty());
    while i < lowered_names.len()
        invariant
            i <= lowered_names.len(),
            all == views(lowered_names@),
            preset_index(all.take(i as int), lowered_name@) is None,
        decreases lowered_names.len() - i,
    {
        proof {
            assert(all.take(i + 1).drop_last() =~= all.take(i as int));
            assert(all.take(i + 1).last() == lowered_names@[i as int]@);
        }
        if same_text(lowered_names[i].as_str(), lowered_name) {
            proof {
                lemma_preset_index_stays(all, lowered_name@, i as int);
            }
            return Some(i);
        }
        i += 1;
    }
    assert(all.take(lowered_names.len() as int) =~= all);
    None
}

proof fn lemma_preset_index_stays(all: Seq<Seq<char>>, lowered_name: Seq<char>, i: int)
    requires
        0 <= i < all.len(),
        preset_index(all.take(i + 1), lowered_name) == Some(i),
    ensures
        preset_index(all, lowered_name) == Some(i),
    decreases all.len(),
{
    if all.len() == i + 1 {
        assert(all.take(i + 1) =~= all);
    } else {
        assert(all.drop_last().take(i + 1) =~= all.take(i + 1));
        lemma_preset_index_stays(all.drop_last(), lowered_name, i);
    }
}

/// What is detected for the program `vpn_name`.
pub fn detect_port_by_vpn_name(vpn_name: &str, platform: Platform, snapshot: &ProcessSnapshot) -> (r:
    DetectionResult)
    ensures
        r@ == detection(vpn_name@, platform, snapshot@),
{
    let configs = get_vpn_configs();
    let mut lowered: Vec<String> = Vec::new();
    let mut i: usize = 0;
    while i < configs.len()
        invariant
            i <= configs.len(),
            views(configs@) == presets(),
            lowered.len() == i,
            forall|k: int| 0 <= k < i ==> (#[trigger] lowered@[k])@ == lowercased(presets()[k].name),
        decreases configs.len() - i,
    {
        assert(views(configs@)[i as int] == configs@[i as int]@);
        lowered.push(lowercase(configs[i].name.as_str()));
        i += 1;
    }
    assert(views(configs@).len() == configs.len());
    assert(views(lowered@) =~= lowered_presets());
    let wanted = lowercase(vpn_name);
    match find_preset(&lowered, wanted.as_str()) {
        Some(at) => {
            assert(views(configs@)[at as int] == configs@[at as int]@);
            detect_port_by_process_names(
                &configs[at].process_names,
                &configs[at],
                platform,
                snapshot,
            )
        },
        None => detect_port_by_custom_name(vpn_name, platform, snapshot),
    }
}

} // verus!
