//! What the system says: devices, frames, addresses and processes.

use flowlens::addresses::sorted_addresses;
use flowlens::capture::interfaces::Device;
use flowlens::net::{
    is_ipv4_mapped, socket_keys, to_ipv4_mapped, wildcard_for, IpAddr, LocalSocket,
    TransportProtocol,
};
use flowlens::process_name::{executable_name, nonempty_text, process_name, PathStyle};
use flowlens::refcap::{
    count_frame, count_ip, device_line, emit_decision, resolve_device, stat_deltas, CaptureStat,
    StatDelta, Totals,
};
use flowlens::scan::{parse_decimal, parse_natural, parse_signed, split_lines, split_words, trim};
use flowlens::socket_map::SocketMap;
use flowlens::start_time::{instant_of_filetime, process_start_time, UNIX_EPOCH_FILETIME};

const SECOND: i128 = 1_000_000_000;

fn stat_line(comm: &str, ticks: &str) -> String {
    let mut line = format!("42 ({comm}) S");
    for field in 4..22 {
        line.push_str(&format!(" {field}"));
    }
    line.push_str(&format!(" {ticks} 23 24\n"));
    line
}

#[test]
fn start_of_a_process_counts_ticks_from_the_boot() {
    let system = "cpu  1 2 3\nintr 5\nbtime 1700000000\nprocesses 9\n";
    assert_eq!(
        process_start_time(&stat_line("bash", "12345"), system),
        Some(1_700_000_123 * SECOND + 450_000_000)
    );
    assert_eq!(
        process_start_time(&stat_line("a) (b", "100"), system),
        Some(1_700_000_001 * SECOND)
    );
}

#[test]
fn unreadable_start_times_are_none() {
    let system = "btime 1700000000\n";
    assert_eq!(process_start_time("42 bash S 1 2", system), None);
    assert_eq!(process_start_time("42 (bash) S 1 2", system), None);
    assert_eq!(process_start_time(&stat_line("bash", "x"), system), None);
    assert_eq!(process_start_time(&stat_line("bash", "1"), "cpu 1\n"), None);
    assert_eq!(process_start_time(&stat_line("bash", "1"), "btime\n"), None);
    assert_eq!(process_start_time(&stat_line("bash", "1"), "btime 9223372036854775807\n"), None);
}

#[test]
fn file_times_count_from_1601() {
    let parts = |steps: u64| ((steps >> 32) as u32, steps as u32);
    let (high, low) = parts(UNIX_EPOCH_FILETIME);
    assert_eq!(instant_of_filetime(high, low), Some(0));
    let (high, low) = parts(UNIX_EPOCH_FILETIME - 1);
    assert_eq!(instant_of_filetime(high, low), None);
    let (high, low) = parts(UNIX_EPOCH_FILETIME + 10_000_003);
    assert_eq!(instant_of_filetime(high, low), Some(SECOND + 300));
    assert!(instant_of_filetime(u32::MAX, u32::MAX).is_some());
}

fn ethernet(ether_type: [u8; 2], ip: &[u8]) -> Vec<u8> {
    let mut frame = vec![0; 12];
    frame.extend_from_slice(&ether_type);
    frame.extend_from_slice(ip);
    frame
}

fn ipv4(total: u16, len: usize) -> Vec<u8> {
    let mut packet = vec![0u8; len];
    packet[0] = 0x45;
    packet[2..4].copy_from_slice(&total.to_be_bytes());
    packet
}

fn ipv6(payload: u16, len: usize) -> Vec<u8> {
    let mut packet = vec![0u8; len];
    packet[0] = 0x60;
    packet[4..6].copy_from_slice(&payload.to_be_bytes());
    packet
}

#[test]
fn frames_are_counted_by_what_they_carry() {
    let mut totals = Totals::new();
    let frames = [
        ethernet([0x08, 0x00], &ipv4(28, 46)),
        ethernet([0x86, 0xdd], &ipv6(8, 48)),
        ethernet([0x08, 0x06], &[0; 28]),
        ethernet([0x12, 0x34], &[0; 8]),
        ethernet([0x08, 0x00], &ipv4(19, 20)),
        ethernet([0x08, 0x00], &ipv4(21, 20)),
        vec![0; 13],
    ];
    for frame in &frames {
        assert!(totals.can_count(frame.len(), 100));
        count_frame(1, frame, 100, &mut totals);
    }
    assert_eq!(totals.packets, 7);
    assert_eq!(totals.bytes_wire, 700);
    assert_eq!(totals.bytes_caplen, frames.iter().map(|frame| frame.len() as u64).sum::<u64>());
    assert_eq!(totals.ipv4_packets, 1);
    assert_eq!(totals.ipv6_packets, 1);
    assert_eq!(totals.arp_packets, 1);
    assert_eq!(totals.other_packets, 2);
    assert_eq!(totals.ip_invalid_packets, 2);
    assert_eq!(totals.bytes_ip, (14 + 28) + (14 + 48));
}

#[test]
fn other_link_types_have_their_own_headers() {
    let counted = |link_type: i32, header: &[u8], ip: &[u8]| -> Totals {
        let mut frame = header.to_vec();
        frame.extend_from_slice(ip);
        let mut totals = Totals::new();
        count_frame(link_type, &frame, frame.len() as u64, &mut totals);
        totals
    };
    assert_eq!(counted(0, &[2, 0, 0, 0], &ipv4(20, 20)).bytes_ip, 24);
    assert_eq!(counted(0, &[0, 0, 0, 30], &ipv6(0, 40)).bytes_ip, 44);
    assert_eq!(counted(0, &[9, 9, 9, 9], &ipv4(20, 20)).other_packets, 1);
    assert_eq!(counted(101, &[], &ipv4(20, 20)).bytes_ip, 20);
    assert_eq!(counted(228, &[], &ipv4(20, 20)).ipv4_packets, 1);
    assert_eq!(counted(229, &[], &ipv6(0, 40)).ipv6_packets, 1);
    let mut sll = [0u8; 16];
    sll[14] = 0x08;
    assert_eq!(counted(113, &sll, &ipv4(20, 20)).bytes_ip, 36);
    let mut sll2 = [0u8; 20];
    sll2[0] = 0x86;
    sll2[1] = 0xdd;
    assert_eq!(counted(276, &sll2, &ipv6(0, 40)).bytes_ip, 60);
    assert_eq!(counted(276, &[0; 19], &[]).other_packets, 1);
    assert_eq!(counted(999, &[], &ipv4(20, 20)).other_packets, 1);
}

#[test]
fn packets_are_counted_by_their_type() {
    let mut totals = Totals::new();
    count_ip(0x0800, &ipv4(20, 20), 4, &mut totals);
    count_ip(0x86dd, &ipv6(1, 40), 4, &mut totals);
    assert_eq!(totals.ipv4_packets, 1);
    assert_eq!(totals.ip_invalid_packets, 1);
    assert_eq!(totals.bytes_ip, 24);
}

#[test]
fn full_counts_are_noticed() {
    let mut totals = Totals::new();
    totals.bytes_wire = u64::MAX;
    assert!(totals.can_count(0, 0));
    assert!(!totals.can_count(0, 1));
}

#[test]
fn statistics_grow_and_start_over() {
    let stat = |received: u32, dropped: u32, if_dropped: u32| {
        Some(CaptureStat {
            received,
            dropped,
            if_dropped,
        })
    };
    let delta = |dropped: u64, if_dropped: u64, received: u64| StatDelta {
        dropped,
        if_dropped,
        received,
    };
    assert_eq!(stat_deltas(stat(10, 2, 1), stat(15, 2, 4)), delta(0, 3, 5));
    assert_eq!(stat_deltas(stat(10, 2, 1), stat(3, 5, 0)), delta(3, 0, 0));
    assert_eq!(stat_deltas(None, stat(15, 2, 4)), delta(0, 0, 0));
    assert_eq!(stat_deltas(stat(15, 2, 4), None), delta(0, 0, 0));
}

#[test]
fn lines_come_at_intervals_until_the_limit() {
    let second: u128 = 1_000_000_000;
    let late = emit_decision(5 * second, 5, 12, Some(12));
    assert!(late.emit && late.stop);
    let early = emit_decision(5 * second - 1, 5, 12, Some(12));
    assert!(!early.emit && !early.stop);
    let endless = emit_decision(5 * second, 5, 12, None);
    assert!(endless.emit && !endless.stop);
    assert!(!emit_decision(5 * second, 5, 11, Some(12)).stop);
}

fn device(name: &str, desc: Option<&str>, addresses: Vec<IpAddr>) -> Device {
    Device {
        name: name.to_string(),
        desc: desc.map(|desc| desc.to_string()),
        addresses,
        is_loopback: false,
    }
}

#[test]
fn devices_are_selected_by_name_or_number() {
    let devices = vec![device("eth0", None, vec![]), device("7", None, vec![])];
    assert_eq!(resolve_device("eth0", &devices), Ok(0));
    assert_eq!(resolve_device("2", &devices), Ok(1));
    assert_eq!(resolve_device("7", &devices), Ok(1));
    assert_eq!(resolve_device("3", &devices), Err("invalid interface number: 3".to_string()));
    assert_eq!(resolve_device("0", &devices), Err("invalid interface number: 0".to_string()));
    assert_eq!(resolve_device("wlan0", &devices), Err("interface not found: wlan0".to_string()));
    assert_eq!(resolve_device("", &devices), Err("interface not found: ".to_string()));
}

#[test]
fn devices_are_listed_one_per_line() {
    let full = device("eth0", Some("Ethernet"), vec![IpAddr::v4(192, 0, 2, 10), IpAddr::V6(1)]);
    assert_eq!(device_line(1, &full), "1\teth0\tEthernet\t192.0.2.10,::1");
    assert_eq!(device_line(12, &device("lo", None, vec![])), "12\tlo\t\t");
}

#[test]
fn addresses_are_sorted_once_each() {
    let unsorted = vec![IpAddr::V6(1), IpAddr::V4(7), IpAddr::V4(3), IpAddr::V6(1), IpAddr::V4(7)];
    assert_eq!(
        sorted_addresses(&unsorted),
        vec![IpAddr::V4(3), IpAddr::V4(7), IpAddr::V6(1)]
    );
}

#[test]
fn mapped_sockets_have_two_keys() {
    let mapped: u128 = (0xffff << 32) | 0xc000_020a;
    assert_eq!(to_ipv4_mapped(mapped), Some(0xc000_020a));
    assert_eq!(to_ipv4_mapped(0xc000_020a), None);
    assert!(is_ipv4_mapped(IpAddr::V6(mapped)));
    assert!(!is_ipv4_mapped(IpAddr::V4(0xc000_020a)));
    assert_eq!(wildcard_for(IpAddr::V4(5)), IpAddr::V4(0));
    assert_eq!(wildcard_for(IpAddr::V6(5)), IpAddr::V6(0));
    let socket = LocalSocket {
        ip: IpAddr::V6(mapped),
        port: 80,
        protocol: TransportProtocol::Tcp,
    };
    assert_eq!(
        socket_keys(socket),
        vec![(socket, false), (socket.at(IpAddr::V4(0xc000_020a)), true)]
    );
    let plain = socket.at(IpAddr::V4(1));
    assert_eq!(socket_keys(plain), vec![(plain, false)]);
}

#[test]
fn executables_are_named_by_their_last_part() {
    assert_eq!(executable_name("/usr/bin/curl", PathStyle::Unix).as_deref(), Some("curl"));
    assert_eq!(executable_name("curl", PathStyle::Unix).as_deref(), Some("curl"));
    assert_eq!(executable_name("/usr/bin/", PathStyle::Unix).as_deref(), Some("bin"));
    assert_eq!(executable_name("/usr/bin/./", PathStyle::Unix).as_deref(), Some("bin"));
    assert_eq!(executable_name("/", PathStyle::Unix), None);
    assert_eq!(executable_name("", PathStyle::Unix), None);
    assert_eq!(executable_name("/usr/..", PathStyle::Unix), None);
    assert_eq!(nonempty_text(&String::new()), None);
    assert_eq!(process_name(&"x".to_string(), &"/".to_string(), PathStyle::Unix).as_deref(), Some("x"));
}

#[test]
fn names_agree_with_the_path_rules_of_std() {
    for path in [
        "/usr/bin/curl", "curl", "a/b/", "a/b//", "a/./b/.", ".", "..", "a/..", "/", "//", "",
        "a b/c d", "./x", "../x", "x/.", "/.", "...", "a/...",
    ] {
        let expected = std::path::Path::new(path)
            .file_name()
            .map(|name| name.to_str().unwrap().to_string());
        assert_eq!(executable_name(path, PathStyle::Unix), expected, "{path}");
    }
}

#[test]
fn socket_maps_hold_one_value_per_socket() {
    let socket = |port: u16| LocalSocket {
        ip: IpAddr::v4(127, 0, 0, 1),
        port,
        protocol: TransportProtocol::Tcp,
    };
    let mut map: SocketMap<u32> = SocketMap::new();
    map.insert(socket(1), 10);
    map.insert(socket(2), 20);
    map.insert(socket(1), 11);
    assert_eq!(map.len(), 2);
    assert_eq!(map.get(socket(1)), Some(11));
    assert_eq!(map.get(socket(3)), None);
    map.remove(socket(1));
    assert_eq!(map.get(socket(1)), None);
    assert_eq!(map.sockets(), vec![socket(2)]);
}

#[test]
fn words_and_lines_split_as_in_std() {
    let text = "  one\ttwo\u{a0}three \r\n\nfour\r\n five\n";
    let chars: Vec<char> = text.chars().collect();
    let spelled = |parts: Vec<Vec<char>>| -> Vec<String> {
        parts.into_iter().map(|part| part.into_iter().collect()).collect()
    };
    let words: Vec<String> = text.split_whitespace().map(|word| word.to_string()).collect();
    let lines: Vec<String> = text.lines().map(|line| line.to_string()).collect();
    assert_eq!(spelled(split_words(&chars)), words);
    assert_eq!(spelled(split_lines(&chars)), lines);
    let trimmed: String = trim(&chars).into_iter().collect();
    assert_eq!(trimmed, text.trim());
}

#[test]
fn numbers_are_read_as_in_std() {
    for text in [
        "0", "42", "+7", "-7", "", "+", "-", "007", "18446744073709551615", "18446744073709551616",
        "9223372036854775807", "-9223372036854775808", "9223372036854775808", "1 ", "a", "++1",
    ] {
        let chars: Vec<char> = text.chars().collect();
        assert_eq!(parse_natural(&chars, 10, u64::MAX), text.parse::<u64>().ok(), "{text}");
        assert_eq!(parse_signed(&chars), text.parse::<i64>().ok(), "{text}");
    }
    let hexadecimal: Vec<char> = "fF".chars().collect();
    assert_eq!(parse_natural(&hexadecimal, 16, 255), Some(255));
    assert_eq!(parse_natural(&hexadecimal, 16, 254), None);
    assert_eq!(parse_decimal("65535", 65_535), Some(65_535));
    assert_eq!(parse_decimal("65536", 65_535), None);
}

#[test]
fn windows_paths_have_drives_shares_and_two_separators() {
    for (path, expected) in [
        (r"C:\x\app.exe", Some("app.exe")),
        (r"C:/x/app.exe", Some("app.exe")),
        (r"C:\x/y\app.exe\", Some("app.exe")),
        (r"C:\x\.\app.exe\.", Some("app.exe")),
        (r"C:app.exe", Some("app.exe")),
        (r"C:\", None),
        (r"C:", None),
        (r"c:.", None),
        (r"C:\x\..", None),
        (r"app.exe", Some("app.exe")),
        (r"1:\app.exe", Some("app.exe")),
        (r"1:", Some("1:")),
        (r"\\server\share\app.exe", Some("app.exe")),
        (r"\\server\share", None),
        (r"//server/share/", None),
        (r"\\server", Some("server")),
        (r"\\.\COM42", None),
        (r"\\.\pipe\name", Some("name")),
        (r"\\?\C:\x\app.exe", Some("app.exe")),
        (r"\\?\C:", None),
        (r"\\?\C:\x/y", Some("x/y")),
        (r"\\?\C:\x\.", None),
        (r"\\?\UNC\server\share\app.exe", Some("app.exe")),
        (r"\\?\UNC\server\share", None),
        (r"\\?\UNC\server\", None),
        (r"\\?\pictures\kittens", Some("kittens")),
        (r"\\?\pictures", None),
        ("", None),
        (r"\", None),
    ] {
        let name = executable_name(path, PathStyle::Windows);
        assert_eq!(name.as_deref(), expected, "{path}");
    }
    let path = r"C:\x\app.exe".to_string();
    assert_eq!(executable_name(&path, PathStyle::Unix).as_deref(), Some(path.as_str()));
    let shown = process_name(&"backend".to_string(), &path, PathStyle::Windows);
    assert_eq!(shown.as_deref(), Some("app.exe"));
    let shown = process_name(&"backend".to_string(), &"C:".to_string(), PathStyle::Windows);
    assert_eq!(shown.as_deref(), Some("backend"));
}
