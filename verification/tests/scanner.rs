use portwatch::scanner::{extract_port, LsofScanner, PortScanner, SsScanner};
use portwatch::types::Proto;

const SAMPLE_SS_OUTPUT: &str = r#"Netid       State        Recv-Q       Send-Q                     Local Address:Port                Peer Address:Port       Process
udp         UNCONN       0            0                            224.0.0.251:5353                     0.0.0.0:*           users:(("chromium",pid=2440,fd=208))
udp         UNCONN       0            0                            224.0.0.251:5353                     0.0.0.0:*           users:(("chromium",pid=2523,fd=57))
udp         UNCONN       0            0                          127.0.0.53%lo:53                       0.0.0.0:*
udp         UNCONN       0            0                    192.168.1.148%wlan0:68                       0.0.0.0:*
tcp         LISTEN       0            4096                           127.0.0.1:45549                    0.0.0.0:*
tcp         LISTEN       0            1024                           127.0.0.1:3000                     0.0.0.0:*           users:(("ruby",pid=27264,fd=6))
tcp         LISTEN       0            1024                               [::1]:3000                        [::]:*           users:(("ruby",pid=27264,fd=7))
"#;

const SAMPLE_LSOF_OUTPUT: &str = r#"COMMAND     PID USER  FD   TYPE DEVICE SIZE/OFF NODE NAME
chromium  40269 ck3g 255u  IPv4 183157      0t0  UDP 224.0.0.251:5353
chromium  40316 ck3g  18u  IPv4 184101      0t0  TCP 192.168.1.148:37114->172.217.218.188:5228 (ESTABLISHED)
chromium  40316 ck3g  24u  IPv4 186798      0t0  TCP 192.168.1.148:34838->76.76.21.21:443 (ESTABLISHED)
chromium  40316 ck3g  31u  IPv4 198955      0t0  TCP 192.168.1.148:38592->140.82.114.26:443 (ESTABLISHED)
chromium  40316 ck3g  38u  IPv4 202589      0t0  TCP 192.168.1.148:36062->172.217.16.74:443 (ESTABLISHED)
chromium  40316 ck3g  44u  IPv4 190513      0t0  UDP 192.168.1.148:33558->172.217.16.74:443
chromium  40316 ck3g  49u  IPv4 197361      0t0  TCP 192.168.1.148:40822->142.251.142.37:443 (ESTABLISHED)
chromium  40316 ck3g  79u  IPv4 114308      0t0  UDP 224.0.0.251:5353
MainThrea 66212 ck3g  34u  IPv4 192336      0t0  TCP 192.168.1.148:34128->100.30.82.226:443 (ESTABLISHED)
bundle    75423 ck3g   6u  IPv4 194742      0t0  TCP 127.0.0.1:3000 (LISTEN)
bundle    75423 ck3g   7u  IPv6 194743      0t0  TCP [::1]:3000 (LISTEN)
"#;

#[test]
fn parse_process_info_success() {
    let proc_str = "users:((\"chromium\",pid=2440,fd=237))";
    let proc_name = String::from("chromium");
    let pid: u32 = 2440;
    let scanner = SsScanner;

    assert_eq!(scanner.parse_process_info(proc_str), Some((proc_name, pid)));
}

#[test]
fn parse_process_info_from_empty_string() {
    let proc_str = "";
    let scanner = SsScanner;
    assert_eq!(scanner.parse_process_info(proc_str), None);
}

#[test]
fn parse_process_info_invalid_structure() {
    let proc_str = "users:\"chromium\",pid=2440,fd=237";
    let scanner = SsScanner;
    assert_eq!(scanner.parse_process_info(proc_str), None);
}

#[test]
fn parse_process_info_invalid_pid() {
    let proc_str = "users:((\"chromium\",pid=abc,fd=237))";
    let scanner = SsScanner;
    assert_eq!(scanner.parse_process_info(proc_str), None);
}

#[test]
fn scanner_scan_ports_with_multiple_entries() {
    let scanner = SsScanner;
    let results = scanner.scan_ports(SAMPLE_SS_OUTPUT.to_string());
    assert_eq!(results.len(), 4);

    assert_eq!(results[0].proto, Proto::Udp);
    assert_eq!(results[0].local_address, "224.0.0.251:5353");
    assert_eq!(results[0].pid, 2440);
    assert_eq!(results[0].proc_name, "chromium");
    assert_eq!(results[0].state, Some("UNCONN".to_string()));

    assert_eq!(results[1].proto, Proto::Udp);
    assert_eq!(results[1].local_address, "224.0.0.251:5353");
    assert_eq!(results[1].pid, 2523);
    assert_eq!(results[1].proc_name, "chromium");
    assert_eq!(results[1].state, Some("UNCONN".to_string()));

    assert_eq!(results[2].proto, Proto::Tcp);
    assert_eq!(results[2].local_address, "127.0.0.1:3000");
    assert_eq!(results[2].pid, 27264);
    assert_eq!(results[2].proc_name, "ruby");
    assert_eq!(results[2].state, Some("LISTEN".to_string()));

    assert_eq!(results[3].proto, Proto::Tcp);
    assert_eq!(results[3].local_address, "[::1]:3000");
    assert_eq!(results[3].pid, 27264);
    assert_eq!(results[3].proc_name, "ruby");
    assert_eq!(results[3].state, Some("LISTEN".to_string()));
}

#[test]
fn lsof_scanner_scan_ports_with_multiple_entries() {
    let scanner = LsofScanner;
    let results = scanner.scan_ports(SAMPLE_LSOF_OUTPUT.to_string());
    assert_eq!(results.len(), 4);

    assert_eq!(results[0].proto, Proto::Udp);
    assert_eq!(results[0].local_address, "224.0.0.251:5353");
    assert_eq!(results[0].pid, 40269);
    assert_eq!(results[0].proc_name, "chromium");
    assert_eq!(results[0].state, Some("UNCONN".to_string()));

    assert_eq!(results[1].proto, Proto::Udp);
    assert_eq!(results[1].local_address, "224.0.0.251:5353");
    assert_eq!(results[1].pid, 40316);
    assert_eq!(results[1].proc_name, "chromium");
    assert_eq!(results[1].state, Some("UNCONN".to_string()));

    assert_eq!(results[2].proto, Proto::Tcp);
    assert_eq!(results[2].local_address, "127.0.0.1:3000");
    assert_eq!(results[2].pid, 75423);
    assert_eq!(results[2].proc_name, "bundle");
    assert_eq!(results[2].state, Some("LISTEN".to_string()));

    assert_eq!(results[3].proto, Proto::Tcp);
    assert_eq!(results[3].local_address, "[::1]:3000");
    assert_eq!(results[3].pid, 75423);
    assert_eq!(results[3].proc_name, "bundle");
    assert_eq!(results[3].state, Some("LISTEN".to_string()));
}

#[test]
fn extract_port_from_local_address() {
    assert_eq!(extract_port(""), None);
    assert_eq!(extract_port("224.0.0.251:5353"), Some(5353));
    assert_eq!(extract_port("[::1]:3000"), Some(3000));
    assert_eq!(extract_port("224.0.0.251:abcd"), None);
    assert_eq!(extract_port("invalid-address"), None);
}

#[test]
fn extract_port_follows_str_parse() {
    assert_eq!(extract_port("127.0.0.1:+80"), Some(80));
    assert_eq!(extract_port("127.0.0.1:0080"), Some(80));
    assert_eq!(extract_port("127.0.0.1:65535"), Some(65535));
    assert_eq!(extract_port("127.0.0.1:65536"), None);
    assert_eq!(extract_port("127.0.0.1:"), None);
    assert_eq!(extract_port("127.0.0.1:+"), None);
    assert_eq!(extract_port("127.0.0.1:-1"), None);
    assert_eq!(extract_port("*:*"), None);
}

#[test]
fn ss_scan_orders_by_port() {
    let mut scanner = SsScanner;
    assert!(scanner.can_scan(SAMPLE_SS_OUTPUT));
    let items = scanner.scan(SAMPLE_SS_OUTPUT.to_string());
    let ports: Vec<Option<u16>> = items.iter().map(|p| extract_port(&p.local_address)).collect();
    assert_eq!(ports, vec![Some(3000), Some(3000), Some(5353), Some(5353)]);
    // records with the same port keep the order of their lines
    assert_eq!(items[0].local_address, "127.0.0.1:3000");
    assert_eq!(items[1].local_address, "[::1]:3000");
    assert_eq!(items[2].pid, 2440);
    assert_eq!(items[3].pid, 2523);
}

#[test]
fn lsof_scan_orders_by_port_with_portless_first() {
    let output = "COMMAND PID USER FD TYPE DEVICE SIZE NODE NAME\n\
                  a 10 u 1u IPv4 1 0t0 TCP 127.0.0.1:8080 (LISTEN)\n\
                  b 11 u 1u IPv4 1 0t0 UDP *:*\n\
                  c 12 u 1u IPv4 1 0t0 TCP 127.0.0.1:22 (LISTEN)\n";
    let mut scanner = LsofScanner;
    assert!(scanner.can_scan(output));
    let items = scanner.scan(output.to_string());
    let names: Vec<&str> = items.iter().map(|p| p.proc_name.as_str()).collect();
    assert_eq!(names, vec!["b", "c", "a"]);
    assert_eq!(items[0].state, Some("UNCONN".to_string()));
}

#[test]
fn lsof_skips_short_lines_and_bad_pids() {
    let output = "a 10 u 1u IPv4 1 0t0 TCP\n\
                  b x1 u 1u IPv4 1 0t0 TCP 127.0.0.1:1 (LISTEN)\r\n\
                  c 7 u 1u IPv4 1 0t0 TCP 127.0.0.1:2\r\n";
    let items = LsofScanner.scan_ports(output.to_string());
    assert_eq!(items.len(), 1);
    assert_eq!(items[0].proc_name, "c");
    assert_eq!(items[0].local_address, "127.0.0.1:2");
    assert_eq!(items[0].proto, Proto::Tcp);
}

#[test]
fn ss_requires_a_process_column() {
    let scanner = SsScanner;
    assert!(!scanner.can_scan("tcp LISTEN users:((\"x\",pid=1,fd=2))\n"));
    assert!(scanner.can_scan(""));
    assert!(scanner.can_scan("Netid users:((\n"));
}

#[test]
fn parse_process_info_reads_first_pid() {
    let scanner = SsScanner;
    assert_eq!(
        scanner.parse_process_info("users:((\"nginx\",pid=10,fd=6),(\"nginx\",pid=11,fd=6))"),
        Some(("nginx".to_string(), 10))
    );
    assert_eq!(scanner.parse_process_info("users:((\"a\",pid=4294967296,fd=1))"), None);
}
