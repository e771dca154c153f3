use portwatch::scanner::{choose_scanner, extract_port, LsofScanner, ScannerKind};

#[test]
fn port_is_read_after_the_last_colon() {
    assert_eq!(extract_port("a:b:c:8080"), Some(8080));
    assert_eq!(extract_port("fe80::1%eth0:0"), Some(0));
    assert_eq!(extract_port(":1"), Some(1));
    assert_eq!(extract_port("127.0.0.1:53:x"), None);
}

#[test]
fn lsof_is_preferred_over_ss() {
    assert_eq!(choose_scanner(true, true), Some(ScannerKind::Lsof));
    assert_eq!(choose_scanner(true, false), Some(ScannerKind::Lsof));
    assert_eq!(choose_scanner(false, true), Some(ScannerKind::Ss));
    assert_eq!(choose_scanner(false, false), None);
}

#[test]
fn words_split_on_unicode_whitespace_like_std() {
    let separators = ["\t", " ", "\u{a0}", "\u{85}", "\u{1680}", "\u{2003}", "\u{202f}", "\u{3000}", "\u{b}\u{c}"];
    for sep in separators {
        let fields = ["proc", "77", "u", "1u", "IPv4", "1", "0t0", "TCP", "10.0.0.1:7000", "(LISTEN)"];
        let line = fields.join(sep);
        assert_eq!(line.split_whitespace().count(), fields.len());
        let items = LsofScanner.scan_ports(format!("{}\n", line));
        assert_eq!(items.len(), 1, "separator {:?}", sep);
        assert_eq!(items[0].proc_name, "proc");
        assert_eq!(items[0].pid, 77);
        assert_eq!(items[0].local_address, "10.0.0.1:7000");
    }
    // a character that is not whitespace does not separate words
    let line = "proc\u{200b}77 u 1u IPv4 1 0t0 TCP 10.0.0.1:7000";
    assert_eq!(LsofScanner.scan_ports(line.to_string()).len(), 0);
}

#[test]
fn lines_end_at_line_feeds_only() {
    // a carriage return not followed by a line feed does not end the line
    // (it only separates words), so this is one record, not two
    let out = "p 1 u 1u IPv4 1 0t0 TCP h:1\rq 2 u 1u IPv4 1 0t0 TCP h:2";
    let items = LsofScanner.scan_ports(out.to_string());
    assert_eq!(items.len(), 1);
    assert_eq!(items[0].proc_name, "p");
    assert_eq!(items[0].local_address, "h:1");
}

#[test]
fn listings_joined_at_a_line_break_scan_part_by_part() {
    let a = "COMMAND PID USER FD TYPE DEVICE SIZE NODE NAME\nruby 27264 u 6u IPv4 1 0t0 TCP 127.0.0.1:3000 (LISTEN)\n";
    let b = "nginx 900 u 6u IPv6 1 0t0 TCP [::1]:8080 (LISTEN)\nbad line\nsshd 1 u 3u IPv4 1 0t0 TCP *:22 (LISTEN)";
    let whole = LsofScanner.scan_ports(format!("{}{}", a, b));
    let mut parts = LsofScanner.scan_ports(a.to_string());
    parts.extend(LsofScanner.scan_ports(b.to_string()));
    assert_eq!(whole.len(), 3);
    assert_eq!(whole.len(), parts.len());
    for (w, p) in whole.iter().zip(parts.iter()) {
        assert_eq!(w.proc_name, p.proc_name);
        assert_eq!(w.pid, p.pid);
        assert_eq!(w.local_address, p.local_address);
        assert_eq!(w.proto, p.proto);
        assert_eq!(w.state, p.state);
    }
}
