use portwatch::types::Proto;

#[test]
fn proto_display() {
    assert_eq!(Proto::Tcp.to_string(), "TCP");
    assert_eq!(Proto::Udp.to_string(), "UDP");
}

#[test]
fn proto_display_with_width() {
    assert_eq!(format!("{:<6}", Proto::Tcp.to_string()), "TCP   ");
    assert_eq!(format!("{:>6}", Proto::Udp.to_string()), "   UDP");
}
