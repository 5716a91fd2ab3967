use unifi_tui::format::{format_network_speed, format_uptime};

#[test]
fn network_speed_units() {
    assert_eq!(format_network_speed(1_500_000_000), "1.50 Gbps");
    assert_eq!(format_network_speed(2_500_000), "2.50 Mbps");
    assert_eq!(format_network_speed(1_234), "1.23 Kbps");
    assert_eq!(format_network_speed(1_000), "1.00 Kbps");
    assert_eq!(format_network_speed(999_999), "1000.00 Kbps");
    assert_eq!(format_network_speed(999), "999 bps");
    assert_eq!(format_network_speed(0), "0 bps");
    assert_eq!(format_network_speed(-5), "-5 bps");
    assert_eq!(format_network_speed(i64::MIN), "-9223372036854775808 bps");
    assert_eq!(format_network_speed(i64::MAX), "9223372036.85 Gbps");
    assert_eq!(format_network_speed(12_345_678), "12.35 Mbps");
}

#[test]
fn uptime_as_clock() {
    assert_eq!(format_uptime(0), "00:00:00");
    assert_eq!(format_uptime(3_661), "01:01:01");
    assert_eq!(format_uptime(86_399), "23:59:59");
    assert_eq!(format_uptime(360_000), "100:00:00");
}
