use port_sniffer::report::{decimal_string, open_port_line, result_row};
use port_sniffer::result::PortResult;

#[test]
fn decimal_digits() {
    assert_eq!(decimal_string(0), "0");
    assert_eq!(decimal_string(7), "7");
    assert_eq!(decimal_string(10), "10");
    assert_eq!(decimal_string(1024), "1024");
    assert_eq!(decimal_string(65535), "65535");
}

#[test]
fn terminal_lines() {
    assert_eq!(open_port_line(&PortResult::new(22, true)), "22 is open - SSH");
    assert_eq!(open_port_line(&PortResult::new(8, true)), "8 is open");
    assert_eq!(open_port_line(&PortResult::new(993, true)), "993 is open - IMAPS");
}

#[test]
fn result_rows() {
    assert_eq!(result_row(&PortResult::new(80, true)), "Port: 80, Status: open, Service: HTTP");
    assert_eq!(result_row(&PortResult::new(1024, true)), "Port: 1024, Status: open, Service: -");
}
