use uart_console::console::{decimal_text, export_file_name, export_path, outgoing_payload, UartConsoleApp};
use uart_console::serial_port::SerialEvent;
use uart_console::settings::{LineEnding, Settings};

fn plain_settings() -> Settings {
    let mut s = Settings::default();
    s.show_timestamp = false;
    s
}

fn raw_of(app: &UartConsoleApp) -> Vec<String> {
    app.raw_log.clone()
}

#[test]
fn raw_history_keeps_latest_two() {
    let mut s = plain_settings();
    s.max_rows = 2;
    let mut app = UartConsoleApp::new(s);
    app.ingest_line("a".to_string());
    app.ingest_line("b".to_string());
    app.ingest_line("c".to_string());
    assert_eq!(raw_of(&app), vec!["b".to_string(), "c".to_string()]);
    let raws: Vec<String> = app.rows.iter().map(|r| r.raw.clone()).collect();
    assert_eq!(raws, vec!["b".to_string(), "c".to_string()]);
}

#[test]
fn history_cap_holds_for_many_caps() {
    for cap in 0..6usize {
        let mut s = plain_settings();
        s.max_rows = cap;
        let mut app = UartConsoleApp::new(s);
        let all: Vec<String> = (0..10).map(|i| format!("line{}", i)).collect();
        for l in &all {
            app.ingest_line(l.clone());
            assert!(app.raw_log.len() <= cap && app.rows.len() <= cap);
        }
        let expected: Vec<String> = all[all.len() - cap..].to_vec();
        assert_eq!(raw_of(&app), expected);
    }
}

#[test]
fn no_pattern_gives_single_column() {
    let mut app = UartConsoleApp::new(plain_settings());
    app.ingest_line("hello world".to_string());
    assert_eq!(app.rows[0].columns, vec!["hello world".to_string()]);
    assert!(app.rows[0].matched);
    assert_eq!(app.rows[0].timestamp, "");
}

#[test]
fn pattern_with_two_groups_extracts_columns() {
    let mut s = plain_settings();
    s.regex_pattern = r"T=(?<temp>[\d.]+),H=(?<hum>\d+)".to_string();
    let mut app = UartConsoleApp::new(s);
    assert_eq!(app.num_columns, 2);
    app.ingest_line("T=21.5,H=60".to_string());
    app.ingest_line("garbage".to_string());
    assert_eq!(app.rows[0].columns, vec!["21.5".to_string(), "60".to_string()]);
    assert!(app.rows[0].matched);
    assert_eq!(app.rows[1].columns, vec!["<no match>".to_string()]);
    assert!(!app.rows[1].matched);
}

#[test]
fn pattern_change_reparses_every_row() {
    let mut app = UartConsoleApp::new(plain_settings());
    app.ingest_line("v=1".to_string());
    app.ingest_line("nothing".to_string());
    app.ingest_line("v=22".to_string());
    let mut s = plain_settings();
    s.regex_pattern = r"v=(\d+)".to_string();
    app.apply_settings(s);
    assert_eq!(app.rows.len(), app.raw_log.len());
    let cols: Vec<Vec<String>> = app.rows.iter().map(|r| r.columns.clone()).collect();
    assert_eq!(
        cols,
        vec![vec!["1".to_string()], vec!["<no match>".to_string()], vec!["22".to_string()]]
    );
    let flags: Vec<bool> = app.rows.iter().map(|r| r.matched).collect();
    assert_eq!(flags, vec![true, false, true]);
    assert_eq!(raw_of(&app), vec!["v=1".to_string(), "nothing".to_string(), "v=22".to_string()]);
}

#[test]
fn bad_pattern_is_reported_and_ignored() {
    let mut s = plain_settings();
    s.regex_pattern = "(unclosed".to_string();
    let mut app = UartConsoleApp::new(s);
    assert!(app.status_is_error);
    assert!(app.status_msg.starts_with("Regex error: "));
    assert!(app.status_msg.len() > "Regex error: ".len());
    assert!(app.compiled_regex.is_none());
    app.ingest_line("(unclosed".to_string());
    assert_eq!(app.rows[0].columns, vec!["(unclosed".to_string()]);
}

#[test]
fn empty_record_never_enters_history() {
    let mut app = UartConsoleApp::new(plain_settings());
    app.ingest_line(String::new());
    assert!(app.raw_log.is_empty());
    assert!(app.rows.is_empty());
}

#[test]
fn timestamps_follow_setting() {
    let app = UartConsoleApp::new(Settings::default());
    let row = app.parse_line("x");
    assert_eq!(row.timestamp.len(), 12);
    assert_eq!(&row.timestamp[2..3], ":");
    assert_eq!(&row.timestamp[8..9], ".");
}

#[test]
fn column_headers_resolve_in_order() {
    let mut s = plain_settings();
    s.regex_pattern = r"(?<a>\d)(\d)(\d)".to_string();
    s.column_names = " First ".to_string();
    let app = UartConsoleApp::new(s);
    assert_eq!(app.column_header(0), "First");
    assert_eq!(app.column_header(1), "Col 2");
    assert_eq!(app.column_header(2), "Col 3");
    assert_eq!(app.column_header(41), "Col 42");
    let mut s = plain_settings();
    s.regex_pattern = r"(?<a>\d)(?<b>\d)".to_string();
    let app = UartConsoleApp::new(s);
    assert_eq!(app.column_header(0), "a");
    assert_eq!(app.column_header(1), "b");
}

#[test]
fn csv_export_text() {
    let mut s = plain_settings();
    s.regex_pattern = r"(?<x>\d+),(\d+)".to_string();
    s.column_names = "X".to_string();
    let mut app = UartConsoleApp::new(s);
    app.ingest_line("1,2".to_string());
    app.ingest_line("bad".to_string());
    assert_eq!(app.csv_text(), "X,Col 2\n1,2\n<no match>\n");
    let mut plain = UartConsoleApp::new(plain_settings());
    plain.ingest_line("a,b".to_string());
    assert_eq!(plain.csv_text(), "Data\na,b\n");
}

#[test]
fn csv_export_with_timestamps() {
    let mut app = UartConsoleApp::new(Settings::default());
    app.ingest_line("v".to_string());
    let text = app.csv_text();
    let lines: Vec<&str> = text.lines().collect();
    assert_eq!(lines[0], "Timestamp,Data");
    assert!(lines[1].ends_with(",v"));
    assert_eq!(lines[1].len(), 14);
}

#[test]
fn events_update_state() {
    let mut s = plain_settings();
    s.port_name = "COM3".to_string();
    s.baud_rate = 9600;
    let mut app = UartConsoleApp::new(s);
    app.handle_event(SerialEvent::Connected);
    assert!(app.serial.is_connected);
    assert_eq!(app.status_msg, "Connected to COM3 @ 9600 baud");
    app.handle_event(SerialEvent::Data("r1".to_string()));
    assert_eq!(raw_of(&app), vec!["r1".to_string()]);
    app.handle_event(SerialEvent::Error("Write error: busy".to_string()));
    assert!(app.serial.is_connected);
    assert!(app.status_is_error);
    assert_eq!(app.status_msg, "Write error: busy");
    app.handle_event(SerialEvent::Disconnected);
    assert!(!app.serial.is_connected);
    assert_eq!(app.status_msg, "Disconnected");
    assert!(!app.status_is_error);
}

#[test]
fn reconnect_only_on_port_or_baud_change() {
    let mut s = plain_settings();
    s.port_name = "COM1".to_string();
    let mut app = UartConsoleApp::new(s);
    let mut other = plain_settings();
    other.port_name = "COM2".to_string();
    assert!(!app.needs_reconnect(&other));
    app.serial.is_connected = true;
    assert!(app.needs_reconnect(&other));
    let mut same = plain_settings();
    same.port_name = "COM1".to_string();
    same.regex_pattern = "(x)".to_string();
    same.tx_line_ending = LineEnding::LF;
    assert!(!app.needs_reconnect(&same));
    same.baud_rate = 9600;
    assert!(app.needs_reconnect(&same));
}

#[test]
fn clear_and_send() {
    let mut app = UartConsoleApp::new(plain_settings());
    app.ingest_line("q".to_string());
    app.clear_data();
    assert!(app.rows.is_empty() && app.raw_log.is_empty());
    app.send_input = "AT".to_string();
    app.send_input();
    assert!(app.send_input.is_empty());
    app.disconnect();
    assert_eq!(app.status_msg, "Disconnected");
}

#[test]
fn payload_and_names() {
    assert_eq!(outgoing_payload("AT", LineEnding::CrLf), b"AT\r\n".to_vec());
    assert_eq!(outgoing_payload("é", LineEnding::NoEnding), "é".as_bytes().to_vec());
    assert_eq!(outgoing_payload("", LineEnding::CR), b"\r".to_vec());
    assert_eq!(decimal_text(0), "0");
    assert_eq!(decimal_text(115200), "115200");
    assert_eq!(export_file_name("20240101_120000"), "uart_export_20240101_120000.csv");
    let p = export_path();
    assert!(p.starts_with("uart_export_") && p.ends_with(".csv"));
    assert_eq!(p.len(), "uart_export_".len() + 15 + 4);
}

#[test]
fn events_are_applied_in_order() {
    let mut s = plain_settings();
    s.max_rows = 3;
    let mut app = UartConsoleApp::new(s);
    app.ingest_line("old".to_string());
    app.handle_events(vec![
        SerialEvent::Connected,
        SerialEvent::Data("a".to_string()),
        SerialEvent::Data(String::new()),
        SerialEvent::Error("Write error: x".to_string()),
        SerialEvent::Data("b".to_string()),
        SerialEvent::Data("c".to_string()),
        SerialEvent::Disconnected,
        SerialEvent::Connected,
    ]);
    assert_eq!(raw_of(&app), vec!["a".to_string(), "b".to_string(), "c".to_string()]);
    assert!(app.serial.is_connected);
    assert_eq!(app.rows.len(), 3);
}

#[test]
fn polling_with_nothing_queued_changes_nothing() {
    let mut app = UartConsoleApp::new(plain_settings());
    app.ingest_line("kept".to_string());
    app.poll_serial_events();
    assert_eq!(raw_of(&app), vec!["kept".to_string()]);
    assert!(!app.serial.is_connected);
}

#[test]
fn parse_line_counts_one_column_per_group() {
    let mut s = plain_settings();
    s.regex_pattern = r"(a)(b)?(?:c)(d)".to_string();
    let app = UartConsoleApp::new(s);
    let row = app.parse_line("acd");
    assert!(row.matched);
    assert_eq!(row.columns, vec!["a".to_string(), String::new(), "d".to_string()]);
    assert_eq!(row.columns.len(), app.num_columns);
}
