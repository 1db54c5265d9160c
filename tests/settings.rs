use uart_console::matcher::{extract_columns, RecordMatcher};
use uart_console::settings::{
    AppDataBits, AppFlowControl, AppParity, AppStopBits, LineEnding, Settings, SettingsWindow,
};
use uart_console::text::{join_texts, split_trimmed};

#[test]
fn labels_and_choices() {
    assert_eq!(AppDataBits::all(), &[AppDataBits::Five, AppDataBits::Six, AppDataBits::Seven, AppDataBits::Eight]);
    assert_eq!(AppDataBits::Seven.label(), "7");
    assert_eq!(AppStopBits::all(), &[AppStopBits::One, AppStopBits::Two]);
    assert_eq!(AppStopBits::Two.label(), "2");
    assert_eq!(AppParity::all().len(), 3);
    assert_eq!(AppParity::NoParity.label(), "None");
    assert_eq!(AppParity::Even.label(), "Even");
    assert_eq!(AppFlowControl::Software.label(), "XON/XOFF");
    assert_eq!(AppFlowControl::Hardware.label(), "RTS/CTS");
    assert_eq!(AppFlowControl::all().len(), 3);
    assert_eq!(LineEnding::all(), &[LineEnding::NoEnding, LineEnding::CR, LineEnding::LF, LineEnding::CrLf]);
    assert_eq!(LineEnding::CrLf.label(), "CRLF (\\r\\n)");
    assert_eq!(LineEnding::CrLf.as_bytes(), b"\r\n");
    assert_eq!(LineEnding::CR.as_bytes(), b"\r");
    assert_eq!(LineEnding::LF.as_bytes(), b"\n");
    assert!(LineEnding::NoEnding.as_bytes().is_empty());
}

#[test]
fn default_settings() {
    let s = Settings::default();
    assert_eq!(s.baud_rate, 115200);
    assert_eq!(s.max_rows, 2000);
    assert_eq!(s.data_bits, AppDataBits::Eight);
    assert_eq!(s.rx_line_ending, LineEnding::LF);
    assert_eq!(s.tx_line_ending, LineEnding::CrLf);
    assert!(s.show_timestamp);
    assert!(s.port_name.is_empty());
}

#[test]
fn column_names_parsing() {
    let mut s = Settings::default();
    s.column_names = "  Temp , Hum,,Press ".to_string();
    assert_eq!(
        s.column_names_list(),
        vec!["Temp".to_string(), "Hum".to_string(), String::new(), "Press".to_string()]
    );
    s.column_names = "   ".to_string();
    assert!(s.column_names_list().is_empty());
    s.column_names = "\u{3000}X\u{A0},\tY\n".to_string();
    assert_eq!(s.column_names_list(), vec!["X".to_string(), "Y".to_string()]);
    s.column_names = "one".to_string();
    assert_eq!(s.column_names_list(), vec!["one".to_string()]);
}

#[test]
fn text_helpers() {
    assert_eq!(split_trimmed("  a b \t"), vec!["a b".to_string()]);
    assert_eq!(split_trimmed(" x ,y"), vec!["x".to_string(), "y".to_string()]);
    assert_eq!(split_trimmed(""), vec![String::new()]);
    assert_eq!(join_texts(&vec!["1".to_string(), "2".to_string(), "3".to_string()], "] ["), "1] [2] [3");
    assert_eq!(join_texts(&vec![], ","), "");
}

#[test]
fn matcher_columns() {
    let m = RecordMatcher::new(&r"(\w)(\d)?(\w)".to_string()).ok().unwrap();
    assert_eq!(m.columns("AZ"), Some(vec!["A".to_string(), String::new(), "Z".to_string()]));
    assert_eq!(m.columns("!"), None);
    assert_eq!(m.group_names(), vec![None, None, None]);
    assert_eq!(m.pattern(), r"(\w)(\d)?(\w)");
    let err = RecordMatcher::new(&"[".to_string()).err().unwrap();
    assert!(err.starts_with("Regex error: ") && err.len() > 13);
    assert_eq!(
        extract_columns(&vec![Some("all".to_string()), None, Some("b".to_string())]),
        vec![String::new(), "b".to_string()]
    );
    assert!(extract_columns(&vec![]).is_empty());
}

#[test]
fn settings_window_validation() {
    let mut s = Settings::default();
    s.regex_pattern = r"T=([\d.]+),H=(\d+)".to_string();
    let mut w = SettingsWindow::new(&s);
    assert!(!w.is_open);
    w.test_input = "T=21.5,H=60".to_string();
    w.validate_regex();
    assert_eq!(w.test_result, "Match: [21.5] [60]");
    assert!(w.regex_error.is_empty());
    w.test_input = "garbage".to_string();
    w.validate_regex();
    assert_eq!(w.test_result, "No match");
    w.edit.regex_pattern = "(".to_string();
    w.validate_regex();
    assert!(w.regex_error.starts_with("Regex error: "));
    assert!(w.regex_error.len() > "Regex error: ".len());
    assert!(w.test_result.is_empty());
    w.edit.regex_pattern = String::new();
    w.validate_regex();
    assert!(w.regex_error.is_empty());
    let mut other = Settings::default();
    other.port_name = "COM9".to_string();
    w.open(&other);
    assert!(w.is_open);
    assert_eq!(w.edit.port_name, "COM9");
}
