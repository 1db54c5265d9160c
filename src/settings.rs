use vstd::prelude::*;

use crate::matcher::{columns_of_groups, compile_error_text, pattern_captures, pattern_compiles, RecordMatcher};
use crate::text::{comma_pieces, joined, join_texts, split_trimmed, texts, trim_text, trimmed};

verus! {

/// Number of data bits per character.
#[derive(Debug, Clone, Copy, PartialEq, Eq, Structural)]
pub enum AppDataBits {
    Five,
    Six,
    Seven,
    Eight,
}

impl AppDataBits {
    /// The text shown for this choice.
    pub open spec fn label_text(self) -> Seq<char> {
        match self {
            AppDataBits::Five => "5"@,
            AppDataBits::Six => "6"@,
            AppDataBits::Seven => "7"@,
            AppDataBits::Eight => "8"@,
        }
    }

    /// The text shown for this choice.
    pub fn label(&self) -> (r: &'static str)
        ensures
            r@ == self.label_text(),
    {
        match self {
            AppDataBits::Five => "5",
            AppDataBits::Six => "6",
            AppDataBits::Seven => "7",
            AppDataBits::Eight => "8",
        }
    }

    /// Every choice, in menu order.
    pub fn all() -> (r: &'static [AppDataBits])
        ensures
            r@ == seq![AppDataBits::Five, AppDataBits::Six, AppDataBits::Seven, AppDataBits::Eight],
    {
        let r: &'static [AppDataBits] = &[AppDataBits::Five, AppDataBits::Six, AppDataBits::Seven, AppDataBits::Eight];
        assert(r@ =~= seq![AppDataBits::Five, AppDataBits::Six, AppDataBits::Seven, AppDataBits::Eight]);
        r
    }
}

/// Number of stop bits.
#[derive(Debug, Clone, Copy, PartialEq, Eq, Structural)]
pub enum AppStopBits {
    One,
    Two,
}

impl AppStopBits {
    /// The text shown for this choice.
    pub open spec fn label_text(self) -> Seq<char> {
        match self {
            AppStopBits::One => "1"@,
            AppStopBits::Two => "2"@,
        }
    }

    /// The text shown for this choice.
    pub fn label(&self) -> (r: &'static str)
        ensures
            r@ == self.label_text(),
    {
        match self {
            AppStopBits::One => "1",
            AppStopBits::Two => "2",
        }
    }

    /// Every choice, in menu order.
    pub fn all() -> (r: &'static [AppStopBits])
        ensures
            r@ == seq![AppStopBits::One, AppStopBits::Two],
    {
        let r: &'static [AppStopBits] = &[AppStopBits::One, AppStopBits::Two];
        assert(r@ =~= seq![AppStopBits::One, AppStopBits::Two]);
        r
    }
}

/// Parity checking.
#[derive(Debug, Clone, Copy, PartialEq, Eq, Structural)]
pub enum AppParity {
    NoParity,
    Odd,
    Even,
}

impl AppParity {
    /// The text shown for this choice.
    pub open spec fn label_text(self) -> Seq<char> {
        match self {
            AppParity::NoParity => "None"@,
            AppParity::Odd => "Odd"@,
            AppParity::Even => "Even"@,
        }
    }

    /// The text shown for this choice.
    pub fn label(&self) -> (r: &'static str)
        ensures
            r@ == self.label_text(),
    {
        match self {
            AppParity::NoParity => "None",
            AppParity::Odd => "Odd",
            AppParity::Even => "Even",
        }
    }

    /// Every choice, in menu order.
    pub fn all() -> (r: &'static [AppParity])
        ensures
            r@ == seq![AppParity::NoParity, AppParity::Odd, AppParity::Even],
    {
        let r: &'static [AppParity] = &[AppParity::NoParity, AppParity::Odd, AppParity::Even];
        assert(r@ =~= seq![AppParity::NoParity, AppParity::Odd, AppParity::Even]);
        r
    }
}

/// Flow control.
#[derive(Debug, Clone, Copy, PartialEq, Eq, Structural)]
pub enum AppFlowControl {
    NoFlowControl,
    Software,
    Hardware,
}

impl AppFlowControl {
    /// The text shown for this choice.
    pub open spec fn label_text(self) -> Seq<char> {
        match self {
            AppFlowControl::NoFlowControl => "None"@,
            AppFlowControl::Software => "XON/XOFF"@,
            AppFlowControl::Hardware => "RTS/CTS"@,
        }
    }

    /// The text shown for this choice.
    pub fn label(&self) -> (r: &'static str)
        ensures
            r@ == self.label_text(),
    {
        match self {
            AppFlowControl::NoFlowControl => "None",
            AppFlowControl::Software => "XON/XOFF",
            AppFlowControl::Hardware => "RTS/CTS",
        }
    }

    /// Every choice, in menu order.
    pub fn all() -> (r: &'static [AppFlowControl])
        ensures
            r@ == seq![AppFlowControl::NoFlowControl, AppFlowControl::Software, AppFlowControl::Hardware],
    {
        let r: &'static [AppFlowControl] = &[AppFlowControl::NoFlowControl, AppFlowControl::Software, AppFlowControl::Hardware];
        assert(r@ =~= seq![AppFlowControl::NoFlowControl, AppFlowControl::Software, AppFlowControl::Hardware]);
        r
    }
}

/// Delimiter policy, used both for framing received bytes and as the
/// terminator appended to every outgoing payload.
#[derive(Debug, Clone, Copy, PartialEq, Eq, Structural)]
pub enum LineEnding {
    NoEnding,
    CR,
    LF,
    CrLf,
}

/// The bytes that make up the terminator of a policy.
pub open spec fn terminator(e: LineEnding) -> Seq<u8> {
    match e {
        LineEnding::NoEnding => seq![],
        LineEnding::CR => seq![13u8],
        LineEnding::LF => seq![10u8],
        LineEnding::CrLf => seq![13u8, 10u8],
    }
}

impl LineEnding {
    /// The terminator's bytes.
    pub fn as_bytes(&self) -> (r: &'static [u8])
        ensures
            r@ == terminator(*self),
    {
        let r: &'static [u8] = match self {
            LineEnding::NoEnding => &[],
            LineEnding::CR => &[13u8],
            LineEnding::LF => &[10u8],
            LineEnding::CrLf => &[13u8, 10u8],
        };
        assert(r@ =~= terminator(*self));
        r
    }

    /// The text shown for this choice.
    pub open spec fn label_text(self) -> Seq<char> {
        match self {
            LineEnding::NoEnding => "None"@,
            LineEnding::CR => "CR (\\r)"@,
            LineEnding::LF => "LF (\\n)"@,
            LineEnding::CrLf => "CRLF (\\r\\n)"@,
        }
    }

    /// The text shown for this choice.
    pub fn label(&self) -> (r: &'static str)
        ensures
            r@ == self.label_text(),
    {
        match self {
            LineEnding::NoEnding => "None",
            LineEnding::CR => "CR (\\r)",
            LineEnding::LF => "LF (\\n)",
            LineEnding::CrLf => "CRLF (\\r\\n)",
        }
    }

    /// Every choice, in menu order.
    pub fn all() -> (r: &'static [LineEnding])
        ensures
            r@ == seq![LineEnding::NoEnding, LineEnding::CR, LineEnding::LF, LineEnding::CrLf],
    {
        let r: &'static [LineEnding] = &[LineEnding::NoEnding, LineEnding::CR, LineEnding::LF, LineEnding::CrLf];
        assert(r@ =~= seq![LineEnding::NoEnding, LineEnding::CR, LineEnding::LF, LineEnding::CrLf]);
        r
    }
}


/// Connection, framing and parsing configuration.
pub struct Settings {
    pub port_name: String,
    pub baud_rate: u32,
    pub data_bits: AppDataBits,
    pub stop_bits: AppStopBits,
    pub parity: AppParity,
    pub flow_control: AppFlowControl,
    pub regex_pattern: String,
    pub column_names: String,
    pub max_rows: usize,
    pub show_timestamp: bool,
    pub rx_line_ending: LineEnding,
    pub tx_line_ending: LineEnding,
}

impl Default for Settings {
    fn default() -> (r: Settings)
        ensures
            r.port_name@.len() == 0,
            r.baud_rate == 115200,
            r.data_bits == AppDataBits::Eight,
            r.stop_bits == AppStopBits::One,
            r.parity == AppParity::NoParity,
            r.flow_control == AppFlowControl::NoFlowControl,
            r.regex_pattern@.len() == 0,
            r.column_names@.len() == 0,
            r.max_rows == 2000,
            r.show_timestamp,
            r.rx_line_ending == LineEnding::LF,
            r.tx_line_ending == LineEnding::CrLf,
    {
        Settings {
            port_name: String::new(),
            baud_rate: 115200,
            data_bits: AppDataBits::Eight,
            stop_bits: AppStopBits::One,
            parity: AppParity::NoParity,
            flow_control: AppFlowControl::NoFlowControl,
            regex_pattern: String::new(),
            column_names: String::new(),
            max_rows: 2000,
            show_timestamp: true,
            rx_line_ending: LineEnding::LF,
            tx_line_ending: LineEnding::CrLf,
        }
    }
}

/// The explicit column names configured in `names`: none when it is blank,
/// else each comma-separated piece, trimmed.
pub open spec fn column_name_list(names: Seq<char>) -> Seq<Seq<char>> {
    if trimmed(names).len() == 0 {
        seq![]
    } else {
        comma_pieces(names).map_values(|p: Seq<char>| trimmed(p))
    }
}

impl Settings {
    /// A copy with every field equal.
    pub fn copied(&self) -> (r: Settings)
        ensures
            r == *self,
    {
        Settings {
            port_name: self.port_name.clone(),
            baud_rate: self.baud_rate,
            data_bits: self.data_bits,
            stop_bits: self.stop_bits,
            parity: self.parity,
            flow_control: self.flow_control,
            regex_pattern: self.regex_pattern.clone(),
            column_names: self.column_names.clone(),
            max_rows: self.max_rows,
            show_timestamp: self.show_timestamp,
            rx_line_ending: self.rx_line_ending,
            tx_line_ending: self.tx_line_ending,
        }
    }

    /// The explicit column names, in order.
    pub fn column_names_list(&self) -> (r: Vec<String>)
        ensures
            texts(r@) == column_name_list(self.column_names@),
    {
        let whole = trim_text(self.column_names.as_str());
        if whole.as_str().is_empty() {
            let r: Vec<String> = Vec::new();
            assert(texts(r@) =~= Seq::<Seq<char>>::empty());
            r
        } else {
            split_trimmed(self.column_names.as_str())
        }
    }
}

/// What the pattern test of the settings window shows for a match.
pub open spec fn match_report(cols: Seq<Seq<char>>) -> Seq<char> {
    "Match: ["@ + joined(cols, "] ["@) + "]"@
}

/// State of the settings editor.
pub struct SettingsWindow {
    pub edit: Settings,
    pub is_open: bool,
    pub available_ports: Vec<String>,
    pub test_input: String,
    pub test_result: String,
    pub regex_error: String,
    pub custom_baud: String,
    pub show_custom_baud: bool,
}

impl SettingsWindow {
    /// A closed editor holding a copy of `settings`.
    pub fn new(settings: &Settings) -> (r: SettingsWindow)
        ensures
            r.edit == *settings,
            !r.is_open,
            r.available_ports@.len() == 0,
            r.test_input@.len() == 0,
            r.test_result@.len() == 0,
            r.regex_error@.len() == 0,
            r.custom_baud@.len() == 0,
            !r.show_custom_baud,
    {
        SettingsWindow {
            edit: settings.copied(),
            is_open: false,
            available_ports: Vec::new(),
            test_input: String::new(),
            test_result: String::new(),
            regex_error: String::new(),
            custom_baud: String::new(),
            show_custom_baud: false,
        }
    }

    /// Opens the editor on a fresh copy of `settings`, clearing the pattern
    /// diagnostics. The list of ports is refreshed by the caller.
    pub fn open(&mut self, settings: &Settings)
        ensures
            final(self).edit == *settings,
            final(self).is_open,
            final(self).regex_error@.len() == 0,
            final(self).test_result@.len() == 0,
            final(self).available_ports == old(self).available_ports,
            final(self).test_input == old(self).test_input,
            final(self).custom_baud == old(self).custom_baud,
            final(self).show_custom_baud == old(self).show_custom_baud,
    {
        self.edit = settings.copied();
        self.is_open = true;
        self.regex_error = String::new();
        self.test_result = String::new();
    }

    /// Checks the edited pattern and, when it compiles and a test input is
    /// given, reports what it extracts from that input.
    pub fn validate_regex(&mut self)
        ensures
            final(self).edit == old(self).edit,
            final(self).test_input == old(self).test_input,
            old(self).edit.regex_pattern@.len() == 0 ==> {
                &&& final(self).regex_error@.len() == 0
                &&& final(self).test_result@.len() == 0
            },
            old(self).edit.regex_pattern@.len() > 0 && !pattern_compiles(old(self).edit.regex_pattern@)
                ==> {
                &&& final(self).regex_error@ == "Regex error: "@ + compile_error_text(old(self).edit.regex_pattern@)
                &&& final(self).test_result@.len() == 0
            },
            old(self).edit.regex_pattern@.len() > 0 && pattern_compiles(old(self).edit.regex_pattern@)
                ==> {
                &&& final(self).regex_error@.len() == 0
                &&& old(self).test_input@.len() == 0 ==> final(self).test_result == old(self).test_result
                &&& old(self).test_input@.len() > 0 ==> final(self).test_result@ == match pattern_captures(
                    old(self).edit.regex_pattern@,
                    old(self).test_input@,
                ) {
                    Some(g) => match_report(columns_of_groups(g)),
                    None => "No match"@,
                }
            },
    {
        if self.edit.regex_pattern.as_str().is_empty() {
            self.regex_error = String::new();
            self.test_result = String::new();
            return;
        }
        match RecordMatcher::new(&self.edit.regex_pattern) {
            Ok(m) => {
                self.regex_error = String::new();
                if !self.test_input.as_str().is_empty() {
                    match m.columns(self.test_input.as_str()) {
                        Some(cols) => {
                            let mut report = String::from_str("Match: [");
                            let inner = join_texts(&cols, "] [");
                            report.append(inner.as_str());
                            report.append("]");
                            self.test_result = report;
                        },
                        None => {
                            self.test_result = String::from_str("No match");
                        },
                    }
                }
            },
            Err(msg) => {
                self.regex_error = msg;
                self.test_result = String::new();
            },
        }
    }
}

} // verus!
