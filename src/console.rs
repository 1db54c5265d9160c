use vstd::prelude::*;
use vstd::string::StringSliceAdditionalSpecFns;

use crate::matcher::{columns_of_groups, compile_error_text, opt_texts, pattern_captures, pattern_compiles, pattern_group_names, RecordMatcher};
use crate::serial_port::{SerialEvent, SerialPortManager};
use crate::settings::{column_name_list, terminator, Settings, SettingsWindow};
use crate::text::{joined, join_texts, lemma_texts_push, texts};

verus! {

/// One received record after parsing.
pub struct DataRow {
    pub timestamp: String,
    pub raw: String,
    pub columns: Vec<String>,
    pub matched: bool,
}

/// The text that stands in the single column of a row the pattern rejected.
pub open spec fn no_match_text() -> Seq<char> {
    "<no match>"@
}

/// The columns of the row for `raw` under the active pattern `pattern`.
pub open spec fn row_columns(pattern: Option<Seq<char>>, raw: Seq<char>) -> Seq<Seq<char>> {
    match pattern {
        None => seq![raw],
        Some(p) => match pattern_captures(p, raw) {
            Some(g) => columns_of_groups(g),
            None => seq![no_match_text()],
        },
    }
}

/// Whether the row for `raw` counts as matched under `pattern`.
pub open spec fn row_matched(pattern: Option<Seq<char>>, raw: Seq<char>) -> bool {
    match pattern {
        None => true,
        Some(p) => pattern_captures(p, raw) is Some,
    }
}

/// `row` is what parsing its own raw text gives under `pattern`.
pub open spec fn row_fits(row: DataRow, pattern: Option<Seq<char>>, stamped: bool) -> bool {
    &&& texts(row.columns@) == row_columns(pattern, row.raw@)
    &&& row.matched == row_matched(pattern, row.raw@)
    &&& !stamped ==> row.timestamp@.len() == 0
}

/// The row and raw histories agree entry by entry, hold no empty record,
/// and each row is what parsing its raw text gives under `pattern`.
pub open spec fn histories_agree(rows: Seq<DataRow>, raws: Seq<String>, pattern: Option<Seq<char>>, stamped: bool) -> bool {
    &&& rows.len() == raws.len()
    &&& forall|i: int|
        #![trigger rows[i]]
        0 <= i < rows.len() ==> {
            &&& rows[i].raw@ == raws[i]@
            &&& raws[i]@.len() > 0
            &&& row_fits(rows[i], pattern, stamped)
        }
}

/// The last `n` entries of `s` (all of them when there are fewer).
pub open spec fn keep_last<A>(s: Seq<A>, n: nat) -> Seq<A> {
    if s.len() <= n {
        s
    } else {
        s.subrange(s.len() - n, s.len() as int)
    }
}

/// Decimal digit `d`.
pub open spec fn digit(d: nat) -> char {
    if d == 0 { '0' } else if d == 1 { '1' } else if d == 2 { '2' } else if d == 3 { '3' }
    else if d == 4 { '4' } else if d == 5 { '5' } else if d == 6 { '6' } else if d == 7 { '7' }
    else if d == 8 { '8' } else { '9' }
}

/// Decimal notation of `n`.
pub open spec fn decimal(n: nat) -> Seq<char>
    decreases n,
{
    if n < 10 {
        seq![digit(n)]
    } else {
        decimal(n / 10).push(digit(n % 10))
    }
}

fn digit_text(d: u64) -> (r: &'static str)
    requires
        d < 10,
    ensures
        r@ == seq![digit(d as nat)],
{
    proof {
        reveal_strlit("0");
        reveal_strlit("1");
        reveal_strlit("2");
        reveal_strlit("3");
        reveal_strlit("4");
        reveal_strlit("5");
        reveal_strlit("6");
        reveal_strlit("7");
        reveal_strlit("8");
        reveal_strlit("9");
    }
    let r = if d == 0 { "0" } else if d == 1 { "1" } else if d == 2 { "2" } else if d == 3 { "3" }
    else if d == 4 { "4" } else if d == 5 { "5" } else if d == 6 { "6" } else if d == 7 { "7" }
    else if d == 8 { "8" } else { "9" };
    assert(r@ =~= seq![digit(d as nat)]);
    r
}

/// Decimal notation of `n`.
pub fn decimal_text(n: u64) -> (r: String)
    ensures
        r@ == decimal(n as nat),
    decreases n,
{
    if n < 10 {
        String::from_str(digit_text(n))
    } else {
        let mut r = decimal_text(n / 10);
        r.append(digit_text(n % 10));
        assert(r@ =~= decimal(n as nat));
        r
    }
}

/// The header of column `idx`: the configured name if there is one, else the
/// pattern's name for that group, else a positional label counted from one.
pub open spec fn header_label(idx: nat, explicit: Seq<Seq<char>>, derived: Option<Seq<Option<Seq<char>>>>) -> Seq<char> {
    if idx < explicit.len() {
        explicit[idx as int]
    } else if derived is Some && idx < derived->Some_0.len() && derived->Some_0[idx as int] is Some {
        derived->Some_0[idx as int]->Some_0
    } else {
        "Col "@ + decimal(idx + 1)
    }
}

/// The lines of a text file: each line followed by a newline.
pub open spec fn lines_text(lines: Seq<Seq<char>>) -> Seq<char>
    decreases lines.len(),
{
    if lines.len() == 0 {
        seq![]
    } else {
        lines_text(lines.drop_last()) + lines.last() + "\n"@
    }
}

/// The cells of `row` in an export.
pub open spec fn row_cells(row: DataRow, stamped: bool) -> Seq<Seq<char>> {
    (if stamped { seq![row.timestamp@] } else { seq![] }) + texts(row.columns@)
}

/// The labels a pattern gives to the columns, if a pattern is active.
pub open spec fn derived_labels(pattern: Option<Seq<char>>) -> Option<Seq<Option<Seq<char>>>> {
    match pattern {
        Some(p) => Some(pattern_group_names(p).drop_first()),
        None => None,
    }
}

/// The text of an export: the header line, then one line per row.
pub open spec fn csv_document(header: Seq<Seq<char>>, rows: Seq<DataRow>, stamped: bool) -> Seq<char> {
    lines_text(
        seq![joined(header, ","@)] + rows.map_values(|r: DataRow| joined(row_cells(r, stamped), ","@)),
    )
}

/// Relies on `chrono::Local::now` and `DelayedFormat`: the local time now,
/// written with the strftime-style `fmt`. Only the two formats below are
/// used; both are valid, so formatting cannot fail, and both print digits
/// for every field, so the text is never empty and keeps its literal `_`.
#[verifier::external_body]
fn local_time_text(fmt: &str) -> (r: String)
    requires
        fmt@ == "%H:%M:%S%.3f"@ || fmt@ == "%Y%m%d_%H%M%S"@,
    ensures
        r@.len() > 0,
        fmt@ == "%Y%m%d_%H%M%S"@ ==> r@.contains('_'),
{
    chrono::Local::now().format(fmt).to_string()
}

/// The bytes sent for the typed `text`: its UTF-8 encoding, then the terminator.
pub fn outgoing_payload(text: &str, ending: crate::settings::LineEnding) -> (r: Vec<u8>)
    ensures
        r@ == text.spec_bytes() + terminator(ending),
{
    let mut data = vstd::slice::slice_to_vec(text.as_bytes());
    let mut tail = vstd::slice::slice_to_vec(ending.as_bytes());
    data.append(&mut tail);
    assert(data@ =~= text.spec_bytes() + terminator(ending));
    data
}

/// The name of the export file written at the time `stamp`.
pub fn export_file_name(stamp: &str) -> (r: String)
    ensures
        r@ == "uart_export_"@ + stamp@ + ".csv"@,
{
    let mut r = String::from_str("uart_export_");
    r.append(stamp);
    r.append(".csv");
    r
}

/// The name of an export file written now.
pub fn export_path() -> (r: String)
    ensures
        exists|stamp: Seq<char>|
            stamp.len() > 0 && stamp.contains('_') && r@ == "uart_export_"@ + stamp + ".csv"@,
{
    let stamp = local_time_text("%Y%m%d_%H%M%S");
    export_file_name(stamp.as_str())
}

/// The console: settings, the serial connection, and the parsed history.
pub struct UartConsoleApp {
    pub settings: Settings,
    pub settings_win: SettingsWindow,
    pub serial: SerialPortManager,
    pub rows: Vec<DataRow>,
    pub raw_log: Vec<String>,
    pub compiled_regex: Option<RecordMatcher>,
    pub send_input: String,
    pub auto_scroll: bool,
    pub show_raw: bool,
    pub status_msg: String,
    pub status_is_error: bool,
    pub num_columns: usize,
}

impl UartConsoleApp {
    /// The pattern rows are parsed with, if any.
    pub open spec fn active(self) -> Option<Seq<char>> {
        match self.compiled_regex {
            Some(m) => Some(m.source()),
            None => None,
        }
    }

    /// The pattern that `pattern` text makes active: none when it is empty or
    /// does not compile.
    pub open spec fn pattern_for(pattern: Seq<char>) -> Option<Seq<char>> {
        if pattern.len() == 0 || !pattern_compiles(pattern) {
            None
        } else {
            Some(pattern)
        }
    }

    /// The two histories agree entry by entry, hold no empty record, and each
    /// row is what parsing its raw text gives under the active pattern.
    pub open spec fn wf(self) -> bool {
        histories_agree(self.rows@, self.raw_log@, self.active(), self.settings.show_timestamp)
    }

    /// A console on `settings`, disconnected, with empty histories.
    pub fn new(settings: Settings) -> (r: UartConsoleApp)
        ensures
            r.wf(),
            r.settings == settings,
            r.settings_win.edit == settings,
            r.rows@.len() == 0,
            r.active() == Self::pattern_for(settings.regex_pattern@),
            r.active() matches Some(p) ==> r.num_columns == pattern_group_names(p).len() - 1,
            r.active() is None ==> r.num_columns == 0,
            !r.serial.is_connected,
    {
        let settings_win = SettingsWindow::new(&settings);
        let mut app = UartConsoleApp {
            settings: Settings::default(),
            settings_win,
            serial: SerialPortManager::new(),
            rows: Vec::new(),
            raw_log: Vec::new(),
            compiled_regex: None,
            send_input: String::new(),
            auto_scroll: true,
            show_raw: false,
            status_msg: String::from_str("Disconnected"),
            status_is_error: false,
            num_columns: 0,
        };
        app.apply_settings(settings);
        app
    }

    /// Makes `settings` the active configuration and re-parses the history.
    pub fn apply_settings(&mut self, settings: Settings)
        requires
            old(self).rows@.len() == old(self).raw_log@.len(),
            forall|i: int| 0 <= i < old(self).rows@.len() ==> #[trigger] old(self).raw_log@[i]@.len() > 0,
        ensures
            final(self).wf(),
            final(self).settings == settings,
            final(self).raw_log == old(self).raw_log,
            final(self).active() == Self::pattern_for(settings.regex_pattern@),
            final(self).active() matches Some(p) ==> final(self).num_columns == pattern_group_names(p).len() - 1,
            final(self).active() is None ==> final(self).num_columns == 0,
            final(self).serial == old(self).serial,
            final(self).settings_win == old(self).settings_win,
    {
        self.settings = settings;
        self.compile_regex();
    }

    /// Compiles the configured pattern, reporting a bad one, and re-parses
    /// every raw record under the result.
    pub fn compile_regex(&mut self)
        requires
            old(self).rows@.len() == old(self).raw_log@.len(),
            forall|i: int| 0 <= i < old(self).rows@.len() ==> #[trigger] old(self).raw_log@[i]@.len() > 0,
        ensures
            final(self).wf(),
            final(self).settings == old(self).settings,
            final(self).raw_log == old(self).raw_log,
            final(self).active() == Self::pattern_for(old(self).settings.regex_pattern@),
            final(self).active() matches Some(p) ==> final(self).num_columns == pattern_group_names(p).len() - 1,
            final(self).active() is None ==> final(self).num_columns == 0,
            final(self).serial == old(self).serial,
            final(self).settings_win == old(self).settings_win,
            old(self).settings.regex_pattern@.len() > 0 && !pattern_compiles(old(self).settings.regex_pattern@)
                ==> final(self).status_is_error && final(self).status_msg@ == "Regex error: "@
                + compile_error_text(old(self).settings.regex_pattern@),
            old(self).settings.regex_pattern@.len() == 0 || pattern_compiles(old(self).settings.regex_pattern@)
                ==> final(self).status_is_error == old(self).status_is_error && final(self).status_msg
                == old(self).status_msg,
            final(self).send_input == old(self).send_input,
            final(self).auto_scroll == old(self).auto_scroll,
            final(self).show_raw == old(self).show_raw,
    {
        if self.settings.regex_pattern.as_str().is_empty() {
            self.compiled_regex = None;
            self.num_columns = 0;
        } else {
            match RecordMatcher::new(&self.settings.regex_pattern) {
                Ok(m) => {
                    let names = m.group_names();
                    self.num_columns = names.len();
                    self.compiled_regex = Some(m);
                },
                Err(msg) => {
                    self.set_error(msg);
                    self.compiled_regex = None;
                    self.num_columns = 0;
                },
            }
        }
        self.reparse_all();
    }

    /// Replaces every row by parsing the raw history again.
    pub fn reparse_all(&mut self)
        requires
            forall|i: int| 0 <= i < old(self).raw_log@.len() ==> #[trigger] old(self).raw_log@[i]@.len() > 0,
        ensures
            final(self).wf(),
            final(self).settings == old(self).settings,
            final(self).raw_log == old(self).raw_log,
            final(self).compiled_regex == old(self).compiled_regex,
            final(self).num_columns == old(self).num_columns,
            final(self).serial == old(self).serial,
            final(self).settings_win == old(self).settings_win,
            final(self).status_is_error == old(self).status_is_error,
            final(self).status_msg == old(self).status_msg,
            final(self).send_input == old(self).send_input,
            final(self).auto_scroll == old(self).auto_scroll,
            final(self).show_raw == old(self).show_raw,
    {
        let mut rows: Vec<DataRow> = Vec::new();
        let mut i: usize = 0;
        while i < self.raw_log.len()
            invariant
                i <= self.raw_log@.len(),
                rows@.len() == i,
                forall|k: int| 0 <= k < self.raw_log@.len() ==> #[trigger] self.raw_log@[k]@.len() > 0,
                forall|k: int|
                    0 <= k < i ==> {
                        &&& #[trigger] rows@[k].raw@ == self.raw_log@[k]@
                        &&& row_fits(rows@[k], self.active(), self.settings.show_timestamp)
                    },
            decreases self.raw_log@.len() - i,
        {
            let row = self.parse_line(self.raw_log[i].as_str());
            rows.push(row);
            i += 1;
        }
        self.rows = rows;
    }

    /// Parses one record under the active pattern.
    pub fn parse_line(&self, line: &str) -> (r: DataRow)
        ensures
            r.raw@ == line@,
            row_fits(r, self.active(), self.settings.show_timestamp),
            self.settings.show_timestamp ==> r.timestamp@.len() > 0,
            r.matched ==> (self.active() matches Some(p) ==> r.columns@.len() == pattern_group_names(p).len() - 1),
    {
        let timestamp = if self.settings.show_timestamp {
            local_time_text("%H:%M:%S%.3f")
        } else {
            String::new()
        };
        let (columns, matched) = match &self.compiled_regex {
            Some(re) => match re.columns(line) {
                Some(cols) => (cols, true),
                None => (vec![String::from_str("<no match>")], false),
            },
            None => (vec![String::from_str(line)], true),
        };
        let r = DataRow { timestamp, raw: String::from_str(line), columns, matched };
        assert(texts(r.columns@) =~= row_columns(self.active(), r.raw@));
        r
    }

    /// Appends a received record to both histories, each then cut to the
    /// configured maximum by dropping the oldest entries. An empty record is
    /// not a record and changes nothing.
    pub fn ingest_line(&mut self, line: String)
        requires
            old(self).wf(),
        ensures
            final(self).wf(),
            final(self).settings == old(self).settings,
            final(self).compiled_regex == old(self).compiled_regex,
            final(self).serial == old(self).serial,
            line@.len() == 0 ==> final(self).raw_log == old(self).raw_log && final(self).rows == old(self).rows,
            line@.len() > 0 ==> texts(final(self).raw_log@) == keep_last(
                texts(old(self).raw_log@).push(line@),
                old(self).settings.max_rows as nat,
            ),
            line@.len() > 0 ==> final(self).raw_log@.len() <= old(self).settings.max_rows
                && final(self).rows@.len() <= old(self).settings.max_rows,
            line@.len() > 0 ==> exists|row: DataRow|
                {
                    &&& row.raw@ == line@
                    &&& row_fits(row, old(self).active(), old(self).settings.show_timestamp)
                    &&& final(self).rows@ == keep_last(
                        #[trigger] old(self).rows@.push(row),
                        old(self).settings.max_rows as nat,
                    )
                },
    {
        if line.as_str().is_empty() {
            return;
        }
        let ghost old_raw = texts(self.raw_log@);
        let ghost old_rows = self.rows@;
        let row = self.parse_line(line.as_str());
        let ghost new_row = row;
        let ghost old_log = self.raw_log@;
        let ghost line_view = line@;
        self.raw_log.push(line);
        self.rows.push(row);
        let ghost pat = self.active();
        let ghost stamped = self.settings.show_timestamp;
        assert(old_rows.len() == old_log.len());
        assert(self.rows@.len() == self.raw_log@.len());
        assert forall|i: int| 0 <= i < self.rows@.len() implies {
            &&& self.rows@[i].raw@ == self.raw_log@[i]@
            &&& self.raw_log@[i]@.len() > 0
            &&& row_fits(self.rows@[i], pat, stamped)
        } by {
            if i < old_rows.len() {
                assert(self.rows@[i] == old_rows[i]);
                assert(self.raw_log@[i] == old_log[i]);
                assert(old_rows[i].raw@ == old_log[i]@);
            } else {
                assert(self.raw_log@[i]@ == line_view);
            }
        }
        assert(histories_agree(self.rows@, self.raw_log@, pat, stamped));
        let max = self.settings.max_rows;
        if self.rows.len() > max {
            let cut = self.rows.len() - max;
            let ghost full_rows = self.rows@;
            let ghost full_raw = self.raw_log@;
            let kept = self.rows.split_off(cut);
            self.rows = kept;
            let kept_raw = self.raw_log.split_off(cut);
            self.raw_log = kept_raw;
            assert forall|i: int| 0 <= i < self.rows@.len() implies {
                &&& self.rows@[i].raw@ == self.raw_log@[i]@
                &&& self.raw_log@[i]@.len() > 0
                &&& row_fits(self.rows@[i], pat, stamped)
            } by {
                assert(self.rows@[i] == full_rows[i + cut]);
                assert(self.raw_log@[i] == full_raw[i + cut]);
                assert(full_rows[i + cut].raw@ == full_raw[i + cut]@);
            }
        }
        assert(texts(self.raw_log@) =~= keep_last(old_raw.push(line@), max as nat));
        assert(self.rows@ =~= keep_last(old_rows.push(new_row), max as nat));
    }

    /// Shows `msg` as the status.
    pub fn set_status(&mut self, msg: String)
        ensures
            final(self).status_msg == msg,
            !final(self).status_is_error,
            final(self).rows == old(self).rows,
            final(self).raw_log == old(self).raw_log,
            final(self).settings == old(self).settings,
            final(self).compiled_regex == old(self).compiled_regex,
            final(self).num_columns == old(self).num_columns,
            final(self).serial == old(self).serial,
            final(self).settings_win == old(self).settings_win,
            final(self).send_input == old(self).send_input,
            final(self).auto_scroll == old(self).auto_scroll,
            final(self).show_raw == old(self).show_raw,
    {
        self.status_msg = msg;
        self.status_is_error = false;
    }

    /// Shows `msg` as an error.
    pub fn set_error(&mut self, msg: String)
        ensures
            final(self).status_msg == msg,
            final(self).status_is_error,
            final(self).rows == old(self).rows,
            final(self).raw_log == old(self).raw_log,
            final(self).settings == old(self).settings,
            final(self).compiled_regex == old(self).compiled_regex,
            final(self).num_columns == old(self).num_columns,
            final(self).serial == old(self).serial,
            final(self).settings_win == old(self).settings_win,
            final(self).send_input == old(self).send_input,
            final(self).auto_scroll == old(self).auto_scroll,
            final(self).show_raw == old(self).show_raw,
    {
        self.status_msg = msg;
        self.status_is_error = true;
    }

    /// The header of export column `idx` (see `header_label`).
    pub fn column_header(&self, idx: usize) -> (r: String)
        requires
            (idx as int) < u64::MAX,
        ensures
            r@ == header_label(
                idx as nat,
                column_name_list(self.settings.column_names@),
                derived_labels(self.active()),
            ),
    {
        let names = self.settings.column_names_list();
        if idx < names.len() {
            assert(texts(names@)[idx as int] == names@[idx as int]@);
            return names[idx].clone();
        }
        match &self.compiled_regex {
            Some(re) => {
                let labels = re.group_names();
                if idx < labels.len() {
                    assert(opt_texts(labels@)[idx as int] == crate::matcher::opt_text(labels@[idx as int]));
                    match &labels[idx] {
                        Some(n) => {
                            return n.clone();
                        },
                        None => {},
                    }
                }
            },
            None => {},
        }
        let mut r = String::from_str("Col ");
        let d = decimal_text(idx as u64 + 1);
        r.append(d.as_str());
        r
    }

    /// The export header: the timestamp column when timestamps are shown,
    /// then one label per pattern column, or a single data column when no
    /// pattern is active.
    pub open spec fn csv_header(self) -> Seq<Seq<char>> {
        (if self.settings.show_timestamp { seq!["Timestamp"@] } else { seq![] }) + if self.compiled_regex is Some {
            Seq::new(
                self.num_columns as nat,
                |i: int|
                    header_label(
                        i as nat,
                        column_name_list(self.settings.column_names@),
                        derived_labels(self.active()),
                    ),
            )
        } else {
            seq!["Data"@]
        }
    }

    /// The export of the row history as comma-separated text, one record per
    /// line; cells are not quoted.
    pub fn csv_text(&self) -> (r: String)
        requires
            (self.num_columns as int) < u64::MAX,
        ensures
            r@ == csv_document(self.csv_header(), self.rows@, self.settings.show_timestamp),
    {
        let stamped = self.settings.show_timestamp;
        let mut header: Vec<String> = Vec::new();
        if stamped {
            header.push(String::from_str("Timestamp"));
        }
        let ghost base = texts(header@);
        if self.compiled_regex.is_some() {
            let mut i: usize = 0;
            while i < self.num_columns
                invariant
                    i <= self.num_columns,
                    (self.num_columns as int) < u64::MAX,
                    self.compiled_regex is Some,
                    texts(header@) == base + Seq::new(
                        i as nat,
                        |k: int|
                            header_label(
                                k as nat,
                                column_name_list(self.settings.column_names@),
                                derived_labels(self.active()),
                            ),
                    ),
                decreases self.num_columns - i,
            {
                let h = self.column_header(i);
                let ghost before = header@;
                header.push(h);
                proof {
                    lemma_texts_push(before, h);
                }
                i += 1;
                assert(texts(header@) =~= base + Seq::new(
                    i as nat,
                    |k: int|
                        header_label(
                            k as nat,
                            column_name_list(self.settings.column_names@),
                            derived_labels(self.active()),
                        ),
                ));
            }
        } else {
            header.push(String::from_str("Data"));
        }
        assert(texts(header@) =~= self.csv_header());
        let mut out = join_texts(&header, ",");
        out.append("\n");
        let ghost first = seq![joined(self.csv_header(), ","@)];
        assert(out@ =~= lines_text(first)) by {
            assert(first.drop_last() =~= Seq::<Seq<char>>::empty());
            assert(lines_text(Seq::<Seq<char>>::empty()) == Seq::<char>::empty());
        }
        let mut j: usize = 0;
        while j < self.rows.len()
            invariant
                j <= self.rows@.len(),
                stamped == self.settings.show_timestamp,
                out@ == lines_text(
                    first + self.rows@.subrange(0, j as int).map_values(
                        |r: DataRow| joined(row_cells(r, stamped), ","@),
                    ),
                ),
            decreases self.rows@.len() - j,
        {
            let row = &self.rows[j];
            let mut cells: Vec<String> = Vec::new();
            if stamped {
                cells.push(row.timestamp.clone());
            }
            let ghost lead = texts(cells@);
            let mut k: usize = 0;
            while k < row.columns.len()
                invariant
                    k <= row.columns@.len(),
                    texts(cells@) == lead + texts(row.columns@.subrange(0, k as int)),
                decreases row.columns@.len() - k,
            {
                let c = row.columns[k].clone();
                let ghost before = cells@;
                cells.push(c);
                proof {
                    lemma_texts_push(before, c);
                    assert(row.columns@.subrange(0, k + 1) =~= row.columns@.subrange(0, k as int).push(c));
                    lemma_texts_push(row.columns@.subrange(0, k as int), c);
                }
                k += 1;
                assert(texts(cells@) =~= lead + texts(row.columns@.subrange(0, k as int)));
            }
            assert(row.columns@.subrange(0, k as int) =~= row.columns@);
            assert(texts(cells@) =~= row_cells(*row, stamped));
            let line = join_texts(&cells, ",");
            let ghost prev = first + self.rows@.subrange(0, j as int).map_values(
                |r: DataRow| joined(row_cells(r, stamped), ","@),
            );
            out.append(line.as_str());
            out.append("\n");
            j += 1;
            proof {
                let next = first + self.rows@.subrange(0, j as int).map_values(
                    |r: DataRow| joined(row_cells(r, stamped), ","@),
                );
                assert(next.drop_last() =~= prev);
                assert(next.last() == joined(row_cells(self.rows@[j - 1], stamped), ","@));
            }
        }
        assert(self.rows@.subrange(0, j as int) =~= self.rows@);
        out
    }

    /// Empties both histories.
    pub fn clear_data(&mut self)
        ensures
            final(self).wf(),
            final(self).rows@.len() == 0,
            final(self).raw_log@.len() == 0,
            final(self).settings == old(self).settings,
            final(self).compiled_regex == old(self).compiled_regex,
    {
        self.rows = Vec::new();
        self.raw_log = Vec::new();
    }

    /// Closes the connection and says so.
    pub fn disconnect(&mut self)
        requires
            old(self).wf(),
        ensures
            final(self).wf(),
            !final(self).serial.is_connected,
            final(self).serial.cmd_tx is None,
            final(self).status_msg@ == "Disconnected"@,
            !final(self).status_is_error,
            final(self).rows == old(self).rows,
            final(self).raw_log == old(self).raw_log,
    {
        self.serial.disconnect();
        self.set_status(String::from_str("Disconnected"));
    }

    /// Sends the typed text with the outgoing terminator and clears it; an
    /// empty input sends nothing.
    pub fn send_input(&mut self)
        requires
            old(self).wf(),
        ensures
            final(self).wf(),
            final(self).send_input@.len() == 0,
            final(self).rows == old(self).rows,
            final(self).raw_log == old(self).raw_log,
            final(self).settings == old(self).settings,
    {
        if self.send_input.as_str().is_empty() {
            return;
        }
        let data = outgoing_payload(self.send_input.as_str(), self.settings.tx_line_ending);
        self.serial.send(data);
        self.send_input = String::new();
    }

    /// Whether applying `new_settings` calls for a new connection: only a
    /// change of device or baud rate while connected does.
    pub fn needs_reconnect(&self, new_settings: &Settings) -> (r: bool)
        ensures
            r == (self.serial.is_connected && (new_settings.port_name@ != self.settings.port_name@
                || new_settings.baud_rate != self.settings.baud_rate)),
    {
        self.serial.is_connected && (new_settings.port_name != self.settings.port_name
            || new_settings.baud_rate != self.settings.baud_rate)
    }

    /// Applies one event from the worker.
    pub fn handle_event(&mut self, ev: SerialEvent)
        requires
            old(self).wf(),
        ensures
            final(self).wf(),
            final(self).settings == old(self).settings,
            final(self).compiled_regex == old(self).compiled_regex,
            match ev {
                SerialEvent::Connected => {
                    &&& final(self).serial.is_connected
                    &&& !final(self).status_is_error
                    &&& final(self).status_msg@ == "Connected to "@ + old(self).settings.port_name@ + " @ "@
                        + decimal(old(self).settings.baud_rate as nat) + " baud"@
                    &&& final(self).rows == old(self).rows
                    &&& final(self).raw_log == old(self).raw_log
                },
                SerialEvent::Disconnected => {
                    &&& !final(self).serial.is_connected
                    &&& !final(self).status_is_error
                    &&& final(self).status_msg@ == "Disconnected"@
                    &&& final(self).rows == old(self).rows
                    &&& final(self).raw_log == old(self).raw_log
                },
                SerialEvent::Data(line) => {
                    &&& final(self).serial.is_connected == old(self).serial.is_connected
                    &&& line@.len() == 0 ==> final(self).raw_log == old(self).raw_log
                    &&& line@.len() > 0 ==> texts(final(self).raw_log@) == keep_last(
                        texts(old(self).raw_log@).push(line@),
                        old(self).settings.max_rows as nat,
                    )
                },
                SerialEvent::Error(e) => {
                    &&& final(self).serial.is_connected == old(self).serial.is_connected
                    &&& final(self).status_is_error
                    &&& final(self).status_msg == e
                    &&& final(self).rows == old(self).rows
                    &&& final(self).raw_log == old(self).raw_log
                },
            },
    {
        match ev {
            SerialEvent::Connected => {
                self.serial.is_connected = true;
                let mut msg = String::from_str("Connected to ");
                msg.append(self.settings.port_name.as_str());
                msg.append(" @ ");
                let baud = decimal_text(self.settings.baud_rate as u64);
                msg.append(baud.as_str());
                msg.append(" baud");
                self.set_status(msg);
            },
            SerialEvent::Disconnected => {
                self.serial.is_connected = false;
                self.set_status(String::from_str("Disconnected"));
            },
            SerialEvent::Data(line) => {
                self.ingest_line(line);
            },
            SerialEvent::Error(e) => {
                self.set_error(e);
            },
        }
    }

    /// Applies `events` one after another, in order, none skipped.
    pub fn handle_events(&mut self, events: Vec<SerialEvent>)
        requires
            old(self).wf(),
        ensures
            final(self).wf(),
            final(self).settings == old(self).settings,
            final(self).compiled_regex == old(self).compiled_regex,
            texts(final(self).raw_log@) == history_after(
                texts(old(self).raw_log@),
                data_texts(events@),
                old(self).settings.max_rows as nat,
            ),
            final(self).serial.is_connected == connection_after(old(self).serial.is_connected, events@),
    {
        let ghost all = events@;
        let ghost h0 = texts(self.raw_log@);
        let ghost n = self.settings.max_rows as nat;
        let ghost c0 = self.serial.is_connected;
        let mut events = events;
        assert(events@.len() == events.len());
        let mut i: usize = 0;
        assert(all.subrange(0, 0) =~= Seq::<SerialEvent>::empty());
        while events.len() > 0
            invariant
                self.wf(),
                self.settings == old(self).settings,
                self.compiled_regex == old(self).compiled_regex,
                n == self.settings.max_rows as nat,
                i + events@.len() == all.len(),
                all.len() <= usize::MAX,
                events@ == all.subrange(i as int, all.len() as int),
                texts(self.raw_log@) == history_after(h0, data_texts(all.subrange(0, i as int)), n),
                self.serial.is_connected == connection_after(c0, all.subrange(0, i as int)),
            decreases events.len(),
        {
            let ghost before = all.subrange(0, i as int);
            let ghost after = all.subrange(0, i + 1);
            let ev = events.remove(0);
            proof {
                assert(ev == all[i as int]);
                assert(after.drop_last() =~= before);
                assert(after.last() == ev);
                lemma_history_after_push(h0, data_texts(before), n, ev);
                assert(events@ =~= all.subrange(i + 1, all.len() as int));
            }
            self.handle_event(ev);
            i += 1;
        }
        assert(all.subrange(0, i as int) =~= all);
    }

    /// Applies every event that is queued now, in arrival order.
    pub fn poll_serial_events(&mut self)
        requires
            old(self).wf(),
        ensures
            final(self).wf(),
            final(self).settings == old(self).settings,
            final(self).compiled_regex == old(self).compiled_regex,
            exists|evs: Seq<SerialEvent>|
                {
                    &&& texts(final(self).raw_log@) == history_after(
                        texts(old(self).raw_log@),
                        #[trigger] data_texts(evs),
                        old(self).settings.max_rows as nat,
                    )
                    &&& final(self).serial.is_connected == connection_after(old(self).serial.is_connected, evs)
                },
    {
        let events = self.serial.poll_events();
        let ghost evs = events@;
        self.handle_events(events);
        assert(texts(self.raw_log@) == history_after(
            texts(old(self).raw_log@),
            data_texts(evs),
            old(self).settings.max_rows as nat,
        ));
    }
}

/// The texts of the data events among `evs`, in order.
pub open spec fn data_texts(evs: Seq<SerialEvent>) -> Seq<Seq<char>>
    decreases evs.len(),
{
    if evs.len() == 0 {
        seq![]
    } else {
        let r = data_texts(evs.drop_last());
        match evs.last() {
            SerialEvent::Data(t) => r.push(t@),
            _ => r,
        }
    }
}

/// Whether the connection is up after `evs`, starting from `up`: the last
/// `Connected` or `Disconnected` decides; data and errors leave it as it is.
pub open spec fn connection_after(up: bool, evs: Seq<SerialEvent>) -> bool
    decreases evs.len(),
{
    if evs.len() == 0 {
        up
    } else {
        match evs.last() {
            SerialEvent::Connected => true,
            SerialEvent::Disconnected => false,
            _ => connection_after(up, evs.drop_last()),
        }
    }
}

/// The raw history after ingesting `lines` in order into `h` under cap `n`:
/// each record is appended and the history cut to its last `n` entries;
/// an empty text is not a record and is skipped.
pub open spec fn history_after(h: Seq<Seq<char>>, lines: Seq<Seq<char>>, n: nat) -> Seq<Seq<char>>
    decreases lines.len(),
{
    if lines.len() == 0 {
        h
    } else if lines[0].len() == 0 {
        history_after(h, lines.drop_first(), n)
    } else {
        history_after(keep_last(h.push(lines[0]), n), lines.drop_first(), n)
    }
}

/// Ingesting one more record after `lines` is one more step of ingestion.
proof fn lemma_history_after_append(h: Seq<Seq<char>>, lines: Seq<Seq<char>>, n: nat, x: Seq<char>)
    ensures
        history_after(h, lines.push(x), n) == if x.len() == 0 {
            history_after(h, lines, n)
        } else {
            keep_last(history_after(h, lines, n).push(x), n)
        },
    decreases lines.len(),
{
    let l2 = lines.push(x);
    if lines.len() == 0 {
        assert(l2.drop_first() =~= Seq::<Seq<char>>::empty());
        assert(l2[0] == x);
        assert(history_after(h, Seq::<Seq<char>>::empty(), n) == h);
        assert(history_after(keep_last(h.push(x), n), Seq::<Seq<char>>::empty(), n) == keep_last(h.push(x), n));
    } else {
        assert(l2[0] == lines[0]);
        assert(l2.drop_first() =~= lines.drop_first().push(x));
        if lines[0].len() == 0 {
            lemma_history_after_append(h, lines.drop_first(), n, x);
        } else {
            lemma_history_after_append(keep_last(h.push(lines[0]), n), lines.drop_first(), n, x);
        }
    }
}

/// Handling one more event extends the raw history as ingestion does.
proof fn lemma_history_after_push(h: Seq<Seq<char>>, before: Seq<Seq<char>>, n: nat, ev: SerialEvent)
    ensures
        match ev {
            SerialEvent::Data(t) => history_after(h, before.push(t@), n) == if t@.len() == 0 {
                history_after(h, before, n)
            } else {
                keep_last(history_after(h, before, n).push(t@), n)
            },
            _ => true,
        },
{
    match ev {
        SerialEvent::Data(t) => lemma_history_after_append(h, before, n, t@),
        _ => {},
    }
}

proof fn lemma_keep_last_twice<A>(a: Seq<A>, b: Seq<A>, n: nat)
    ensures
        keep_last(keep_last(a, n) + b, n) == keep_last(a + b, n),
{
    if a.len() > n {
        let k = keep_last(a, n);
        assert forall|i: int| 0 <= i < keep_last(k + b, n).len() implies #[trigger] keep_last(k + b, n)[i]
            == keep_last(a + b, n)[i] by {
            if b.len() >= n {
            } else {
                let off = (a.len() + b.len() - n) as int;
                if off + i < a.len() {
                    assert(k[(k.len() + b.len() - n) + i] == a[a.len() - n + (k.len() + b.len() - n) + i]);
                }
            }
        }
        assert(keep_last(k + b, n) =~= keep_last(a + b, n));
    } else {
        assert(keep_last(a, n) == a);
    }
}

/// Whatever records arrive, and however many, each history keeps at most
/// `n` entries, and they are exactly the latest `n` in arrival order.
pub proof fn law_history_keeps_latest(h: Seq<Seq<char>>, lines: Seq<Seq<char>>, n: nat)
    requires
        h.len() <= n,
        forall|i: int| 0 <= i < lines.len() ==> #[trigger] lines[i].len() > 0,
    ensures
        history_after(h, lines, n) == keep_last(h + lines, n),
        history_after(h, lines, n).len() <= n,
    decreases lines.len(),
{
    if lines.len() == 0 {
        assert(h + lines =~= h);
    } else {
        let h1 = keep_last(h.push(lines[0]), n);
        let rest = lines.drop_first();
        assert forall|i: int| 0 <= i < rest.len() implies #[trigger] rest[i].len() > 0 by {
            assert(rest[i] == lines[i + 1]);
        }
        law_history_keeps_latest(h1, rest, n);
        lemma_keep_last_twice(h.push(lines[0]), rest, n);
        assert(h.push(lines[0]) + rest =~= h + lines);
    }
}

} // verus!
