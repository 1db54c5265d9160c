use vstd::prelude::*;

verus! {

#[verifier::external_type_specification]
#[verifier::external_body]
pub struct ExRegex(regex::Regex);

/// Whether a pattern is accepted by the regular-expression compiler.
pub uninterp spec fn pattern_compiles(p: Seq<char>) -> bool;

/// The text of the error that compiling pattern `p` reports.
pub uninterp spec fn compile_error_text(p: Seq<char>) -> Seq<char>;

/// The capture groups (group 0, the whole match, first) of the leftmost match
/// of pattern `p` in `text`, or `None` when it does not match.
pub uninterp spec fn pattern_captures(p: Seq<char>, text: Seq<char>) -> Option<Seq<Option<Seq<char>>>>;

/// The name of each capture group of pattern `p`, group 0 first.
pub uninterp spec fn pattern_group_names(p: Seq<char>) -> Seq<Option<Seq<char>>>;

/// The view of an optional piece of text.
pub open spec fn opt_text(o: Option<String>) -> Option<Seq<char>> {
    match o {
        Some(s) => Some(s@),
        None => None,
    }
}

/// The view of a list of optional pieces of text.
pub open spec fn opt_texts(v: Seq<Option<String>>) -> Seq<Option<Seq<char>>> {
    v.map_values(|o: Option<String>| opt_text(o))
}

/// Relies on `regex::Regex::new`: it succeeds exactly on the patterns that
/// the regex syntax accepts, a property of the pattern alone; on failure the
/// `Display` text of `regex::Error` is handed back, which also depends on the
/// pattern alone.
#[verifier::external_body]
fn compile_regex(pattern: &str) -> (r: Result<regex::Regex, String>)
    ensures
        r is Ok <==> pattern_compiles(pattern@),
        r matches Err(t) ==> t@ == compile_error_text(pattern@),
{
    regex::Regex::new(pattern).map_err(|e| e.to_string())
}

/// A compiled record pattern together with its source text. The compiled form
/// is only ever built from `pattern` by `RecordMatcher::new`.
pub struct RecordMatcher {
    pattern: String,
    re: regex::Regex,
}

/// Relies on `regex::Regex::captures` (and `Captures::iter`): the groups of the
/// leftmost match, a function of the pattern and the text. The iterator
/// yields every group of the regex, matching or not, group 0 first, so there
/// is at least one entry and one per entry of `capture_names`.
#[verifier::external_body]
fn captures_of(m: &RecordMatcher, text: &str) -> (r: Option<Vec<Option<String>>>)
    ensures
        match r {
            Some(g) => pattern_captures(m.pattern@, text@) == Some(opt_texts(g@)),
            None => pattern_captures(m.pattern@, text@) is None,
        },
        r matches Some(g) ==> g@.len() == pattern_group_names(m.pattern@).len() && g@.len() >= 1,
{
    m.re.captures(text).map(|c| c.iter().map(|g| g.map(|x| x.as_str().to_string())).collect())
}

/// Relies on `regex::Regex::capture_names`: one entry per capture group,
/// group 0 included, so never fewer than one.
#[verifier::external_body]
fn group_names_of(m: &RecordMatcher) -> (r: Vec<Option<String>>)
    ensures
        opt_texts(r@) == pattern_group_names(m.pattern@),
        r@.len() >= 1,
{
    m.re.capture_names().map(|n| n.map(|x| x.to_string())).collect()
}

/// The columns extracted from a match: every capture group after the whole
/// match, an unmatched optional group giving the empty string.
pub open spec fn columns_of_groups(g: Seq<Option<Seq<char>>>) -> Seq<Seq<char>> {
    Seq::new(
        (if g.len() > 0 { (g.len() - 1) as nat } else { 0nat }),
        |i: int|
            match g[i + 1] {
                Some(t) => t,
                None => Seq::<char>::empty(),
            },
    )
}

/// Turns the capture groups of a match into the row's columns.
pub fn extract_columns(groups: &Vec<Option<String>>) -> (cols: Vec<String>)
    ensures
        cols@.map_values(|s: String| s@) == columns_of_groups(opt_texts(groups@)),
{
    let mut cols: Vec<String> = Vec::new();
    let mut i: usize = 1;
    while i < groups.len()
        invariant
            1 <= i <= groups.len() || (i == 1 && groups.len() == 0),
            cols@.len() == i - 1,
            forall|k: int|
                0 <= k < cols@.len() ==> #[trigger] cols@[k]@ == columns_of_groups(
                    opt_texts(groups@),
                )[k],
        decreases groups.len() - i,
    {
        let c = match &groups[i] {
            Some(t) => t.clone(),
            None => String::new(),
        };
        cols.push(c);
        i += 1;
    }
    assert(cols@.map_values(|s: String| s@) =~= columns_of_groups(opt_texts(groups@)));
    cols
}

impl RecordMatcher {
    /// The pattern this matcher was compiled from.
    pub closed spec fn source(&self) -> Seq<char> {
        self.pattern@
    }

    /// Compiles `pattern`; the error names what the compiler objected to.
    pub fn new(pattern: &String) -> (r: Result<RecordMatcher, String>)
        ensures
            r is Ok <==> pattern_compiles(pattern@),
            r matches Ok(m) ==> m.source() == pattern@,
            r matches Err(e) ==> e@ == "Regex error: "@ + compile_error_text(pattern@),
    {
        match compile_regex(pattern.as_str()) {
            Ok(re) => Ok(RecordMatcher { pattern: pattern.clone(), re }),
            Err(detail) => {
                let mut msg = String::from_str("Regex error: ");
                msg.append(detail.as_str());
                Err(msg)
            },
        }
    }

    /// The text this matcher was compiled from.
    pub fn pattern(&self) -> (r: &String)
        ensures
            r@ == self.source(),
    {
        &self.pattern
    }

    /// The columns extracted from `text`, or `None` when it does not match.
    pub fn columns(&self, text: &str) -> (r: Option<Vec<String>>)
        ensures
            match pattern_captures(self.source(), text@) {
                Some(g) => r matches Some(c) && c@.map_values(|s: String| s@) == columns_of_groups(g),
                None => r is None,
            },
            r matches Some(c) ==> c@.len() == pattern_group_names(self.source()).len() - 1,
    {
        match captures_of(self, text) {
            Some(g) => {
                let cols = extract_columns(&g);
                assert(opt_texts(g@).len() == g@.len());
                assert(cols@.map_values(|s: String| s@).len() == cols@.len());
                Some(cols)
            },
            None => None,
        }
    }

    /// The name of each capture group after the whole match.
    pub fn group_names(&self) -> (r: Vec<Option<String>>)
        ensures
            opt_texts(r@) == pattern_group_names(self.source()).drop_first(),
            r@.len() == pattern_group_names(self.source()).len() - 1,
    {
        let mut all = group_names_of(self);
        let rest = all.split_off(1);
        assert(opt_texts(all@).len() == all@.len());
        assert(opt_texts(rest@) =~= opt_texts(all@ + rest@).drop_first());
        rest
    }
}

} // verus!
