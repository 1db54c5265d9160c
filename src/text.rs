use vstd::prelude::*;

verus! {

/// The views of a list of strings.
pub open spec fn texts(v: Seq<String>) -> Seq<Seq<char>> {
    v.map_values(|s: String| s@)
}

/// Pushing a string pushes its view.
pub proof fn lemma_texts_push(v: Seq<String>, x: String)
    ensures
        texts(v.push(x)) == texts(v).push(x@),
{
    assert(texts(v.push(x)) =~= texts(v).push(x@));
}

/// `parts` joined with `sep` between consecutive parts.
pub open spec fn joined(parts: Seq<Seq<char>>, sep: Seq<char>) -> Seq<char>
    decreases parts.len(),
{
    if parts.len() == 0 {
        seq![]
    } else if parts.len() == 1 {
        parts[0]
    } else {
        joined(parts.drop_last(), sep) + sep + parts.last()
    }
}

/// Joins `parts` with `sep` between consecutive parts.
pub fn join_texts(parts: &Vec<String>, sep: &str) -> (r: String)
    ensures
        r@ == joined(texts(parts@), sep@),
{
    let mut r = String::new();
    let mut i: usize = 0;
    while i < parts.len()
        invariant
            i <= parts.len(),
            r@ == joined(texts(parts@.subrange(0, i as int)), sep@),
        decreases parts.len() - i,
    {
        let ghost before = texts(parts@.subrange(0, i as int));
        if i > 0 {
            r.append(sep);
        }
        r.append(parts[i].as_str());
        proof {
            let after = texts(parts@.subrange(0, i + 1));
            assert(after.drop_last() =~= before);
            assert(after.last() == parts@[i as int]@);
            if i == 0 {
                assert(r@ =~= after[0]);
            } else {
                assert(r@ =~= joined(after.drop_last(), sep@) + sep@ + after.last());
            }
        }
        i += 1;
    }
    assert(parts@.subrange(0, parts.len() as int) =~= parts@);
    r
}

/// `s` cut at every comma (the commas themselves dropped); a text without
/// commas is one piece, and the empty text is one empty piece.
pub open spec fn comma_pieces(s: Seq<char>) -> Seq<Seq<char>>
    decreases s.len(),
{
    if s.len() == 0 {
        seq![seq![]]
    } else {
        let r = comma_pieces(s.drop_last());
        if s.last() == ',' {
            r.push(seq![])
        } else {
            r.update(r.len() - 1, r.last().push(s.last()))
        }
    }
}

proof fn lemma_comma_pieces_len(s: Seq<char>)
    ensures
        comma_pieces(s).len() >= 1,
    decreases s.len(),
{
    if s.len() > 0 {
        lemma_comma_pieces_len(s.drop_last());
    }
}

/// Unicode White_Space: the characters `char::is_whitespace` accepts.
pub open spec fn is_white_space(c: char) -> bool {
    let u = c as u32;
    (0x9 <= u <= 0xD) || u == 0x20 || u == 0x85 || u == 0xA0 || u == 0x1680 || (0x2000 <= u <= 0x200A)
        || u == 0x2028 || u == 0x2029 || u == 0x202F || u == 0x205F || u == 0x3000
}

/// `s` without its leading white space.
pub open spec fn trim_start_white(s: Seq<char>) -> Seq<char>
    decreases s.len(),
{
    if s.len() > 0 && is_white_space(s[0]) {
        trim_start_white(s.drop_first())
    } else {
        s
    }
}

/// `s` without its trailing white space.
pub open spec fn trim_end_white(s: Seq<char>) -> Seq<char>
    decreases s.len(),
{
    if s.len() > 0 && is_white_space(s.last()) {
        trim_end_white(s.drop_last())
    } else {
        s
    }
}

/// The text with leading and trailing white space removed.
pub open spec fn trimmed(s: Seq<char>) -> Seq<char> {
    trim_end_white(trim_start_white(s))
}

/// Relies on `str::trim`, which removes leading and trailing characters
/// with the Unicode White_Space property.
#[verifier::external_body]
pub(crate) fn trim_text(s: &str) -> (r: String)
    ensures
        r@ == trimmed(s@),
{
    s.trim().to_string()
}

/// Cuts `s` at every comma and trims each piece.
pub fn split_trimmed(s: &str) -> (r: Vec<String>)
    ensures
        texts(r@) == comma_pieces(s@).map_values(|p: Seq<char>| trimmed(p)),
{
    let n = s.unicode_len();
    let mut r: Vec<String> = Vec::new();
    let mut start: usize = 0;
    let mut i: usize = 0;
    while i < n
        invariant
            n == s@.len(),
            start <= i <= n,
            comma_pieces(s@.subrange(0, i as int)).len() == r@.len() + 1,
            forall|k: int|
                0 <= k < r@.len() ==> #[trigger] r@[k]@ == trimmed(
                    comma_pieces(s@.subrange(0, i as int))[k],
                ),
            comma_pieces(s@.subrange(0, i as int)).last() == s@.subrange(start as int, i as int),
        decreases n - i,
    {
        let ghost pre = s@.subrange(0, i as int);
        let ghost post = s@.subrange(0, i + 1);
        proof {
            lemma_comma_pieces_len(pre);
            assert(post.drop_last() =~= pre);
        }
        let c = s.get_char(i);
        if c == ',' {
            let piece = s.substring_char(start, i);
            let t = trim_text(piece);
            r.push(t);
            start = i + 1;
            proof {
                assert(comma_pieces(post) == comma_pieces(pre).push(seq![]));
                assert(s@.subrange(start as int, i + 1) =~= Seq::<char>::empty());
            }
        } else {
            proof {
                assert(s@.subrange(start as int, i + 1) =~= s@.subrange(start as int, i as int).push(c));
            }
        }
        i += 1;
    }
    let piece = s.substring_char(start, n);
    let t = trim_text(piece);
    r.push(t);
    proof {
        assert(s@.subrange(0, n as int) =~= s@);
        assert(texts(r@) =~= comma_pieces(s@).map_values(|p: Seq<char>| trimmed(p)));
    }
    r
}

} // verus!
