use vstd::prelude::*;

use crate::settings::{terminator, LineEnding};

verus! {

/// The text that lossy UTF-8 decoding makes of a byte sequence.
pub uninterp spec fn lossy_text(b: Seq<u8>) -> Seq<char>;

/// Relies on `String::from_utf8_lossy`: the text depends on the bytes alone,
/// and invalid sequences are replaced rather than dropped, so bytes give text
/// exactly when there are any.
#[verifier::external_body]
fn decode_lossy(b: &[u8]) -> (r: String)
    ensures
        r@ == lossy_text(b@),
        b@.len() > 0 <==> r@.len() > 0,
{
    String::from_utf8_lossy(b).into_owned()
}

/// `pat` occurs in `s` starting at index `i`.
pub open spec fn occurs_at(s: Seq<u8>, pat: Seq<u8>, i: int) -> bool {
    0 <= i && i + pat.len() <= s.len() && forall|k: int| 0 <= k < pat.len() ==> s[i + k] == pat[k]
}

/// Index of the first occurrence of `pat` in `s`, or -1 when there is none.
pub open spec fn first_occurrence(s: Seq<u8>, pat: Seq<u8>) -> int
    decreases s.len(),
{
    if s.len() == 0 {
        -1
    } else if occurs_at(s, pat, 0) {
        0
    } else {
        let r = first_occurrence(s.drop_first(), pat);
        if r < 0 {
            -1
        } else {
            r + 1
        }
    }
}

/// The consumed segments of `s`, each running up to and including the next
/// occurrence of the delimiter `pat`.
pub open spec fn segments(s: Seq<u8>, pat: Seq<u8>) -> Seq<Seq<u8>>
    decreases s.len(),
{
    let p = first_occurrence(s, pat);
    if p < 0 || pat.len() == 0 || p + pat.len() > s.len() {
        seq![]
    } else {
        seq![s.subrange(0, p + pat.len())] + segments(s.subrange(p + pat.len(), s.len() as int), pat)
    }
}

/// What stays of `s` after every complete segment has been consumed.
pub open spec fn remainder(s: Seq<u8>, pat: Seq<u8>) -> Seq<u8>
    decreases s.len(),
{
    let p = first_occurrence(s, pat);
    if p < 0 || pat.len() == 0 || p + pat.len() > s.len() {
        s
    } else {
        remainder(s.subrange(p + pat.len(), s.len() as int), pat)
    }
}

/// `b` with every trailing `\r` and `\n` removed.
pub open spec fn strip_line_end(b: Seq<u8>) -> Seq<u8>
    decreases b.len(),
{
    if b.len() > 0 && (b.last() == 13u8 || b.last() == 10u8) {
        strip_line_end(b.drop_last())
    } else {
        b
    }
}

/// The stripped segments that are not empty, in order.
pub open spec fn nonempty_lines(segs: Seq<Seq<u8>>) -> Seq<Seq<u8>>
    decreases segs.len(),
{
    if segs.len() == 0 {
        seq![]
    } else {
        let t = strip_line_end(segs[0]);
        let r = nonempty_lines(segs.drop_first());
        if t.len() > 0 {
            seq![t] + r
        } else {
            r
        }
    }
}

/// The byte content of the records that framing `s` under `policy` emits.
pub open spec fn framed_lines(s: Seq<u8>, policy: LineEnding) -> Seq<Seq<u8>> {
    match policy {
        LineEnding::NoEnding => if s.len() > 0 {
            seq![s]
        } else {
            seq![]
        },
        _ => nonempty_lines(segments(s, terminator(policy))),
    }
}

/// The accumulator left after framing `s` under `policy`.
pub open spec fn leftover(s: Seq<u8>, policy: LineEnding) -> Seq<u8> {
    match policy {
        LineEnding::NoEnding => seq![],
        _ => remainder(s, terminator(policy)),
    }
}

/// The records emitted for `lines`: each is the lossy decoding of its bytes.
pub open spec fn decoded_as(out: Seq<String>, lines: Seq<Seq<u8>>) -> bool {
    &&& out.len() == lines.len()
    &&& forall|i: int| 0 <= i < out.len() ==> #[trigger] out[i]@ == lossy_text(lines[i])
}


proof fn lemma_drop_first_occurs(s: Seq<u8>, pat: Seq<u8>, j: int)
    requires
        s.len() > 0,
        j >= 0,
    ensures
        occurs_at(s.drop_first(), pat, j) <==> occurs_at(s, pat, j + 1),
{
    if occurs_at(s, pat, j + 1) {
        assert forall|k: int| 0 <= k < pat.len() implies s.drop_first()[j + k] == pat[k] by {
            assert(s.drop_first()[j + k] == s[j + 1 + k]);
        }
    }
    if occurs_at(s.drop_first(), pat, j) {
        assert forall|k: int| 0 <= k < pat.len() implies s[j + 1 + k] == pat[k] by {
            assert(s.drop_first()[j + k] == s[j + 1 + k]);
        }
    }
}

/// `first_occurrence` is the least index at which the delimiter occurs.
pub proof fn lemma_first_occurrence(s: Seq<u8>, pat: Seq<u8>)
    requires
        pat.len() >= 1,
    ensures
        first_occurrence(s, pat) >= -1,
        first_occurrence(s, pat) == -1 ==> forall|j: int| !occurs_at(s, pat, j),
        first_occurrence(s, pat) >= 0 ==> {
            &&& occurs_at(s, pat, first_occurrence(s, pat))
            &&& forall|j: int| 0 <= j < first_occurrence(s, pat) ==> !occurs_at(s, pat, j)
        },
    decreases s.len(),
{
    if s.len() == 0 {
    } else if occurs_at(s, pat, 0) {
    } else {
        lemma_first_occurrence(s.drop_first(), pat);
        assert forall|j: int| 0 <= j < first_occurrence(s, pat) || first_occurrence(s, pat) == -1 implies !occurs_at(s, pat, j) by {
            if j > 0 {
                lemma_drop_first_occurs(s, pat, j - 1);
            }
        }
        if first_occurrence(s, pat) >= 0 {
            lemma_drop_first_occurs(s, pat, first_occurrence(s, pat) - 1);
        }
    }
}

/// Occurrences in a suffix are occurrences in the whole, shifted.
proof fn lemma_suffix_occurs(s: Seq<u8>, pat: Seq<u8>, a: int, j: int)
    requires
        0 <= a <= s.len(),
        j >= 0,
    ensures
        occurs_at(s.subrange(a, s.len() as int), pat, j) <==> occurs_at(s, pat, a + j),
{
    let t = s.subrange(a, s.len() as int);
    if occurs_at(s, pat, a + j) {
        assert forall|k: int| 0 <= k < pat.len() implies t[j + k] == pat[k] by {
            assert(t[j + k] == s[a + j + k]);
        }
    }
    if occurs_at(t, pat, j) {
        assert forall|k: int| 0 <= k < pat.len() implies s[a + j + k] == pat[k] by {
            assert(t[j + k] == s[a + j + k]);
        }
    }
}

fn occurs_at_exec(buf: &Vec<u8>, pat: &Vec<u8>, i: usize) -> (r: bool)
    requires
        i <= buf.len(),
    ensures
        r == occurs_at(buf@, pat@, i as int),
{
    if buf.len() - i < pat.len() {
        return false;
    }
    let mut k: usize = 0;
    while k < pat.len()
        invariant
            k <= pat.len(),
            i + pat.len() <= buf.len(),
            forall|j: int| 0 <= j < k ==> buf@[i + j] == pat@[j],
        decreases pat.len() - k,
    {
        if buf[i + k] != pat[k] {
            return false;
        }
        k += 1;
    }
    true
}

fn find_from(buf: &Vec<u8>, pat: &Vec<u8>, start: usize) -> (r: Option<usize>)
    requires
        start <= buf.len(),
        pat.len() >= 1,
    ensures
        match r {
            Some(p) => {
                &&& start <= p < buf.len()
                &&& occurs_at(buf@, pat@, p as int)
                &&& forall|j: int| start <= j < p ==> !occurs_at(buf@, pat@, j)
            },
            None => forall|j: int| start <= j ==> !occurs_at(buf@, pat@, j),
        },
{
    let mut i: usize = start;
    while i < buf.len()
        invariant
            start <= i <= buf.len(),
            forall|j: int| start <= j < i ==> !occurs_at(buf@, pat@, j),
        decreases buf.len() - i,
    {
        if occurs_at_exec(buf, pat, i) {
            return Some(i);
        }
        i += 1;
    }
    None
}

fn copy_range(buf: &Vec<u8>, from: usize, to: usize) -> (r: Vec<u8>)
    requires
        from <= to <= buf.len(),
    ensures
        r@ == buf@.subrange(from as int, to as int),
{
    let mut r: Vec<u8> = Vec::new();
    let mut i: usize = from;
    while i < to
        invariant
            from <= i <= to,
            to <= buf.len(),
            r@ == buf@.subrange(from as int, i as int),
        decreases to - i,
    {
        r.push(buf[i]);
        i += 1;
        assert(r@ =~= buf@.subrange(from as int, i as int));
    }
    r
}

/// Consumes every complete segment ending in `pat` from `buf`, returning the
/// non-empty stripped records in order and leaving the unterminated tail.
fn drain_lines(buf: &mut Vec<u8>, pat: &Vec<u8>) -> (out: Vec<String>)
    requires
        1 <= pat.len() <= 2,
    ensures
        decoded_as(out@, nonempty_lines(segments(old(buf)@, pat@))),
        final(buf)@ == remainder(old(buf)@, pat@),
        forall|i: int| 0 <= i < out@.len() ==> #[trigger] out@[i]@.len() > 0,
{
    let ghost s0 = buf@;
    let ghost pt = pat@;
    let mut out: Vec<String> = Vec::new();
    let ghost mut lines: Seq<Seq<u8>> = seq![];
    let mut start: usize = 0;
    assert(s0.subrange(0, s0.len() as int) =~= s0);
    loop
        invariant
            buf@ == s0,
            pat@ == pt,
            1 <= pt.len() <= 2,
            start <= s0.len(),
            decoded_as(out@, lines),
            forall|i: int| 0 <= i < out@.len() ==> #[trigger] out@[i]@.len() > 0,
            nonempty_lines(segments(s0, pt)) == lines + nonempty_lines(
                segments(s0.subrange(start as int, s0.len() as int), pt),
            ),
            remainder(s0, pt) == remainder(s0.subrange(start as int, s0.len() as int), pt),
        ensures
            buf@ == s0,
            start <= s0.len(),
            decoded_as(out@, nonempty_lines(segments(s0, pt))),
            forall|i: int| 0 <= i < out@.len() ==> #[trigger] out@[i]@.len() > 0,
            remainder(s0, pt) == s0.subrange(start as int, s0.len() as int),
        decreases s0.len() - start,
    {
        let ghost sub = s0.subrange(start as int, s0.len() as int);
        match find_from(buf, pat, start) {
            None => {
                proof {
                    lemma_first_occurrence(sub, pt);
                    if first_occurrence(sub, pt) >= 0 {
                        lemma_suffix_occurs(s0, pt, start as int, first_occurrence(sub, pt));
                    }
                    assert(segments(sub, pt) == Seq::<Seq<u8>>::empty());
                    assert(remainder(sub, pt) == sub);
                    assert(nonempty_lines(Seq::<Seq<u8>>::empty()) == Seq::<Seq<u8>>::empty());
                    assert(lines + nonempty_lines(segments(sub, pt)) =~= lines);
                }
                break ;
            },
            Some(p) => {
                let end = p + pat.len();
                let ghost e = (p - start) + pt.len();
                proof {
                    lemma_first_occurrence(sub, pt);
                    lemma_suffix_occurs(s0, pt, start as int, p - start);
                    if first_occurrence(sub, pt) >= 0 {
                        lemma_suffix_occurs(s0, pt, start as int, first_occurrence(sub, pt));
                    }
                    assert forall|j: int| 0 <= j < p - start implies !occurs_at(sub, pt, j) by {
                        lemma_suffix_occurs(s0, pt, start as int, j);
                    }
                    assert(first_occurrence(sub, pt) == p - start);
                    assert(sub.subrange(0, e) =~= s0.subrange(start as int, end as int));
                    assert(sub.subrange(e, sub.len() as int) =~= s0.subrange(end as int, s0.len() as int));
                }
                let mut k: usize = end;
                while k > start && (buf[k - 1] == 13u8 || buf[k - 1] == 10u8)
                    invariant
                        buf@ == s0,
                        start <= k <= end,
                        end <= s0.len(),
                        strip_line_end(s0.subrange(start as int, end as int)) == strip_line_end(
                            s0.subrange(start as int, k as int),
                        ),
                    decreases k,
                {
                    assert(s0.subrange(start as int, k as int).drop_last() =~= s0.subrange(
                        start as int,
                        k - 1,
                    ));
                    k -= 1;
                }
                let ghost seg = s0.subrange(start as int, end as int);
                let ghost t = s0.subrange(start as int, k as int);
                assert(strip_line_end(t) == t);
                let ghost rest_segs = segments(s0.subrange(end as int, s0.len() as int), pt);
                assert(segments(sub, pt) == seq![seg] + rest_segs);
                assert((seq![seg] + rest_segs)[0] == seg);
                assert((seq![seg] + rest_segs).drop_first() =~= rest_segs);
                if k > start {
                    let piece = copy_range(buf, start, k);
                    let text = decode_lossy(piece.as_slice());
                    out.push(text);
                    proof {
                        assert(lines + (seq![t] + nonempty_lines(rest_segs)) =~= lines.push(t)
                            + nonempty_lines(rest_segs));
                        lines = lines.push(t);
                    }
                }
                start = end;
            },
        }
    }
    let rest = copy_range(buf, start, buf.len());
    *buf = rest;
    out
}

/// Drains the records terminated by the single byte `delim` from `buf`: each
/// segment up to and including the delimiter is consumed, its trailing `\r`
/// and `\n` are stripped, and it is emitted unless that leaves it empty.
pub fn extract_by_delimiter(buf: &mut Vec<u8>, delim: u8) -> (out: Vec<String>)
    ensures
        decoded_as(out@, nonempty_lines(segments(old(buf)@, seq![delim]))),
        final(buf)@ == remainder(old(buf)@, seq![delim]),
        forall|i: int| 0 <= i < out@.len() ==> #[trigger] out@[i]@.len() > 0,
{
    let pat: Vec<u8> = vec![delim];
    assert(pat@ =~= seq![delim]);
    drain_lines(buf, &pat)
}

/// Drains the records terminated by the pair `\r\n` from `buf`; a lone `\r`
/// stays inside its record.
pub fn extract_by_crlf(buf: &mut Vec<u8>) -> (out: Vec<String>)
    ensures
        decoded_as(out@, nonempty_lines(segments(old(buf)@, seq![13u8, 10u8]))),
        final(buf)@ == remainder(old(buf)@, seq![13u8, 10u8]),
        forall|i: int| 0 <= i < out@.len() ==> #[trigger] out@[i]@.len() > 0,
{
    let pat: Vec<u8> = vec![13u8, 10u8];
    assert(pat@ =~= seq![13u8, 10u8]);
    drain_lines(buf, &pat)
}

/// Drains every complete record from the accumulator `buf` under `line_ending`.
/// With no delimiter the whole accumulator, if not empty, is one record.
pub fn extract_lines(buf: &mut Vec<u8>, line_ending: &LineEnding) -> (out: Vec<String>)
    ensures
        decoded_as(out@, framed_lines(old(buf)@, *line_ending)),
        final(buf)@ == leftover(old(buf)@, *line_ending),
        forall|i: int| 0 <= i < out@.len() ==> #[trigger] out@[i]@.len() > 0,
{
    match line_ending {
        LineEnding::NoEnding => {
            let mut out: Vec<String> = Vec::new();
            if buf.len() > 0 {
                let text = decode_lossy(buf.as_slice());
                out.push(text);
            }
            *buf = Vec::new();
            assert(buf@ =~= seq![]);
            out
        },
        LineEnding::LF => extract_by_delimiter(buf, 10u8),
        LineEnding::CR => extract_by_delimiter(buf, 13u8),
        LineEnding::CrLf => extract_by_crlf(buf),
    }
}


/// An occurrence that lies within `x` is an occurrence in `x + y`, and the
/// other way round.
proof fn lemma_prefix_occurs(x: Seq<u8>, y: Seq<u8>, pat: Seq<u8>, j: int)
    requires
        0 <= j,
        j + pat.len() <= x.len(),
    ensures
        occurs_at(x + y, pat, j) <==> occurs_at(x, pat, j),
{
    assert forall|k: int| 0 <= k < pat.len() implies #[trigger] (x + y)[j + k] == x[j + k] by {}
}

proof fn lemma_nonempty_lines_concat(a: Seq<Seq<u8>>, b: Seq<Seq<u8>>)
    ensures
        nonempty_lines(a + b) == nonempty_lines(a) + nonempty_lines(b),
    decreases a.len(),
{
    if a.len() == 0 {
        assert(a + b =~= b);
        assert(nonempty_lines(a) + nonempty_lines(b) =~= nonempty_lines(b));
    } else {
        assert((a + b)[0] == a[0]);
        assert((a + b).drop_first() =~= a.drop_first() + b);
        lemma_nonempty_lines_concat(a.drop_first(), b);
        let t = strip_line_end(a[0]);
        if t.len() > 0 {
            assert(seq![t] + (nonempty_lines(a.drop_first()) + nonempty_lines(b)) =~= (seq![t]
                + nonempty_lines(a.drop_first())) + nonempty_lines(b));
        }
    }
}

/// Feeding `x` and then `y` consumes the same segments, and leaves the same
/// tail, as feeding `x + y` at once.
pub proof fn lemma_segments_feed(x: Seq<u8>, y: Seq<u8>, pat: Seq<u8>)
    requires
        pat.len() >= 1,
    ensures
        segments(x + y, pat) == segments(x, pat) + segments(remainder(x, pat) + y, pat),
        remainder(x + y, pat) == remainder(remainder(x, pat) + y, pat),
    decreases x.len(),
{
    let p = first_occurrence(x, pat);
    lemma_first_occurrence(x, pat);
    if p < 0 {
        assert(segments(x, pat) + segments(remainder(x, pat) + y, pat) =~= segments(x + y, pat));
    } else {
        let xy = x + y;
        let e = p + pat.len();
        lemma_first_occurrence(xy, pat);
        lemma_prefix_occurs(x, y, pat, p);
        assert forall|j: int| 0 <= j < p implies !occurs_at(xy, pat, j) by {
            lemma_prefix_occurs(x, y, pat, j);
        }
        let f = first_occurrence(xy, pat);
        if f >= 0 && f < p {
        }
        assert(f == p);
        assert(xy.subrange(0, e) =~= x.subrange(0, e));
        let xr = x.subrange(e, x.len() as int);
        assert(xy.subrange(e, xy.len() as int) =~= xr + y);
        lemma_segments_feed(xr, y, pat);
        assert(segments(xy, pat) =~= segments(x, pat) + segments(remainder(x, pat) + y, pat));
    }
}

/// Chunk independence: framing `x`, then framing what was left of it
/// followed by `y`, emits exactly the records of framing `x + y` at once and
/// leaves the same accumulator. By induction, any division of a stream into
/// chunks gives the same records.
pub proof fn law_chunking(x: Seq<u8>, y: Seq<u8>, policy: LineEnding)
    requires
        policy != LineEnding::NoEnding,
    ensures
        framed_lines(x + y, policy) == framed_lines(x, policy) + framed_lines(leftover(x, policy) + y, policy),
        leftover(x + y, policy) == leftover(leftover(x, policy) + y, policy),
{
    let pat = terminator(policy);
    lemma_segments_feed(x, y, pat);
    lemma_nonempty_lines_concat(segments(x, pat), segments(remainder(x, pat) + y, pat));
}

/// The consumed segments, concatenated, followed by the unconsumed tail,
/// give back the input; the tail holds no delimiter. So what is consumed is
/// exactly the input up to and including the last delimiter.
pub proof fn law_segments_cover(s: Seq<u8>, pat: Seq<u8>)
    requires
        pat.len() >= 1,
    ensures
        segments(s, pat).flatten() + remainder(s, pat) == s,
        forall|j: int| !occurs_at(remainder(s, pat), pat, j),
    decreases s.len(),
{
    let p = first_occurrence(s, pat);
    lemma_first_occurrence(s, pat);
    if p < 0 {
        assert(segments(s, pat).flatten() + remainder(s, pat) =~= s);
    } else {
        let e = p + pat.len();
        let rest = s.subrange(e, s.len() as int);
        law_segments_cover(rest, pat);
        let segs = segments(s, pat);
        assert(segs[0] == s.subrange(0, e));
        assert(segs.drop_first() =~= segments(rest, pat));
        assert(segs.flatten() == segs[0] + segs.drop_first().flatten());
        assert(remainder(s, pat) == remainder(rest, pat));
        assert(segs.flatten() + remainder(s, pat) =~= s.subrange(0, e) + (segments(rest, pat).flatten()
            + remainder(rest, pat)));
        assert(s.subrange(0, e) + rest =~= s);
    }
}

/// Every segment ends with the delimiter, and the delimiter occurs nowhere
/// earlier in it.
pub proof fn law_segments_end_at_delimiter(s: Seq<u8>, pat: Seq<u8>)
    requires
        pat.len() >= 1,
    ensures
        forall|k: int|
            0 <= k < segments(s, pat).len() ==> {
                &&& segments(s, pat)[k].len() >= pat.len()
                &&& occurs_at(#[trigger] segments(s, pat)[k], pat, segments(s, pat)[k].len() - pat.len())
                &&& forall|j: int|
                    0 <= j < segments(s, pat)[k].len() - pat.len() ==> !occurs_at(segments(s, pat)[k], pat, j)
            },
    decreases s.len(),
{
    let p = first_occurrence(s, pat);
    lemma_first_occurrence(s, pat);
    if p >= 0 {
        let e = p + pat.len();
        let rest = s.subrange(e, s.len() as int);
        law_segments_end_at_delimiter(rest, pat);
        let segs = segments(s, pat);
        let seg = s.subrange(0, e);
        assert(segs[0] == seg);
        assert forall|j: int| 0 <= j <= p implies occurs_at(seg, pat, j) == occurs_at(s, pat, j) by {
            assert forall|k: int| 0 <= k < pat.len() implies #[trigger] seg[j + k] == s[j + k] by {}
        }
        assert forall|k: int| 0 < k < segs.len() implies segs[k] == segments(rest, pat)[k - 1] by {}
    }
}

/// The two-byte delimiter `\r\n`.
pub open spec fn crlf() -> Seq<u8> {
    seq![13u8, 10u8]
}

/// Under `CRLF` a segment ends with `\r\n` and holds no earlier `\r\n`: a
/// lone `\r` never ends a record.
pub proof fn law_crlf_splits_only_on_pair(s: Seq<u8>)
    ensures
        forall|k: int|
            0 <= k < segments(s, crlf()).len() ==> {
                let seg = #[trigger] segments(s, crlf())[k];
                &&& seg.len() >= 2
                &&& seg[seg.len() - 2] == 13u8
                &&& seg[seg.len() - 1] == 10u8
                &&& forall|i: int| 0 <= i < seg.len() - 2 ==> !(#[trigger] seg[i] == 13u8 && seg[i + 1] == 10u8)
            },
{
    let pat = crlf();
    law_segments_end_at_delimiter(s, pat);
    assert forall|k: int| 0 <= k < segments(s, pat).len() implies {
        let seg = #[trigger] segments(s, pat)[k];
        &&& seg.len() >= 2
        &&& seg[seg.len() - 2] == 13u8
        &&& seg[seg.len() - 1] == 10u8
        &&& forall|i: int| 0 <= i < seg.len() - 2 ==> !(#[trigger] seg[i] == 13u8 && seg[i + 1] == 10u8)
    } by {
        let seg = segments(s, pat)[k];
        assert(occurs_at(seg, pat, seg.len() - 2));
        assert(seg[seg.len() - 2 + 0] == pat[0]);
        assert(seg[seg.len() - 2 + 1] == pat[1]);
        assert forall|i: int| 0 <= i < seg.len() - 2 implies !(#[trigger] seg[i] == 13u8 && seg[i + 1] == 10u8) by {
            if seg[i] == 13u8 && seg[i + 1] == 10u8 {
                assert(occurs_at(seg, pat, i));
            }
        }
    }
}

proof fn lemma_nonempty_lines_nonempty(segs: Seq<Seq<u8>>)
    ensures
        forall|i: int| 0 <= i < nonempty_lines(segs).len() ==> #[trigger] nonempty_lines(segs)[i].len() > 0,
    decreases segs.len(),
{
    if segs.len() > 0 {
        lemma_nonempty_lines_nonempty(segs.drop_first());
        let t = strip_line_end(segs[0]);
        let r = nonempty_lines(segs.drop_first());
        if t.len() > 0 {
            assert forall|i: int| 0 < i < nonempty_lines(segs).len() implies nonempty_lines(segs)[i] == r[i - 1] by {}
        }
    }
}

/// Framing never emits an empty record.
pub proof fn law_no_empty_records(s: Seq<u8>, policy: LineEnding)
    ensures
        forall|i: int| 0 <= i < framed_lines(s, policy).len() ==> #[trigger] framed_lines(s, policy)[i].len() > 0,
{
    if policy != LineEnding::NoEnding {
        lemma_nonempty_lines_nonempty(segments(s, terminator(policy)));
    }
}

} // verus!
