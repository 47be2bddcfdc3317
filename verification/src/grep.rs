//! Grouping regex matches by text line: every line holding at least one
//! match is reported once, with the match positions relative to the line
//! start. The matches themselves come from the regex crate; the grouping is
//! specified exactly over the match spans.

use vstd::prelude::*;

use crate::matcher::{regex_match_spans, span_views, Matcher};

verus! {

/// One line of the searched text holding at least one match: the line's text
/// and the character spans of the matches, relative to the line start.
pub struct GrepLineMatches {
    pub line: String,
    pub ranges: Vec<(usize, usize)>,
}

/// The view of one reported line.
pub struct GrepLineV {
    pub line: Seq<char>,
    pub ranges: Seq<(int, int)>,
}

impl View for GrepLineMatches {
    type V = GrepLineV;

    open spec fn view(&self) -> GrepLineV {
        GrepLineV { line: self.line@, ranges: span_views(self.ranges@) }
    }
}

/// The views of a list of reported lines.
pub open spec fn glm_views(v: Seq<GrepLineMatches>) -> Seq<GrepLineV> {
    v.map_values(|g: GrepLineMatches| g@)
}

pub open spec fn is_eol(c: char) -> bool {
    c == '\n' || c == '\r'
}

/// The start of the line containing position `p`: the position just after the
/// closest line break before `p`, or the start of the text.
pub open spec fn line_start(text: Seq<char>, p: int) -> int
    decreases p,
{
    if p <= 0 {
        0
    } else if is_eol(text[p - 1]) {
        p
    } else {
        line_start(text, p - 1)
    }
}

/// The end of the line from position `p` on: the closest line break at or
/// after `p`, or the end of the text.
pub open spec fn line_end(text: Seq<char>, p: int) -> int
    decreases text.len() - p,
{
    if p < 0 || p >= text.len() {
        text.len() as int
    } else if is_eol(text[p]) {
        p
    } else {
        line_end(text, p + 1)
    }
}

pub proof fn lemma_line_start_le(text: Seq<char>, p: int)
    requires
        0 <= p,
    ensures
        0 <= line_start(text, p) <= p,
    decreases p,
{
    if p > 0 && !is_eol(text[p - 1]) {
        lemma_line_start_le(text, p - 1);
    }
}

/// The first span at or after position `k` whose line start differs from
/// `ls`: the end of the group of spans that share the line starting at `ls`.
pub open spec fn group_end(text: Seq<char>, spans: Seq<(int, int)>, k: int, ls: int) -> int
    decreases spans.len() - k,
{
    if k < 0 || k >= spans.len() {
        spans.len() as int
    } else if line_start(text, spans[k].0) == ls {
        group_end(text, spans, k + 1, ls)
    } else {
        k
    }
}

pub proof fn lemma_group_end_bounds(text: Seq<char>, spans: Seq<(int, int)>, k: int, ls: int)
    requires
        0 <= k <= spans.len(),
    ensures
        k <= group_end(text, spans, k, ls) <= spans.len(),
    decreases spans.len() - k,
{
    if k < spans.len() && line_start(text, spans[k].0) == ls {
        lemma_group_end_bounds(text, spans, k + 1, ls);
    }
}

#[via_fn]
proof fn groups_from_decreases(text: Seq<char>, spans: Seq<(int, int)>, t: int) {
    if 0 <= t < spans.len() {
        lemma_group_end_bounds(text, spans, t + 1, line_start(text, spans[t].0));
    }
}

/// The reported lines for the spans from position `t` on: the first span
/// fixes the line (its start from the span's start, its end from the first
/// span's end); every following span starting on the same line joins the
/// group, with positions made relative to the line start.
pub open spec fn groups_from(text: Seq<char>, spans: Seq<(int, int)>, t: int) -> Seq<GrepLineV>
    decreases spans.len() - t
        when 0 <= t
        via groups_from_decreases
{
    if t < 0 || t >= spans.len() {
        Seq::empty()
    } else {
        let ls = line_start(text, spans[t].0);
        let le = line_end(text, spans[t].1);
        let t2 = group_end(text, spans, t + 1, ls);
        let g = GrepLineV {
            line: text.subrange(ls, le),
            ranges: Seq::new((t2 - t) as nat, |j: int| (spans[t + j].0 - ls, spans[t + j].1 - ls)),
        };
        seq![g] + groups_from(text, spans, t2)
    }
}

fn is_eol_x(c: char) -> (b: bool)
    ensures
        b == is_eol(c),
{
    c == '\n' || c == '\r'
}

fn line_start_at(text: &str, p: usize) -> (r: usize)
    requires
        p <= text@.len(),
    ensures
        r as int == line_start(text@, p as int),
        r <= p,
{
    let mut j = p;
    while j > 0
        invariant
            j <= p <= text@.len(),
            line_start(text@, p as int) == line_start(text@, j as int),
        decreases j,
    {
        if is_eol_x(text.get_char(j - 1)) {
            return j;
        }
        j -= 1;
    }
    0
}

fn line_end_at(text: &str, p: usize) -> (r: usize)
    requires
        p <= text@.len(),
    ensures
        r as int == line_end(text@, p as int),
        p <= r <= text@.len(),
{
    let n = text.unicode_len();
    let mut j = p;
    while j < n
        invariant
            p <= j <= n,
            n == text@.len(),
            line_end(text@, p as int) == line_end(text@, j as int),
        decreases n - j,
    {
        if is_eol_x(text.get_char(j)) {
            return j;
        }
        j += 1;
    }
    n
}

impl GrepLineMatches {
    /// All lines of `text` holding at least one match of `m`, in text order,
    /// with the match positions relative to each line start: the grouping per
    /// `groups_from` of the spans the regex crate reports for `m` over
    /// `text`.
    pub fn new(text: &str, m: &Matcher) -> (r: Vec<GrepLineMatches>)
        ensures
            glm_views(r@) == groups_from(text@, regex_match_spans(m.pat(), text@), 0),
    {
        let spans = m.find_spans(text);
        group_matches(text, &spans)
    }
}

/// Groups sorted match spans by the line their start lies on, exactly as
/// `groups_from` states.
pub fn group_matches(text: &str, spans: &Vec<(usize, usize)>) -> (r: Vec<GrepLineMatches>)
    requires
        forall|i: int|
            0 <= i < spans@.len() ==> (#[trigger] spans@[i]).0 <= spans@[i].1 && spans@[i].1
                <= text@.len(),
        forall|i: int| 0 < i < spans@.len() ==> (#[trigger] spans@[i]).0 >= spans@[i - 1].1,
    ensures
        glm_views(r@) == groups_from(text@, span_views(spans@), 0),
{
    let ghost sv = span_views(spans@);
    proof {
        assert forall|i: int| 0 <= i < sv.len() implies (#[trigger] sv[i]) == (
            spans@[i].0 as int,
            spans@[i].1 as int,
        ) by {}
    }
    let n = spans.len();
    let mut out: Vec<GrepLineMatches> = Vec::new();
    let mut t: usize = 0;
    proof {
        assert(glm_views(out@) =~= Seq::<GrepLineV>::empty());
    }
    while t < n
        invariant
            n == spans@.len(),
            sv == span_views(spans@),
            sv.len() == n,
            t <= n,
            forall|i: int|
                0 <= i < spans@.len() ==> (#[trigger] spans@[i]).0 <= spans@[i].1 && spans@[i].1
                    <= text@.len(),
            forall|i: int| 0 < i < spans@.len() ==> (#[trigger] spans@[i]).0 >= spans@[i - 1].1,
            glm_views(out@) + groups_from(text@, sv, t as int) == groups_from(text@, sv, 0),
        decreases n - t,
    {
        let ghost outv = glm_views(out@);
        let (s0, e0) = spans[t];
        let ls = line_start_at(text, s0);
        let le = line_end_at(text, e0);
        let ghost lsi = ls as int;
        let line = String::from_str(text.substring_char(ls, le));
        let mut ranges: Vec<(usize, usize)> = Vec::new();
        ranges.push((s0 - ls, e0 - ls));
        let mut k = t + 1;
        proof {
            lemma_line_start_le(text@, s0 as int);
            assert(span_views(ranges@) =~= Seq::new(1, |j: int| (sv[t + j].0 - lsi, sv[t + j].1
                - lsi)));
        }
        while k < n
            invariant_except_break
                t < k <= n,
                n == spans@.len(),
                sv == span_views(spans@),
                sv.len() == n,
                forall|i: int|
                    0 <= i < spans@.len() ==> (#[trigger] spans@[i]).0 <= spans@[i].1 && spans@[i].1
                        <= text@.len(),
                forall|i: int| 0 < i < spans@.len() ==> (#[trigger] spans@[i]).0 >= spans@[i - 1].1,
                lsi == ls as int,
                ls <= text@.len(),
                lsi == line_start(text@, sv[t as int].0),
                lsi <= sv[t as int].0,
                group_end(text@, sv, t as int + 1, lsi) == group_end(text@, sv, k as int, lsi),
                span_views(ranges@) == Seq::new((k - t) as nat, |j: int| (sv[t + j].0 - lsi, sv[t
                    + j].1 - lsi)),
            ensures
                t < k <= n,
                k as int == group_end(text@, sv, t as int + 1, lsi),
                span_views(ranges@) == Seq::new((k - t) as nat, |j: int| (sv[t + j].0 - lsi, sv[t
                    + j].1 - lsi)),
            decreases n - k,
        {
            let (sk, ek) = spans[k];
            proof {
                assert(sv[k as int] == (sk as int, ek as int));
            }
            let lsk = line_start_at(text, sk);
            if lsk != ls {
                proof {
                    assert(line_start(text@, sv[k as int].0) != lsi);
                    assert(group_end(text@, sv, k as int, lsi) == k as int);
                }
                break ;
            }
            proof {
                lemma_line_start_le(text@, sk as int);
                assert(lsi == line_start(text@, sk as int));
                assert(lsi <= sk as int);
                assert(sk <= ek);
            }
            let ghost rv = span_views(ranges@);
            let ghost k0 = k as int;
            ranges.push((sk - ls, ek - ls));
            k += 1;
            proof {
                assert(span_views(ranges@) =~= rv.push(((sk - ls) as int, (ek - ls) as int)));
                assert((sk - ls) as int == sv[k0].0 - lsi && (ek - ls) as int == sv[k0].1 - lsi);
                assert(span_views(ranges@) =~= Seq::new((k - t) as nat, |j: int| (sv[t + j].0
                    - lsi, sv[t + j].1 - lsi)));
            }
        }
        proof {
            if k == n {
                assert(group_end(text@, sv, k as int, lsi) == n as int);
            }
        }
        let g = GrepLineMatches { line, ranges };
        let ghost gv = g@;
        let ghost t0 = t as int;
        let ghost lei = le as int;
        proof {
            assert(sv[t0].0 == s0 as int && sv[t0].1 == e0 as int);
            assert(lsi == line_start(text@, sv[t0].0));
            assert(lei == line_end(text@, sv[t0].1));
            assert(gv.line == text@.subrange(lsi, lei));
            assert(gv.ranges == Seq::new((k - t) as nat, |j: int| (sv[t0 + j].0 - lsi, sv[t0
                + j].1 - lsi)));
        }
        out.push(g);
        proof {
            assert(glm_views(out@) =~= outv.push(gv));
            assert(groups_from(text@, sv, t0) == seq![gv] + groups_from(text@, sv, k as int));
            assert(glm_views(out@) + groups_from(text@, sv, k as int) =~= outv + groups_from(
                text@,
                sv,
                t0,
            ));
        }
        t = k;
    }
    out
}

} // verus!
