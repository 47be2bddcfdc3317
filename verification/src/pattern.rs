//! The pattern compiler: turns a glob pattern string into a literal root path
//! plus an ordered list of typed segments, validating brace and bracket
//! well-formedness. The translation of each wildcard component into an
//! anchored, case-insensitive regex is specified exactly by `translate`;
//! only the final regex compilation is delegated to the regex crate.

use vstd::prelude::*;

use crate::matcher::Matcher;
use crate::strutil::{push_char, str_views};

verus! {

/// One path component of a compiled pattern, at the specification level:
/// a constant name, the recursive-descent marker, or the text of the regex
/// a wildcard component was translated to.
pub enum SegView {
    Constant(Seq<char>),
    Recurse,
    Filter(Seq<char>),
}

/// One path component of a compiled pattern: a constant name to be matched
/// exactly (the filesystem provides case folding), the `**` marker, or a
/// compiled case-insensitive, fully anchored match predicate.
pub enum Segment {
    Constant(String),
    Recurse,
    Filter(Matcher),
}

impl View for Segment {
    type V = SegView;

    open spec fn view(&self) -> SegView {
        match self {
            Segment::Constant(s) => SegView::Constant(s@),
            Segment::Recurse => SegView::Recurse,
            Segment::Filter(m) => SegView::Filter(m.pat()),
        }
    }
}

/// Error returned by pattern compilation: either a malformed glob pattern,
/// or a translated component the regex crate refused to compile.
#[derive(Debug)]
pub enum MyGlobError {
    GlobError(String),
    RegexError(regex::Error),
}

/// The ways a pattern can be malformed, at the specification level.
pub enum CompErr {
    TrailingSep,
    ExtraClose,
    SepInBraces,
    RecurseNotAlone,
    Leftover,
}

/// The message carried by the `GlobError` each kind of malformed pattern
/// produces.
pub open spec fn err_msg(e: CompErr) -> Seq<char> {
    match e {
        CompErr::TrailingSep => "Glob pattern can't end with \\ or /"@,
        CompErr::ExtraClose => "Extra closing }"@,
        CompErr::SepInBraces => "Invalid \\ between { }"@,
        CompErr::RecurseNotAlone => "Glob pattern ** must be alone between \\"@,
        CompErr::Leftover => "Internal error"@,
    }
}

pub open spec fn is_sep(c: char) -> bool {
    c == '\\' || c == '/'
}

pub open spec fn is_wildcard(c: char) -> bool {
    c == '*' || c == '?' || c == '[' || c == '{'
}

/// Regex metacharacters that must be escaped when they stand outside a
/// character class.
pub open spec fn is_meta(c: char) -> bool {
    c == '.' || c == '+' || c == '(' || c == ')' || c == '|' || c == '^' || c == '$'
}

pub open spec fn has_wildcard(s: Seq<char>) -> bool {
    exists|k: int| 0 <= k < s.len() && is_wildcard(s[k])
}

/// True iff `**` occurs somewhere in `s`.
pub open spec fn has_double_star(s: Seq<char>) -> bool {
    exists|k: int| 0 <= k && k + 1 < s.len() && #[trigger] s[k] == '*' && s[k + 1] == '*'
}

/// Whether any segment is a filter: only then is the regex crate consulted.
pub open spec fn has_filter(svs: Seq<SegView>) -> bool {
    exists|i: int| 0 <= i < svs.len() && #[trigger] svs[i] is Filter
}

/// The full regex text a wildcard component is compiled to: case-insensitive
/// and anchored to the whole component name.
pub open spec fn filter_pattern(rxb: Seq<char>) -> Seq<char> {
    "(?i)^"@ + rxb + "$"@
}

/// Scanning a character class that starts at index `i` (just after the `[`,
/// and after a leading `!` has been handled): the index just past the closing
/// `]` (or the end of input when the class is unterminated) and the text
/// copied to the regex buffer. Escaped pairs are copied through verbatim.
pub open spec fn class_scan(g: Seq<char>, i: int) -> (int, Seq<char>)
    decreases g.len() - i,
{
    if i < 0 || i >= g.len() {
        (i, Seq::empty())
    } else if g[i] == ']' {
        (i + 1, seq![']'])
    } else if g[i] == '\\' {
        if i + 1 < g.len() {
            let rest = class_scan(g, i + 2);
            (rest.0, seq!['\\', g[i + 1]] + rest.1)
        } else {
            (i + 1, seq!['\\'])
        }
    } else {
        let rest = class_scan(g, i + 1);
        (rest.0, seq![g[i]] + rest.1)
    }
}

pub proof fn lemma_class_scan_bounds(g: Seq<char>, i: int)
    requires
        0 <= i <= g.len(),
    ensures
        i <= class_scan(g, i).0 <= g.len(),
    decreases g.len() - i,
{
    if i < g.len() {
        if g[i] == ']' {
        } else if g[i] == '\\' {
            if i + 1 < g.len() {
                lemma_class_scan_bounds(g, i + 2);
            }
        } else {
            lemma_class_scan_bounds(g, i + 1);
        }
    }
}

#[via_fn]
proof fn translate_decreases(
    g: Seq<char>,
    i: int,
    rxb: Seq<char>,
    cb: Seq<char>,
    depth: int,
    segs: Seq<SegView>,
) {
    if 0 <= i < g.len() && !is_sep(g[i]) && g[i] == '[' {
        if i + 1 < g.len() && g[i + 1] == '!' {
            lemma_class_scan_bounds(g, i + 2);
        } else {
            lemma_class_scan_bounds(g, i + 1);
        }
    }
}

/// The component-by-component translation of the pattern body `g` (which the
/// caller has terminated with a separator): scanning from index `i` with the
/// regex buffer `rxb`, the raw component text `cb`, the brace-nesting depth
/// `depth`, and the segments emitted so far. Mirrors exactly what the
/// executable compiler does.
pub open spec fn translate(
    g: Seq<char>,
    i: int,
    rxb: Seq<char>,
    cb: Seq<char>,
    depth: int,
    segs: Seq<SegView>,
) -> Result<Seq<SegView>, CompErr>
    decreases g.len() - i
        when 0 <= i
        via translate_decreases
{
    if i < 0 || i >= g.len() {
        if rxb.len() != 0 {
            Err(CompErr::Leftover)
        } else {
            Ok(segs)
        }
    } else {
        let c = g[i];
        if is_sep(c) {
            if depth > 0 {
                Err(CompErr::SepInBraces)
            } else if cb == seq!['*', '*'] {
                translate(g, i + 1, Seq::empty(), Seq::empty(), depth, segs.push(SegView::Recurse))
            } else if has_double_star(cb) {
                Err(CompErr::RecurseNotAlone)
            } else if has_wildcard(cb) {
                translate(
                    g,
                    i + 1,
                    Seq::empty(),
                    Seq::empty(),
                    depth,
                    segs.push(SegView::Filter(filter_pattern(rxb))),
                )
            } else {
                translate(
                    g,
                    i + 1,
                    Seq::empty(),
                    Seq::empty(),
                    depth,
                    segs.push(SegView::Constant(cb)),
                )
            }
        } else {
            let cb2 = cb.push(c);
            if c == '*' {
                translate(g, i + 1, rxb + seq!['.', '*'], cb2, depth, segs)
            } else if c == '?' {
                translate(g, i + 1, rxb.push('.'), cb2, depth, segs)
            } else if c == '{' {
                translate(g, i + 1, rxb.push('('), cb2, depth + 1, segs)
            } else if c == ',' && depth > 0 {
                translate(g, i + 1, rxb.push('|'), cb2, depth, segs)
            } else if c == '}' {
                if depth <= 0 {
                    Err(CompErr::ExtraClose)
                } else {
                    translate(g, i + 1, rxb.push(')'), cb2, depth - 1, segs)
                }
            } else if c == '[' {
                let start = if i + 1 < g.len() && g[i + 1] == '!' {
                    i + 2
                } else {
                    i + 1
                };
                let bang: Seq<char> = if i + 1 < g.len() && g[i + 1] == '!' {
                    seq!['[', '^']
                } else {
                    seq!['[']
                };
                let cl = class_scan(g, start);
                translate(g, cl.0, rxb + bang + cl.1, cb2, depth, segs)
            } else if is_meta(c) {
                translate(g, i + 1, rxb + seq!['\\', c], cb2, depth, segs)
            } else {
                translate(g, i + 1, rxb.push(c), cb2, depth, segs)
            }
        }
    }
}

/// What compiling a (separator-terminated) pattern body yields: the segment
/// list, or the malformed-pattern error.
pub open spec fn spec_segments(g: Seq<char>) -> Result<Seq<SegView>, CompErr> {
    translate(g, 0, Seq::empty(), Seq::empty(), 0, Seq::empty())
}

/// Where the literal root of the whole pattern ends and what the compiled
/// body yields: the root path (`.` when empty) and the segment list.
pub open spec fn spec_build(s: Seq<char>) -> Result<(Seq<char>, Seq<SegView>), CompErr> {
    if s.len() > 0 && is_sep(s.last()) {
        Err(CompErr::TrailingSep)
    } else {
        match first_wildcard(s, 0) {
            None => Ok((default_root(s), Seq::empty())),
            Some(w) => {
                let cutroot = match last_sep_before(s, w) {
                    Some(cut) => s.take(cut),
                    None => Seq::empty(),
                };
                let body = (match last_sep_before(s, w) {
                    Some(cut) => s.skip(cut + 1),
                    None => s,
                }).push('\\');
                match spec_segments(body) {
                    Err(e) => Err(e),
                    Ok(svs) => Ok((default_root(cutroot), svs)),
                }
            },
        }
    }
}

/// The index of the first wildcard character at or after `i`, if any.
pub open spec fn first_wildcard(s: Seq<char>, i: int) -> Option<int>
    decreases s.len() - i,
{
    if i < 0 || i >= s.len() {
        None
    } else if is_wildcard(s[i]) {
        Some(i)
    } else {
        first_wildcard(s, i + 1)
    }
}

/// The index of the last separator strictly before `w`, if any.
pub open spec fn last_sep_before(s: Seq<char>, w: int) -> Option<int>
    decreases w,
{
    if w <= 0 {
        None
    } else if is_sep(s[w - 1]) {
        Some(w - 1)
    } else {
        last_sep_before(s, w - 1)
    }
}

/// An empty literal root means the current directory.
pub open spec fn default_root(r: Seq<char>) -> Seq<char> {
    if r.len() == 0 {
        seq!['.']
    } else {
        r
    }
}

/// The folder names that are never expanded during recursive enumeration:
/// the recycle bin, the system volume information folder, and version-control
/// metadata.
pub open spec fn default_ignore() -> Seq<Seq<char>> {
    seq!["$recycle.bin"@, "system volume information"@, ".git"@]
}

fn is_sep_x(c: char) -> (b: bool)
    ensures
        b == is_sep(c),
{
    c == '\\' || c == '/'
}

fn is_wildcard_x(c: char) -> (b: bool)
    ensures
        b == is_wildcard(c),
{
    c == '*' || c == '?' || c == '[' || c == '{'
}

fn is_meta_x(c: char) -> (b: bool)
    ensures
        b == is_meta(c),
{
    c == '.' || c == '+' || c == '(' || c == ')' || c == '|' || c == '^' || c == '$'
}

fn is_double_star_str(s: &str) -> (b: bool)
    ensures
        b == (s@ == seq!['*', '*']),
{
    let r = s.unicode_len() == 2 && s.get_char(0) == '*' && s.get_char(1) == '*';
    if r {
        assert(s@ =~= seq!['*', '*']);
    } else {
        assert(s@ != seq!['*', '*']) by {
            if s@ == seq!['*', '*'] {
                assert(s@.len() == 2 && s@[0] == '*' && s@[1] == '*');
            }
        }
    }
    r
}

fn contains_double_star(s: &str) -> (b: bool)
    ensures
        b == has_double_star(s@),
{
    let n = s.unicode_len();
    if n < 2 {
        return false;
    }
    let mut i: usize = 0;
    while i < n - 1
        invariant
            n == s@.len(),
            2 <= n,
            i <= n - 1,
            forall|k: int| 0 <= k < i ==> !(#[trigger] s@[k] == '*' && s@[k + 1] == '*'),
        decreases n - i,
    {
        if s.get_char(i) == '*' && s.get_char(i + 1) == '*' {
            assert(s@[i as int] == '*' && s@[i as int + 1] == '*');
            return true;
        }
        i += 1;
    }
    false
}

fn contains_wildcard(s: &str) -> (b: bool)
    ensures
        b == has_wildcard(s@),
{
    let n = s.unicode_len();
    let mut i: usize = 0;
    while i < n
        invariant
            n == s@.len(),
            i <= n,
            forall|k: int| 0 <= k < i ==> !is_wildcard(#[trigger] s@[k]),
        decreases n - i,
    {
        if is_wildcard_x(s.get_char(i)) {
            assert(is_wildcard(s@[i as int]));
            return true;
        }
        i += 1;
    }
    false
}

/// The views of a list of compiled segments.
pub open spec fn seg_views(v: Seq<Segment>) -> Seq<SegView> {
    v.map_values(|s: Segment| s@)
}

/// A translated component before regex compilation: the same shape as
/// `Segment`, with the regex still as text.
pub(crate) enum Proto {
    Constant(String),
    Recurse,
    FilterText(String),
}

/// The views of a list of translated components.
pub(crate) open spec fn proto_views(v: Seq<Proto>) -> Seq<SegView> {
    v.map_values(|p: Proto| p@)
}

impl View for Proto {
    type V = SegView;

    closed spec fn view(&self) -> SegView {
        match self {
            Proto::Constant(s) => SegView::Constant(s@),
            Proto::Recurse => SegView::Recurse,
            Proto::FilterText(s) => SegView::Filter(s@),
        }
    }
}

/// Translates a separator-terminated pattern body component by component,
/// exactly as `translate` states; regex compilation comes after.
pub(crate) fn translate_body(g: &str) -> (r: Result<Vec<Proto>, MyGlobError>)
    ensures
        match spec_segments(g@) {
            Err(e) => r matches Err(MyGlobError::GlobError(m)) && m@ == err_msg(e),
            Ok(svs) => r matches Ok(v) && proto_views(v@) == svs,
        },
{
    let n = g.unicode_len();
    let mut protos: Vec<Proto> = Vec::new();
    let mut rxb = String::new();
    let mut cb = String::new();
    let mut depth: usize = 0;
    let mut i: usize = 0;

    proof {
        assert(rxb@ =~= Seq::<char>::empty());
        assert(cb@ =~= Seq::<char>::empty());
        assert(proto_views(protos@) =~= Seq::<SegView>::empty());
    }
    while i < n
        invariant
            n == g@.len(),
            i <= n,
            depth <= i,
            translate(g@, i as int, rxb@, cb@, depth as int, proto_views(protos@))
                == spec_segments(g@),
        decreases n - i,
    {
        let ghost vs0 = proto_views(protos@);
        let ghost rxb0 = rxb@;
        let ghost cb0 = cb@;
        let ghost i0 = i as int;
        let ghost d0 = depth as int;
        let c = g.get_char(i);
        if is_sep_x(c) {
            if depth > 0 {
                assert(spec_segments(g@) == Err::<Seq<SegView>, CompErr>(CompErr::SepInBraces));
                return Err(
                    MyGlobError::GlobError(String::from_str("Invalid \\ between { }")),
                );
            }
            if is_double_star_str(cb.as_str()) {
                protos.push(Proto::Recurse);
                assert(proto_views(protos@) =~= vs0.push(SegView::Recurse));
            } else if contains_double_star(cb.as_str()) {
                assert(spec_segments(g@) == Err::<Seq<SegView>, CompErr>(
                    CompErr::RecurseNotAlone,
                ));
                return Err(
                    MyGlobError::GlobError(
                        String::from_str("Glob pattern ** must be alone between \\"),
                    ),
                );
            } else if contains_wildcard(cb.as_str()) {
                let mut pat = String::from_str("(?i)^");
                pat.append(rxb.as_str());
                pat.append("$");
                assert(pat@ =~= filter_pattern(rxb0));
                protos.push(Proto::FilterText(pat));
                assert(proto_views(protos@) =~= vs0.push(
                    SegView::Filter(filter_pattern(rxb0)),
                ));
            } else {
                protos.push(Proto::Constant(cb));
                assert(proto_views(protos@) =~= vs0.push(SegView::Constant(cb0)));
            }
            rxb = String::new();
            cb = String::new();
            i += 1;
        } else {
            push_char(&mut cb, c);
            if c == '*' {
                push_char(&mut rxb, '.');
                push_char(&mut rxb, '*');
                assert(rxb@ =~= rxb0 + seq!['.', '*']);
                i += 1;
            } else if c == '?' {
                push_char(&mut rxb, '.');
                i += 1;
            } else if c == '{' {
                push_char(&mut rxb, '(');
                depth += 1;
                i += 1;
            } else if c == ',' && depth > 0 {
                push_char(&mut rxb, '|');
                i += 1;
            } else if c == '}' {
                if depth == 0 {
                    assert(spec_segments(g@) == Err::<Seq<SegView>, CompErr>(CompErr::ExtraClose));
                    return Err(MyGlobError::GlobError(String::from_str("Extra closing }")));
                }
                push_char(&mut rxb, ')');
                depth -= 1;
                i += 1;
            } else if c == '[' {
                push_char(&mut rxb, '[');
                let has_bang = i + 1 < n && g.get_char(i + 1) == '!';
                let start: usize = if has_bang {
                    push_char(&mut rxb, '^');
                    i + 2
                } else {
                    i + 1
                };
                let ghost bang: Seq<char> = if has_bang {
                    seq!['[', '^']
                } else {
                    seq!['[']
                };
                let ghost cl = class_scan(g@, start as int);
                let ghost rxb_base = rxb@;
                proof {
                    assert(rxb_base =~= rxb0 + bang);
                }
                proof {
                    lemma_class_scan_bounds(g@, start as int);
                }
                let mut j: usize = start;
                let mut closed = false;
                while !closed && j < n
                    invariant
                        n == g@.len(),
                        start <= j,
                        j <= n,
                        !closed ==> cl.0 == class_scan(g@, j as int).0 && rxb_base + cl.1 == rxb@
                            + class_scan(g@, j as int).1,
                        closed ==> j as int == cl.0 && rxb@ == rxb_base + cl.1,
                    decreases n - j,
                {
                    let ghost rxbj = rxb@;
                    let c2 = g.get_char(j);
                    if c2 == ']' {
                        push_char(&mut rxb, ']');
                        assert(class_scan(g@, j as int) == ((j + 1) as int, seq![']']));
                        assert(rxb_base + cl.1 =~= rxb@);
                        j += 1;
                        closed = true;
                    } else if c2 == '\\' {
                        if j + 1 < n {
                            let c3 = g.get_char(j + 1);
                            push_char(&mut rxb, '\\');
                            push_char(&mut rxb, c3);
                            assert(class_scan(g@, j as int).1 =~= seq!['\\', c3] + class_scan(
                                g@,
                                j as int + 2,
                            ).1);
                            assert(rxbj + class_scan(g@, j as int).1 =~= rxb@ + class_scan(
                                g@,
                                j as int + 2,
                            ).1);
                            j += 2;
                        } else {
                            push_char(&mut rxb, '\\');
                            assert(class_scan(g@, j as int) == ((j + 1) as int, seq!['\\']));
                            assert(rxbj + class_scan(g@, j as int).1 =~= rxb@ + class_scan(
                                g@,
                                j as int + 1,
                            ).1);
                            j += 1;
                        }
                    } else {
                        push_char(&mut rxb, c2);
                        assert(class_scan(g@, j as int).1 =~= seq![c2] + class_scan(
                            g@,
                            j as int + 1,
                        ).1);
                        assert(rxbj + class_scan(g@, j as int).1 =~= rxb@ + class_scan(
                            g@,
                            j as int + 1,
                        ).1);
                        j += 1;
                    }
                }
                proof {
                    if !closed {
                        assert(class_scan(g@, j as int) == (j as int, Seq::<char>::empty()));
                        assert(rxb_base + cl.1 =~= rxb@ + Seq::<char>::empty());
                        assert(rxb@ + Seq::<char>::empty() =~= rxb@);
                    }
                    assert(j as int == cl.0);
                    assert(rxb@ == rxb_base + cl.1);
                    assert(rxb@ =~= rxb0 + bang + cl.1);
                }
                i = j;
            } else if is_meta_x(c) {
                push_char(&mut rxb, '\\');
                push_char(&mut rxb, c);
                assert(rxb@ =~= rxb0 + seq!['\\', c]);
                i += 1;
            } else {
                push_char(&mut rxb, c);
                i += 1;
            }
        }
        assert(translate(g@, i as int, rxb@, cb@, depth as int, proto_views(protos@))
            == translate(g@, i0, rxb0, cb0, d0, vs0));
    }
    if rxb.as_str().unicode_len() > 0 {
        assert(spec_segments(g@) == Err::<Seq<SegView>, CompErr>(CompErr::Leftover));
        return Err(MyGlobError::GlobError(String::from_str("Internal error")));
    }
    Ok(protos)
}

/// Compiles each translated filter component with the regex crate; the views
/// are preserved exactly, and the only possible failure is the regex crate
/// refusing a pattern.
pub(crate) fn compile_protos(protos: &Vec<Proto>) -> (r: Result<Vec<Segment>, MyGlobError>)
    ensures
        match r {
            Ok(v) => seg_views(v@) == proto_views(protos@),
            Err(e) => e matches MyGlobError::RegexError(_) && has_filter(proto_views(protos@)),
        },
{
    let mut out: Vec<Segment> = Vec::new();
    let n = protos.len();
    let mut k: usize = 0;
    proof {
        assert(seg_views(out@) =~= proto_views(protos@).take(0));
    }
    while k < n
        invariant
            n == protos@.len(),
            k <= n,
            seg_views(out@) == proto_views(protos@).take(k as int),
        decreases n - k,
    {
        let seg: Segment = match &protos[k] {
            Proto::Constant(s) => Segment::Constant(s.clone()),
            Proto::Recurse => Segment::Recurse,
            Proto::FilterText(t) => match Matcher::new(t.clone()) {
                Ok(m) => Segment::Filter(m),
                Err(e) => {
                    assert(proto_views(protos@)[k as int] is Filter);
                    return Err(MyGlobError::RegexError(e));
                },
            },
        };
        assert(seg@ == protos@[k as int]@);
        let ghost out0 = out@;
        let ghost k0 = k as int;
        out.push(seg);
        k += 1;
        proof {
            assert(proto_views(protos@).len() == protos@.len());
            assert(seg_views(out0).len() == out0.len());
            assert(proto_views(protos@).take(k0).len() == k0);
            assert(out@.len() == k);
            assert(k <= n == protos@.len());
            assert forall|t: int| 0 <= t < out@.len() implies seg_views(out@)[t] == proto_views(
                protos@,
            ).take(k as int)[t] by {
                assert(0 <= t < protos@.len());
                if t < out0.len() {
                    assert(out@[t] == out0[t]);
                    assert(seg_views(out0)[t] == out0[t]@);
                } else {
                    assert(out@[t] == seg);
                    assert(seg@ == protos@[t]@);
                }
                assert(seg_views(out@)[t] == out@[t]@);
                assert(proto_views(protos@)[t] == protos@[t]@);
            }
            assert(seg_views(out@) =~= proto_views(protos@).take(k as int));
        }
    }
    proof {
        assert(proto_views(protos@).take(n as int) =~= protos@.map_values(
            |p: Proto| p@,
        ));
    }
    Ok(out)
}

/// Turns a separator-terminated pattern body into compiled segments: the
/// translation is exact per `spec_segments`; a `RegexError` can only come
/// from the regex crate refusing a translated component.
pub(crate) fn glob_to_segments(g: &str) -> (r: Result<Vec<Segment>, MyGlobError>)
    ensures
        match spec_segments(g@) {
            Err(e) => r matches Err(MyGlobError::GlobError(m)) && m@ == err_msg(e),
            Ok(svs) => match r {
                Ok(v) => seg_views(v@) == svs,
                Err(e) => e matches MyGlobError::RegexError(_) && has_filter(svs),
            },
        },
{
    match translate_body(g) {
        Err(e) => Err(e),
        Ok(protos) => compile_protos(&protos),
    }
}

/// A compiled glob search: an immutable literal root path, the ordered list
/// of segments that follow it (empty when the whole pattern was literal), and
/// the folder names excluded from recursive expansion.
pub struct MyGlobSearch {
    pub(crate) root: String,
    pub(crate) segments: Vec<Segment>,
    pub(crate) ignore_folders: Vec<String>,
}

impl MyGlobSearch {
    /// The literal root path.
    pub closed spec fn root_view(&self) -> Seq<char> {
        self.root@
    }

    /// The compiled segments.
    pub closed spec fn segs_view(&self) -> Seq<SegView> {
        seg_views(self.segments@)
    }

    /// The folder names excluded from recursive expansion, lowercase.
    pub closed spec fn ignore_view(&self) -> Seq<Seq<char>> {
        str_views(self.ignore_folders@)
    }

    /// The view functions, spelled out for the sibling modules that hold the
    /// engine.
    pub(crate) proof fn lemma_views(&self)
        ensures
            self.root_view() == self.root@,
            self.segs_view() == seg_views(self.segments@),
            self.ignore_view() == str_views(self.ignore_folders@),
    {
    }

    /// The literal root path, for callers.
    pub fn root(&self) -> (r: &str)
        ensures
            r@ == self.root_view(),
    {
        self.root.as_str()
    }

    /// Compiles a glob pattern into a root and segments, as `spec_build`
    /// states, with the built-in ignore list: the pattern is split at the
    /// last separator before the first wildcard; malformed patterns give back
    /// exactly the stated `GlobError`; a `RegexError` can only come from the
    /// regex crate refusing a translated component.
    pub fn build(globstr: &str) -> (r: Result<MyGlobSearch, MyGlobError>)
        ensures
            match spec_build(globstr@) {
                Err(e) => r matches Err(MyGlobError::GlobError(m)) && m@ == err_msg(e),
                Ok(pair) => match r {
                    Ok(gs) => gs.root_view() == pair.0 && gs.segs_view() == pair.1
                        && gs.ignore_view() == default_ignore(),
                    Err(e) => e matches MyGlobError::RegexError(_) && has_filter(pair.1),
                },
            },
    {
        Self::build_with_ignore(globstr, default_ignore_x())
    }

    /// Compiles a glob pattern as `build` does, but with the given folder
    /// names (lowercase) excluded from recursive expansion in place of the
    /// built-in list.
    pub fn build_with_ignore(globstr: &str, ignore_folders: Vec<String>) -> (r: Result<
        MyGlobSearch,
        MyGlobError,
    >)
        ensures
            match spec_build(globstr@) {
                Err(e) => r matches Err(MyGlobError::GlobError(m)) && m@ == err_msg(e),
                Ok(pair) => match r {
                    Ok(gs) => gs.root_view() == pair.0 && gs.segs_view() == pair.1
                        && gs.ignore_view() == str_views(ignore_folders@),
                    Err(e) => e matches MyGlobError::RegexError(_) && has_filter(pair.1),
                },
            },
    {
        let n = globstr.unicode_len();
        if n > 0 && is_sep_x(globstr.get_char(n - 1)) {
            assert(globstr@.last() == globstr@[n - 1]);
            return Err(
                MyGlobError::GlobError(String::from_str("Glob pattern can't end with \\ or /")),
            );
        }

        // The first component with a wildcard, if any.
        let mut w_opt: Option<usize> = None;
        let mut i: usize = 0;
        while i < n
            invariant_except_break
                w_opt is None,
            invariant
                n == globstr@.len(),
                i <= n,
                first_wildcard(globstr@, 0) == first_wildcard(globstr@, i as int),
            ensures
                w_opt matches Some(wi) ==> wi == i && i < n && is_wildcard(globstr@[i as int]),
                w_opt is None ==> i >= n,
            decreases n - i,
        {
            if is_wildcard_x(globstr.get_char(i)) {
                w_opt = Some(i);
                break ;
            }
            i += 1;
        }
        if w_opt.is_none() {
            assert(first_wildcard(globstr@, 0) is None);
            let root = if n == 0 {
                String::from_str(".")
            } else {
                globstr.to_owned()
            };
            proof {
                reveal_strlit(".");
                assert(root@ =~= default_root(globstr@));
            }
            let segments: Vec<Segment> = Vec::new();
            proof {
                assert(seg_views(segments@) =~= Seq::<SegView>::empty());
            }
            return Ok(MyGlobSearch { root, segments, ignore_folders });
        }
        let w = i;
        assert(first_wildcard(globstr@, 0) == Some(w as int));

        // The last separator before the wildcard, if any: the root ends there.
        let mut cut_opt: Option<usize> = None;
        let mut j: usize = w;
        while j > 0
            invariant_except_break
                cut_opt is None,
            invariant
                n == globstr@.len(),
                j <= w < n,
                last_sep_before(globstr@, w as int) == last_sep_before(globstr@, j as int),
            ensures
                cut_opt matches Some(c) ==> c == j - 1 && j > 0 && is_sep(globstr@[j - 1]),
                cut_opt is None ==> j == 0,
            decreases j,
        {
            if is_sep_x(globstr.get_char(j - 1)) {
                cut_opt = Some(j - 1);
                break ;
            }
            j -= 1;
        }

        let (root, start): (String, usize) = match cut_opt {
            Some(cut) => {
                assert(last_sep_before(globstr@, w as int) == Some(cut as int));
                let r = if cut == 0 {
                    String::from_str(".")
                } else {
                    String::from_str(globstr.substring_char(0, cut))
                };
                proof {
                    reveal_strlit(".");
                    assert(globstr@.subrange(0, cut as int) =~= globstr@.take(cut as int));
                    assert(r@ =~= default_root(globstr@.take(cut as int)));
                }
                (r, cut + 1)
            },
            None => {
                assert(j == 0);
                assert(last_sep_before(globstr@, w as int) is None);
                let r = String::from_str(".");
                proof {
                    reveal_strlit(".");
                    assert(r@ =~= default_root(Seq::<char>::empty()));
                }
                (r, 0)
            },
        };
        let ghost root_spec: Seq<char> = root@;

        // The pattern body, terminated with a separator so that the last
        // component needs no special casing.
        let mut body = String::new();
        let mut k: usize = start;
        proof {
            assert(body@ =~= globstr@.subrange(start as int, start as int));
        }
        while k < n
            invariant
                n == globstr@.len(),
                start <= k <= n,
                body@ == globstr@.subrange(start as int, k as int),
            decreases n - k,
        {
            push_char(&mut body, globstr.get_char(k));
            k += 1;
            assert(body@ =~= globstr@.subrange(start as int, k as int));
        }
        push_char(&mut body, '\\');
        proof {
            if cut_opt is Some {
                assert(globstr@.subrange(start as int, n as int) =~= globstr@.skip(
                    start as int,
                ));
            } else {
                assert(globstr@.subrange(0, n as int) =~= globstr@);
            }
        }

        match glob_to_segments(body.as_str()) {
            Err(e) => Err(e),
            Ok(segments) => Ok(MyGlobSearch { root, segments, ignore_folders }),
        }
    }
}

/// The built-in ignore list, lowercase.
fn default_ignore_x() -> (r: Vec<String>)
    ensures
        str_views(r@) == default_ignore(),
{
    let mut v: Vec<String> = Vec::new();
    v.push(String::from_str("$recycle.bin"));
    v.push(String::from_str("system volume information"));
    v.push(String::from_str(".git"));
    proof {
        assert(str_views(v@) =~= default_ignore());
    }
    v
}

} // verus!
