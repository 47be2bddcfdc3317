//! Book-name analysis: splitting a file name of the form
//! `Title (edition, year) - [Editor] - Author.ext` into its parts, and the
//! bracket-balance check used when validating names.

use vstd::prelude::*;

use crate::matcher::{regex_captures_pair, Matcher};
use crate::pattern::last_sep_before;

verus! {

/// The opener each closing bracket must match.
pub open spec fn opener_of(c: char) -> char {
    if c == ')' {
        '('
    } else if c == ']' {
        '['
    } else if c == '}' {
        '{'
    } else if c == '»' {
        '«'
    } else {
        '‹'
    }
}

pub open spec fn is_opener(c: char) -> bool {
    c == '(' || c == '[' || c == '{' || c == '«' || c == '‹'
}

pub open spec fn is_closer(c: char) -> bool {
    c == ')' || c == ']' || c == '}' || c == '»' || c == '›'
}

/// Whether the bracket pairs of `s` are correctly nested and closed, scanning
/// from `i` with the innermost open bracket in `cur` (a space when none) and
/// the outer ones in `stk`.
pub open spec fn balanced_from(s: Seq<char>, i: int, cur: char, stk: Seq<char>) -> bool
    decreases s.len() - i,
{
    if i < 0 || i >= s.len() {
        cur == ' '
    } else {
        let c = s[i];
        if is_opener(c) {
            balanced_from(s, i + 1, c, stk.push(cur))
        } else if is_closer(c) {
            if stk.len() == 0 {
                false
            } else if cur == opener_of(c) {
                balanced_from(s, i + 1, stk.last(), stk.drop_last())
            } else {
                false
            }
        } else {
            balanced_from(s, i + 1, cur, stk)
        }
    }
}

fn is_opener_x(c: char) -> (b: bool)
    ensures
        b == is_opener(c),
{
    c == '(' || c == '[' || c == '{' || c == '«' || c == '‹'
}

fn is_closer_x(c: char) -> (b: bool)
    ensures
        b == is_closer(c),
{
    c == ')' || c == ']' || c == '}' || c == '»' || c == '›'
}

/// Checks that the `()`, `[]`, `{}`, `«»` and `‹›` pairs of `s` are correctly
/// nested and all closed.
pub fn is_balanced(s: &str) -> (r: bool)
    ensures
        r == balanced_from(s@, 0, ' ', Seq::empty()),
{
    let n = s.unicode_len();
    let mut stack: Vec<char> = Vec::new();
    let mut current_state: char = ' ';
    let mut i: usize = 0;
    proof {
        assert(stack@ =~= Seq::<char>::empty());
    }
    while i < n
        invariant
            n == s@.len(),
            i <= n,
            balanced_from(s@, i as int, current_state, stack@) == balanced_from(
                s@,
                0,
                ' ',
                Seq::empty(),
            ),
        decreases n - i,
    {
        let c = s.get_char(i);
        if is_opener_x(c) {
            stack.push(current_state);
            current_state = c;
        } else if is_closer_x(c) {
            if stack.len() == 0 {
                return false;
            }
            let opener = opener_of_x(c);
            if current_state == opener {
                let ghost stk0 = stack@;
                match stack.pop() {
                    Some(prev) => {
                        proof {
                            assert(prev == stk0.last());
                            assert(stack@ =~= stk0.drop_last());
                        }
                        current_state = prev;
                    },
                    None => {
                        proof {
                            assert(false);
                        }
                    },
                }
            } else {
                return false;
            }
        }
        i += 1;
    }
    current_state == ' '
}

fn opener_of_x(c: char) -> (r: char)
    ensures
        r == opener_of(c),
{
    if c == ')' {
        '('
    } else if c == ']' {
        '['
    } else if c == '}' {
        '{'
    } else if c == '»' {
        '«'
    } else {
        '‹'
    }
}

/// The first occurrence of `c` in `s` at or after `i`, if any.
pub open spec fn first_ch_from(s: Seq<char>, c: char, i: int) -> Option<int>
    decreases s.len() - i,
{
    if i < 0 || i >= s.len() {
        None
    } else if s[i] == c {
        Some(i)
    } else {
        first_ch_from(s, c, i + 1)
    }
}

pub proof fn lemma_first_ch_bounds(s: Seq<char>, c: char, i: int)
    requires
        0 <= i,
    ensures
        match first_ch_from(s, c, i) {
            Some(k) => i <= k && k < s.len(),
            None => true,
        },
    decreases s.len() - i,
{
    if i < s.len() && s[i] != c {
        lemma_first_ch_bounds(s, c, i + 1);
    }
}

/// The position of the first `c` at or after `start_position`, or `None` when
/// there is none or the start lies beyond the string.
pub fn find_from_position(s: &str, c: char, start_position: usize) -> (r: Option<usize>)
    ensures
        match first_ch_from(s@, c, start_position as int) {
            Some(k) => r matches Some(u) && u as int == k && start_position <= k && k < s@.len(),
            None => r is None,
        },
{
    let n = s.unicode_len();
    let mut i: usize = start_position;
    if i >= n {
        return None;
    }
    while i < n
        invariant
            n == s@.len(),
            start_position <= i <= n,
            first_ch_from(s@, c, start_position as int) == first_ch_from(s@, c, i as int),
        decreases n - i,
    {
        if s.get_char(i) == c {
            return Some(i);
        }
        i += 1;
    }
    None
}


/// The last `c` strictly before position `w`, if any.
pub open spec fn last_ch_before(s: Seq<char>, c: char, w: int) -> Option<int>
    decreases w,
{
    if w <= 0 {
        None
    } else if s[w - 1] == c {
        Some(w - 1)
    } else {
        last_ch_before(s, c, w - 1)
    }
}

/// Where the base name of a path starts: just after the last separator.
pub open spec fn base_start(s: Seq<char>) -> int {
    match last_sep_before(s, s.len() as int) {
        Some(i) => i + 1,
        None => 0,
    }
}

/// A path carries a stem and an extension: its base name holds a dot that is
/// not its first character.
pub open spec fn has_stem(s: Seq<char>) -> bool {
    match last_ch_before(s, '.', s.len() as int) {
        Some(d) => d > base_start(s),
        None => false,
    }
}

/// The stem of a path: the base name up to its last dot.
pub open spec fn spec_stem(s: Seq<char>) -> Seq<char> {
    match last_ch_before(s, '.', s.len() as int) {
        Some(d) => s.subrange(base_start(s), d),
        None => s.skip(base_start(s)),
    }
}

/// The first occurrence of the three-character part separator `" - "` at or
/// after `i`, if any.
pub open spec fn find_dash_sep(s: Seq<char>, i: int) -> Option<int>
    decreases s.len() - i,
{
    if i < 0 || i + 3 > s.len() {
        None
    } else if s[i] == ' ' && s[i + 1] == '-' && s[i + 2] == ' ' {
        Some(i)
    } else {
        find_dash_sep(s, i + 1)
    }
}

pub proof fn lemma_find_dash_sep_bounds(s: Seq<char>, i: int)
    requires
        0 <= i,
    ensures
        match find_dash_sep(s, i) {
            Some(k) => i <= k && k + 3 <= s.len(),
            None => true,
        },
    decreases s.len() - i,
{
    if i + 3 <= s.len() && !(s[i] == ' ' && s[i + 1] == '-' && s[i + 2] == ' ') {
        lemma_find_dash_sep_bounds(s, i + 1);
    }
}

#[via_fn]
proof fn split_from_decreases(s: Seq<char>, i: int) {
    lemma_find_dash_sep_bounds(s, i);
}

/// The parts of `s` from position `i` on, split on `" - "`.
pub open spec fn split_from(s: Seq<char>, i: int) -> Seq<Seq<char>>
    decreases s.len() - i
        when 0 <= i
        via split_from_decreases
{
    match find_dash_sep(s, i) {
        None => seq![s.skip(i)],
        Some(k) => seq![s.subrange(i, k)] + split_from(s, k + 3),
    }
}

/// How one, two or three stem parts become title, editor and authors: a
/// second part names the editor when it opens with `[`, else the authors.
/// More than three parts is an error.
pub open spec fn title_trio(parts: Seq<Seq<char>>) -> Option<(Seq<char>, Seq<char>, Seq<char>)> {
    if parts.len() == 1 {
        Some((parts[0], Seq::empty(), Seq::empty()))
    } else if parts.len() == 2 {
        if parts[1].len() > 0 && parts[1][0] == '[' {
            Some((parts[0], parts[1], Seq::empty()))
        } else {
            Some((parts[0], Seq::empty(), parts[1]))
        }
    } else if parts.len() == 3 {
        Some((parts[0], parts[1], parts[2]))
    } else {
        None
    }
}

pub open spec fn is_space(c: char) -> bool {
    c == ' ' || c == '\t' || c == '\r' || c == '\n'
}

/// The first non-space position at or after `i`, if any.
pub open spec fn first_nonspace(s: Seq<char>, i: int) -> Option<int>
    decreases s.len() - i,
{
    if i < 0 || i >= s.len() {
        None
    } else if !is_space(s[i]) {
        Some(i)
    } else {
        first_nonspace(s, i + 1)
    }
}

/// The last non-space position strictly before `w`, if any.
pub open spec fn last_nonspace_before(s: Seq<char>, w: int) -> Option<int>
    decreases w,
{
    if w <= 0 {
        None
    } else if !is_space(s[w - 1]) {
        Some(w - 1)
    } else {
        last_nonspace_before(s, w - 1)
    }
}

/// `s` without leading and trailing spaces.
pub open spec fn spec_trim(s: Seq<char>) -> Seq<char> {
    match first_nonspace(s, 0) {
        None => Seq::empty(),
        Some(a) => match last_nonspace_before(s, s.len() as int) {
            Some(b) => s.subrange(a, b + 1),
            None => Seq::empty(),
        },
    }
}

/// `s` without trailing spaces.
pub open spec fn spec_trim_end(s: Seq<char>) -> Seq<char> {
    match last_nonspace_before(s, s.len() as int) {
        None => Seq::empty(),
        Some(b) => s.take(b + 1),
    }
}

/// The regex an edition-and-year block between parentheses must match:
/// an optional edition ordinal followed by `" ed, "`, then a four-digit year
/// or `X`.
pub open spec fn book_pattern() -> Seq<char> {
    "^(?:(1ère|[12]?\\dè|[2-9]?1st|[2-9]?2nd|[2-9]?3rd|\\d?[04-9]th|11th|12th|13th) ed, )?(\\d{4}|X)$"@
}

/// The parts of a book's file name.
#[derive(Debug)]
pub struct BookName {
    pub path: String,
    pub full_title: String,
    pub base_title: String,
    pub editor: String,
    pub authors: String,
    pub edition_year: String,
    pub edition: String,
    pub year: String,
    pub braced: String,
}

/// The view of a parsed book name.
pub struct BookV {
    pub path: Seq<char>,
    pub full_title: Seq<char>,
    pub base_title: Seq<char>,
    pub editor: Seq<char>,
    pub authors: Seq<char>,
    pub edition_year: Seq<char>,
    pub edition: Seq<char>,
    pub year: Seq<char>,
    pub braced: Seq<char>,
}

impl View for BookName {
    type V = BookV;

    open spec fn view(&self) -> BookV {
        BookV {
            path: self.path@,
            full_title: self.full_title@,
            base_title: self.base_title@,
            editor: self.editor@,
            authors: self.authors@,
            edition_year: self.edition_year@,
            edition: self.edition@,
            year: self.year@,
            braced: self.braced@,
        }
    }
}

/// The error for a block between parentheses that the block pattern does not
/// match. It also covers the regex crate refusing the fixed block pattern,
/// which its documentation shows cannot happen.
pub open spec fn invalid_block_msg(path: Seq<char>) -> Seq<char> {
    "Err: Invalid block between parentheses: "@ + path
}

/// The last phase of parsing: extracting a braced block from the base title.
pub open spec fn brace_phase(
    path: Seq<char>,
    ft: Seq<char>,
    ed: Seq<char>,
    au: Seq<char>,
    bt: Seq<char>,
    ey: Seq<char>,
    edi: Seq<char>,
    yr: Seq<char>,
) -> Result<BookV, Seq<char>> {
    match first_ch_from(bt, '{', 0) {
        None => Ok(
            BookV {
                path: path,
                full_title: ft,
                base_title: bt,
                editor: ed,
                authors: au,
                edition_year: ey,
                edition: edi,
                year: yr,
                braced: Seq::empty(),
            },
        ),
        Some(ix) => match first_ch_from(bt, '}', ix + 1) {
            None => Err("Err: Missing closing curly brace: "@ + path),
            Some(ixe) => Ok(
                BookV {
                    path: path,
                    full_title: ft,
                    base_title: spec_trim_end(bt.take(ix) + bt.skip(ixe + 1)),
                    editor: ed,
                    authors: au,
                    edition_year: ey,
                    edition: edi,
                    year: yr,
                    braced: bt.subrange(ix + 1, ixe),
                },
            ),
        },
    }
}

/// What parsing a book's file name yields: the stem split on `" - "` into
/// title, editor and authors; an edition-and-year block between parentheses
/// lifted out of the title (it must match `book_pattern`); and a braced block
/// lifted out of what remains.
pub open spec fn spec_book(s: Seq<char>) -> Result<BookV, Seq<char>> {
    let st = spec_stem(s);
    match title_trio(split_from(st, 0)) {
        None => Err("Err: >3 seg: "@ + s),
        Some((ft, ed, au)) => match first_ch_from(ft, '(', 0) {
            None => brace_phase(s, ft, ed, au, ft, Seq::empty(), Seq::empty(), Seq::empty()),
            Some(ix) => match first_ch_from(ft, ')', ix + 1) {
                None => Err("Err: Missing closing parenthesis: "@ + s),
                Some(ixe) => {
                    let blockp = ft.subrange(ix + 1, ixe);
                    let base = ft.take(ix) + ft.skip(ixe + 1);
                    match regex_captures_pair(book_pattern(), blockp) {
                        None => Err(invalid_block_msg(s)),
                        Some((g1, g2)) => match g2 {
                            None => Err(invalid_block_msg(s)),
                            Some(y) => brace_phase(
                                s,
                                ft,
                                ed,
                                au,
                                spec_trim(base),
                                blockp,
                                match g1 {
                                    None => Seq::empty(),
                                    Some(e1) => e1,
                                },
                                y,
                            ),
                        },
                    }
                },
            },
        },
    }
}

/// Whether parsing `s` consults the block pattern: the stem has at most three
/// parts and the title holds a closed parenthesized block.
pub open spec fn consults_block_pattern(s: Seq<char>) -> bool {
    match title_trio(split_from(spec_stem(s), 0)) {
        None => false,
        Some((ft, ed, au)) => match first_ch_from(ft, '(', 0) {
            None => false,
            Some(ix) => first_ch_from(ft, ')', ix + 1) is Some,
        },
    }
}


fn is_space_x(c: char) -> (b: bool)
    ensures
        b == is_space(c),
{
    c == ' ' || c == '\t' || c == '\r' || c == '\n'
}

/// `prefix` followed by the path the message is about.
fn err_with_path(prefix: &str, path: &str) -> (r: String)
    ensures
        r@ == prefix@ + path@,
{
    let mut s = prefix.to_owned();
    s.append(path);
    s
}

/// The position of the last `c` in `s`, if any.
fn last_ch_pos(s: &str, c: char) -> (r: Option<usize>)
    ensures
        match last_ch_before(s@, c, s@.len() as int) {
            Some(k) => r matches Some(u) && u as int == k && k < s@.len(),
            None => r is None,
        },
{
    let n = s.unicode_len();
    let mut j: usize = n;
    while j > 0
        invariant
            j <= n,
            n == s@.len(),
            last_ch_before(s@, c, n as int) == last_ch_before(s@, c, j as int),
        decreases j,
    {
        if s.get_char(j - 1) == c {
            return Some(j - 1);
        }
        j -= 1;
    }
    None
}

/// The position of the last path separator in `s`, if any.
fn last_sep_pos(s: &str) -> (r: Option<usize>)
    ensures
        match last_sep_before(s@, s@.len() as int) {
            Some(k) => r matches Some(u) && u as int == k && k < s@.len(),
            None => r is None,
        },
{
    let n = s.unicode_len();
    let mut j: usize = n;
    while j > 0
        invariant
            j <= n,
            n == s@.len(),
            last_sep_before(s@, n as int) == last_sep_before(s@, j as int),
        decreases j,
    {
        let c = s.get_char(j - 1);
        if c == '\\' || c == '/' {
            return Some(j - 1);
        }
        j -= 1;
    }
    None
}

/// The first `" - "` at or after `i`, if any.
fn find_dash(s: &str, i: usize) -> (r: Option<usize>)
    requires
        i <= s@.len(),
    ensures
        match find_dash_sep(s@, i as int) {
            Some(k) => r matches Some(u) && u as int == k && i <= k && k + 3 <= s@.len(),
            None => r is None,
        },
{
    let n = s.unicode_len();
    let mut j = i;
    while j < n && n - j >= 3
        invariant
            i <= j <= n,
            n == s@.len(),
            find_dash_sep(s@, i as int) == find_dash_sep(s@, j as int),
        decreases n - j,
    {
        if s.get_char(j) == ' ' && s.get_char(j + 1) == '-' && s.get_char(j + 2) == ' ' {
            return Some(j);
        }
        j += 1;
    }
    None
}

/// Splits `s` on `" - "`, exactly as `split_from` states.
fn split_parts(s: &str) -> (r: Vec<String>)
    ensures
        crate::strutil::str_views(r@) == split_from(s@, 0),
{
    let n = s.unicode_len();
    let mut out: Vec<String> = Vec::new();
    let mut i: usize = 0;
    proof {
        assert(crate::strutil::str_views(out@) =~= Seq::<Seq<char>>::empty());
    }
    loop
        invariant_except_break
            i <= n,
            n == s@.len(),
            crate::strutil::str_views(out@) + split_from(s@, i as int) == split_from(s@, 0),
        ensures
            crate::strutil::str_views(out@) == split_from(s@, 0),
        decreases n - i,
    {
        let ghost outv = crate::strutil::str_views(out@);
        match find_dash(s, i) {
            None => {
                out.push(String::from_str(s.substring_char(i, n)));
                proof {
                    assert(s@.subrange(i as int, n as int) =~= s@.skip(i as int));
                    assert(crate::strutil::str_views(out@) =~= outv.push(s@.skip(i as int)));
                    assert(split_from(s@, i as int) == seq![s@.skip(i as int)]);
                    assert(crate::strutil::str_views(out@) =~= outv + split_from(s@, i as int));
                }
                break ;
            },
            Some(k) => {
                out.push(String::from_str(s.substring_char(i, k)));
                proof {
                    assert(crate::strutil::str_views(out@) =~= outv.push(
                        s@.subrange(i as int, k as int),
                    ));
                    assert(split_from(s@, i as int) == seq![s@.subrange(i as int, k as int)]
                        + split_from(s@, k as int + 3));
                    assert(crate::strutil::str_views(out@) + split_from(s@, k as int + 3)
                        =~= outv + split_from(s@, i as int));
                }
                i = k + 3;
            },
        }
    }
    out
}

proof fn lemma_nonspace_last(s: Seq<char>, a: int, w: int)
    requires
        0 <= a < w <= s.len(),
        !is_space(s[a]),
    ensures
        last_nonspace_before(s, w) matches Some(b) && b >= a,
    decreases w,
{
    if w - 1 > a && is_space(s[w - 1]) {
        lemma_nonspace_last(s, a, w - 1);
    }
}

/// `s` without leading and trailing spaces, exactly as `spec_trim` states.
fn trim_str(s: &str) -> (r: String)
    ensures
        r@ == spec_trim(s@),
{
    let n = s.unicode_len();
    let mut a: usize = 0;
    while a < n && is_space_x(s.get_char(a))
        invariant
            a <= n,
            n == s@.len(),
            first_nonspace(s@, 0) == first_nonspace(s@, a as int),
        decreases n - a,
    {
        a += 1;
    }
    if a >= n {
        assert(first_nonspace(s@, 0) is None);
        let r = String::new();
        assert(r@ =~= spec_trim(s@));
        return r;
    }
    assert(first_nonspace(s@, 0) == Some(a as int));
    let mut b: usize = n;
    while b > 0 && is_space_x(s.get_char(b - 1))
        invariant
            b <= n,
            n == s@.len(),
            last_nonspace_before(s@, n as int) == last_nonspace_before(s@, b as int),
        decreases b,
    {
        b -= 1;
    }
    proof {
        lemma_nonspace_last(s@, a as int, n as int);
        assert(last_nonspace_before(s@, b as int) == Some(b as int - 1));
    }
    String::from_str(s.substring_char(a, b))
}

/// `s` without trailing spaces, exactly as `spec_trim_end` states.
fn trim_end_str(s: &str) -> (r: String)
    ensures
        r@ == spec_trim_end(s@),
{
    let n = s.unicode_len();
    let mut b: usize = n;
    while b > 0 && is_space_x(s.get_char(b - 1))
        invariant
            b <= n,
            n == s@.len(),
            last_nonspace_before(s@, n as int) == last_nonspace_before(s@, b as int),
        decreases b,
    {
        b -= 1;
    }
    if b == 0 {
        assert(last_nonspace_before(s@, n as int) is None);
        let r = String::new();
        assert(r@ =~= spec_trim_end(s@));
        return r;
    }
    assert(last_nonspace_before(s@, b as int) == Some(b as int - 1));
    let r = String::from_str(s.substring_char(0, b));
    proof {
        assert(r@ =~= s@.take(b as int));
    }
    r
}

/// The brace phase of `get_book_name`, exactly as `brace_phase` states.
fn brace_exec(
    path: &str,
    ft: String,
    ed: String,
    au: String,
    bt: String,
    ey: String,
    edi: String,
    yr: String,
) -> (r: Result<BookName, String>)
    ensures
        match brace_phase(path@, ft@, ed@, au@, bt@, ey@, edi@, yr@) {
            Ok(b) => r matches Ok(bk) && bk@ == b,
            Err(m) => r matches Err(e) && e@ == m,
        },
{
    match find_from_position(bt.as_str(), '{', 0) {
        None => Ok(
            BookName {
                path: path.to_owned(),
                full_title: ft,
                base_title: bt,
                editor: ed,
                authors: au,
                edition_year: ey,
                edition: edi,
                year: yr,
                braced: String::new(),
            },
        ),
        Some(ix) => {
            let btn = bt.as_str().unicode_len();
            proof {
                assert(first_ch_from(bt@, '{', 0) matches Some(k) && k < bt@.len());
                assert(ix < btn);
            }
            match find_from_position(bt.as_str(), '}', ix + 1) {
                None => Err(err_with_path("Err: Missing closing curly brace: ", path)),
                Some(ixe) => {
                    let btlen = bt.as_str().unicode_len();
                    let blockb = String::from_str(bt.as_str().substring_char(ix + 1, ixe));
                    let mut nb = String::from_str(bt.as_str().substring_char(0, ix));
                    nb.append(bt.as_str().substring_char(ixe + 1, btlen));
                    proof {
                        assert(nb@ =~= bt@.take(ix as int) + bt@.skip(ixe as int + 1));
                    }
                    let nb2 = trim_end_str(nb.as_str());
                    Ok(
                        BookName {
                            path: path.to_owned(),
                            full_title: ft,
                            base_title: nb2,
                            editor: ed,
                            authors: au,
                            edition_year: ey,
                            edition: edi,
                            year: yr,
                            braced: blockb,
                        },
                    )
                },
            }
        },
    }
}

/// Splits a book's file path into its parts, exactly as `spec_book` states:
/// the stem's `" - "` parts give title, editor and authors; a parenthesized
/// block must match `book_pattern` and gives edition and year; a braced block
/// is lifted out of the base title. The invalid-block error also stands for
/// the regex crate refusing the fixed block pattern, which cannot happen for
/// this pattern.
pub fn get_book_name(path: &str) -> (r: Result<BookName, String>)
    requires
        has_stem(path@),
    ensures
        match spec_book(path@) {
            Err(m) => r matches Err(e) && (e@ == m || (consults_block_pattern(path@) && e@
                == invalid_block_msg(path@))),
            Ok(b) => (r matches Ok(bk) && bk@ == b) || (consults_block_pattern(path@) && (
            r matches Err(e) && e@ == invalid_block_msg(path@))),
        },
{
    let n = path.unicode_len();
    let bs: usize = match last_sep_pos(path) {
        Some(k) => k + 1,
        None => 0,
    };
    assert(bs as int == base_start(path@));
    let d: usize = match last_ch_pos(path, '.') {
        Some(k) => k,
        None => {
            proof {
                assert(false);
            }
            0
        },
    };
    assert(bs < d <= n);
    let stem = String::from_str(path.substring_char(bs, d));
    proof {
        assert(stem@ == spec_stem(path@));
    }
    let parts = split_parts(stem.as_str());
    let ghost partsv = crate::strutil::str_views(parts@);
    proof {
        assert(partsv.len() >= 1);
        assert forall|i: int| 0 <= i < partsv.len() implies #[trigger] partsv[i]
            == parts@[i]@ by {}
    }
    if parts.len() > 3 {
        assert(title_trio(partsv) is None);
        return Err(err_with_path("Err: >3 seg: ", path));
    }
    let (ft, ed, au): (String, String, String) = if parts.len() == 1 {
        (parts[0].clone(), String::new(), String::new())
    } else if parts.len() == 2 {
        let second_is_editor = parts[1].as_str().unicode_len() > 0 && parts[1].as_str().get_char(0)
            == '[';
        if second_is_editor {
            (parts[0].clone(), parts[1].clone(), String::new())
        } else {
            (parts[0].clone(), String::new(), parts[1].clone())
        }
    } else {
        (parts[0].clone(), parts[1].clone(), parts[2].clone())
    };
    proof {
        assert(title_trio(partsv) == Some((ft@, ed@, au@)));
    }
    match find_from_position(ft.as_str(), '(', 0) {
        None => {
            let bt = ft.clone();
            brace_exec(path, ft, ed, au, bt, String::new(), String::new(), String::new())
        },
        Some(ix) => {
            let ftn = ft.as_str().unicode_len();
            proof {
                assert(first_ch_from(ft@, '(', 0) matches Some(k) && k < ft@.len());
                assert(ix < ftn);
            }
            match find_from_position(ft.as_str(), ')', ix + 1) {
                None => Err(err_with_path("Err: Missing closing parenthesis: ", path)),
                Some(ixe) => {
                    let ftlen = ft.as_str().unicode_len();
                    let blockp = String::from_str(ft.as_str().substring_char(ix + 1, ixe));
                    let mut base = String::from_str(ft.as_str().substring_char(0, ix));
                    base.append(ft.as_str().substring_char(ixe + 1, ftlen));
                    proof {
                        assert(base@ =~= ft@.take(ix as int) + ft@.skip(ixe as int + 1));
                    }
                    match Matcher::new(
                        String::from_str(
                            "^(?:(1ère|[12]?\\dè|[2-9]?1st|[2-9]?2nd|[2-9]?3rd|\\d?[04-9]th|11th|12th|13th) ed, )?(\\d{4}|X)$",
                        ),
                    ) {
                        Err(_) => Err(err_with_path("Err: Invalid block between parentheses: ", path)),
                        Ok(m) => {
                            proof {
                                assert(m.pat() == book_pattern());
                            }
                            match m.captures_pair(blockp.as_str()) {
                                None => Err(
                                    err_with_path("Err: Invalid block between parentheses: ", path),
                                ),
                                Some((g1, g2)) => {
                                    match g2 {
                                        None => Err(
                                            err_with_path(
                                                "Err: Invalid block between parentheses: ",
                                                path,
                                            ),
                                        ),
                                        Some(y) => {
                                            let edi = match g1 {
                                                Some(e1) => e1,
                                                None => String::new(),
                                            };
                                            let bt = trim_str(base.as_str());
                                            brace_exec(path, ft, ed, au, bt, blockp, edi, y)
                                        },
                                    }
                                },
                            }
                        },
                    }
                },
            }
        },
    }
}


/// The base name of a path (after the last separator), lowercased.
pub fn file_name_lowercase(path: &str) -> (r: String)
    ensures
        r@ == crate::strutil::lower_of(path@.skip(base_start(path@))),
{
    let n = path.unicode_len();
    let bs: usize = match last_sep_pos(path) {
        Some(k) => k + 1,
        None => 0,
    };
    assert(bs as int == base_start(path@));
    let base = path.substring_char(bs, n);
    proof {
        assert(base@ =~= path@.skip(bs as int));
    }
    crate::strutil::to_lowercase(base)
}

/// Running counts and the book names collected while processing files.
pub struct DataBag {
    pub files_count: usize,
    pub errors_count: usize,
    pub books: Vec<BookName>,
}

impl DataBag {
    /// An empty bag.
    pub fn new() -> (r: DataBag)
        ensures
            r.files_count == 0,
            r.errors_count == 0,
            r.books@ == Seq::<BookName>::empty(),
    {
        let r = DataBag { files_count: 0, errors_count: 0, books: Vec::new() };
        proof {
            assert(r.books@ =~= Seq::<BookName>::empty());
        }
        r
    }
}

/// Counts the file and records its parsed book name; a name that does not
/// parse counts as one error and records nothing.
pub fn process_file(b: &mut DataBag, path: &str)
    requires
        has_stem(path@),
        old(b).files_count < usize::MAX,
        old(b).errors_count < usize::MAX,
    ensures
        final(b).files_count == old(b).files_count + 1,
        match spec_book(path@) {
            Ok(bv) => (final(b).books@.len() == old(b).books@.len() + 1 && final(b).books@
                == old(b).books@.push(final(b).books@.last()) && final(b).books@.last()@ == bv
                && final(b).errors_count == old(b).errors_count) || (consults_block_pattern(path@)
                && final(b).errors_count == old(b).errors_count + 1 && final(b).books@ == old(
                b,
            ).books@),
            Err(_) => final(b).errors_count == old(b).errors_count + 1 && final(b).books@ == old(
                b,
            ).books@,
        },
{
    b.files_count = b.files_count + 1;
    match get_book_name(path) {
        Ok(book) => {
            b.books.push(book);
        },
        Err(_) => {
            b.errors_count = b.errors_count + 1;
        },
    }
}

} // verus!



