//! Greedy word-wrapping of usage text to a terminal width, and the options a
//! book-name checker runs with. A bullet line keeps a two-space margin on its
//! continuation lines.

use vstd::prelude::*;

use crate::books::{first_ch_from, is_space};
use crate::strutil::{push_char, str_views};

verus! {

/// The command line arguments of a book-name checker: the glob patterns to
/// search and whether output is verbose.
#[derive(Default)]
pub struct Options {
    pub sources: Vec<String>,
    pub verbose: bool,
}

/// The first space position at or after `i`, or the end: where the word
/// starting at `i` ends.
pub open spec fn word_end(s: Seq<char>, i: int) -> int
    decreases s.len() - i,
{
    if i < 0 || i >= s.len() {
        s.len() as int
    } else if is_space(s[i]) {
        i
    } else {
        word_end(s, i + 1)
    }
}

pub proof fn lemma_word_end_bounds(s: Seq<char>, i: int)
    requires
        0 <= i <= s.len(),
    ensures
        i <= word_end(s, i) <= s.len(),
    decreases s.len() - i,
{
    if i < s.len() && !is_space(s[i]) {
        lemma_word_end_bounds(s, i + 1);
    }
}

#[via_fn]
proof fn words_from_decreases(s: Seq<char>, i: int) {
    if 0 <= i < s.len() && !is_space(s[i]) {
        lemma_word_end_bounds(s, i + 1);
    }
}

/// The whitespace-separated words of `s` from position `i` on.
pub open spec fn words_from(s: Seq<char>, i: int) -> Seq<Seq<char>>
    decreases s.len() - i
        when 0 <= i
        via words_from_decreases
{
    if i < 0 || i >= s.len() {
        Seq::empty()
    } else if is_space(s[i]) {
        words_from(s, i + 1)
    } else {
        let e = word_end(s, i + 1);
        seq![s.subrange(i, e)] + words_from(s, e)
    }
}

pub proof fn lemma_words_len(s: Seq<char>, i: int)
    requires
        0 <= i,
    ensures
        forall|k: int|
            0 <= k < words_from(s, i).len() ==> (#[trigger] words_from(s, i)[k]).len() <= s.len(),
    decreases s.len() - i,
{
    if 0 <= i < s.len() {
        if is_space(s[i]) {
            lemma_words_len(s, i + 1);
            assert(words_from(s, i) == words_from(s, i + 1));
        } else {
            lemma_word_end_bounds(s, i + 1);
            let e = word_end(s, i + 1);
            lemma_words_len(s, e);
            assert(words_from(s, i) == seq![s.subrange(i, e)] + words_from(s, e));
            assert(words_from(s, i).len() == 1 + words_from(s, e).len());
            assert forall|k: int| 0 <= k < words_from(s, i).len() implies (#[trigger] words_from(
                s,
                i,
            )[k]).len() <= s.len() by {
                if k == 0 {
                    assert(words_from(s, i)[0] == s.subrange(i, e));
                } else {
                    assert(words_from(s, i)[k] == words_from(s, e)[k - 1]);
                }
            }
        }
    }
}

/// The continuation margin of a line: two spaces when the line opens with a
/// bullet, else nothing.
pub open spec fn line_margin(line: Seq<char>) -> Seq<char> {
    if line.len() > 0 && line[0] == '•' {
        seq![' ', ' ']
    } else {
        Seq::empty()
    }
}

/// Greedy wrapping of the words from position `t` on: a word that fits on the
/// current line (with one space before it) is appended there, else a line
/// break (followed by the margin) starts a new line.
pub open spec fn wrap_from(
    words: Seq<Seq<char>>,
    t: int,
    acc: Seq<char>,
    cll: int,
    margin: Seq<char>,
    width: int,
) -> Seq<char>
    decreases words.len() - t,
{
    if t < 0 || t >= words.len() {
        acc
    } else {
        let w = words[t];
        if cll + w.len() + 1 <= width {
            let acc1 = if acc.len() > 0 {
                acc.push(' ')
            } else {
                acc
            };
            let cll1 = if acc.len() > 0 {
                cll + 1
            } else {
                cll
            };
            wrap_from(words, t + 1, acc1 + w, cll1 + w.len(), margin, width)
        } else {
            let acc1 = if acc.len() > 0 {
                acc.push('\n') + margin
            } else {
                acc
            };
            let cll1 = if acc.len() > 0 {
                if margin.len() > 0 {
                    2int
                } else {
                    0int
                }
            } else {
                cll
            };
            wrap_from(words, t + 1, acc1 + w, cll1 + w.len(), margin, width)
        }
    }
}

/// What wrapping one line to `width` yields.
pub open spec fn spec_format_line(line: Seq<char>, width: int) -> Seq<char> {
    wrap_from(words_from(line, 0), 0, Seq::empty(), 0, line_margin(line), width)
}

/// One formatted line appended to the accumulated text, after a line break
/// when the text is not empty.
pub open spec fn fmt_step(acc: Seq<char>, line: Seq<char>, width: int) -> Seq<char> {
    (if acc.len() > 0 {
        acc.push('\n')
    } else {
        acc
    }) + spec_format_line(line, width)
}

#[via_fn]
proof fn fmt_text_from_decreases(s: Seq<char>, i: int, acc: Seq<char>, width: int) {
    crate::books::lemma_first_ch_bounds(s, '\n', i);
}

/// The text split on line breaks, each line wrapped, the results joined with
/// line breaks (empty accumulated text takes no break before it).
pub open spec fn fmt_text_from(s: Seq<char>, i: int, acc: Seq<char>, width: int) -> Seq<char>
    decreases s.len() - i
        when 0 <= i
        via fmt_text_from_decreases
{
    match first_ch_from(s, '\n', i) {
        None => fmt_step(acc, s.skip(i), width),
        Some(k) => fmt_text_from(s, k + 1, fmt_step(acc, s.subrange(i, k), width), width),
    }
}

fn is_space_ch(c: char) -> (b: bool)
    ensures
        b == is_space(c),
{
    c == ' ' || c == '\t' || c == '\r' || c == '\n'
}

/// The whitespace-separated words of `s`, exactly as `words_from` states.
fn split_words(s: &str) -> (r: Vec<String>)
    ensures
        str_views(r@) == words_from(s@, 0),
{
    let n = s.unicode_len();
    let mut out: Vec<String> = Vec::new();
    let mut i: usize = 0;
    proof {
        assert(str_views(out@) =~= Seq::<Seq<char>>::empty());
    }
    while i < n
        invariant
            i <= n,
            n == s@.len(),
            str_views(out@) + words_from(s@, i as int) == words_from(s@, 0),
        decreases n - i,
    {
        let ghost outv = str_views(out@);
        if is_space_ch(s.get_char(i)) {
            i += 1;
        } else {
            let mut e = i + 1;
            while e < n && !is_space_ch(s.get_char(e))
                invariant
                    i < e <= n,
                    n == s@.len(),
                    word_end(s@, i as int + 1) == word_end(s@, e as int),
                decreases n - e,
            {
                e += 1;
            }
            proof {
                assert(e as int == word_end(s@, i as int + 1));
            }
            out.push(String::from_str(s.substring_char(i, e)));
            proof {
                assert(str_views(out@) =~= outv.push(s@.subrange(i as int, e as int)));
                assert(words_from(s@, i as int) == seq![s@.subrange(i as int, e as int)]
                    + words_from(s@, e as int));
                assert(str_views(out@) + words_from(s@, e as int) =~= outv + words_from(
                    s@,
                    i as int,
                ));
            }
            i = e;
        }
    }
    out
}

impl Options {
    /// Wraps one line of text greedily to `width` columns, exactly as
    /// `spec_format_line` states; a bullet line keeps a two-space margin on
    /// its continuation lines.
    pub fn format_line(line: &str, width: usize) -> (r: String)
        requires
            line@.len() + 2 < usize::MAX,
        ensures
            r@ == spec_format_line(line@, width as int),
    {
        let n = line.unicode_len();
        let has_bullet = n > 0 && line.get_char(0) == '•';
        let ghost margin = line_margin(line@);
        let words = split_words(line);
        let ghost wordsv = str_views(words@);
        proof {
            assert forall|t: int| 0 <= t < wordsv.len() implies #[trigger] wordsv[t]
                == words@[t]@ by {}
        }
        proof {
            lemma_words_len(line@, 0);
        }
        let mut result = String::new();
        let mut cll: usize = 0;
        let nw = words.len();
        let mut t: usize = 0;
        proof {
            assert(result@ =~= Seq::<char>::empty());
        }
        while t < nw
            invariant
                t <= nw,
                nw == words@.len(),
                wordsv == str_views(words@),
                wordsv.len() == nw,
                margin == line_margin(line@),
                has_bullet == (margin.len() > 0),
                line@.len() + 2 < usize::MAX,
                forall|k: int| 0 <= k < nw ==> #[trigger] wordsv[k] == words@[k]@,
                forall|k: int| 0 <= k < nw ==> (#[trigger] wordsv[k]).len() <= line@.len(),
                cll <= width || cll <= line@.len() + 2,
                result@.len() == 0 ==> cll == 0,
                wrap_from(wordsv, t as int, result@, cll as int, margin, width as int)
                    == spec_format_line(line@, width as int),
            decreases nw - t,
        {
            let ghost acc0 = result@;
            let ghost cll0 = cll as int;
            let word = &words[t];
            let wl = word.as_str().unicode_len();
            proof {
                assert(wordsv[t as int] == word@);
            }
            let fits = wl + 1 <= width && cll <= width - wl - 1;
            proof {
                assert(fits == (cll0 + wordsv[t as int].len() + 1 <= width));
            }
            if fits {
                if result.as_str().unicode_len() > 0 {
                    push_char(&mut result, ' ');
                    cll += 1;
                }
                result.append(word.as_str());
                cll += wl;
                proof {
                    if acc0.len() > 0 {
                        assert(result@ =~= acc0.push(' ') + wordsv[t as int]);
                    } else {
                        assert(result@ =~= acc0 + wordsv[t as int]);
                    }
                }
            } else {
                if result.as_str().unicode_len() > 0 {
                    push_char(&mut result, '\n');
                    if has_bullet {
                        result.append("  ");
                        cll = 2;
                    } else {
                        cll = 0;
                    }
                    proof {
                        reveal_strlit("  ");
                        assert(result@ =~= acc0.push('\n') + margin);
                    }
                }
                result.append(word.as_str());
                cll += wl;
                proof {
                    if acc0.len() > 0 {
                        assert(result@ =~= acc0.push('\n') + margin + wordsv[t as int]);
                    } else {
                        assert(result@ =~= acc0 + wordsv[t as int]);
                    }
                }
            }
            t += 1;
        }
        result
    }

    /// Wraps a whole text line by line, exactly as `fmt_text_from` states.
    pub fn format_text(text: &str, width: usize) -> (r: String)
        requires
            text@.len() + 2 < usize::MAX,
        ensures
            r@ == fmt_text_from(text@, 0, Seq::empty(), width as int),
    {
        let n = text.unicode_len();
        let mut s = String::new();
        let mut i: usize = 0;
        proof {
            assert(s@ =~= Seq::<char>::empty());
        }
        loop
            invariant_except_break
                i <= n,
                n == text@.len(),
                text@.len() + 2 < usize::MAX,
                fmt_text_from(text@, i as int, s@, width as int) == fmt_text_from(
                    text@,
                    0,
                    Seq::empty(),
                    width as int,
                ),
            ensures
                s@ == fmt_text_from(text@, 0, Seq::empty(), width as int),
            decreases n - i,
        {
            let ghost acc0 = s@;
            match crate::books::find_from_position(text, '\n', i) {
                None => {
                    let line = String::from_str(text.substring_char(i, n));
                    proof {
                        assert(line@ =~= text@.skip(i as int));
                    }
                    if s.as_str().unicode_len() > 0 {
                        push_char(&mut s, '\n');
                    }
                    let f = Options::format_line(line.as_str(), width);
                    s.append(f.as_str());
                    proof {
                        assert(s@ =~= fmt_step(acc0, text@.skip(i as int), width as int));
                        assert(fmt_text_from(text@, i as int, acc0, width as int) == s@);
                    }
                    break ;
                },
                Some(k) => {
                    let line = String::from_str(text.substring_char(i, k));
                    if s.as_str().unicode_len() > 0 {
                        push_char(&mut s, '\n');
                    }
                    let f = Options::format_line(line.as_str(), width);
                    s.append(f.as_str());
                    proof {
                        assert(s@ =~= fmt_step(
                            acc0,
                            text@.subrange(i as int, k as int),
                            width as int,
                        ));
                    }
                    i = k + 1;
                },
            }
        }
        s
    }
}

} // verus!
