//! Checking a file or folder base name for problems: a non-normalized
//! Unicode form, confusable apostrophes and spaces, repeated spaces or a
//! space before the extension dot, and characters outside the accepted set.
//! The check reports what it found and the corrected name when one is owed.

use unicode_normalization::UnicodeNormalization;
use vstd::prelude::*;

use crate::strutil::push_char;

verus! {

/// What Unicode NFC normalization returns: a function of the characters
/// alone.
pub uninterp spec fn nfc_of(s: Seq<char>) -> Seq<char>;

/// Relies on unicode_normalization::is_nfc: the authoritative check that a
/// string already is its own NFC form.
#[verifier::external_body]
fn is_nfc_str(s: &str) -> (b: bool)
    ensures
        b == (nfc_of(s@) == s@),
{
    unicode_normalization::is_nfc(s)
}

/// Relies on unicode_normalization::UnicodeNormalization::nfc: the NFC form,
/// a function of the characters alone.
#[verifier::external_body]
fn to_nfc(s: &str) -> (r: String)
    ensures
        r@ == nfc_of(s@),
{
    s.nfc().collect()
}

/// What `char::is_alphanumeric` returns: a Unicode property of the character
/// alone.
pub uninterp spec fn is_alnum(c: char) -> bool;

/// Relies on char::is_alphanumeric: a function of the character alone.
#[verifier::external_body]
fn is_alphanumeric_ch(c: char) -> (b: bool)
    ensures
        b == is_alnum(c),
{
    c.is_alphanumeric()
}

/// The characters that stand in for an apostrophe by mistake.
pub open spec fn is_conf_apo(c: char) -> bool {
    c == '\u{00B4}' || c == '\u{02B9}' || c == '\u{02BB}' || c == '\u{02BC}' || c == '\u{02BD}'
        || c == '\u{02BE}' || c == '\u{02C8}' || c == '\u{02CA}' || c == '\u{02CB}' || c
        == '\u{02F4}' || c == '\u{0374}' || c == '\u{0384}' || c == '\u{055A}' || c == '\u{055D}'
        || c == '\u{05D9}' || c == '\u{05F3}' || c == '\u{07F4}' || c == '\u{07F5}' || c
        == '\u{144A}' || c == '\u{16CC}' || c == '\u{1FBD}' || c == '\u{1FBF}' || c == '\u{1FEF}'
        || c == '\u{1FFD}' || c == '\u{1FFE}' || c == '\u{2018}' || c == '\u{2019}' || c
        == '\u{201B}' || c == '\u{2032}' || c == '\u{2035}' || c == '\u{A78C}' || c == '\u{FF07}'
        || c == '\u{FF40}'
}

/// The characters that stand in for a space by mistake.
pub open spec fn is_conf_spc(c: char) -> bool {
    c == '\u{2000}' || c == '\u{2001}' || c == '\u{2002}' || c == '\u{2003}' || c == '\u{2004}'
        || c == '\u{2005}' || c == '\u{2006}' || c == '\u{2007}' || c == '\u{2008}' || c
        == '\u{2009}' || c == '\u{200A}' || c == '\u{202F}' || c == '\u{205F}'
}

/// The unusual characters that are nonetheless accepted in names.
pub open spec fn is_special(c: char) -> bool {
    c == '€' || c == '®' || c == '™' || c == '©' || c == '–' || c == '—' || c == '…' || c == '×'
        || c == '·' || c == '•' || c == '∶' || c == '⧹' || c == '⧸' || c == '／' || c == '⚹' || c
        == '†' || c == '‽' || c == '¿' || c == '🎜' || c == '🎝' || c == '“' || c == '”' || c == '⚡'
        || c == '♥'
}

fn is_conf_apo_x(c: char) -> (b: bool)
    ensures
        b == is_conf_apo(c),
{
    c == '\u{00B4}' || c == '\u{02B9}' || c == '\u{02BB}' || c == '\u{02BC}' || c == '\u{02BD}'
        || c == '\u{02BE}' || c == '\u{02C8}' || c == '\u{02CA}' || c == '\u{02CB}' || c
        == '\u{02F4}' || c == '\u{0374}' || c == '\u{0384}' || c == '\u{055A}' || c == '\u{055D}'
        || c == '\u{05D9}' || c == '\u{05F3}' || c == '\u{07F4}' || c == '\u{07F5}' || c
        == '\u{144A}' || c == '\u{16CC}' || c == '\u{1FBD}' || c == '\u{1FBF}' || c == '\u{1FEF}'
        || c == '\u{1FFD}' || c == '\u{1FFE}' || c == '\u{2018}' || c == '\u{2019}' || c
        == '\u{201B}' || c == '\u{2032}' || c == '\u{2035}' || c == '\u{A78C}' || c == '\u{FF07}'
        || c == '\u{FF40}'
}

fn is_conf_spc_x(c: char) -> (b: bool)
    ensures
        b == is_conf_spc(c),
{
    c == '\u{2000}' || c == '\u{2001}' || c == '\u{2002}' || c == '\u{2003}' || c == '\u{2004}'
        || c == '\u{2005}' || c == '\u{2006}' || c == '\u{2007}' || c == '\u{2008}' || c
        == '\u{2009}' || c == '\u{200A}' || c == '\u{202F}' || c == '\u{205F}'
}

fn is_special_x(c: char) -> (b: bool)
    ensures
        b == is_special(c),
{
    c == '€' || c == '®' || c == '™' || c == '©' || c == '–' || c == '—' || c == '…' || c == '×'
        || c == '·' || c == '•' || c == '∶' || c == '⧹' || c == '⧸' || c == '／' || c == '⚹' || c
        == '†' || c == '‽' || c == '¿' || c == '🎜' || c == '🎝' || c == '“' || c == '”' || c == '⚡'
        || c == '♥'
}

/// A confusable apostrophe or space mapped to the real one.
pub open spec fn fix_char(c: char) -> char {
    if is_conf_apo(c) {
        '\''
    } else if is_conf_spc(c) {
        ' '
    } else {
        c
    }
}

/// The name with every confusable apostrophe and space replaced.
pub open spec fn confusables_fixed(s: Seq<char>) -> Seq<char> {
    Seq::new(s.len(), |i: int| fix_char(s[i]))
}

/// Collapsing repeated spaces and dropping a space just before a dot,
/// scanning from `i` with the previous character in `lastc`: one step per
/// character over the accumulated output.
pub open spec fn collapse_from(s: Seq<char>, i: int, lastc: char, acc: Seq<char>) -> Seq<char>
    decreases s.len() - i,
{
    if i < 0 || i >= s.len() {
        acc
    } else {
        let c = s[i];
        let acc2 = if c == ' ' {
            if lastc == ' ' {
                acc
            } else {
                acc.push(' ')
            }
        } else if c == '.' {
            (if lastc == ' ' && acc.len() > 0 {
                acc.drop_last()
            } else {
                acc
            }).push('.')
        } else {
            acc.push(c)
        };
        collapse_from(s, i + 1, c, acc2)
    }
}

/// Whether the name holds two spaces in a row.
pub open spec fn has_double_space(s: Seq<char>) -> bool {
    exists|i: int| 0 <= i && i + 1 < s.len() && #[trigger] s[i] == ' ' && s[i + 1] == ' '
}

/// Whether a character is accepted in a name: alphanumeric, printable ASCII,
/// Latin-1 text range, or one of the accepted unusual characters.
pub open spec fn is_accepted_char(c: char) -> bool {
    is_alnum(c) || (32 <= (c as int) && (c as int) < 127) || (160 <= (c as int) && (c as int)
        < 256) || is_special(c)
}

/// The NFC form of the name when it was not normalized, else the name.
pub open spec fn normalized(s: Seq<char>) -> Seq<char> {
    if nfc_of(s) == s {
        s
    } else {
        nfc_of(s)
    }
}

/// The corrected form of a name: normalization, confusable replacement, and
/// space collapsing (the collapse applies only when a double space was
/// present).
pub open spec fn spec_checked(s: Seq<char>) -> Seq<char> {
    let s2 = confusables_fixed(normalized(s));
    if has_double_space(s2) {
        collapse_from(s2, 0, '_', Seq::empty())
    } else {
        s2
    }
}

/// What a base-name check found: the corrected name when it differs from the
/// given one, and which problems were seen.
pub struct CheckReport {
    pub fixed: Option<String>,
    pub non_normalized: bool,
    pub bad_apostrophe: bool,
    pub bad_space: bool,
    pub double_space: bool,
    pub bad_char: bool,
}

fn fix_confusables(s: &str) -> (r: String)
    ensures
        r@ == confusables_fixed(s@),
{
    let n = s.unicode_len();
    let mut out = String::new();
    let mut i: usize = 0;
    proof {
        assert(out@ =~= confusables_fixed(s@).take(0));
    }
    while i < n
        invariant
            i <= n,
            n == s@.len(),
            out@ == confusables_fixed(s@).take(i as int),
        decreases n - i,
    {
        let c = s.get_char(i);
        if is_conf_apo_x(c) {
            push_char(&mut out, '\'');
        } else if is_conf_spc_x(c) {
            push_char(&mut out, ' ');
        } else {
            push_char(&mut out, c);
        }
        i += 1;
        proof {
            assert(out@ =~= confusables_fixed(s@).take(i as int));
        }
    }
    proof {
        assert(confusables_fixed(s@).take(n as int) =~= confusables_fixed(s@));
    }
    out
}

fn find_double_space(s: &str) -> (b: bool)
    ensures
        b == has_double_space(s@),
{
    let n = s.unicode_len();
    if n < 2 {
        return false;
    }
    let mut i: usize = 0;
    while i < n - 1
        invariant
            n == s@.len(),
            2 <= n,
            i <= n - 1,
            forall|k: int| 0 <= k < i ==> !(#[trigger] s@[k] == ' ' && s@[k + 1] == ' '),
        decreases n - i,
    {
        if s.get_char(i) == ' ' && s.get_char(i + 1) == ' ' {
            assert(s@[i as int] == ' ' && s@[i as int + 1] == ' ');
            return true;
        }
        i += 1;
    }
    false
}

fn collapse_spaces(s: &str) -> (r: String)
    ensures
        r@ == collapse_from(s@, 0, '_', Seq::empty()),
{
    let n = s.unicode_len();
    let mut vc: Vec<char> = Vec::new();
    let mut lastc: char = '_';
    let mut i: usize = 0;
    proof {
        assert(vc@ =~= Seq::<char>::empty());
    }
    while i < n
        invariant
            i <= n,
            n == s@.len(),
            collapse_from(s@, i as int, lastc, vc@) == collapse_from(s@, 0, '_', Seq::empty()),
        decreases n - i,
    {
        let c = s.get_char(i);
        let ghost vc0 = vc@;
        if c == ' ' {
            if lastc != ' ' {
                vc.push(' ');
            }
        } else if c == '.' {
            if lastc == ' ' && vc.len() > 0 {
                let _dropped = vc.pop();
                proof {
                    assert(vc@ =~= vc0.drop_last());
                }
            }
            vc.push('.');
        } else {
            vc.push(c);
        }
        lastc = c;
        i += 1;
    }
    let mut out = String::new();
    let m = vc.len();
    let mut j: usize = 0;
    proof {
        assert(out@ =~= vc@.take(0));
    }
    while j < m
        invariant
            j <= m,
            m == vc@.len(),
            vc@ == collapse_from(s@, 0, '_', Seq::empty()),
            out@ == vc@.take(j as int),
        decreases m - j,
    {
        push_char(&mut out, vc[j]);
        j += 1;
        proof {
            assert(out@ =~= vc@.take(j as int));
        }
    }
    proof {
        assert(vc@.take(m as int) =~= vc@);
    }
    out
}

fn has_bad_char(s: &str) -> (b: bool)
    ensures
        b == (exists|i: int| 0 <= i < s@.len() && !is_accepted_char(#[trigger] s@[i])),
{
    let n = s.unicode_len();
    let mut i: usize = 0;
    while i < n
        invariant
            i <= n,
            n == s@.len(),
            forall|k: int| 0 <= k < i ==> is_accepted_char(#[trigger] s@[k]),
        decreases n - i,
    {
        let c = s.get_char(i);
        let cu = c as u32;
        let accepted = is_alphanumeric_ch(c) || (32 <= cu && cu < 127) || (160 <= cu && cu < 256)
            || is_special_x(c);
        if !accepted {
            assert(!is_accepted_char(s@[i as int]));
            return true;
        }
        i += 1;
    }
    false
}

/// Checks one file or folder base name: reports a non-normalized form,
/// confusable apostrophes and spaces (replaced), a double space (spaces
/// collapsed and a space before a dot dropped), and characters outside the
/// accepted set; `fixed` carries the corrected name exactly when it differs
/// from the given one, per `spec_checked`.
pub fn check_basename(name: &str) -> (r: CheckReport)
    ensures
        r.non_normalized == (nfc_of(name@) != name@),
        r.bad_apostrophe == (exists|i: int|
            0 <= i < normalized(name@).len() && is_conf_apo(#[trigger] normalized(name@)[i])),
        r.bad_space == (exists|i: int|
            0 <= i < normalized(name@).len() && is_conf_spc(#[trigger] normalized(name@)[i])),
        r.double_space == has_double_space(confusables_fixed(normalized(name@))),
        r.bad_char == (exists|i: int|
            0 <= i < spec_checked(name@).len() && !is_accepted_char(
                #[trigger] spec_checked(name@)[i],
            )),
        spec_checked(name@) == name@ ==> r.fixed is None,
        spec_checked(name@) != name@ ==> (r.fixed matches Some(f) && f@ == spec_checked(name@)),
{
    let normalized_ok = is_nfc_str(name);
    let file: String = if normalized_ok {
        name.to_owned()
    } else {
        to_nfc(name)
    };
    proof {
        assert(file@ == normalized(name@));
    }
    let bad_apostrophe = has_conf_apo(file.as_str());
    let bad_space = has_conf_spc(file.as_str());
    let file2 = fix_confusables(file.as_str());
    let double_space = find_double_space(file2.as_str());
    let file3: String = if double_space {
        collapse_spaces(file2.as_str())
    } else {
        file2
    };
    proof {
        assert(file3@ == spec_checked(name@));
    }
    let bad_char = has_bad_char(file3.as_str());
    let changed = !crate::strutil::str_eq(file3.as_str(), name);
    CheckReport {
        fixed: if changed {
            Some(file3)
        } else {
            None
        },
        non_normalized: !normalized_ok,
        bad_apostrophe,
        bad_space,
        double_space,
        bad_char,
    }
}

fn has_conf_apo(s: &str) -> (b: bool)
    ensures
        b == (exists|i: int| 0 <= i < s@.len() && is_conf_apo(#[trigger] s@[i])),
{
    let n = s.unicode_len();
    let mut i: usize = 0;
    while i < n
        invariant
            i <= n,
            n == s@.len(),
            forall|k: int| 0 <= k < i ==> !is_conf_apo(#[trigger] s@[k]),
        decreases n - i,
    {
        if is_conf_apo_x(s.get_char(i)) {
            assert(is_conf_apo(s@[i as int]));
            return true;
        }
        i += 1;
    }
    false
}

fn has_conf_spc(s: &str) -> (b: bool)
    ensures
        b == (exists|i: int| 0 <= i < s@.len() && is_conf_spc(#[trigger] s@[i])),
{
    let n = s.unicode_len();
    let mut i: usize = 0;
    while i < n
        invariant
            i <= n,
            n == s@.len(),
            forall|k: int| 0 <= k < i ==> !is_conf_spc(#[trigger] s@[k]),
        decreases n - i,
    {
        if is_conf_spc_x(s.get_char(i)) {
            assert(is_conf_spc(s@[i as int]));
            return true;
        }
        i += 1;
    }
    false
}

} // verus!
