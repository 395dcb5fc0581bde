//! What a `---functions---` or `---types---` separator does to the
//! definition that it begins: it only switches the category.

use crate::text::{is_ws, lemma_trim_window, starts_with, trim};
use crate::tl::definition::Category;
use crate::tl::definition::escaped_at;
use crate::tl_iterator::{after, definition_end, lemma_scan_end_bounds, scan_end, spec_next};
use vstd::prelude::*;

verus! {

/// Where a scan ends does not depend on whether what came before was blank,
/// and a scan that has seen a non-blank character reports a non-blank definition.
proof fn lemma_scan_end_flag(
    c: Seq<char>,
    start: int,
    i: int,
    in_comment: bool,
    in_quotes: bool,
    e: bool,
)
    requires
        0 <= i <= c.len(),
    ensures
        scan_end(c, start, i, in_comment, in_quotes, e).0 == scan_end(
            c,
            start,
            i,
            in_comment,
            in_quotes,
            false,
        ).0,
        !scan_end(c, start, i, in_comment, in_quotes, false).1,
    decreases c.len() - i,
{
    if i < c.len() {
        let q = if !in_quotes && c[i] == '"' {
            true
        } else if in_quotes && c[i] == '"' && !escaped_at(c, start, i) {
            false
        } else {
            in_quotes
        };
        lemma_scan_end_flag(c, start, i + 1, true, in_quotes, e);
        lemma_scan_end_flag(c, start, i + 1, false, in_quotes, e);
        lemma_scan_end_flag(c, start, i + 1, false, q, e && is_ws(c[i]));
    }
}

/// A scan that reports a non-blank definition, having started blank, met a
/// character that is not whitespace before its end.
proof fn lemma_scan_end_witness(
    c: Seq<char>,
    start: int,
    i: int,
    in_comment: bool,
    in_quotes: bool,
    e: bool,
)
    requires
        0 <= i <= c.len(),
        e,
        !scan_end(c, start, i, in_comment, in_quotes, e).1,
    ensures
        exists|k: int|
            i <= k < scan_end(c, start, i, in_comment, in_quotes, e).0 && !is_ws(#[trigger] c[k]),
    decreases c.len() - i,
{
    if i < c.len() {
        let q = if !in_quotes && c[i] == '"' {
            true
        } else if in_quotes && c[i] == '"' && !escaped_at(c, start, i) {
            false
        } else {
            in_quotes
        };
        if in_comment {
            if c[i] == '\n' {
                lemma_scan_end_witness(c, start, i + 1, false, in_quotes, e);
            } else {
                lemma_scan_end_witness(c, start, i + 1, true, in_quotes, e);
            }
        } else if !in_quotes && c[i] == '/' && i + 1 < c.len() && c[i + 1] == '/' {
            lemma_scan_end_witness(c, start, i + 1, true, in_quotes, e);
        } else if is_ws(c[i]) {
            lemma_scan_end_witness(c, start, i + 1, false, q, e);
        } else {
            lemma_scan_end_bounds(c, start, i + 1, false, q, false);
        }
    }
}

/// Scanning over characters that are neither `/`, `"` nor `;`, outside
/// comments and strings, only marks the definition as non-blank.
proof fn lemma_scan_end_plain(c: Seq<char>, start: int, i: int, m: int)
    requires
        0 <= i <= m <= c.len(),
        forall|k: int| i <= k < m ==> c[k] != '/' && c[k] != '"' && c[k] != ';',
    ensures
        scan_end(c, start, i, false, false, false) == scan_end(c, start, m, false, false, false),
    decreases m - i,
{
    if i < m {
        lemma_scan_end_plain(c, start, i + 1, m);
    }
}

/// Scanning `p + s` from the start of `s` gives, shifted by the length of
/// `p`, what scanning `s` alone gives, when `p` does not end in a backslash.
proof fn lemma_scan_end_shift(
    p: Seq<char>,
    s: Seq<char>,
    j: int,
    in_comment: bool,
    in_quotes: bool,
    e: bool,
)
    requires
        p.len() > 0,
        p.last() != '\\',
        0 <= j <= s.len(),
    ensures
        scan_end(p + s, 0, p.len() + j, in_comment, in_quotes, e) == (
            p.len() + scan_end(s, 0, j, in_comment, in_quotes, e).0,
            scan_end(s, 0, j, in_comment, in_quotes, e).1,
        ),
    decreases s.len() - j,
{
    let c = p + s;
    let i = p.len() + j;
    if j < s.len() {
        assert(c[i] == s[j]);
        if j + 1 < s.len() {
            assert(c[i + 1] == s[j + 1]);
        }
        if j > 0 {
            assert(c[i - 1] == s[j - 1]);
        } else {
            assert(c[i - 1] == p.last());
        }
        assert(escaped_at(c, 0, i) == escaped_at(s, 0, j));
        let q = if !in_quotes && s[j] == '"' {
            true
        } else if in_quotes && s[j] == '"' && !escaped_at(s, 0, j) {
            false
        } else {
            in_quotes
        };
        lemma_scan_end_shift(p, s, j + 1, true, in_quotes, e);
        lemma_scan_end_shift(p, s, j + 1, false, in_quotes, e);
        lemma_scan_end_shift(p, s, j + 1, false, q, e && is_ws(s[j]));
    }
}

/// The definition of `p + s` that begins at the start: when `p` holds no
/// `/`, `"`, `;` or whitespace and `s` begins with a non-blank definition
/// ending at `e`, it ends where that of `s` ends, shifted by `p`, and it is
/// not blank; trimmed, it is `p` followed by that definition of `s` with its
/// trailing whitespace dropped.
pub proof fn lemma_prefixed_definition(p: Seq<char>, s: Seq<char>) -> (ab: (int, int))
    requires
        p.len() > 0,
        forall|k: int| 0 <= k < p.len() ==> p[k] != '/' && p[k] != '"' && p[k] != ';' && p[k] != '\\' && !is_ws(#[trigger] p[k]),
        !definition_end(s, 0).1,
    ensures
        definition_end(p + s, 0) == (p.len() + definition_end(s, 0).0, false),
        s.len() > 0,
        ({
            let e = definition_end(s, 0).0;
            let x = s.subrange(0, e);
            let t = crate::text::trim(x);
            &&& t.len() > 0
            &&& 0 <= ab.0 < ab.1 <= e
            &&& t == x.subrange(ab.0, ab.1)
            &&& crate::text::trim((p + s).subrange(0, p.len() + e)) == p + x.take(ab.1)
            &&& crate::text::trim(x.take(ab.1)) == t
        }),
{
    let c = p + s;
    let e = definition_end(s, 0).0;
    lemma_scan_end_bounds(s, 0, 0, false, false, true);
    assert(c[0] == p[0]);
    assert forall|k: int| 1 <= k < p.len() implies c[k] != '/' && c[k] != '"' && c[k] != ';' by {
        assert(c[k] == p[k]);
    }
    lemma_scan_end_plain(c, 0, 1, p.len() as int);
    assert(scan_end(c, 0, 0, false, false, true) == scan_end(c, 0, 1, false, false, false));
    lemma_scan_end_shift(p, s, 0, false, false, false);
    lemma_scan_end_flag(s, 0, 0, false, false, true);
    lemma_scan_end_witness(s, 0, 0, false, false, true);
    let k0 = choose|k: int| 0 <= k < e && !is_ws(#[trigger] s[k]);
    let x = s.subrange(0, e);
    assert(x[k0] == s[k0]);
    let (a, b) = lemma_trim_window(x);
    if a == b {
        if k0 < a {
            assert(is_ws(x[k0]));
        } else {
            assert(is_ws(x[k0]));
        }
    }
    assert(crate::text::trim(x) == x.subrange(a, b));
    let y = c.subrange(0, p.len() + e);
    assert(y =~= p + x);
    assert forall|k: int| p.len() + b <= k < y.len() implies is_ws(#[trigger] y[k]) by {
        assert(y[k] == x[k - p.len()]);
    }
    assert(y[0] == p[0]);
    assert(y[p.len() + b - 1] == x[b - 1]);
    crate::text::lemma_trim_is_window(y, 0, p.len() + b);
    assert(y.subrange(0, p.len() + b) =~= p + x.take(b));
    let z = x.take(b);
    assert forall|k: int| 0 <= k < a implies is_ws(#[trigger] z[k]) by {
        assert(z[k] == x[k]);
    }
    assert(z[a] == x[a]);
    assert(z[b - 1] == x[b - 1]);
    crate::text::lemma_trim_is_window(z, a, b);
    assert(z.subrange(a, b) =~= x.subrange(a, b));
    (a, b)
}


/// A definition that begins with `---functions---` is read as the same
/// definition without the separator, in the category of functions: the
/// separator only switches the category, and whatever follows it in the
/// definition (comment lines included) is read as usual. The iterator moves
/// on by the same amount, plus the separator's length.
pub proof fn law_functions_separator_only_switches_category(s: Seq<char>, cat: Category)
    requires
        !definition_end(s, 0).1,
        !starts_with(trim(s.subrange(0, definition_end(s, 0).0)), "---"@),
    ensures
        spec_next("---functions---"@ + s, 0, cat).0 == spec_next(s, 0, Category::Functions).0,
        spec_next("---functions---"@ + s, 0, cat).2 == Category::Functions,
        spec_next(s, 0, Category::Functions).2 == Category::Functions,
        spec_next("---functions---"@ + s, 0, cat).1 == "---functions---"@.len() + spec_next(
            s,
            0,
            Category::Functions,
        ).1,
{
    reveal_strlit("---functions---");
    reveal_strlit("---");
    let p = "---functions---"@;
    assert(p =~= seq!['-', '-', '-', 'f', 'u', 'n', 'c', 't', 'i', 'o', 'n', 's', '-', '-', '-']);
    let (a, b) = lemma_prefixed_definition(p, s);
    let c = p + s;
    let e = definition_end(s, 0).0;
    let x = s.subrange(0, e);
    let def = trim(c.subrange(0, p.len() + e));
    assert(def == p + x.take(b));
    assert(def.subrange(0, 3) =~= "---"@);
    assert(def.subrange(0, p.len() as int) =~= p);
    assert(def.skip(p.len() as int) =~= x.take(b));
    assert(after(c, p.len() + e) == p.len() + after(s, e));
}

/// A definition that begins with `---types---` is read as the same
/// definition without the separator, in the category of types: the
/// separator only switches the category, and whatever follows it in the
/// definition (comment lines included) is read as usual. The iterator moves
/// on by the same amount, plus the separator's length.
pub proof fn law_types_separator_only_switches_category(s: Seq<char>, cat: Category)
    requires
        !definition_end(s, 0).1,
        !starts_with(trim(s.subrange(0, definition_end(s, 0).0)), "---"@),
    ensures
        spec_next("---types---"@ + s, 0, cat).0 == spec_next(s, 0, Category::Types).0,
        spec_next("---types---"@ + s, 0, cat).2 == Category::Types,
        spec_next(s, 0, Category::Types).2 == Category::Types,
        spec_next("---types---"@ + s, 0, cat).1 == "---types---"@.len() + spec_next(
            s,
            0,
            Category::Types,
        ).1,
{
    reveal_strlit("---types---");
    reveal_strlit("---functions---");
    reveal_strlit("---");
    let p = "---types---"@;
    assert(p =~= seq!['-', '-', '-', 't', 'y', 'p', 'e', 's', '-', '-', '-']);
    let (a, b) = lemma_prefixed_definition(p, s);
    let c = p + s;
    let e = definition_end(s, 0).0;
    let x = s.subrange(0, e);
    let def = trim(c.subrange(0, p.len() + e));
    assert(def == p + x.take(b));
    assert(def.subrange(0, 3) =~= "---"@);
    assert(def[3] == 't');
    if "---functions---"@.len() <= def.len() {
        assert(def.subrange(0, 15)[3] != "---functions---"@[3]);
    }
    assert(def.subrange(0, p.len() as int) =~= p);
    assert(def.skip(p.len() as int) =~= x.take(b));
    assert(after(c, p.len() + e) == p.len() + after(s, e));
}

} // verus!
