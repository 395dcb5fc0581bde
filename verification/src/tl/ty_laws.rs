//! What holds of every type that the parser reads: it is well formed, and
//! its text parses back to it.

use crate::text::{
    find, find_from, is_ws, lemma_find_bounds, lemma_find_first, lemma_find_none,
    lemma_trim_fixed, lemma_trim_idempotent, lemma_trim_window, trim,
};
use crate::tl::ty::{
    display_type, is_lower, lemma_match_close_bounds, match_close, parse_type, TypeModel,
};
use vstd::prelude::*;

verus! {

/// A name as the parser leaves it: not empty, no whitespace at either end, and
/// no `<`; a name inside a generic argument holds no `>` either.
pub open spec fn wf_name(n: Seq<char>, top: bool) -> bool {
    &&& n.len() > 0
    &&& !is_ws(n[0])
    &&& !is_ws(n.last())
    &&& forall|k: int| 0 <= k < n.len() ==> n[k] != '<'
    &&& !top ==> forall|k: int| 0 <= k < n.len() ==> n[k] != '>'
}

/// A type as the parser leaves it (`top` for the outermost one).
pub open spec fn wf_type(m: TypeModel, top: bool) -> bool
    decreases m,
{
    &&& wf_name(m.name, top)
    &&& m.bare == is_lower(m.name[0])
    &&& match m.generic_arg {
        Some(a) => wf_type(*a, false),
        None => true,
    }
}

/// Scanning over characters that are no angle brackets leaves the depth alone.
proof fn lemma_close_skip(s: Seq<char>, i: int, j: int, d: int)
    requires
        0 <= i <= j <= s.len(),
        forall|k: int| i <= k < j ==> s[k] != '<' && s[k] != '>',
    ensures
        match_close(s, i, d) == match_close(s, j, d),
    decreases j - i,
{
    if i < j {
        lemma_close_skip(s, i + 1, j, d);
    }
}

/// The text of a well-formed inner type, read at a positive depth, neither
/// closes the scan nor changes the depth.
proof fn lemma_close_display(s: Seq<char>, i: int, m: TypeModel, d: int)
    requires
        wf_type(m, false),
        d >= 1,
        0 <= i,
        i + display_type(m).len() <= s.len(),
        s.subrange(i, i + display_type(m).len()) == display_type(m),
    ensures
        match_close(s, i, d) == match_close(s, i + display_type(m).len(), d),
    decreases m,
{
    let n = m.name.len() as int;
    let dm = display_type(m);
    assert forall|k: int| 0 <= k < dm.len() implies s[i + k] == dm[k] by {
        assert(s.subrange(i, i + dm.len())[k] == s[i + k]);
    }
    match m.generic_arg {
        None => {
            assert forall|k: int| i <= k < i + n implies s[k] != '<' && s[k] != '>' by {
                assert(s[k] == m.name[k - i]);
            }
            lemma_close_skip(s, i, i + n, d);
        },
        Some(a) => {
            let da = display_type(*a);
            assert(dm == m.name + seq!['<'] + da + seq!['>']);
            assert forall|k: int| i <= k < i + n implies s[k] != '<' && s[k] != '>' by {
                assert(s[k] == dm[k - i]);
                assert(dm[k - i] == m.name[k - i]);
            }
            lemma_close_skip(s, i, i + n, d);
            assert(s[i + n] == dm[n]);
            assert(s.subrange(i + n + 1, i + n + 1 + da.len()) =~= da) by {
                assert forall|k: int| 0 <= k < da.len() implies s.subrange(
                    i + n + 1,
                    i + n + 1 + da.len(),
                )[k] == da[k] by {
                    assert(s[i + n + 1 + k] == dm[n + 1 + k]);
                }
            }
            lemma_close_display(s, i + n + 1, *a, d + 1);
            assert(s[i + n + 1 + da.len()] == dm[n + 1 + da.len()]);
            assert(match_close(s, i + n, d) == match_close(s, i + n + 1, d + 1));
            assert(match_close(s, i + n + 1 + da.len(), d + 1) == match_close(
                s,
                i + n + 2 + da.len(),
                d,
            ));
        },
    }
}

/// The text of a well-formed type is not empty, begins with its name, and
/// ends with a character that is not whitespace.
proof fn lemma_display_shape(m: TypeModel, top: bool)
    requires
        wf_type(m, top),
    ensures
        display_type(m).len() >= m.name.len(),
        display_type(m).subrange(0, m.name.len() as int) == m.name,
        !is_ws(display_type(m).last()),
        forall|k: int| 0 <= k < m.name.len() ==> display_type(m)[k] == m.name[k],
    decreases m,
{
    match m.generic_arg {
        None => {
            assert(display_type(m).subrange(0, m.name.len() as int) =~= m.name);
        },
        Some(a) => {
            let dm = display_type(m);
            assert(dm.subrange(0, m.name.len() as int) =~= m.name);
            assert(dm.last() == '>');
        },
    }
}


/// Every well-formed type is what the parser reads from its text.
pub proof fn lemma_parse_display(m: TypeModel, top: bool)
    requires
        wf_type(m, top),
    ensures
        parse_type(display_type(m)) == Ok::<TypeModel, crate::errors::ParamParseError>(m),
    decreases m,
{
    let dm = display_type(m);
    let n = m.name.len() as int;
    lemma_display_shape(m, top);
    lemma_trim_fixed(dm);
    match m.generic_arg {
        None => {
            lemma_find_none(dm, '<', 0);
            assert(dm == m.name);
        },
        Some(a) => {
            let da = display_type(*a);
            assert(wf_type(*a, false));
            assert(wf_name((*a).name, false));
            lemma_display_shape(*a, false);
            assert(dm == m.name + seq!['<'] + da + seq!['>']);
            assert(dm[n] == '<');
            lemma_find_first(dm, '<', 0, n);
            assert(dm.subrange(n + 1, n + 1 + da.len()) =~= da);
            lemma_close_display(dm, n + 1, *a, 1);
            assert(dm[n + 1 + da.len()] == '>');
            assert(match_close(dm, n, 0) == match_close(dm, n + 1, 1));
            assert(match_close(dm, n + 1 + da.len(), 1) == Some(n + 1 + da.len()));
            let q = n + 1 + da.len();
            assert(dm.subrange(0, n) =~= m.name);
            lemma_trim_fixed(m.name);
            assert(dm.subrange(n + 1, q) =~= da);
            assert(da[0] == (*a).name[0]);
            lemma_trim_fixed(da);
            lemma_parse_display(*a, false);
        },
    }
}


/// A scan that first closes at `q` does not close within the text before `q`.
proof fn lemma_close_truncate(s: Seq<char>, i: int, j: int, q: int, d: int)
    requires
        0 <= i <= j <= q,
        match_close(s, j, d) == Some(q),
    ensures
        match_close(s.subrange(i, q), j - i, d) is None,
    decreases q - j,
{
    lemma_match_close_bounds(s, j, d);
    let x = s.subrange(i, q);
    if j < q {
        assert(x[j - i] == s[j]);
        if s[j] == '<' {
            lemma_close_truncate(s, i, j + 1, q, d + 1);
        } else if s[j] == '>' {
            lemma_close_truncate(s, i, j + 1, q, d - 1);
        } else {
            lemma_close_truncate(s, i, j + 1, q, d);
        }
    }
}

/// A scan of a window closes where the same scan of the whole text closes.
proof fn lemma_close_window(s: Seq<char>, a: int, b: int, j: int, d: int)
    requires
        0 <= a <= b <= s.len(),
        0 <= j,
    ensures
        match_close(s.subrange(a, b), j, d) matches Some(q) ==> match_close(s, a + j, d) == Some(
            a + q,
        ),
    decreases b - a - j,
{
    let x = s.subrange(a, b);
    if j < x.len() {
        assert(x[j] == s[a + j]);
        lemma_close_window(s, a, b, j + 1, d + 1);
        lemma_close_window(s, a, b, j + 1, d - 1);
        lemma_close_window(s, a, b, j + 1, d);
    }
}

/// Trimming keeps a text that never closes depth one from closing it.
proof fn lemma_noclose_trim(s: Seq<char>)
    requires
        match_close(s, 0, 1) is None,
    ensures
        match_close(trim(s), 0, 1) is None,
{
    let (a, b) = lemma_trim_window(s);
    assert forall|k: int| 0 <= k < a implies s[k] != '<' && s[k] != '>' by {
        assert(is_ws(s[k]));
    }
    lemma_close_skip(s, 0, a, 1);
    lemma_close_window(s, a, b, 0, 1);
}

/// A text that never closes depth one holds no `>` before its first `<`.
proof fn lemma_no_gt_before_lt(x: Seq<char>, p: int)
    requires
        match_close(x, 0, 1) is None,
        0 <= p <= x.len(),
        forall|k: int| 0 <= k < p ==> x[k] != '<',
    ensures
        forall|k: int| 0 <= k < p ==> x[k] != '>',
{
    lemma_find_bounds(x, '>', 0);
    if let Some(k0) = find(x, '>') {
        if k0 < p {
            lemma_close_skip(x, 0, k0, 1);
            assert(match_close(x, k0, 1) == Some(k0));
        }
    }
}

/// Every type that the parser reads is well formed; one read from the inside
/// of angle brackets has no `>` in its names.
pub proof fn lemma_parse_wf(s: Seq<char>, top: bool)
    requires
        parse_type(s) is Ok,
        !top ==> match_close(s, 0, 1) is None,
    ensures
        wf_type(parse_type(s)->Ok_0, top),
    decreases s.len(),
{
    let t = trim(s);
    let (a, b) = lemma_trim_window(s);
    assert(t[0] == s[a]);
    assert(t.last() == s[b - 1]);
    if !top {
        lemma_noclose_trim(s);
    }
    lemma_find_bounds(t, '<', 0);
    match find(t, '<') {
        None => {
            if !top {
                lemma_no_gt_before_lt(t, t.len() as int);
            }
        },
        Some(p) => {
            lemma_match_close_bounds(t, p, 0);
            let q = match_close(t, p, 0)->Some_0;
            let front = t.subrange(0, p);
            let name = trim(front);
            let (a2, b2) = lemma_trim_window(front);
            assert(name[0] == front[a2]);
            assert(name.last() == front[b2 - 1]);
            assert forall|k: int| 0 <= k < name.len() implies name[k] == t[a2 + k] by {
                assert(name[k] == front[a2 + k]);
            }
            if !top {
                lemma_no_gt_before_lt(t, p);
            }
            assert(match_close(t, p + 1, 1) == Some(q));
            lemma_close_truncate(t, p + 1, p + 1, q, 1);
            let inner = t.subrange(p + 1, q);
            lemma_noclose_trim(inner);
            lemma_trim_window(inner);
            lemma_trim_window(s);
            lemma_parse_wf(trim(inner), false);
        },
    }
}

/// The text of every type that the parser reads parses back to that type.
pub proof fn law_type_text_round_trip(s: Seq<char>)
    requires
        parse_type(s) is Ok,
    ensures
        parse_type(display_type(parse_type(s)->Ok_0)) == parse_type(s),
{
    lemma_parse_wf(s, true);
    lemma_parse_display(parse_type(s)->Ok_0, true);
}

/// Whitespace around a type does not change what the parser reads.
pub proof fn law_type_ignores_surrounding_whitespace(s: Seq<char>)
    ensures
        parse_type(trim(s)) == parse_type(s),
{
    lemma_trim_idempotent(s);
}

} // verus!
