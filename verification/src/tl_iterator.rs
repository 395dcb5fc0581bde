//! An iterator over the definitions of a Type Language file.

use crate::encoding::{byte_pos, lemma_byte_pos_ends, lemma_byte_pos_grows, lemma_byte_pos_step, utf8_len, utf8_width};
use crate::errors::ParseError;
use crate::text::{chars_of, is_ws, is_whitespace, starts_with, starts_with_str, trim, trim_slice};
use crate::tl::definition::{
    escaped_at, parse_definition, parse_definition_chars, Category, Definition, DefinitionModel,
};
use vstd::prelude::*;
use vstd::utf8::encode_utf8;

verus! {

/// An iterator over Type Language definitions.
pub struct TlIterator {
    contents: Vec<char>,
    /// The length of `contents` in UTF-8 bytes.
    bytes: usize,
    index: usize,
    category: Category,
}

/// The state of a [`TlIterator`]: the text, the position of the next
/// definition, and the category that definitions currently get.
pub struct TlIteratorModel {
    pub contents: Seq<char>,
    pub index: int,
    pub category: Category,
}

impl TlIterator {
    /// The position never passes the end of the text, and `bytes` is the
    /// length of the text in UTF-8.
    #[verifier::type_invariant]
    spec fn position_in_text(self) -> bool {
        &&& self.index <= self.contents@.len()
        &&& encode_utf8(self.contents@).len() == self.bytes
    }
}

impl View for TlIterator {
    type V = TlIteratorModel;

    closed spec fn view(&self) -> TlIteratorModel {
        TlIteratorModel {
            contents: self.contents@,
            index: if self.index <= self.contents@.len() {
                self.index as int
            } else {
                self.contents@.len() as int
            },
            category: self.category,
        }
    }
}

/// The position of an iterator never passes the end of its text.
pub proof fn lemma_index_in_text(it: TlIterator)
    ensures
        0 <= it@.index <= it@.contents.len(),
{
}

/// Scanning `c` from position `i`, where the definition began at `start`:
/// the position of the first `;` outside comments and string literals (or
/// the end of `c`), and whether everything outside comments up to there is
/// whitespace.
pub open spec fn scan_end(
    c: Seq<char>,
    start: int,
    i: int,
    in_comment: bool,
    in_quotes: bool,
    is_empty: bool,
) -> (int, bool)
    decreases c.len() - i,
{
    if 0 <= i < c.len() {
        if !in_comment {
            if !in_quotes && c[i] == '/' && i + 1 < c.len() && c[i + 1] == '/' {
                scan_end(c, start, i + 1, true, in_quotes, is_empty)
            } else {
                let q = if !in_quotes && c[i] == '"' {
                    true
                } else if in_quotes && c[i] == '"' && !escaped_at(c, start, i) {
                    false
                } else {
                    in_quotes
                };
                let e = is_empty && is_ws(c[i]);
                if !q && c[i] == ';' {
                    (i, is_empty)
                } else {
                    scan_end(c, start, i + 1, false, q, e)
                }
            }
        } else if c[i] == '\n' {
            scan_end(c, start, i + 1, false, in_quotes, is_empty)
        } else {
            scan_end(c, start, i + 1, true, in_quotes, is_empty)
        }
    } else {
        (c.len() as int, is_empty)
    }
}

/// Where the definition that starts at `start` ends, and whether it is empty.
pub open spec fn definition_end(c: Seq<char>, start: int) -> (int, bool) {
    scan_end(c, start, start, false, false, true)
}

pub proof fn lemma_scan_end_bounds(
    c: Seq<char>,
    start: int,
    i: int,
    in_comment: bool,
    in_quotes: bool,
    is_empty: bool,
)
    requires
        0 <= i <= c.len(),
    ensures
        i <= scan_end(c, start, i, in_comment, in_quotes, is_empty).0 <= c.len(),
        scan_end(c, start, i, in_comment, in_quotes, is_empty).0 < c.len() ==> c[scan_end(
            c,
            start,
            i,
            in_comment,
            in_quotes,
            is_empty,
        ).0] == ';',
    decreases c.len() - i,
{
    if i < c.len() {
        let q = if !in_quotes && c[i] == '"' {
            true
        } else if in_quotes && c[i] == '"' && !escaped_at(c, start, i) {
            false
        } else {
            in_quotes
        };
        lemma_scan_end_bounds(c, start, i + 1, true, in_quotes, is_empty);
        lemma_scan_end_bounds(c, start, i + 1, false, in_quotes, is_empty);
        lemma_scan_end_bounds(c, start, i + 1, false, q, is_empty && is_ws(c[i]));
    }
}

/// `r` with its definition moved into category `cat`.
pub open spec fn in_category(
    r: Result<DefinitionModel, ParseError>,
    cat: Category,
) -> Result<DefinitionModel, ParseError> {
    match r {
        Ok(d) => Ok(DefinitionModel { category: cat, ..d }),
        Err(e) => Err(e),
    }
}

/// The position after the definition that ends at `end`.
pub open spec fn after(c: Seq<char>, end: int) -> int {
    if end < c.len() {
        end + 1
    } else {
        c.len() as int
    }
}

/// What `next` gives from the state `(c, index, cat)`: the next item, the
/// new position and the new category. A definition that holds only
/// whitespace and comments is skipped; `---functions---` and
/// `---types---` switch the category of the definition they begin and of
/// those that follow; any other definition that begins with `---` is an
/// unknown separator.
pub open spec fn spec_next(c: Seq<char>, index: int, cat: Category) -> (
    Option<Result<DefinitionModel, ParseError>>,
    int,
    Category,
)
    decreases c.len() - index,
{
    if index < 0 || index >= c.len() {
        (None, index, cat)
    } else {
        let (end, is_empty) = definition_end(c, index);
        let def = trim(c.subrange(index, end));
        let ni = after(c, end);
        if !is_empty {
            if starts_with(def, "---"@) {
                if starts_with(def, "---functions---"@) {
                    (
                        Some(
                            in_category(
                                parse_definition(trim(def.skip("---functions---"@.len() as int))),
                                Category::Functions,
                            ),
                        ),
                        ni,
                        Category::Functions,
                    )
                } else if starts_with(def, "---types---"@) {
                    (
                        Some(
                            in_category(
                                parse_definition(trim(def.skip("---types---"@.len() as int))),
                                Category::Types,
                            ),
                        ),
                        ni,
                        Category::Types,
                    )
                } else {
                    (Some(Err(ParseError::UnknownSeparator)), ni, cat)
                }
            } else {
                (Some(in_category(parse_definition(def), cat)), ni, cat)
            }
        } else {
            proof {
                lemma_scan_end_bounds(c, index, index, false, false, true);
            }
            spec_next(c, ni, cat)
        }
    }
}

impl TlIterator {
    /// An iterator over the definitions of `contents`, starting in the
    /// category of types.
    pub fn new(contents: String) -> (it: Self)
        ensures
            it@.contents == contents@,
            it@.index == 0,
            it@.category == Category::Types,
    {
        let bytes = utf8_len(contents.as_str());
        TlIterator {
            contents: chars_of(contents.as_str()),
            bytes,
            index: 0,
            category: Category::Types,
        }
    }

    /// Checks if the character at the given offset, in UTF-8 bytes, from
    /// the start of the current definition is escaped by a backslash, that
    /// is, whether the character that begins one byte before that offset is
    /// `\`. The byte one before the offset must begin a character (or be the
    /// end of the text, where nothing is escaped).
    pub fn escaped_char(&self, offset: usize) -> (r: bool)
        requires
            offset == 0 || exists|k: int|
                0 <= k <= self@.contents.len() && #[trigger] byte_pos(self@.contents, k) == byte_pos(
                    self@.contents,
                    self@.index,
                ) + offset - 1,
        ensures
            r == (offset > 0 && exists|k: int|
                0 <= k < self@.contents.len() && #[trigger] byte_pos(self@.contents, k) == byte_pos(
                    self@.contents,
                    self@.index,
                ) + offset - 1 && self@.contents[k] == '\\'),
    {
        proof {
            use_type_invariant(self);
        }
        if offset == 0 {
            return false;
        }
        let ghost c = self@.contents;
        let ghost start = byte_pos(c, self@.index);
        let ghost k0 = choose|k: int|
            0 <= k <= c.len() && #[trigger] byte_pos(c, k) == start + offset - 1;
        proof {
            lemma_byte_pos_ends(c);
            lemma_byte_pos_grows(c, k0, c.len() as int);
            if k0 < self@.index {
                lemma_byte_pos_grows(c, k0 + 1, self@.index);
                lemma_byte_pos_step(c, k0);
            }
        }
        let n = self.contents.len();
        let target = offset - 1;
        let mut j = self.index;
        let mut acc: usize = 0;
        while acc < target
            invariant
                c == self@.contents,
                n == c.len(),
                self@.index <= j <= k0 <= n,
                byte_pos(c, k0) == start + target,
                acc == byte_pos(c, j as int) - start,
                byte_pos(c, n as int) == self.bytes,
                start + target <= self.bytes,
            decreases k0 - j,
        {
            proof {
                if j == k0 {
                    assert(false);
                }
                lemma_byte_pos_step(c, j as int);
                lemma_byte_pos_grows(c, j + 1, k0);
            }
            acc = acc + utf8_width(self.contents[j]);
            j = j + 1;
        }
        proof {
            if j < k0 {
                lemma_byte_pos_grows(c, j + 1, k0);
                lemma_byte_pos_step(c, j as int);
            }
            assert(j == k0);
            assert forall|k: int|
                0 <= k < c.len() && #[trigger] byte_pos(c, k) == start + offset - 1 implies k == j by {
                if k < j {
                    lemma_byte_pos_grows(c, k + 1, j as int);
                    lemma_byte_pos_step(c, k);
                } else if k > j {
                    lemma_byte_pos_grows(c, j + 1, k);
                    lemma_byte_pos_step(c, j as int);
                }
            }
        }
        j < n && self.contents[j] == '\\'
    }

    /// The byte position, in UTF-8, of the character at position `k`.
    fn byte_position(&self, k: usize) -> (b: usize)
        requires
            k <= self@.contents.len(),
        ensures
            b == byte_pos(self@.contents, k as int),
    {
        proof {
            use_type_invariant(self);
            lemma_byte_pos_ends(self@.contents);
        }
        let ghost c = self@.contents;
        let mut acc: usize = 0;
        let mut j: usize = 0;
        while j < k
            invariant
                c == self@.contents,
                k <= c.len(),
                j <= k,
                acc == byte_pos(c, j as int),
                byte_pos(c, c.len() as int) == self.bytes,
            decreases k - j,
        {
            proof {
                lemma_byte_pos_step(c, j as int);
                lemma_byte_pos_grows(c, j + 1, c.len() as int);
            }
            acc = acc + utf8_width(self.contents[j]);
            j = j + 1;
        }
        acc
    }

    /// Scans from the current position to find the next `;` that is not
    /// inside a comment or a quoted string. Returns the position of that `;`
    /// (or the end of the text) and whether the definition before it is
    /// empty (only whitespace and comments). Positions are in UTF-8 bytes.
    pub fn find_definition_end(&self) -> (r: Option<(usize, bool)>)
        ensures
            r matches Some((end, is_empty)) && (end as int, is_empty) == ({
                let (e, empty) = definition_end(self@.contents, self@.index);
                (byte_pos(self@.contents, e), empty)
            }),
            r matches Some((end, _)) && byte_pos(self@.contents, self@.index) <= end <= byte_pos(
                self@.contents,
                self@.contents.len() as int,
            ),
    {
        proof {
            use_type_invariant(self);
            lemma_scan_end_bounds(self@.contents, self@.index, self@.index, false, false, true);
        }
        let (end, is_empty) = find_definition_end_from(self.contents.as_slice(), self.index);
        proof {
            lemma_byte_pos_grows(self@.contents, self@.index, end as int);
            lemma_byte_pos_grows(self@.contents, end as int, self@.contents.len() as int);
        }
        Some((self.byte_position(end), is_empty))
    }

    /// The next definition of the text, or the error that parsing it gave;
    /// `None` once the text is exhausted.
    pub fn next(&mut self) -> (r: Option<Result<Definition, ParseError>>)
        ensures
            ({
                let (item, ni, ncat) = spec_next(
                    old(self)@.contents,
                    old(self)@.index,
                    old(self)@.category,
                );
                &&& final(self)@.contents == old(self)@.contents
                &&& final(self)@.index == ni
                &&& 0 <= final(self)@.index <= final(self)@.contents.len()
                &&& final(self)@.category == ncat
                &&& match r {
                    None => item is None,
                    Some(Ok(d)) => item == Some(Ok::<DefinitionModel, ParseError>(d@)),
                    Some(Err(e)) => item == Some(Err::<DefinitionModel, ParseError>(e)),
                }
            }),
    {
        proof {
            use_type_invariant(&*self);
        }
        let (r, ni, ncat) = self.step();
        self.index = ni;
        self.category = ncat;
        r
    }

    /// What `next` returns, and the position and category it leaves behind.
    fn step(&self) -> (res: (Option<Result<Definition, ParseError>>, usize, Category))
        ensures
            ({
                let (item, ni, ncat) = spec_next(self@.contents, self@.index, self@.category);
                &&& res.1 == ni
                &&& res.1 <= self@.contents.len()
                &&& res.2 == ncat
                &&& match res.0 {
                    None => item is None,
                    Some(Ok(d)) => item == Some(Ok::<DefinitionModel, ParseError>(d@)),
                    Some(Err(e)) => item == Some(Err::<DefinitionModel, ParseError>(e)),
                }
            }),
    {
        proof {
            use_type_invariant(self);
        }
        let ghost c = self@.contents;
        let contents = self.contents.as_slice();
        let n = contents.len();
        let mut index = self.index;
        loop
            invariant
                contents@ == c,
                c == self@.contents,
                n == c.len(),
                index <= n,
                spec_next(c, self@.index, self@.category) == spec_next(
                    c,
                    index as int,
                    self@.category,
                ),
            decreases n - index,
        {
            if index >= n {
                return (None, index, self.category);
            }
            let (end, is_empty) = find_definition_end_from(contents, index);
            proof {
                lemma_scan_end_bounds(c, index as int, index as int, false, false, true);
            }
            let ni = if end < n {
                end + 1
            } else {
                n
            };
            if !is_empty {
                let def = trim_slice(vstd::slice::slice_subrange(contents, index, end));
                let mut cat = self.category;
                let res = if starts_with_str(def, "---") {
                    let functions = "---functions---";
                    let types = "---types---";
                    if starts_with_str(def, functions) {
                        cat = Category::Functions;
                        let skip = functions.unicode_len();
                        Some(trim_slice(vstd::slice::slice_subrange(def, skip, def.len())))
                    } else if starts_with_str(def, types) {
                        cat = Category::Types;
                        let skip = types.unicode_len();
                        Some(trim_slice(vstd::slice::slice_subrange(def, skip, def.len())))
                    } else {
                        None
                    }
                } else {
                    Some(def)
                };
                let item = match res {
                    None => Err(ParseError::UnknownSeparator),
                    Some(text) => match parse_definition_chars(text) {
                        Ok(mut d) => {
                            d.category = cat;
                            Ok(d)
                        },
                        Err(e) => Err(e),
                    },
                };
                return (Some(item), ni, cat);
            }
            index = ni;
        }
    }
}

/// From position `i`, `next` moves forward and stays within the text; it
/// ends the text exactly when it yields nothing, and only a separator changes
/// the category.
pub proof fn lemma_spec_next_moves(c: Seq<char>, i: int, cat: Category)
    requires
        0 <= i <= c.len(),
    ensures
        i <= spec_next(c, i, cat).1 <= c.len(),
        spec_next(c, i, cat).0 is None <==> spec_next(c, i, cat).1 == c.len() && spec_next(
            c,
            i,
            cat,
        ).0 is None,
        spec_next(c, i, cat).0 is None ==> spec_next(c, i, cat).1 == c.len() && spec_next(
            c,
            i,
            cat,
        ).2 == cat,
        spec_next(c, i, cat).0 is Some ==> i < spec_next(c, i, cat).1,
    decreases c.len() - i,
{
    if i < c.len() {
        lemma_scan_end_bounds(c, i, i, false, false, true);
        let (end, is_empty) = definition_end(c, i);
        if is_empty {
            lemma_spec_next_moves(c, after(c, end), cat);
        }
    }
}

/// Once `next` has yielded nothing, it keeps yielding nothing and leaves the
/// iterator as it is.
pub proof fn law_exhausted_iterator_stays_exhausted(c: Seq<char>, i: int, cat: Category)
    requires
        0 <= i <= c.len(),
        spec_next(c, i, cat).0 is None,
    ensures
        spec_next(c, spec_next(c, i, cat).1, spec_next(c, i, cat).2) == spec_next(c, i, cat),
{
    lemma_spec_next_moves(c, i, cat);
}

/// Every call of `next` that yields an item moves forward in the text, so the
/// iterator yields at most as many items as the text has characters.
pub proof fn law_next_makes_progress(c: Seq<char>, i: int, cat: Category)
    requires
        0 <= i <= c.len(),
        spec_next(c, i, cat).0 is Some,
    ensures
        i < spec_next(c, i, cat).1 <= c.len(),
{
    lemma_spec_next_moves(c, i, cat);
}

/// Every definition that `next` yields has the category that is in effect
/// after it: the one that the last separator named.
pub proof fn law_definition_category(c: Seq<char>, i: int, cat: Category)
    requires
        0 <= i <= c.len(),
    ensures
        spec_next(c, i, cat).0 matches Some(Ok(d)) ==> d.category == spec_next(c, i, cat).2,
    decreases c.len() - i,
{
    if i < c.len() {
        lemma_scan_end_bounds(c, i, i, false, false, true);
        let (end, is_empty) = definition_end(c, i);
        if is_empty {
            law_definition_category(c, after(c, end), cat);
        }
    }
}

/// The state after `k` calls of `next` from the state `(c, i, cat)`: the
/// position and the category.
pub open spec fn run(c: Seq<char>, i: int, cat: Category, k: nat) -> (int, Category)
    decreases k,
{
    if k == 0 {
        (i, cat)
    } else {
        let (_, j, cat2) = spec_next(c, i, cat);
        run(c, j, cat2, (k - 1) as nat)
    }
}

/// The number of items that `k` calls of `next` from `(c, i, cat)` yield.
pub open spec fn yielded(c: Seq<char>, i: int, cat: Category, k: nat) -> nat
    decreases k,
{
    if k == 0 {
        0
    } else {
        let (item, j, cat2) = spec_next(c, i, cat);
        (if item is Some {
            1nat
        } else {
            0nat
        }) + yielded(c, j, cat2, (k - 1) as nat)
    }
}

/// The category that the separators among the definitions of `c` from
/// position `i` up to position `upto` leave in effect, starting from `cat`:
/// that of the last one of them that is `---functions---` or `---types---`.
pub open spec fn separator_category(c: Seq<char>, i: int, cat: Category, upto: int) -> Category
    decreases c.len() - i,
{
    if i < 0 || i >= upto || i >= c.len() {
        cat
    } else {
        let (end, is_empty) = definition_end(c, i);
        let def = trim(c.subrange(i, end));
        let cat2 = if is_empty || !starts_with(def, "---"@) {
            cat
        } else if starts_with(def, "---functions---"@) {
            Category::Functions
        } else if starts_with(def, "---types---"@) {
            Category::Types
        } else {
            cat
        };
        proof {
            lemma_scan_end_bounds(c, i, i, false, false, true);
        }
        separator_category(c, after(c, end), cat2, upto)
    }
}

/// The number of `;` in `c` from position `i` on.
pub open spec fn semicolons(c: Seq<char>, i: int) -> nat
    decreases c.len() - i,
{
    if 0 <= i < c.len() {
        (if c[i] == ';' {
            1nat
        } else {
            0nat
        }) + semicolons(c, i + 1)
    } else {
        0
    }
}

/// Scanning the definitions from `i` up to at least where `next` stops gives,
/// at that stop, the category that `next` leaves.
proof fn lemma_separator_step(c: Seq<char>, i: int, cat: Category, z: int)
    requires
        0 <= i <= c.len(),
        spec_next(c, i, cat).1 <= z,
    ensures
        separator_category(c, i, cat, z) == separator_category(
            c,
            spec_next(c, i, cat).1,
            spec_next(c, i, cat).2,
            z,
        ),
    decreases c.len() - i,
{
    lemma_spec_next_moves(c, i, cat);
    if i < c.len() {
        lemma_scan_end_bounds(c, i, i, false, false, true);
        let (end, is_empty) = definition_end(c, i);
        if is_empty {
            lemma_separator_step(c, after(c, end), cat, z);
        }
    }
}

proof fn lemma_run_moves(c: Seq<char>, i: int, cat: Category, k: nat)
    requires
        0 <= i <= c.len(),
    ensures
        i <= run(c, i, cat, k).0 <= c.len(),
    decreases k,
{
    if k > 0 {
        lemma_spec_next_moves(c, i, cat);
        lemma_run_moves(c, spec_next(c, i, cat).1, spec_next(c, i, cat).2, (k - 1) as nat);
    }
}

/// However many calls of `next` have been made on an iterator, the category
/// in effect is the one that the last `---functions---` or `---types---`
/// separator read so far names (the category of types before any), so every
/// definition that a call yields has that category.
pub proof fn law_category_follows_last_separator(c: Seq<char>, i: int, cat: Category, k: nat)
    requires
        0 <= i <= c.len(),
    ensures
        run(c, i, cat, k).1 == separator_category(c, i, cat, run(c, i, cat, k).0),
    decreases k,
{
    if k > 0 {
        let (_, j, cat2) = spec_next(c, i, cat);
        lemma_spec_next_moves(c, i, cat);
        law_category_follows_last_separator(c, j, cat2, (k - 1) as nat);
        lemma_run_moves(c, j, cat2, (k - 1) as nat);
        lemma_separator_step(c, i, cat, run(c, i, cat, k).0);
    }
}

proof fn lemma_semicolons_drop(c: Seq<char>, i: int, e: int)
    requires
        0 <= i <= e < c.len(),
        c[e] == ';',
    ensures
        semicolons(c, i) >= semicolons(c, e + 1) + 1,
    decreases e - i,
{
    if i < e {
        lemma_semicolons_drop(c, i + 1, e);
    }
}

/// A call of `next` that yields an item either reaches the end of the text
/// or stops right after a `;`.
proof fn lemma_next_stops_after_semicolon(c: Seq<char>, i: int, cat: Category)
    requires
        0 <= i <= c.len(),
        spec_next(c, i, cat).0 is Some,
    ensures
        spec_next(c, i, cat).1 == c.len() || (i < spec_next(c, i, cat).1 && c[spec_next(
            c,
            i,
            cat,
        ).1 - 1] == ';'),
    decreases c.len() - i,
{
    lemma_scan_end_bounds(c, i, i, false, false, true);
    let (end, is_empty) = definition_end(c, i);
    if is_empty {
        lemma_next_stops_after_semicolon(c, after(c, end), cat);
    }
}

proof fn lemma_nothing_after_end(c: Seq<char>, cat: Category, k: nat)
    ensures
        yielded(c, c.len() as int, cat, k) == 0,
    decreases k,
{
    if k > 0 {
        lemma_nothing_after_end(c, cat, (k - 1) as nat);
    }
}

/// However many calls of `next` are made, they yield at most one item per
/// `;` of the rest of the text, plus one.
pub proof fn law_items_bounded_by_semicolons(c: Seq<char>, i: int, cat: Category, k: nat)
    requires
        0 <= i <= c.len(),
    ensures
        yielded(c, i, cat, k) <= semicolons(c, i) + 1,
    decreases k,
{
    if k > 0 {
        let (item, j, cat2) = spec_next(c, i, cat);
        lemma_spec_next_moves(c, i, cat);
        if j == c.len() {
            lemma_nothing_after_end(c, cat2, (k - 1) as nat);
        } else {
            lemma_next_stops_after_semicolon(c, i, cat);
            lemma_semicolons_drop(c, i, j - 1);
            law_items_bounded_by_semicolons(c, j, cat2, (k - 1) as nat);
        }
    }
}

/// Whether the character at position `i` of `c` is preceded, within the
/// definition that starts at `start`, by a backslash.
fn is_escaped(c: &[char], start: usize, i: usize) -> (r: bool)
    requires
        i <= c@.len(),
    ensures
        r == (i > start && escaped_at(c@, start as int, i as int)),
{
    i > start && c[i - 1] == '\\'
}

/// Where the definition of `c` that starts at `start` ends, and whether it is empty.
fn find_definition_end_from(c: &[char], start: usize) -> (r: (usize, bool))
    requires
        start <= c@.len(),
    ensures
        (r.0 as int, r.1) == definition_end(c@, start as int),
{
    let n = c.len();
    let mut in_comment = false;
    let mut in_quotes = false;
    let mut is_empty = true;
    let mut i = start;
    while i < n
        invariant
            n == c@.len(),
            start <= i <= n,
            definition_end(c@, start as int) == scan_end(
                c@,
                start as int,
                i as int,
                in_comment,
                in_quotes,
                is_empty,
            ),
        decreases n - i,
    {
        let ch = c[i];
        if !in_comment {
            if !in_quotes && ch == '/' && i + 1 < n && c[i + 1] == '/' {
                in_comment = true;
                i = i + 1;
                continue ;
            }
            if !in_quotes && ch == '"' {
                in_quotes = true;
            } else if in_quotes && ch == '"' && !is_escaped(c, start, i) {
                in_quotes = false;
            }
            if !in_quotes && ch == ';' {
                return (i, is_empty);
            }
            if !is_whitespace(ch) {
                is_empty = false;
            }
        } else if ch == '\n' {
            in_comment = false;
        }
        i = i + 1;
    }
    (n, is_empty)
}

/// An iterator over the definitions of the Type Language text `contents`.
pub fn parse_tl_file(contents: String) -> (it: TlIterator)
    ensures
        it@.contents == contents@,
        it@.index == 0,
        it@.category == Category::Types,
{
    TlIterator::new(contents)
}

} // verus!
