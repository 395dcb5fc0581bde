//! The type of a definition or a parameter, and its parser.

use crate::errors::ParamParseError;
use crate::text::{
    chars_of, find, find_char, find_from, lemma_find_bounds, lemma_trim_window, string_of, string_push, trim,
    trim_slice,
};
use vstd::prelude::*;
use vstd::string::StringExecFns;

verus! {

/// The type of a definition or a parameter.
#[derive(Debug, PartialEq, Eq)]
pub struct Type {
    /// The name of the type.
    pub name: String,
    /// Whether this type is bare or boxed.
    /// A type is "bare" if its name starts with a lowercase letter,
    /// "boxed" if it starts with an uppercase letter.
    pub bare: bool,
    /// If the type has a generic argument, which is its type.
    pub generic_arg: Option<Box<Type>>,
}

/// The mathematical value of a [`Type`].
pub struct TypeModel {
    pub name: Seq<char>,
    pub bare: bool,
    pub generic_arg: Option<Box<TypeModel>>,
}

impl Type {
    /// The model of this type.
    pub open spec fn model(self) -> TypeModel
        decreases self,
    {
        TypeModel {
            name: self.name@,
            bare: self.bare,
            generic_arg: match self.generic_arg {
                Some(b) => Some(Box::new((*b).model())),
                None => None,
            },
        }
    }
}

impl Clone for Type {
    fn clone(&self) -> (r: Self)
        ensures
            r@ == self@,
        decreases self,
    {
        Type {
            name: self.name.clone(),
            bare: self.bare,
            generic_arg: match &self.generic_arg {
                Some(b) => Some(Box::new((**b).clone())),
                None => None,
            },
        }
    }
}

impl View for Type {
    type V = TypeModel;

    open spec fn view(&self) -> TypeModel {
        self.model()
    }
}

/// Whether `c` is an ASCII lowercase letter.
pub open spec fn is_lower(c: char) -> bool {
    'a' <= c && c <= 'z'
}

/// Starting at position `i` with `depth` unclosed angle brackets, the
/// position of the `>` that brings the depth back to zero.
pub open spec fn match_close(s: Seq<char>, i: int, depth: int) -> Option<int>
    decreases s.len() - i,
{
    if 0 <= i < s.len() {
        if s[i] == '<' {
            match_close(s, i + 1, depth + 1)
        } else if s[i] == '>' {
            if depth - 1 == 0 {
                Some(i)
            } else {
                match_close(s, i + 1, depth - 1)
            }
        } else {
            match_close(s, i + 1, depth)
        }
    } else {
        None
    }
}

pub proof fn lemma_match_close_bounds(s: Seq<char>, i: int, depth: int)
    requires
        0 <= i,
    ensures
        match_close(s, i, depth) matches Some(q) ==> i <= q < s.len() && s[q] == '>',
    decreases s.len() - i,
{
    if 0 <= i < s.len() {
        lemma_match_close_bounds(s, i + 1, depth + 1);
        lemma_match_close_bounds(s, i + 1, depth - 1);
        lemma_match_close_bounds(s, i + 1, depth);
    }
}

pub proof fn lemma_trim_len(s: Seq<char>)
    ensures
        trim(s).len() <= s.len(),
{
    lemma_trim_window(s);
}

/// What parsing `s` as a type gives: `name` or `name<arg>`, with optional
/// whitespace around each part.
pub open spec fn parse_type(s: Seq<char>) -> Result<TypeModel, ParamParseError>
    decreases s.len(),
{
    let t = trim(s);
    if t.len() == 0 {
        Err(ParamParseError::Empty)
    } else {
        match find(t, '<') {
            None => Ok(TypeModel { name: t, bare: is_lower(t[0]), generic_arg: None }),
            Some(p) => match match_close(t, p, 0) {
                None => Err(ParamParseError::InvalidGeneric),
                Some(q) => {
                    let name = trim(t.subrange(0, p));
                    let a = trim(t.subrange(p + 1, q));
                    if name.len() == 0 {
                        Err(ParamParseError::Empty)
                    } else if a.len() == 0 {
                        Err(ParamParseError::InvalidGeneric)
                    } else {
                        proof {
                            lemma_trim_len(s);
                            lemma_find_bounds(t, '<', 0);
                            lemma_match_close_bounds(t, p, 0);
                            lemma_trim_len(t.subrange(p + 1, q));
                        }
                        match parse_type(a) {
                            Ok(m) => Ok(
                                TypeModel {
                                    name: name,
                                    bare: is_lower(name[0]),
                                    generic_arg: Some(Box::new(m)),
                                },
                            ),
                            Err(e) => Err(e),
                        }
                    }
                },
            },
        }
    }
}


/// The position of the `>` that closes the `<` at position `p` of `t`.
fn matching_close(t: &[char], p: usize) -> (r: Option<usize>)
    requires
        p < t@.len(),
        t@[p as int] == '<',
    ensures
        r matches Some(q) ==> match_close(t@, p as int, 0) == Some(q as int),
        r is None ==> match_close(t@, p as int, 0) is None,
{
    let mut depth: usize = 0;
    let mut i: usize = p;
    while i < t.len()
        invariant
            p <= i <= t@.len(),
            t@[p as int] == '<',
            depth <= i - p,
            i > p ==> depth >= 1,
            match_close(t@, p as int, 0) == match_close(t@, i as int, depth as int),
        decreases t@.len() - i,
    {
        let c = t[i];
        if c == '<' {
            depth = depth + 1;
        } else if c == '>' {
            if depth - 1 == 0 {
                return Some(i);
            }
            depth = depth - 1;
        }
        i = i + 1;
    }
    None
}

/// Parses the characters `s` as a type.
pub(crate) fn parse_type_chars(s: &[char]) -> (res: Result<Type, ParamParseError>)
    ensures
        match res {
            Ok(t) => parse_type(s@) == Ok::<TypeModel, ParamParseError>(t@),
            Err(e) => parse_type(s@) == Err::<TypeModel, ParamParseError>(e),
        },
    decreases s@.len(),
{
    let t = trim_slice(s);
    if t.len() == 0 {
        return Err(ParamParseError::Empty);
    }
    match find_char(t, '<') {
        None => {
            let bare = 'a' <= t[0] && t[0] <= 'z';
            Ok(Type { name: string_of(t), bare, generic_arg: None })
        },
        Some(p) => {
            proof {
                lemma_find_bounds(t@, '<', 0);
            }
            match matching_close(t, p) {
                None => Err(ParamParseError::InvalidGeneric),
                Some(q) => {
                    proof {
                        lemma_match_close_bounds(t@, p as int, 0);
                        lemma_trim_len(s@);
                    }
                    let name = trim_slice(vstd::slice::slice_subrange(t, 0, p));
                    let arg = trim_slice(vstd::slice::slice_subrange(t, p + 1, q));
                    if name.len() == 0 {
                        return Err(ParamParseError::Empty);
                    }
                    if arg.len() == 0 {
                        return Err(ParamParseError::InvalidGeneric);
                    }
                    proof {
                        lemma_trim_len(t@.subrange(p + 1, q as int));
                    }
                    let inner = parse_type_chars(arg)?;
                    let bare = 'a' <= name[0] && name[0] <= 'z';
                    Ok(Type { name: string_of(name), bare, generic_arg: Some(Box::new(inner)) })
                },
            }
        },
    }
}

impl Type {
    /// Parses a type: a name, optionally followed by a generic argument in
    /// angle brackets, with optional whitespace around each part; for
    /// example `vector<int>` or `vector < int >`.
    pub fn from_str(ty: &str) -> (res: Result<Type, ParamParseError>)
        ensures
            match res {
                Ok(t) => parse_type(ty@) == Ok::<TypeModel, ParamParseError>(t@),
                Err(e) => parse_type(ty@) == Err::<TypeModel, ParamParseError>(e),
            },
    {
        let chars = chars_of(ty);
        parse_type_chars(chars.as_slice())
    }
}


impl std::str::FromStr for Type {
    type Err = ParamParseError;

    fn from_str(ty: &str) -> (res: Result<Type, ParamParseError>)
        ensures
            match res {
                Ok(t) => parse_type(ty@) == Ok::<TypeModel, ParamParseError>(t@),
                Err(e) => parse_type(ty@) == Err::<TypeModel, ParamParseError>(e),
            },
    {
        Type::from_str(ty)
    }
}

/// The text of a type: its name, followed by `<arg>` when it has a generic argument.
pub open spec fn display_type(m: TypeModel) -> Seq<char>
    decreases m,
{
    match m.generic_arg {
        Some(a) => m.name + seq!['<'] + display_type(*a) + seq!['>'],
        None => m.name,
    }
}

impl Type {
    /// The text of this type: its name, followed by `<arg>` when it has a
    /// generic argument.
    pub fn to_string(&self) -> (s: String)
        ensures
            s@ == display_type(self@),
        decreases self,
    {
        let mut s = self.name.clone();
        match &self.generic_arg {
            Some(arg) => {
                string_push(&mut s, '<');
                let inner = (**arg).to_string();
                s.append(inner.as_str());
                string_push(&mut s, '>');
            },
            None => {},
        }
        s
    }
}

} // verus!
