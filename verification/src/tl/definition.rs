//! Definitions (constructors and functions) of a Type Language schema, and
//! their parameters.

use crate::errors::{ParamParseError, ParseError};
use crate::text::{
    chars_of, find, find_char, find_from, is_ws, lemma_find_bounds, lemma_find_first,
    lemma_trim_start_at,
    lemma_trim_start_shape,
    lemma_word_len_at, skip_whitespace, skip_word, string_of, trim, trim_slice, trim_start,
    word_len,
};
use crate::tl::ty::{parse_type, parse_type_chars, Type, TypeModel};
use vstd::prelude::*;

verus! {

/// Whether a definition is a type constructor or a function.
#[derive(Debug, Clone, Copy, PartialEq, Eq, Structural)]
pub enum Category {
    /// The definition describes a type (it stands before `---functions---`).
    Types,
    /// The definition describes a function (it stands after `---functions---`).
    Functions,
}

/// A parameter of a definition: `name:Type`.
#[derive(Debug, PartialEq, Eq)]
pub struct Parameter {
    /// The name of the parameter.
    pub name: String,
    /// The type of the parameter.
    pub ty: Type,
}

/// The mathematical value of a [`Parameter`].
pub struct ParameterModel {
    pub name: Seq<char>,
    pub ty: TypeModel,
}

impl View for Parameter {
    type V = ParameterModel;

    open spec fn view(&self) -> ParameterModel {
        ParameterModel { name: self.name@, ty: self.ty@ }
    }
}

/// A definition of a Type Language schema: `name param:Type ... = Type`.
#[derive(Debug, PartialEq, Eq)]
pub struct Definition {
    /// The name of the definition.
    pub name: String,
    /// The parameters of the definition, in order.
    pub params: Vec<Parameter>,
    /// The type that the definition belongs to (or, for a function, returns).
    pub ty: Type,
    /// Whether the definition is a type constructor or a function.
    pub category: Category,
}

impl Clone for Parameter {
    fn clone(&self) -> (r: Self)
        ensures
            r@ == self@,
    {
        Parameter { name: self.name.clone(), ty: self.ty.clone() }
    }
}

impl Clone for Definition {
    fn clone(&self) -> (r: Self)
        ensures
            r@ == self@,
    {
        let mut params: Vec<Parameter> = Vec::new();
        let mut i: usize = 0;
        while i < self.params.len()
            invariant
                i <= self.params@.len(),
                params@.len() == i,
                forall|k: int| 0 <= k < i ==> #[trigger] params@[k]@ == self.params@[k]@,
            decreases self.params@.len() - i,
        {
            params.push(self.params[i].clone());
            i = i + 1;
        }
        let r = Definition {
            name: self.name.clone(),
            params,
            ty: self.ty.clone(),
            category: self.category,
        };
        assert(r@.params =~= self@.params);
        r
    }
}

/// The mathematical value of a [`Definition`].
pub struct DefinitionModel {
    pub name: Seq<char>,
    pub params: Seq<ParameterModel>,
    pub ty: TypeModel,
    pub category: Category,
}

impl View for Definition {
    type V = DefinitionModel;

    open spec fn view(&self) -> DefinitionModel {
        DefinitionModel {
            name: self.name@,
            params: self.params@.map_values(|p: Parameter| p@),
            ty: self.ty@,
            category: self.category,
        }
    }
}

/// Whether the `"` at position `i` of `s` is escaped by a backslash.
pub open spec fn escaped_at(s: Seq<char>, start: int, i: int) -> bool {
    i > start && s[i - 1] == '\\'
}

/// Whether a string literal is open after the character at position `i`,
/// given whether one was open before it.
pub open spec fn quotes_after(s: Seq<char>, start: int, i: int, in_quotes: bool) -> bool {
    if !in_quotes && s[i] == '"' {
        true
    } else if in_quotes && s[i] == '"' && !escaped_at(s, start, i) {
        false
    } else {
        in_quotes
    }
}

/// The characters of `s` from position `i` on that stand outside `//` comments;
/// a comment runs to the end of its line, and `//` inside a string literal
/// does not start one.
pub open spec fn uncomment(s: Seq<char>, i: int, in_comment: bool, in_quotes: bool) -> Seq<char>
    decreases s.len() - i,
{
    if 0 <= i < s.len() {
        if in_comment {
            if s[i] == '\n' {
                seq![s[i]] + uncomment(s, i + 1, false, in_quotes)
            } else {
                uncomment(s, i + 1, true, in_quotes)
            }
        } else if !in_quotes && s[i] == '/' && i + 1 < s.len() && s[i + 1] == '/' {
            uncomment(s, i + 1, true, in_quotes)
        } else {
            seq![s[i]] + uncomment(s, i + 1, false, quotes_after(s, 0, i, in_quotes))
        }
    } else {
        Seq::empty()
    }
}

/// What parsing the word `w` as a parameter gives.
pub open spec fn parse_param(w: Seq<char>) -> Result<ParameterModel, ParamParseError> {
    match find(w, ':') {
        None => Err(ParamParseError::NotImplemented),
        Some(c) => if c == 0 {
            Err(ParamParseError::Empty)
        } else {
            match parse_type(w.skip(c + 1)) {
                Ok(ty) => Ok(ParameterModel { name: w.take(c), ty }),
                Err(e) => Err(e),
            }
        },
    }
}

/// A word `name:Type` whose type parses is read as the parameter whose name
/// is the whole text before its first `:` and whose type is what the text
/// after it parses to; putting the name, the `:` and the type text back
/// together gives the word again.
pub proof fn law_parameter_name_is_text_before_colon(w: Seq<char>, c: int)
    requires
        0 < c < w.len(),
        w[c] == ':',
        forall|k: int| 0 <= k < c ==> w[k] != ':',
        parse_type(w.skip(c + 1)) is Ok,
    ensures
        parse_param(w) is Ok,
        parse_param(w)->Ok_0.name + seq![':'] + w.skip(c + 1) == w,
        parse_param(w)->Ok_0.name.len() == c,
        parse_param(w)->Ok_0.ty == parse_type(w.skip(c + 1))->Ok_0,
{
    lemma_find_first(w, ':', 0, c);
    assert(w.take(c) + seq![':'] + w.skip(c + 1) =~= w);
}

/// What parsing the whitespace-separated words of `s` as parameters gives:
/// the parameters in order, or the error of the first word that fails.
pub open spec fn parse_params(s: Seq<char>) -> Result<Seq<ParameterModel>, ParamParseError>
    decreases s.len(),
{
    let t = trim_start(s);
    if t.len() == 0 {
        Ok(Seq::empty())
    } else {
        let n = word_len(t);
        if n == 0 {
            Err(ParamParseError::Empty)
        } else {
            proof {
                lemma_trim_start_shape(s);
                lemma_word_len_le(t);
            }
            match parse_param(t.take(n as int)) {
                Err(e) => Err(e),
                Ok(p) => match parse_params(t.skip(n as int)) {
                    Ok(ps) => Ok(seq![p] + ps),
                    Err(e) => Err(e),
                },
            }
        }
    }
}

/// What parsing `s` as a definition gives: its comments are dropped, then
/// `name params... = Type` is read, in the category of types.
pub open spec fn parse_definition(s: Seq<char>) -> Result<DefinitionModel, ParseError> {
    let t = trim(uncomment(s, 0, false, false));
    if t.len() == 0 {
        Err(ParseError::Empty)
    } else {
        match find(t, '=') {
            None => Err(ParseError::MissingType),
            Some(e) => match parse_type(t.subrange(e + 1, t.len() as int)) {
                Err(_) => Err(ParseError::MissingType),
                Ok(ty) => {
                    let left = trim(t.subrange(0, e));
                    let n = word_len(left);
                    if n == 0 {
                        Err(ParseError::MissingName)
                    } else {
                        match parse_params(left.skip(n as int)) {
                            Err(pe) => Err(ParseError::InvalidParam(pe)),
                            Ok(ps) => Ok(
                                DefinitionModel {
                                    name: left.take(n as int),
                                    params: ps,
                                    ty,
                                    category: Category::Types,
                                },
                            ),
                        }
                    }
                },
            },
        }
    }
}

pub proof fn lemma_word_len_le(s: Seq<char>)
    ensures
        word_len(s) <= s.len(),
    decreases s.len(),
{
    if s.len() > 0 && !is_ws(s[0]) {
        lemma_word_len_le(s.drop_first());
    }
}


/// The characters of `s` that stand outside `//` comments.
fn uncomment_chars(s: &[char]) -> (r: Vec<char>)
    ensures
        r@ == uncomment(s@, 0, false, false),
{
    let mut out: Vec<char> = Vec::new();
    let mut in_comment = false;
    let mut in_quotes = false;
    let mut i: usize = 0;
    let n = s.len();
    while i < n
        invariant
            n == s@.len(),
            i <= n,
            uncomment(s@, 0, false, false) == out@ + uncomment(s@, i as int, in_comment, in_quotes),
        decreases n - i,
    {
        let c = s[i];
        let ghost before = out@;
        if in_comment {
            if c == '\n' {
                out.push(c);
                in_comment = false;
            }
        } else if !in_quotes && c == '/' && i + 1 < n && s[i + 1] == '/' {
            in_comment = true;
        } else {
            out.push(c);
            if !in_quotes && c == '"' {
                in_quotes = true;
            } else if in_quotes && c == '"' && !(i > 0 && s[i - 1] == '\\') {
                in_quotes = false;
            }
        }
        assert(uncomment(s@, 0, false, false) == out@ + uncomment(
            s@,
            i + 1,
            in_comment,
            in_quotes,
        )) by {
            assert(before + seq![c] + uncomment(s@, i + 1, in_comment, in_quotes) =~= before + (seq![c]
                + uncomment(s@, i + 1, in_comment, in_quotes)));
        }
        i = i + 1;
    }
    assert(out@ + uncomment(s@, n as int, in_comment, in_quotes) =~= out@);
    out
}

/// Parses the word `w` as a parameter.
fn parse_param_chars(w: &[char]) -> (res: Result<Parameter, ParamParseError>)
    ensures
        match res {
            Ok(p) => parse_param(w@) == Ok::<ParameterModel, ParamParseError>(p@),
            Err(e) => parse_param(w@) == Err::<ParameterModel, ParamParseError>(e),
        },
{
    match find_char(w, ':') {
        None => Err(ParamParseError::NotImplemented),
        Some(c) => {
            proof {
                lemma_find_bounds(w@, ':', 0);
            }
            let wl = w.len();
            assert(c < wl);
            if c == 0 {
                return Err(ParamParseError::Empty);
            }
            let ty = parse_type_chars(vstd::slice::slice_subrange(w, c + 1, wl))?;
            Ok(Parameter { name: string_of(vstd::slice::slice_subrange(w, 0, c)), ty })
        },
    }
}

/// The models of a list of parameters.
pub open spec fn param_models(ps: Seq<Parameter>) -> Seq<ParameterModel> {
    ps.map_values(|p: Parameter| p@)
}

/// `ps` followed by the parameters of `r`, or the error of `r`.
pub open spec fn prepend_params(
    ps: Seq<ParameterModel>,
    r: Result<Seq<ParameterModel>, ParamParseError>,
) -> Result<Seq<ParameterModel>, ParamParseError> {
    match r {
        Ok(qs) => Ok(ps + qs),
        Err(e) => Err(e),
    }
}

/// Parses the whitespace-separated words of `s` as parameters.
fn parse_params_chars(s: &[char]) -> (res: Result<Vec<Parameter>, ParamParseError>)
    ensures
        match res {
            Ok(ps) => parse_params(s@) == Ok::<Seq<ParameterModel>, ParamParseError>(
                param_models(ps@),
            ),
            Err(e) => parse_params(s@) == Err::<Seq<ParameterModel>, ParamParseError>(e),
        },
{
    let mut out: Vec<Parameter> = Vec::new();
    let mut i: usize = 0;
    let n = s.len();
    assert(s@.skip(0) =~= s@);
    while i < n
        invariant
            n == s@.len(),
            i <= n,
            parse_params(s@) == prepend_params(param_models(out@), parse_params(s@.skip(i as int))),
        ensures
            i == n,
            parse_params(s@) == prepend_params(param_models(out@), parse_params(s@.skip(i as int))),
        decreases n - i,
    {
        let j = skip_whitespace(s, i);
        proof {
            let x = s@.skip(i as int);
            assert forall|k: int| 0 <= k < j - i implies is_ws(#[trigger] x[k]) by {
                assert(x[k] == s@[i + k]);
            }
            lemma_trim_start_at(x, j - i);
            assert(x.skip(j - i) =~= s@.skip(j as int));
        }
        if j == n {
            assert(s@.skip(j as int).len() == 0);
            assert(param_models(out@) + Seq::<ParameterModel>::empty() =~= param_models(out@));
            i = j;
            break;
        }
        let k = skip_word(s, j);
        proof {
            let t = s@.skip(j as int);
            assert forall|m: int| 0 <= m < k - j implies !is_ws(#[trigger] t[m]) by {
                assert(t[m] == s@[j + m]);
            }
            lemma_word_len_at(t, k - j);
            assert(t.take(k - j) =~= s@.subrange(j as int, k as int));
            assert(t.skip(k - j) =~= s@.skip(k as int));
        }
        let p = parse_param_chars(vstd::slice::slice_subrange(s, j, k))?;
        let ghost old_out = out@;
        out.push(p);
        proof {
            assert(param_models(out@) =~= param_models(old_out) + seq![p@]);
            match parse_params(s@.skip(k as int)) {
                Ok(qs) => {
                    assert(param_models(old_out) + (seq![p@] + qs) =~= param_models(out@) + qs);
                },
                Err(_) => {},
            }
        }
        i = k;
    }
    assert(s@.skip(i as int).len() == 0);
    assert(trim_start(s@.skip(i as int)).len() == 0);
    assert(param_models(out@) + Seq::<ParameterModel>::empty() =~= param_models(out@));
    Ok(out)
}

/// Parses the characters `s` as a definition, in the category of types.
pub(crate) fn parse_definition_chars(s: &[char]) -> (res: Result<Definition, ParseError>)
    ensures
        match res {
            Ok(d) => parse_definition(s@) == Ok::<DefinitionModel, ParseError>(d@),
            Err(e) => parse_definition(s@) == Err::<DefinitionModel, ParseError>(e),
        },
{
    let body = uncomment_chars(s);
    let t = trim_slice(body.as_slice());
    if t.len() == 0 {
        return Err(ParseError::Empty);
    }
    let e = match find_char(t, '=') {
        None => {
            return Err(ParseError::MissingType);
        },
        Some(e) => e,
    };
    proof {
        lemma_find_bounds(t@, '=', 0);
    }
    let ty = match parse_type_chars(vstd::slice::slice_subrange(t, e + 1, t.len())) {
        Ok(ty) => ty,
        Err(_) => {
            return Err(ParseError::MissingType);
        },
    };
    let left = trim_slice(vstd::slice::slice_subrange(t, 0, e));
    let n = skip_word(left, 0);
    proof {
        lemma_word_len_at(left@, n as int);
    }
    if n == 0 {
        return Err(ParseError::MissingName);
    }
    let params = match parse_params_chars(vstd::slice::slice_subrange(left, n, left.len())) {
        Ok(ps) => ps,
        Err(pe) => {
            return Err(ParseError::InvalidParam(pe));
        },
    };
    proof {
        assert(left@.subrange(n as int, left@.len() as int) =~= left@.skip(n as int));
        assert(left@.subrange(0, n as int) =~= left@.take(n as int));
    }
    Ok(
        Definition {
            name: string_of(vstd::slice::slice_subrange(left, 0, n)),
            params,
            ty,
            category: Category::Types,
        },
    )
}

impl Definition {
    /// Parses a definition such as `name param:Type ... = Type`; `//`
    /// comments in the text are ignored, and the category is that of types.
    pub fn from_str(definition: &str) -> (res: Result<Definition, ParseError>)
        ensures
            match res {
                Ok(d) => parse_definition(definition@) == Ok::<DefinitionModel, ParseError>(d@),
                Err(e) => parse_definition(definition@) == Err::<DefinitionModel, ParseError>(e),
            },
    {
        let chars = chars_of(definition);
        parse_definition_chars(chars.as_slice())
    }
}

impl std::str::FromStr for Definition {
    type Err = ParseError;

    fn from_str(definition: &str) -> (res: Result<Definition, ParseError>)
        ensures
            match res {
                Ok(d) => parse_definition(definition@) == Ok::<DefinitionModel, ParseError>(d@),
                Err(e) => parse_definition(definition@) == Err::<DefinitionModel, ParseError>(e),
            },
    {
        Definition::from_str(definition)
    }
}

} // verus!
