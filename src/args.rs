use vstd::prelude::*;
use crate::config::{ConfigView, GeneratorConfig, ImplementAvroSchema, default_config, names_view};
use crate::text::str_eq;

verus! {

/// The delimiter of a group of tokens.
#[derive(Clone, Copy, Debug, PartialEq, Eq, Structural)]
pub enum Delimiter {
    /// `( ... )`
    Parenthesis,
    /// `{ ... }`
    Brace,
    /// `[ ... ]`
    Bracket,
    /// A group without visible delimiters.
    Invisible,
}

/// A literal token.
#[derive(Clone, Debug)]
pub enum Literal {
    /// A string literal, by its value.
    Str(String),
    /// An integer literal, by its value.
    Int(u128),
    /// Any other literal (float, char, byte string, ...).
    Other,
}

/// A token tree of the macro's arguments.
#[derive(Debug)]
pub enum TokenTree {
    Ident(String),
    Punct(char),
    Literal(Literal),
    Group(Delimiter, Vec<TokenTree>),
}

/// What is wrong with the macro's arguments (model).
pub ghost enum ArgFault {
    Syntax,
    Type,
    UnknownOption(Seq<char>),
    UnknownVariant(Seq<char>),
    NotImplemented(Seq<char>),
}

/// What is wrong with the macro's arguments.
#[derive(Clone, Debug)]
pub enum ArgErrorKind {
    /// A missing path, key, `=`, separator or value.
    Syntax,
    /// A value of the wrong shape for its key.
    Type,
    /// A key that names no option.
    UnknownOption(String),
    /// An identifier that names no way to implement the schema trait.
    UnknownVariant(String),
    /// An option that the macro does not support.
    NotImplemented(String),
}

impl View for ArgErrorKind {
    type V = ArgFault;

    open spec fn view(&self) -> ArgFault {
        match self {
            ArgErrorKind::Syntax => ArgFault::Syntax,
            ArgErrorKind::Type => ArgFault::Type,
            ArgErrorKind::UnknownOption(k) => ArgFault::UnknownOption(k@),
            ArgErrorKind::UnknownVariant(k) => ArgFault::UnknownVariant(k@),
            ArgErrorKind::NotImplemented(k) => ArgFault::NotImplemented(k@),
        }
    }
}

/// An error with the index of the token at fault; where a token is missing,
/// the index of the separator in its place or the number of tokens.
#[derive(Clone, Debug)]
pub struct ArgError {
    pub kind: ArgErrorKind,
    pub at: usize,
}

/// One option read from a `key = value` argument.
pub ghost enum Setting {
    Precision(usize),
    UseAvroRsUnions(bool),
    UseChronoDates(bool),
    DeriveBuilders(bool),
    ExtraDerives(Seq<Seq<char>>),
    ImplAvroSchema(ImplementAvroSchema),
}

/// The configuration after one option is set.
pub open spec fn apply(c: ConfigView, s: Setting) -> ConfigView {
    match s {
        Setting::Precision(p) => c.set_precision(p),
        Setting::UseAvroRsUnions(b) => c.set_use_avro_rs_unions(b),
        Setting::UseChronoDates(b) => c.set_use_chrono_dates(b),
        Setting::DeriveBuilders(b) => c.set_derive_builders(b),
        Setting::ExtraDerives(d) => c.set_extra_derives(d),
        Setting::ImplAvroSchema(i) => c.set_impl_schemas(i),
    }
}

pub open spec fn is_punct(t: TokenTree, ch: char) -> bool {
    t matches TokenTree::Punct(c) && c == ch
}

pub open spec fn is_comma(t: TokenTree) -> bool {
    is_punct(t, ',')
}

/// The index of the first separator at or after `i`, or the length.
pub open spec fn next_comma(t: Seq<TokenTree>, i: int) -> int
    decreases t.len() - i,
{
    if i >= t.len() {
        t.len() as int
    } else if is_comma(t[i]) {
        i
    } else {
        next_comma(t, i + 1)
    }
}

/// Only separators follow from `i` on.
pub open spec fn only_commas(t: Seq<TokenTree>, i: int) -> bool {
    forall|k: int| i <= k < t.len() ==> is_comma(#[trigger] t[k])
}

/// An integer literal that fits in `usize`.
pub open spec fn int_value(v: Seq<TokenTree>) -> Option<usize> {
    if v.len() != 1 {
        None
    } else {
        match v[0] {
            TokenTree::Literal(Literal::Int(n)) => if n <= usize::MAX {
                Some(n as usize)
            } else {
                None
            },
            _ => None,
        }
    }
}

/// `true` or `false`.
pub open spec fn bool_value(v: Seq<TokenTree>) -> Option<bool> {
    if v.len() != 1 {
        None
    } else {
        match v[0] {
            TokenTree::Ident(s) => if s@ == "true"@ {
                Some(true)
            } else if s@ == "false"@ {
                Some(false)
            } else {
                None
            },
            _ => None,
        }
    }
}

/// String literals separated by commas, with at most one trailing comma,
/// from index `i` on.
pub open spec fn strings_from(t: Seq<TokenTree>, i: int) -> Option<Seq<Seq<char>>>
    decreases t.len() - i,
{
    if i >= t.len() {
        Some(Seq::empty())
    } else {
        match t[i] {
            TokenTree::Literal(Literal::Str(s)) => if i + 1 >= t.len() {
                Some(seq![s@])
            } else if is_comma(t[i + 1]) {
                match strings_from(t, i + 2) {
                    Some(r) => Some(seq![s@] + r),
                    None => None,
                }
            } else {
                None
            },
            _ => None,
        }
    }
}

/// A bracketed list of string literals.
pub open spec fn strings_value(v: Seq<TokenTree>) -> Option<Seq<Seq<char>>> {
    if v.len() != 1 {
        None
    } else {
        match v[0] {
            TokenTree::Group(Delimiter::Bracket, inner) => strings_from(inner@, 0),
            _ => None,
        }
    }
}

/// A path `a::b::c`: identifiers joined by two `:` each.
pub open spec fn is_plain_path(v: Seq<TokenTree>) -> bool {
    &&& v.len() % 3 == 1
    &&& forall|k: int| 0 <= k < v.len() ==> (if k % 3 == 0 {
        (#[trigger] v[k]) is Ident
    } else {
        is_punct(v[k], ':')
    })
}

/// A path, with or without a leading `::`.
pub open spec fn is_path(v: Seq<TokenTree>) -> bool {
    ||| is_plain_path(v)
    ||| (v.len() >= 2 && is_punct(v[0], ':') && is_punct(v[1], ':') && is_plain_path(
        v.subrange(2, v.len() as int),
    ))
}

/// The way to implement the schema trait that an identifier names.
pub open spec fn variant_named(name: Seq<char>) -> Option<ImplementAvroSchema> {
    if name == "None"@ {
        Some(ImplementAvroSchema::Omit)
    } else if name == "Derive"@ {
        Some(ImplementAvroSchema::Derive)
    } else if name == "CopyBuildSchema"@ {
        Some(ImplementAvroSchema::CopyBuildSchema)
    } else {
        None
    }
}

/// A path whose last identifier names a way to implement the schema trait;
/// a fault carries the index in `v` of the token at fault.
pub open spec fn variant_value(v: Seq<TokenTree>) -> Result<ImplementAvroSchema, (ArgFault, int)> {
    if !is_path(v) {
        Err((ArgFault::Type, 0))
    } else {
        let name = v[v.len() - 1]->Ident_0@;
        match variant_named(name) {
            Some(i) => Ok(i),
            None => Err((ArgFault::UnknownVariant(name), v.len() - 1)),
        }
    }
}

pub open spec fn bool_setting(v: Seq<TokenTree>, f: spec_fn(bool) -> Setting) -> Result<Setting, (ArgFault, int)> {
    match bool_value(v) {
        Some(b) => Ok(f(b)),
        None => Err((ArgFault::Type, 2)),
    }
}

/// The option that the argument `key = value` sets; a fault carries the
/// index in `seg` of the token at fault, or of the end where a token is missing.
pub open spec fn setting_of(seg: Seq<TokenTree>) -> Result<Setting, (ArgFault, int)> {
    if seg.len() == 0 || !(seg[0] is Ident) {
        Err((ArgFault::Syntax, 0))
    } else if seg.len() == 1 || !is_punct(seg[1], '=') {
        Err((ArgFault::Syntax, 1))
    } else if seg.len() == 2 {
        Err((ArgFault::Syntax, 2))
    } else {
        let key = seg[0]->Ident_0@;
        let v = seg.subrange(2, seg.len() as int);
        if key == "precision"@ {
            match int_value(v) {
                Some(n) => Ok(Setting::Precision(n)),
                None => Err((ArgFault::Type, 2)),
            }
        } else if key == "use_avro_rs_unions"@ {
            bool_setting(v, |b: bool| Setting::UseAvroRsUnions(b))
        } else if key == "use_chrono_dates"@ {
            bool_setting(v, |b: bool| Setting::UseChronoDates(b))
        } else if key == "derive_builders"@ {
            bool_setting(v, |b: bool| Setting::DeriveBuilders(b))
        } else if key == "extra_derives"@ {
            match strings_value(v) {
                Some(d) => Ok(Setting::ExtraDerives(d)),
                None => Err((ArgFault::Type, 2)),
            }
        } else if key == "impl_avro_schema"@ {
            match variant_value(v) {
                Ok(i) => Ok(Setting::ImplAvroSchema(i)),
                Err((f, o)) => Err((f, 2 + o)),
            }
        } else if key == "override_fields"@ || key == "override_field"@ {
            Err((ArgFault::NotImplemented(key), 0))
        } else {
            Err((ArgFault::UnknownOption(key), 0))
        }
    }
}

/// The configuration read from the arguments that start at `i`, just after a
/// separator, on top of `c`; or the first fault with the index of the token at fault.
pub open spec fn parse_rest(t: Seq<TokenTree>, i: int, c: ConfigView) -> Result<ConfigView, (ArgFault, int)>
    recommends
        0 <= i,
    decreases t.len() - i,
    via parse_rest_decreases
{
    if only_commas(t, i) {
        Ok(c)
    } else {
        let j = next_comma(t, i);
        match setting_of(t.subrange(i, j)) {
            Err((f, o)) => Err((f, i + o)),
            Ok(s) => if j >= t.len() {
                Ok(apply(c, s))
            } else {
                parse_rest(t, j + 1, apply(c, s))
            },
        }
    }
}

/// The next separator is not before `i`, nor past the end.
pub proof fn lemma_next_comma_bounds(t: Seq<TokenTree>, i: int)
    requires
        i <= t.len(),
    ensures
        i <= next_comma(t, i) <= t.len(),
        next_comma(t, i) < t.len() ==> is_comma(t[next_comma(t, i)]),
        forall|k: int| i <= k < next_comma(t, i) ==> !is_comma(#[trigger] t[k]),
    decreases t.len() - i,
{
    if i < t.len() && !is_comma(t[i]) {
        lemma_next_comma_bounds(t, i + 1);
    }
}

#[via_fn]
proof fn parse_rest_decreases(t: Seq<TokenTree>, i: int, c: ConfigView) {
    if i <= t.len() {
        lemma_next_comma_bounds(t, i);
    } else if i > t.len() {
        assert(only_commas(t, i));
    }
}

/// The schema path and configuration that the macro's arguments give: a string
/// literal, then `key = value` arguments, all separated by commas, with any
/// number of trailing commas.
pub open spec fn parse_args(t: Seq<TokenTree>) -> Result<(Seq<char>, ConfigView), (ArgFault, int)> {
    if t.len() == 0 || !(t[0] matches TokenTree::Literal(Literal::Str(_))) {
        Err((ArgFault::Syntax, 0))
    } else if t.len() == 1 {
        Ok((t[0]->Literal_0->Str_0@, default_config()))
    } else if !is_comma(t[1]) {
        Err((ArgFault::Syntax, 1))
    } else {
        match parse_rest(t, 2, default_config()) {
            Ok(c) => Ok((t[0]->Literal_0->Str_0@, c)),
            Err(e) => Err(e),
        }
    }
}

/// The strings `p` before those of `o`, where `o` has any.
pub open spec fn prefixed(p: Seq<Seq<char>>, o: Option<Seq<Seq<char>>>) -> Option<Seq<Seq<char>>> {
    match o {
        Some(r) => Some(p + r),
        None => None,
    }
}

fn is_punct_at(t: &Vec<TokenTree>, k: usize, ch: char) -> (r: bool)
    requires
        k < t@.len(),
    ensures
        r == is_punct(t@[k as int], ch),
{
    match &t[k] {
        TokenTree::Punct(c) => *c == ch,
        _ => false,
    }
}

fn next_comma_from(t: &Vec<TokenTree>, i: usize) -> (j: usize)
    requires
        i <= t@.len(),
    ensures
        j == next_comma(t@, i as int),
{
    let mut j = i;
    while j < t.len() && !is_punct_at(t, j, ',')
        invariant
            i <= j <= t@.len(),
            next_comma(t@, i as int) == next_comma(t@, j as int),
        decreases t@.len() - j,
    {
        j = j + 1;
    }
    j
}

fn only_commas_from(t: &Vec<TokenTree>, i: usize) -> (r: bool)
    requires
        i <= t@.len(),
    ensures
        r == only_commas(t@, i as int),
{
    let mut k = i;
    while k < t.len()
        invariant
            i <= k <= t@.len(),
            forall|m: int| i <= m < k ==> is_comma(#[trigger] t@[m]),
        decreases t@.len() - k,
    {
        if !is_punct_at(t, k, ',') {
            return false;
        }
        k = k + 1;
    }
    true
}

/// A value of the wrong shape, starting at `at`.
fn type_error(at: usize) -> (e: ArgError)
    ensures
        e.kind@ == ArgFault::Type,
        e.at == at,
{
    ArgError { kind: ArgErrorKind::Type, at }
}

/// Reads an integer literal that fits in `usize` from `t[lo..hi]`.
pub fn parse_usize(t: &Vec<TokenTree>, lo: usize, hi: usize) -> (r: Result<usize, ArgError>)
    requires
        lo <= hi <= t@.len(),
    ensures
        r matches Ok(n) ==> int_value(t@.subrange(lo as int, hi as int)) == Some(n),
        r matches Err(e) ==> int_value(t@.subrange(lo as int, hi as int)) is None && e.kind@ == ArgFault::Type && e.at == lo,
{
    if hi - lo != 1 {
        return Err(type_error(lo));
    }
    match &t[lo] {
        TokenTree::Literal(Literal::Int(n)) => {
            if *n <= usize::MAX as u128 {
                Ok(*n as usize)
            } else {
                Err(type_error(lo))
            }
        },
        _ => Err(type_error(lo)),
    }
}

/// Reads `true` or `false` from `t[lo..hi]`.
pub fn parse_bool(t: &Vec<TokenTree>, lo: usize, hi: usize) -> (r: Result<bool, ArgError>)
    requires
        lo <= hi <= t@.len(),
    ensures
        r matches Ok(b) ==> bool_value(t@.subrange(lo as int, hi as int)) == Some(b),
        r matches Err(e) ==> bool_value(t@.subrange(lo as int, hi as int)) is None && e.kind@ == ArgFault::Type && e.at == lo,
{
    if hi - lo != 1 {
        return Err(type_error(lo));
    }
    match &t[lo] {
        TokenTree::Ident(s) => {
            if str_eq(s.as_str(), "true") {
                Ok(true)
            } else if str_eq(s.as_str(), "false") {
                Ok(false)
            } else {
                Err(type_error(lo))
            }
        },
        _ => Err(type_error(lo)),
    }
}

/// Reads string literals separated by commas, with at most one trailing comma.
fn parse_strings(inner: &Vec<TokenTree>) -> (r: Option<Vec<String>>)
    ensures
        r matches Some(v) ==> strings_from(inner@, 0) == Some(names_view(v@)),
        r is None ==> strings_from(inner@, 0) is None,
{
    let mut out: Vec<String> = Vec::new();
    let mut k: usize = 0;
    while k < inner.len()
        invariant
            k <= inner@.len(),
            strings_from(inner@, 0) == prefixed(names_view(out@), strings_from(inner@, k as int)),
        decreases inner@.len() - k,
    {
        match &inner[k] {
            TokenTree::Literal(Literal::Str(s)) => {
                let ghost before = names_view(out@);
                let ghost rest = strings_from(inner@, k as int);
                out.push(s.clone());
                assert(names_view(out@) =~= before + seq![s@]);
                if k + 1 >= inner.len() {
                    k = k + 1;
                    assert(names_view(out@) + Seq::<Seq<char>>::empty() =~= names_view(out@));
                } else if is_punct_at(inner, k + 1, ',') {
                    proof {
                        let next = strings_from(inner@, k + 2);
                        if next is Some {
                            assert(before + (seq![s@] + next->Some_0) =~= names_view(out@) + next->Some_0);
                        }
                    }
                    k = k + 2;
                } else {
                    return None;
                }
            },
            _ => {
                return None;
            },
        }
    }
    assert(names_view(out@) + Seq::<Seq<char>>::empty() =~= names_view(out@));
    Some(out)
}

/// Reads a bracketed list of string literals from `t[lo..hi]`.
pub fn parse_vec(t: &Vec<TokenTree>, lo: usize, hi: usize) -> (r: Result<Vec<String>, ArgError>)
    requires
        lo <= hi <= t@.len(),
    ensures
        r matches Ok(v) ==> strings_value(t@.subrange(lo as int, hi as int)) == Some(names_view(v@)),
        r matches Err(e) ==> strings_value(t@.subrange(lo as int, hi as int)) is None && e.kind@ == ArgFault::Type && e.at == lo,
{
    if hi - lo != 1 {
        return Err(type_error(lo));
    }
    match &t[lo] {
        TokenTree::Group(Delimiter::Bracket, inner) => match parse_strings(inner) {
            Some(v) => Ok(v),
            None => Err(type_error(lo)),
        },
        _ => Err(type_error(lo)),
    }
}

/// Reads a path whose last identifier names a way to implement the schema
/// trait from `t[lo..hi]`.
pub fn parse_enum(t: &Vec<TokenTree>, lo: usize, hi: usize) -> (r: Result<ImplementAvroSchema, ArgError>)
    requires
        lo <= hi <= t@.len(),
    ensures
        r matches Ok(i) ==> variant_value(t@.subrange(lo as int, hi as int)) == Ok::<_, (ArgFault, int)>(i),
        r matches Err(e) ==> variant_value(t@.subrange(lo as int, hi as int))
            == Err::<ImplementAvroSchema, _>((e.kind@, e.at - lo)),
{
    let ghost v = t@.subrange(lo as int, hi as int);
    let start = if hi - lo >= 2 && is_punct_at(t, lo, ':') && is_punct_at(t, lo + 1, ':') {
        lo + 2
    } else {
        lo
    };
    let ghost w = t@.subrange(start as int, hi as int);
    let ghost tail = if start == lo { v } else { v.subrange(2, v.len() as int) };
    assert(w =~= tail);
    let ghost lead = v.len() >= 2 && is_punct(v[0], ':') && is_punct(v[1], ':');
    proof {
        if start != lo {
            assert(!(v[0] is Ident));
            assert(!is_plain_path(v)) by {
                if v.len() % 3 == 1 {
                    assert(0int % 3 == 0);
                }
            }
        }
    }
    if (hi - start) % 3 != 1 {
        return Err(type_error(lo));
    }
    let mut k = start;
    while k < hi
        invariant
            lo <= start <= k <= hi <= t@.len(),
            w == t@.subrange(start as int, hi as int),
            v == t@.subrange(lo as int, hi as int),
            w == tail,
            tail == (if start == lo { v } else { v.subrange(2, v.len() as int) }),
            start != lo ==> lead && !is_plain_path(v),
            start == lo ==> !lead,
            (hi - start) % 3 == 1,
            forall|m: int| 0 <= m < k - start ==> (if m % 3 == 0 {
                (#[trigger] w[m]) is Ident
            } else {
                is_punct(w[m], ':')
            }),
        decreases hi - k,
    {
        let ok = if (k - start) % 3 == 0 {
            match &t[k] {
                TokenTree::Ident(_) => true,
                _ => false,
            }
        } else {
            is_punct_at(t, k, ':')
        };
        if !ok {
            proof {
                let m = k - start;
                assert(!(if m as int % 3 == 0 { w[m as int] is Ident } else { is_punct(w[m as int], ':') }));
                assert(!is_plain_path(w));
            }
            return Err(type_error(lo));
        }
        k = k + 1;
    }
    assert(is_plain_path(w));
    assert(is_path(v));
    assert(v[v.len() - 1] == t@[hi - 1]);
    assert(w[w.len() - 1] == t@[hi - 1]);
    assert((w.len() - 1) % 3 == 0);
    assert(w[w.len() - 1] is Ident);
    match &t[hi - 1] {
        TokenTree::Ident(name) => {
            if str_eq(name.as_str(), "None") {
                Ok(ImplementAvroSchema::Omit)
            } else if str_eq(name.as_str(), "Derive") {
                Ok(ImplementAvroSchema::Derive)
            } else if str_eq(name.as_str(), "CopyBuildSchema") {
                Ok(ImplementAvroSchema::CopyBuildSchema)
            } else {
                Err(ArgError { kind: ArgErrorKind::UnknownVariant(name.clone()), at: hi - 1 })
            }
        },
        _ => Err(type_error(lo)),
    }
}

/// Reads the argument `key = value` in `t[lo..hi]` and sets its option.
fn apply_argument(t: &Vec<TokenTree>, lo: usize, hi: usize, config: &mut GeneratorConfig) -> (r: Result<(), ArgError>)
    requires
        lo <= hi <= t@.len(),
    ensures
        r is Ok ==> setting_of(t@.subrange(lo as int, hi as int)) is Ok
            && final(config)@ == apply(old(config)@, setting_of(t@.subrange(lo as int, hi as int))->Ok_0),
        r matches Err(e) ==> setting_of(t@.subrange(lo as int, hi as int)) == Err::<Setting, _>((e.kind@, e.at - lo)),
{
    let ghost seg = t@.subrange(lo as int, hi as int);
    if hi == lo {
        return Err(ArgError { kind: ArgErrorKind::Syntax, at: lo });
    }
    let key = match &t[lo] {
        TokenTree::Ident(k) => k.as_str(),
        _ => {
            return Err(ArgError { kind: ArgErrorKind::Syntax, at: lo });
        },
    };
    if hi - lo == 1 || !is_punct_at(t, lo + 1, '=') {
        return Err(ArgError { kind: ArgErrorKind::Syntax, at: lo + 1 });
    }
    if hi - lo == 2 {
        return Err(ArgError { kind: ArgErrorKind::Syntax, at: lo + 2 });
    }
    let v = lo + 2;
    assert(t@.subrange(v as int, hi as int) =~= seg.subrange(2, seg.len() as int));
    if str_eq(key, "precision") {
        config.precision = parse_usize(t, v, hi)?;
    } else if str_eq(key, "use_avro_rs_unions") {
        config.use_avro_rs_unions = parse_bool(t, v, hi)?;
    } else if str_eq(key, "use_chrono_dates") {
        config.use_chrono_dates = parse_bool(t, v, hi)?;
    } else if str_eq(key, "derive_builders") {
        config.derive_builders = parse_bool(t, v, hi)?;
    } else if str_eq(key, "extra_derives") {
        config.extra_derives = parse_vec(t, v, hi)?;
    } else if str_eq(key, "impl_avro_schema") {
        config.impl_schemas = parse_enum(t, v, hi)?;
    } else if str_eq(key, "override_fields") || str_eq(key, "override_field") {
        return Err(ArgError { kind: ArgErrorKind::NotImplemented(key.to_string()), at: lo });
    } else {
        return Err(ArgError { kind: ArgErrorKind::UnknownOption(key.to_string()), at: lo });
    }
    Ok(())
}

/// The schema path and the configuration given to the inclusion macro.
pub struct IncludeAvroInput {
    pub path: String,
    pub config: GeneratorConfig,
}

/// The model of what parsing the macro's arguments returns.
pub open spec fn parse_result_view(r: Result<IncludeAvroInput, ArgError>) -> Result<(Seq<char>, ConfigView), (ArgFault, int)> {
    match r {
        Ok(v) => Ok((v.path@, v.config@)),
        Err(e) => Err((e.kind@, e.at as int)),
    }
}

impl IncludeAvroInput {
    /// Parses the macro's arguments: a string literal naming the schema file
    /// or glob pattern, then `key = value` arguments, all separated by commas.
    pub fn parse(tokens: &Vec<TokenTree>) -> (r: Result<IncludeAvroInput, ArgError>)
        ensures
            parse_result_view(r) == parse_args(tokens@),
    {
        let t = tokens;
        if t.len() == 0 {
            return Err(ArgError { kind: ArgErrorKind::Syntax, at: 0 });
        }
        let path = match &t[0] {
            TokenTree::Literal(Literal::Str(p)) => p.clone(),
            _ => {
                return Err(ArgError { kind: ArgErrorKind::Syntax, at: 0 });
            },
        };
        let mut config = GeneratorConfig::new();
        if t.len() == 1 {
            return Ok(IncludeAvroInput { path, config });
        }
        if !is_punct_at(t, 1, ',') {
            return Err(ArgError { kind: ArgErrorKind::Syntax, at: 1 });
        }
        let mut i: usize = 2;
        loop
            invariant
                t@ == tokens@,
                2 <= i <= t@.len(),
                path@ == t@[0]->Literal_0->Str_0@,
                t@[0] matches TokenTree::Literal(Literal::Str(_)),
                is_comma(t@[1]),
                parse_rest(t@, 2, default_config()) == parse_rest(t@, i as int, config@),
            decreases t@.len() - i,
        {
            if only_commas_from(t, i) {
                return Ok(IncludeAvroInput { path, config });
            }
            let j = next_comma_from(t, i);
            proof {
                lemma_next_comma_bounds(t@, i as int);
            }
            match apply_argument(t, i, j, &mut config) {
                Ok(()) => {},
                Err(e) => {
                    return Err(e);
                },
            }
            if j >= t.len() {
                return Ok(IncludeAvroInput { path, config });
            }
            i = j + 1;
        }
    }
}

/// The option that a setting sets, by number.
pub open spec fn option_of(s: Setting) -> int {
    match s {
        Setting::Precision(_) => 0,
        Setting::UseAvroRsUnions(_) => 1,
        Setting::UseChronoDates(_) => 2,
        Setting::DeriveBuilders(_) => 3,
        Setting::ExtraDerives(_) => 4,
        Setting::ImplAvroSchema(_) => 5,
    }
}

/// Settings of different options can be applied in either order.
pub proof fn lemma_settings_commute(c: ConfigView, a: Setting, b: Setting)
    requires
        option_of(a) != option_of(b),
    ensures
        apply(apply(c, a), b) == apply(apply(c, b), a),
{
}

/// The separator token.
pub open spec fn comma() -> TokenTree {
    TokenTree::Punct(',')
}

/// No separator stands in `t[i..]`.
pub open spec fn no_commas_from(t: Seq<TokenTree>, i: int) -> bool {
    forall|k: int| i <= k < t.len() ==> !is_comma(#[trigger] t[k])
}

/// The first separator at or after `i` is at `m`.
proof fn lemma_next_comma_at(t: Seq<TokenTree>, i: int, m: int)
    requires
        0 <= i <= m <= t.len(),
        forall|k: int| i <= k < m ==> !is_comma(#[trigger] t[k]),
        m < t.len() ==> is_comma(t[m]),
    ensures
        next_comma(t, i) == m,
{
    lemma_next_comma_bounds(t, i);
    let j = next_comma(t, i);
    if j < m {
        assert(!is_comma(t[j]));
    } else if j > m {
        assert(!is_comma(t[m]));
    }
}

/// The last argument, without separators after it.
proof fn lemma_rest_last(t: Seq<TokenTree>, i: int, c: ConfigView)
    requires
        0 <= i < t.len(),
        no_commas_from(t, i),
    ensures
        parse_rest(t, i, c) == (match setting_of(t.subrange(i, t.len() as int)) {
            Ok(s) => Ok(apply(c, s)),
            Err((f, o)) => Err((f, i + o)),
        }),
{
    lemma_next_comma_at(t, i, t.len() as int);
    assert(!is_comma(t[i]));
}

/// The argument in `t[i..m]` is followed by a separator at `m`.
proof fn lemma_rest_step(t: Seq<TokenTree>, i: int, m: int, c: ConfigView)
    requires
        0 <= i < m < t.len(),
        forall|k: int| i <= k < m ==> !is_comma(#[trigger] t[k]),
        is_comma(t[m]),
    ensures
        parse_rest(t, i, c) == (match setting_of(t.subrange(i, m)) {
            Ok(s) => parse_rest(t, m + 1, apply(c, s)),
            Err((f, o)) => Err((f, i + o)),
        }),
{
    lemma_next_comma_at(t, i, m);
    assert(!is_comma(t[i]));
}

/// The tokens `"path", ` followed by `rest`.
pub open spec fn with_path(path: String, rest: Seq<TokenTree>) -> Seq<TokenTree> {
    seq![TokenTree::Literal(Literal::Str(path)), comma()] + rest
}

/// A string literal alone gives the default configuration.
pub proof fn lemma_path_alone_is_default(t: Seq<TokenTree>)
    requires
        t.len() == 1,
        t[0] is Literal,
        t[0]->Literal_0 is Str,
    ensures
        parse_args(t) == Ok::<_, (ArgFault, int)>((t[0]->Literal_0->Str_0@, default_config())),
{
}

/// One more separator at the end of arguments that parse changes nothing.
pub proof fn lemma_trailing_separator(t: Seq<TokenTree>)
    requires
        parse_args(t) is Ok,
    ensures
        parse_args(t.push(comma())) == parse_args(t),
{
    let u = t.push(comma());
    assert(u[0] == t[0]);
    if t.len() > 1 {
        assert(u[1] == t[1]);
        lemma_rest_push(t, 2, default_config());
    } else {
        assert(only_commas(u, 2));
    }
}

/// Any number of separators at the end of arguments that parse change nothing.
pub proof fn lemma_trailing_separators(t: Seq<TokenTree>, n: nat)
    requires
        parse_args(t) is Ok,
    ensures
        parse_args(t + Seq::new(n, |k: int| comma())) == parse_args(t),
    decreases n,
{
    if n == 0 {
        assert(t + Seq::new(0, |k: int| comma()) =~= t);
    } else {
        let n1 = (n - 1) as nat;
        lemma_trailing_separators(t, n1);
        let u = t + Seq::new(n1, |k: int| comma());
        lemma_trailing_separator(u);
        assert(u.push(comma()) =~= t + Seq::new(n, |k: int| comma()));
    }
}

proof fn lemma_next_comma_push(t: Seq<TokenTree>, i: int)
    requires
        0 <= i <= t.len(),
    ensures
        next_comma(t.push(comma()), i) == next_comma(t, i),
    decreases t.len() - i,
{
    let u = t.push(comma());
    if i < t.len() {
        assert(u[i] == t[i]);
        if !is_comma(t[i]) {
            lemma_next_comma_push(t, i + 1);
        }
    } else {
        assert(is_comma(u[i]));
    }
}

proof fn lemma_rest_push(t: Seq<TokenTree>, i: int, c: ConfigView)
    requires
        0 <= i <= t.len(),
        parse_rest(t, i, c) is Ok,
    ensures
        parse_rest(t.push(comma()), i, c) == parse_rest(t, i, c),
    decreases t.len() - i,
{
    let u = t.push(comma());
    if only_commas(t, i) {
        assert forall|k: int| i <= k < u.len() implies is_comma(#[trigger] u[k]) by {
            if k < t.len() {
                assert(u[k] == t[k]);
            }
        }
    } else {
        let k = choose|k: int| i <= k < t.len() && !is_comma(#[trigger] t[k]);
        assert(u[k] == t[k]);
        assert(!only_commas(u, i));
        lemma_next_comma_push(t, i);
        lemma_next_comma_bounds(t, i);
        let j = next_comma(t, i);
        assert(u.subrange(i, j) =~= t.subrange(i, j));
        let s = setting_of(t.subrange(i, j))->Ok_0;
        if j >= t.len() {
            assert(only_commas(u, j + 1));
            assert(parse_rest(u, j + 1, apply(c, s)) == Ok::<_, (ArgFault, int)>(apply(c, s)));
        } else {
            lemma_rest_push(t, j + 1, apply(c, s));
        }
    }
}

/// Whether a key names an option.
pub open spec fn is_known_key(k: Seq<char>) -> bool {
    k == "precision"@ || k == "use_avro_rs_unions"@ || k == "use_chrono_dates"@
        || k == "derive_builders"@ || k == "extra_derives"@ || k == "impl_avro_schema"@
        || k == "override_fields"@ || k == "override_field"@
}

/// The argument `key = value`.
pub open spec fn assignment(key: String, v: Seq<TokenTree>) -> Seq<TokenTree> {
    seq![TokenTree::Ident(key), TokenTree::Punct('=')] + v
}

/// The value shape that a key takes.
pub open spec fn fits_key(key: Seq<char>, v: Seq<TokenTree>) -> bool {
    if key == "precision"@ {
        int_value(v) is Some
    } else if key == "use_avro_rs_unions"@ || key == "use_chrono_dates"@ || key == "derive_builders"@ {
        bool_value(v) is Some
    } else if key == "extra_derives"@ {
        strings_value(v) is Some
    } else if key == "impl_avro_schema"@ {
        is_path(v)
    } else {
        true
    }
}

/// Arguments, each followed by a separator.
pub open spec fn arguments(args: Seq<Seq<TokenTree>>) -> Seq<TokenTree>
    decreases args.len(),
{
    if args.len() == 0 {
        Seq::empty()
    } else {
        arguments(args.drop_last()) + args.last() + seq![comma()]
    }
}

/// Each argument is a valid `key = value` without separators.
pub open spec fn valid_arguments(args: Seq<Seq<TokenTree>>) -> bool {
    forall|k: int| 0 <= k < args.len() ==> {
        &&& (#[trigger] args[k]).len() > 0
        &&& no_commas_from(args[k], 0)
        &&& setting_of(args[k]) is Ok
    }
}

/// The settings that valid arguments make.
pub open spec fn settings_of(args: Seq<Seq<TokenTree>>) -> Seq<Setting> {
    args.map_values(|a: Seq<TokenTree>| setting_of(a)->Ok_0)
}

/// The configuration after settings are applied from first to last.
pub open spec fn apply_all(c: ConfigView, s: Seq<Setting>) -> ConfigView
    decreases s.len(),
{
    if s.len() == 0 {
        c
    } else {
        apply(apply_all(c, s.drop_last()), s.last())
    }
}

/// No two settings set the same option.
pub open spec fn distinct_options(s: Seq<Setting>) -> bool {
    forall|i: int, k: int| 0 <= i < s.len() && 0 <= k < s.len() && i != k ==> option_of(s[i]) != option_of(
        s[k],
    )
}

/// Valid arguments at `i` are read one after another.
proof fn lemma_rest_arguments(t: Seq<TokenTree>, i: int, args: Seq<Seq<TokenTree>>, c: ConfigView)
    requires
        0 <= i,
        i + arguments(args).len() <= t.len(),
        t.subrange(i, i + arguments(args).len()) == arguments(args),
        valid_arguments(args),
    ensures
        parse_rest(t, i, c) == parse_rest(t, i + arguments(args).len(), apply_all(c, settings_of(args))),
    decreases args.len(),
{
    if args.len() > 0 {
        let init = args.drop_last();
        let a = args.last();
        let l0 = arguments(init).len() as int;
        let l = arguments(args).len() as int;
        assert(arguments(args) == arguments(init) + a + seq![comma()]);
        assert(t.subrange(i, i + l0) =~= arguments(args).subrange(0, l0));
        assert(arguments(args).subrange(0, l0) =~= arguments(init));
        assert(valid_arguments(init)) by {
            assert forall|k: int| 0 <= k < init.len() implies (#[trigger] init[k]) == args[k] by {}
        }
        lemma_rest_arguments(t, i, init, c);
        assert(settings_of(init) =~= settings_of(args).drop_last());
        let m = i + l0 + a.len();
        assert(args[args.len() - 1] == a);
        assert forall|k: int| i + l0 <= k < m implies !is_comma(#[trigger] t[k]) by {
            assert(t[k] == arguments(args)[k - i]);
            assert(arguments(args)[k - i] == a[k - i - l0]);
        }
        assert(t[m] == arguments(args)[m - i]);
        assert forall|q: int| 0 <= q < a.len() implies #[trigger] t.subrange(i + l0, m)[q] == a[q] by {
            assert(t[i + l0 + q] == arguments(args)[l0 + q]);
        }
        assert(t.subrange(i + l0, m) =~= a);
        lemma_rest_step(t, i + l0, m, apply_all(c, settings_of(init)));
    }
}

/// Valid arguments, each followed by a separator, give the configuration
/// that their settings make when applied from first to last.
pub proof fn lemma_arguments_fold(p: String, args: Seq<Seq<TokenTree>>)
    requires
        valid_arguments(args),
    ensures
        parse_args(with_path(p, arguments(args))) == Ok::<_, (ArgFault, int)>(
            (p@, apply_all(default_config(), settings_of(args))),
        ),
{
    let t = with_path(p, arguments(args));
    assert(t.subrange(2, 2 + arguments(args).len() as int) =~= arguments(args));
    lemma_rest_arguments(t, 2, args, default_config());
    assert(only_commas(t, t.len() as int));
}

/// The same holds without the separator after the last argument.
pub proof fn lemma_arguments_fold_unterminated(p: String, args: Seq<Seq<TokenTree>>)
    requires
        valid_arguments(args),
        args.len() > 0,
    ensures
        parse_args(with_path(p, arguments(args).drop_last())) == Ok::<_, (ArgFault, int)>(
            (p@, apply_all(default_config(), settings_of(args))),
        ),
{
    let init = args.drop_last();
    let a = args.last();
    assert(args[args.len() - 1] == a);
    assert(arguments(args).drop_last() =~= arguments(init) + a);
    let t = with_path(p, arguments(args).drop_last());
    let l0 = arguments(init).len() as int;
    assert(valid_arguments(init)) by {
        assert forall|k: int| 0 <= k < init.len() implies (#[trigger] init[k]) == args[k] by {}
    }
    assert(t.subrange(2, 2 + l0) =~= arguments(init));
    lemma_rest_arguments(t, 2, init, default_config());
    assert forall|k: int| 2 + l0 <= k < t.len() implies !is_comma(#[trigger] t[k]) by {
        assert(t[k] == a[k - 2 - l0]);
    }
    assert(t.subrange(2 + l0, t.len() as int) =~= a);
    lemma_rest_last(t, 2 + l0, apply_all(default_config(), settings_of(init)));
    assert(settings_of(init) =~= settings_of(args).drop_last());
}

/// An argument at fault after valid arguments makes the whole parse fail
/// there, whatever follows it.
proof fn lemma_fault_after_arguments(p: String, args: Seq<Seq<TokenTree>>, a: Seq<TokenTree>, rest: Seq<TokenTree>)
    requires
        valid_arguments(args),
        a.len() > 0,
        no_commas_from(a, 0),
        rest.len() > 0 ==> is_comma(rest[0]),
        setting_of(a) is Err,
    ensures
        parse_args(with_path(p, arguments(args) + a + rest)) == Err::<(Seq<char>, ConfigView), _>(
            (setting_of(a)->Err_0.0, 2 + arguments(args).len() as int + setting_of(a)->Err_0.1),
        ),
{
    let t = with_path(p, arguments(args) + a + rest);
    let l = arguments(args).len() as int;
    assert(t.subrange(2, 2 + l) =~= arguments(args));
    lemma_rest_arguments(t, 2, args, default_config());
    let c = apply_all(default_config(), settings_of(args));
    let i = 2 + l;
    let m = i + a.len();
    assert forall|k: int| i <= k < m implies !is_comma(#[trigger] t[k]) by {
        assert(t[k] == a[k - i]);
    }
    assert(t.subrange(i, m) =~= a);
    if rest.len() == 0 {
        assert(m == t.len());
        lemma_rest_last(t, i, c);
    } else {
        assert(t[m] == rest[0]);
        lemma_rest_step(t, i, m, c);
    }
}

/// A key that names no option is refused, and the error names it and points
/// at it, whatever valid arguments come before it and whatever follows.
pub proof fn lemma_unknown_option(
    p: String,
    args: Seq<Seq<TokenTree>>,
    key: String,
    v: Seq<TokenTree>,
    rest: Seq<TokenTree>,
)
    requires
        valid_arguments(args),
        !is_known_key(key@),
        v.len() > 0,
        no_commas_from(v, 0),
        rest.len() > 0 ==> is_comma(rest[0]),
    ensures
        parse_args(with_path(p, arguments(args) + assignment(key, v) + rest))
            == Err::<(Seq<char>, ConfigView), _>((ArgFault::UnknownOption(key@), 2 + arguments(args).len() as int)),
{
    let a = assignment(key, v);
    assert forall|k: int| 0 <= k < a.len() implies !is_comma(#[trigger] a[k]) by {
        if k >= 2 {
            assert(a[k] == v[k - 2]);
        }
    }
    lemma_fault_after_arguments(p, args, a, rest);
}

/// A value of the wrong shape for its key is refused as such, at the value's
/// first token, whatever valid arguments come before it and whatever follows.
pub proof fn lemma_wrong_shape(
    p: String,
    args: Seq<Seq<TokenTree>>,
    key: String,
    v: Seq<TokenTree>,
    rest: Seq<TokenTree>,
)
    requires
        valid_arguments(args),
        key@ == "precision"@ || key@ == "use_avro_rs_unions"@ || key@ == "use_chrono_dates"@
            || key@ == "derive_builders"@ || key@ == "extra_derives"@ || key@ == "impl_avro_schema"@,
        !fits_key(key@, v),
        v.len() > 0,
        no_commas_from(v, 0),
        rest.len() > 0 ==> is_comma(rest[0]),
    ensures
        parse_args(with_path(p, arguments(args) + assignment(key, v) + rest))
            == Err::<(Seq<char>, ConfigView), _>((ArgFault::Type, 2 + arguments(args).len() as int + 2)),
{
    let a = assignment(key, v);
    assert forall|k: int| 0 <= k < a.len() implies !is_comma(#[trigger] a[k]) by {
        if k >= 2 {
            assert(a[k] == v[k - 2]);
        }
    }
    assert(a.subrange(2, a.len() as int) =~= v);
    lemma_fault_after_arguments(p, args, a, rest);
}

/// Applying a setting of its own option last changes nothing, where no two
/// settings share an option.
proof fn lemma_apply_all_move_last(c: ConfigView, s: Seq<Setting>, j: int)
    requires
        0 <= j < s.len(),
        distinct_options(s),
    ensures
        apply_all(c, s) == apply(apply_all(c, s.remove(j)), s[j]),
    decreases s.len(),
{
    if j == s.len() - 1 {
        assert(s.remove(j) =~= s.drop_last());
    } else {
        let init = s.drop_last();
        assert(distinct_options(init)) by {
            assert forall|i: int, k: int| 0 <= i < init.len() && 0 <= k < init.len() && i != k implies option_of(init[i]) != option_of(init[k]) by {
                assert(init[i] == s[i] && init[k] == s[k]);
            }
        }
        lemma_apply_all_move_last(c, init, j);
        assert(option_of(s[j]) != option_of(s.last()));
        lemma_settings_commute(apply_all(c, init.remove(j)), s[j], s.last());
        assert(s.remove(j).drop_last() =~= init.remove(j));
        assert(s.remove(j).last() == s.last());
    }
}

/// Each setting of `s1` stands somewhere in `s2`.
pub open spec fn each_setting_in(s1: Seq<Setting>, s2: Seq<Setting>) -> bool {
    forall|k: int| #![trigger s1[k]] 0 <= k < s1.len() ==> exists|m: int| #![trigger s2[m]] 0 <= m < s2.len() && s2[m] == s1[k]
}

/// Settings of distinct options give the same configuration in any order.
pub proof fn lemma_apply_all_permuted(c: ConfigView, s1: Seq<Setting>, s2: Seq<Setting>)
    requires
        s1.len() == s2.len(),
        distinct_options(s1),
        distinct_options(s2),
        each_setting_in(s1, s2),
    ensures
        apply_all(c, s1) == apply_all(c, s2),
    decreases s1.len(),
{
    if s1.len() > 0 {
        let n = s1.len() - 1;
        assert(0 <= n < s1.len());
        let j = choose|m: int| 0 <= m < s2.len() && s2[m] == s1[n];
        lemma_apply_all_move_last(c, s2, j);
        let s1p = s1.drop_last();
        let s2p = s2.remove(j);
        assert(each_setting_in(s1p, s2p)) by {
        assert forall|k: int| #![trigger s1p[k]] 0 <= k < s1p.len() implies exists|m: int| #![trigger s2p[m]] 0 <= m < s2p.len() && s2p[m] == s1p[k] by {
            assert(s1p[k] == s1[k]);
            let m = choose|m: int| 0 <= m < s2.len() && s2[m] == s1[k];
            assert(option_of(s1[k]) != option_of(s1[n]));
            if m < j {
                assert(s2p[m] == s2[m]);
            } else {
                assert(m != j);
                assert(s2p[m - 1] == s2[m]);
            }
        }
        }
        assert(distinct_options(s1p)) by {
            assert forall|i: int, k: int| 0 <= i < s1p.len() && 0 <= k < s1p.len() && i != k implies option_of(s1p[i]) != option_of(s1p[k]) by {
                assert(s1p[i] == s1[i] && s1p[k] == s1[k]);
            }
        }
        assert(distinct_options(s2p)) by {
            assert forall|i: int, k: int| 0 <= i < s2p.len() && 0 <= k < s2p.len() && i != k implies option_of(s2p[i]) != option_of(s2p[k]) by {
                let i2 = if i < j { i } else { i + 1 };
                let k2 = if k < j { k } else { k + 1 };
                assert(s2p[i] == s2[i2] && s2p[k] == s2[k2]);
            }
        }
        lemma_apply_all_permuted(c, s1p, s2p);
    }
}

/// Valid arguments for distinct options give the same result in any order:
/// where each setting of the first list is made somewhere in the second.
pub proof fn lemma_arguments_any_order(p: String, args1: Seq<Seq<TokenTree>>, args2: Seq<Seq<TokenTree>>)
    requires
        valid_arguments(args1),
        valid_arguments(args2),
        args1.len() == args2.len(),
        distinct_options(settings_of(args1)),
        distinct_options(settings_of(args2)),
        each_setting_in(settings_of(args1), settings_of(args2)),
    ensures
        parse_args(with_path(p, arguments(args1))) == parse_args(with_path(p, arguments(args2))),
        parse_args(with_path(p, arguments(args1))) is Ok,
        args1.len() > 0 ==> parse_args(with_path(p, arguments(args1).drop_last())) == parse_args(
            with_path(p, arguments(args2).drop_last()),
        ),
        args1.len() > 0 ==> parse_args(with_path(p, arguments(args1).drop_last())) == parse_args(
            with_path(p, arguments(args1)),
        ),
{
    let s1 = settings_of(args1);
    let s2 = settings_of(args2);
    lemma_apply_all_permuted(default_config(), s1, s2);
    lemma_arguments_fold(p, args1);
    lemma_arguments_fold(p, args2);
    if args1.len() > 0 {
        lemma_arguments_fold_unterminated(p, args1);
        lemma_arguments_fold_unterminated(p, args2);
    }
}

} // verus!
