//! Type expressions: primitive spellings, user type names, and the modifiers
//! `&`, `*`, `^`, `[]` and `[size]`.

use vstd::prelude::*;
use crate::token::{Location, Token, TokenData, Error, Note, diags_of};
use crate::names::{DottedName, DottedNameView};
use crate::parser::{
    is_period, starts_name, is_term, continues_name, is_name_end, idents, adjacency_diags, is_special,
    is_terminator, same_text, scan_name,
};
use crate::expr::{NullAST, expr_result, scan_expr};

verus! {

/// A type expression as written in the source.
#[derive(Debug)]
pub enum ParsedType {
    /// Pointer-width signed integer.
    ISize,
    /// Signed integer of the given bit width.
    Int(u64),
    /// Pointer-width unsigned integer.
    USize,
    /// Unsigned integer of the given bit width.
    UInt(u64),
    F16,
    F32,
    F64,
    F128,
    Null,
    /// Any other name: a user type.
    Named(DottedName),
    Reference(Box<ParsedType>),
    Pointer(Box<ParsedType>),
    Borrow(Box<ParsedType>),
    UnsizedArray(Box<ParsedType>),
    SizedArray(Box<ParsedType>, Box<NullAST>),
}

/// The mathematical value of a `ParsedType`.
pub enum TypeView {
    ISize,
    Int(u64),
    USize,
    UInt(u64),
    F16,
    F32,
    F64,
    F128,
    Null,
    Named(DottedNameView),
    Reference(Box<TypeView>),
    Pointer(Box<TypeView>),
    Borrow(Box<TypeView>),
    UnsizedArray(Box<TypeView>),
    SizedArray(Box<TypeView>, NullAST),
}

pub open spec fn type_view(t: ParsedType) -> TypeView
    decreases t,
{
    match t {
        ParsedType::ISize => TypeView::ISize,
        ParsedType::Int(w) => TypeView::Int(w),
        ParsedType::USize => TypeView::USize,
        ParsedType::UInt(w) => TypeView::UInt(w),
        ParsedType::F16 => TypeView::F16,
        ParsedType::F32 => TypeView::F32,
        ParsedType::F64 => TypeView::F64,
        ParsedType::F128 => TypeView::F128,
        ParsedType::Null => TypeView::Null,
        ParsedType::Named(n) => TypeView::Named(n@),
        ParsedType::Reference(b) => TypeView::Reference(Box::new(type_view(*b))),
        ParsedType::Pointer(b) => TypeView::Pointer(Box::new(type_view(*b))),
        ParsedType::Borrow(b) => TypeView::Borrow(Box::new(type_view(*b))),
        ParsedType::UnsizedArray(b) => TypeView::UnsizedArray(Box::new(type_view(*b))),
        ParsedType::SizedArray(b, e) => TypeView::SizedArray(Box::new(type_view(*b)), *e),
    }
}

impl View for ParsedType {
    type V = TypeView;

    open spec fn view(&self) -> TypeView {
        type_view(*self)
    }
}

/// The value of an optional type.
pub open spec fn opt_type_view(t: Option<ParsedType>) -> Option<TypeView> {
    match t {
        Some(t) => Some(t@),
        None => None,
    }
}

pub open spec fn is_digit(c: char) -> bool {
    '0' <= c <= '9'
}

/// The number that a string of decimal digits spells.
pub open spec fn decimal_value(s: Seq<char>) -> nat
    decreases s.len(),
{
    if s.len() == 0 {
        0
    } else {
        decimal_value(s.drop_last()) * 10 + (s.last() as u32 - '0' as u32) as nat
    }
}

/// A spelling `lead` followed by one or more decimal digits: `None` when `s`
/// has not that shape; `Some(Some(w))` when the digits spell a width `w`
/// that is positive and fits in 64 bits; `Some(None)` when they do not.
pub open spec fn width_spelling(s: Seq<char>, lead: char) -> Option<Option<u64>> {
    if s.len() >= 2 && s[0] == lead && forall|i: int| 1 <= i < s.len() ==> is_digit(#[trigger] s[i]) {
        let v = decimal_value(s.subrange(1, s.len() as int));
        if 1 <= v <= u64::MAX {
            Some(Some(v as u64))
        } else {
            Some(None)
        }
    } else {
        None
    }
}

/// What a name spells as a type.
pub enum Spelling {
    Primitive(TypeView),
    /// A primitive integer spelling whose width is zero or too large.
    Malformed,
    Named,
}

/// The primitive that a name spells, for a single unanchored segment.
pub open spec fn spelling(name: DottedNameView) -> Spelling {
    if name.global || name.ids.len() != 1 {
        Spelling::Named
    } else {
        let s = name.ids[0];
        if s == "isize"@ {
            Spelling::Primitive(TypeView::ISize)
        } else if width_spelling(s, 'i') is Some {
            match width_spelling(s, 'i')->0 {
                Some(w) => Spelling::Primitive(TypeView::Int(w)),
                None => Spelling::Malformed,
            }
        } else if s == "usize"@ {
            Spelling::Primitive(TypeView::USize)
        } else if width_spelling(s, 'u') is Some {
            match width_spelling(s, 'u')->0 {
                Some(w) => Spelling::Primitive(TypeView::UInt(w)),
                None => Spelling::Malformed,
            }
        } else if s == "f16"@ {
            Spelling::Primitive(TypeView::F16)
        } else if s == "f32"@ {
            Spelling::Primitive(TypeView::F32)
        } else if s == "f64"@ {
            Spelling::Primitive(TypeView::F64)
        } else if s == "f128"@ {
            Spelling::Primitive(TypeView::F128)
        } else if s == "null"@ {
            Spelling::Primitive(TypeView::Null)
        } else {
            Spelling::Named
        }
    }
}

/// Reads a width spelling such as `i32` or `u8`.
fn width_of(s: &str, lead: char) -> (r: Option<Option<u64>>)
    ensures
        r == width_spelling(s@, lead),
{
    let n = s.unicode_len();
    if n < 2 || s.get_char(0) != lead {
        return None;
    }
    let mut v: u64 = 0;
    let mut over = false;
    let mut i: usize = 1;
    while i < n
        invariant
            n == s@.len(),
            n >= 2,
            s@[0] == lead,
            1 <= i <= n,
            forall|j: int| 1 <= j < i ==> is_digit(#[trigger] s@[j]),
            !over ==> v as nat == decimal_value(s@.subrange(1, i as int)),
            over ==> decimal_value(s@.subrange(1, i as int)) > u64::MAX,
        decreases n - i,
    {
        let c = s.get_char(i);
        if !('0' <= c && c <= '9') {
            assert(!is_digit(s@[i as int]));
            return None;
        }
        let d: u64 = (c as u32 - '0' as u32) as u64;
        assert(s@.subrange(1, i + 1).drop_last() =~= s@.subrange(1, i as int));
        if !over {
            if v > 1844674407370955161 || (v == 1844674407370955161 && d > 5) {
                over = true;
            } else {
                v = v * 10 + d;
            }
        }
        i += 1;
    }
    assert(s@.subrange(1, n as int) == s@.subrange(1, s@.len() as int));
    if over || v == 0 {
        Some(None)
    } else {
        Some(Some(v))
    }
}

/// What a name spells as a primitive type: `None` when it names a user
/// type, `Some(None)` when it is a malformed integer width.
fn primitive_of(name: &DottedName) -> (r: Option<Option<ParsedType>>)
    ensures
        match spelling(name@) {
            Spelling::Named => r is None,
            Spelling::Malformed => r == Some(None::<ParsedType>),
            Spelling::Primitive(t) => r is Some && r->0 is Some && r->0->0@ == t,
        },
{
    if name.global || name.ids.len() != 1 {
        return None;
    }
    let s = name.ids[0].as_str();
    assert(name@.ids[0] == s@);
    if same_text(s, "isize") {
        return Some(Some(ParsedType::ISize));
    }
    match width_of(s, 'i') {
        Some(Some(w)) => {
            return Some(Some(ParsedType::Int(w)));
        },
        Some(None) => {
            return Some(None);
        },
        None => {},
    }
    if same_text(s, "usize") {
        return Some(Some(ParsedType::USize));
    }
    match width_of(s, 'u') {
        Some(Some(w)) => {
            return Some(Some(ParsedType::UInt(w)));
        },
        Some(None) => {
            return Some(None);
        },
        None => {},
    }
    if same_text(s, "f16") {
        Some(Some(ParsedType::F16))
    } else if same_text(s, "f32") {
        Some(Some(ParsedType::F32))
    } else if same_text(s, "f64") {
        Some(Some(ParsedType::F64))
    } else if same_text(s, "f128") {
        Some(Some(ParsedType::F128))
    } else if same_text(s, "null") {
        Some(Some(ParsedType::Null))
    } else {
        None
    }
}

/// The type that a modifier operator makes of `t`: `&`, `*` and `^` wrap it
/// once in a reference, a pointer or a borrow, and `&&`, `**` and `^^` twice.
pub open spec fn wrap(op: Seq<char>, t: TypeView) -> Option<TypeView> {
    if op == "&"@ {
        Some(TypeView::Reference(Box::new(t)))
    } else if op == "*"@ {
        Some(TypeView::Pointer(Box::new(t)))
    } else if op == "^"@ {
        Some(TypeView::Borrow(Box::new(t)))
    } else if op == "&&"@ {
        Some(TypeView::Reference(Box::new(TypeView::Reference(Box::new(t)))))
    } else if op == "**"@ {
        Some(TypeView::Pointer(Box::new(TypeView::Pointer(Box::new(t)))))
    } else if op == "^^"@ {
        Some(TypeView::Borrow(Box::new(TypeView::Borrow(Box::new(t)))))
    } else {
        None
    }
}

/// A token that ends the name of a type and begins its modifiers.
pub open spec fn is_modifier(t: TokenData) -> bool {
    match t {
        TokenData::Special(c) => c == '&' || c == '*' || c == '^' || c == '[',
        TokenData::Operator(s) => wrap(s@, TypeView::Null) is Some,
        _ => false,
    }
}

/// The modifier phase of a type from token `i` on, applied to `t`: the type
/// that results, the tokens consumed counting the lookahead, and the
/// diagnostics.
pub open spec fn modifiers(toks: Seq<Token>, terms: Seq<char>, i: int, t: TypeView) -> (
    TypeView,
    int,
    Seq<(u32, Location)>,
)
    decreases toks.len() - i,
{
    if i < 0 || i >= toks.len() {
        (t, i + 1, seq![])
    } else {
        let tok = toks[i];
        if is_term(tok.data, terms) {
            (t, i + 1, seq![])
        } else {
            match tok.data {
                TokenData::Operator(s) => match wrap(s@, t) {
                    Some(w) => modifiers(toks, terms, i + 1, w),
                    None => (t, i + 1, seq![(220u32, tok.loc)]),
                },
                TokenData::Special(c) => if c != '[' {
                    (t, i + 1, seq![(220u32, tok.loc)])
                } else if i + 1 >= toks.len() {
                    (t, i + 2, seq![(242u32, tok.loc)])
                } else if is_special(toks[i + 1].data, ']') {
                    modifiers(toks, terms, i + 2, TypeView::UnsizedArray(Box::new(t)))
                } else {
                    let (stop, ds) = expr_result(toks, "]"@, i + 1);
                    let arr = TypeView::SizedArray(Box::new(t), NullAST { loc: toks[i + 1].loc });
                    if i < stop < toks.len() && is_special(toks[stop].data, ']') {
                        let (t2, c2, d2) = modifiers(toks, terms, stop + 1, arr);
                        (t2, c2, ds + d2)
                    } else {
                        (arr, stop + 1, ds.push((242u32, tok.loc)))
                    }
                },
                _ => (t, i + 1, seq![(220u32, tok.loc)]),
            }
        }
    }
}

/// Where the name at the start of `toks` ends.
pub open spec fn name_end(toks: Seq<Token>, terms: Seq<char>) -> int {
    choose|e: int| is_name_end(toks, terms, e)
}

proof fn lemma_name_end_unique(toks: Seq<Token>, terms: Seq<char>, e: int)
    requires
        is_name_end(toks, terms, e),
    ensures
        name_end(toks, terms) == e,
{
    let f = name_end(toks, terms);
    assert(is_name_end(toks, terms, f));
    if f < e {
        assert(continues_name(toks[f].data, terms));
    } else if e < f {
        assert(continues_name(toks[e].data, terms));
    }
}

/// What `parse_type` returns on `toks`: the type (none where the first token
/// cannot begin one, or the name is a malformed integer width), the tokens
/// consumed counting the lookahead, and the diagnostics.
pub open spec fn type_result(toks: Seq<Token>, terms: Seq<char>) -> (
    Option<TypeView>,
    int,
    Seq<(u32, Location)>,
) {
    if !starts_name(toks[0].data) {
        (None, 2, seq![(240u32, toks[0].loc)])
    } else {
        let e = name_end(toks, terms);
        let name = DottedNameView {
            ids: idents(toks.subrange(0, e)),
            global: is_period(toks[0].data),
        };
        let adj = adjacency_diags(toks, e);
        if e < toks.len() && !is_term(toks[e].data, terms) && !is_modifier(toks[e].data) {
            // an unexpected token ends the type before any modifier
            let ds = adj.push((210u32, toks[e].loc));
            match spelling(name) {
                Spelling::Primitive(t) => (Some(t), e + 1, ds),
                Spelling::Named => (Some(TypeView::Named(name)), e + 1, ds),
                Spelling::Malformed => (None, e + 1, ds.push((290u32, toks[0].loc))),
            }
        } else {
            match spelling(name) {
                Spelling::Malformed => (None, e + 1, adj.push((290u32, toks[0].loc))),
                Spelling::Primitive(t) => {
                    let (t2, c, ds) = modifiers(toks, terms, e, t);
                    (Some(t2), c, adj + ds)
                },
                Spelling::Named => {
                    let (t2, c, ds) = modifiers(toks, terms, e, TypeView::Named(name));
                    (Some(t2), c, adj + ds)
                },
            }
        }
    }
}

/// The type that a modifier operator makes of `t`, if it is one.
fn apply_modifier(op: &str, t: ParsedType) -> (r: Result<ParsedType, ParsedType>)
    ensures
        match wrap(op@, t@) {
            Some(w) => r is Ok && r->Ok_0@ == w,
            None => r is Err && r->Err_0 == t,
        },
{
    if same_text(op, "&") {
        Ok(ParsedType::Reference(Box::new(t)))
    } else if same_text(op, "*") {
        Ok(ParsedType::Pointer(Box::new(t)))
    } else if same_text(op, "^") {
        Ok(ParsedType::Borrow(Box::new(t)))
    } else if same_text(op, "&&") {
        {
        let inner = ParsedType::Reference(Box::new(t));
        assert(inner@ == TypeView::Reference(Box::new(t@)));
        Ok(ParsedType::Reference(Box::new(inner)))
    }
    } else if same_text(op, "**") {
        {
        let inner = ParsedType::Pointer(Box::new(t));
        assert(inner@ == TypeView::Pointer(Box::new(t@)));
        Ok(ParsedType::Pointer(Box::new(inner)))
    }
    } else if same_text(op, "^^") {
        {
        let inner = ParsedType::Borrow(Box::new(t));
        assert(inner@ == TypeView::Borrow(Box::new(t@)));
        Ok(ParsedType::Borrow(Box::new(inner)))
    }
    } else {
        Err(t)
    }
}

/// Whether `t` ends the name of a type and begins its modifiers.
fn is_modifier_token(t: &TokenData) -> (r: bool)
    ensures
        r == is_modifier(*t),
{
    match t {
        TokenData::Special(c) => *c == '&' || *c == '*' || *c == '^' || *c == '[',
        TokenData::Operator(s) => {
            let s = s.as_str();
            same_text(s, "&") || same_text(s, "*") || same_text(s, "^") || same_text(s, "&&")
                || same_text(s, "**") || same_text(s, "^^")
        },
        _ => false,
    }
}

/// The modifier phase of `parse_type`, from token `start` on, applied to
/// `base`.
fn parse_modifiers(toks: &[Token], terms: &str, start: usize, base: ParsedType) -> (res: (
    ParsedType,
    usize,
    Vec<Error>,
))
    requires
        start <= toks@.len() < usize::MAX - 1,
    ensures
        modifiers(toks@, terms@, start as int, base@) == (res.0@, res.1 as int, diags_of(res.2@)),
{
    let mut errs: Vec<Error> = Vec::new();
    let mut out = base;
    let mut idx: usize = start;
    while idx < toks.len()
        invariant
            start <= idx <= toks@.len() < usize::MAX - 1,
            ({
                let m = modifiers(toks@, terms@, idx as int, out@);
                modifiers(toks@, terms@, start as int, base@) == (m.0, m.1, diags_of(errs@) + m.2)
            }),
        decreases toks@.len() - idx,
    {
        let ghost before = errs@;
        let tok = &toks[idx];
        if is_terminator(&tok.data, terms) {
            proof {
                assert(diags_of(errs@) + seq![] =~= diags_of(errs@));
            }
            return (out, idx + 1, errs);
        }
        match &tok.data {
            TokenData::Operator(s) => {
                match apply_modifier(s.as_str(), out) {
                    Ok(w) => {
                        out = w;
                        idx += 1;
                    },
                    Err(t) => {
                        errs.push(Error::new(tok.loc, 220, "unexpected token in type name"));
                        proof {
                            assert(diags_of(errs@) =~= diags_of(before) + seq![(220u32, tok.loc)]);
                        }
                        return (t, idx + 1, errs);
                    },
                }
            },
            TokenData::Special(c) if *c == '[' => {
                if idx + 1 == toks.len() {
                    errs.push(Error::new(tok.loc, 242, "unmatched '['"));
                    proof {
                        assert(diags_of(errs@) =~= diags_of(before) + seq![(242u32, tok.loc)]);
                    }
                    return (out, idx + 2, errs);
                }
                if matches!(toks[idx + 1].data, TokenData::Special(']')) {
                    out = ParsedType::UnsizedArray(Box::new(out));
                    idx += 2;
                } else {
                    let (stop, mut es) = scan_expr(toks, idx + 1, "]");
                    let size = NullAST::new(toks[idx + 1].loc);
                    out = ParsedType::SizedArray(Box::new(out), Box::new(size));
                    let ghost ds = diags_of(es@);
                    errs.append(&mut es);
                    proof {
                        assert(diags_of(errs@) =~= diags_of(before) + ds);
                    }
                    if stop < toks.len() && matches!(toks[stop].data, TokenData::Special(']')) {
                        proof {
                            let m = modifiers(toks@, terms@, stop + 1, out@);
                            assert(diags_of(before) + (ds + m.2) =~= diags_of(errs@) + m.2);
                        }
                        idx = stop + 1;
                    } else {
                        errs.push(Error::new(tok.loc, 242, "unmatched '['"));
                        proof {
                            assert(diags_of(errs@) =~= diags_of(before) + ds.push((242u32, tok.loc)));
                        }
                        return (out, stop + 1, errs);
                    }
                }
            },
            _ => {
                errs.push(Error::new(tok.loc, 220, "unexpected token in type name"));
                proof {
                    assert(diags_of(errs@) =~= diags_of(before) + seq![(220u32, tok.loc)]);
                }
                return (out, idx + 1, errs);
            },
        }
    }
    proof {
        assert(diags_of(errs@) + seq![] =~= diags_of(errs@));
    }
    (out, idx + 1, errs)
}

fn width_error(loc: Location) -> (e: Error)
    ensures
        e.code == 290,
        e.loc == loc,
{
    Error::new(loc, 290, "error when parsing integral type: the width must be a positive 64-bit integer")
}

/// Parses a type expression at the start of `toks`, stopping at a terminator
/// of `terminators`: a name (a primitive spelling such as `i32`, `usize`,
/// `f64` or `null`, else a user type), then modifiers (`&`, `*`, `^`, their
/// doubles, `[]` and `[size]`). Returns the type, the number of tokens
/// consumed counting the lookahead at which it stopped, and the diagnostics.
/// An integer spelling whose width is zero or too large gives no type.
pub fn parse_type(toks: &[Token], terminators: &str) -> (res: (Option<ParsedType>, usize, Vec<Error>))
    requires
        0 < toks@.len() < usize::MAX - 1,
    ensures
        (opt_type_view(res.0), res.1 as int, diags_of(res.2@)) == type_result(toks@, terminators@),
{
    if !(matches!(toks[0].data, TokenData::Identifier(_)) || matches!(toks[0].data, TokenData::Special('.'))) {
        let mut errs: Vec<Error> = Vec::new();
        errs.push(
            Error::new(toks[0].loc, 240, "expected a type").note(
                Note::new(toks[0].loc, "a type begins with a name or a period"),
            ),
        );
        proof {
            assert(diags_of(errs@) =~= seq![(240u32, toks@[0].loc)]);
        }
        return (None, 2, errs);
    }
    let (name, e, mut errs) = scan_name(toks, terminators);
    let ghost adj = diags_of(errs@);
    proof {
        lemma_name_end_unique(toks@, terminators@, e as int);
    }
    if e < toks.len() && !is_terminator(&toks[e].data, terminators) && !is_modifier_token(
        &toks[e].data,
    ) {
        errs.push(Error::new(toks[e].loc, 210, "unexpected token in type"));
        let ghost ds = diags_of(errs@);
        proof {
            assert(ds =~= adj.push((210u32, toks@[e as int].loc)));
        }
        match primitive_of(&name) {
            Some(Some(t)) => {
                return (Some(t), e + 1, errs);
            },
            None => {
                return (Some(ParsedType::Named(name)), e + 1, errs);
            },
            Some(None) => {
                errs.push(width_error(toks[0].loc));
                proof {
                    assert(diags_of(errs@) =~= ds.push((290u32, toks@[0].loc)));
                }
                return (None, e + 1, errs);
            },
        }
    }
    let base = match primitive_of(&name) {
        Some(Some(t)) => t,
        None => ParsedType::Named(name),
        Some(None) => {
            errs.push(width_error(toks[0].loc));
            proof {
                assert(diags_of(errs@) =~= adj.push((290u32, toks@[0].loc)));
            }
            return (None, e + 1, errs);
        },
    };
    let (t, c, mut es) = parse_modifiers(toks, terminators, e, base);
    let ghost ms = diags_of(es@);
    errs.append(&mut es);
    proof {
        assert(diags_of(errs@) =~= adj + ms);
    }
    (Some(t), c, errs)
}

} // verus!
