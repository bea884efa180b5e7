//! Token predicates and the name scan shared by the parsers of paths, import
//! paths and types.

use vstd::prelude::*;
use crate::token::{Location, Token, TokenData, Error, Note, diags_of};
use crate::names::DottedName;

pub use crate::path::{parse_path, parse_paths};
pub use crate::expr::{parse_expr, NullAST};
pub use crate::types::{parse_type, ParsedType, TypeView};

verus! {

/// A period token.
pub open spec fn is_period(t: TokenData) -> bool {
    match t {
        TokenData::Special(c) => c == '.',
        _ => false,
    }
}

/// An identifier token.
pub open spec fn is_ident(t: TokenData) -> bool {
    t is Identifier
}

/// A token that may begin a name: a period (root anchor) or an identifier.
pub open spec fn starts_name(t: TokenData) -> bool {
    is_period(t) || is_ident(t)
}

/// A token at which a name or a type stops without consuming it: a
/// punctuation character of `terms`, or a keyword spelled with one character
/// of `terms`.
pub open spec fn is_term(t: TokenData, terms: Seq<char>) -> bool {
    match t {
        TokenData::Special(c) => terms.contains(c),
        TokenData::Keyword(s) => s@.len() == 1 && terms.contains(s@[0]),
        _ => false,
    }
}

/// A token that the scan of a name consumes.
pub open spec fn continues_name(t: TokenData, terms: Seq<char>) -> bool {
    !is_term(t, terms) && starts_name(t)
}

/// `e` is where the scan of a name that begins at 0 stops: every token in
/// between continues the name, and the one at `e` (if any) does not.
pub open spec fn is_name_end(toks: Seq<Token>, terms: Seq<char>, e: int) -> bool {
    &&& 1 <= e <= toks.len()
    &&& forall|i: int| 1 <= i < e ==> continues_name(#[trigger] toks[i].data, terms)
    &&& (e == toks.len() || !continues_name(toks[e].data, terms))
}

/// The texts of the identifiers among `toks`, in order.
pub open spec fn idents(toks: Seq<Token>) -> Seq<Seq<char>>
    decreases toks.len(),
{
    if toks.len() == 0 {
        seq![]
    } else {
        let rest = idents(toks.drop_last());
        match toks.last().data {
            TokenData::Identifier(s) => rest.push(s@),
            _ => rest,
        }
    }
}

/// The diagnostic for token `i` of a name given the token before it: two
/// periods in a row, or two identifiers in a row.
pub open spec fn adjacency_diag(toks: Seq<Token>, i: int) -> Seq<(u32, Location)> {
    if is_period(toks[i - 1].data) && is_period(toks[i].data) {
        seq![(211u32, toks[i].loc)]
    } else if is_ident(toks[i - 1].data) && is_ident(toks[i].data) {
        seq![(212u32, toks[i].loc)]
    } else {
        seq![]
    }
}

/// The adjacency diagnostics of tokens `1 .. e`, in order.
pub open spec fn adjacency_diags(toks: Seq<Token>, e: int) -> Seq<(u32, Location)>
    decreases e,
{
    if e <= 1 {
        seq![]
    } else {
        adjacency_diags(toks, e - 1) + adjacency_diag(toks, e - 1)
    }
}

/// The "unexpected token" diagnostic with `code` where a name stops at a
/// token that is no terminator.
pub open spec fn unexpected_diag(toks: Seq<Token>, terms: Seq<char>, e: int, code: u32) -> Seq<
    (u32, Location),
> {
    if e < toks.len() && !is_term(toks[e].data, terms) {
        seq![(code, toks[e].loc)]
    } else {
        seq![]
    }
}

/// Whether `c` is one of the characters of `s`.
pub(crate) fn has_char(s: &str, c: char) -> (r: bool)
    ensures
        r == s@.contains(c),
{
    let n = s.unicode_len();
    let mut i: usize = 0;
    while i < n
        invariant
            n == s@.len(),
            i <= n,
            forall|j: int| 0 <= j < i ==> s@[j] != c,
        decreases n - i,
    {
        if s.get_char(i) == c {
            assert(s@[i as int] == c);
            return true;
        }
        i += 1;
    }
    false
}

/// Whether `t` ends a name or a type under the terminator set `terms`.
pub fn is_terminator(t: &TokenData, terms: &str) -> (r: bool)
    ensures
        r == is_term(*t, terms@),
{
    match t {
        TokenData::Special(c) => has_char(terms, *c),
        TokenData::Keyword(s) => {
            let s = s.as_str();
            if s.unicode_len() == 1 {
                has_char(terms, s.get_char(0))
            } else {
                false
            }
        },
        _ => false,
    }
}

pub(crate) fn period_error(loc: Location) -> (e: Error)
    ensures
        e.code == 211,
        e.loc == loc,
{
    Error::new(loc, 211, "identifier cannot contain consecutive periods").note(
        Note::new(loc, "Did you accidentally type two?"),
    )
}

pub(crate) fn ident_error(loc: Location) -> (e: Error)
    ensures
        e.code == 212,
        e.loc == loc,
{
    Error::new(loc, 212, "identifier cannot contain consecutive identifiers").note(
        Note::new(loc, "Did you forget a period?"),
    )
}

pub(crate) proof fn lemma_idents_step(toks: Seq<Token>, i: int)
    requires
        0 <= i < toks.len(),
    ensures
        idents(toks.subrange(0, i + 1)) == match toks[i].data {
            TokenData::Identifier(s) => idents(toks.subrange(0, i)).push(s@),
            _ => idents(toks.subrange(0, i)),
        },
{
    assert(toks.subrange(0, i + 1).drop_last() =~= toks.subrange(0, i));
}

/// Scans the name that begins at token 0, up to the first token that does
/// not continue it. Returns the name, where it stopped and the adjacency
/// diagnostics.
pub(crate) fn scan_name(toks: &[Token], terms: &str) -> (res: (DottedName, usize, Vec<Error>))
    requires
        toks@.len() > 0,
        starts_name(toks@[0].data),
    ensures
        is_name_end(toks@, terms@, res.1 as int),
        res.0@.ids == idents(toks@.subrange(0, res.1 as int)),
        res.0.global == is_period(toks@[0].data),
        diags_of(res.2@) == adjacency_diags(toks@, res.1 as int),
{
    let mut ids: Vec<String> = Vec::new();
    let global = match &toks[0].data {
        TokenData::Identifier(s) => {
            ids.push(s.clone());
            false
        },
        _ => true,
    };
    proof {
        lemma_idents_step(toks@, 0);
        assert(toks@.subrange(0, 0).len() == 0);
        assert(crate::names::texts(ids@) =~= idents(toks@.subrange(0, 1)));
    }
    let mut errs: Vec<Error> = Vec::new();
    let mut lwp = global;
    let mut idx: usize = 1;
    while idx < toks.len()
        invariant
            1 <= idx <= toks@.len(),
            starts_name(toks@[0].data),
            global == is_period(toks@[0].data),
            forall|i: int| 1 <= i < idx ==> continues_name(#[trigger] toks@[i].data, terms@),
            lwp == is_period(toks@[idx - 1].data),
            crate::names::texts(ids@) == idents(toks@.subrange(0, idx as int)),
            diags_of(errs@) == adjacency_diags(toks@, idx as int),
        ensures
            idx == toks@.len() || !continues_name(toks@[idx as int].data, terms@),
        decreases toks@.len() - idx,
    {
        let t = &toks[idx].data;
        if is_terminator(t, terms) {
            break;
        }
        match t {
            TokenData::Special(c) => {
                if *c != '.' {
                    break;
                }
                if lwp {
                    errs.push(period_error(toks[idx].loc));
                }
                lwp = true;
            },
            TokenData::Identifier(s) => {
                if !lwp {
                    errs.push(ident_error(toks[idx].loc));
                }
                ids.push(s.clone());
                lwp = false;
            },
            _ => {
                break;
            },
        }
        proof {
            lemma_idents_step(toks@, idx as int);
            assert(crate::names::texts(ids@) =~= idents(toks@.subrange(0, idx + 1)));
            assert(diags_of(errs@) =~= adjacency_diags(toks@, idx + 1));
        }
        idx += 1;
    }
    (DottedName::new(ids, global), idx, errs)
}


/// A punctuation token for the character `c`.
pub open spec fn is_special(t: TokenData, c: char) -> bool {
    match t {
        TokenData::Special(d) => d == c,
        _ => false,
    }
}

/// Whether two strings hold the same characters.
pub(crate) fn same_text(s: &str, t: &str) -> (r: bool)
    ensures
        r == (s@ == t@),
{
    let n = s.unicode_len();
    if n != t.unicode_len() {
        return false;
    }
    let mut i: usize = 0;
    while i < n
        invariant
            n == s@.len() == t@.len(),
            i <= n,
            forall|j: int| 0 <= j < i ==> s@[j] == t@[j],
        decreases n - i,
    {
        if s.get_char(i) != t.get_char(i) {
            return false;
        }
        i += 1;
    }
    assert(s@ =~= t@);
    true
}

} // verus!
