//! Parsers for dotted names and import paths, and the law of simple dotted
//! names.

use vstd::prelude::*;
use crate::token::{Location, Token, TokenData, Error, diags_of};
use crate::names::{DottedName, CompoundDottedName, CompoundDottedNameSegment, SegmentView, segments_view};
use crate::parser::{
    is_period, is_ident, starts_name, is_term, continues_name, is_name_end, idents,
    adjacency_diags, unexpected_diag, is_special, is_terminator, same_text, scan_name,
    period_error, ident_error, lemma_idents_step,
};

verus! {

/// Parses a dotted name such as `a.b.c` or `.a.b` at the start of `toks`,
/// stopping at a terminator of `terminators`. Returns the name, the number of
/// tokens consumed counting the lookahead at which it stopped, and the
/// diagnostics. Two periods or two identifiers in a row are reported and
/// skipped over; any other token ends the name with a 210 diagnostic.
pub fn parse_path(toks: &[Token], terminators: &str) -> (res: (DottedName, usize, Vec<Error>))
    requires
        0 < toks@.len() < usize::MAX,
    ensures
        !starts_name(toks@[0].data) ==> {
            &&& res.0@.ids == seq![Seq::<char>::empty()]
            &&& !res.0.global
            &&& res.1 == 2
            &&& diags_of(res.2@) == seq![(210u32, toks@[0].loc)]
        },
        starts_name(toks@[0].data) ==> {
            let e = res.1 - 1;
            &&& is_name_end(toks@, terminators@, e)
            &&& res.0@.ids == idents(toks@.subrange(0, e))
            &&& res.0.global == is_period(toks@[0].data)
            &&& diags_of(res.2@) == adjacency_diags(toks@, e) + unexpected_diag(
                toks@,
                terminators@,
                e,
                210,
            )
        },
{
    if !(matches!(toks[0].data, TokenData::Identifier(_)) || matches!(toks[0].data, TokenData::Special('.'))) {
        let mut errs: Vec<Error> = Vec::new();
        errs.push(Error::new(toks[0].loc, 210, "unexpected token in identifier"));
        proof {
            assert(diags_of(errs@) =~= seq![(210u32, toks@[0].loc)]);
        }
        return (DottedName::local(String::new()), 2, errs);
    }
    let (name, idx, mut errs) = scan_name(toks, terminators);
    let ghost before = errs@;
    if idx < toks.len() && !is_terminator(&toks[idx].data, terminators) {
        errs.push(Error::new(toks[idx].loc, 210, "unexpected token in identifier"));
    }
    proof {
        assert(diags_of(errs@) =~= diags_of(before) + unexpected_diag(
            toks@,
            terminators@,
            idx as int,
            210,
        ));
    }
    (name, idx + 1, errs)
}

/// Where the identifiers of a simple dotted name begin: after the leading
/// period when it is anchored.
pub open spec fn anchor(global: bool) -> int {
    if global {
        1
    } else {
        0
    }
}

/// The shape of a simple dotted name: an optional leading period, then `n`
/// identifiers separated by single periods, then a token of `terms`.
pub open spec fn is_simple_path(toks: Seq<Token>, terms: Seq<char>, global: bool, n: int) -> bool {
    let g = anchor(global);
    &&& n >= 1
    &&& toks.len() > g + 2 * n - 1
    &&& global ==> is_period(toks[0].data)
    &&& forall|i: int|
        g <= i < g + 2 * n - 1 ==> if (i - g) % 2 == 0 {
            is_ident(#[trigger] toks[i].data)
        } else {
            is_period(toks[i].data)
        }
    &&& !terms.contains('.')
    &&& is_term(toks[g + 2 * n - 1].data, terms)
}

/// The text of an identifier token.
pub open spec fn ident_text(t: TokenData) -> Seq<char> {
    match t {
        TokenData::Identifier(s) => s@,
        _ => seq![],
    }
}

/// The texts of the `n` identifiers of a simple dotted name.
pub open spec fn simple_path_ids(toks: Seq<Token>, global: bool, n: int) -> Seq<Seq<char>> {
    Seq::new(n as nat, |k: int| ident_text(toks[anchor(global) + 2 * k].data))
}

/// A simple dotted name (`a.b.c`, or `.a.b` when anchored) parses to its
/// identifiers in order, anchored exactly when it begins with a period, with
/// no leading empty segment, stopping at the terminator after the last
/// identifier and with no diagnostic.
pub proof fn lemma_simple_path(toks: Seq<Token>, terms: Seq<char>, global: bool, n: int)
    requires
        is_simple_path(toks, terms, global, n),
    ensures
        starts_name(toks[0].data),
        is_period(toks[0].data) == global,
        is_name_end(toks, terms, anchor(global) + 2 * n - 1),
        idents(toks.subrange(0, anchor(global) + 2 * n - 1)) == simple_path_ids(toks, global, n),
        adjacency_diags(toks, anchor(global) + 2 * n - 1) == Seq::<(u32, Location)>::empty(),
        unexpected_diag(toks, terms, anchor(global) + 2 * n - 1, 210) == Seq::<
            (u32, Location),
        >::empty(),
{
    let g = anchor(global);
    let e = g + 2 * n - 1;
    assert(is_ident(toks[g].data));
    assert forall|i: int| 1 <= i < e implies continues_name(#[trigger] toks[i].data, terms) by {
        if (i - g) % 2 == 0 {
            assert(is_ident(toks[i].data));
        } else {
            assert(is_period(toks[i].data));
        }
    }
    lemma_simple_path_prefix(toks, terms, global, n, e);
    lemma_simple_path_no_diags(toks, terms, global, n, e);
}

proof fn lemma_simple_path_prefix(toks: Seq<Token>, terms: Seq<char>, global: bool, n: int, j: int)
    requires
        is_simple_path(toks, terms, global, n),
        0 <= j <= anchor(global) + 2 * n - 1,
    ensures
        idents(toks.subrange(0, j)) == simple_path_ids(toks, global, if j <= anchor(global) {
            0
        } else {
            (j - anchor(global) + 1) / 2
        }),
    decreases j,
{
    let g = anchor(global);
    let f = |k: int| ident_text(toks[g + 2 * k].data);
    if j == 0 {
        assert(toks.subrange(0, 0).len() == 0);
        assert(simple_path_ids(toks, global, 0) =~= Seq::<Seq<char>>::empty());
    } else {
        lemma_simple_path_prefix(toks, terms, global, n, j - 1);
        lemma_idents_step(toks, j - 1);
        let i = j - 1;
        if i < g {
            assert(is_period(toks[0].data));
        } else {
            let k = (i - g) / 2;
            if (i - g) % 2 == 0 {
                assert(is_ident(toks[i].data));
                assert(i == g + 2 * k);
                assert(simple_path_ids(toks, global, k).push(f(k)) =~= simple_path_ids(
                    toks,
                    global,
                    k + 1,
                ));
            } else {
                assert(is_period(toks[i].data));
            }
        }
    }
}

proof fn lemma_simple_path_no_diags(
    toks: Seq<Token>,
    terms: Seq<char>,
    global: bool,
    n: int,
    j: int,
)
    requires
        is_simple_path(toks, terms, global, n),
        1 <= j <= anchor(global) + 2 * n - 1,
    ensures
        adjacency_diags(toks, j) == Seq::<(u32, Location)>::empty(),
    decreases j,
{
    let g = anchor(global);
    if j > 1 {
        lemma_simple_path_no_diags(toks, terms, global, n, j - 1);
        let i = j - 1;
        // of tokens i - 1 and i, one is a period and the other an identifier
        if (i - g) % 2 == 0 {
            assert(is_ident(toks[i].data));
            if i - 1 >= g {
                assert(is_period(toks[i - 1].data));
            } else {
                assert(is_period(toks[0].data));
            }
        } else {
            assert(is_period(toks[i].data));
            assert(is_ident(toks[i - 1].data));
        }
        assert(adjacency_diags(toks, j) =~= Seq::<(u32, Location)>::empty());
    }
}

/// A token at which an import path stops: `;`, and also `,` and `}` inside a
/// group.
pub open spec fn is_import_term(t: TokenData, nested: bool) -> bool {
    is_special(t, ';') || (nested && (is_special(t, ',') || is_special(t, '}')))
}

/// The wildcard operator `*`.
pub open spec fn is_star(t: TokenData) -> bool {
    match t {
        TokenData::Operator(s) => s@ == "*"@,
        _ => false,
    }
}

/// A token that the scan of an import path consumes.
pub open spec fn continues_import(t: TokenData, nested: bool) -> bool {
    !is_import_term(t, nested) && (is_period(t) || is_ident(t) || is_star(t))
}

/// `e` is where the scan of an import path that begins at 0 stops.
pub open spec fn is_import_end(toks: Seq<Token>, nested: bool, e: int) -> bool {
    &&& 1 <= e <= toks.len()
    &&& forall|i: int| 1 <= i < e ==> continues_import(#[trigger] toks[i].data, nested)
    &&& (e == toks.len() || !continues_import(toks[e].data, nested))
}

/// How token `i` of an import path changes the segments built so far, and
/// its diagnostic. An identifier right after a wildcard extends it; a `*`
/// right after a period is a bare wildcard, and right after a segment turns
/// it into a wildcard whose text is that segment's followed by `*`.
pub open spec fn import_step(segs: Seq<SegmentView>, toks: Seq<Token>, i: int) -> (
    Seq<SegmentView>,
    Seq<(u32, Location)>,
) {
    let after_period = is_period(toks[i - 1].data);
    let loc = toks[i].loc;
    match toks[i].data {
        TokenData::Identifier(s) => if after_period {
            (segs.push(SegmentView::Identifier(s@)), seq![])
        } else if segs.len() > 0 && segs.last() is Glob {
            (segs.drop_last().push(SegmentView::Glob(segs.last()->Glob_0 + s@)), seq![])
        } else {
            (segs.push(SegmentView::Identifier(s@)), seq![(212u32, loc)])
        },
        TokenData::Operator(_) => if after_period || segs.len() == 0 {
            (segs.push(SegmentView::Glob(seq![])), seq![])
        } else {
            match segs.last() {
                SegmentView::Identifier(x) => (
                    segs.drop_last().push(SegmentView::Glob(x + "*"@)),
                    seq![],
                ),
                SegmentView::Glob(x) => (segs.drop_last().push(SegmentView::Glob(x + "*"@)), seq![]),
                SegmentView::Group(_) => (segs, seq![(212u32, loc)]),
            }
        },
        _ => if after_period {
            (segs, seq![(211u32, loc)])
        } else {
            (segs, seq![])
        },
    }
}

/// The segments and diagnostics of an import path after its first `k`
/// tokens.
pub open spec fn import_state(toks: Seq<Token>, k: int) -> (Seq<SegmentView>, Seq<(u32, Location)>)
    decreases k,
{
    if k <= 1 {
        match toks[0].data {
            TokenData::Identifier(s) => (seq![SegmentView::Identifier(s@)], seq![]),
            _ => (seq![], seq![]),
        }
    } else {
        let (segs, ds) = import_state(toks, k - 1);
        let (s2, d2) = import_step(segs, toks, k - 1);
        (s2, ds + d2)
    }
}

/// Parses an import path such as `a.b.*` or `.a.b*` at the start of `toks`,
/// stopping at `;`, and also at `,` and `}` when `is_nested`. Returns the
/// path, the number of tokens consumed counting the lookahead at which it
/// stopped, and the diagnostics.
pub fn parse_paths(toks: &[Token], is_nested: bool) -> (res: (CompoundDottedName, usize, Vec<Error>))
    requires
        0 < toks@.len() < usize::MAX,
    ensures
        !starts_name(toks@[0].data) ==> {
            &&& res.0@.ids == seq![SegmentView::Identifier(seq![])]
            &&& !res.0.global
            &&& res.1 == 2
            &&& diags_of(res.2@) == seq![(210u32, toks@[0].loc)]
        },
        starts_name(toks@[0].data) ==> {
            let e = res.1 - 1;
            &&& is_import_end(toks@, is_nested, e)
            &&& res.0@.ids == import_state(toks@, e).0
            &&& res.0.global == is_period(toks@[0].data)
            &&& diags_of(res.2@) == import_state(toks@, e).1 + (if e < toks@.len()
                && !is_import_term(toks@[e].data, is_nested) {
                seq![(210u32, toks@[e].loc)]
            } else {
                seq![]
            })
        },
{
    let mut errs: Vec<Error> = Vec::new();
    let mut ids: Vec<CompoundDottedNameSegment> = Vec::new();
    let global = match &toks[0].data {
        TokenData::Special(c) if *c == '.' => true,
        TokenData::Identifier(s) => {
            ids.push(CompoundDottedNameSegment::Identifier(s.clone()));
            false
        },
        _ => {
            errs.push(Error::new(toks[0].loc, 210, "unexpected token in identifier"));
            let r = CompoundDottedName::local(CompoundDottedNameSegment::Identifier(String::new()));
            proof {
                assert(r@.ids =~= seq![SegmentView::Identifier(seq![])]);
                assert(diags_of(errs@) =~= seq![(210u32, toks@[0].loc)]);
            }
            return (r, 2, errs);
        },
    };
    proof {
        assert(segments_view(ids@) =~= import_state(toks@, 1).0);
        assert(diags_of(errs@) =~= import_state(toks@, 1).1);
    }
    let mut lwp = global;
    let mut idx: usize = 1;
    while idx < toks.len()
        invariant
            1 <= idx <= toks@.len(),
            starts_name(toks@[0].data),
            global == is_period(toks@[0].data),
            forall|i: int| 1 <= i < idx ==> continues_import(#[trigger] toks@[i].data, is_nested),
            lwp == is_period(toks@[idx - 1].data),
            segments_view(ids@) == import_state(toks@, idx as int).0,
            diags_of(errs@) == import_state(toks@, idx as int).1,
        ensures
            idx == toks@.len() || !continues_import(toks@[idx as int].data, is_nested),
        decreases toks@.len() - idx,
    {
        let tok = &toks[idx];
        let ghost segs0 = segments_view(ids@);
        let ghost before = errs@;
        match &tok.data {
            TokenData::Special(c) => {
                if *c == ';' || (is_nested && (*c == ',' || *c == '}')) || *c != '.' {
                    break;
                }
                if lwp {
                    errs.push(period_error(tok.loc));
                }
                lwp = true;
            },
            TokenData::Identifier(s) => {
                if !lwp && ids.len() > 0 && matches!(ids[ids.len() - 1], CompoundDottedNameSegment::Glob(_)) {
                    let last = ids.pop().unwrap();
                    if let CompoundDottedNameSegment::Glob(x) = last {
                        ids.push(CompoundDottedNameSegment::Glob(x.concat(s.as_str())));
                    }
                } else {
                    if !lwp {
                        errs.push(ident_error(tok.loc));
                    }
                    ids.push(CompoundDottedNameSegment::Identifier(s.clone()));
                }
                lwp = false;
            },
            TokenData::Operator(op) => {
                if !same_text(op.as_str(), "*") {
                    break;
                }
                if lwp || ids.len() == 0 {
                    ids.push(CompoundDottedNameSegment::Glob(String::new()));
                } else {
                    let last = ids.pop().unwrap();
                    match last {
                        CompoundDottedNameSegment::Identifier(x) => {
                            ids.push(CompoundDottedNameSegment::Glob(x.concat("*")));
                        },
                        CompoundDottedNameSegment::Glob(x) => {
                            ids.push(CompoundDottedNameSegment::Glob(x.concat("*")));
                        },
                        CompoundDottedNameSegment::Group(g) => {
                            ids.push(CompoundDottedNameSegment::Group(g));
                            errs.push(ident_error(tok.loc));
                        },
                    }
                }
                lwp = false;
            },
            _ => {
                break;
            },
        }
        proof {
            let st = import_step(segs0, toks@, idx as int);
            assert(segs0.len() > 0 ==> segs0.drop_last() =~= segments_view(ids@).subrange(0, segs0.len() - 1));
            assert(segments_view(ids@) =~= st.0);
            assert(diags_of(errs@) =~= diags_of(before) + st.1);
        }
        idx += 1;
    }
    let ghost before = errs@;
    if idx < toks.len() && !is_import_terminator(&toks[idx].data, is_nested) {
        errs.push(Error::new(toks[idx].loc, 210, "unexpected token in identifier"));
    }
    proof {
        assert(diags_of(errs@) =~= diags_of(before) + (if idx < toks@.len()
            && !is_import_term(toks@[idx as int].data, is_nested) {
            seq![(210u32, toks@[idx as int].loc)]
        } else {
            seq![]
        }));
    }
    (CompoundDottedName::new(ids, global), idx + 1, errs)
}

fn is_import_terminator(t: &TokenData, nested: bool) -> (r: bool)
    ensures
        r == is_import_term(*t, nested),
{
    match t {
        TokenData::Special(c) => *c == ';' || (nested && (*c == ',' || *c == '}')),
        _ => false,
    }
}

} // verus!
