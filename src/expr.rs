//! The scan over an embedded expression (an array size): its grammar lies
//! outside this library, so the scan only skips bracketed groups and finds
//! where the expression ends.

use vstd::prelude::*;
use crate::token::{Location, Token, TokenData, Error, diags_of};
use crate::parser::{is_special, has_char};

verus! {

/// A node standing for an expression whose grammar lies outside this
/// library; it records where the expression starts.
#[derive(Clone, Copy, Debug, PartialEq, Eq, Structural)]
pub struct NullAST {
    pub loc: Location,
}

impl NullAST {
    pub fn new(loc: Location) -> (r: NullAST)
        ensures
            r.loc == loc,
    {
        NullAST { loc }
    }
}

/// Where the scan of an expression stands: at the top level, inside a
/// bracketed group (its opening and closing characters, the code to report
/// if it is never closed, how deep it is nested and where it was opened),
/// or stopped at a token.
pub enum ExprScan {
    Top,
    Inside(char, char, u32, nat, int),
    Stopped(int),
}

/// The closing character and the unmatched-bracket code of an opening
/// character; `None` for any other character.
pub open spec fn opener(c: char) -> Option<(char, u32)> {
    if c == '(' {
        Some((')', 240u32))
    } else if c == '[' {
        Some((']', 242u32))
    } else if c == '{' {
        Some(('}', 244u32))
    } else {
        None
    }
}

/// The unmatched-bracket code of a closing character; `None` for any other
/// character.
pub open spec fn closer(c: char) -> Option<u32> {
    if c == ')' {
        Some(241u32)
    } else if c == ']' {
        Some(243u32)
    } else if c == '}' {
        Some(245u32)
    } else {
        None
    }
}

/// One token of the expression scan, at position `i`.
pub open spec fn expr_step(
    st: ExprScan,
    ds: Seq<(u32, Location)>,
    tok: Token,
    terms: Seq<char>,
    i: int,
) -> (ExprScan, Seq<(u32, Location)>) {
    match st {
        ExprScan::Stopped(_) => (st, ds),
        ExprScan::Top => match tok.data {
            TokenData::Special(c) => if terms.contains(c) {
                (ExprScan::Stopped(i), ds)
            } else {
                match (opener(c), closer(c)) {
                    (Some((close, code)), _) => (ExprScan::Inside(c, close, code, 1, i), ds),
                    (None, Some(code)) => (ExprScan::Stopped(i), ds.push((code, tok.loc))),
                    (None, None) => (st, ds),
                }
            },
            _ => (st, ds),
        },
        ExprScan::Inside(o, c, code, depth, start) => if is_special(tok.data, o) {
            (ExprScan::Inside(o, c, code, depth + 1, start), ds)
        } else if is_special(tok.data, c) {
            if depth <= 1 {
                (ExprScan::Top, ds)
            } else {
                (ExprScan::Inside(o, c, code, (depth - 1) as nat, start), ds)
            }
        } else {
            (st, ds)
        },
    }
}

/// The state of the scan of an expression that begins at `start`, after the
/// tokens before `k`.
pub open spec fn expr_state(toks: Seq<Token>, terms: Seq<char>, start: int, k: int) -> (
    ExprScan,
    Seq<(u32, Location)>,
)
    decreases k - start,
{
    if k <= start {
        (ExprScan::Top, seq![])
    } else {
        let (st, ds) = expr_state(toks, terms, start, k - 1);
        expr_step(st, ds, toks[k - 1], terms, k - 1)
    }
}

/// Where the scan of an expression that begins at `start` stops, and its
/// diagnostics: an opened group that the input never closes is reported at
/// its opening bracket.
pub open spec fn expr_result(toks: Seq<Token>, terms: Seq<char>, start: int) -> (
    int,
    Seq<(u32, Location)>,
) {
    let (st, ds) = expr_state(toks, terms, start, toks.len() as int);
    match st {
        ExprScan::Stopped(i) => (i, ds),
        ExprScan::Top => (toks.len() as int, ds),
        ExprScan::Inside(_, _, code, _, s) => (toks.len() as int, ds.push((code, toks[s].loc))),
    }
}

proof fn lemma_expr_stopped(toks: Seq<Token>, terms: Seq<char>, start: int, k: int, i: int)
    requires
        start <= k <= toks.len(),
        expr_state(toks, terms, start, k).0 == ExprScan::Stopped(i),
    ensures
        expr_result(toks, terms, start) == (i, expr_state(toks, terms, start, k).1),
        start <= i < k,
    decreases toks.len() - k,
{
    lemma_expr_stopped_bound(toks, terms, start, k, i);
    if k < toks.len() {
        lemma_expr_stopped(toks, terms, start, k + 1, i);
    }
}

proof fn lemma_expr_stopped_bound(toks: Seq<Token>, terms: Seq<char>, start: int, k: int, i: int)
    requires
        start <= k <= toks.len(),
        expr_state(toks, terms, start, k).0 == ExprScan::Stopped(i),
    ensures
        start <= i < k,
    decreases k - start,
{
    if k > start {
        let prev = expr_state(toks, terms, start, k - 1).0;
        if prev is Stopped {
            lemma_expr_stopped_bound(toks, terms, start, k - 1, i);
        }
    }
}

/// The mode of the executable scan; it mirrors `ExprScan` without the
/// stopped case, which ends the loop.
enum Mode {
    Top,
    Inside { open: char, close: char, code: u32, depth: usize, start: usize },
}

spec fn mode_state(m: Mode) -> ExprScan {
    match m {
        Mode::Top => ExprScan::Top,
        Mode::Inside { open, close, code, depth, start } => ExprScan::Inside(
            open,
            close,
            code,
            depth as nat,
            start as int,
        ),
    }
}

/// Scans an expression that begins at `start`, skipping bracketed groups,
/// up to a terminator of `terms` or an unmatched closing bracket. Returns
/// where it stopped and the diagnostics.
pub(crate) fn scan_expr(toks: &[Token], start: usize, terms: &str) -> (res: (usize, Vec<Error>))
    requires
        start <= toks@.len(),
    ensures
        res.0 as int == expr_result(toks@, terms@, start as int).0,
        diags_of(res.1@) == expr_result(toks@, terms@, start as int).1,
        start <= res.0 <= toks@.len(),
{
    let mut errs: Vec<Error> = Vec::new();
    let mut mode = Mode::Top;
    let mut i: usize = start;
    while i < toks.len()
        invariant
            start <= i <= toks@.len(),
            expr_state(toks@, terms@, start as int, i as int) == (
                mode_state(mode),
                diags_of(errs@),
            ),
            mode matches Mode::Inside { depth, start: s, .. } ==> 1 <= depth <= i && start <= s
                < i,
        decreases toks@.len() - i,
    {
        let ghost before = errs@;
        let tok = &toks[i];
        match mode {
            Mode::Top => {
                if let TokenData::Special(c) = &tok.data {
                    let c = *c;
                    if has_char(terms, c) {
                        proof {
                            lemma_expr_stopped(toks@, terms@, start as int, i + 1, i as int);
                        }
                        return (i, errs);
                    } else if c == '(' {
                        mode = Mode::Inside { open: '(', close: ')', code: 240, depth: 1, start: i };
                    } else if c == '[' {
                        mode = Mode::Inside { open: '[', close: ']', code: 242, depth: 1, start: i };
                    } else if c == '{' {
                        mode = Mode::Inside { open: '{', close: '}', code: 244, depth: 1, start: i };
                    } else if c == ')' || c == ']' || c == '}' {
                        let code: u32 = if c == ')' {
                            241
                        } else if c == ']' {
                            243
                        } else {
                            245
                        };
                        let msg = if c == ')' {
                            "unmatched ')'"
                        } else if c == ']' {
                            "unmatched ']'"
                        } else {
                            "unmatched '}'"
                        };
                        errs.push(Error::new(tok.loc, code, msg));
                        proof {
                            assert(diags_of(errs@) =~= diags_of(before).push((code, tok.loc)));
                            lemma_expr_stopped(toks@, terms@, start as int, i + 1, i as int);
                        }
                        return (i, errs);
                    }
                }
            },
            Mode::Inside { open, close, code, depth, start: s } => {
                if let TokenData::Special(c) = &tok.data {
                    if *c == open {
                        mode = Mode::Inside { open, close, code, depth: depth + 1, start: s };
                    } else if *c == close {
                        if depth <= 1 {
                            mode = Mode::Top;
                        } else {
                            mode = Mode::Inside { open, close, code, depth: depth - 1, start: s };
                        }
                    }
                }
            },
        }
        i += 1;
    }
    if let Mode::Inside { code, start: s, .. } = mode {
        let msg = if code == 240 {
            "unmatched '('"
        } else if code == 242 {
            "unmatched '['"
        } else {
            "unmatched '{'"
        };
        errs.push(Error::new(toks[s].loc, code, msg));
        proof {
            assert(diags_of(errs@) =~= expr_result(toks@, terms@, start as int).1);
        }
    }
    (toks.len(), errs)
}

/// Skips the expression at the start of `toks` (its grammar lies outside
/// this library) up to a terminator of `terminators` or an unmatched closing
/// bracket. Returns a node for it, the number of tokens consumed counting the
/// lookahead at which it stopped, and the bracket diagnostics.
pub fn parse_expr(toks: &[Token], terminators: &str) -> (res: (NullAST, usize, Vec<Error>))
    requires
        0 < toks@.len() < usize::MAX,
    ensures
        res.0.loc == toks@[0].loc,
        res.1 == expr_result(toks@, terminators@, 0).0 + 1,
        diags_of(res.2@) == expr_result(toks@, terminators@, 0).1,
{
    let (i, errs) = scan_expr(toks, 0, terminators);
    (NullAST::new(toks[0].loc), i + 1, errs)
}

} // verus!
