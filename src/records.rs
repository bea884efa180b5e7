//! The record form of a module's contents, in which a compiled unit's
//! symbols are stored and from which they are rebuilt on load.

use vstd::prelude::*;
use crate::varmap::{
    Symbol, SymbolView, Variable, entries_view, entries_size, lemma_entries_view,
    lemma_entries_view_eq, lemma_remove_first,
};

verus! {

/// One record: a name with its variable (its type and values), or a name
/// with the number of entries of the module it names, whose records follow.
#[derive(Debug)]
pub enum SymbolRecord {
    Variable(String, Variable),
    Module(String, usize),
}

/// The mathematical value of a `SymbolRecord`.
pub enum RecordView {
    Variable(Seq<char>, Variable),
    Module(Seq<char>, nat),
}

pub open spec fn record_view(r: SymbolRecord) -> RecordView {
    match r {
        SymbolRecord::Variable(k, v) => RecordView::Variable(k@, v),
        SymbolRecord::Module(k, n) => RecordView::Module(k@, n as nat),
    }
}

pub open spec fn records_view(rs: Seq<SymbolRecord>) -> Seq<RecordView> {
    rs.map_values(|r: SymbolRecord| record_view(r))
}

/// The records of module entries: each entry in order, a module followed by
/// the records of its own entries.
pub open spec fn flatten_entries(es: Seq<(Seq<char>, SymbolView)>) -> Seq<RecordView>
    decreases es,
{
    if es.len() == 0 {
        seq![]
    } else {
        flatten_symbol(es[0].0, es[0].1) + flatten_entries(es.drop_first())
    }
}

/// The records of the entry `k: s`.
pub open spec fn flatten_symbol(k: Seq<char>, s: SymbolView) -> Seq<RecordView>
    decreases s,
{
    match s {
        SymbolView::Variable(v) => seq![RecordView::Variable(k, v)],
        SymbolView::Module(m) => seq![RecordView::Module(k, m.len())] + flatten_entries(m),
    }
}

/// Reads `n` entries from the front of `rs`: the entries and the records
/// left, or `None` when the records end too soon.
pub open spec fn read_entries(rs: Seq<RecordView>, n: nat) -> Option<
    (Seq<(Seq<char>, SymbolView)>, Seq<RecordView>),
>
    decreases rs.len(), n,
{
    if n == 0 {
        Some((seq![], rs))
    } else if rs.len() == 0 {
        None
    } else {
        match rs[0] {
            RecordView::Variable(k, v) => match read_entries(rs.drop_first(), (n - 1) as nat) {
                Some((es, rest)) => Some((seq![(k, SymbolView::Variable(v))] + es, rest)),
                None => None,
            },
            RecordView::Module(k, c) => match read_entries(rs.drop_first(), c) {
                Some((m, rest1)) => if rest1.len() < rs.len() {
                    match read_entries(rest1, (n - 1) as nat) {
                        Some((es, rest)) => Some((seq![(k, SymbolView::Module(m))] + es, rest)),
                        None => None,
                    }
                } else {
                    None
                },
                None => None,
            },
        }
    }
}

/// Reads entries until the records run out.
pub open spec fn read_all(rs: Seq<RecordView>) -> Option<Seq<(Seq<char>, SymbolView)>>
    decreases rs.len(),
{
    if rs.len() == 0 {
        Some(seq![])
    } else {
        match read_entries(rs, 1) {
            Some((e, rest)) => if rest.len() < rs.len() {
                match read_all(rest) {
                    Some(es) => Some(e + es),
                    None => None,
                }
            } else {
                None
            },
            None => None,
        }
    }
}

proof fn lemma_read_shrinks(rs: Seq<RecordView>, n: nat)
    ensures
        read_entries(rs, n) matches Some((_, rest)) ==> rest.len() <= rs.len() && (n > 0
            ==> rest.len() < rs.len()),
    decreases rs.len(), n,
{
    if n > 0 && rs.len() > 0 {
        match rs[0] {
            RecordView::Variable(_, _) => {
                lemma_read_shrinks(rs.drop_first(), (n - 1) as nat);
            },
            RecordView::Module(_, c) => {
                lemma_read_shrinks(rs.drop_first(), c);
                if let Some((_, rest1)) = read_entries(rs.drop_first(), c) {
                    if rest1.len() < rs.len() {
                        lemma_read_shrinks(rest1, (n - 1) as nat);
                    }
                }
            },
        }
    }
}

/// Reading back the records of module entries, followed by anything, gives
/// the entries and leaves what followed.
pub proof fn lemma_read_flatten(es: Seq<(Seq<char>, SymbolView)>, rest: Seq<RecordView>)
    ensures
        read_entries(flatten_entries(es) + rest, es.len()) == Some((es, rest)),
    decreases es,
{
    if es.len() > 0 {
        let k = es[0].0;
        let tail = es.drop_first();
        let x = flatten_entries(tail) + rest;
        let rs = flatten_entries(es) + rest;
        lemma_read_flatten(tail, rest);
        assert(seq![es[0]] + tail =~= es);
        assert(rs =~= flatten_symbol(k, es[0].1) + x);
        match es[0].1 {
            SymbolView::Variable(v) => {
                assert(rs =~= seq![RecordView::Variable(k, v)] + x);
                assert(rs.drop_first() =~= x);
            },
            SymbolView::Module(m) => {
                lemma_read_flatten(m, x);
                assert(rs =~= seq![RecordView::Module(k, m.len())] + (flatten_entries(m) + x));
                assert(rs.drop_first() =~= flatten_entries(m) + x);
            },
        }
    }
}

/// Rebuilding from the records of module entries gives those entries back.
pub proof fn lemma_round_trip(es: Seq<(Seq<char>, SymbolView)>)
    ensures
        read_all(flatten_entries(es)) == Some(es),
    decreases es.len(),
{
    if es.len() > 0 {
        let tail = es.drop_first();
        let y = flatten_entries(tail);
        let rs = flatten_entries(es);
        let first = seq![es[0]];
        assert(first.drop_first() =~= Seq::<(Seq<char>, SymbolView)>::empty());
        assert(first[0] == es[0]);
        assert(flatten_entries(first.drop_first()) == Seq::<RecordView>::empty());
        assert(flatten_entries(first) =~= flatten_symbol(es[0].0, es[0].1));
        lemma_read_flatten(first, y);
        assert(rs == flatten_entries(first) + y);
        lemma_read_shrinks(rs, 1);
        lemma_round_trip(tail);
        assert(first + tail =~= es);
    }
}

proof fn lemma_records_drop_first(rs: Seq<SymbolRecord>)
    requires
        rs.len() > 0,
    ensures
        records_view(rs.remove(0)) == records_view(rs).drop_first(),
        records_view(rs)[0] == record_view(rs[0]),
{
    assert(records_view(rs.remove(0)) =~= records_view(rs).drop_first());
}

/// The records of module entries, which it consumes: each entry in order, a
/// module followed by the records of its own entries.
pub fn flatten(es: Vec<(String, Symbol)>) -> (r: Vec<SymbolRecord>)
    ensures
        records_view(r@) == flatten_entries(entries_view(es@)),
    decreases entries_size(entries_view(es@)),
{
    let ghost init_size = entries_size(entries_view(es@));
    let ghost goal = flatten_entries(entries_view(es@));
    let mut rest = es;
    let mut out: Vec<SymbolRecord> = Vec::new();
    assert(records_view(out@) =~= seq![]);
    while rest.len() > 0
        invariant
            init_size == entries_size(entries_view(es@)),
            entries_size(entries_view(rest@)) <= init_size,
            goal == records_view(out@) + flatten_entries(entries_view(rest@)),
        decreases rest@.len(),
    {
        proof {
            lemma_remove_first(rest@);
        }
        let ghost rest0 = entries_view(rest@);
        let ghost out0 = records_view(out@);
        let (k, s) = rest.remove(0);
        match s {
            Symbol::Variable(v) => {
                out.push(SymbolRecord::Variable(k, v));
                assert(records_view(out@) =~= out0 + flatten_symbol(rest0[0].0, rest0[0].1));
            },
            Symbol::Module(m) => {
                proof {
                    lemma_entries_view(m@);
                }
                let n = m.len();
                out.push(SymbolRecord::Module(k, n));
                let mut sub = flatten(m);
                let ghost sv = records_view(sub@);
                out.append(&mut sub);
                assert(records_view(out@) =~= out0 + flatten_symbol(rest0[0].0, rest0[0].1));
            },
        }
        assert(goal =~= records_view(out@) + flatten_entries(entries_view(rest@)));
    }
    assert(goal =~= records_view(out@));
    out
}

/// Reads `n` entries from the front of `rs`, consuming their records.
fn read_entries_from(rs: &mut Vec<SymbolRecord>, n: usize) -> (r: Option<Vec<(String, Symbol)>>)
    ensures
        final(rs)@.len() <= old(rs)@.len(),
        match read_entries(records_view(old(rs)@), n as nat) {
            Some((es, rest)) => r is Some && entries_view(r->0@) == es && records_view(final(rs)@)
                == rest,
            None => r is None,
        },
    decreases old(rs)@.len(), n,
{
    let ghost rs0 = records_view(rs@);
    if n == 0 {
        let v: Vec<(String, Symbol)> = Vec::new();
        assert(entries_view(v@) =~= seq![]);
        return Some(v);
    }
    if rs.len() == 0 {
        return None;
    }
    proof {
        lemma_records_drop_first(rs@);
    }
    let rec = rs.remove(0);
    match rec {
        SymbolRecord::Variable(k, v) => match read_entries_from(rs, n - 1) {
            Some(mut es) => {
                let ghost es0 = es@;
                es.insert(0, (k, Symbol::Variable(v)));
                proof {
                    lemma_entries_view(es0);
                    lemma_entries_view_eq(
                        es@,
                        seq![(k@, SymbolView::Variable(v))] + entries_view(es0),
                    );
                }
                Some(es)
            },
            None => None,
        },
        SymbolRecord::Module(k, c) => match read_entries_from(rs, c) {
            Some(m) => {
                proof {
                    lemma_read_shrinks(rs0.drop_first(), c as nat);
                }
                match read_entries_from(rs, n - 1) {
                    Some(mut es) => {
                        let ghost es0 = es@;
                        let ghost mv = entries_view(m@);
                        es.insert(0, (k, Symbol::Module(m)));
                        proof {
                            lemma_entries_view(es0);
                            lemma_entries_view_eq(
                                es@,
                                seq![(k@, SymbolView::Module(mv))] + entries_view(es0),
                            );
                        }
                        Some(es)
                    },
                    None => None,
                }
            },
            None => None,
        },
    }
}

/// Rebuilds module entries from their records, consuming them; `None` when
/// the records end inside a module.
pub fn rebuild(records: Vec<SymbolRecord>) -> (r: Option<Vec<(String, Symbol)>>)
    ensures
        match read_all(records_view(records@)) {
            Some(es) => r is Some && entries_view(r->0@) == es,
            None => r is None,
        },
{
    let ghost goal = read_all(records_view(records@));
    let mut rs = records;
    let mut out: Vec<(String, Symbol)> = Vec::new();
    assert(entries_view(out@) =~= seq![]);
    while rs.len() > 0
        invariant
            goal == read_all(records_view(records@)),
            goal == match read_all(records_view(rs@)) {
                Some(x) => Some(entries_view(out@) + x),
                None => None::<Seq<(Seq<char>, SymbolView)>>,
            },
        decreases rs@.len(),
    {
        let ghost rs0 = records_view(rs@);
        let ghost out0 = entries_view(out@);
        proof {
            lemma_read_shrinks(rs0, 1);
        }
        match read_entries_from(&mut rs, 1) {
            Some(mut e) => {
                let ghost ev = entries_view(e@);
                let ghost ov = out@;
                let ghost e0 = e@;
                out.append(&mut e);
                proof {
                    assert(out@ =~= ov + e0);
                    lemma_entries_view(ov);
                    lemma_entries_view(e0);
                    lemma_entries_view(out@);
                    assert forall|i: int| 0 <= i < out@.len() implies #[trigger] (out0 + ev)[i] == (
                        out@[i].0@,
                        crate::varmap::symbol_view(out@[i].1),
                    ) by {
                        if i >= ov.len() {
                            assert(out@[i] == e0[i - ov.len()]);
                        } else {
                            assert(out@[i] == ov[i]);
                        }
                    }
                    lemma_entries_view_eq(out@, out0 + ev);
                    if let Some(x) = read_all(records_view(rs@)) {
                        assert(out0 + (ev + x) =~= (out0 + ev) + x);
                    }
                }
            },
            None => {
                assert(read_all(rs0) is None);
                return None;
            },
        }
    }
    proof {
        assert(entries_view(out@) + seq![] =~= entries_view(out@));
    }
    Some(out)
}

} // verus!
