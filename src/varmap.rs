//! The symbol table: modules of named symbols, scopes chained to their
//! enclosing scopes, and lookup, insertion and merge with their laws.

use vstd::prelude::*;
use crate::names::{DottedName, DottedNameView, texts};
use crate::parser::same_text;
use crate::types::ParsedType;
use crate::scope_laws::{lemma_insert_keeps_wf, lemma_merge_keeps_wf, lemma_insert_then_lookup};

verus! {

/// A value binding. The handles refer to values that the code generator and
/// the interpreter own; this library stores them without looking inside.
/// `good` is false for a placeholder bound after an error, so that its uses
/// raise no further diagnostics.
#[derive(Debug)]
pub struct Variable {
    pub comp_val: Option<u64>,
    pub inter_val: Option<u64>,
    pub data_type: ParsedType,
    pub good: bool,
}

impl Variable {
    /// A variable with a compiled value.
    pub fn compiled(comp_val: u64, data_type: ParsedType) -> (r: Variable)
        ensures
            r == (Variable { comp_val: Some(comp_val), inter_val: None, data_type, good: true }),
    {
        Variable { comp_val: Some(comp_val), inter_val: None, data_type, good: true }
    }

    /// A variable with a compiled value and a compile-time value.
    pub fn interpreted(comp_val: u64, inter_val: u64, data_type: ParsedType) -> (r: Variable)
        ensures
            r == (Variable {
                comp_val: Some(comp_val),
                inter_val: Some(inter_val),
                data_type,
                good: true,
            }),
    {
        Variable { comp_val: Some(comp_val), inter_val: Some(inter_val), data_type, good: true }
    }

    /// A variable with only a compile-time value.
    pub fn metaval(inter_val: u64, data_type: ParsedType) -> (r: Variable)
        ensures
            r == (Variable { comp_val: None, inter_val: Some(inter_val), data_type, good: true }),
    {
        Variable { comp_val: None, inter_val: Some(inter_val), data_type, good: true }
    }
}

/// A binding in a namespace: a variable, or a module holding named symbols.
/// A module's names are its entries' names, each at most once (the
/// invariant `entries_wf`, which `mod_insert` and `mod_merge` keep).
///
/// A module is a list of entries rather than a hash map: a `String`-keyed
/// map and a recursive symbol type leave little that can be proved, while
/// a list lets each operation state exactly what it does, in an order that
/// does not depend on hashing.
#[derive(Debug)]
pub enum Symbol {
    Variable(Variable),
    Module(Vec<(String, Symbol)>),
}

/// The mathematical value of a `Symbol`: a module is its list of entries.
pub enum SymbolView {
    Variable(Variable),
    Module(Seq<(Seq<char>, SymbolView)>),
}

pub open spec fn symbol_view(s: Symbol) -> SymbolView
    decreases s,
{
    match s {
        Symbol::Variable(v) => SymbolView::Variable(v),
        Symbol::Module(es) => SymbolView::Module(entries_view(es@)),
    }
}

/// The value of each entry of a module.
pub open spec fn entries_view(es: Seq<(String, Symbol)>) -> Seq<(Seq<char>, SymbolView)>
    decreases es,
{
    if es.len() == 0 {
        seq![]
    } else {
        entries_view(es.drop_last()).push((es.last().0@, symbol_view(es.last().1)))
    }
}

impl View for Symbol {
    type V = SymbolView;

    open spec fn view(&self) -> SymbolView {
        symbol_view(*self)
    }
}

pub proof fn lemma_entries_view(es: Seq<(String, Symbol)>)
    ensures
        entries_view(es).len() == es.len(),
        forall|i: int|
            0 <= i < es.len() ==> #[trigger] entries_view(es)[i] == (es[i].0@, symbol_view(es[i].1)),
    decreases es.len(),
{
    if es.len() > 0 {
        lemma_entries_view(es.drop_last());
    }
}

/// The entry list of `es` viewed, from its parts.
pub(crate) proof fn lemma_entries_view_eq(es: Seq<(String, Symbol)>, v: Seq<(Seq<char>, SymbolView)>)
    requires
        v.len() == es.len(),
        forall|i: int| 0 <= i < es.len() ==> #[trigger] v[i] == (es[i].0@, symbol_view(es[i].1)),
    ensures
        entries_view(es) == v,
{
    lemma_entries_view(es);
    assert(entries_view(es) =~= v);
}

/// Where the first entry named `k` stands, or -1.
pub open spec fn index_of(es: Seq<(Seq<char>, SymbolView)>, k: Seq<char>) -> int
    decreases es.len(),
{
    if es.len() == 0 {
        -1
    } else if es[0].0 == k {
        0
    } else {
        let r = index_of(es.drop_first(), k);
        if r < 0 {
            -1
        } else {
            r + 1
        }
    }
}

pub proof fn lemma_index_of(es: Seq<(Seq<char>, SymbolView)>, k: Seq<char>)
    ensures
        -1 <= index_of(es, k) < es.len(),
        index_of(es, k) >= 0 ==> es[index_of(es, k)].0 == k,
        forall|j: int| 0 <= j < es.len() && (index_of(es, k) < 0 || j < index_of(es, k)) ==> #[trigger] es[j].0 != k,
    decreases es.len(),
{
    if es.len() > 0 {
        lemma_index_of(es.drop_first(), k);
        assert forall|j: int| 0 <= j < es.len() && (index_of(es, k) < 0 || j < index_of(es, k)) implies #[trigger] es[j].0 != k by {
            if j > 0 {
                assert(es[j] == es.drop_first()[j - 1]);
            }
        }
    }
}

/// The position of the entry named `k`.
fn find_key(es: &Vec<(String, Symbol)>, k: &str) -> (r: Option<usize>)
    ensures
        match r {
            Some(i) => index_of(entries_view(es@), k@) == i,
            None => index_of(entries_view(es@), k@) == -1,
        },
{
    proof {
        lemma_entries_view(es@);
        lemma_index_of(entries_view(es@), k@);
    }
    let mut i: usize = 0;
    while i < es.len()
        invariant
            i <= es@.len(),
            entries_view(es@).len() == es@.len(),
            forall|j: int| 0 <= j < i ==> #[trigger] es@[j].0@ != k@,
        decreases es@.len() - i,
    {
        if same_text(es[i].0.as_str(), k) {
            proof {
                lemma_entries_view(es@);
                lemma_index_of(entries_view(es@), k@);
                let v = entries_view(es@);
                let x = index_of(v, k@);
                assert(v[i as int].0 == k@);
                if x < 0 || x > i {
                    assert(v[i as int].0 != k@);
                }
                if 0 <= x < i {
                    assert(v[x].0 == es@[x].0@);
                }
            }
            return Some(i);
        }
        i += 1;
    }
    proof {
        lemma_entries_view(es@);
        lemma_index_of(entries_view(es@), k@);
        let v = entries_view(es@);
        let x = index_of(v, k@);
        if x >= 0 {
            assert(v[x].0 == es@[x].0@);
        }
    }
    None
}

/// Why a name could not be resolved: the segment at the index names a
/// variable where a module is needed, or names nothing.
#[derive(Clone, Copy, Debug, PartialEq, Eq, Structural)]
pub enum UndefVariable {
    NotAModule(usize),
    DoesNotExist(usize),
}

/// Resolves segments `idx ..` of `ids` in the module entries `es`.
pub open spec fn lookup_in(es: Seq<(Seq<char>, SymbolView)>, ids: Seq<Seq<char>>, idx: int) -> Result<
    SymbolView,
    UndefVariable,
>
    decreases ids.len() - idx,
{
    let i = index_of(es, ids[idx]);
    if idx + 1 >= ids.len() || idx < 0 {
        if i < 0 {
            Err(UndefVariable::DoesNotExist(idx as usize))
        } else {
            Ok(es[i].1)
        }
    } else if i < 0 {
        Err(UndefVariable::DoesNotExist(idx as usize))
    } else {
        match es[i].1 {
            SymbolView::Variable(_) => Err(UndefVariable::NotAModule(idx as usize)),
            SymbolView::Module(m) => lookup_in(m, ids, idx + 1),
        }
    }
}

/// The value of a lookup's result.
pub open spec fn found_view(r: Result<&Symbol, UndefVariable>) -> Result<SymbolView, UndefVariable> {
    match r {
        Ok(s) => Ok(s@),
        Err(e) => Err(e),
    }
}

fn lookup_from<'a>(es: &'a Vec<(String, Symbol)>, ids: &Vec<String>, idx: usize) -> (r: Result<
    &'a Symbol,
    UndefVariable,
>)
    requires
        idx < ids@.len(),
    ensures
        found_view(r) == lookup_in(entries_view(es@), texts(ids@), idx as int),
    decreases ids@.len() - idx,
{
    proof {
        lemma_entries_view(es@);
    }
    let ghost tids = texts(ids@);
    assert(tids[idx as int] == ids@[idx as int]@);
    proof {
        lemma_index_of(entries_view(es@), tids[idx as int]);
    }
    match find_key(es, ids[idx].as_str()) {
        None => Err(UndefVariable::DoesNotExist(idx)),
        Some(i) => {
            let sym = &es[i].1;
            if idx >= ids.len() - 1 {
                Ok(sym)
            } else {
                match sym {
                    Symbol::Variable(_) => Err(UndefVariable::NotAModule(idx)),
                    Symbol::Module(m) => lookup_from(m, ids, idx + 1),
                }
            }
        },
    }
}

/// Resolves `name` in the module entries `this`, ignoring its anchor.
pub fn mod_lookup<'a>(this: &'a Vec<(String, Symbol)>, name: &DottedName) -> (r: Result<
    &'a Symbol,
    UndefVariable,
>)
    requires
        name.ids@.len() > 0,
    ensures
        found_view(r) == lookup_in(entries_view(this@), name@.ids, 0),
{
    lookup_from(this, &name.ids, 0)
}

/// A conflict of a merge: the qualified name at which the incoming symbol
/// could not be merged, with that symbol.
pub open spec fn conflicts_view(cs: Seq<(DottedName, Symbol)>) -> Seq<(DottedNameView, SymbolView)> {
    cs.map_values(|c: (DottedName, Symbol)| (c.0@, symbol_view(c.1)))
}

/// The conflicts of a nested merge, seen from the module named `k` that
/// holds it: `k` is put in front of each name.
pub open spec fn prefix_all(k: Seq<char>, cs: Seq<(DottedNameView, SymbolView)>) -> Seq<
    (DottedNameView, SymbolView),
> {
    cs.map_values(
        |c: (DottedNameView, SymbolView)|
            (DottedNameView { ids: seq![k] + c.0.ids, global: c.0.global }, c.1),
    )
}

/// The single-segment name `k`.
pub open spec fn local_name(k: Seq<char>) -> DottedNameView {
    DottedNameView { ids: seq![k], global: false }
}

/// Merges the entries `from` into the module entries `into`, one after the
/// other: the merged entries and the conflicts, in order.
pub open spec fn merge_in(
    into: Seq<(Seq<char>, SymbolView)>,
    from: Seq<(Seq<char>, SymbolView)>,
) -> (Seq<(Seq<char>, SymbolView)>, Seq<(DottedNameView, SymbolView)>)
    decreases from,
{
    if from.len() == 0 {
        (into, seq![])
    } else {
        let (into1, c1) = merge_entry(into, from[0].0, from[0].1);
        let (into2, c2) = merge_in(into1, from.drop_first());
        (into2, c1 + c2)
    }
}

/// Merges one entry `k: s` into the module entries `into`. A name that
/// `into` lacks is added; two modules of one name merge recursively, and
/// their conflicts are reported under `k`; anything else leaves `into` as it
/// was at `k` and is one conflict at `k`, holding `s`.
pub open spec fn merge_entry(into: Seq<(Seq<char>, SymbolView)>, k: Seq<char>, s: SymbolView) -> (
    Seq<(Seq<char>, SymbolView)>,
    Seq<(DottedNameView, SymbolView)>,
)
    decreases s,
{
    let i = index_of(into, k);
    if i < 0 {
        (into.push((k, s)), seq![])
    } else {
        match into[i].1 {
            SymbolView::Module(a) => match s {
                SymbolView::Module(b) => {
                    let (m, c) = merge_in(a, b);
                    (into.update(i, (k, SymbolView::Module(m))), prefix_all(k, c))
                },
                _ => (into, seq![(local_name(k), s)]),
            },
            _ => (into, seq![(local_name(k), s)]),
        }
    }
}

/// The number of entries in a module tree, nested ones included.
pub open spec fn entries_size(es: Seq<(Seq<char>, SymbolView)>) -> nat
    decreases es,
{
    if es.len() == 0 {
        0
    } else {
        entries_size(es.drop_first()) + 1 + symbol_size(es[0].1)
    }
}

pub open spec fn symbol_size(s: SymbolView) -> nat
    decreases s,
{
    match s {
        SymbolView::Variable(_) => 0,
        SymbolView::Module(m) => entries_size(m),
    }
}

/// The conflicts `cs` of a nested merge in the module named `k`, with `k`
/// put in front of each name.
fn prefixed(k: &String, cs: Vec<(DottedName, Symbol)>) -> (r: Vec<(DottedName, Symbol)>)
    ensures
        conflicts_view(r@) == prefix_all(k@, conflicts_view(cs@)),
{
    let ghost init = cs@;
    let mut cs = cs;
    let mut r: Vec<(DottedName, Symbol)> = Vec::new();
    while cs.len() > 0
        invariant
            r@.len() + cs@.len() == init.len(),
            cs@ == init.subrange(r@.len() as int, init.len() as int),
            conflicts_view(r@) == prefix_all(k@, conflicts_view(init.subrange(0, r@.len() as int))),
        decreases cs@.len(),
    {
        let ghost j = r@.len() as int;
        let (mut n, sym) = cs.remove(0);
        assert(init[j] == (n, sym));
        let ghost old_name = n@;
        n.ids.insert(0, k.clone());
        assert(n@.ids =~= seq![k@] + old_name.ids);
        r.push((n, sym));
        proof {
            let pv = prefix_all(k@, conflicts_view(init.subrange(0, j + 1)));
            let pv0 = prefix_all(k@, conflicts_view(init.subrange(0, j)));
            assert(pv.len() == j + 1);
            assert(pv[j] == (n@, symbol_view(sym)));
            assert forall|i: int| 0 <= i < j implies pv[i] == pv0[i] by {
                assert(init.subrange(0, j + 1)[i] == init.subrange(0, j)[i]);
            }
            assert(conflicts_view(r@) =~= pv0.push((n@, symbol_view(sym))));
            assert(pv =~= pv0.push((n@, symbol_view(sym))));
        }
    }
    assert(init.subrange(0, init.len() as int) =~= init);
    r
}

pub(crate) proof fn lemma_remove_first(es: Seq<(String, Symbol)>)
    requires
        es.len() > 0,
    ensures
        entries_view(es.remove(0)) == entries_view(es).drop_first(),
        entries_view(es)[0] == (es[0].0@, symbol_view(es[0].1)),
        entries_size(entries_view(es)) == entries_size(entries_view(es.remove(0))) + 1 + symbol_size(
            symbol_view(es[0].1),
        ),
{
    lemma_entries_view(es);
    lemma_entries_view(es.remove(0));
    lemma_entries_view_eq(es.remove(0), entries_view(es).drop_first());
}

proof fn lemma_replace(es: Seq<(String, Symbol)>, i: int, x: (String, Symbol))
    requires
        0 <= i < es.len(),
    ensures
        entries_view(es.remove(i).insert(i, x)) == entries_view(es).update(i, (x.0@, symbol_view(x.1))),
{
    lemma_entries_view(es);
    let t = es.remove(i).insert(i, x);
    assert(t =~= es.update(i, x));
    lemma_entries_view_eq(t, entries_view(es).update(i, (x.0@, symbol_view(x.1))));
}

proof fn lemma_push(es: Seq<(String, Symbol)>, x: (String, Symbol))
    ensures
        entries_view(es.push(x)) == entries_view(es).push((x.0@, symbol_view(x.1))),
{
    assert(es.push(x).drop_last() =~= es);
}

/// Merges the module entries `other` into `this`, in the order of `other`.
/// A name that `this` lacks is moved in; two modules of one name merge
/// recursively; anything else is a conflict, and `this` keeps its symbol
/// there. Returns the conflicts, each under its qualified name relative to
/// `this`, with the symbol that could not be merged.
pub fn mod_merge(this: &mut Vec<(String, Symbol)>, other: Vec<(String, Symbol)>) -> (r: Vec<
    (DottedName, Symbol),
>)
    ensures
        (entries_view(final(this)@), conflicts_view(r@)) == merge_in(
            entries_view(old(this)@),
            entries_view(other@),
        ),
        entries_wf(entries_view(old(this)@)) && entries_wf(entries_view(other@)) ==> entries_wf(
            entries_view(final(this)@),
        ),
    decreases entries_size(entries_view(other@)),
{
    proof {
        if entries_wf(entries_view(this@)) && entries_wf(entries_view(other@)) {
            lemma_merge_keeps_wf(entries_view(this@), entries_view(other@));
        }
    }
    let ghost init_size = entries_size(entries_view(other@));
    let ghost goal = merge_in(entries_view(this@), entries_view(other@));
    let mut rest = other;
    let mut out: Vec<(DottedName, Symbol)> = Vec::new();
    assert(conflicts_view(out@) =~= seq![]);
    while rest.len() > 0
        invariant
            init_size == entries_size(entries_view(other@)),
            entries_size(entries_view(rest@)) <= init_size,
            ({
                let m = merge_in(entries_view(this@), entries_view(rest@));
                goal == (m.0, conflicts_view(out@) + m.1)
            }),
        decreases rest@.len(),
    {
        let ghost this0 = this@;
        let ghost rest0 = rest@;
        let ghost out0 = conflicts_view(out@);
        proof {
            lemma_remove_first(rest@);
        }
        let (name, sym) = rest.remove(0);
        let ghost k = name@;
        let ghost sv = symbol_view(sym);
        let ghost step = merge_entry(entries_view(this0), k, sv);
        proof {
            lemma_entries_view(this0);
            lemma_index_of(entries_view(this0), k);
        }
        match find_key(this, name.as_str()) {
            None => {
                this.push((name, sym));
                proof {
                    lemma_push(this0, (name, sym));
                }
                assert(conflicts_view(out@) =~= out0 + step.1);
            },
            Some(i) => {
                let (key, existing) = this.remove(i);
                match existing {
                    Symbol::Module(mut a) => {
                        match sym {
                            Symbol::Module(b) => {
                                let ghost bv = entries_view(b@);
                                assert(sv == SymbolView::Module(bv));
                                assert(entries_size(bv) < init_size);
                                let cs = mod_merge(&mut a, b);
                                let mut pre = prefixed(&name, cs);
                                this.insert(i, (key, Symbol::Module(a)));
                                proof {
                                    lemma_replace(this0, i as int, (key, Symbol::Module(a)));
                                }
                                let ghost pv = conflicts_view(pre@);
                                out.append(&mut pre);
                                assert(conflicts_view(out@) =~= out0 + pv);
                            },
                            sym => {
                                this.insert(i, (key, Symbol::Module(a)));
                                assert(this@ =~= this0);
                                out.push((DottedName::local(name), sym));
                                assert(conflicts_view(out@) =~= out0 + step.1);
                            },
                        }
                    },
                    existing => {
                        this.insert(i, (key, existing));
                        assert(this@ =~= this0);
                        out.push((DottedName::local(name), sym));
                        assert(conflicts_view(out@) =~= out0 + step.1);
                    },
                }
            },
        }
        assert(conflicts_view(out@) + merge_in(entries_view(this@), entries_view(rest@)).1
            =~= out0 + (step.1 + merge_in(step.0, entries_view(rest0).drop_first()).1));
    }
    assert(conflicts_view(out@) + seq![] =~= conflicts_view(out@));
    out
}

/// The symbol of the first entry named `k`, if any.
pub open spec fn lookup_key(es: Seq<(Seq<char>, SymbolView)>, k: Seq<char>) -> Option<SymbolView> {
    let i = index_of(es, k);
    if i < 0 {
        None
    } else {
        Some(es[i].1)
    }
}

/// The conflicts that merging the entries `from` into `into` meets, each
/// entry of `from` taken against `into` as it stands: a name that `into`
/// holds, where the two symbols are not both modules, is a conflict; two
/// modules contribute the conflicts of their own entries under that name.
/// For entries `from` with distinct names these are exactly the conflicts
/// that `merge_in` reports (see `lemma_merge_conflicts`).
pub open spec fn merge_conflicts(
    into: Seq<(Seq<char>, SymbolView)>,
    from: Seq<(Seq<char>, SymbolView)>,
) -> Seq<(DottedNameView, SymbolView)>
    decreases from,
{
    if from.len() == 0 {
        seq![]
    } else {
        entry_conflicts(into, from[0].0, from[0].1) + merge_conflicts(into, from.drop_first())
    }
}

/// The conflicts that the entry `k: s` meets in `into`.
pub open spec fn entry_conflicts(into: Seq<(Seq<char>, SymbolView)>, k: Seq<char>, s: SymbolView) -> Seq<
    (DottedNameView, SymbolView),
>
    decreases s,
{
    match lookup_key(into, k) {
        None => seq![],
        Some(SymbolView::Module(a)) => match s {
            SymbolView::Module(b) => prefix_all(k, merge_conflicts(a, b)),
            _ => seq![(local_name(k), s)],
        },
        Some(_) => seq![(local_name(k), s)],
    }
}

proof fn lemma_size_from(es: Seq<(Seq<char>, SymbolView)>, j: int)
    requires
        0 <= j < es.len(),
    ensures
        symbol_size(es[j].1) < entries_size(es),
    decreases j,
{
    if j > 0 {
        lemma_size_from(es.drop_first(), j - 1);
    }
}

/// Whether merging the entries `b` into `a` would meet any conflict; `a`
/// and `b` are only read.
fn has_conflict(a: &Vec<(String, Symbol)>, b: &Vec<(String, Symbol)>) -> (r: bool)
    ensures
        r == (merge_conflicts(entries_view(a@), entries_view(b@)).len() > 0),
    decreases entries_size(entries_view(b@)),
{
    let ghost av = entries_view(a@);
    let ghost bv = entries_view(b@);
    proof {
        lemma_entries_view(b@);
        lemma_entries_view(a@);
    }
    let mut j: usize = 0;
    assert(bv.subrange(0, bv.len() as int) =~= bv);
    while j < b.len()
        invariant
            av == entries_view(a@),
            bv == entries_view(b@),
            bv.len() == b@.len(),
            forall|i: int| 0 <= i < b@.len() ==> #[trigger] bv[i] == (b@[i].0@, symbol_view(b@[i].1)),
            j <= b@.len(),
            (merge_conflicts(av, bv).len() > 0) == (merge_conflicts(
                av,
                bv.subrange(j as int, bv.len() as int),
            ).len() > 0),
        decreases b@.len() - j,
    {
        let ghost rest = bv.subrange(j as int, bv.len() as int);
        assert(rest.drop_first() =~= bv.subrange(j + 1, bv.len() as int));
        assert(rest[0] == bv[j as int]);
        let (k, s) = (&b[j].0, &b[j].1);
        let ghost kv = k@;
        proof {
            lemma_index_of(av, kv);
            lemma_entries_view(a@);
        }
        let ghost tail = merge_conflicts(av, rest.drop_first());
        assert(merge_conflicts(av, rest) == entry_conflicts(av, kv, bv[j as int].1) + tail);
        match find_key(a, k.as_str()) {
            None => {
                assert(entry_conflicts(av, kv, bv[j as int].1) =~= seq![]);
            },
            Some(i) => {
                assert(lookup_key(av, kv) == Some(av[i as int].1));
                match (&a[i].1, s) {
                    (Symbol::Module(x), Symbol::Module(y)) => {
                        proof {
                            lemma_size_from(bv, j as int);
                        }
                        assert(av[i as int].1 == SymbolView::Module(entries_view(x@)));
                        assert(bv[j as int].1 == SymbolView::Module(entries_view(y@)));
                        if has_conflict(x, y) {
                            return true;
                        }
                        assert(entry_conflicts(av, kv, bv[j as int].1).len() == 0);
                    },
                    _ => {
                        assert(entry_conflicts(av, kv, bv[j as int].1).len() == 1);
                        return true;
                    },
                }
            },
        }
        j += 1;
    }
    assert(bv.subrange(j as int, bv.len() as int).len() == 0);
    false
}

/// The conflicts that merging the entries `b` into `a` would meet, taking
/// the symbols of `b` that are in conflict; `a` is only read.
fn collect_conflicts(a: &Vec<(String, Symbol)>, b: Vec<(String, Symbol)>) -> (r: Vec<
    (DottedName, Symbol),
>)
    ensures
        conflicts_view(r@) == merge_conflicts(entries_view(a@), entries_view(b@)),
    decreases entries_size(entries_view(b@)),
{
    let ghost av = entries_view(a@);
    let ghost init_size = entries_size(entries_view(b@));
    let ghost goal = merge_conflicts(av, entries_view(b@));
    let mut rest = b;
    let mut out: Vec<(DottedName, Symbol)> = Vec::new();
    assert(conflicts_view(out@) =~= seq![]);
    while rest.len() > 0
        invariant
            av == entries_view(a@),
            init_size == entries_size(entries_view(b@)),
            entries_size(entries_view(rest@)) <= init_size,
            goal == conflicts_view(out@) + merge_conflicts(av, entries_view(rest@)),
        decreases rest@.len(),
    {
        proof {
            lemma_remove_first(rest@);
        }
        let ghost rest0 = entries_view(rest@);
        let ghost out0 = conflicts_view(out@);
        let (name, sym) = rest.remove(0);
        let ghost step = entry_conflicts(av, name@, symbol_view(sym));
        proof {
            lemma_index_of(av, name@);
            lemma_entries_view(a@);
        }
        match find_key(a, name.as_str()) {
            None => {
                assert(conflicts_view(out@) =~= out0 + step);
            },
            Some(i) => {
                match &a[i].1 {
                    Symbol::Module(x) => {
                        match sym {
                            Symbol::Module(y) => {
                                let cs = collect_conflicts(x, y);
                                let mut pre = prefixed(&name, cs);
                                let ghost pv = conflicts_view(pre@);
                                out.append(&mut pre);
                                assert(conflicts_view(out@) =~= out0 + pv);
                            },
                            sym => {
                                out.push((DottedName::local(name), sym));
                                assert(conflicts_view(out@) =~= out0 + step);
                            },
                        }
                    },
                    _ => {
                        out.push((DottedName::local(name), sym));
                        assert(conflicts_view(out@) =~= out0 + step);
                    },
                }
            },
        }
        assert(goal =~= conflicts_view(out@) + merge_conflicts(av, entries_view(rest@)));
    }
    assert(goal =~= conflicts_view(out@));
    out
}

/// Why a symbol could not be bound: the segment at the index names a
/// variable where a module is needed; it is already bound and cannot be
/// merged; or both are modules and merging them left conflicts. The symbol
/// that was to be bound comes back with the first two.
#[derive(Debug)]
pub enum RedefVariable {
    NotAModule(usize, Symbol),
    AlreadyExists(usize, Symbol),
    MergeConflict(usize, Vec<(DottedName, Symbol)>),
}

/// The mathematical value of a `RedefVariable`.
pub enum RedefView {
    NotAModule(usize, SymbolView),
    AlreadyExists(usize, SymbolView),
    MergeConflict(usize, Seq<(DottedNameView, SymbolView)>),
}

/// The value of an insertion's error.
pub open spec fn redef_view(e: RedefVariable) -> RedefView {
    match e {
        RedefVariable::NotAModule(i, s) => RedefView::NotAModule(i, s@),
        RedefVariable::AlreadyExists(i, s) => RedefView::AlreadyExists(i, s@),
        RedefVariable::MergeConflict(i, cs) => RedefView::MergeConflict(i, conflicts_view(cs@)),
    }
}

/// The value of an insertion's result, before the bound symbol is looked up.
pub open spec fn inserted_view(r: Result<(), RedefVariable>) -> Result<(), RedefView> {
    match r {
        Ok(()) => Ok(()),
        Err(e) => Err(redef_view(e)),
    }
}

/// An insertion returned `r` where the binding ended as `res`, leaving the
/// entries `es`: the error itself, or on success the symbol that `ids` now
/// names in `es`.
pub open spec fn bound_matches(
    r: Result<&Symbol, RedefVariable>,
    res: Result<(), RedefView>,
    es: Seq<(Seq<char>, SymbolView)>,
    ids: Seq<Seq<char>>,
) -> bool {
    match r {
        Ok(s) => res is Ok && lookup_in(es, ids, 0) == Ok::<SymbolView, UndefVariable>(s@),
        Err(e) => res == Err::<(), RedefView>(redef_view(e)),
    }
}

/// Binds `s` at segments `idx ..` of `ids` in the module entries `es`:
/// the entries after, and whether it succeeded. Missing modules on the way
/// are created, and stay created when a later step fails; nothing else
/// changes on failure. An existing module at the last segment absorbs a
/// module `s` by a merge when the merge meets no conflict; otherwise the
/// insertion fails with all the conflicts and the module stays as it was.
pub open spec fn insert_in(
    es: Seq<(Seq<char>, SymbolView)>,
    ids: Seq<Seq<char>>,
    idx: int,
    s: SymbolView,
) -> (Seq<(Seq<char>, SymbolView)>, Result<(), RedefView>)
    decreases ids.len() - idx,
{
    let k = ids[idx];
    let i = index_of(es, k);
    if 0 <= idx && idx + 1 < ids.len() {
        if i < 0 {
            let (m, r) = insert_in(seq![], ids, idx + 1, s);
            (es.push((k, SymbolView::Module(m))), r)
        } else {
            match es[i].1 {
                SymbolView::Module(m) => {
                    let (m2, r) = insert_in(m, ids, idx + 1, s);
                    (es.update(i, (k, SymbolView::Module(m2))), r)
                },
                _ => (es, Err(RedefView::NotAModule(idx as usize, s))),
            }
        }
    } else if i < 0 {
        (es.push((k, s)), Ok(()))
    } else {
        match (es[i].1, s) {
            (SymbolView::Module(m), SymbolView::Module(from)) => {
                let cs = merge_conflicts(m, from);
                if cs.len() == 0 {
                    (es.update(i, (k, SymbolView::Module(merge_in(m, from).0))), Ok(()))
                } else {
                    (es, Err(RedefView::MergeConflict(idx as usize, cs)))
                }
            },
            _ => (es, Err(RedefView::AlreadyExists(idx as usize, s))),
        }
    }
}

fn insert_at(es: &mut Vec<(String, Symbol)>, ids: &Vec<String>, idx: usize, sym: Symbol) -> (r: Result<
    (),
    RedefVariable,
>)
    requires
        idx < ids@.len(),
    ensures
        (entries_view(final(es)@), inserted_view(r)) == insert_in(
            entries_view(old(es)@),
            texts(ids@),
            idx as int,
            sym@,
        ),
    decreases ids@.len() - idx,
{
    let ghost es0 = es@;
    let ghost tids = texts(ids@);
    assert(tids[idx as int] == ids@[idx as int]@);
    proof {
        lemma_entries_view(es0);
        lemma_index_of(entries_view(es0), tids[idx as int]);
    }
    let k = &ids[idx];
    let last = idx >= ids.len() - 1;
    match find_key(es, k.as_str()) {
        None => {
            if !last {
                let mut m: Vec<(String, Symbol)> = Vec::new();
                assert(entries_view(m@) =~= seq![]);
                let r = insert_at(&mut m, ids, idx + 1, sym);
                es.push((k.clone(), Symbol::Module(m)));
                proof {
                    lemma_push(es0, es@.last());
                    assert(es@ =~= es0.push(es@.last()));
                }
                r
            } else {
                es.push((k.clone(), sym));
                proof {
                    lemma_push(es0, es@.last());
                    assert(es@ =~= es0.push(es@.last()));
                }
                Ok(())
            }
        },
        Some(i) => {
            let (key, existing) = es.remove(i);
            match existing {
                Symbol::Module(mut m) => {
                    if !last {
                        let r = insert_at(&mut m, ids, idx + 1, sym);
                        es.insert(i, (key, Symbol::Module(m)));
                        proof {
                            lemma_replace(es0, i as int, (key, Symbol::Module(m)));
                        }
                        r
                    } else {
                        match sym {
                            Symbol::Module(from) => {
                                if has_conflict(&m, &from) {
                                    let cs = collect_conflicts(&m, from);
                                    es.insert(i, (key, Symbol::Module(m)));
                                    assert(es@ =~= es0);
                                    Err(RedefVariable::MergeConflict(idx, cs))
                                } else {
                                    // no conflict was found beforehand: for a well-formed
                                    // module the merge reports none either
                                    // (lemma_merge_conflicts)
                                    let _ = mod_merge(&mut m, from);
                                    es.insert(i, (key, Symbol::Module(m)));
                                    proof {
                                        lemma_replace(es0, i as int, (key, Symbol::Module(m)));
                                    }
                                    Ok(())
                                }
                            },
                            sym => {
                                es.insert(i, (key, Symbol::Module(m)));
                                assert(es@ =~= es0);
                                Err(RedefVariable::AlreadyExists(idx, sym))
                            },
                        }
                    }
                },
                existing => {
                    es.insert(i, (key, existing));
                    assert(es@ =~= es0);
                    if !last {
                        Err(RedefVariable::NotAModule(idx, sym))
                    } else {
                        Err(RedefVariable::AlreadyExists(idx, sym))
                    }
                },
            }
        },
    }
}

/// Binds `sym` at `name` in the module entries `this`, ignoring its anchor,
/// and returns the symbol that the name then holds. Modules missing on the
/// way are created. A module bound where a module stands is merged into it
/// only when the merge meets no conflict; otherwise the insertion fails with
/// every conflict and that module is left as it was.
pub fn mod_insert<'a>(this: &'a mut Vec<(String, Symbol)>, name: &DottedName, sym: Symbol) -> (r:
    Result<&'a Symbol, RedefVariable>)
    requires
        name.ids@.len() > 0,
    ensures
        entries_view(final(this)@) == insert_in(entries_view(old(this)@), name@.ids, 0, sym@).0,
        bound_matches(
            r,
            insert_in(entries_view(old(this)@), name@.ids, 0, sym@).1,
            entries_view(final(this)@),
            name@.ids,
        ),
        entries_wf(entries_view(old(this)@)) && symbol_wf(sym@) ==> entries_wf(
            entries_view(final(this)@),
        ),
{
    proof {
        if entries_wf(entries_view(this@)) && symbol_wf(sym@) {
            lemma_insert_keeps_wf(entries_view(this@), name@.ids, 0, sym@);
        }
        if insert_in(entries_view(this@), name@.ids, 0, sym@).1 is Ok {
            lemma_insert_then_lookup(entries_view(this@), name@.ids, 0, sym@);
        }
    }
    match insert_at(this, &name.ids, 0, sym) {
        Ok(()) => Ok(mod_lookup(this, name).unwrap()),
        Err(e) => Err(e),
    }
}

impl Symbol {
    pub fn into_var(self) -> (r: Option<Variable>)
        ensures
            match self {
                Symbol::Variable(v) => r == Some(v),
                Symbol::Module(_) => r is None,
            },
    {
        match self {
            Symbol::Variable(v) => Some(v),
            Symbol::Module(_) => None,
        }
    }

    pub fn into_mod(self) -> (r: Option<Vec<(String, Symbol)>>)
        ensures
            match self {
                Symbol::Module(m) => r == Some(m),
                Symbol::Variable(_) => r is None,
            },
    {
        match self {
            Symbol::Module(m) => Some(m),
            Symbol::Variable(_) => None,
        }
    }

    pub fn as_var(&self) -> (r: Option<&Variable>)
        ensures
            match *self {
                Symbol::Variable(v) => r == Some(&v),
                Symbol::Module(_) => r is None,
            },
    {
        match self {
            Symbol::Variable(v) => Some(v),
            Symbol::Module(_) => None,
        }
    }

    pub fn as_mod(&self) -> (r: Option<&Vec<(String, Symbol)>>)
        ensures
            match *self {
                Symbol::Module(m) => r == Some(&m),
                Symbol::Variable(_) => r is None,
            },
    {
        match self {
            Symbol::Module(m) => Some(m),
            Symbol::Variable(_) => None,
        }
    }

    pub fn as_var_mut(&mut self) -> (r: Option<&mut Variable>)
        ensures
            r is Some <==> *old(self) is Variable,
            r is Some ==> *r->0 == old(self)->Variable_0 && *final(self) == Symbol::Variable(
                *final(r->0),
            ),
            r is None ==> *final(self) == *old(self),
    {
        match self {
            Symbol::Variable(v) => Some(v),
            Symbol::Module(_) => None,
        }
    }

    pub fn as_mod_mut(&mut self) -> (r: Option<&mut Vec<(String, Symbol)>>)
        ensures
            r is Some <==> *old(self) is Module,
            r is Some ==> *r->0 == old(self)->Module_0 && *final(self) == Symbol::Module(
                *final(r->0),
            ),
            r is None ==> *final(self) == *old(self),
    {
        match self {
            Symbol::Module(m) => Some(m),
            Symbol::Variable(_) => None,
        }
    }

    pub fn is_var(&self) -> (r: bool)
        ensures
            r == (*self is Variable),
    {
        match self {
            Symbol::Variable(_) => true,
            Symbol::Module(_) => false,
        }
    }

    pub fn is_mod(&self) -> (r: bool)
        ensures
            r == (*self is Module),
    {
        match self {
            Symbol::Module(_) => true,
            Symbol::Variable(_) => false,
        }
    }
}

/// A scope: its own symbols, and the enclosing scope it owns, if any.
#[derive(Debug)]
pub struct VarMap {
    pub parent: Option<Box<VarMap>>,
    pub symbols: Vec<(String, Symbol)>,
}

/// The symbols of the outermost scope of the chain that `vm` begins.
pub open spec fn root_entries(vm: VarMap) -> Seq<(Seq<char>, SymbolView)>
    decreases vm,
{
    match vm.parent {
        Some(p) => root_entries(*p),
        None => entries_view(vm.symbols@),
    }
}

/// `b` is `a` with the symbols of the outermost scope replaced, and every
/// other scope as it was.
pub open spec fn same_but_root(a: VarMap, b: VarMap) -> bool
    decreases a,
{
    match (a.parent, b.parent) {
        (Some(p), Some(q)) => a.symbols == b.symbols && same_but_root(*p, *q),
        (None, None) => true,
        _ => false,
    }
}

/// The outermost scope of the chain that `vm` begins.
pub open spec fn root_of(vm: VarMap) -> VarMap
    decreases vm,
{
    match vm.parent {
        Some(p) => root_of(*p),
        None => vm,
    }
}

/// `b` is the chain `a` with its outermost scope replaced by `root`.
pub open spec fn root_replaced(a: VarMap, b: VarMap, root: VarMap) -> bool
    decreases a,
{
    match a.parent {
        Some(p) => b.symbols == a.symbols && b.parent is Some && root_replaced(
            *p,
            *b.parent->0,
            root,
        ),
        None => b == root,
    }
}

/// Every scope of the chain that `vm` begins has well-formed symbols.
pub open spec fn scope_wf(vm: VarMap) -> bool
    decreases vm,
{
    &&& entries_wf(entries_view(vm.symbols@))
    &&& match vm.parent {
        Some(p) => scope_wf(*p),
        None => true,
    }
}

proof fn lemma_root_wf(vm: VarMap)
    requires
        scope_wf(vm),
    ensures
        entries_wf(root_entries(vm)),
    decreases vm,
{
    if let Some(p) = vm.parent {
        lemma_root_wf(*p);
    }
}

proof fn lemma_same_but_root_wf(a: VarMap, b: VarMap)
    requires
        same_but_root(a, b),
        scope_wf(a),
        entries_wf(root_entries(b)),
    ensures
        scope_wf(b),
    decreases a,
{
    if let (Some(p), Some(q)) = (a.parent, b.parent) {
        lemma_same_but_root_wf(*p, *q);
    }
}

/// Resolves `name` from scope `vm`. An anchored name is resolved in the
/// outermost scope alone. Otherwise the name is resolved in `vm`'s own
/// symbols, and where that finds nothing (`DoesNotExist`) and `vm` has an
/// enclosing scope, the whole resolution is retried from there; a
/// `NotAModule` is final.
pub open spec fn lookup_spec(vm: VarMap, name: DottedNameView) -> Result<SymbolView, UndefVariable>
    decreases vm,
{
    if name.global {
        lookup_in(root_entries(vm), name.ids, 0)
    } else {
        match lookup_in(entries_view(vm.symbols@), name.ids, 0) {
            Err(UndefVariable::DoesNotExist(x)) => match vm.parent {
                Some(p) => lookup_spec(*p, name),
                None => Err(UndefVariable::DoesNotExist(x)),
            },
            r => r,
        }
    }
}

impl VarMap {
    /// An empty scope inside `parent`.
    pub fn new(parent: Option<Box<VarMap>>) -> (r: VarMap)
        ensures
            r.parent == parent,
            r.symbols@.len() == 0,
            scope_wf(r) == match parent {
                Some(p) => scope_wf(*p),
                None => true,
            },
    {
        let r = VarMap { parent, symbols: Vec::new() };
        assert(entries_view(r.symbols@) =~= seq![]);
        r
    }

    /// The scope detached from its enclosing scope.
    pub fn orphan(self) -> (r: VarMap)
        ensures
            r.parent is None,
            r.symbols == self.symbols,
            scope_wf(self) ==> scope_wf(r),
    {
        VarMap { parent: None, symbols: self.symbols }
    }

    /// The scope attached to a new enclosing scope.
    pub fn reparent(self, parent: Box<VarMap>) -> (r: VarMap)
        ensures
            r.parent == Some(parent),
            r.symbols == self.symbols,
            scope_wf(r) == (entries_wf(entries_view(self.symbols@)) && scope_wf(*parent)),
    {
        VarMap { parent: Some(parent), symbols: self.symbols }
    }

    /// The outermost scope of the chain.
    pub fn root(&self) -> (r: &VarMap)
        ensures
            r.parent is None,
            entries_view(r.symbols@) == root_entries(*self),
        decreases self,
    {
        match &self.parent {
            Some(p) => p.root(),
            None => self,
        }
    }

    /// The outermost scope of the chain, to change in place.
    pub fn root_mut(&mut self) -> (r: &mut VarMap)
        ensures
            *r == root_of(*old(self)),
            root_replaced(*old(self), *final(self), *final(r)),
        decreases *old(self),
    {
        if self.parent.is_some() {
            let p = self.parent.as_mut().unwrap();
            (&mut **p).root_mut()
        } else {
            self
        }
    }

    /// Merges the module entries `other` into this scope's symbols (see
    /// `mod_merge`), returning the conflicts.
    pub fn merge(&mut self, other: Vec<(String, Symbol)>) -> (r: Vec<(DottedName, Symbol)>)
        ensures
            final(self).parent == old(self).parent,
            (entries_view(final(self).symbols@), conflicts_view(r@)) == merge_in(
                entries_view(old(self).symbols@),
                entries_view(other@),
            ),
            scope_wf(*old(self)) && entries_wf(entries_view(other@)) ==> scope_wf(*final(self)),
    {
        mod_merge(&mut self.symbols, other)
    }

    /// Resolves `name` from this scope.
    pub fn lookup(&self, name: &DottedName) -> (r: Result<&Symbol, UndefVariable>)
        requires
            name.ids@.len() > 0,
        ensures
            found_view(r) == lookup_spec(*self, name@),
        decreases self,
    {
        if name.global {
            mod_lookup(&self.root().symbols, name)
        } else {
            match mod_lookup(&self.symbols, name) {
                Err(UndefVariable::DoesNotExist(x)) => match &self.parent {
                    Some(p) => p.lookup(name),
                    None => Err(UndefVariable::DoesNotExist(x)),
                },
                r => r,
            }
        }
    }

    fn insert_root(&mut self, name: &DottedName, sym: Symbol) -> (r: Result<(), RedefVariable>)
        requires
            name.ids@.len() > 0,
        ensures
            same_but_root(*old(self), *final(self)),
            (root_entries(*final(self)), inserted_view(r)) == insert_in(
                root_entries(*old(self)),
                name@.ids,
                0,
                sym@,
            ),
        decreases *old(self),
    {
        match self.parent.take() {
            Some(mut p) => {
                let r = (&mut *p).insert_root(name, sym);
                self.parent = Some(p);
                r
            },
            None => insert_at(&mut self.symbols, &name.ids, 0, sym),
        }
    }

    /// Binds `sym` at `name`: an anchored name in the outermost scope, any
    /// other in this scope (see `mod_insert`). Returns the symbol that the
    /// name then holds (the one bound, or the module merged into).
    pub fn insert(&mut self, name: &DottedName, sym: Symbol) -> (r: Result<&Symbol, RedefVariable>)
        requires
            name.ids@.len() > 0,
        ensures
            name.global ==> {
                &&& same_but_root(*old(self), *final(self))
                &&& root_entries(*final(self)) == insert_in(
                    root_entries(*old(self)),
                    name@.ids,
                    0,
                    sym@,
                ).0
                &&& bound_matches(
                    r,
                    insert_in(root_entries(*old(self)), name@.ids, 0, sym@).1,
                    root_entries(*final(self)),
                    name@.ids,
                )
            },
            !name.global ==> {
                &&& final(self).parent == old(self).parent
                &&& entries_view(final(self).symbols@) == insert_in(
                    entries_view(old(self).symbols@),
                    name@.ids,
                    0,
                    sym@,
                ).0
                &&& bound_matches(
                    r,
                    insert_in(entries_view(old(self).symbols@), name@.ids, 0, sym@).1,
                    entries_view(final(self).symbols@),
                    name@.ids,
                )
            },
            scope_wf(*old(self)) && symbol_wf(sym@) ==> scope_wf(*final(self)),
    {
        let ghost sv = sym@;
        if name.global {
            let r = self.insert_root(name, sym);
            proof {
                if scope_wf(*old(self)) && symbol_wf(sv) {
                    lemma_root_wf(*old(self));
                    lemma_insert_keeps_wf(root_entries(*old(self)), name@.ids, 0, sv);
                    lemma_same_but_root_wf(*old(self), *self);
                }
                if insert_in(root_entries(*old(self)), name@.ids, 0, sv).1 is Ok {
                    lemma_insert_then_lookup(root_entries(*old(self)), name@.ids, 0, sv);
                }
            }
            match r {
                Ok(()) => Ok(mod_lookup(&self.root().symbols, name).unwrap()),
                Err(e) => Err(e),
            }
        } else {
            mod_insert(&mut self.symbols, name, sym)
        }
    }
}

/// Well-formed module entries: no two share a name, and every module among
/// them is well formed too.
pub open spec fn entries_wf(es: Seq<(Seq<char>, SymbolView)>) -> bool
    decreases es,
{
    &&& forall|i: int, j: int| 0 <= i < j < es.len() ==> #[trigger] es[i].0 != #[trigger] es[j].0
    &&& forall|i: int| 0 <= i < es.len() ==> symbol_wf(#[trigger] es[i].1)
}

/// A well-formed symbol: a variable, or a module with well-formed entries.
pub open spec fn symbol_wf(s: SymbolView) -> bool
    decreases s,
{
    match s {
        SymbolView::Variable(_) => true,
        SymbolView::Module(m) => entries_wf(m),
    }
}

} // verus!
