//! Laws of the symbol table: what insertion, merge and lookup guarantee
//! across calls, and that they keep module entries well formed.

use vstd::prelude::*;
use crate::names::DottedNameView;
use crate::varmap::{
    SymbolView, Variable, VarMap, UndefVariable, RedefView, index_of, lemma_index_of, insert_in,
    merge_in, merge_entry, lookup_in, lookup_spec, root_entries, entries_view, entries_wf,
    symbol_wf, root_of, lookup_key, merge_conflicts, entry_conflicts,
};

verus! {

/// The first entry named `k` is the one at `i` when the entries before it
/// have other names.
proof fn lemma_index_of_at(es: Seq<(Seq<char>, SymbolView)>, k: Seq<char>, i: int)
    requires
        0 <= i < es.len(),
        es[i].0 == k,
        forall|j: int| 0 <= j < i ==> #[trigger] es[j].0 != k,
    ensures
        index_of(es, k) == i,
    decreases i,
{
    if i > 0 {
        assert(es[0].0 != k);
        assert forall|j: int| 0 <= j < i - 1 implies #[trigger] es.drop_first()[j].0 != k by {
            assert(es.drop_first()[j] == es[j + 1]);
        }
        lemma_index_of_at(es.drop_first(), k, i - 1);
    }
}

proof fn lemma_index_of_push(es: Seq<(Seq<char>, SymbolView)>, k: Seq<char>, x: SymbolView)
    requires
        index_of(es, k) < 0,
    ensures
        index_of(es.push((k, x)), k) == es.len(),
{
    lemma_index_of(es, k);
    let t = es.push((k, x));
    assert forall|j: int| 0 <= j < es.len() implies #[trigger] t[j].0 != k by {
        assert(t[j] == es[j]);
    }
    lemma_index_of_at(t, k, es.len() as int);
}

proof fn lemma_index_of_update(es: Seq<(Seq<char>, SymbolView)>, k: Seq<char>, x: SymbolView)
    requires
        index_of(es, k) >= 0,
    ensures
        index_of(es.update(index_of(es, k), (k, x)), k) == index_of(es, k),
{
    lemma_index_of(es, k);
    let i = index_of(es, k);
    let t = es.update(i, (k, x));
    assert forall|j: int| 0 <= j < i implies #[trigger] t[j].0 != k by {
        assert(t[j] == es[j]);
    }
    lemma_index_of_at(t, k, i);
}

proof fn lemma_insert_twice_at(
    es: Seq<(Seq<char>, SymbolView)>,
    ids: Seq<Seq<char>>,
    idx: int,
    v: Variable,
    s: SymbolView,
)
    requires
        0 <= idx < ids.len(),
        insert_in(es, ids, idx, SymbolView::Variable(v)).1 is Ok,
    ensures
        ({
            let es1 = insert_in(es, ids, idx, SymbolView::Variable(v)).0;
            insert_in(es1, ids, idx, s) == (
                es1,
                Err::<(), RedefView>(RedefView::AlreadyExists((ids.len() - 1) as usize, s)),
            )
        }),
    decreases ids.len() - idx,
{
    let k = ids[idx];
    let i = index_of(es, k);
    lemma_index_of(es, k);
    let es1 = insert_in(es, ids, idx, SymbolView::Variable(v)).0;
    if idx + 1 < ids.len() {
        if i < 0 {
            let m = insert_in(seq![], ids, idx + 1, SymbolView::Variable(v)).0;
            lemma_insert_twice_at(seq![], ids, idx + 1, v, s);
            lemma_index_of_push(es, k, SymbolView::Module(m));
            assert(es1 == es.push((k, SymbolView::Module(m))));
            assert(es1.update(es.len() as int, (k, SymbolView::Module(m))) =~= es1);
        } else {
            match es[i].1 {
                SymbolView::Module(m) => {
                    let m1 = insert_in(m, ids, idx + 1, SymbolView::Variable(v)).0;
                    lemma_insert_twice_at(m, ids, idx + 1, v, s);
                    lemma_index_of_update(es, k, SymbolView::Module(m1));
                    assert(es1.update(i, (k, SymbolView::Module(m1))) =~= es1);
                },
                _ => {},
            }
        }
    } else if i < 0 {
        lemma_index_of_push(es, k, SymbolView::Variable(v));
    }
}

/// Binding a symbol at a name where a variable was just bound fails with
/// `AlreadyExists` at the last segment and leaves the entries as they are.
pub proof fn lemma_insert_twice(
    es: Seq<(Seq<char>, SymbolView)>,
    ids: Seq<Seq<char>>,
    v: Variable,
    s: SymbolView,
)
    requires
        ids.len() > 0,
        insert_in(es, ids, 0, SymbolView::Variable(v)).1 is Ok,
    ensures
        ({
            let es1 = insert_in(es, ids, 0, SymbolView::Variable(v)).0;
            insert_in(es1, ids, 0, s) == (
                es1,
                Err::<(), RedefView>(RedefView::AlreadyExists((ids.len() - 1) as usize, s)),
            )
        }),
{
    lemma_insert_twice_at(es, ids, 0, v, s);
}

proof fn lemma_root_of(vm: VarMap)
    ensures
        root_of(vm).parent is None,
        entries_view(root_of(vm).symbols@) == root_entries(vm),
    decreases vm,
{
    if let Some(p) = vm.parent {
        lemma_root_of(*p);
    }
}

/// An anchored name resolves from any scope exactly as the same name,
/// unanchored, resolves in the outermost scope: the enclosing scopes in
/// between play no part.
pub proof fn lemma_global_lookup(vm: VarMap, ids: Seq<Seq<char>>)
    ensures
        lookup_spec(vm, DottedNameView { ids, global: true }) == lookup_spec(
            root_of(vm),
            DottedNameView { ids, global: false },
        ),
{
    lemma_root_of(vm);
}

/// An unanchored name that a scope's own symbols lack (`DoesNotExist`)
/// resolves as it does from the enclosing scope.
pub proof fn lemma_lookup_falls_back(vm: VarMap, name: DottedNameView)
    requires
        !name.global,
        vm.parent is Some,
        lookup_in(entries_view(vm.symbols@), name.ids, 0) matches Err(UndefVariable::DoesNotExist(_)),
    ensures
        lookup_spec(vm, name) == lookup_spec(*vm.parent->0, name),
{
}

/// A name whose resolution in a scope's own symbols meets a variable where a
/// module is needed (`NotAModule`) fails there, whatever the enclosing scopes
/// hold.
pub proof fn lemma_not_a_module_is_final(vm: VarMap, name: DottedNameView, i: usize)
    requires
        !name.global,
        lookup_in(entries_view(vm.symbols@), name.ids, 0) == Err::<SymbolView, UndefVariable>(
            UndefVariable::NotAModule(i),
        ),
    ensures
        lookup_spec(vm, name) == Err::<SymbolView, UndefVariable>(UndefVariable::NotAModule(i)),
{
}

proof fn lemma_wf_push(es: Seq<(Seq<char>, SymbolView)>, k: Seq<char>, x: SymbolView)
    requires
        entries_wf(es),
        index_of(es, k) < 0,
        symbol_wf(x),
    ensures
        entries_wf(es.push((k, x))),
{
    lemma_index_of(es, k);
    let t = es.push((k, x));
    assert forall|i: int, j: int| 0 <= i < j < t.len() implies #[trigger] t[i].0 != #[trigger] t[j].0 by {
        if j == es.len() {
            assert(es[i].0 != k);
        } else {
            assert(t[i] == es[i] && t[j] == es[j]);
        }
    }
    assert forall|i: int| 0 <= i < t.len() implies symbol_wf(#[trigger] t[i].1) by {
        if i < es.len() {
            assert(t[i] == es[i]);
        }
    }
}

proof fn lemma_wf_update(es: Seq<(Seq<char>, SymbolView)>, k: Seq<char>, x: SymbolView)
    requires
        entries_wf(es),
        index_of(es, k) >= 0,
        symbol_wf(x),
    ensures
        entries_wf(es.update(index_of(es, k), (k, x))),
{
    lemma_index_of(es, k);
    let n = index_of(es, k);
    let t = es.update(n, (k, x));
    assert forall|i: int, j: int| 0 <= i < j < t.len() implies #[trigger] t[i].0 != #[trigger] t[j].0 by {
        if i == n {
            assert(t[j] == es[j]);
            assert(es[n].0 != es[j].0);
        } else if j == n {
            assert(t[i] == es[i]);
            assert(es[i].0 != es[n].0);
        } else {
            assert(t[i] == es[i] && t[j] == es[j]);
        }
    }
    assert forall|i: int| 0 <= i < t.len() implies symbol_wf(#[trigger] t[i].1) by {
        if i != n {
            assert(t[i] == es[i]);
        }
    }
}

/// Binding a well-formed symbol keeps module entries well formed, whether
/// the binding succeeds or not.
pub proof fn lemma_insert_keeps_wf(
    es: Seq<(Seq<char>, SymbolView)>,
    ids: Seq<Seq<char>>,
    idx: int,
    s: SymbolView,
)
    requires
        0 <= idx < ids.len(),
        entries_wf(es),
        symbol_wf(s),
    ensures
        entries_wf(insert_in(es, ids, idx, s).0),
    decreases ids.len() - idx,
{
    let k = ids[idx];
    let i = index_of(es, k);
    lemma_index_of(es, k);
    if idx + 1 < ids.len() {
        if i < 0 {
            assert(entries_wf(Seq::<(Seq<char>, SymbolView)>::empty()));
            lemma_insert_keeps_wf(seq![], ids, idx + 1, s);
            let m = insert_in(seq![], ids, idx + 1, s).0;
            lemma_wf_push(es, k, SymbolView::Module(m));
        } else {
            assert(symbol_wf(es[i].1));
            if let SymbolView::Module(m) = es[i].1 {
                lemma_insert_keeps_wf(m, ids, idx + 1, s);
                let m2 = insert_in(m, ids, idx + 1, s).0;
                lemma_wf_update(es, k, SymbolView::Module(m2));
            }
        }
    } else if i < 0 {
        lemma_wf_push(es, k, s);
    } else {
        assert(symbol_wf(es[i].1));
        if let (SymbolView::Module(m), SymbolView::Module(from)) = (es[i].1, s) {
            lemma_merge_keeps_wf(m, from);
            let m2 = merge_in(m, from).0;
            lemma_wf_update(es, k, SymbolView::Module(m2));
        }
    }
}

/// Merging well-formed entries into well-formed module entries gives
/// well-formed entries.
pub proof fn lemma_merge_keeps_wf(into: Seq<(Seq<char>, SymbolView)>, from: Seq<(Seq<char>, SymbolView)>)
    requires
        entries_wf(into),
        entries_wf(from),
    ensures
        entries_wf(merge_in(into, from).0),
    decreases from,
{
    if from.len() > 0 {
        assert(symbol_wf(from[0].1));
        lemma_merge_entry_keeps_wf(into, from[0].0, from[0].1);
        let into1 = merge_entry(into, from[0].0, from[0].1).0;
        let rest = from.drop_first();
        assert forall|i: int, j: int| 0 <= i < j < rest.len() implies #[trigger] rest[i].0
            != #[trigger] rest[j].0 by {
            assert(rest[i] == from[i + 1] && rest[j] == from[j + 1]);
        }
        assert forall|i: int| 0 <= i < rest.len() implies symbol_wf(#[trigger] rest[i].1) by {
            assert(rest[i] == from[i + 1]);
        }
        lemma_merge_keeps_wf(into1, rest);
    }
}

proof fn lemma_merge_entry_keeps_wf(into: Seq<(Seq<char>, SymbolView)>, k: Seq<char>, s: SymbolView)
    requires
        entries_wf(into),
        symbol_wf(s),
    ensures
        entries_wf(merge_entry(into, k, s).0),
    decreases s,
{
    let i = index_of(into, k);
    lemma_index_of(into, k);
    if i < 0 {
        lemma_wf_push(into, k, s);
    } else {
        assert(symbol_wf(into[i].1));
        if let (SymbolView::Module(a), SymbolView::Module(b)) = (into[i].1, s) {
            lemma_merge_keeps_wf(a, b);
            lemma_wf_update(into, k, SymbolView::Module(merge_in(a, b).0));
        }
    }
}

proof fn lemma_variable_on_module_at(
    es: Seq<(Seq<char>, SymbolView)>,
    ids: Seq<Seq<char>>,
    idx: int,
    v: Variable,
)
    requires
        0 <= idx < ids.len(),
        lookup_in(es, ids, idx) matches Ok(SymbolView::Module(_)),
    ensures
        insert_in(es, ids, idx, SymbolView::Variable(v)) == (
            es,
            Err::<(), RedefView>(
                RedefView::AlreadyExists((ids.len() - 1) as usize, SymbolView::Variable(v)),
            ),
        ),
    decreases ids.len() - idx,
{
    let k = ids[idx];
    let i = index_of(es, k);
    lemma_index_of(es, k);
    if idx + 1 < ids.len() {
        if let SymbolView::Module(m) = es[i].1 {
            lemma_variable_on_module_at(m, ids, idx + 1, v);
            assert(es.update(i, (k, SymbolView::Module(m))) =~= es);
        }
    }
}

/// Binding a variable at a name that resolves to a module is rejected with
/// `AlreadyExists` at the last segment, and changes nothing: a module is
/// never merged with, nor replaced by, a variable.
pub proof fn lemma_variable_on_module_rejected(
    es: Seq<(Seq<char>, SymbolView)>,
    ids: Seq<Seq<char>>,
    v: Variable,
)
    requires
        ids.len() > 0,
        lookup_in(es, ids, 0) matches Ok(SymbolView::Module(_)),
    ensures
        insert_in(es, ids, 0, SymbolView::Variable(v)) == (
            es,
            Err::<(), RedefView>(
                RedefView::AlreadyExists((ids.len() - 1) as usize, SymbolView::Variable(v)),
            ),
        ),
{
    lemma_variable_on_module_at(es, ids, 0, v);
}

proof fn lemma_lookup_push_other(
    es: Seq<(Seq<char>, SymbolView)>,
    k: Seq<char>,
    x: SymbolView,
    k2: Seq<char>,
)
    requires
        k2 != k,
    ensures
        lookup_key(es.push((k, x)), k2) == lookup_key(es, k2),
{
    let t = es.push((k, x));
    lemma_index_of(es, k2);
    lemma_index_of(t, k2);
    let i = index_of(es, k2);
    if i >= 0 {
        assert forall|j: int| 0 <= j < i implies #[trigger] t[j].0 != k2 by {
            assert(t[j] == es[j]);
        }
        assert(t[i] == es[i]);
        lemma_index_of_at(t, k2, i);
    } else {
        let n = index_of(t, k2);
        if n >= 0 {
            if n < es.len() {
                assert(t[n] == es[n]);
            }
        }
    }
}

proof fn lemma_lookup_update_other(
    es: Seq<(Seq<char>, SymbolView)>,
    k: Seq<char>,
    x: SymbolView,
    k2: Seq<char>,
)
    requires
        k2 != k,
        index_of(es, k) >= 0,
    ensures
        lookup_key(es.update(index_of(es, k), (k, x)), k2) == lookup_key(es, k2),
{
    lemma_index_of(es, k);
    let p = index_of(es, k);
    let t = es.update(p, (k, x));
    lemma_index_of(es, k2);
    lemma_index_of(t, k2);
    let i = index_of(es, k2);
    if i >= 0 {
        assert forall|j: int| 0 <= j < i implies #[trigger] t[j].0 != k2 by {
            if j != p {
                assert(t[j] == es[j]);
            }
        }
        assert(t[i] == es[i]);
        lemma_index_of_at(t, k2, i);
    } else {
        let n = index_of(t, k2);
        if n >= 0 && n != p {
            assert(t[n] == es[n]);
        }
    }
}

proof fn lemma_merge_entry_lookup(
    into: Seq<(Seq<char>, SymbolView)>,
    k: Seq<char>,
    s: SymbolView,
    k2: Seq<char>,
)
    requires
        k2 != k,
    ensures
        lookup_key(merge_entry(into, k, s).0, k2) == lookup_key(into, k2),
{
    let i = index_of(into, k);
    if i < 0 {
        lemma_lookup_push_other(into, k, s, k2);
    } else if let (SymbolView::Module(a), SymbolView::Module(b)) = (into[i].1, s) {
        lemma_lookup_update_other(into, k, SymbolView::Module(merge_in(a, b).0), k2);
    }
}

proof fn lemma_conflicts_agree(
    a: Seq<(Seq<char>, SymbolView)>,
    a2: Seq<(Seq<char>, SymbolView)>,
    from: Seq<(Seq<char>, SymbolView)>,
)
    requires
        forall|j: int| 0 <= j < from.len() ==> lookup_key(a, #[trigger] from[j].0) == lookup_key(a2, from[j].0),
    ensures
        merge_conflicts(a, from) == merge_conflicts(a2, from),
    decreases from.len(),
{
    if from.len() > 0 {
        let rest = from.drop_first();
        assert forall|j: int| 0 <= j < rest.len() implies lookup_key(a, #[trigger] rest[j].0) == lookup_key(a2, rest[j].0) by {
            assert(rest[j] == from[j + 1]);
        }
        lemma_conflicts_agree(a, a2, rest);
        assert(lookup_key(a, from[0].0) == lookup_key(a2, from[0].0));
        assert(entry_conflicts(a, from[0].0, from[0].1) == entry_conflicts(a2, from[0].0, from[0].1));
    }
}

/// Merging entries with distinct names meets exactly the conflicts that
/// each entry meets against the target as it stood before the merge: an
/// earlier entry of the merge never causes or removes a conflict of a later
/// one. So the conflicts of a merge can be known before it is made.
pub proof fn lemma_merge_conflicts(into: Seq<(Seq<char>, SymbolView)>, from: Seq<(Seq<char>, SymbolView)>)
    requires
        entries_wf(from),
    ensures
        merge_in(into, from).1 == merge_conflicts(into, from),
    decreases from,
{
    if from.len() > 0 {
        let (k, s) = from[0];
        assert(symbol_wf(from[0].1));
        lemma_merge_entry_conflicts(into, k, s);
        let into1 = merge_entry(into, k, s).0;
        let rest = from.drop_first();
        assert forall|i: int, j: int| 0 <= i < j < rest.len() implies #[trigger] rest[i].0
            != #[trigger] rest[j].0 by {
            assert(rest[i] == from[i + 1] && rest[j] == from[j + 1]);
        }
        assert forall|i: int| 0 <= i < rest.len() implies symbol_wf(#[trigger] rest[i].1) by {
            assert(rest[i] == from[i + 1]);
        }
        lemma_merge_conflicts(into1, rest);
        assert forall|j: int| 0 <= j < rest.len() implies lookup_key(into1, #[trigger] rest[j].0)
            == lookup_key(into, rest[j].0) by {
            assert(rest[j] == from[j + 1]);
            assert(from[0].0 != from[j + 1].0);
            lemma_merge_entry_lookup(into, k, s, rest[j].0);
        }
        lemma_conflicts_agree(into1, into, rest);
    }
}

proof fn lemma_merge_entry_conflicts(into: Seq<(Seq<char>, SymbolView)>, k: Seq<char>, s: SymbolView)
    requires
        symbol_wf(s),
    ensures
        merge_entry(into, k, s).1 == entry_conflicts(into, k, s),
    decreases s,
{
    lemma_index_of(into, k);
    let i = index_of(into, k);
    if i >= 0 {
        if let (SymbolView::Module(a), SymbolView::Module(b)) = (into[i].1, s) {
            lemma_merge_conflicts(a, b);
        }
    }
}

/// Every module that binding at segments `idx ..` of `ids` would pass
/// through already exists, up to the first segment that names a variable.
pub open spec fn no_missing_module(es: Seq<(Seq<char>, SymbolView)>, ids: Seq<Seq<char>>, idx: int) -> bool
    decreases ids.len() - idx,
{
    if idx < 0 || idx + 1 >= ids.len() {
        true
    } else {
        match lookup_key(es, ids[idx]) {
            None => false,
            Some(SymbolView::Module(m)) => no_missing_module(m, ids, idx + 1),
            Some(_) => true,
        }
    }
}

/// A failed binding leaves the entries exactly as they were, apart from the
/// modules it created on the way: where none was missing, nothing changes.
pub proof fn lemma_failed_insert_unchanged(
    es: Seq<(Seq<char>, SymbolView)>,
    ids: Seq<Seq<char>>,
    idx: int,
    s: SymbolView,
)
    requires
        0 <= idx < ids.len(),
        insert_in(es, ids, idx, s).1 is Err,
        no_missing_module(es, ids, idx),
    ensures
        insert_in(es, ids, idx, s).0 == es,
    decreases ids.len() - idx,
{
    let k = ids[idx];
    let i = index_of(es, k);
    lemma_index_of(es, k);
    if idx + 1 < ids.len() {
        if let SymbolView::Module(m) = es[i].1 {
            lemma_failed_insert_unchanged(m, ids, idx + 1, s);
            assert(es.update(i, (k, SymbolView::Module(m))) =~= es);
        }
    }
}

/// After a successful binding the name resolves, in the entries it left.
pub proof fn lemma_insert_then_lookup(
    es: Seq<(Seq<char>, SymbolView)>,
    ids: Seq<Seq<char>>,
    idx: int,
    s: SymbolView,
)
    requires
        0 <= idx < ids.len(),
        insert_in(es, ids, idx, s).1 is Ok,
    ensures
        lookup_in(insert_in(es, ids, idx, s).0, ids, idx) is Ok,
    decreases ids.len() - idx,
{
    let k = ids[idx];
    let i = index_of(es, k);
    lemma_index_of(es, k);
    if idx + 1 < ids.len() {
        if i < 0 {
            let m = insert_in(seq![], ids, idx + 1, s).0;
            lemma_insert_then_lookup(seq![], ids, idx + 1, s);
            lemma_index_of_push(es, k, SymbolView::Module(m));
        } else if let SymbolView::Module(m) = es[i].1 {
            let m2 = insert_in(m, ids, idx + 1, s).0;
            lemma_insert_then_lookup(m, ids, idx + 1, s);
            lemma_index_of_update(es, k, SymbolView::Module(m2));
        }
    } else if i < 0 {
        lemma_index_of_push(es, k, s);
    } else if let (SymbolView::Module(m), SymbolView::Module(from)) = (es[i].1, s) {
        lemma_index_of_update(es, k, SymbolView::Module(merge_in(m, from).0));
    }
}

} // verus!
