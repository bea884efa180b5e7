use cobalt::literals::{CharLiteralAST, IntLiteralAST, StringLiteralAST};
use cobalt::names::DottedName;
use cobalt::parser::ParsedType;
use cobalt::token::Location;
use cobalt::varmap::{mod_insert, mod_lookup, mod_merge, RedefVariable, Symbol, UndefVariable, VarMap, Variable};

fn name(ids: &[&str], global: bool) -> DottedName {
    DottedName::new(ids.iter().map(|s| s.to_string()).collect(), global)
}

fn var(handle: u64) -> Symbol {
    Symbol::Variable(Variable::compiled(handle, ParsedType::Int(32)))
}

fn handle(sym: &Symbol) -> Option<u64> {
    sym.as_var().and_then(|v| v.comp_val)
}

fn keys(sym: &Symbol) -> Vec<String> {
    sym.as_mod().unwrap().iter().map(|(k, _)| k.clone()).collect()
}

fn module(entries: Vec<(&str, Symbol)>) -> Symbol {
    Symbol::Module(entries.into_iter().map(|(k, s)| (k.to_string(), s)).collect())
}

#[test]
fn insert_creates_and_reuses_modules() {
    let mut root = VarMap::new(None);
    assert!(root.insert(&name(&["a", "b"], false), var(1)).is_ok());
    assert!(root.insert(&name(&["a", "c"], false), var(2)).is_ok());
    let a = root.lookup(&name(&["a"], false)).ok().unwrap();
    assert!(a.is_mod());
    assert_eq!(keys(a), vec!["b", "c"]);
    match root.insert(&name(&["a"], false), var(3)) {
        Err(RedefVariable::AlreadyExists(0, s)) => assert_eq!(handle(&s), Some(3)),
        other => panic!("unexpected {:?}", other),
    }
    assert_eq!(root.symbols.len(), 1);
}

#[test]
fn insert_twice_already_exists() {
    let mut root = VarMap::new(None);
    assert!(root.insert(&name(&["a", "b"], false), var(1)).is_ok());
    match root.insert(&name(&["a", "b"], false), var(2)) {
        Err(RedefVariable::AlreadyExists(1, s)) => assert_eq!(handle(&s), Some(2)),
        other => panic!("unexpected {:?}", other),
    }
    let b = root.lookup(&name(&["a", "b"], false)).ok().unwrap();
    assert_eq!(handle(b), Some(1));
}

#[test]
fn insert_through_variable_not_a_module() {
    let mut root = VarMap::new(None);
    assert!(root.insert(&name(&["a"], false), var(1)).is_ok());
    match root.insert(&name(&["a", "b", "c"], false), var(2)) {
        Err(RedefVariable::NotAModule(0, s)) => assert_eq!(handle(&s), Some(2)),
        other => panic!("unexpected {:?}", other),
    }
}

#[test]
fn insert_module_merges_or_conflicts() {
    let mut root = VarMap::new(None);
    assert!(root.insert(&name(&["m"], false), module(vec![("p", var(1))])).is_ok());
    assert!(root.insert(&name(&["m"], false), module(vec![("q", var(2))])).is_ok());
    assert_eq!(keys(root.lookup(&name(&["m"], false)).ok().unwrap()), vec!["p", "q"]);
    match root.insert(&name(&["m"], false), module(vec![("p", var(3)), ("r", var(4))])) {
        Err(RedefVariable::MergeConflict(0, cs)) => {
            assert_eq!(cs.len(), 1);
            assert_eq!(cs[0].0.ids, vec!["p"]);
            assert_eq!(handle(&cs[0].1), Some(3));
        },
        other => panic!("unexpected {:?}", other),
    }
    // a failed insertion leaves the module as it was
    assert_eq!(keys(root.lookup(&name(&["m"], false)).ok().unwrap()), vec!["p", "q"]);
    assert_eq!(handle(root.lookup(&name(&["m", "p"], false)).ok().unwrap()), Some(1));
}

#[test]
fn merge_disjoint_modules() {
    let mut into = vec![("x".to_string(), module(vec![("q", var(2))]))];
    let from = vec![("x".to_string(), module(vec![("p", var(1))]))];
    let cs = mod_merge(&mut into, from);
    assert!(cs.is_empty());
    assert_eq!(into.len(), 1);
    assert_eq!(into[0].0, "x");
    assert_eq!(keys(&into[0].1), vec!["q", "p"]);
    let x = into[0].1.as_mod().unwrap();
    assert_eq!(handle(&x[0].1), Some(2));
    assert_eq!(handle(&x[1].1), Some(1));
}

#[test]
fn merge_conflict_qualified_name() {
    let mut into = vec![("x".to_string(), module(vec![("p", var(2))]))];
    let from = vec![("x".to_string(), module(vec![("p", var(1))]))];
    let cs = mod_merge(&mut into, from);
    assert_eq!(cs.len(), 1);
    assert_eq!(cs[0].0.ids, vec!["x", "p"]);
    assert!(!cs[0].0.global);
    assert_eq!(handle(&cs[0].1), Some(1));
    let p = mod_lookup(&into, &name(&["x", "p"], false)).ok().unwrap();
    assert_eq!(handle(p), Some(2));
}

#[test]
fn merge_into_scope() {
    let mut scope = VarMap::new(None);
    assert!(scope.insert(&name(&["v"], false), var(1)).is_ok());
    let cs = scope.merge(vec![("v".to_string(), var(2)), ("w".to_string(), var(3))]);
    assert_eq!(cs.len(), 1);
    assert_eq!(cs[0].0.ids, vec!["v"]);
    assert_eq!(handle(scope.lookup(&name(&["v"], false)).ok().unwrap()), Some(1));
    assert_eq!(handle(scope.lookup(&name(&["w"], false)).ok().unwrap()), Some(3));
}

#[test]
fn lookup_falls_back_one_level() {
    let mut outer = VarMap::new(None);
    assert!(outer.insert(&name(&["a"], false), var(1)).is_ok());
    let inner = VarMap::new(Some(Box::new(outer)));
    assert_eq!(handle(inner.lookup(&name(&["a"], false)).ok().unwrap()), Some(1));
    assert_eq!(handle(inner.lookup(&name(&["a"], true)).ok().unwrap()), Some(1));
    let outer = inner.parent.as_ref().unwrap();
    assert_eq!(handle(outer.lookup(&name(&["a"], false)).ok().unwrap()), Some(1));
}

#[test]
fn global_lookup_skips_middle_scopes() {
    let mut outer = VarMap::new(None);
    assert!(outer.insert(&name(&["a"], false), var(1)).is_ok());
    let mut middle = VarMap::new(Some(Box::new(outer)));
    assert!(middle.insert(&name(&["a"], false), var(2)).is_ok());
    assert!(middle.insert(&name(&["b"], false), var(3)).is_ok());
    let inner = VarMap::new(Some(Box::new(middle)));
    assert_eq!(handle(inner.lookup(&name(&["a"], false)).ok().unwrap()), Some(2));
    assert_eq!(handle(inner.lookup(&name(&["a"], true)).ok().unwrap()), Some(1));
    assert_eq!(handle(inner.lookup(&name(&["b"], false)).ok().unwrap()), Some(3));
    assert!(matches!(inner.lookup(&name(&["b"], true)), Err(UndefVariable::DoesNotExist(0))));
    assert_eq!(inner.root().symbols.len(), 1);
}

#[test]
fn not_a_module_never_falls_back() {
    let mut outer = VarMap::new(None);
    assert!(outer.insert(&name(&["a"], false), var(1)).is_ok());
    let inner = VarMap::new(Some(Box::new(outer)));
    assert!(matches!(inner.lookup(&name(&["a", "b"], false)), Err(UndefVariable::NotAModule(0))));
}

#[test]
fn lookup_missing_inner_segment() {
    let mut root = VarMap::new(None);
    assert!(root.insert(&name(&["a", "b"], false), var(1)).is_ok());
    assert!(matches!(root.lookup(&name(&["a", "z"], false)), Err(UndefVariable::DoesNotExist(1))));
    assert!(matches!(root.lookup(&name(&["z", "b"], false)), Err(UndefVariable::DoesNotExist(0))));
}

#[test]
fn global_insert_goes_to_root() {
    let outer = VarMap::new(None);
    let mut inner = VarMap::new(Some(Box::new(outer)));
    assert!(inner.insert(&name(&["g"], true), var(7)).is_ok());
    assert!(inner.symbols.is_empty());
    let outer = inner.parent.as_ref().unwrap();
    assert_eq!(handle(mod_lookup(&outer.symbols, &name(&["g"], false)).ok().unwrap()), Some(7));
}

#[test]
fn orphan_and_reparent() {
    let mut outer = VarMap::new(None);
    assert!(outer.insert(&name(&["a"], false), var(1)).is_ok());
    let mut inner = VarMap::new(Some(Box::new(outer)));
    assert!(inner.insert(&name(&["b"], false), var(2)).is_ok());
    let alone = inner.orphan();
    assert!(alone.parent.is_none());
    assert!(matches!(alone.lookup(&name(&["a"], false)), Err(UndefVariable::DoesNotExist(0))));
    let mut other = VarMap::new(None);
    assert!(mod_insert(&mut other.symbols, &name(&["a"], false), var(9)).is_ok());
    let back = alone.reparent(Box::new(other));
    assert_eq!(handle(back.lookup(&name(&["a"], false)).ok().unwrap()), Some(9));
    assert_eq!(handle(back.lookup(&name(&["b"], false)).ok().unwrap()), Some(2));
}

#[test]
fn symbol_accessors() {
    let v = var(5);
    assert!(v.is_var() && !v.is_mod());
    assert!(v.as_mod().is_none());
    assert_eq!(v.into_var().unwrap().comp_val, Some(5));
    let m = module(vec![("k", var(1))]);
    assert!(m.is_mod() && !m.is_var());
    assert!(m.as_var().is_none());
    assert_eq!(m.into_mod().unwrap().len(), 1);
    assert!(var(1).into_mod().is_none());
    assert!(module(vec![]).into_var().is_none());
}

#[test]
fn variable_constructors() {
    let v = Variable::interpreted(1, 2, ParsedType::Null);
    assert_eq!((v.comp_val, v.inter_val, v.good), (Some(1), Some(2), true));
    let v = Variable::metaval(3, ParsedType::Null);
    assert_eq!((v.comp_val, v.inter_val, v.good), (None, Some(3), true));
    let v = Variable::compiled(4, ParsedType::Null);
    assert_eq!((v.comp_val, v.inter_val, v.good), (Some(4), None, true));
}

#[test]
fn literal_nodes() {
    let at = Location::new(2, 3, 4, 5);
    let i = IntLiteralAST::new(at, -7, Some("i8".to_string()));
    assert_eq!((i.loc(), i.val, i.suffix.as_deref()), (at, -7, Some("i8")));
    let c = CharLiteralAST::new(at, 'x', None);
    assert_eq!((c.loc(), c.val, c.suffix), (at, 'x', None));
    let s = StringLiteralAST::new(at, "hi".to_string(), None);
    assert_eq!((s.loc(), s.val.as_str()), (at, "hi"));
}

#[test]
fn mutable_accessors() {
    let mut v = var(1);
    v.as_var_mut().unwrap().good = false;
    assert!(!v.as_var().unwrap().good);
    assert!(v.as_mod_mut().is_none());
    let mut m = module(vec![]);
    m.as_mod_mut().unwrap().push(("k".to_string(), var(2)));
    assert_eq!(keys(&m), vec!["k"]);
    assert!(m.as_var_mut().is_none());
}

#[test]
fn root_mut_reaches_outermost_scope() {
    let outer = VarMap::new(None);
    let middle = VarMap::new(Some(Box::new(outer)));
    let mut inner = VarMap::new(Some(Box::new(middle)));
    assert!(mod_insert(&mut inner.root_mut().symbols, &name(&["r"], false), var(8)).is_ok());
    assert!(inner.symbols.is_empty());
    assert!(inner.parent.as_ref().unwrap().symbols.is_empty());
    assert_eq!(handle(inner.lookup(&name(&["r"], true)).ok().unwrap()), Some(8));
    assert!(inner.root_mut().parent.is_none());
}

#[test]
fn merge_conflict_insert_changes_nothing() {
    let mut root = VarMap::new(None);
    assert!(root.insert(&name(&["x"], false), module(vec![("p", var(1))])).is_ok());
    match root.insert(&name(&["x"], false), module(vec![("p", var(2)), ("q", var(3))])) {
        Err(RedefVariable::MergeConflict(0, cs)) => {
            assert_eq!(cs.len(), 1);
            assert_eq!(cs[0].0.ids, vec!["p"]);
            assert_eq!(handle(&cs[0].1), Some(2));
        },
        other => panic!("unexpected {:?}", other),
    }
    assert_eq!(keys(root.lookup(&name(&["x"], false)).ok().unwrap()), vec!["p"]);
    assert_eq!(handle(root.lookup(&name(&["x", "p"], false)).ok().unwrap()), Some(1));
    assert!(matches!(root.lookup(&name(&["x", "q"], false)), Err(UndefVariable::DoesNotExist(1))));
}

#[test]
fn nested_merge_conflict_insert_changes_nothing() {
    let mut root = VarMap::new(None);
    assert!(root.insert(&name(&["a", "x"], false), module(vec![("y", module(vec![("z", var(1))]))])).is_ok());
    let incoming = module(vec![("w", var(5)), ("y", module(vec![("z", var(2)), ("v", var(6))]))]);
    match root.insert(&name(&["a", "x"], false), incoming) {
        Err(RedefVariable::MergeConflict(1, cs)) => {
            assert_eq!(cs.len(), 1);
            assert_eq!(cs[0].0.ids, vec!["y", "z"]);
        },
        other => panic!("unexpected {:?}", other),
    }
    assert_eq!(keys(root.lookup(&name(&["a", "x"], false)).ok().unwrap()), vec!["y"]);
    assert_eq!(keys(root.lookup(&name(&["a", "x", "y"], false)).ok().unwrap()), vec!["z"]);
}

#[test]
fn insert_returns_bound_symbol() {
    let mut root = VarMap::new(None);
    assert_eq!(handle(root.insert(&name(&["a", "b"], false), var(4)).ok().unwrap()), Some(4));
    let merged = root.insert(&name(&["a"], false), module(vec![("c", var(5))])).ok().unwrap();
    assert_eq!(keys(merged), vec!["b", "c"]);
    let mut inner = VarMap::new(Some(Box::new(root)));
    assert_eq!(handle(inner.insert(&name(&["g"], true), var(6)).ok().unwrap()), Some(6));
    let mut syms = Vec::new();
    assert_eq!(handle(mod_insert(&mut syms, &name(&["x", "y"], false), var(7)).ok().unwrap()), Some(7));
}
