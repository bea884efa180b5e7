use cobalt::parser::ParsedType;
use cobalt::records::{flatten, rebuild, SymbolRecord};
use cobalt::varmap::{Symbol, Variable};

fn var(handle: u64) -> Symbol {
    Symbol::Variable(Variable::compiled(handle, ParsedType::UInt(8)))
}

fn sample() -> Vec<(String, Symbol)> {
    vec![
        ("a".to_string(), var(1)),
        (
            "m".to_string(),
            Symbol::Module(vec![
                ("b".to_string(), var(2)),
                ("n".to_string(), Symbol::Module(vec![])),
            ]),
        ),
        ("c".to_string(), var(3)),
    ]
}

fn describe(rs: &[SymbolRecord]) -> Vec<String> {
    rs.iter()
        .map(|r| match r {
            SymbolRecord::Variable(k, v) => format!("{}={:?}", k, v.comp_val),
            SymbolRecord::Module(k, n) => format!("{}/{}", k, n),
        })
        .collect()
}

fn shape(es: &[(String, Symbol)]) -> String {
    es.iter()
        .map(|(k, s)| match s {
            Symbol::Variable(v) => format!("{}={:?}", k, v.comp_val),
            Symbol::Module(m) => format!("{}{{{}}}", k, shape(m)),
        })
        .collect::<Vec<_>>()
        .join(",")
}

#[test]
fn flatten_lists_modules_before_their_entries() {
    let rs = flatten(sample());
    assert_eq!(describe(&rs), vec!["a=Some(1)", "m/2", "b=Some(2)", "n/0", "c=Some(3)"]);
}

#[test]
fn rebuild_round_trip() {
    let expected = shape(&sample());
    let back = rebuild(flatten(sample())).unwrap();
    assert_eq!(shape(&back), expected);
    assert_eq!(expected, "a=Some(1),m{b=Some(2),n{}},c=Some(3)");
}

#[test]
fn rebuild_empty() {
    assert!(rebuild(vec![]).unwrap().is_empty());
    assert!(flatten(vec![]).is_empty());
}

#[test]
fn rebuild_truncated_module() {
    let rs = vec![SymbolRecord::Module("m".to_string(), 2), SymbolRecord::Variable("x".to_string(), Variable::metaval(1, ParsedType::Null))];
    assert!(rebuild(rs).is_none());
}
