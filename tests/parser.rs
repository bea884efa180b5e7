use cobalt::names::CompoundDottedNameSegment;
use cobalt::parser::{parse_expr, parse_path, parse_paths, parse_type, ParsedType};
use cobalt::token::{Location, Token, TokenData};

fn at(i: usize) -> Location {
    Location::new(0, 1, i + 1, i)
}

/// Tokens from space-separated spellings; the position is the token's index.
fn lex(src: &str) -> Vec<Token> {
    src.split_whitespace()
        .enumerate()
        .map(|(i, w)| {
            let data = if w.starts_with("kw:") {
                TokenData::Keyword(w[3..].to_string())
            } else if w.chars().next().unwrap().is_alphanumeric() || w.starts_with('_') {
                TokenData::Identifier(w.to_string())
            } else if ["*", "&", "^", "&&", "**", "^^", "=", "+"].contains(&w) {
                TokenData::Operator(w.to_string())
            } else {
                TokenData::Special(w.chars().next().unwrap())
            };
            Token { loc: at(i), data }
        })
        .collect()
}

fn codes(errs: &[cobalt::token::Error]) -> Vec<u32> {
    errs.iter().map(|e| e.code).collect()
}

#[test]
fn simple_path_segments() {
    let t = lex("a . b . c ;");
    let (name, n, errs) = parse_path(&t, ";");
    assert_eq!(name.ids, vec!["a", "b", "c"]);
    assert!(!name.global);
    assert_eq!(n, 6);
    assert!(errs.is_empty());
}

#[test]
fn leading_period_anchors_path() {
    let t = lex(". a . b ;");
    let (name, n, errs) = parse_path(&t, ";");
    assert_eq!(name.ids, vec!["a", "b"]);
    assert!(name.global);
    assert_eq!(n, 5);
    assert!(errs.is_empty());
}

#[test]
fn double_period_reported_once() {
    let t = lex("a . . b ;");
    let (name, _, errs) = parse_path(&t, ";");
    assert_eq!(name.ids, vec!["a", "b"]);
    assert_eq!(codes(&errs), vec![211]);
    assert_eq!(errs[0].loc, at(2));
}

#[test]
fn double_identifier_reported() {
    let t = lex("a b ;");
    let (name, n, errs) = parse_path(&t, ";");
    assert_eq!(name.ids, vec!["a", "b"]);
    assert_eq!(n, 3);
    assert_eq!(codes(&errs), vec![212]);
    assert_eq!(errs[0].loc, at(1));
}

#[test]
fn path_bad_first_token() {
    let t = lex("; a");
    let (name, n, errs) = parse_path(&t, ";");
    assert_eq!(name.ids, vec![""]);
    assert!(!name.global);
    assert_eq!(n, 2);
    assert_eq!(codes(&errs), vec![210]);
}

#[test]
fn path_stops_at_unexpected_token() {
    let t = lex("a . b + c");
    let (name, n, errs) = parse_path(&t, ";");
    assert_eq!(name.ids, vec!["a", "b"]);
    assert_eq!(n, 4);
    assert_eq!(codes(&errs), vec![210]);
    assert_eq!(errs[0].loc, at(3));
}

#[test]
fn path_stops_at_keyword_terminator() {
    let t = lex("a . b kw:= 1");
    let (name, n, errs) = parse_path(&t, ":=");
    assert_eq!(name.ids, vec!["a", "b"]);
    assert_eq!(n, 4);
    assert!(errs.is_empty());
}

#[test]
fn path_runs_to_end_of_input() {
    let t = lex("a . b");
    let (name, n, errs) = parse_path(&t, ";");
    assert_eq!(name.ids, vec!["a", "b"]);
    assert_eq!(n, 4);
    assert!(errs.is_empty());
}

#[test]
fn type_signed_primitive() {
    let t = lex("i32 ;");
    let (ty, n, errs) = parse_type(&t, ";");
    assert!(matches!(ty, Some(ParsedType::Int(32))));
    assert_eq!(n, 2);
    assert!(errs.is_empty());
}

#[test]
fn type_pointer_to_unsigned() {
    let t = lex("u64 * ;");
    let (ty, n, errs) = parse_type(&t, ";");
    match ty {
        Some(ParsedType::Pointer(inner)) => assert!(matches!(*inner, ParsedType::UInt(64))),
        other => panic!("unexpected {:?}", other),
    }
    assert_eq!(n, 3);
    assert!(errs.is_empty());
}

#[test]
fn type_double_reference_to_named() {
    let t = lex("foo . bar && ;");
    let (ty, _, errs) = parse_type(&t, ";");
    match ty {
        Some(ParsedType::Reference(a)) => match *a {
            ParsedType::Reference(b) => match *b {
                ParsedType::Named(name) => {
                    assert_eq!(name.ids, vec!["foo", "bar"]);
                    assert!(!name.global);
                },
                other => panic!("unexpected {:?}", other),
            },
            other => panic!("unexpected {:?}", other),
        },
        other => panic!("unexpected {:?}", other),
    }
    assert!(errs.is_empty());
}

#[test]
fn type_sized_array() {
    let t = lex("i32 [ 10 ] ;");
    let (ty, n, errs) = parse_type(&t, ";");
    match ty {
        Some(ParsedType::SizedArray(inner, size)) => {
            assert!(matches!(*inner, ParsedType::Int(32)));
            assert_eq!(size.loc, at(2));
        },
        other => panic!("unexpected {:?}", other),
    }
    assert_eq!(n, 5);
    assert!(errs.is_empty());
}

#[test]
fn type_unsized_array() {
    let t = lex("i32 [ ] ;");
    let (ty, n, errs) = parse_type(&t, ";");
    match ty {
        Some(ParsedType::UnsizedArray(inner)) => assert!(matches!(*inner, ParsedType::Int(32))),
        other => panic!("unexpected {:?}", other),
    }
    assert_eq!(n, 4);
    assert!(errs.is_empty());
}

#[test]
fn type_modifiers_apply_left_to_right() {
    let t = lex("T * & ;");
    let (ty, _, errs) = parse_type(&t, ";");
    match ty {
        Some(ParsedType::Reference(a)) => match *a {
            ParsedType::Pointer(b) => assert!(matches!(*b, ParsedType::Named(_))),
            other => panic!("unexpected {:?}", other),
        },
        other => panic!("unexpected {:?}", other),
    }
    assert!(errs.is_empty());
}

#[test]
fn type_other_primitives() {
    for (src, check) in [
        ("isize ;", (|t: &ParsedType| matches!(t, ParsedType::ISize)) as fn(&ParsedType) -> bool),
        ("usize ;", |t| matches!(t, ParsedType::USize)),
        ("u8 ;", |t| matches!(t, ParsedType::UInt(8))),
        ("f16 ;", |t| matches!(t, ParsedType::F16)),
        ("f32 ;", |t| matches!(t, ParsedType::F32)),
        ("f64 ;", |t| matches!(t, ParsedType::F64)),
        ("f128 ;", |t| matches!(t, ParsedType::F128)),
        ("null ;", |t| matches!(t, ParsedType::Null)),
        ("i ;", |t| matches!(t, ParsedType::Named(_))),
        ("i3x ;", |t| matches!(t, ParsedType::Named(_))),
        (". i32 ;", |t| matches!(t, ParsedType::Named(_))),
    ] {
        let t = lex(src);
        let (ty, _, errs) = parse_type(&t, ";");
        assert!(check(ty.as_ref().unwrap()), "{}", src);
        assert!(errs.is_empty(), "{}", src);
    }
}

#[test]
fn type_zero_width_is_malformed() {
    let t = lex("u0 ;");
    let (ty, n, errs) = parse_type(&t, ";");
    assert!(ty.is_none());
    assert_eq!(n, 2);
    assert_eq!(codes(&errs), vec![290]);
    assert_eq!(errs[0].loc, at(0));
}

#[test]
fn type_huge_width_is_malformed() {
    let t = lex("i99999999999999999999 ;");
    let (ty, _, errs) = parse_type(&t, ";");
    assert!(ty.is_none());
    assert_eq!(codes(&errs), vec![290]);
}

#[test]
fn type_largest_width() {
    let t = lex("u18446744073709551615 ;");
    let (ty, _, errs) = parse_type(&t, ";");
    assert!(matches!(ty, Some(ParsedType::UInt(18446744073709551615))));
    assert!(errs.is_empty());
}

#[test]
fn type_bad_first_token() {
    let t = lex("; i32");
    let (ty, n, errs) = parse_type(&t, ";");
    assert!(ty.is_none());
    assert_eq!(n, 2);
    assert_eq!(codes(&errs), vec![240]);
}

#[test]
fn type_unexpected_token_keeps_primitive() {
    let t = lex("i32 + 1");
    let (ty, n, errs) = parse_type(&t, ";");
    assert!(matches!(ty, Some(ParsedType::Int(32))));
    assert_eq!(n, 2);
    assert_eq!(codes(&errs), vec![210]);
    assert_eq!(errs[0].loc, at(1));
}

#[test]
fn type_unexpected_modifier_operator() {
    let t = lex("i32 * + ;");
    let (ty, n, errs) = parse_type(&t, ";");
    assert!(matches!(ty, Some(ParsedType::Pointer(_))));
    assert_eq!(n, 3);
    assert_eq!(codes(&errs), vec![220]);
}

#[test]
fn type_unmatched_bracket_at_end() {
    let t = lex("i32 [");
    let (ty, _, errs) = parse_type(&t, ";");
    assert!(matches!(ty, Some(ParsedType::Int(32))));
    assert_eq!(codes(&errs), vec![242]);
    assert_eq!(errs[0].loc, at(1));
}

#[test]
fn type_unclosed_size_expression() {
    let t = lex("i32 [ 10");
    let (ty, n, errs) = parse_type(&t, ";");
    assert!(matches!(ty, Some(ParsedType::SizedArray(_, _))));
    assert_eq!(n, 4);
    assert_eq!(codes(&errs), vec![242]);
}

#[test]
fn glob_after_period() {
    let t = lex("foo . bar . * ;");
    let (name, n, errs) = parse_paths(&t, false);
    assert_eq!(name.ids.len(), 3);
    assert!(matches!(&name.ids[0], CompoundDottedNameSegment::Identifier(s) if s == "foo"));
    assert!(matches!(&name.ids[1], CompoundDottedNameSegment::Identifier(s) if s == "bar"));
    assert!(matches!(&name.ids[2], CompoundDottedNameSegment::Glob(s) if s.is_empty()));
    assert!(!name.global);
    assert_eq!(n, 6);
    assert!(errs.is_empty());
}

#[test]
fn glob_absorbs_prefix() {
    let t = lex("foo . ba * ;");
    let (name, _, errs) = parse_paths(&t, false);
    assert_eq!(name.ids.len(), 2);
    assert!(matches!(&name.ids[0], CompoundDottedNameSegment::Identifier(s) if s == "foo"));
    assert!(matches!(&name.ids[1], CompoundDottedNameSegment::Glob(s) if s == "ba*"));
    assert!(errs.is_empty());
}

#[test]
fn glob_extended_by_identifier() {
    let t = lex("foo . ba * r ;");
    let (name, _, errs) = parse_paths(&t, false);
    assert_eq!(name.ids.len(), 2);
    assert!(matches!(&name.ids[1], CompoundDottedNameSegment::Glob(s) if s == "ba*r"));
    assert!(errs.is_empty());
}

#[test]
fn nested_import_stops_at_comma() {
    let t = lex(". a . b , c }");
    let (name, n, errs) = parse_paths(&t, true);
    assert!(name.global);
    assert_eq!(name.ids.len(), 2);
    assert_eq!(n, 5);
    assert!(errs.is_empty());
    let (_, n, errs) = parse_paths(&t, false);
    assert_eq!(n, 5);
    assert_eq!(codes(&errs), vec![210]);
}

#[test]
fn import_bad_first_token() {
    let t = lex("* a");
    let (name, n, errs) = parse_paths(&t, false);
    assert!(matches!(&name.ids[..], [CompoundDottedNameSegment::Identifier(s)] if s.is_empty()));
    assert_eq!(n, 2);
    assert_eq!(codes(&errs), vec![210]);
}

#[test]
fn expr_skips_groups() {
    let t = lex("( a ] ) [ b ] { ; } ;");
    let (ast, n, errs) = parse_expr(&t, ";");
    assert_eq!(ast.loc, at(0));
    assert_eq!(n, 11);
    assert!(errs.is_empty());
}

#[test]
fn expr_unmatched_brackets() {
    let t = lex("a ( b");
    let (_, n, errs) = parse_expr(&t, ";");
    assert_eq!(n, 4);
    assert_eq!(codes(&errs), vec![240]);
    assert_eq!(errs[0].loc, at(1));
    let t = lex("a ) b");
    let (_, n, errs) = parse_expr(&t, ";");
    assert_eq!(n, 2);
    assert_eq!(codes(&errs), vec![241]);
    let t = lex("{ a");
    let (_, _, errs) = parse_expr(&t, ";");
    assert_eq!(codes(&errs), vec![244]);
    let t = lex("a }");
    let (_, _, errs) = parse_expr(&t, ";");
    assert_eq!(codes(&errs), vec![245]);
    let t = lex("a ]");
    let (_, _, errs) = parse_expr(&t, ";");
    assert_eq!(codes(&errs), vec![243]);
}
