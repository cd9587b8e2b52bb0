use vicscript::{parse, Assignment, Literal, Mapping, Path, Query, Value};

fn lit(v: Value) -> Query {
    Query::Literal(Literal::from(v))
}

#[test]
fn check_parser_errors() {
    let cases = vec![
        (
            ".foo = {\"bar\"}",
            r###"parse error --> 1:8
  |
1 | .foo = {"bar"}
  |        ^---
  |
  = expected dot_path, boolean, null, string, or number"###,
        ),
        (
            ". = \"bar\"",
            r###"parse error --> 1:1
  |
1 | . = "bar"
  | ^---
  |
  = expected dot_path"###,
        ),
        (
            "foo = \"bar\"",
            r###"parse error --> 1:1
  |
1 | foo = "bar"
  | ^---
  |
  = expected dot_path"###,
        ),
        (
            ".foo.bar = \"baz\" and this",
            r###"parse error --> 1:18
  |
1 | .foo.bar = "baz" and this
  |                  ^---
  |
  = expected EOI"###,
        ),
    ];

    for (mapping, exp) in cases {
        assert_eq!(format!("{}", parse(mapping).err().unwrap()), exp);
    }
}

#[test]
fn check_parser() {
    let cases = vec![
        (".foo = \"bar\"", Mapping::new(vec![
            Assignment::new("foo".to_string(), lit(Value::Str("bar".to_string()))),
        ])),
        (".foo = true", Mapping::new(vec![
            Assignment::new("foo".to_string(), lit(Value::Boolean(true))),
        ])),
        (".foo = null", Mapping::new(vec![
            Assignment::new("foo".to_string(), lit(Value::Null)),
        ])),
        (".foo = 50.5", Mapping::new(vec![
            Assignment::new("foo".to_string(), lit(Value::Number("50.5".to_string()))),
        ])),
        (".foo = .bar", Mapping::new(vec![
            Assignment::new("foo".to_string(), Query::Path(Path::new("bar"))),
        ])),
        (".foo = .bar\n.bar.buz = .qux.quz", Mapping::new(vec![
            Assignment::new("foo".to_string(), Query::Path(Path::new("bar"))),
            Assignment::new("bar.buz".to_string(), Query::Path(Path::new("qux.quz"))),
        ])),
    ];

    for (mapping, exp) in cases {
        assert_eq!(format!("{:?}", parse(mapping).ok().unwrap()), format!("{:?}", exp));
    }
}

#[test]
fn parse_two_lines_keeps_source_order() {
    let m = parse(".b = 1\n.a = 2").unwrap();
    let exp = Mapping::new(vec![
        Assignment::new("b".to_string(), lit(Value::Number("1".to_string()))),
        Assignment::new("a".to_string(), lit(Value::Number("2".to_string()))),
    ]);
    assert_eq!(m.len(), 2);
    assert_eq!(format!("{:?}", m), format!("{:?}", exp));
}

#[test]
fn parse_false_negative_number_and_spacing() {
    let m = parse("  .x\t=  false\r\n.y = -3.25  ").unwrap();
    let exp = Mapping::new(vec![
        Assignment::new("x".to_string(), lit(Value::Boolean(false))),
        Assignment::new("y".to_string(), lit(Value::Number("-3.25".to_string()))),
    ]);
    assert_eq!(format!("{:?}", m), format!("{:?}", exp));
}

#[test]
fn parse_empty_script_expects_dot_path() {
    let e = parse("").err().unwrap();
    assert!(e.starts_with("parse error --> 1:1"));
    assert!(e.ends_with("= expected dot_path"));
}

#[test]
fn parse_missing_equals_expects_assignment() {
    let e = parse(".foo \"bar\"").err().unwrap();
    assert!(e.starts_with("parse error --> 1:1"));
    assert!(e.ends_with("= expected assignment"));
}

#[test]
fn parse_error_on_second_line() {
    let e = parse(".a = 1\n.b = ?").err().unwrap();
    assert!(e.starts_with("parse error --> 2:6"));
    assert!(e.ends_with("= expected dot_path, boolean, null, string, or number"));
}

#[test]
fn parse_trailing_newline_is_an_error() {
    let e = parse(".a = 1\n").err().unwrap();
    assert!(e.starts_with("parse error --> 2:1"));
    assert!(e.ends_with("= expected dot_path"));
}

#[test]
fn parse_unterminated_string_is_an_error() {
    let e = parse(".a = \"abc").err().unwrap();
    assert!(e.starts_with("parse error --> 1:6"));
}
