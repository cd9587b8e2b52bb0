use vicscript::{parse, Event, Function, Literal, Path, Value};

fn number(s: &str) -> Value {
    Value::Number(s.to_string())
}

fn show(v: Option<Value>) -> String {
    format!("{:?}", v)
}

#[test]
fn snapshot_isolation() {
    let mut event = Event::new();
    event.insert("a", number("1"));
    let m = parse(".a = 2\n.b = .a").unwrap();
    assert!(m.execute(&mut event).is_ok());
    assert_eq!(show(event.get("a")), show(Some(number("2"))));
    assert_eq!(show(event.get("b")), show(Some(number("1"))));
}

#[test]
fn partial_failure_keeps_earlier_writes() {
    let mut event = Event::new();
    let m = parse(".a = 1\n.b = .missing").unwrap();
    let err = m.execute(&mut event).err().unwrap();
    assert_eq!(err, "failed to apply mapping 1: path missing not found in event");
    assert_eq!(show(event.get("a")), show(Some(number("1"))));
    assert_eq!(show(event.get("b")), show(None));
}

#[test]
fn literal_evaluation_ignores_the_event() {
    let l = Literal::from(Value::Str("x".to_string()));
    let empty = Event::new();
    let mut other = Event::new();
    other.insert("x", Value::Boolean(true));
    let a = l.execute(&empty).unwrap();
    let b = l.execute(&other).unwrap();
    assert_eq!(format!("{:?}", a), format!("{:?}", b));
    assert_eq!(format!("{:?}", a), format!("{:?}", Value::Str("x".to_string())));
}

#[test]
fn literals_round_trip_through_parse_and_execute() {
    let cases = vec![
        (".foo = \"bar\"", Value::Str("bar".to_string())),
        (".foo = true", Value::Boolean(true)),
        (".foo = null", Value::Null),
        (".foo = 50.5", number("50.5")),
    ];
    for (src, exp) in cases {
        let mut event = Event::new();
        parse(src).unwrap().execute(&mut event).unwrap();
        assert_eq!(show(event.get("foo")), show(Some(exp)));
    }
}

#[test]
fn path_reference_copies_nested_path() {
    let mut event = Event::new();
    event.insert("qux.quz", Value::Str("v".to_string()));
    parse(".bar.buz = .qux.quz").unwrap().execute(&mut event).unwrap();
    assert_eq!(show(event.get("bar.buz")), show(Some(Value::Str("v".to_string()))));
}

#[test]
fn path_lookup_missing_names_the_path() {
    let p = Path::new("nope.x");
    let err = p.execute(&Event::new()).err().unwrap();
    assert_eq!(err, "path nope.x not found in event");
}

#[test]
fn failure_index_in_message_has_several_digits() {
    let mut src = String::new();
    for i in 0..12 {
        src.push_str(&format!(".f{} = {}\n", i, i));
    }
    src.push_str(".g = .absent");
    let mut event = Event::new();
    let err = parse(&src).unwrap().execute(&mut event).err().unwrap();
    assert_eq!(err, "failed to apply mapping 12: path absent not found in event");
    assert_eq!(show(event.get("f11")), show(Some(number("11"))));
}

#[test]
fn insert_overwrites_existing_field() {
    let mut event = Event::new();
    event.insert("k", Value::Null);
    event.insert("k", Value::Boolean(false));
    assert_eq!(show(event.get("k")), show(Some(Value::Boolean(false))));
}
