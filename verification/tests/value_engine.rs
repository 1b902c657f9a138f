use value_tree::error::ErrorKind;
use value_tree::error::Unexpected;
use value_tree::float::Float;
use value_tree::path::Path;
use value_tree::path::PathNode;
use value_tree::value::Table;
use value_tree::value::Value;

fn float(x: f64) -> Value {
    Value::from(Float::new(x.to_bits(), x.to_string()))
}

#[test]
fn simple_test() {
    let mut value_origin = Value::default();

    assert!(matches!(value_origin.set("/test/bool", true), Ok(_)));
    assert!(matches!(
        value_origin.set("/test/str", "i am string"),
        Ok(_)
    ));

    assert!(matches!(value_origin.get("/test/bool"), Ok(Some(true))));
    assert!(
        matches!(value_origin.get::<String, _>("/test/str"), Ok(Some(str)) if str == "i am string")
    );

    let mut value_new = Value::default();

    assert!(matches!(value_new.set("/test/bool", false), Ok(_)));
    assert!(matches!(value_new.set("/test/i32", 1000_i32), Ok(_)));

    assert!(matches!(value_origin.merge(value_new), Ok(_)));

    assert!(matches!(value_origin.get("/test/bool"), Ok(Some(false))));
    assert!(
        matches!(value_origin.get::<String, _>("/test/str"), Ok(Some(str)) if str == "i am string")
    );
    assert!(matches!(value_origin.get("/test/i32"), Ok(Some(1000_i32))));
}

#[test]
fn set_then_get_and_set_again() {
    let mut root = Value::default();
    let first = root.set("/x/y", Value::from(5_i64)).unwrap();
    assert!(matches!(first, Value::Nil));
    assert!(matches!(root.get::<i64, _>("/x/y"), Ok(Some(5))));
    let second = root.set("/x/y", Value::from(7_i64)).unwrap();
    assert!(matches!(second.get::<i64, _>("/"), Ok(Some(5))));
    assert!(matches!(root.get::<i64, _>("/x/y"), Ok(Some(7))));
}

#[test]
fn set_makes_tables_on_the_way() {
    let mut root = Value::Nil;
    root.set("/a/b", Value::from(true)).unwrap();
    match &root {
        Value::Table(outer) => {
            assert_eq!(outer.len(), 1);
            match outer.get("a") {
                Some(Value::Table(inner)) => {
                    assert_eq!(inner.len(), 1);
                    assert!(matches!(inner.get("b"), Some(Value::Boolean(true))));
                }
                _ => panic!("no table under a"),
            }
        }
        _ => panic!("the root is no table"),
    }
}

#[test]
fn set_replaces_what_is_no_table() {
    let mut root = Value::from("text");
    let previous = root.set("/a", Value::from(1_u8)).unwrap();
    assert!(matches!(previous, Value::Nil));
    assert!(matches!(root.get::<u8, _>("/a"), Ok(Some(1))));
    let mut root = Value::from(vec![Value::from(1_u8)]);
    root.set("/a", Value::from(2_u8)).unwrap();
    assert!(root.is_table());
    assert!(matches!(root.get::<u8, _>("/a[0]"), Ok(None)));
}

#[test]
fn set_at_the_root_replaces_the_value() {
    let mut root = Value::from(3_i32);
    let previous = root.set("/", Value::from("new")).unwrap();
    assert!(matches!(previous.get::<i32, _>("/"), Ok(Some(3))));
    assert!(matches!(root.get::<String, _>("/"), Ok(Some(s)) if s == "new"));
}

#[test]
fn set_with_a_bad_path_changes_nothing() {
    let mut root = Value::from(3_i32);
    let outcome = root.set("no slash", Value::from(1_i32));
    match outcome {
        Err(e) => assert!(matches!(e.kind, ErrorKind::PathParse { .. })),
        Ok(_) => panic!("accepted"),
    }
    assert!(matches!(root.get::<i32, _>("/"), Ok(Some(3))));
    assert!(matches!(
        root.get::<i32, _>("").map_err(|e| e.kind),
        Err(ErrorKind::PathParse { .. })
    ));
}

#[test]
fn set_in_arrays_makes_room() {
    let mut root = Value::Nil;
    root.set("/a[0]", Value::from(10_i32)).unwrap();
    assert!(matches!(root.get::<Vec<Value>, _>("/a"), Ok(Some(items)) if items.len() == 1));
    root.set("/a[1]", Value::from(11_i32)).unwrap();
    root.set("/a[4]", Value::from(14_i32)).unwrap();
    assert!(matches!(root.get::<Vec<Value>, _>("/a"), Ok(Some(items)) if items.len() == 5));
    assert!(matches!(root.get::<i32, _>("/a[0]"), Ok(Some(10))));
    assert!(matches!(root.get::<i32, _>("/a[1]"), Ok(Some(11))));
    assert!(matches!(root.get::<(), _>("/a[2]"), Ok(Some(()))));
    assert!(matches!(root.lookup(&"/a[3]".parse::<Path>().unwrap()), Some(Value::Nil)));
    assert!(matches!(root.get::<i32, _>("/a[4]"), Ok(Some(14))));
    assert!(matches!(root.get::<i32, _>("/a[-1]"), Ok(Some(14))));
    assert!(matches!(root.get::<i32, _>("/a[-5]"), Ok(Some(10))));
    assert!(matches!(root.get::<i32, _>("/a[5]"), Ok(None)));
    assert!(matches!(root.get::<i32, _>("/a[-6]"), Ok(None)));
    let previous = root.set("/a[-1]", Value::from(24_i32)).unwrap();
    assert!(matches!(previous.get::<i32, _>("/"), Ok(Some(14))));
    assert!(matches!(root.get::<i32, _>("/a[4]"), Ok(Some(24))));
    root.set("/a[-7]", Value::from(-1_i32)).unwrap();
    assert!(matches!(root.get::<Vec<Value>, _>("/a"), Ok(Some(items)) if items.len() == 7));
    assert!(matches!(root.get::<i32, _>("/a[-7]"), Ok(Some(-1))));
    assert!(matches!(root.get::<i32, _>("/a[0]"), Ok(Some(-1))));
    assert!(matches!(root.lookup(&"/a[1]".parse::<Path>().unwrap()), Some(Value::Nil)));
    assert!(matches!(root.get::<i32, _>("/a[2]"), Ok(Some(10))));
}

#[test]
fn set_by_index_on_what_is_no_array() {
    let mut root = Value::from(true);
    root.set_at(&Path::from(vec![PathNode::Index(0)]), Value::from(1_i32));
    assert!(matches!(root.get_at::<Vec<Value>>(&Path::default()), Ok(Some(items)) if items.len() == 1));
    let mut root = Value::from(true);
    root.set_at(&Path::from(vec![PathNode::Index(-1)]), Value::from(1_i32));
    assert!(matches!(root.get_at::<Vec<Value>>(&Path::default()), Ok(Some(items)) if items.len() == 1));
    assert!(matches!(root.get_at::<i32>(&Path::from(vec![PathNode::Index(0)])), Ok(Some(1))));
    let mut root = Value::from(true);
    root.set_at(&Path::from(vec![PathNode::Index(2)]), Value::from(1_i32));
    assert!(matches!(root.get_at::<Vec<Value>>(&Path::default()), Ok(Some(items)) if items.len() == 3));
    assert!(matches!(root.get_at::<i32>(&Path::from(vec![PathNode::Index(2)])), Ok(Some(1))));
}

#[test]
fn negative_index_counts_from_the_end() {
    let root = Value::from(vec![Value::from(1_i32), Value::from(2_i32), Value::from(3_i32)]);
    assert!(matches!(root.get_at::<i32>(&Path::from(vec![PathNode::Index(-1)])), Ok(Some(3))));
    assert!(matches!(root.get_at::<i32>(&Path::from(vec![PathNode::Index(2)])), Ok(Some(3))));
    assert!(matches!(root.get_at::<i32>(&Path::from(vec![PathNode::Index(-3)])), Ok(Some(1))));
    assert!(matches!(root.get_at::<i32>(&Path::from(vec![PathNode::Index(3)])), Ok(None)));
    assert!(matches!(root.get_at::<i32>(&Path::from(vec![PathNode::Index(-4)])), Ok(None)));
    assert!(matches!(
        root.get_at::<i32>(&Path::from(vec![PathNode::Index(isize::MIN)])),
        Ok(None)
    ));
    assert!(matches!(
        root.get_at::<i32>(&Path::from(vec![PathNode::Index(isize::MAX)])),
        Ok(None)
    ));
    assert_eq!(value_tree::engine::map_index(-1, 3), Some(2));
    assert_eq!(value_tree::engine::map_index(0, 0), None);
}

#[test]
fn get_on_a_missing_path_is_nothing() {
    let mut root = Value::Nil;
    root.set("/a/b", Value::from(1_i32)).unwrap();
    assert!(matches!(root.get::<i32, _>("/a/c"), Ok(None)));
    assert!(matches!(root.get::<i32, _>("/a/b/c"), Ok(None)));
    assert!(matches!(root.get::<i32, _>("/a[0]"), Ok(None)));
    assert!(matches!(root.get::<i32, _>("/b"), Ok(None)));
}

#[test]
fn get_reports_a_value_of_the_wrong_kind() {
    let mut root = Value::Nil;
    root.set("/a/b", Value::from(1_i32)).unwrap();
    match root.get::<i32, _>("/a") {
        Err(e) => match e.kind {
            ErrorKind::Type { unexpected, expected } => {
                assert!(matches!(unexpected, Unexpected::Table));
                assert_eq!(expected, "an integer");
            }
            _ => panic!("another kind"),
        },
        _ => panic!("no error"),
    }
}

#[test]
fn merge_takes_the_source_for_shared_keys_and_adds_new_ones() {
    let mut target = Value::Nil;
    target.set("/bool", Value::from(true)).unwrap();
    target.set("/str", Value::from("x")).unwrap();
    let mut source = Value::Nil;
    source.set("/bool", Value::from(false)).unwrap();
    source.set("/i32", Value::from(1000_i32)).unwrap();
    assert!(target.merge(source).is_ok());
    assert!(matches!(target.get::<bool, _>("/bool"), Ok(Some(false))));
    assert!(matches!(target.get::<String, _>("/str"), Ok(Some(s)) if s == "x"));
    assert!(matches!(target.get::<i32, _>("/i32"), Ok(Some(1000))));
    assert!(matches!(&target, Value::Table(t) if t.len() == 3));
}

#[test]
fn merge_of_a_float_into_a_boolean_is_a_type_error() {
    let mut target = Value::from(true);
    match target.merge(float(1.5)) {
        Err(e) => match e.kind {
            ErrorKind::Type { unexpected, expected } => {
                assert_eq!(expected, "a bool");
                match unexpected {
                    Unexpected::Float(f) => {
                        assert_eq!(f.bits, 1.5_f64.to_bits());
                        assert_eq!(f.text, "1.5");
                    }
                    _ => panic!("another thing found"),
                }
            }
            _ => panic!("another kind"),
        },
        Ok(()) => panic!("merged"),
    }
    assert!(matches!(target, Value::Boolean(true)));
}

#[test]
fn merge_names_every_kind_of_target() {
    let names = [
        (Value::from(true), "a bool"),
        (Value::from(1_i32), "a integer"),
        (float(1.0), "a float"),
        (Value::from("s"), "a string"),
        (Value::from(Table::new()), "a map"),
        (Value::from(Vec::new()), "a array"),
    ];
    for (mut target, name) in names {
        let source = if target.is_array() {
            Value::from(Table::new())
        } else {
            Value::from(vec![Value::Nil])
        };
        match target.merge(source) {
            Err(e) => match e.kind {
                ErrorKind::Type { expected, .. } => assert_eq!(expected, name),
                _ => panic!("another kind"),
            },
            Ok(()) => panic!("merged"),
        }
    }
}

#[test]
fn merge_of_nil_changes_nothing() {
    let mut targets = vec![
        Value::Nil,
        Value::from(true),
        Value::from(1_i32),
        float(2.5),
        Value::from("s"),
        Value::from(vec![Value::from(1_i32)]),
    ];
    let mut table = Value::Nil;
    table.set("/k", Value::from(1_i32)).unwrap();
    targets.push(table);
    for target in targets.iter_mut() {
        assert!(target.merge(Value::Nil).is_ok());
    }
    assert!(matches!(targets[0], Value::Nil));
    assert!(matches!(targets[1], Value::Boolean(true)));
    assert!(matches!(targets[2].get::<i32, _>("/"), Ok(Some(1))));
    assert!(matches!(&targets[3], Value::Float(f) if f.bits == 2.5_f64.to_bits()));
    assert!(matches!(targets[4].get::<String, _>("/"), Ok(Some(s)) if s == "s"));
    assert!(matches!(targets[5].get::<i32, _>("/[0]").is_err(), true));
    assert!(matches!(targets[5].get_at::<i32>(&Path::from(vec![PathNode::Index(0)])), Ok(Some(1))));
    assert!(matches!(targets[6].get::<i32, _>("/k"), Ok(Some(1))));
}

#[test]
fn merge_into_nil_takes_the_source() {
    let mut target = Value::Nil;
    assert!(target.merge(Value::from("s")).is_ok());
    assert!(matches!(target.get::<String, _>("/"), Ok(Some(s)) if s == "s"));
}

#[test]
fn merge_overwrites_a_scalar_of_the_same_kind() {
    let mut target = Value::from(1_i32);
    assert!(target.merge(Value::from(2_i32)).is_ok());
    assert!(matches!(target.get::<i32, _>("/"), Ok(Some(2))));
    let mut target = Value::from("a");
    assert!(target.merge(Value::from("b")).is_ok());
    assert!(matches!(target.get::<String, _>("/"), Ok(Some(s)) if s == "b"));
    let mut target = float(1.0);
    assert!(target.merge(float(2.0)).is_ok());
    assert!(matches!(&target, Value::Float(f) if f.bits == 2.0_f64.to_bits()));
}

#[test]
fn merge_of_arrays_goes_place_by_place_and_appends() {
    let mut target = Value::from(vec![Value::from(1_i32), Value::Nil, Value::from(3_i32)]);
    let source = Value::from(vec![
        Value::from(10_i32),
        Value::from(20_i32),
        Value::Nil,
        Value::from(40_i32),
        Value::from("tail"),
    ]);
    assert!(target.merge(source).is_ok());
    let at = |i: isize| Path::from(vec![PathNode::Index(i)]);
    assert!(matches!(target.get_at::<Vec<Value>>(&Path::default()), Ok(Some(items)) if items.len() == 5));
    assert!(matches!(target.get_at::<i32>(&at(0)), Ok(Some(10))));
    assert!(matches!(target.get_at::<i32>(&at(1)), Ok(Some(20))));
    assert!(matches!(target.get_at::<i32>(&at(2)), Ok(Some(3))));
    assert!(matches!(target.get_at::<i32>(&at(3)), Ok(Some(40))));
    assert!(matches!(target.get_at::<String>(&at(4)), Ok(Some(s)) if s == "tail"));
    let mut longer = Value::from(vec![Value::from(1_i32), Value::from(2_i32)]);
    assert!(longer.merge(Value::from(vec![Value::from(9_i32)])).is_ok());
    assert!(matches!(longer.get_at::<Vec<Value>>(&Path::default()), Ok(Some(items)) if items.len() == 2));
    assert!(matches!(longer.get_at::<i32>(&at(0)), Ok(Some(9))));
    assert!(matches!(longer.get_at::<i32>(&at(1)), Ok(Some(2))));
}

#[test]
fn merge_goes_deep_and_reports_a_clash_inside() {
    let mut target = Value::Nil;
    target.set("/a/b/c", Value::from(1_i32)).unwrap();
    target.set("/a/keep", Value::from("kept")).unwrap();
    let mut source = Value::Nil;
    source.set("/a/b/c", Value::from(2_i32)).unwrap();
    source.set("/a/b/d", Value::from(3_i32)).unwrap();
    assert!(target.merge(source).is_ok());
    assert!(matches!(target.get::<i32, _>("/a/b/c"), Ok(Some(2))));
    assert!(matches!(target.get::<i32, _>("/a/b/d"), Ok(Some(3))));
    assert!(matches!(target.get::<String, _>("/a/keep"), Ok(Some(s)) if s == "kept"));
    let mut clashing = Value::Nil;
    clashing.set("/a/b/c", Value::from("text")).unwrap();
    match target.merge(clashing) {
        Err(e) => match e.kind {
            ErrorKind::Type { unexpected, expected } => {
                assert_eq!(expected, "a integer");
                assert!(matches!(unexpected, Unexpected::Str(s) if s == "text"));
            }
            _ => panic!("another kind"),
        },
        Ok(()) => panic!("merged"),
    }
}

#[test]
fn clone_shares_nothing() {
    let mut root = Value::Nil;
    root.set("/a/b[1]", Value::from("x")).unwrap();
    let copy = root.clone();
    root.set("/a/b[1]", Value::from("y")).unwrap();
    assert!(matches!(copy.get::<String, _>("/a/b[1]"), Ok(Some(s)) if s == "x"));
    assert!(matches!(root.get::<String, _>("/a/b[1]"), Ok(Some(s)) if s == "y"));
}

#[test]
fn table_keeps_one_value_for_each_key() {
    let mut table = Table::new();
    assert!(table.is_empty());
    assert!(table.insert("a".to_string(), Value::from(1_i32)).is_none());
    assert!(table.insert("b".to_string(), Value::from(2_i32)).is_none());
    let previous = table.insert("a".to_string(), Value::from(3_i32));
    assert!(matches!(previous, Some(v) if matches!(v.get::<i32, _>("/"), Ok(Some(1)))));
    assert_eq!(table.len(), 2);
    assert!(table.contains_key("a"));
    assert!(!table.contains_key("c"));
    assert_eq!(table.position("b"), Some(1));
    assert_eq!(table.key(0), "a");
    assert!(matches!(table.value(0).get::<i32, _>("/"), Ok(Some(3))));
    *table.slot(1) = Value::from(20_i32);
    assert!(matches!(table.get("b"), Some(v) if matches!(v.get::<i32, _>("/"), Ok(Some(20)))));
    let last = table.pop();
    assert!(matches!(last, Some((k, _)) if k == "b"));
    assert_eq!(table.len(), 1);
    assert!(table.pop().is_some());
    assert!(table.pop().is_none());
}

#[test]
fn clone_keeps_every_kind() {
    let mut table = Table::new();
    table.insert("n".to_string(), Value::from(i64::MIN));
    table.insert("f".to_string(), float(-2.25));
    table.insert("l".to_string(), Value::from(vec![Value::Nil, Value::from(false)]));
    let value = Value::from(table);
    let copy = value.clone();
    assert!(copy == value);
    assert!(matches!(copy.get::<i64, _>("/n"), Ok(Some(i64::MIN))));
    assert!(matches!(copy.get::<String, _>("/f"), Ok(Some(s)) if s == "-2.25"));
    assert!(matches!(copy.get::<Vec<Value>, _>("/l"), Ok(Some(items)) if items.len() == 2));
}

#[test]
fn get_at_the_root_yields_the_value_itself() {
    let root = Value::from(12_u16);
    assert!(matches!(root.get::<u16, _>("/"), Ok(Some(12))));
    assert!(matches!(root.lookup(&Path::default()), Some(v) if *v == root));
    assert!(matches!(Value::Nil.get::<(), _>("/"), Ok(Some(()))));
    assert!(Value::Nil.get::<bool, _>("/").is_err());
}

#[test]
fn set_and_get_take_what_converts() {
    let mut root = Value::default();
    root.set("/a", 1_u8).unwrap();
    root.set("/b".to_string(), "text".to_string()).unwrap();
    root.set(Path::from(vec![PathNode::Identifier("c".to_string())]), Some(3_i64)).unwrap();
    root.set("/d", None::<bool>).unwrap();
    root.set("/e", vec![Some(1_i16), None, Some(-3)]).unwrap();
    root.set("/f", vec![vec!["x", "y"], vec![]]).unwrap();
    root.set("/g", float(0.5)).unwrap();
    root.set("/h", Table::new()).unwrap();
    root.set("/i", Value::from(true)).unwrap();
    assert!(matches!(root.get::<u8, _>("/a"), Ok(Some(1))));
    assert!(matches!(root.get::<String, _>("/b".to_string()), Ok(Some(s)) if s == "text"));
    assert!(matches!(
        root.get::<i64, _>(Path::from(vec![PathNode::Identifier("c".to_string())])),
        Ok(Some(3))
    ));
    assert!(matches!(root.lookup(&"/d".parse().unwrap()), Some(Value::Nil)));
    assert!(matches!(root.get::<i16, _>("/e[0]"), Ok(Some(1))));
    assert!(matches!(root.lookup(&"/e[1]".parse().unwrap()), Some(Value::Nil)));
    assert!(matches!(root.get::<i16, _>("/e[2]"), Ok(Some(-3))));
    assert!(matches!(root.get::<String, _>("/f[0][1]"), Ok(Some(s)) if s == "y"));
    assert!(matches!(root.get::<Vec<Value>, _>("/f[1]"), Ok(Some(items)) if items.is_empty()));
    assert!(matches!(root.get::<String, _>("/g"), Ok(Some(s)) if s == "0.5"));
    assert!(matches!(root.get::<Table, _>("/h"), Ok(Some(t)) if t.is_empty()));
    assert!(matches!(root.get::<bool, _>("/i"), Ok(Some(true))));
    assert!(root.set("bad", 1_u8).is_err());
    assert!(root.get::<u8, _>("bad".to_string()).is_err());
}

#[test]
fn merge_of_arrays_stops_at_the_first_clash() {
    let mut target = Value::from(vec![
        Value::from(1_i32),
        Value::from("a"),
        Value::from(true),
        Value::from(4_i32),
    ]);
    let source = Value::from(vec![
        Value::from(10_i32),
        Value::from(5_i32),
        Value::from("x"),
        Value::from(40_i32),
        Value::from("tail"),
    ]);
    match target.merge(source) {
        Err(e) => match e.kind {
            ErrorKind::Type { unexpected, expected } => {
                assert_eq!(expected, "a string");
                assert!(matches!(unexpected, Unexpected::Integer(n) if n == 5.into()));
            }
            _ => panic!("another kind"),
        },
        Ok(()) => panic!("merged"),
    }
    let expected = Value::from(vec![
        Value::from(10_i32),
        Value::from("a"),
        Value::from(true),
        Value::from(4_i32),
    ]);
    assert!(target == expected);
    let mut nested = Value::from(vec![Value::from(vec![Value::from(1_i32), Value::from(2_i32)])]);
    let clashing = Value::from(vec![Value::from(vec![Value::from(9_i32), Value::from("no")])]);
    assert!(nested.merge(clashing).is_err());
    assert!(nested == Value::from(vec![Value::from(vec![Value::from(9_i32), Value::from(2_i32)])]));
}

#[test]
fn get_yields_the_value_itself_where_asked() {
    let mut root = Value::Nil;
    root.set("/a/b", vec![1_u8, 2]).unwrap();
    let part = root.get::<Value, _>("/a").unwrap().unwrap();
    assert!(part.is_table());
    assert!(matches!(part.get::<u8, _>("/b[1]"), Ok(Some(2))));
    assert!(matches!(root.get::<Value, _>("/a/b[0]"), Ok(Some(v)) if v == Value::from(1_u8)));
    assert!(matches!(root.get::<Value, _>("/missing"), Ok(None)));
    assert!(matches!(
        root.get::<Value, _>(Path::from(vec![PathNode::Identifier("a".to_string())])),
        Ok(Some(v)) if v == part
    ));
}

#[test]
fn merging_the_same_source_again_changes_nothing() {
    let mut target = Value::Nil;
    target.set("/a/b", 1_i32).unwrap();
    target.set("/list", vec![1_i32, 2, 3]).unwrap();
    target.set("/keep", "kept").unwrap();
    let mut source = Value::Nil;
    source.set("/a/b", 2_i32).unwrap();
    source.set("/a/c", float(0.5)).unwrap();
    source.set("/list", vec![Some(9_i32), None, Some(7), Some(6)]).unwrap();
    source.set("/new/deep[1]", true).unwrap();
    assert!(target.merge(source.clone()).is_ok());
    let once = target.clone();
    assert!(target.merge(source.clone()).is_ok());
    assert!(target == once);
    assert!(matches!(target.get::<i32, _>("/list[1]"), Ok(Some(2))));
    assert!(matches!(target.get::<i32, _>("/list[3]"), Ok(Some(6))));
    let mut itself = source.clone();
    assert!(itself.merge(source.clone()).is_ok());
    assert!(itself == source);
}
