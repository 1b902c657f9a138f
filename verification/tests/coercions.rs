use num_bigint::BigInt;
use value_tree::coerce::bool_from_lowered;
use value_tree::coerce::float_task;
use value_tree::coerce::float_text_error;
use value_tree::coerce::integer_from_text;
use value_tree::coerce::text_truth;
use value_tree::coerce::word_truth;
use value_tree::coerce::FloatTask;
use value_tree::coerce::FromValue;
use value_tree::coerce::ONE_BITS;
use value_tree::error::ErrorKind;
use value_tree::error::Unexpected;
use value_tree::float::Float;
use value_tree::value::Table;
use value_tree::value::Value;

fn float(x: f64) -> Value {
    Value::from(Float::new(x.to_bits(), x.to_string()))
}

fn found_and_expected<T>(outcome: Result<T, value_tree::error::Error>) -> (Unexpected, &'static str) {
    match outcome {
        Err(e) => match e.kind {
            ErrorKind::Type { unexpected, expected } => (unexpected, expected),
            _ => panic!("another kind of error"),
        },
        Ok(_) => panic!("no error"),
    }
}

#[test]
fn primitives_come_back_unchanged() {
    for b in [true, false] {
        assert_eq!(bool::from_value(&Value::from(b)).unwrap(), b);
    }
    for v in [i8::MIN, -1, 0, 1, i8::MAX] {
        assert_eq!(i8::from_value(&Value::from(v)).unwrap(), v);
    }
    for v in [i16::MIN, -1, 0, 1, i16::MAX] {
        assert_eq!(i16::from_value(&Value::from(v)).unwrap(), v);
    }
    for v in [i32::MIN, -1, 0, 1, i32::MAX] {
        assert_eq!(i32::from_value(&Value::from(v)).unwrap(), v);
    }
    for v in [i64::MIN, -1, 0, 1, i64::MAX] {
        assert_eq!(i64::from_value(&Value::from(v)).unwrap(), v);
    }
    for v in [isize::MIN, -1, 0, 1, isize::MAX] {
        assert_eq!(isize::from_value(&Value::from(v)).unwrap(), v);
    }
    for v in [0, 1, u8::MAX] {
        assert_eq!(u8::from_value(&Value::from(v)).unwrap(), v);
    }
    for v in [0, 1, u16::MAX] {
        assert_eq!(u16::from_value(&Value::from(v)).unwrap(), v);
    }
    for v in [0, 1, u32::MAX] {
        assert_eq!(u32::from_value(&Value::from(v)).unwrap(), v);
    }
    for v in [0, 1, u64::MAX] {
        assert_eq!(u64::from_value(&Value::from(v)).unwrap(), v);
    }
    for v in [0, 1, usize::MAX] {
        assert_eq!(usize::from_value(&Value::from(v)).unwrap(), v);
    }
    for s in ["", "text", "caf\u{e9}", "TRUE"] {
        assert_eq!(String::from_value(&Value::from(s)).unwrap(), s);
        assert_eq!(String::from_value(&Value::from(s.to_string())).unwrap(), s);
    }
}

#[test]
fn integer_that_does_not_fit_is_a_range_error() {
    let cases: [(Value, i128); 4] = [
        (Value::from(128_i32), 128),
        (Value::from(-129_i32), -129),
        (Value::from(u64::MAX), u64::MAX as i128),
        (Value::from(i64::MIN), i64::MIN as i128),
    ];
    for (value, number) in cases {
        match i8::from_value(&value) {
            Err(e) => match e.kind {
                ErrorKind::Range(n) => assert_eq!(n, BigInt::from(number)),
                _ => panic!("another kind"),
            },
            Ok(_) => panic!("it fitted"),
        }
    }
    assert!(matches!(
        u8::from_value(&Value::from(-1_i32)).map_err(|e| e.kind),
        Err(ErrorKind::Range(_))
    ));
    assert!(matches!(
        u64::from_value(&Value::from(-1_i32)).map_err(|e| e.kind),
        Err(ErrorKind::Range(_))
    ));
    assert!(matches!(
        i64::from_value(&Value::from(u64::MAX)).map_err(|e| e.kind),
        Err(ErrorKind::Range(_))
    ));
    assert!(matches!(
        i64::from_value(&Value::Integer(BigInt::from(u64::MAX) * 4)).map_err(|e| e.kind),
        Err(ErrorKind::Range(_))
    ));
    assert_eq!(u64::from_value(&Value::from(u64::MAX)).unwrap(), u64::MAX);
    assert_eq!(i64::from_value(&Value::from(i64::MAX as u64)).unwrap(), i64::MAX);
}

#[test]
fn boolean_from_other_kinds() {
    assert!(bool::from_value(&Value::from(2_i32)).unwrap());
    assert!(bool::from_value(&Value::from(-1_i32)).unwrap());
    assert!(!bool::from_value(&Value::from(0_i32)).unwrap());
    assert!(bool::from_value(&float(0.5)).unwrap());
    assert!(!bool::from_value(&float(0.0)).unwrap());
    assert!(!bool::from_value(&float(-0.0)).unwrap());
    assert!(bool::from_value(&float(f64::NAN)).unwrap());
    assert!(bool::from_value(&float(f64::INFINITY)).unwrap());
    assert!(bool::from_value(&float(f64::MIN_POSITIVE / 4.0)).unwrap());
    for word in ["1", "true", "on", "yes", "TRUE", "On", "yEs"] {
        assert!(bool::from_value(&Value::from(word)).unwrap(), "{}", word);
    }
    for word in ["0", "false", "off", "no", "FALSE", "Off", "nO"] {
        assert!(!bool::from_value(&Value::from(word)).unwrap(), "{}", word);
    }
    let (found, expected) = found_and_expected(bool::from_value(&Value::from("Maybe")));
    assert_eq!(expected, "a boolean");
    assert!(matches!(found, Unexpected::Str(s) if s == "maybe"));
    let (found, expected) = found_and_expected(bool::from_value(&Value::Nil));
    assert_eq!(expected, "a boolean");
    assert!(matches!(found, Unexpected::Unit));
    let (found, _) = found_and_expected(bool::from_value(&Value::from(Table::new())));
    assert!(matches!(found, Unexpected::Table));
    let (found, _) = found_and_expected(bool::from_value(&Value::from(Vec::new())));
    assert!(matches!(found, Unexpected::Array));
}

#[test]
fn words_of_truth() {
    assert_eq!(word_truth("true"), Some(true));
    assert_eq!(word_truth("on"), Some(true));
    assert_eq!(word_truth("yes"), Some(true));
    assert_eq!(word_truth("false"), Some(false));
    assert_eq!(word_truth("off"), Some(false));
    assert_eq!(word_truth("no"), Some(false));
    assert_eq!(word_truth("1"), None);
    assert_eq!(word_truth("True"), None);
    assert_eq!(text_truth("1"), Some(true));
    assert_eq!(text_truth("0"), Some(false));
    assert_eq!(text_truth("yes"), Some(true));
    assert_eq!(text_truth("2"), None);
    assert!(matches!(bool_from_lowered("on".to_string()), Ok(true)));
    assert!(bool_from_lowered("ON".to_string()).is_err());
}

#[test]
fn integer_from_other_kinds() {
    assert_eq!(i32::from_value(&Value::from(true)).unwrap(), 1);
    assert_eq!(i32::from_value(&Value::from(false)).unwrap(), 0);
    assert_eq!(u8::from_value(&Value::from("Yes")).unwrap(), 1);
    assert_eq!(u8::from_value(&Value::from("OFF")).unwrap(), 0);
    assert_eq!(i32::from_value(&Value::from("42")).unwrap(), 42);
    assert_eq!(i32::from_value(&Value::from("-42")).unwrap(), -42);
    assert_eq!(i32::from_value(&Value::from("+42")).unwrap(), 42);
    assert_eq!(i32::from_value(&Value::from("007")).unwrap(), 7);
    assert_eq!(u32::from_value(&Value::from("+7")).unwrap(), 7);
    assert_eq!(i8::from_value(&Value::from("-128")).unwrap(), -128);
    assert_eq!(i8::from_value(&Value::from("127")).unwrap(), 127);
    assert_eq!(u64::from_value(&Value::from("18446744073709551615")).unwrap(), u64::MAX);
    assert_eq!(i64::from_value(&Value::from("-9223372036854775808")).unwrap(), i64::MIN);
    assert_eq!(i32::from_value(&Value::from("1")).unwrap(), 1);
    for text in [
        "", "-", "+", " 1", "1 ", "1.5", "0x10", "128", "-129", "--1", "+-1", "1e3", "\u{661}",
        "12a",
    ] {
        let (found, expected) = found_and_expected(i8::from_value(&Value::from(text)));
        assert_eq!(expected, "an integer");
        assert!(matches!(found, Unexpected::Str(s) if s == text), "{}", text);
        assert_eq!(text.parse::<i8>().ok(), None);
    }
    for text in ["-1", "-0", "256", "18446744073709551616"] {
        assert!(u8::from_value(&Value::from(text)).is_err(), "{}", text);
        assert!(text.parse::<u8>().is_err());
    }
    assert!(u64::from_value(&Value::from("18446744073709551616")).is_err());
    assert!(i64::from_value(&Value::from("9223372036854775808")).is_err());
    assert!(i64::from_value(&Value::from("-9223372036854775809")).is_err());
    let (found, expected) = found_and_expected(i32::from_value(&Value::Nil));
    assert_eq!(expected, "an integer");
    assert!(matches!(found, Unexpected::Unit));
}

#[test]
fn integer_from_text_agrees_with_the_standard_parser() {
    let texts = [
        "0", "-0", "+0", "00", "9", "10", "99", "127", "128", "-127", "-128", "-129", "255",
        "256", "+255", "65535", "65536", "-32768", "-32769", "32767", "32768", "2147483647",
        "2147483648", "-2147483648", "-2147483649", "4294967295", "4294967296",
        "9223372036854775807", "9223372036854775808", "-9223372036854775808",
        "-9223372036854775809", "18446744073709551615", "18446744073709551616",
        "000000000000000000000000000001", "99999999999999999999999999", "", "+", "-", "a", "1a",
        "a1", " 1", "1 ", "+ 1", "++1", "1+", "1-", "1_000", "\u{ff11}",
    ];
    for text in texts {
        assert_eq!(
            integer_from_text(text, i8::MIN as i128, i8::MAX as i128),
            text.parse::<i8>().ok().map(|v| v as i128),
            "{}",
            text
        );
        assert_eq!(
            integer_from_text(text, i16::MIN as i128, i16::MAX as i128),
            text.parse::<i16>().ok().map(|v| v as i128)
        );
        assert_eq!(
            integer_from_text(text, i32::MIN as i128, i32::MAX as i128),
            text.parse::<i32>().ok().map(|v| v as i128)
        );
        assert_eq!(
            integer_from_text(text, i64::MIN as i128, i64::MAX as i128),
            text.parse::<i64>().ok().map(|v| v as i128)
        );
        assert_eq!(
            integer_from_text(text, 0, u8::MAX as i128),
            text.parse::<u8>().ok().map(|v| v as i128),
            "{}",
            text
        );
        assert_eq!(
            integer_from_text(text, 0, u16::MAX as i128),
            text.parse::<u16>().ok().map(|v| v as i128)
        );
        assert_eq!(
            integer_from_text(text, 0, u32::MAX as i128),
            text.parse::<u32>().ok().map(|v| v as i128)
        );
        assert_eq!(
            integer_from_text(text, 0, u64::MAX as i128),
            text.parse::<u64>().ok().map(|v| v as i128),
            "{}",
            text
        );
    }
}

#[test]
fn float_is_rounded_to_the_nearest_integer() {
    assert_eq!(i32::from_value(&float(1.4)).unwrap(), 1);
    assert_eq!(i32::from_value(&float(1.5)).unwrap(), 2);
    assert_eq!(i32::from_value(&float(2.5)).unwrap(), 3);
    assert_eq!(i32::from_value(&float(-1.5)).unwrap(), -2);
    assert_eq!(i32::from_value(&float(-0.4)).unwrap(), 0);
    assert_eq!(u8::from_value(&float(-3.0)).unwrap(), 0);
    assert_eq!(u8::from_value(&float(300.0)).unwrap(), 255);
    assert_eq!(i8::from_value(&float(f64::NAN)).unwrap(), 0);
    assert_eq!(i8::from_value(&float(f64::INFINITY)).unwrap(), 127);
    assert_eq!(i8::from_value(&float(f64::NEG_INFINITY)).unwrap(), -128);
    let samples = [
        0.0, -0.0, 0.1, 0.49999999999999994, 0.5, 0.5000000000000001, 0.9, 1.0, 1.5, 2.5, 3.5,
        -0.5, -1.5, -2.5, 126.5, 127.4, 127.5, 128.0, -128.4, -128.5, -129.0, 254.5, 255.5,
        32767.5, -32768.5, 65535.49, 2147483647.0, 2147483647.5, 2147483648.0, -2147483648.5,
        4294967295.5, 4503599627370495.5, 4503599627370496.0, 4503599627370497.0,
        9007199254740991.0, 9007199254740992.0, 9007199254740993.0, 9223372036854775807.0,
        9223372036854774784.0, 9223372036854775808.0, -9223372036854775808.0,
        -9223372036854777856.0, 18446744073709549568.0, 18446744073709551615.0,
        18446744073709551616.0, 1e19, 1e20, 1e300, -1e300, f64::MAX, f64::MIN,
        f64::MIN_POSITIVE, f64::MIN_POSITIVE / 2.0, 5e-324, -5e-324, f64::EPSILON,
        f64::INFINITY, f64::NEG_INFINITY, f64::NAN, -f64::NAN,
    ];
    for x in samples {
        let value = float(x);
        assert_eq!(i8::from_value(&value).unwrap(), x.round() as i8, "{}", x);
        assert_eq!(i16::from_value(&value).unwrap(), x.round() as i16, "{}", x);
        assert_eq!(i32::from_value(&value).unwrap(), x.round() as i32, "{}", x);
        assert_eq!(i64::from_value(&value).unwrap(), x.round() as i64, "{}", x);
        assert_eq!(isize::from_value(&value).unwrap(), x.round() as isize, "{}", x);
        assert_eq!(u8::from_value(&value).unwrap(), x.round() as u8, "{}", x);
        assert_eq!(u16::from_value(&value).unwrap(), x.round() as u16, "{}", x);
        assert_eq!(u32::from_value(&value).unwrap(), x.round() as u32, "{}", x);
        assert_eq!(u64::from_value(&value).unwrap(), x.round() as u64, "{}", x);
        assert_eq!(usize::from_value(&value).unwrap(), x.round() as usize, "{}", x);
    }
    let mut bits: u64 = 0x9e3779b97f4a7c15;
    for _ in 0..20000 {
        bits ^= bits << 13;
        bits ^= bits >> 7;
        bits ^= bits << 17;
        let x = f64::from_bits(bits);
        let value = float(x);
        assert_eq!(i64::from_value(&value).unwrap(), x.round() as i64, "{:e}", x);
        assert_eq!(u64::from_value(&value).unwrap(), x.round() as u64, "{:e}", x);
        assert_eq!(i8::from_value(&value).unwrap(), x.round() as i8, "{:e}", x);
        let near = f64::from_bits((bits % (1 << 58)) + (0x3ff << 52) - (1 << 57));
        let value = float(near);
        assert_eq!(i64::from_value(&value).unwrap(), near.round() as i64, "{:e}", near);
        assert_eq!(u16::from_value(&value).unwrap(), near.round() as u16, "{:e}", near);
    }
}

#[test]
fn string_from_other_kinds() {
    assert_eq!(String::from_value(&Value::from(true)).unwrap(), "true");
    assert_eq!(String::from_value(&Value::from(false)).unwrap(), "false");
    assert_eq!(String::from_value(&Value::from(0_i32)).unwrap(), "0");
    assert_eq!(String::from_value(&Value::from(-120_i32)).unwrap(), "-120");
    assert_eq!(String::from_value(&Value::from(u64::MAX)).unwrap(), "18446744073709551615");
    assert_eq!(String::from_value(&float(1.5)).unwrap(), "1.5");
    let (found, expected) = found_and_expected(String::from_value(&Value::Nil));
    assert_eq!(expected, "a string");
    assert!(matches!(found, Unexpected::Unit));
    let (found, _) = found_and_expected(String::from_value(&Value::from(Table::new())));
    assert!(matches!(found, Unexpected::Table));
    let (found, _) = found_and_expected(String::from_value(&Value::from(Vec::new())));
    assert!(matches!(found, Unexpected::Array));
}

#[test]
fn containers_only_from_their_own_kind() {
    let items = Vec::<Value>::from_value(&Value::from(vec![Value::from(1_i32), Value::Nil]));
    assert_eq!(items.unwrap().len(), 2);
    let mut table = Table::new();
    table.insert("k".to_string(), Value::from(1_i32));
    let copy = Table::from_value(&Value::from(table)).unwrap();
    assert_eq!(copy.len(), 1);
    assert!(copy.contains_key("k"));
    let (found, expected) = found_and_expected(Vec::<Value>::from_value(&Value::from(7_i32)));
    assert_eq!(expected, "an array");
    assert!(matches!(found, Unexpected::Integer(n) if n == BigInt::from(7)));
    let (found, expected) = found_and_expected(Vec::<Value>::from_value(&float(0.5)));
    assert_eq!(expected, "an array");
    assert!(matches!(found, Unexpected::Float(f) if f.bits == 0.5_f64.to_bits()));
    let (found, _) = found_and_expected(Vec::<Value>::from_value(&Value::from("s")));
    assert!(matches!(found, Unexpected::Str(s) if s == "s"));
    let (found, _) = found_and_expected(Vec::<Value>::from_value(&Value::from(true)));
    assert!(matches!(found, Unexpected::Bool(true)));
    let (found, _) = found_and_expected(Vec::<Value>::from_value(&Value::Nil));
    assert!(matches!(found, Unexpected::Unit));
    let (found, _) = found_and_expected(Vec::<Value>::from_value(&Value::from(Table::new())));
    assert!(matches!(found, Unexpected::Table));
    let (found, expected) = found_and_expected(Table::from_value(&Value::from(Vec::new())));
    assert_eq!(expected, "a map");
    assert!(matches!(found, Unexpected::Array));
    let (found, _) = found_and_expected(Table::from_value(&Value::from(false)));
    assert!(matches!(found, Unexpected::Bool(false)));
}

#[test]
fn anything_can_be_taken_as_nothing() {
    for value in [Value::Nil, Value::from(1_i32), Value::from("s"), Value::from(Table::new())] {
        assert!(<()>::from_value(&value).is_ok());
    }
}

#[test]
fn option_and_default_make_nil() {
    assert!(matches!(Value::from(None), Value::Nil));
    assert!(matches!(Value::from(Some(Value::from(true))), Value::Boolean(true)));
    assert!(matches!(Value::default(), Value::Nil));
}

#[test]
fn float_is_planned_by_kind() {
    assert_eq!(ONE_BITS, 1.0_f64.to_bits());
    assert!(matches!(float_task(&float(2.5)), Ok(FloatTask::Bits(b)) if b == 2.5_f64.to_bits()));
    assert!(matches!(float_task(&Value::from(true)), Ok(FloatTask::Bits(ONE_BITS))));
    assert!(matches!(float_task(&Value::from(false)), Ok(FloatTask::Bits(0))));
    assert!(matches!(float_task(&Value::from("YES")), Ok(FloatTask::Bits(ONE_BITS))));
    assert!(matches!(float_task(&Value::from("off")), Ok(FloatTask::Bits(0))));
    assert!(matches!(float_task(&Value::from("1")), Ok(FloatTask::Text(s)) if s == "1"));
    assert!(matches!(float_task(&Value::from("1.5e3")), Ok(FloatTask::Text(s)) if s == "1.5e3"));
    assert!(matches!(
        float_task(&Value::from(-7_i32)),
        Ok(FloatTask::Integer(n)) if n == BigInt::from(-7)
    ));
    let (found, expected) = found_and_expected(float_task(&Value::Nil));
    assert_eq!(expected, "a floating point");
    assert!(matches!(found, Unexpected::Unit));
    let (found, _) = found_and_expected(float_task(&Value::from(Table::new())));
    assert!(matches!(found, Unexpected::Table));
    let (found, _) = found_and_expected(float_task(&Value::from(Vec::new())));
    assert!(matches!(found, Unexpected::Array));
    let (found, expected) = found_and_expected(Err::<(), _>(float_text_error("x".to_string())));
    assert_eq!(expected, "a floating point");
    assert!(matches!(found, Unexpected::Str(s) if s == "x"));
}
