use lib::display::format_rt_value;
use lib::evaluator::RtValue;

#[test]
fn renders_scalars_and_unit() {
    assert_eq!(format_rt_value(&RtValue::Int(-5)), "-5");
    assert_eq!(format_rt_value(&RtValue::Bool(false)), "false");
    assert_eq!(format_rt_value(&RtValue::Str("a\"b".to_string())), "\"a\\\"b\"");
    assert_eq!(format_rt_value(&RtValue::Unit), "()");
}

#[test]
fn renders_tuples_and_arrays() {
    let t = RtValue::Tuple(vec![RtValue::Int(1), RtValue::Str("a".to_string())]);
    assert_eq!(format_rt_value(&t), "(1, \"a\")");
    assert_eq!(format_rt_value(&RtValue::Array(vec![])), "[]");
    let a = RtValue::Array(vec![RtValue::Int(1), RtValue::Int(2), RtValue::Int(3)]);
    assert_eq!(format_rt_value(&a), "[1, 2, 3]");
    let one = RtValue::Tuple(vec![RtValue::Bool(true)]);
    assert_eq!(format_rt_value(&one), "(true)");
}

#[test]
fn renders_perhaps_and_result() {
    assert_eq!(format_rt_value(&RtValue::Perhaps(Some(Box::new(RtValue::Bool(true))))), "Some(true)");
    assert_eq!(format_rt_value(&RtValue::Perhaps(None)), "None");
    assert_eq!(format_rt_value(&RtValue::ResultOk(Box::new(RtValue::Int(7)))), "Ok(7)");
    assert_eq!(format_rt_value(&RtValue::ResultErr(Box::new(RtValue::Str("x".to_string())))), "Err(\"x\")");
}

#[test]
fn renders_enum_values_with_sorted_fields() {
    let plain = RtValue::Enum { name: "Color".to_string(), variant: "Red".to_string(), fields: vec![] };
    assert_eq!(format_rt_value(&plain), "Color::Red");
    let circle = RtValue::Enum {
        name: "Shape".to_string(),
        variant: "Circle".to_string(),
        fields: vec![
            ("r".to_string(), RtValue::Int(2)),
            ("c".to_string(), RtValue::Int(1)),
            ("cx".to_string(), RtValue::Array(vec![RtValue::Int(0)])),
        ],
    };
    assert_eq!(format_rt_value(&circle), "Shape::Circle{ c: 1, cx: [0], r: 2 }");
}
