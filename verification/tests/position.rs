use ns2_stat::helpers::format_with;
use ns2_stat::position::position_fields;

fn parse(json: &str) -> Option<(f32, f32, f32)> {
    let text: String = serde_json::from_str(json).ok()?;
    let fields = position_fields(&text)?;
    Some((fields[0].parse().ok()?, fields[1].parse().ok()?, fields[2].parse().ok()?))
}

fn write(position: (f32, f32, f32)) -> String {
    let text = format_with(&vec![position.0, position.1, position.2], " ", |x: &f32| x.to_string()).text();
    serde_json::to_string(&text).unwrap()
}

#[test]
fn input_types_position_deserialize() {
    assert_eq!(parse("\"1.0 -1.0 0.1\"").expect("Failed to parse position"), (1.0, -1.0, 0.1));
    assert!(parse("\"1.0 -1.0\"").is_none());
}

#[test]
fn position_serialize() {
    assert_eq!(&*write((1.0, -1.0, 0.1)), "\"1 -1 0.1\"");
}

#[test]
fn types_position_deserialize() {
    assert!(parse("\"1.0 -1.0 0.1\"").is_some());
}

#[test]
fn a_position_has_three_fields() {
    let fields = position_fields("1.0 -1.0 0.1").unwrap();
    assert_eq!(fields, ["1.0".to_string(), "-1.0".to_string(), "0.1".to_string()]);
    assert_eq!(position_fields("  ").unwrap(), [String::new(), String::new(), String::new()]);
    assert_eq!(
        position_fields("é ü ").unwrap(),
        ["é".to_string(), "ü".to_string(), String::new()]
    );
    assert_eq!(position_fields(""), None);
    assert_eq!(position_fields("1 2"), None);
    assert_eq!(position_fields("1 2 3 4"), None);
    assert_eq!(position_fields("1  2 3"), None);
    assert_eq!(position_fields("1\t2\t3"), None);
}
