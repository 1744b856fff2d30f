use pyfmu_wrapper::config::{
    bytes_eq, descriptor_file_name, format_decimal, join_path, parse_slave_configuration,
};

#[test]
fn descriptor_parses() {
    let text = br#"{"slave_script": "adder.py", "slave_class": "Adder"}"#.to_vec();
    let config = parse_slave_configuration(&text).unwrap();
    assert_eq!(config.slave_script, b"adder.py".to_vec());
    assert_eq!(config.slave_class, b"Adder".to_vec());
}

#[test]
fn descriptor_members_may_come_in_either_order() {
    let text = br#"  { "slave_class" :"Adder",  "slave_script":"adder.py" }  "#.to_vec();
    let config = parse_slave_configuration(&text).unwrap();
    assert_eq!(config.slave_script, b"adder.py".to_vec());
    assert_eq!(config.slave_class, b"Adder".to_vec());
}

#[test]
fn descriptor_accepts_newlines_and_tabs() {
    let text = b"{\n\t\"slave_script\": \"bicycle.py\",\n\t\"slave_class\": \"BicycleKinematic\"\n}\n"
        .to_vec();
    let config = parse_slave_configuration(&text).unwrap();
    assert_eq!(config.slave_script, b"bicycle.py".to_vec());
    assert_eq!(config.slave_class, b"BicycleKinematic".to_vec());
}

#[test]
fn malformed_descriptors_are_rejected() {
    // No braces.
    assert!(parse_slave_configuration(&b"\"slave_script\": \"a\"".to_vec()).is_none());
    // A missing member.
    assert!(parse_slave_configuration(&br#"{"slave_script": "a.py"}"#.to_vec()).is_none());
    // A wrong key.
    assert!(parse_slave_configuration(
        &br#"{"slave_script": "a.py", "slave_code": "A"}"#.to_vec()
    )
    .is_none());
    // Trailing content after the object.
    assert!(parse_slave_configuration(
        &br#"{"slave_script": "a.py", "slave_class": "A"} x"#.to_vec()
    )
    .is_none());
    // An unterminated string.
    assert!(parse_slave_configuration(
        &br#"{"slave_script": "a.py, "slave_class": "A"}"#.to_vec()
    )
    .is_none());
    // An escape sequence is outside the descriptor grammar.
    assert!(parse_slave_configuration(
        &br#"{"slave_script": "a\n.py", "slave_class": "A"}"#.to_vec()
    )
    .is_none());
    // The empty file.
    assert!(parse_slave_configuration(&Vec::new()).is_none());
}

#[test]
fn decimal_formatting_is_exact() {
    assert_eq!(format_decimal(0), b"0".to_vec());
    assert_eq!(format_decimal(7), b"7".to_vec());
    assert_eq!(format_decimal(10), b"10".to_vec());
    assert_eq!(format_decimal(54200), b"54200".to_vec());
    assert_eq!(format_decimal(65535), b"65535".to_vec());
}

#[test]
fn paths_join_with_one_separator() {
    let joined = join_path(&b"/tmp/resources".to_vec(), &descriptor_file_name());
    assert_eq!(joined, b"/tmp/resources/slave_configuration.json".to_vec());
}

#[test]
fn byte_string_comparison() {
    assert!(bytes_eq(&b"abc".to_vec(), &b"abc".to_vec()));
    assert!(!bytes_eq(&b"abc".to_vec(), &b"abd".to_vec()));
    assert!(!bytes_eq(&b"abc".to_vec(), &b"ab".to_vec()));
    assert!(bytes_eq(&Vec::new(), &Vec::new()));
}

#[test]
fn unknown_members_are_ignored() {
    let text = br#"{"slave_script": "adder.py", "author": "someone", "slave_class": "Adder"}"#
        .to_vec();
    let config = parse_slave_configuration(&text).unwrap();
    assert_eq!(config.slave_script, b"adder.py".to_vec());
    assert_eq!(config.slave_class, b"Adder".to_vec());
    // Unknown members may even repeat.
    let text =
        br#"{"x": "1", "slave_class": "Adder", "x": "2", "slave_script": "adder.py"}"#.to_vec();
    let config = parse_slave_configuration(&text).unwrap();
    assert_eq!(config.slave_script, b"adder.py".to_vec());
    assert_eq!(config.slave_class, b"Adder".to_vec());
}

#[test]
fn duplicate_named_members_are_rejected() {
    let text = br#"{"slave_script": "a.py", "slave_script": "b.py", "slave_class": "A"}"#.to_vec();
    assert!(parse_slave_configuration(&text).is_none());
    let text = br#"{"slave_script": "a.py", "slave_class": "A", "slave_class": "B"}"#.to_vec();
    assert!(parse_slave_configuration(&text).is_none());
}

#[test]
fn non_string_member_values_are_outside_the_grammar() {
    // The descriptor grammar is deliberately tighter than full JSON: every
    // member value must be a plain string.
    let text = br#"{"slave_script": "a.py", "slave_class": "A", "version": 3}"#.to_vec();
    assert!(parse_slave_configuration(&text).is_none());
}
