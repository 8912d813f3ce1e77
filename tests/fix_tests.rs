use hft_engine::fix::{format_fix_message, parse_fix_message};

fn lookup<'a>(fields: &'a [(String, String)], tag: &str) -> Option<&'a String> {
    fields.iter().find(|(t, _)| t == tag).map(|(_, v)| v)
}

#[test]
fn test_fix_message_formatting_parsing() {
    let fields = vec![
        ("8".to_string(), "FIX.4.2".to_string()),
        ("35".to_string(), "A".to_string()),
        ("49".to_string(), "SenderCompID".to_string()),
        ("56".to_string(), "TargetCompID".to_string()),
    ];

    let fix_message = format_fix_message(&fields);
    let parsed_fields = parse_fix_message(&fix_message);

    assert_eq!(fields.len(), parsed_fields.len());
    for (tag, value) in &fields {
        assert_eq!(lookup(&parsed_fields, tag).unwrap(), value);
    }
}

#[test]
fn fix_format_writes_fields_in_order() {
    let fields = vec![("1".to_string(), "a".to_string()), ("2".to_string(), "b".to_string())];
    assert_eq!(format_fix_message(&fields), "1=a|2=b|");
    assert_eq!(format_fix_message(&Vec::new()), "");
}

#[test]
fn fix_parse_later_tag_wins_and_skips_parts_without_equals() {
    let parsed = parse_fix_message("a=1|junk|b=2|a=3|c=x=y");
    assert_eq!(
        parsed,
        vec![
            ("a".to_string(), "3".to_string()),
            ("b".to_string(), "2".to_string()),
            ("c".to_string(), "x=y".to_string()),
        ]
    );
}

#[test]
fn fix_parse_empty_message_has_no_fields() {
    assert!(parse_fix_message("").is_empty());
    assert_eq!(parse_fix_message("=|"), vec![(String::new(), String::new())]);
}
