use rds_discovery::Config;
use rds_discovery::ConfigError;
use rds_discovery::parse_tag_filters;
use rds_discovery::resolve_config;

#[test]
fn parses_one_entry() {
    let r = parse_tag_filters("[{\"key\":\"project\",\"value\":\"foo\"}]").unwrap();
    assert_eq!(r.len(), 1);
    assert_eq!(r[0].key, "project");
    assert_eq!(r[0].value, "foo");
}

#[test]
fn parses_several_entries_with_whitespace() {
    let text = " [ { \"key\" : \"a\" , \"value\" : \"1\" } ,\n\t{ \"value\" : \"2\" , \"key\" : \"b\" } ] ";
    let r = parse_tag_filters(text).unwrap();
    assert_eq!(r.len(), 2);
    assert_eq!(r[0].key, "a");
    assert_eq!(r[0].value, "1");
    assert_eq!(r[1].key, "b");
    assert_eq!(r[1].value, "2");
}

#[test]
fn decodes_string_escapes() {
    let r = parse_tag_filters(
        "[{\"key\":\"a\\n\\t\\\"q\\\\\\/\",\"value\":\"\\u0041\\u00e9\"}]",
    )
    .unwrap();
    assert_eq!(r[0].key, "a\n\t\"q\\/");
    assert_eq!(r[0].value, "A\u{e9}");
}

#[test]
fn decodes_surrogate_pairs() {
    let r = parse_tag_filters("[{\"key\":\"\\uD83D\\uDE00\",\"value\":\"x\"}]").unwrap();
    assert_eq!(r[0].key, "\u{1F600}");
}

#[test]
fn rejects_lone_surrogate() {
    let r = parse_tag_filters("[{\"key\":\"\\uD83D\",\"value\":\"x\"}]");
    assert_eq!(r.unwrap_err(), ConfigError::MalformedFilter);
}

#[test]
fn rejects_malformed_payloads() {
    let cases = [
        "",
        "{\"key\":\"a\",\"value\":\"b\"}",
        "[{\"key\":\"a\",\"value\":\"b\"}",
        "[{\"key\":\"a\"}]",
        "[{\"key\":\"a\",\"value\":\"b\",\"extra\":\"c\"}]",
        "[{\"name\":\"a\",\"value\":\"b\"}]",
        "[{\"key\":\"a\",\"value\":1}]",
        "[{\"key\":\"a\",\"value\":\"b\"}] trailing",
        "[{\"key\":\"a\",\"value\":\"b\"},]",
        "[{\"key\":\"a\",\"value\":\"b\\x\"}]",
        "[{\"key\":\"a\",\"value\":\"b]",
    ];
    for c in cases {
        assert_eq!(parse_tag_filters(c).unwrap_err(), ConfigError::MalformedFilter);
    }
}

#[test]
fn rejects_unescaped_control_character() {
    let text = "[{\"key\":\"a\u{1}b\",\"value\":\"c\"}]";
    assert_eq!(parse_tag_filters(text).unwrap_err(), ConfigError::MalformedFilter);
}

#[test]
fn rejects_empty_filter_list() {
    assert_eq!(parse_tag_filters("[]").unwrap_err(), ConfigError::EmptyFilter);
    assert_eq!(parse_tag_filters(" [ ] ").unwrap_err(), ConfigError::EmptyFilter);
}

#[test]
fn rejects_blank_key_or_value() {
    assert_eq!(
        parse_tag_filters("[{\"key\":\"\",\"value\":\"b\"}]").unwrap_err(),
        ConfigError::BlankFilterField
    );
    assert_eq!(
        parse_tag_filters("[{\"key\":\"a\",\"value\":\"\"}]").unwrap_err(),
        ConfigError::BlankFilterField
    );
}

#[test]
fn agrees_with_a_reference_json_parser() {
    // Everything this parser accepts, a general JSON parser reads the same way.
    let accepted = [
        "[{\"key\":\"project\",\"value\":\"foo\"}]",
        " [ { \"key\" : \"a\\u0042\" , \"value\" : \"\\uD83D\\uDE00\" } ] ",
    ];
    for text in accepted {
        let ours = parse_tag_filters(text).unwrap();
        let reference: serde_json::Value = serde_json::from_str(text).unwrap();
        let arr = reference.as_array().unwrap();
        assert_eq!(ours.len(), arr.len());
        for (entry, v) in ours.iter().zip(arr.iter()) {
            assert_eq!(entry.key, v.get("key").unwrap().as_str().unwrap());
            assert_eq!(entry.value, v.get("value").unwrap().as_str().unwrap());
        }
    }
}

#[test]
fn unknown_region_is_fatal() {
    let r = resolve_config("not-a-region", "role-arn", None);
    assert_eq!(r.unwrap_err(), ConfigError::UnknownRegion);
}

#[test]
fn empty_role_is_fatal() {
    let r = resolve_config("eu-west-1", "", None);
    assert_eq!(r.unwrap_err(), ConfigError::EmptyRole);
}

#[test]
fn config_without_tags_selects_everything() {
    let c: Config = resolve_config("eu-west-1", "role-arn", None).unwrap();
    assert_eq!(c.region, "eu-west-1");
    assert_eq!(c.role, "role-arn");
    assert!(c.filter.is_none());
}

#[test]
fn config_with_tags_carries_the_parsed_filter() {
    let c = resolve_config(
        "eu-west-1",
        "role-arn",
        Some("[{\"key\":\"env\",\"value\":\"prod\"}]"),
    )
    .unwrap();
    let f = c.filter.unwrap();
    assert_eq!(f.len(), 1);
    assert_eq!(f[0].key, "env");
    assert_eq!(f[0].value, "prod");
}

#[test]
fn config_with_bad_tags_is_fatal() {
    let r = resolve_config("eu-west-1", "role-arn", Some("not json"));
    assert_eq!(r.unwrap_err(), ConfigError::MalformedFilter);
}
