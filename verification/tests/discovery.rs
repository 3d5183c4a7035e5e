use rds_discovery::DbInstance;
use rds_discovery::DiscoveryData;
use rds_discovery::DiscoveryEntry;
use rds_discovery::DiscoveryError;
use rds_discovery::Endpoint;
use rds_discovery::Tag;
use rds_discovery::TagFilter;
use rds_discovery::discover_instances;
use rds_discovery::project_instance;
use rds_discovery::render_document;
use rds_discovery::tags_match;

fn instance(id: &str, addr: &str, port: i64, arn: &str) -> DbInstance {
    DbInstance {
        db_instance_identifier: Some(id.to_string()),
        db_instance_arn: Some(arn.to_string()),
        endpoint: Some(Endpoint { address: Some(addr.to_string()), port: Some(port) }),
    }
}

fn tag(key: &str, value: &str) -> Tag {
    Tag { key: Some(key.to_string()), value: Some(value.to_string()) }
}

fn filter(key: &str, value: &str) -> TagFilter {
    TagFilter { key: key.to_string(), value: value.to_string() }
}

#[test]
fn all_instances_projected_in_order() {
    let instances = vec![
        instance("db1", "db1.example.com", 5432, "arn:1"),
        instance("db2", "db2.example.com", 3306, "arn:2"),
        instance("db3", "db3.example.com", 1521, "arn:3"),
    ];
    let tag_sets: Vec<Vec<Tag>> = Vec::new();
    let r = discover_instances(&instances, &tag_sets, &None).unwrap();
    assert_eq!(r.len(), 3);
    assert_eq!(r[0].db_instance_identifier, "db1");
    assert_eq!(r[0].address, "db1.example.com");
    assert_eq!(r[0].port, 5432);
    assert_eq!(r[1].db_instance_identifier, "db2");
    assert_eq!(r[1].address, "db2.example.com");
    assert_eq!(r[1].port, 3306);
    assert_eq!(r[2].db_instance_identifier, "db3");
    assert_eq!(r[2].address, "db3.example.com");
    assert_eq!(r[2].port, 1521);
}

#[test]
fn matching_instance_included_exactly_once() {
    // Both filter entries match the instance; it must still appear once.
    let instances = vec![instance("db1", "db1.example.com", 5432, "arn:1")];
    let tag_sets = vec![vec![tag("project", "foo"), tag("env", "prod")]];
    let filters = Some(vec![filter("project", "foo"), filter("env", "prod")]);
    let r = discover_instances(&instances, &tag_sets, &filters).unwrap();
    assert_eq!(r.len(), 1);
    assert_eq!(r[0].db_instance_identifier, "db1");
}

#[test]
fn one_matching_pair_is_enough() {
    let instances = vec![instance("db1", "db1.example.com", 5432, "arn:1")];
    let tag_sets = vec![vec![tag("project", "foo")]];
    let filters = Some(vec![filter("team", "blue"), filter("project", "foo")]);
    let r = discover_instances(&instances, &tag_sets, &filters).unwrap();
    assert_eq!(r.len(), 1);
}

#[test]
fn non_matching_instance_excluded() {
    let instances = vec![instance("db1", "db1.example.com", 5432, "arn:1")];
    let tag_sets = vec![vec![tag("project", "foo")]];
    let filters = Some(vec![filter("project", "bar")]);
    let r = discover_instances(&instances, &tag_sets, &filters).unwrap();
    assert_eq!(r.len(), 0);
}

#[test]
fn key_and_value_must_both_match() {
    let tags = vec![tag("project", "foo"), tag("env", "prod")];
    assert!(tags_match(&tags, &vec![filter("project", "foo")]));
    assert!(!tags_match(&tags, &vec![filter("project", "prod")]));
    assert!(!tags_match(&tags, &vec![filter("env", "foo")]));
    assert!(!tags_match(&tags, &vec![filter("missing", "foo")]));
}

#[test]
fn tag_with_absent_parts_never_matches() {
    let tags = vec![
        Tag { key: Some("project".to_string()), value: None },
        Tag { key: None, value: Some("foo".to_string()) },
    ];
    assert!(!tags_match(&tags, &vec![filter("project", "foo")]));
}

#[test]
fn fail_fast_on_gap_mid_pass_yields_no_partial_result() {
    // The second of three matching instances misses its endpoint: the whole
    // pass fails even though the first had already matched.
    let broken = DbInstance {
        db_instance_identifier: Some("db2".to_string()),
        db_instance_arn: Some("arn:2".to_string()),
        endpoint: None,
    };
    let instances = vec![
        instance("db1", "db1.example.com", 5432, "arn:1"),
        broken,
        instance("db3", "db3.example.com", 5432, "arn:3"),
    ];
    let tag_sets = vec![
        vec![tag("env", "prod")],
        vec![tag("env", "prod")],
        vec![tag("env", "prod")],
    ];
    let filters = Some(vec![filter("env", "prod")]);
    let r = discover_instances(&instances, &tag_sets, &filters);
    assert_eq!(r, Err(DiscoveryError::MissingEndpoint));
}

#[test]
fn missing_fields_reported_in_projection_order() {
    let no_id = DbInstance {
        db_instance_identifier: None,
        db_instance_arn: Some("arn".to_string()),
        endpoint: Some(Endpoint { address: None, port: None }),
    };
    assert_eq!(project_instance(&no_id), Err(DiscoveryError::MissingIdentifier));
    let no_addr = DbInstance {
        db_instance_identifier: Some("db".to_string()),
        db_instance_arn: None,
        endpoint: Some(Endpoint { address: None, port: Some(1) }),
    };
    assert_eq!(project_instance(&no_addr), Err(DiscoveryError::MissingAddress));
    let no_port = DbInstance {
        db_instance_identifier: Some("db".to_string()),
        db_instance_arn: None,
        endpoint: Some(Endpoint { address: Some("a".to_string()), port: None }),
    };
    assert_eq!(project_instance(&no_port), Err(DiscoveryError::MissingPort));
}

#[test]
fn empty_enumeration_renders_empty_document() {
    let instances: Vec<DbInstance> = Vec::new();
    let tag_sets: Vec<Vec<Tag>> = Vec::new();
    let data = discover_instances(&instances, &tag_sets, &None).unwrap();
    assert_eq!(data.len(), 0);
    let doc = render_document(&DiscoveryData { data });
    assert_eq!(doc, "{\n  \"data\": []\n}");
    let v: serde_json::Value = serde_json::from_str(&doc).unwrap();
    assert_eq!(v.get("data").unwrap().as_array().unwrap().len(), 0);
}

#[test]
fn rendered_document_uses_the_literal_field_keys() {
    let data = vec![DiscoveryEntry {
        db_instance_identifier: "db1".to_string(),
        address: "db1.example.com".to_string(),
        port: 5432,
    }];
    let doc = render_document(&DiscoveryData { data });
    let expected = "{\n  \"data\": [\n    {\n      \"{#DB}\": \"db1\",\n      \"{#DB_ENDPOINT}\": \"db1.example.com\",\n      \"{#DB_PORT}\": 5432\n    }\n  ]\n}";
    assert_eq!(doc, expected);
    let v: serde_json::Value = serde_json::from_str(&doc).unwrap();
    let entry = &v.get("data").unwrap().as_array().unwrap()[0];
    assert_eq!(entry.get("{#DB}").unwrap().as_str().unwrap(), "db1");
    assert_eq!(entry.get("{#DB_ENDPOINT}").unwrap().as_str().unwrap(), "db1.example.com");
    assert_eq!(entry.get("{#DB_PORT}").unwrap().as_i64().unwrap(), 5432);
}

#[test]
fn rendered_strings_are_json_escaped() {
    let data = vec![DiscoveryEntry {
        db_instance_identifier: "d\"b\\1\n".to_string(),
        address: "addr\u{1}end".to_string(),
        port: -7,
    }];
    let doc = render_document(&DiscoveryData { data });
    let v: serde_json::Value = serde_json::from_str(&doc).unwrap();
    let entry = &v.get("data").unwrap().as_array().unwrap()[0];
    assert_eq!(entry.get("{#DB}").unwrap().as_str().unwrap(), "d\"b\\1\n");
    assert_eq!(entry.get("{#DB_ENDPOINT}").unwrap().as_str().unwrap(), "addr\u{1}end");
    assert_eq!(entry.get("{#DB_PORT}").unwrap().as_i64().unwrap(), -7);
    assert!(doc.contains("\\\"b\\\\1\\n"));
    assert!(doc.contains("addr\\u0001end"));
    assert!(doc.contains("-7"));
}

#[test]
fn several_entries_are_joined_with_commas() {
    let data = vec![
        DiscoveryEntry {
            db_instance_identifier: "a".to_string(),
            address: "a.example.com".to_string(),
            port: 1,
        },
        DiscoveryEntry {
            db_instance_identifier: "b".to_string(),
            address: "b.example.com".to_string(),
            port: 22,
        },
    ];
    let doc = render_document(&DiscoveryData { data });
    let v: serde_json::Value = serde_json::from_str(&doc).unwrap();
    let entries = v.get("data").unwrap().as_array().unwrap();
    assert_eq!(entries.len(), 2);
    assert_eq!(entries[0].get("{#DB}").unwrap().as_str().unwrap(), "a");
    assert_eq!(entries[1].get("{#DB}").unwrap().as_str().unwrap(), "b");
    assert_eq!(entries[1].get("{#DB_PORT}").unwrap().as_i64().unwrap(), 22);
}

#[test]
fn scenario_two_instances_one_match() {
    // Two instances; only the one tagged env:prod is discovered.
    let instances = vec![
        instance("db1", "db1.example.com", 5432, "arn:a"),
        instance("db2", "db2.example.com", 5432, "arn:b"),
    ];
    let tag_sets = vec![vec![tag("env", "prod")], vec![tag("env", "dev")]];
    let filters = Some(vec![filter("env", "prod")]);
    let data = discover_instances(&instances, &tag_sets, &filters).unwrap();
    let doc = render_document(&DiscoveryData { data });
    let got: serde_json::Value = serde_json::from_str(&doc).unwrap();
    let expected: serde_json::Value = serde_json::from_str(
        "{\"data\":[{\"{#DB}\":\"db1\",\"{#DB_ENDPOINT}\":\"db1.example.com\",\"{#DB_PORT}\":5432}]}",
    )
    .unwrap();
    assert_eq!(got, expected);
}
