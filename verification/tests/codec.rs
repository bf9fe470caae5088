use mataho::codec::{groups_to_json, load_groups, parse_groups};
use mataho::group::DeviceGroup;

fn codec_group(id: &str, name: &str, members: &[&str]) -> DeviceGroup {
    let devices: Vec<String> = members.iter().map(|m| m.to_string()).collect();
    DeviceGroup::from_parts(id.to_string(), name.to_string(), devices)
}

#[test]
fn empty_collection_serializes_to_empty_array() {
    let json = groups_to_json(&Vec::new());
    assert_eq!(json, "[]");
    let back = parse_groups(&json).expect("empty array parses");
    assert!(back.is_empty());
}

#[test]
fn serialized_form_is_exact() {
    let groups = vec![codec_group("g-1", "Upstairs", &["100", "200"])];
    let json = groups_to_json(&groups);
    assert_eq!(json, "[{\"id\":\"g-1\",\"name\":\"Upstairs\",\"devices\":[\"100\",\"200\"]}]");
}

#[test]
fn persistence_round_trip_preserves_structure() {
    let groups = vec![
        codec_group("g-1", "Upstairs", &["100", "200"]),
        codec_group("g-2", "Garage doors", &["300"]),
        codec_group("g-3", "Empty one", &[]),
    ];
    let json = groups_to_json(&groups);
    // A fresh load from the backing artifact alone.
    let reloaded = load_groups(Some(&json));
    assert_eq!(reloaded.len(), groups.len());
    for (before, after) in groups.iter().zip(reloaded.iter()) {
        assert_eq!(before.id(), after.id());
        assert_eq!(before.name(), after.name());
        assert_eq!(before.devices(), after.devices());
    }
}

#[test]
fn round_trip_preserves_special_characters() {
    let tricky = "a \"quoted\" name with \\ backslash and , comma []{}";
    let groups = vec![codec_group("g-1", tricky, &["id with \"quotes\""])];
    let json = groups_to_json(&groups);
    let reloaded = parse_groups(&json).expect("escaped content parses");
    assert_eq!(reloaded[0].name(), tricky);
    assert_eq!(reloaded[0].devices(), &vec!["id with \"quotes\"".to_string()]);
}

#[test]
fn serialized_form_is_readable_as_json() {
    let groups = vec![codec_group("g-1", "Up \"stairs\"", &["100"])];
    let json = groups_to_json(&groups);
    let value: serde_json::Value = serde_json::from_str(&json).expect("well-formed JSON");
    assert_eq!(value[0]["id"], "g-1");
    assert_eq!(value[0]["name"], "Up \"stairs\"");
    assert_eq!(value[0]["devices"][0], "100");
}

#[test]
fn parser_accepts_conventional_escapes() {
    let json = "[{\"id\":\"a\",\"name\":\"line\\nbreak\\ttab\\/slash\",\"devices\":[]}]";
    let groups = parse_groups(json).expect("escape codes decode");
    assert_eq!(groups[0].name(), "line\nbreak\ttab/slash");
}

#[test]
fn corrupt_content_degrades_to_empty_collection() {
    for corrupt in [
        "not a groups file",
        "{\"id\":\"a\"}",
        "[{\"id\":\"a\"}]",
        "[{\"id\":\"a\",\"name\":\"b\",\"devices\":[]}",
        "[{\"id\":\"a\",\"name\":\"b\",\"devices\":[]}] trailing",
        "[[]]",
        "",
    ] {
        assert!(parse_groups(corrupt).is_none(), "accepted: {corrupt}");
        assert!(load_groups(Some(corrupt)).is_empty(), "did not degrade: {corrupt}");
    }
}

#[test]
fn missing_store_loads_as_empty_collection() {
    assert!(load_groups(None).is_empty());
}

#[test]
fn valid_content_loads_as_is() {
    let json = "[{\"id\":\"a\",\"name\":\"b\",\"devices\":[\"x\",\"y\"]},{\"id\":\"c\",\"name\":\"d\",\"devices\":[]}]";
    let groups = load_groups(Some(json));
    assert_eq!(groups.len(), 2);
    assert_eq!(groups[0].name(), "b");
    assert_eq!(groups[0].devices(), &vec!["x".to_string(), "y".to_string()]);
    assert_eq!(groups[1].id(), "c");
    assert!(groups[1].devices().is_empty());
}
