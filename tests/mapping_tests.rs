use uncpath::mapping::first_match;
use uncpath::{MappingTable, MountMapping, UncPathError};

#[test]
fn test_add_mapping() {
    let mut table = MappingTable::new();
    table.add_mapping("host1", "share1", "/mnt/test");
    assert_eq!(table.find_mount_point("host1", "share1"), Some("/mnt/test"));
}

#[test]
fn test_case_insensitive_lookup() {
    let mut table = MappingTable::new();
    table.add_mapping("Host1", "Share1", "/mnt/test");
    assert_eq!(table.find_mount_point("host1", "share1"), Some("/mnt/test"));
    assert_eq!(table.find_mount_point("HOST1", "SHARE1"), Some("/mnt/test"));
}

#[test]
fn test_add_from_cli() {
    let mut table = MappingTable::new();
    table.add_from_cli("host1:share1:/mnt/test").unwrap();
    assert_eq!(table.find_mount_point("host1", "share1"), Some("/mnt/test"));
}

#[test]
fn test_add_from_cli_invalid() {
    let mut table = MappingTable::new();
    let result = table.add_from_cli("invalid:format");
    assert!(result.is_err());
}

fn pair(a: &str, b: &str) -> (String, String) {
    (a.to_string(), b.to_string())
}

#[test]
fn first_match_finds_earliest_equal_pair() {
    let keys = vec![pair("a", "b"), pair("c", "d"), pair("c", "d")];
    assert_eq!(first_match(&keys, &"c".to_string(), &"d".to_string()), Some(1));
    assert_eq!(first_match(&keys, &"a".to_string(), &"b".to_string()), Some(0));
    assert_eq!(first_match(&keys, &"a".to_string(), &"d".to_string()), None);
    assert_eq!(first_match(&keys, &"C".to_string(), &"d".to_string()), None);
    assert_eq!(first_match(&Vec::new(), &"a".to_string(), &"b".to_string()), None);
}

#[test]
fn lookup_ignores_case_on_host_and_share() {
    let mut table = MappingTable::new();
    table.add_mapping("Server", "Shared", "/mnt/shared");
    assert_eq!(table.find_mount_point("SERVER", "SHARED"), Some("/mnt/shared"));
    assert_eq!(table.find_mount_point("server", "shared"), Some("/mnt/shared"));
    assert_eq!(table.find_mount_point("server", "other"), None);
    assert_eq!(table.find_mount_point("other", "shared"), None);
}

#[test]
fn empty_table_finds_nothing() {
    let table = MappingTable::new();
    assert_eq!(table.find_mount_point("server", "shared"), None);
    assert!(table.get_mappings().is_empty());
    let table = MappingTable::default();
    assert!(table.get_mappings().is_empty());
}

#[test]
fn first_loaded_source_wins() {
    let mut table = MappingTable::new();
    table.add_mapping("host", "share", "/from/a");
    table.add_from_cli("HOST:SHARE:/from/b").unwrap();
    table.add_mapping("other", "share", "/from/b2");
    assert_eq!(table.find_mount_point("host", "share"), Some("/from/a"));
    assert_eq!(table.find_mount_point("other", "share"), Some("/from/b2"));
    assert_eq!(table.get_mappings().len(), 3);
}

#[test]
fn defaults_are_listed_in_order() {
    let table = MappingTable::with_defaults();
    let m = table.get_mappings();
    assert_eq!(m.len(), 2);
    assert_eq!((m[0].host.as_str(), m[0].share.as_str(), m[0].mount_point.as_str()), ("server", "shared", "/mnt/shared"));
    assert_eq!((m[1].host.as_str(), m[1].share.as_str(), m[1].mount_point.as_str()), ("nas", "data", "/mnt/nas"));
}

#[test]
fn cli_mapping_with_wrong_part_count_registers_nothing() {
    let mut table = MappingTable::new();
    for bad in ["", "a", "a:b", "a:b:c:d", "a:b:C:/x", ":::"] {
        match table.add_from_cli(bad) {
            Err(UncPathError::InvalidMapping(m)) => {
                assert_eq!(m, format!("Expected format: host:share:mount_point, got: {}", bad))
            }
            other => panic!("expected InvalidMapping for {:?}, got {:?}", bad, other),
        }
    }
    assert!(table.get_mappings().is_empty());
}

#[test]
fn cli_mapping_keeps_empty_fields() {
    let mut table = MappingTable::new();
    table.add_from_cli("::").unwrap();
    table.add_from_cli("h:s:").unwrap();
    let m = table.get_mappings();
    assert_eq!(m.len(), 2);
    assert_eq!(m[0].host, "");
    assert_eq!(m[1].mount_point, "");
}

#[test]
fn extend_appends_in_order() {
    let mut table = MappingTable::with_defaults();
    table.extend_mappings(vec![
        MountMapping { host: "server".into(), share: "shared".into(), mount_point: "/elsewhere".into() },
        MountMapping { host: "t".into(), share: "u".into(), mount_point: "/t".into() },
    ]);
    assert_eq!(table.get_mappings().len(), 4);
    assert_eq!(table.find_mount_point("server", "shared"), Some("/mnt/shared"));
    assert_eq!(table.find_mount_point("T", "U"), Some("/t"));
}

#[test]
fn config_source_error_message() {
    let e = UncPathError::ConfigSource("bad json".to_string());
    assert_eq!(e.message(), "bad json");
    let e = UncPathError::InvalidMapping("x".to_string());
    assert_eq!(e.message(), "x");
}
