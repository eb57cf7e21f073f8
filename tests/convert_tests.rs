use uncpath::convert::{convert_trimmed, parse_trimmed};
use uncpath::{convert_to_posix, parse_unc_path, MappingTable, UncPath, UncPathError};

#[test]
fn test_parse_windows_unc() {
    let result = parse_unc_path(r"\\server\share\folder\file.txt").unwrap();
    assert_eq!(result.host, "server");
    assert_eq!(result.share, "share");
    assert_eq!(result.path, "/folder/file.txt");
}

#[test]
fn test_parse_windows_unc_no_path() {
    let result = parse_unc_path(r"\\server\share").unwrap();
    assert_eq!(result.host, "server");
    assert_eq!(result.share, "share");
    assert_eq!(result.path, "");
}

#[test]
fn test_parse_smb_url() {
    let result = parse_unc_path("smb://server/share/folder/file.txt").unwrap();
    assert_eq!(result.host, "server");
    assert_eq!(result.share, "share");
    assert_eq!(result.path, "/folder/file.txt");
}

#[test]
fn test_parse_unix_style() {
    let result = parse_unc_path("//server/share/folder/file.txt").unwrap();
    assert_eq!(result.host, "server");
    assert_eq!(result.share, "share");
    assert_eq!(result.path, "/folder/file.txt");
}

#[test]
fn test_parse_invalid_format() {
    let result = parse_unc_path("/server/share/path");
    assert!(result.is_err());
}

#[test]
fn test_convert_to_posix() {
    let mut table = MappingTable::new();
    table.add_mapping("server", "shared", "/mnt/shared");

    let result = convert_to_posix(r"\\server\shared\folder\file.txt", &table).unwrap();
    assert_eq!(result, "/mnt/shared/folder/file.txt");
}

#[test]
fn test_convert_smb_to_posix() {
    let mut table = MappingTable::new();
    table.add_mapping("nas", "data", "/mnt/nas");

    let result = convert_to_posix("smb://nas/data/documents/report.pdf", &table).unwrap();
    assert_eq!(result, "/mnt/nas/documents/report.pdf");
}

#[test]
fn test_convert_no_mapping() {
    let table = MappingTable::new();
    let result = convert_to_posix(r"\\unknown\share\path", &table);
    assert!(result.is_err());
}

#[test]
fn test_convert_root_path() {
    let mut table = MappingTable::new();
    table.add_mapping("server", "shared", "/mnt/shared");

    let result = convert_to_posix(r"\\server\shared", &table).unwrap();
    assert_eq!(result, "/mnt/shared");
}

fn invalid_message(r: Result<UncPath, UncPathError>) -> String {
    match r {
        Err(UncPathError::InvalidFormat(m)) => m,
        other => panic!("expected InvalidFormat, got {:?}", other),
    }
}

#[test]
fn parse_keeps_case_of_tokens() {
    let r = parse_unc_path(r"\\SeRvEr\ShArE\A\b").unwrap();
    assert_eq!(r, UncPath::new("SeRvEr".to_string(), "ShArE".to_string(), "/A/b".to_string()));
    let r = parse_unc_path("smb://NAS/Data/X").unwrap();
    assert_eq!(r, UncPath::new("NAS".to_string(), "Data".to_string(), "/X".to_string()));
    let r = parse_unc_path("//Host/Share").unwrap();
    assert_eq!(r, UncPath::new("Host".to_string(), "Share".to_string(), String::new()));
}

#[test]
fn parse_is_repeatable() {
    let a = parse_unc_path(r"\\h\s\p\q");
    let b = parse_unc_path(r"\\h\s\p\q");
    assert_eq!(a.unwrap(), b.unwrap());
    let a = invalid_message(parse_unc_path("nope"));
    let b = invalid_message(parse_unc_path("nope"));
    assert_eq!(a, b);
}

#[test]
fn parse_trims_surrounding_whitespace() {
    let r = parse_unc_path("  \t//host/share/x \n").unwrap();
    assert_eq!(r, UncPath::new("host".to_string(), "share".to_string(), "/x".to_string()));
}

#[test]
fn parse_trimmed_does_not_trim() {
    let m = invalid_message(parse_trimmed(" //host/share"));
    assert_eq!(m, "Path does not match any supported UNC format:  //host/share");
}

#[test]
fn parse_error_messages_name_the_notation() {
    assert_eq!(
        invalid_message(parse_unc_path(r"\\server")),
        r"Invalid Windows UNC format: \\server"
    );
    assert_eq!(
        invalid_message(parse_unc_path("smb://server/")),
        "Invalid SMB URL format: smb://server/"
    );
    assert_eq!(
        invalid_message(parse_unc_path("//server")),
        "Invalid Unix-style UNC format: //server"
    );
    assert_eq!(
        invalid_message(parse_unc_path("/single/slash/path")),
        "Path does not match any supported UNC format: /single/slash/path"
    );
}

#[test]
fn parse_rejects_empty_host_or_share() {
    assert!(parse_unc_path(r"\\\share\x").is_err());
    assert!(parse_unc_path(r"\\host\\x").is_err());
    assert!(parse_unc_path("smb:///share").is_err());
    assert!(parse_unc_path("///share/x").is_err());
    assert!(parse_unc_path("").is_err());
}

#[test]
fn smb_prefix_wins_over_unix_check() {
    let r = parse_unc_path("smb://a/b/c").unwrap();
    assert_eq!(r.host, "a");
    let r = parse_unc_path("//smb:/b").unwrap();
    assert_eq!(r.host, "smb:");
    assert_eq!(r.share, "b");
}

#[test]
fn windows_rest_has_forward_slashes() {
    let r = parse_unc_path(r"\\h\s\a/b\c").unwrap();
    assert_eq!(r.path, "/a/b/c");
    let r = parse_unc_path("//h/s/a\\b").unwrap();
    assert_eq!(r.path, "/a\\b");
}

#[test]
fn three_notations_convert_alike() {
    let mut table = MappingTable::new();
    table.add_mapping("host", "share", "/mnt/x");
    let expected = "/mnt/x/path/to/file";
    assert_eq!(convert_to_posix(r"\\host\share\path\to\file", &table).unwrap(), expected);
    assert_eq!(convert_to_posix("smb://host/share/path/to/file", &table).unwrap(), expected);
    assert_eq!(convert_to_posix("//host/share/path/to/file", &table).unwrap(), expected);
}

#[test]
fn root_reference_gives_mount_point() {
    let mut table = MappingTable::new();
    table.add_mapping("server", "shared", "/mnt/shared");
    assert_eq!(convert_to_posix("//server/shared", &table).unwrap(), "/mnt/shared");
    assert_eq!(convert_to_posix("//server/shared/", &table).unwrap(), "/mnt/shared");
    assert_eq!(convert_to_posix(r"\\server\shared\", &table).unwrap(), "/mnt/shared");
}

#[test]
fn trailing_slash_of_mount_point_is_dropped_once() {
    let mut table = MappingTable::new();
    table.add_mapping("h", "s", "/mnt/x/");
    table.add_mapping("r", "s", "/");
    assert_eq!(convert_to_posix("//h/s/f", &table).unwrap(), "/mnt/x/f");
    assert_eq!(convert_to_posix("//h/s", &table).unwrap(), "/mnt/x/");
    assert_eq!(convert_to_posix("//r/s/f", &table).unwrap(), "/f");
}

#[test]
fn convert_is_case_insensitive() {
    let mut table = MappingTable::new();
    table.add_mapping("Server", "Shared", "/mnt/shared");
    assert_eq!(convert_to_posix(r"\\SERVER\SHARED\file.txt", &table).unwrap(), "/mnt/shared/file.txt");
    assert_eq!(convert_to_posix("//server/shared/file.txt", &table).unwrap(), "/mnt/shared/file.txt");
}

#[test]
fn unmatched_reference_is_mapping_not_found() {
    let table = MappingTable::with_defaults();
    match convert_to_posix(r"\\unknown\Share\path", &table) {
        Err(UncPathError::MappingNotFound(h, s)) => {
            assert_eq!(h, "unknown");
            assert_eq!(s, "Share");
        }
        other => panic!("expected MappingNotFound, got {:?}", other),
    }
    match convert_to_posix("//server/other", &table) {
        Err(e) => assert_eq!(e.message(), "No mapping found for host/share: server/other"),
        Ok(p) => panic!("unexpected {}", p),
    }
}

#[test]
fn convert_passes_parse_errors_through() {
    let table = MappingTable::with_defaults();
    match convert_to_posix("C:/files", &table) {
        Err(UncPathError::InvalidFormat(m)) => {
            assert_eq!(m, "Path does not match any supported UNC format: C:/files")
        }
        other => panic!("expected InvalidFormat, got {:?}", other),
    }
}

#[test]
fn convert_trimmed_resolves_defaults() {
    let table = MappingTable::with_defaults();
    assert_eq!(convert_trimmed("smb://nas/data/folder/file.doc", &table).unwrap(), "/mnt/nas/folder/file.doc");
    assert_eq!(convert_trimmed("//nas/data/report.pdf", &table).unwrap(), "/mnt/nas/report.pdf");
    assert!(convert_trimmed(" //nas/data/report.pdf", &table).is_err());
}
