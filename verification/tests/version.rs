use cloudflare_dyndns::version::version_information;

const NAME: &str = "cloudflare-dyndns";

#[test]
fn test_version_information() {
    let info = version_information(NAME, "0.1.0", None);
    let lines: Vec<&str> = info.lines().collect();
    assert_eq!(lines.len(), 3);
    assert!(lines[0].contains(NAME));
    assert!(lines[1].contains("Version:"));
    assert!(lines[2].contains("Commit:"));
}

#[test]
fn version_information_cuts_the_commit() {
    let info = version_information(NAME, "1.2.3", Some("0123456789abcdef"));
    assert_eq!(info, "cloudflare-dyndns:\n    Version: v1.2.3\n    Commit: 0123456");
    let info = version_information(NAME, "1.2.3", None);
    assert!(info.ends_with("Commit: unknown"));
}
