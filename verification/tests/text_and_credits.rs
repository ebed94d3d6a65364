use rps_sim::count_text::parse_count;
use rps_sim::credits::{credit_entries, credit_entry, credit_title, dependency_version, read_credits, DependencySpec};

#[test]
fn parse_count_reads_signed_decimals() {
    assert_eq!(parse_count("42"), Some(42));
    assert_eq!(parse_count(" -7\n"), Some(-7));
    assert_eq!(parse_count("+15"), Some(15));
    assert_eq!(parse_count("007"), Some(7));
    assert_eq!(parse_count("\u{3000}9\u{a0}"), Some(9));
}

#[test]
fn parse_count_limits() {
    assert_eq!(parse_count("2147483647"), Some(i32::MAX));
    assert_eq!(parse_count("-2147483648"), Some(i32::MIN));
    assert_eq!(parse_count("2147483648"), None);
    assert_eq!(parse_count("-2147483649"), None);
    assert_eq!(parse_count("99999999999x"), None);
}

#[test]
fn parse_count_rejects_non_numbers() {
    for bad in ["", "   ", "+", "-", "1 2", "1a", "--1", "+-1", "٣", "1.0"] {
        assert_eq!(parse_count(bad), None, "{bad:?}");
        assert_eq!(parse_count(bad), bad.trim().parse::<i32>().ok());
    }
}

#[test]
fn parse_count_agrees_with_std() {
    for text in ["0", "-0", "+0", " 12 ", "\t-33", "300", "1x", "x1", " + 1"] {
        assert_eq!(parse_count(text), text.trim().parse::<i32>().ok(), "{text:?}");
    }
}

#[test]
fn dependency_versions() {
    assert_eq!(dependency_version(&DependencySpec::Simple("0.18".to_string())), "0.18");
    assert_eq!(dependency_version(&DependencySpec::Inherited), "None");
    assert_eq!(dependency_version(&DependencySpec::Detailed(None)), "None");
    assert_eq!(dependency_version(&DependencySpec::Detailed(Some("1".to_string()))), "1");
}

#[test]
fn entries_link_to_crates_io_unless_version_is_none() {
    let e = credit_entry(&"rand".to_string(), &DependencySpec::Simple("0.10".to_string()));
    assert_eq!(e.name, "rand");
    assert_eq!(e.version, "0.10");
    assert_eq!(e.link.as_deref(), Some("https://crates.io/crates/rand"));
    let e = credit_entry(&"local".to_string(), &DependencySpec::Detailed(None));
    assert_eq!(e.version, "None");
    assert_eq!(e.link, None);
    let e = credit_entry(&"odd".to_string(), &DependencySpec::Simple("None".to_string()));
    assert_eq!(e.link, None);
    let all = credit_entries(&vec![("a".to_string(), DependencySpec::Inherited), ("b".to_string(), DependencySpec::Simple("2".to_string()))]);
    assert_eq!(all.len(), 2);
    assert_eq!(all[1].link.as_deref(), Some("https://crates.io/crates/b"));
}

#[test]
fn titles() {
    assert_eq!(credit_title(&Some("0.3.1".to_string())), "rps_sim v0.3.1");
    assert_eq!(credit_title(&None), "rps_sim v?.?.?");
}

#[test]
fn credits_from_a_manifest() {
    let manifest = br#"
[package]
name = "rps_sim"
version = "1.2.3"
edition = "2024"

[dependencies]
rand = { version = "0.10", features = ["std"] }
bevy = "0.18"
local = { path = "../local" }
inh = { workspace = true }
"#;
    let credits = read_credits(manifest).unwrap();
    assert_eq!(credits.title, "rps_sim v1.2.3");
    let names: Vec<&str> = credits.entries.iter().map(|e| e.name.as_str()).collect();
    assert_eq!(names, vec!["bevy", "inh", "local", "rand"]);
    let versions: Vec<&str> = credits.entries.iter().map(|e| e.version.as_str()).collect();
    assert_eq!(versions, vec!["0.18", "None", "None", "0.10"]);
    assert_eq!(credits.entries[0].link.as_deref(), Some("https://crates.io/crates/bevy"));
    assert_eq!(credits.entries[1].link, None);
    assert_eq!(credits.entries[2].link, None);
    assert_eq!(credits.entries[3].link.as_deref(), Some("https://crates.io/crates/rand"));
}

#[test]
fn credits_with_inherited_version_and_without_package() {
    let inherited = b"[package]\nname = \"x\"\nversion.workspace = true\n";
    assert_eq!(read_credits(inherited).unwrap().title, "rps_sim v?.?.?");
    assert!(read_credits(b"[dependencies]\nrand = \"1\"\n").is_none());
    assert!(read_credits(b"this is = = not toml").is_none());
}
