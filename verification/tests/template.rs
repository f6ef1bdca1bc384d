use regex::Regex;
use vectorctl::semver::semver_ok;
use vectorctl::template::{
    filename_ok, iso_date_ok, plain_word_ok, revision_id_ok, BuilderError,
    DEFAULT_PACKAGE_NAME, DEFAULT_RUST_EDITION, DEFAULT_VERSION,
};
use vectorctl::MigrationTemplate;

const SEMVER: &str = r"^(0|[1-9]\d*)\.(0|[1-9]\d*)\.(0|[1-9]\d*)(?:-((?:0|[1-9]\d*|\d*[a-zA-Z-][0-9a-zA-Z-]*)(?:\.(?:0|[1-9]\d*|\d*[a-zA-Z-][0-9a-zA-Z-]*))*))?(?:\+([0-9a-zA-Z-]+(?:\.[0-9a-zA-Z-]+)*))?$";

/// Every text over the alphabet, up to the given length.
fn texts(alphabet: &[char], longest: usize) -> Vec<String> {
    let mut all = vec![String::new()];
    let mut last = vec![String::new()];
    for _ in 0..longest {
        let mut next = Vec::with_capacity(last.len() * alphabet.len());
        for text in &last {
            for c in alphabet {
                let mut longer = text.clone();
                longer.push(*c);
                next.push(longer);
            }
        }
        all.extend(next.iter().cloned());
        last = next;
    }
    all
}

#[test]
fn semantic_versions_are_told_from_other_texts() {
    let valid = [
        "0.0.4",
        "1.2.3",
        "10.20.30",
        "1.1.2-prerelease+meta",
        "1.1.2+meta",
        "1.1.2+meta-valid",
        "1.0.0-alpha",
        "1.0.0-alpha.beta.1",
        "1.0.0-alpha0.valid",
        "1.0.0-alpha.0valid",
        "1.0.0-alpha-a.b-c-somethinglong+build.1-aef.1-its-okay",
        "1.0.0-rc.1+build.1",
        "10.2.3-DEV-SNAPSHOT",
        "1.2.3-SNAPSHOT-123",
        "2.0.0+build.1848",
        "1.0.0-alpha+beta",
        "1.2.3----RC-SNAPSHOT.12.9.1--.12+788",
        "1.2.3----R-S.12.9.1--.12+meta",
        "1.0.0+0.build.1-rc.10000aaa-kk-0.1",
        "99999999999999999999999.999999999999999999.99999999999999999",
        "1.0.0-0A.is.legal",
        "1.0.0-0",
        "1.0.0--",
        "1.0.0+001",
    ];
    let invalid = [
        "",
        "1",
        "1.2",
        "1.2.3-0123",
        "1.2.3-0123.0123",
        "1.1.2+.123",
        "+invalid",
        "-invalid",
        "-invalid+invalid",
        "alpha",
        "alpha.beta.1",
        "alpha_beta",
        "1.0.0-alpha_beta",
        "1.0.0-alpha..",
        "1.0.0-alpha..1",
        "01.1.1",
        "1.01.1",
        "1.1.01",
        "1.2.3.DEV",
        "1.2-SNAPSHOT",
        "1.2.31.2.3----RC-SNAPSHOT.12.09.1--..12+788",
        "-1.0.3-gamma+b7718",
        "+justmeta",
        "9.8.7+meta+meta",
        "9.8.7-whatever+meta+meta",
        "1.2.3-",
        "1.2.3+",
        "1.2.3-a+",
        "1.2.3 ",
        " 1.2.3",
        "1.2.3\n",
        "1..3",
        ".1.2.3",
        "1.2.3.",
        "v1.2.3",
        "1.2.3-\u{e9}",
    ];
    for text in valid {
        assert!(semver_ok(text), "{:?} is a version", text);
    }
    for text in invalid {
        assert!(!semver_ok(text), "{:?} is no version", text);
    }
}

#[test]
fn semantic_versions_are_what_the_pattern_matches() {
    let pattern = Regex::new(SEMVER).unwrap();
    for text in texts(&['0', '1', 'a', '-', '+', '.'], 7) {
        assert_eq!(semver_ok(&text), pattern.is_match(&text), "{:?}", text);
    }
    for tail in texts(&['0', '2', 'Z', '-', '+', '.', '_'], 5) {
        let text = format!("1.0.10{}", tail);
        assert_eq!(semver_ok(&text), pattern.is_match(&text), "{:?}", text);
    }
}

#[test]
fn names_and_identifiers_are_what_their_patterns_match() {
    let filename = Regex::new(r"^[a-zA-Z][a-zA-Z0-9_]*$").unwrap();
    let revision_id = Regex::new(r"^[A-Za-z0-9_-]+$").unwrap();
    let plain = Regex::new(r"^[a-zA-Z0-9_]+$").unwrap();
    for text in texts(&['a', 'Z', '0', '9', '_', '-', '.', ' ', '@', '[', '`', '{', '/', ':'], 4) {
        assert_eq!(filename_ok(&text), filename.is_match(&text), "{:?}", text);
        assert_eq!(revision_id_ok(&text), revision_id.is_match(&text), "{:?}", text);
        assert_eq!(plain_word_ok(&text), plain.is_match(&text), "{:?}", text);
    }
}

#[test]
fn dates_are_what_the_pattern_matches_on_ascii() {
    let date = Regex::new(r"^[0-9]{4}-[0-9]{2}-[0-9]{2}(?:[ T][0-9]{2}:[0-9]{2}:[0-9]{2})?$").unwrap();
    let good = "2025-05-22T14:59:10";
    let replacements = ['0', '9', '-', ':', 'T', ' ', 'a', '/', '.'];
    for cut in [0usize, 1, 9, 10, 11, 18, 19] {
        let base: String = good.chars().take(cut).collect();
        assert_eq!(iso_date_ok(&base), date.is_match(&base), "{:?}", base);
    }
    for length in [10usize, 19] {
        let base: Vec<char> = good.chars().take(length).collect();
        for at in 0..length {
            for c in replacements {
                let mut changed = base.clone();
                changed[at] = c;
                let text: String = changed.into_iter().collect();
                assert_eq!(iso_date_ok(&text), date.is_match(&text), "{:?}", text);
            }
        }
    }
    for extra in replacements {
        let text = format!("{}{}", good, extra);
        assert!(!iso_date_ok(&text));
        let text = format!("{}{}", &good[..10], extra);
        assert!(!iso_date_ok(&text));
    }
}

#[test]
fn a_migration_template_has_defaults() {
    let template = MigrationTemplate::builder().build().expect("the defaults meet the rules");
    assert_eq!(template.rust_edition, "2021");
    assert_eq!(template.package_name, "migration");
    assert_eq!(template.version, DEFAULT_VERSION);
    assert_eq!(DEFAULT_RUST_EDITION, "2021");
    assert_eq!(DEFAULT_PACKAGE_NAME, "migration");
    assert!(semver_ok(DEFAULT_VERSION));
}

#[test]
fn a_migration_template_names_its_first_fault() {
    let mut builder = MigrationTemplate::builder();
    builder.version("1.0").package_name("my-package").rust_edition("20 21");
    assert_eq!(builder.validate(), Err("Invalid version: 1.0".to_string()));
    builder.version("1.0.0-rc.1");
    assert_eq!(builder.validate(), Err("Invalid package_name: my-package".to_string()));
    builder.package_name("pkg");
    assert_eq!(builder.validate(), Err("Invalid rust edition: 20 21".to_string()));
    match builder.build() {
        Err(BuilderError::ValidationError(message)) => {
            assert_eq!(message, "Invalid rust edition: 20 21")
        }
        other => panic!("unexpected result {:?}", other),
    }
    builder.rust_edition("2024");
    let template = builder.build().expect("the values meet the rules");
    assert_eq!(template.version, "1.0.0-rc.1");
    assert_eq!(template.package_name, "pkg");
    assert_eq!(template.rust_edition, "2024");
}
