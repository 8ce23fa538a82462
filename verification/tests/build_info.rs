use salmon_watch::build_info::{format_description, full_description, BuildIdentity};

#[test]
fn description_contains_release_identity_and_provenance() {
    assert_eq!(
        format_description(
            "2.0.0",
            "0123456789abcdef",
            "2026-09-12T10:20:30Z",
            "make",
            "x86_64-unknown-linux-gnu",
        ),
        r#"Salmon Watch 2.0.0
Commit: 0123456789abcdef
Build time: 2026-09-12T10:20:30Z
Built by: make
Target: x86_64-unknown-linux-gnu

Written by Dmitry Frank (https://dmitryfrank.com)
"#
    );
}

#[test]
fn full_description_describes_the_given_identity() {
    let identity = BuildIdentity {
        version: "dev".into(),
        commit: "none".into(),
        date: "unknown".into(),
        built_by: "cargo".into(),
        target: "host".into(),
    };
    assert_eq!(
        full_description(&identity),
        format_description("dev", "none", "unknown", "cargo", "host")
    );
}
