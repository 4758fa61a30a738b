use dryer::digest::sha256;
use dryer::package::{
    package_content_hash, package_snapshot, portable_registry_uri, unstable_tree_message,
    valid_sha256, Dependency, PackageKind, PackageRef, PackageSnapshot, ReadVerdict,
    RegistrySource, RefParseError, SnapshotReads, REGISTRY_SOURCE_SCHEMA,
};

#[test]
fn refs_parse_and_display_round_trip() {
    let r = PackageRef::parse("boards/btt-octopus-pro@1.1.0").unwrap();
    assert_eq!(r.namespace, "boards");
    assert_eq!(r.name, "btt-octopus-pro");
    assert_eq!(r.version, semver::Version::new(1, 1, 0));
    assert_eq!(r.to_message(), "boards/btt-octopus-pro@1.1.0");
}

#[test]
fn bad_refs_are_rejected_with_reasons() {
    for bad in [
        "no-version",
        "no-namespace@1.0.0",
        "Boards/x@1.0.0",
        "boards/x@not-semver",
        "boards/X@1.0.0",
    ] {
        assert!(PackageRef::parse(bad).is_err(), "{bad} should fail");
    }
    assert_eq!(
        PackageRef::parse("no-version").unwrap_err(),
        RefParseError("'no-version' is missing '@version'".into())
    );
    assert_eq!(
        PackageRef::parse("no-namespace@1.0.0").unwrap_err(),
        RefParseError("'no-namespace@1.0.0' is missing 'namespace/'".into())
    );
    assert_eq!(
        PackageRef::parse("Boards/x@1.0.0").unwrap_err(),
        RefParseError("'Boards/x' must be lowercase identifiers 'namespace/name'".into())
    );
    let semver_error = PackageRef::parse("boards/x@not-semver").unwrap_err();
    assert!(semver_error.0.starts_with("'not-semver' is not semver: "));
    assert_eq!(
        RefParseError("x".into()).to_message(),
        "invalid package reference: x"
    );
}

#[test]
fn dependency_ranges_accept_both_spec_forms() {
    let caret = Dependency {
        version: "^1.0".into(),
    };
    assert!(caret
        .requirement()
        .unwrap()
        .matches(&semver::Version::new(1, 9, 3)));

    let window = Dependency {
        version: ">=2.0,<3.0".into(),
    };
    let req = window.requirement().unwrap();
    assert!(req.matches(&semver::Version::new(2, 5, 0)));
    assert!(!req.matches(&semver::Version::new(3, 0, 0)));
}

fn source(uri: &str) -> RegistrySource {
    RegistrySource {
        schema: REGISTRY_SOURCE_SCHEMA.into(),
        id: "dryer-official".into(),
        uri: uri.into(),
        descriptor_hash: sha256(b"schema: dryer.registry/v1\n"),
    }
}

#[test]
fn registry_sources_must_be_portable_and_pinned() {
    source("git+https://github.com/dmytro-yemelianov/dryer.git?subdir=packages")
        .validate()
        .unwrap();
    assert_eq!(
        source("file:///tmp/packages").validate().unwrap_err(),
        "registry source URI 'file:///tmp/packages' is not a portable absolute URI"
    );
    let mut bad_id = source("https://example.com/r");
    bad_id.id = "Invalid".into();
    assert_eq!(
        bad_id.validate().unwrap_err(),
        "registry source id 'Invalid' is not a valid identifier"
    );
    let mut bad_schema = source("https://example.com/r");
    bad_schema.schema = "x".into();
    assert_eq!(
        bad_schema.validate().unwrap_err(),
        "registry source schema 'x' is not 'dryer.registry-source/v1'"
    );
    let mut bad_hash = source("https://example.com/r");
    bad_hash.descriptor_hash = "sha256:ABC".into();
    assert_eq!(
        bad_hash.validate().unwrap_err(),
        "registry descriptor_hash is not a lowercase sha256 digest"
    );
}

#[test]
fn portable_uris_and_digest_labels() {
    assert!(portable_registry_uri("https://example.com/registry"));
    assert!(portable_registry_uri("git+ssh://host/repo"));
    assert!(!portable_registry_uri(""));
    assert!(!portable_registry_uri(" https://x"));
    assert!(!portable_registry_uri("https://x y"));
    assert!(!portable_registry_uri("https:\\\\x"));
    assert!(!portable_registry_uri("no-colon"));
    assert!(!portable_registry_uri("https:"));
    assert!(!portable_registry_uri("1http://x"));
    assert!(!portable_registry_uri("HTTP://x"));
    assert!(!portable_registry_uri("file:/x"));
    assert!(valid_sha256(&sha256(b"abc")));
    assert!(!valid_sha256("sha256:abc"));
    assert!(!valid_sha256(&sha256(b"abc").to_uppercase()));
    assert!(!valid_sha256(&sha256(b"abc").replace("sha256:", "md5:")));
    assert_eq!(PackageKind::Board, PackageKind::Board);
}

fn snapshot(files: &[(&str, &[u8])]) -> PackageSnapshot {
    PackageSnapshot::from_sorted_files(
        files.iter().map(|(p, b)| (p.to_string(), b.to_vec())).collect(),
    )
    .unwrap()
}

#[test]
fn content_hash_frames_every_path_and_byte() {
    let a = snapshot(&[
        ("README.md", b"documentation\n"),
        ("nested/data.bin", &[0, 1, 2, 3]),
        ("package.yaml", b"package: fixture\n"),
    ]);
    let mut expected = b"dryer-package-content-v1\0".to_vec();
    for (path, bytes) in [
        ("README.md", &b"documentation\n"[..]),
        ("nested/data.bin", &[0u8, 1, 2, 3][..]),
        ("package.yaml", &b"package: fixture\n"[..]),
    ] {
        expected.extend((path.len() as u64).to_be_bytes());
        expected.extend(path.as_bytes());
        expected.extend((bytes.len() as u64).to_be_bytes());
        expected.extend(bytes);
    }
    assert_eq!(a.content_preimage(), expected);
    assert_eq!(a.content_hash(), sha256(&expected));
    assert_eq!(a.manifest_bytes(), Some(&b"package: fixture\n"[..]));

    let b = snapshot(&[
        ("README.md", b"changed documentation\n"),
        ("nested/data.bin", &[0, 1, 2, 3]),
        ("package.yaml", b"package: fixture\n"),
    ]);
    assert_ne!(a.content_hash(), b.content_hash());
    assert!(snapshot(&[("README.md", b"x")]).manifest_bytes().is_none());
    assert!(PackageSnapshot::from_sorted_files(vec![
        ("b".to_string(), vec![]),
        ("a".to_string(), vec![])
    ])
    .is_none());
    assert!(PackageSnapshot::from_sorted_files(vec![
        ("a".to_string(), vec![]),
        ("a".to_string(), vec![])
    ])
    .is_none());
}

fn files(list: &[(&str, &[u8])]) -> Vec<(String, Vec<u8>)> {
    list.iter().map(|(p, b)| (p.to_string(), b.to_vec())).collect()
}

#[test]
fn content_hash_is_order_independent_and_covers_companion_files() {
    let first = files(&[
        ("package.yaml", b"package: fixture\n"),
        ("README.md", b"documentation\n"),
        ("nested/data.bin", &[0, 1, 2, 3]),
    ]);
    // Same paths and bytes, deliberately listed in a different order.
    let mut second = files(&[
        ("nested/data.bin", &[0, 1, 2, 3]),
        ("README.md", b"documentation\n"),
        ("package.yaml", b"package: fixture\n"),
    ]);

    let expected = package_content_hash(&first);
    assert_eq!(expected, package_content_hash(&second));
    assert!(expected.starts_with("sha256:"));

    second[1].1 = b"changed documentation\n".to_vec();
    assert_ne!(expected, package_content_hash(&second));
}

#[test]
fn snapshots_sort_paths_and_keep_the_last_bytes_of_a_path() {
    let listed = files(&[
        ("z.txt", b"z"),
        ("a/b.txt", b"first"),
        ("README.md", b"r"),
        ("a/b.txt", b"second"),
    ]);
    let snap = package_snapshot(&listed);
    let expected = snapshot(&[("README.md", b"r"), ("a/b.txt", b"second"), ("z.txt", b"z")]);
    assert_eq!(snap, expected);
    assert_eq!(snap.content_hash(), expected.content_hash());
    assert_eq!(package_snapshot(&Vec::new()), snapshot(&[]));
}

#[test]
fn snapshot_retries_an_intervening_same_length_manifest_rewrite() {
    let before = package_snapshot(&files(&[
        ("package.yaml", b"package: alpha\n"),
        ("README.md", b"stable\n"),
    ]));
    let rewritten = || {
        package_snapshot(&files(&[
            ("package.yaml", b"package: bravo\n"),
            ("README.md", b"stable\n"),
        ]))
    };

    // The first read saw the old manifest; the manifest is rewritten (same
    // length) before the verifying read, so a third read is needed.
    let mut reads = SnapshotReads::start(before.clone());
    assert!(matches!(reads.next_read(rewritten()), ReadVerdict::ReadAgain));
    let after = match reads.next_read(rewritten()) {
        ReadVerdict::Stable(snapshot) => snapshot,
        other => panic!("expected a stable snapshot, got {other:?}"),
    };

    assert_eq!(after.manifest_bytes().unwrap(), b"package: bravo\n");
    assert_ne!(before.content_hash(), after.content_hash());
}

#[test]
fn a_tree_that_never_settles_is_unstable_after_the_retries() {
    let version = |n: u8| package_snapshot(&files(&[("package.yaml", &[n])]));
    let mut reads = SnapshotReads::start(version(0));
    for n in 1..=3 {
        assert!(matches!(reads.next_read(version(n)), ReadVerdict::ReadAgain));
    }
    assert!(matches!(reads.next_read(version(4)), ReadVerdict::Unstable));
    assert_eq!(
        unstable_tree_message("packages/boards/x"),
        "package tree 'packages/boards/x' remained unstable after 3 verification retries"
    );
}
