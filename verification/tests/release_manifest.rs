use edgepacer::release_manifest::{
    build_manifest, checksums, parse_release_artifact_name, public_key_hex, release_assets,
    release_tag_of, sign_asset, signing_key_from_hex, Manifest, ManifestAsset, ReleaseFile,
};

const SEED: &str = "9d61b19deffd5a60ba844af492ec2cc44449c5697b326919703bac031cae7f60";

fn asset(name: &str, binary: &str, platform: &str) -> ManifestAsset {
    ManifestAsset {
        name: name.to_string(),
        binary: binary.to_string(),
        platform: platform.to_string(),
        download_url: format!("https://example.test/{name}"),
        sha256: "abc123".to_string(),
        signature: "def456".to_string(),
        sigstore_bundle_url: format!("https://example.test/{name}.sigstore.json"),
    }
}

#[test]
fn parses_release_artifact_names() {
    assert_eq!(
        parse_release_artifact_name("edgepacer-linux-amd64"),
        Some(("edgepacer".to_string(), "linux-amd64".to_string()))
    );
    assert_eq!(
        parse_release_artifact_name("edgepacer-manager-windows-amd64.exe"),
        Some(("edgepacer-manager".to_string(), "windows-amd64".to_string()))
    );
    assert_eq!(parse_release_artifact_name("edgepacer-linux-amd64.sha256"), None);
    assert_eq!(parse_release_artifact_name("edgepacer-linux-amd64.sigstore.json"), None);
    assert_eq!(parse_release_artifact_name("checksums.txt"), None);
}

#[test]
fn checksums_use_release_file_names() {
    let manifest = Manifest {
        version: "1.2.3".to_string(),
        release_tag: "v1.2.3".to_string(),
        repository: "LogPacer/edgepacer".to_string(),
        signature_algorithm: "Ed25519",
        signature_context: "context",
        release_public_key: "public-key".to_string(),
        assets: vec![asset("edgepacer-linux-amd64", "edgepacer", "linux-amd64")],
    };

    assert_eq!(checksums(&manifest), "abc123  edgepacer-linux-amd64\n");
}

#[test]
fn assets_are_found_and_hashed() {
    let files = vec![
        ReleaseFile { name: "notes.txt".into(), content: vec![] },
        ReleaseFile { name: "edgepacer-linux-amd64".into(), content: b"abc".to_vec() },
    ];
    let assets = release_assets(&files, "v1", "LogPacer/edgepacer").unwrap();
    assert_eq!(assets.len(), 1);
    assert_eq!(assets[0].platform, "linux-amd64");
    assert_eq!(
        assets[0].sha256,
        "ba7816bf8f01cfea414140de5dae2223b00361a396177a9cb410ff61f20015ad"
    );
    assert_eq!(
        assets[0].sigstore_bundle_url,
        "https://github.com/LogPacer/edgepacer/releases/download/v1/edgepacer-linux-amd64.sigstore.json"
    );
    assert_eq!(assets[0].signature, "");
    assert!(release_assets(&Vec::new(), "v1", "r").is_none());
}

#[test]
fn seeds_are_sixty_four_digits() {
    assert_eq!(signing_key_from_hex(&format!(" {SEED}\n")).unwrap().len(), 32);
    assert!(signing_key_from_hex(&SEED[1..]).is_none());
    assert!(signing_key_from_hex(&SEED.replace('9', "g")).is_none());
    assert!(signing_key_from_hex("").is_none());
}

#[test]
fn signatures_are_those_of_ed25519() {
    let seed = signing_key_from_hex(SEED).unwrap();
    assert_eq!(
        public_key_hex(&seed),
        "d75a980182b10ab7d54bfed3c964073a0ee172f3daa62325af021a68f707511a"
    );
    let signed = sign_asset(asset("edgepacer-x", "edgepacer", "x"), &seed, "");
    assert_eq!(
        signed.signature,
        "e5564300c360ac729086e2cc806e828a84877f1eb8e5d974d873e065224901555fb8821590a33bacc61e39701cf9b46bd25bf5f0595bbe24655141438e7a100b"
    );
    assert_eq!(signed.name, "edgepacer-x");
}

#[test]
fn manifests_are_sorted() {
    let seed = signing_key_from_hex(SEED).unwrap();
    let manifest = build_manifest(
        "1".into(),
        release_tag_of("1", None),
        "r".into(),
        "context",
        &seed,
        vec![
            asset("edgepacer-manager-linux", "edgepacer-manager", "linux"),
            asset("edgepacer-windows.exe", "edgepacer", "windows"),
            asset("edgepacer-linux", "edgepacer", "linux"),
        ],
    );
    let names: Vec<&str> = manifest.assets.iter().map(|a| a.name.as_str()).collect();
    assert_eq!(names, vec!["edgepacer-linux", "edgepacer-windows.exe", "edgepacer-manager-linux"]);
    assert_eq!(manifest.release_tag, "v1");
    assert_eq!(release_tag_of("1", Some("nightly")), "nightly");
    assert_eq!(manifest.signature_algorithm, "Ed25519");
}

#[test]
fn assets_that_sort_alike_keep_their_order() {
    let seed = signing_key_from_hex(SEED).unwrap();
    let digest = |name: &str, sha256: &str| ManifestAsset {
        sha256: sha256.to_string(),
        ..asset(name, "edgepacer", "linux")
    };
    let manifest = build_manifest(
        "1".into(),
        "v1".into(),
        "r".into(),
        "context",
        &seed,
        vec![digest("b", "3"), digest("a", "2"), digest("b", "1"), digest("a", "4")],
    );
    let digests: Vec<&str> = manifest.assets.iter().map(|a| a.sha256.as_str()).collect();
    assert_eq!(digests, vec!["2", "4", "3", "1"]);
}
