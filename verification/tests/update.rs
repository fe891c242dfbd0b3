use task_slayer::update::{
    approve_update,
    check_download_size, find_asset, same_text, to_hex_lower, verify_asset, verify_digest,
    GitHubAsset, UpdateError, MAX_BINARY_SIZE,
};

const ABC_SHA256: &str = "ba7816bf8f01cfea414140de5dae2223b00361a396177a9cb410ff61f20015ad";

fn asset(name: &str, url: &str) -> GitHubAsset {
    GitHubAsset { name: name.into(), browser_download_url: url.into(), digest: String::new() }
}

#[test]
fn digest_with_prefix_matches() {
    assert!(verify_digest(b"abc", &format!("sha256:{ABC_SHA256}")).is_ok());
}

#[test]
fn digest_without_prefix_matches() {
    assert!(verify_digest(b"abc", ABC_SHA256).is_ok());
}

#[test]
fn digest_mismatch_names_both() {
    match verify_digest(b"abd", &format!("sha256:{ABC_SHA256}")) {
        Err(UpdateError::DigestMismatch { expected, actual }) => {
            assert_eq!(expected, ABC_SHA256);
            assert_ne!(actual, ABC_SHA256);
            assert_eq!(actual.len(), 64);
        }
        other => panic!("unexpected {:?}", other),
    }
}

#[test]
fn digest_of_empty_input() {
    assert!(verify_digest(
        b"",
        "sha256:e3b0c44298fc1c149afbf4c8996fb92427ae41e4649b934ca495991b7852b855"
    )
    .is_ok());
}

#[test]
fn missing_digest_is_refused() {
    assert!(matches!(verify_asset(b"abc", ""), Err(UpdateError::MissingDigest)));
    assert!(verify_asset(b"abc", ABC_SHA256).is_ok());
}

#[test]
fn hex_is_lower_case() {
    assert_eq!(to_hex_lower(&[0x00, 0xab, 0x0f, 0xf0]), "00ab0ff0");
}

#[test]
fn size_cap() {
    assert!(check_download_size(MAX_BINARY_SIZE as usize).is_ok());
    assert!(matches!(
        check_download_size(MAX_BINARY_SIZE as usize + 1),
        Err(UpdateError::TooLarge)
    ));
}

#[test]
fn first_asset_with_the_name_is_found() {
    let assets = vec![asset("tslay.sig", "a"), asset("tslay", "b"), asset("tslay", "c")];
    assert_eq!(find_asset(&assets, "tslay").unwrap().browser_download_url, "b");
    assert!(find_asset(&assets, "other").is_none());
}

#[test]
fn text_comparison() {
    assert!(same_text("abc", "abc"));
    assert!(!same_text("abc", "abd"));
    assert!(!same_text("ab", "abc"));
}

fn signed(name: &str, digest: &str) -> GitHubAsset {
    GitHubAsset { name: name.into(), browser_download_url: String::new(), digest: digest.into() }
}

#[test]
fn update_is_approved_when_every_check_passes() {
    let assets = vec![signed("tslay.sig", ""), signed("tslay", &format!("sha256:{ABC_SHA256}"))];
    assert!(approve_update(&assets, b"abc").is_ok());
}

#[test]
fn update_without_the_asset_is_refused() {
    let assets = vec![signed("other", ABC_SHA256)];
    assert!(matches!(approve_update(&assets, b"abc"), Err(UpdateError::NoAsset)));
}

#[test]
fn update_without_a_digest_is_refused() {
    let assets = vec![signed("tslay", "")];
    assert!(matches!(approve_update(&assets, b"abc"), Err(UpdateError::MissingDigest)));
}

#[test]
fn update_with_a_wrong_digest_is_refused() {
    let assets = vec![signed("tslay", ABC_SHA256)];
    assert!(matches!(
        approve_update(&assets, b"abd"),
        Err(UpdateError::DigestMismatch { .. })
    ));
}

#[test]
fn wrong_digest_refusal_names_both_digests() {
    let assets = vec![signed("tslay", ABC_SHA256)];
    match approve_update(&assets, b"abd") {
        Err(UpdateError::DigestMismatch { expected, actual }) => {
            assert_eq!(expected, ABC_SHA256);
            assert_ne!(actual, expected);
            assert_eq!(actual.len(), 64);
        }
        _ => panic!("expected a digest mismatch"),
    }
}

#[test]
fn update_too_large_is_refused() {
    let assets = vec![signed("tslay", ABC_SHA256)];
    let data = vec![0u8; MAX_BINARY_SIZE as usize + 1];
    assert!(matches!(approve_update(&assets, &data), Err(UpdateError::TooLarge)));
}

#[test]
fn only_the_first_asset_with_the_name_counts() {
    let assets = vec![signed("tslay", ""), signed("tslay", ABC_SHA256)];
    assert!(matches!(approve_update(&assets, b"abc"), Err(UpdateError::MissingDigest)));
}
