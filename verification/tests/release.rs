use chicago_data_bot::error::BotError;
use chicago_data_bot::release::{
    add_chunk, asset_url, check_download, check_eligible, checksum, is_stale_release,
    release_asset, sha256_hex, to_hex, valid_tag, Asset, Release, BINARY, UPDATER,
};

#[test]
fn rejects_bad_manifests_and_unsafe_release_names() {
    for text in [
        "".to_string(),
        "bad file".to_string(),
        format!("{} ../other", "a".repeat(64)),
        format!("{} {BINARY}\n{} {BINARY}", "a".repeat(64), "a".repeat(64)),
    ] {
        assert!(checksum(&text).is_err());
    }
    assert!(checksum(&format!("{} {BINARY}\n{} {UPDATER}", "a".repeat(64), "b".repeat(64))).is_ok());
    assert!(!valid_tag("build-../../elsewhere"));
    assert!(!valid_tag("main"));
    assert!(valid_tag(&format!("build-{}", "a".repeat(40))));
}

#[test]
fn checksum_reports_each_manifest_error() {
    assert_eq!(checksum(""), Err(BotError::MissingBotChecksum));
    assert_eq!(checksum("bad file"), Err(BotError::InvalidSha256));
    assert_eq!(checksum("one two three"), Err(BotError::UnexpectedManifest));
    assert_eq!(
        checksum(&format!("{} ../other", "a".repeat(64))),
        Err(BotError::UnexpectedAssetName)
    );
    assert_eq!(
        checksum(&format!("{} {BINARY}\n{} {BINARY}", "a".repeat(64), "a".repeat(64))),
        Err(BotError::UnexpectedAssetName)
    );
    assert_eq!(
        checksum(&format!("{} {UPDATER}", "c".repeat(64))),
        Err(BotError::MissingBotChecksum)
    );
    assert_eq!(checksum(&format!("{} {BINARY}", "A".repeat(64))), Err(BotError::InvalidSha256));
}

#[test]
fn checksum_picks_the_bot_line_across_line_endings() {
    let manifest = format!("{}  {UPDATER}\r\n{}\t{BINARY}\n", "b".repeat(64), "0123456789abcdef".repeat(4));
    assert_eq!(checksum(&manifest).unwrap(), "0123456789abcdef".repeat(4));
}

#[test]
fn tags_need_forty_lowercase_hex_digits() {
    assert!(!valid_tag(&format!("build-{}", "A".repeat(40))));
    assert!(!valid_tag(&format!("build-{}", "a".repeat(39))));
    assert!(!valid_tag(&format!("build-{}", "a".repeat(41))));
    assert!(!valid_tag(&format!("Build-{}", "a".repeat(40))));
    assert!(valid_tag(&format!("build-{}", "0123456789abcdef0123456789abcdef01234567")));
}

#[test]
fn sha256_hex_matches_known_digests() {
    assert_eq!(
        sha256_hex(b"abc"),
        "ba7816bf8f01cfea414140de5dae2223b00361a396177a9cb410ff61f20015ad"
    );
    assert_eq!(
        sha256_hex(b""),
        "e3b0c44298fc1c149afbf4c8996fb92427ae41e4649b934ca495991b7852b855"
    );
    assert_eq!(to_hex(&[0x00, 0x0f, 0xa0, 0xff]), "000fa0ff");
}

#[test]
fn downloads_stop_at_the_limit() {
    assert_eq!(add_chunk(0, 4, 4), Ok(4));
    assert_eq!(add_chunk(4, 4, 4), Err(BotError::DownloadLimitExceeded));
    assert_eq!(add_chunk(0, 8, 4), Err(BotError::DownloadLimitExceeded));
    assert_eq!(add_chunk(usize::MAX, 1, usize::MAX), Err(BotError::DownloadLimitExceeded));
}

fn release(tag: &str, draft: bool, prerelease: bool) -> Release {
    Release {
        tag_name: tag.to_string(),
        draft,
        prerelease,
        assets: vec![
            Asset { name: "SHA256SUMS".into(), browser_download_url: asset_url(tag, "SHA256SUMS") },
            Asset {
                name: BINARY.into(),
                browser_download_url: format!("https://example.org/{BINARY}"),
            },
        ],
    }
}

#[test]
fn only_published_builds_with_expected_assets_install() {
    let tag = format!("build-{}", "a".repeat(40));
    assert_eq!(check_eligible(&release(&tag, false, false)), Ok(()));
    assert_eq!(check_eligible(&release(&tag, true, false)), Err(BotError::IneligibleRelease));
    assert_eq!(check_eligible(&release(&tag, false, true)), Err(BotError::IneligibleRelease));
    assert_eq!(check_eligible(&release("main", false, false)), Err(BotError::IneligibleRelease));
    let r = release(&tag, false, false);
    assert_eq!(
        release_asset(&r, "SHA256SUMS").unwrap(),
        format!(
            "https://github.com/MisterClean/chicago-data-portal-datasets/releases/download/{tag}/SHA256SUMS"
        )
    );
    assert_eq!(release_asset(&r, BINARY), Err(BotError::MissingAsset));
    assert_eq!(release_asset(&r, UPDATER), Err(BotError::MissingAsset));
    assert_eq!(check_download("ab", "ab"), Ok(()));
    assert_eq!(check_download("ab", "ac"), Err(BotError::ChecksumMismatch));
    assert!(is_stale_release(true, &tag, false, false));
    assert!(!is_stale_release(true, &tag, true, false));
    assert!(!is_stale_release(true, &tag, false, true));
    assert!(!is_stale_release(false, &tag, false, false));
    assert!(!is_stale_release(true, ".download-x", false, false));
}
