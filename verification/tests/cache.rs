use oneplayer::cache::cleanup::{
    cache_key_of, count_deleted, expired_bins, is_bin, stale_part_files, CacheFile, LimitRun,
};
use oneplayer::cache::download::{
    advance_download, check_download_answer, check_download_size, verify_failure, DownloadPhase,
    EnsurePhase, EnsureRun,
};
use oneplayer::cache::fsutil::{file_age_millis, file_modified_millis, normalize_checksum};
use oneplayer::cache::store::{
    asset_source, check_ready, cms_origin, is_ready, resolve_url, url_without_query,
    verify_all_ready, ReadyCheck,
};
use oneplayer::cache::{AssetStore, CacheCleanupResult};
use oneplayer::digest::{digest_id, hex_text, sha256_hex, stable_id};
use oneplayer::settings::{AppSettings, DataPath};
use oneplayer::timeline::AssetRef;

fn asset(file_id: i64, size_bytes: Option<i64>, checksum: Option<&str>) -> AssetRef {
    AssetRef {
        file_id,
        revision: "rev".to_string(),
        download_url: "file:///dev/null".to_string(),
        mime_type: Some("image/png".to_string()),
        size_bytes,
        checksum: checksum.map(|c| c.to_string()),
    }
}

#[test]
fn resolve_absolute_path_download_url() {
    assert_eq!(
        resolve_url(
            "https://kn.jdone.co.kr/api",
            "/api/v1/content-files/38/file"
        ),
        "https://kn.jdone.co.kr/api/v1/content-files/38/file"
    );
}

#[test]
fn resolve_relative_download_url() {
    assert_eq!(
        resolve_url("https://kn.jdone.co.kr/api", "v1/content-files/38/file"),
        "https://kn.jdone.co.kr/api/v1/content-files/38/file"
    );
}

#[test]
fn resolve_absolute_http_url_unchanged() {
    assert_eq!(
        resolve_url(
            "https://kn.jdone.co.kr/api",
            "https://cdn.example.com/file.bin"
        ),
        "https://cdn.example.com/file.bin"
    );
}

#[test]
fn cms_origin_strips_api_suffix() {
    assert_eq!(
        cms_origin("https://kn.jdone.co.kr/api"),
        "https://kn.jdone.co.kr"
    );
    assert_eq!(
        cms_origin("https://kn.jdone.co.kr"),
        "https://kn.jdone.co.kr"
    );
}

#[test]
fn an_asset_lies_under_its_key() {
    let store = AssetStore::new(
        &AppSettings::default(),
        DataPath {
            root: "/data".to_string(),
            segments: vec!["assets".to_string()],
        },
    );
    let one = asset(99, Some(4), None);
    assert_eq!(store.local_path(&one).segments, vec!["assets", "99_rev.bin"]);
    assert_eq!(store.marker_path(&one).segments, vec!["assets", "99_rev.complete"]);
    assert_eq!(store.local_path(&one).root, "/data");
    assert_eq!(store.max_cache_size_bytes(), 1024 * 1024 * 1024);
    assert_eq!(store.download_url(&one), resolve_url("https://kn.jdone.co.kr/api", "file:///dev/null"));
    assert_eq!(store.authorization(), None);
}

#[test]
fn an_asset_is_ready_by_size_and_digest_or_mark() {
    let sized = asset(99, Some(4), None);
    assert!(is_ready(&sized, Some(4), None, true));
    assert!(!is_ready(&sized, Some(3), None, true));
    assert!(!is_ready(&sized, None, None, true));
    let digest = sha256_hex(&[1, 2, 3, 4]);
    let both = asset(99, Some(4), Some(digest.as_str()));
    assert_eq!(check_ready(&both, Some(4)), ReadyCheck::Ready);
    assert_eq!(check_ready(&both, Some(5)), ReadyCheck::NotReady);
    let summed = asset(99, None, Some(digest.as_str()));
    assert_eq!(check_ready(&summed, Some(4)), ReadyCheck::CompareDigest);
    assert!(is_ready(&summed, Some(4), Some(digest.clone()), false));
    let written = asset(99, None, Some(format!(" {} ", digest.to_uppercase()).as_str()));
    assert!(is_ready(&written, Some(4), Some(digest.clone()), false));
    assert!(!is_ready(&summed, Some(4), Some("00".to_string()), true));
    assert!(!is_ready(&summed, Some(4), None, true));
    let plain = asset(99, None, None);
    assert_eq!(check_ready(&plain, Some(4)), ReadyCheck::CheckMarker);
    assert!(is_ready(&plain, Some(4), None, true));
    assert!(!is_ready(&plain, Some(4), None, false));
}

#[test]
fn missing_assets_are_named() {
    let assets = vec![asset(1, None, None), asset(2, None, None)];
    assert_eq!(verify_all_ready(&assets, &vec![true, true]), Ok(()));
    assert_eq!(
        verify_all_ready(&assets, &vec![true, false]),
        Err("assets not ready: 2/2_rev".to_string())
    );
}

#[test]
fn checksums_are_compared_in_one_form() {
    assert_eq!(normalize_checksum(" AB:cd "), "abcd");
    let digest = sha256_hex(&[]);
    assert_eq!(normalize_checksum(digest.as_str()), digest);
}

#[test]
fn digests_are_those_of_sha_256() {
    assert_eq!(
        sha256_hex(&[97, 98, 99]),
        "ba7816bf8f01cfea414140de5dae2223b00361a396177a9cb410ff61f20015ad"
    );
    assert_eq!(hex_text(&vec![0, 15, 255]), "000fff");
}

#[test]
fn ids_of_creatives_are_negative_and_stable() {
    let id = stable_id("creative-1");
    assert!(id < 0);
    assert_eq!(id, stable_id("creative-1"));
    assert!(id != stable_id("creative-2"));
    let zeros = vec![0u8; 32];
    assert!(digest_id(&zeros) < 0);
}

#[test]
fn files_age_from_when_they_were_modified() {
    assert_eq!(file_modified_millis(Some(Some(7))), Some(7));
    assert_eq!(file_modified_millis(Some(None)), Some(0));
    assert_eq!(file_modified_millis(None), None);
    assert_eq!(file_age_millis(Some(40), 100), 60);
    assert_eq!(file_age_millis(None, 100), 0);
}

fn file(name: &str, size: u64, modified: i64) -> CacheFile {
    CacheFile {
        name: name.to_string(),
        size,
        modified: Some(modified),
    }
}

#[test]
fn names_tell_what_a_file_is() {
    assert!(is_bin("38_rev.bin"));
    assert!(!is_bin("38_rev.complete"));
    assert!(!is_bin("bin"));
    assert_eq!(cache_key_of("38_rev.bin"), "38_rev");
    assert_eq!(cache_key_of("38_rev"), "38_rev");
    assert_eq!(cache_key_of("a.b.bin"), "a.b");
    assert_eq!(cache_key_of(".bin"), ".bin");
    assert!(!is_bin(".bin"));
}

#[test]
fn unfinished_downloads_go_after_half_an_hour() {
    let now = 100 * 60 * 1_000;
    let files = vec![
        file("1_r.part", 1, now - 31 * 60 * 1_000),
        file("2_r.part", 1, now - 60_000),
        file("3_r.bin", 1, 0),
    ];
    assert_eq!(stale_part_files(&files, now), vec![0]);
}

#[test]
fn what_no_scene_needs_goes_after_five_minutes() {
    let now = 100 * 60 * 1_000;
    let files = vec![
        file("1_r.bin", 1, now - 6 * 60 * 1_000),
        file("2_r.bin", 1, now - 6 * 60 * 1_000),
        file("3_r.bin", 1, now - 60_000),
        file("4_r.complete", 1, 0),
    ];
    let protected = vec!["2_r".to_string()];
    assert_eq!(expired_bins(&files, &protected, now), vec![0]);
}

#[test]
fn the_cache_is_cut_from_the_oldest() {
    let gig = 1024 * 1024 * 1024;
    let files = vec![
        file("new.bin", gig, 30),
        file("old.bin", gig, 10),
        file("kept.bin", gig, 5),
        file("mid.bin", gig, 20),
    ];
    let protected = vec!["kept".to_string()];
    let mut run = LimitRun::new(&files, 2 * gig);
    let mut gone = Vec::new();
    while let Some(i) = run.next_victim(&files, &protected) {
        gone.push(files[i].name.clone());
        run.report(&files, true);
    }
    assert_eq!(gone, vec!["old.bin", "mid.bin"]);
    assert_eq!(run.remaining_bytes(), 2 * gig);
    let counted = count_deleted(CacheCleanupResult::default(), 5);
    assert_eq!((counted.deleted_files, counted.deleted_bytes), (1, 5));
}

#[test]
fn a_file_that_cannot_be_deleted_is_passed_over() {
    let gig = 1024 * 1024 * 1024;
    let files = vec![file("a.bin", 2 * gig, 1), file("b.bin", gig, 2)];
    let mut run = LimitRun::new(&files, 0);
    let protected = Vec::new();
    assert_eq!(run.next_victim(&files, &protected), Some(0));
    run.report(&files, false);
    assert_eq!(run.next_victim(&files, &protected), Some(1));
    run.report(&files, true);
    assert_eq!(run.next_victim(&files, &protected), None);
    assert_eq!(run.remaining_bytes(), 2 * gig);
}

#[test]
fn assets_are_made_ready_one_by_one() {
    let mut run = EnsureRun::new(vec![asset(1, None, None), asset(1, None, None), asset(2, None, None)]);
    assert_eq!(run.phase(), EnsurePhase::Check(0));
    assert_eq!(run.report(false), EnsurePhase::Download(0));
    assert_eq!(run.report(true), EnsurePhase::Verify(0));
    assert_eq!(run.report(true), EnsurePhase::Touch(0));
    assert_eq!(run.report(true), EnsurePhase::Check(2));
    assert_eq!(run.report(true), EnsurePhase::Verify(2));
    assert_eq!(run.report(true), EnsurePhase::Touch(2));
    assert_eq!(run.report(true), EnsurePhase::Done);
    assert_eq!(run.done().len(), 2);
    let mut failing = EnsureRun::new(vec![asset(1, None, None)]);
    failing.report(false);
    assert_eq!(failing.report(false), EnsurePhase::DownloadFailed(0));
    let mut broken = EnsureRun::new(vec![asset(1, None, None)]);
    broken.report(false);
    broken.report(true);
    assert_eq!(broken.report(false), EnsurePhase::VerifyFailed(0));
    assert_eq!(
        verify_failure(&asset(1, None, None)),
        "asset verification failed after download file_id=1 key=1_rev"
    );
}

#[test]
fn downloads_are_published_only_when_complete() {
    let mut phase = DownloadPhase::Request;
    for _ in 0..5 {
        phase = advance_download(phase, true);
    }
    assert_eq!(phase, DownloadPhase::Done);
    assert_eq!(advance_download(DownloadPhase::CheckSize, false), DownloadPhase::Discard);
    assert_eq!(advance_download(DownloadPhase::Request, false), DownloadPhase::Failed);
    let one = asset(7, Some(10), None);
    assert_eq!(check_download_answer(&one, 200, "200 OK"), Ok(()));
    assert_eq!(
        check_download_answer(&one, 404, "404 Not Found"),
        Err("asset download failed: 404 Not Found 7".to_string())
    );
    assert_eq!(check_download_size(&one, 10), Ok(()));
    assert_eq!(
        check_download_size(&one, 9),
        Err("asset size mismatch file_id=7 expected=10 actual=9".to_string())
    );
    assert_eq!(check_download_size(&asset(7, None, None), 9), Ok(()));
}

#[test]
fn urls_are_told_without_what_they_ask() {
    assert_eq!(url_without_query("https://a/b?c=d"), "https://a/b");
    assert_eq!(url_without_query("https://a/b"), "https://a/b");
    assert_eq!(asset_source(&asset(-5, None, None)), "rtb");
    assert_eq!(asset_source(&asset(5, None, None)), "cms");
}

#[test]
fn what_is_asked_for_is_not_logged() {
    assert_eq!(url_without_query("?a"), "");
    assert_eq!(url_without_query("a?b?c"), "a");
}

#[test]
fn asset_store_download_and_verify() {
    let mut settings = AppSettings::default();
    settings.data_dir = Some("/data".to_string());
    let store = AssetStore::new(&settings, settings.assets_dir());
    let one = asset(99, Some(4), None);
    assert_eq!(store.local_path(&one).segments.last().unwrap(), "99_rev.bin");
    assert_eq!(store.marker_path(&one).segments.last().unwrap(), "99_rev.complete");
    assert!(is_ready(&one, Some(4), None, true));

    let mut run = EnsureRun::new(vec![one]);
    let mut phase = run.phase();
    while phase != EnsurePhase::Done {
        let ok = match phase {
            EnsurePhase::Check(i) | EnsurePhase::Verify(i) => {
                is_ready(run.asset(i), Some(4), None, true)
            }
            EnsurePhase::Touch(_) => true,
            other => panic!("unexpected {other:?}"),
        };
        phase = run.report(ok);
    }
    assert_eq!(run.done().len(), 1);
}

#[test]
fn the_limit_is_the_one_that_was_set() {
    let files = vec![file("old.bin", 60, 1), file("new.bin", 50, 2)];
    let mut run = LimitRun::new(&files, 64);
    let protected = Vec::new();
    assert_eq!(run.next_victim(&files, &protected), Some(0));
    run.report(&files, true);
    assert_eq!(run.next_victim(&files, &protected), None);
    assert_eq!(run.remaining_bytes(), 50);
}
