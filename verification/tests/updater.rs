use vicash::prerelease::{find_char, rank_prereleases, Rank};
use vicash::updater::{
    evaluate_release, is_newer, parse_triple, strip_v_prefix, user_agent, AssetJson, ReleaseJson,
    UpdateCheck, UpdateInfo, UpdaterState, RELEASE_URL,
};

fn release(tag: &str, assets: &[(&str, &str)]) -> ReleaseJson {
    ReleaseJson {
        tag_name: tag.to_string(),
        body: "notes".to_string(),
        assets: assets
            .iter()
            .map(|(n, u)| AssetJson { name: n.to_string(), browser_download_url: u.to_string() })
            .collect(),
    }
}

fn info() -> UpdateInfo {
    UpdateInfo {
        latest_version: "2.0.0".to_string(),
        asset_url: "u".to_string(),
        notes: "n".to_string(),
    }
}

#[test]
fn a_leading_v_is_dropped() {
    assert_eq!(strip_v_prefix("v1.2.3"), "1.2.3");
    assert_eq!(strip_v_prefix("1.2.3"), "1.2.3");
    assert_eq!(strip_v_prefix("vv1"), "v1");
    assert_eq!(strip_v_prefix("V1"), "V1");
    assert_eq!(strip_v_prefix(""), "");
}

#[test]
fn versions_as_numbers() {
    assert_eq!(parse_triple("1.2.3"), (1, 2, 3));
    assert_eq!(parse_triple("1.2.3.4"), (1, 2, 3));
    assert_eq!(parse_triple("1.2.3-beta.4"), (1, 2, 3));
    assert_eq!(parse_triple("1-2"), (1, 2, 0));
    assert_eq!(parse_triple(""), (0, 0, 0));
    assert_eq!(parse_triple("x.5"), (0, 5, 0));
    assert_eq!(parse_triple("1..3"), (1, 0, 3));
    assert_eq!(parse_triple("007.+8.+"), (7, 8, 0));
    assert_eq!(parse_triple("4294967295.4294967296.99999999999999999999"), (u32::MAX, 0, 0));
    assert_eq!(parse_triple("1 .2.3"), (0, 2, 3));
    assert_eq!(parse_triple("\u{661}.2.3"), (0, 2, 3));
}

#[test]
fn versions_read_like_the_standard_parser() {
    for part in ["0", "+0", "00012", "+", "", "12a", "4294967296", "+4294967295", "-1", "é"] {
        let want = if part == "-1" { 0 } else { part.parse::<u32>().unwrap_or(0) };
        assert_eq!(parse_triple(part).0, want);
    }
}

#[test]
fn newer_means_strictly_newer() {
    assert!(is_newer("1.10.0", "1.9.9"));
    assert!(is_newer("2.0.0", "1.99.99"));
    assert!(is_newer("1.2.4", "1.2.3"));
    assert!(!is_newer("1.2.3", "1.2.3"));
    assert!(!is_newer("1.2.3-rc1", "1.2.3"));
    assert!(!is_newer("1.2.2", "1.2.3"));
}

#[test]
fn a_release_is_newer_than_its_pre_release() {
    assert!(is_newer("1.2.3", "1.2.3-rc1"));
    assert!(!is_newer("1.2.3-rc1", "1.2.3"));
    assert!(is_newer("1.2.4-rc1", "1.2.3"));
    assert!(!is_newer("1.2.3-rc1", "1.2.3-rc1"));
    let r = release("v1.2.3", &[("vicash.exe", "u")]);
    let info = evaluate_release(&r, "1.2.3-rc.1").unwrap().unwrap();
    assert_eq!(info.latest_version, "1.2.3");
    assert!(evaluate_release(&release("v1.2.3-rc.1", &[]), "1.2.3").unwrap().is_none());
}

#[test]
fn pre_releases_have_their_order() {
    let all = [
        "1.0.0-0",
        "1.0.0-9",
        "1.0.0-10.x",
        "1.0.0-99999999999999999999999",
        "1.0.0-100000000000000000000000",
        "1.0.0--",
        "1.0.0-Beta",
        "1.0.0-alpha",
        "1.0.0-alpha.1",
        "1.0.0-alpha.beta",
        "1.0.0-beta",
        "1.0.0-beta.2",
        "1.0.0-beta.11",
        "1.0.0-rc.1",
        "1.0.0-rc.1.0",
        "1.0.0",
    ];
    for (i, a) in all.iter().enumerate() {
        for (k, b) in all.iter().enumerate() {
            assert_eq!(is_newer(a, b), i > k);
        }
    }
}

#[test]
fn build_metadata_does_not_count() {
    assert!(!is_newer("1.2.3+5", "1.2.3"));
    assert!(!is_newer("1.2.3", "1.2.3+5"));
    assert!(!is_newer("1.2.3+b-1", "1.2.3"));
    assert!(is_newer("1.2.3+5", "1.2.2"));
    assert!(is_newer("1.2.3", "1.2.3-rc.1+7"));
    assert!(!is_newer("1.2.3-rc.1+8", "1.2.3-rc.1+7"));
}

#[test]
fn ranks_of_pre_release_parts() {
    assert_eq!(rank_prereleases("007", "7"), Rank::Same);
    assert_eq!(rank_prereleases("rc.2", "rc.10"), Rank::Before);
    assert_eq!(rank_prereleases("rc", "5"), Rank::After);
    assert_eq!(rank_prereleases("", ""), Rank::Same);
    assert_eq!(rank_prereleases("", "a"), Rank::Before);
    assert_eq!(rank_prereleases("a.b", "a"), Rank::After);
    assert_eq!(find_char("a.b", '.'), 1);
    assert_eq!(find_char("ab", '.'), 2);
}

#[test]
fn newness_is_an_order() {
    let all = ["0.0.1", "0.1.0", "0.1.1", "1.0.0", "1.0.10", "1.2.0"];
    for (i, a) in all.iter().enumerate() {
        for (k, b) in all.iter().enumerate() {
            assert_eq!(is_newer(a, b), i > k);
        }
    }
}

#[test]
fn a_newer_release_is_offered() {
    let r = release("v1.3.0", &[("readme.txt", "a"), ("Vicash.EXE", "b"), ("vicash.exe", "c")]);
    let info = evaluate_release(&r, "1.2.9").unwrap().unwrap();
    assert_eq!(info.latest_version, "1.3.0");
    assert_eq!(info.asset_url, "b");
    assert_eq!(info.notes, "notes");
}

#[test]
fn an_old_release_is_not_offered() {
    assert!(evaluate_release(&release("v1.2.9", &[]), "1.2.9").unwrap().is_none());
    assert!(evaluate_release(&release("nightly", &[]), "0.0.1").unwrap().is_none());
}

#[test]
fn a_release_without_the_program_is_an_error() {
    assert_eq!(
        evaluate_release(&release("v9.0.0", &[("other.exe", "a")]), "1.0.0").unwrap_err(),
        "release v9.0.0 has no vicash.exe asset"
    );
}

#[test]
fn the_release_server() {
    assert_eq!(RELEASE_URL, "https://api.github.com/repos/caaatto/vicash/releases/latest");
    assert_eq!(user_agent("1.2.3"), "vicash/1.2.3");
}

#[test]
fn what_the_user_is_shown() {
    let mut s = UpdaterState::new();
    assert!(matches!(s.last_check_result, UpdateCheck::Idle));
    assert!(matches!(UpdateCheck::default(), UpdateCheck::Idle));
    assert!(matches!(UpdaterState::default().last_check_result, UpdateCheck::Idle));
    s.begin_check();
    assert!(matches!(s.last_check_result, UpdateCheck::Checking));
    s.finish_check(Ok(None));
    assert!(matches!(s.last_check_result, UpdateCheck::UpToDate));
    s.finish_check(Ok(Some(info())));
    match s.last_check_result.clone() {
        UpdateCheck::Available(i) => assert_eq!(i.latest_version, "2.0.0"),
        _ => panic!("an update is there"),
    }
    s.finish_check(Err("offline".to_string()));
    assert!(matches!(&s.last_check_result, UpdateCheck::Failed(why) if why == "offline"));
    s.begin_apply();
    assert!(matches!(s.last_check_result, UpdateCheck::Applying));
    s.apply_failed("disk full".to_string());
    assert!(matches!(&s.last_check_result, UpdateCheck::Failed(why) if why == "disk full"));
}
