use wb_switch_core::update::check::{
    latest_tag, remember_report, report_value, stored_report, update_check, CachedCheck, CheckReport,
    CheckStart, CheckStep, FailedCheck, FoundRelease, Stage, UpdateCheck,
};
use wb_switch_core::update::config::{
    config_text, configured_proxy, default_mirrors, github_config_file, load_github_config,
    mirrors_from_config, mirrors_from_list, normalize_mirror, release_url, save_github_config,
    GithubConfig,
};
use wb_switch_core::update::versions::{
    candidate_urls, compare_versions, updater_manifest_urls, version_tuple,
};
use wb_switch_core::update_service::{
    check, finish_check, read_outcome, snapshot, UpdatePhase, UpdateState,
};

fn json(text: &str) -> serde_json::Value {
    serde_json::from_str(text).unwrap()
}

#[test]
fn updater_manifest_urls_macos_skips_duplicate_fallback() {
    let urls = updater_manifest_urls("changexbc", "workbuddy-switch", "macos", "aarch64");
    assert_eq!(
        urls,
        vec![
            "https://github.com/changexbc/workbuddy-switch/releases/latest/download/latest.json",
            "https://github.com/changexbc/workbuddy-switch/releases/latest/download/latest-macos-aarch64.json",
        ]
    );
}

#[test]
fn updater_manifest_urls_windows_keeps_macos_compat() {
    let urls = updater_manifest_urls("changexbc", "workbuddy-switch", "windows", "x86_64");
    assert_eq!(
        urls,
        vec![
            "https://github.com/changexbc/workbuddy-switch/releases/latest/download/latest.json",
            "https://github.com/changexbc/workbuddy-switch/releases/latest/download/latest-windows-x86_64.json",
            "https://github.com/changexbc/workbuddy-switch/releases/latest/download/latest-macos-x86_64.json",
        ]
    );
}

#[test]
fn compare_versions_orders_semver() {
    assert_eq!(compare_versions("0.1.18", "0.1.18"), 0);
    assert_eq!(compare_versions("0.1.19", "0.1.18"), 1);
    assert_eq!(compare_versions("v0.1.17", "0.1.18"), -1);
}

#[test]
fn candidate_urls_put_direct_before_mirrors() {
    let mirrors = vec!["https://gh-proxy.com/".to_string()];
    let urls = candidate_urls(
        "https://github.com/a/b/releases/latest/download/latest.json",
        &mirrors,
    );
    assert_eq!(
        urls,
        vec![
            "https://github.com/a/b/releases/latest/download/latest.json",
            "https://gh-proxy.com/https://github.com/a/b/releases/latest/download/latest.json",
        ]
    );
}

#[test]
fn normalize_mirror_appends_trailing_slash() {
    assert_eq!(
        normalize_mirror(" https://ghproxy.net "),
        "https://ghproxy.net/"
    );
    assert_eq!(normalize_mirror("https://x.com/"), "https://x.com/");
    assert_eq!(normalize_mirror("   "), "");
}

#[test]
fn normalize_mirror_rejects_non_https_prefixes() {
    assert_eq!(normalize_mirror("http://insecure.example/"), "");
    assert_eq!(normalize_mirror("ghproxy.net/"), "");
    assert_eq!(normalize_mirror("ftp://x/"), "");
}

#[test]
fn mirrors_from_config_falls_back_to_defaults() {
    assert_eq!(
        mirrors_from_config(&json("{}")),
        default_mirrors(),
        "缺省 mirrors 时应回退内置默认镜像"
    );
    assert_eq!(
        mirrors_from_config(&json(r#"{"mirrors": []}"#)),
        default_mirrors(),
        "空 mirrors 数组也应回退内置默认镜像"
    );
    assert_eq!(
        mirrors_from_config(&json(r#"{"mirrors": ["https://my-mirror.example"]}"#)),
        vec!["https://my-mirror.example/".to_string()],
        "自定义镜像应去空白并补全尾部斜杠"
    );
}

// ---------------------------------------------------------------------------
// Versions and mirrors
// ---------------------------------------------------------------------------

#[test]
fn versions_compare_number_by_number() {
    assert_eq!(version_tuple("vv1.02.x.-3"), vec![1, 2, -3]);
    assert_eq!(version_tuple(""), Vec::<i64>::new());
    assert_eq!(version_tuple("1.99999999999999999999"), vec![1]);
    assert_eq!(compare_versions("1.0", "1"), 0);
    assert_eq!(compare_versions("1.10", "1.9"), 1);
    assert_eq!(compare_versions("1.9", "1.10"), -1);
    assert_eq!(compare_versions("", "0.0.-1"), 1);
    let ordered = ["0.9", "1", "1.0.1", "v2"];
    for i in 0..ordered.len() {
        for j in 0..ordered.len() {
            let expected = if i > j { 1 } else if i < j { -1 } else { 0 };
            assert_eq!(compare_versions(ordered[i], ordered[j]), expected);
        }
    }
}

#[test]
fn darwin_is_listed_as_macos() {
    assert_eq!(
        updater_manifest_urls("o", "r", "darwin", "x"),
        updater_manifest_urls("o", "r", "macos", "x")
    );
}

#[test]
fn mirrors_that_cannot_be_used_are_left_out() {
    let list = Some(vec![
        Some(" https://a ".to_string()),
        None,
        Some("http://b".to_string()),
        Some("https://c/".to_string()),
    ]);
    assert_eq!(mirrors_from_list(&list), vec!["https://a/", "https://c/"]);
    assert_eq!(mirrors_from_list(&Some(vec![None, Some("x".to_string())])), default_mirrors());
    assert_eq!(mirrors_from_list(&None), default_mirrors());
    assert_eq!(
        mirrors_from_config(&json(r#"{"mirrors": [1, "https://m"]}"#)),
        vec!["https://m/"]
    );
    assert_eq!(mirrors_from_config(&json(r#"{"mirrors": "https://m"}"#)), default_mirrors());
    for mirror in default_mirrors() {
        assert!(mirror.starts_with("https://") && mirror.ends_with('/'));
    }
}

// ---------------------------------------------------------------------------
// The configuration
// ---------------------------------------------------------------------------

#[test]
fn a_configuration_that_says_nothing_means_the_defaults() {
    for text in [None, Some("not json"), Some("{}"), Some(r#"{"owner":" ","repo":3}"#)] {
        let loaded = load_github_config(text);
        assert_eq!(loaded.config.owner, "heylumen");
        assert_eq!(loaded.config.repo, "workbuddy-switch-tidy");
        assert_eq!(loaded.config.proxy, "");
        assert_eq!(loaded.config.mirrors, default_mirrors());
        assert!(!loaded.rewrite);
    }
    assert_eq!(github_config_file("/s").base, "/s");
    assert_eq!(github_config_file("/s").names, vec!["github_config.json"]);
}

#[test]
fn tokens_and_the_former_repository_are_written_over() {
    let loaded = load_github_config(Some(r#"{"owner":"me","repo":"mine","token":"SECRET-REDACTED"}"#));
    assert_eq!(loaded.config.owner, "me");
    assert!(loaded.rewrite);
    let text = config_text(&loaded.config);
    assert!(!text.contains("SECRET-REDACTED"));
    assert_eq!(
        json(&text),
        json(r#"{"owner":"me","repo":"mine","proxy":"","mirrors":["https://gh-proxy.com/","https://ghproxy.net/"]}"#)
    );
    let former = load_github_config(Some(r#"{"owner":"changexbc","repo":"wb-switch"}"#));
    assert_eq!(former.config.owner, "changexbc");
    assert_eq!(former.config.repo, "workbuddy-switch-tidy");
    assert!(former.rewrite);
    for first in [loaded, former] {
        let again = load_github_config(Some(&config_text(&first.config)));
        assert!(!again.rewrite);
        assert_eq!(again.config.owner, first.config.owner);
        assert_eq!(again.config.repo, first.config.repo);
        assert_eq!(again.config.mirrors, first.config.mirrors);
    }
}

#[test]
fn a_saved_configuration_is_loaded_as_it_was_saved() {
    let saved = save_github_config(&json(
        r#"{"owner":" me ","repo":"","proxy":" http://p ","mirrors":["https://m"],"token":"x","more":1}"#,
    ));
    let loaded = load_github_config(Some(&saved));
    assert_eq!(loaded.config.owner, " me ");
    assert_eq!(loaded.config.repo, "workbuddy-switch-tidy");
    assert_eq!(loaded.config.proxy, "http://p");
    assert_eq!(loaded.config.mirrors, vec!["https://m/"]);
    assert!(!loaded.rewrite);
    assert_eq!(json(&saved).as_object().unwrap().len(), 4);
    assert_eq!(config_text(&loaded.config), saved);
}

#[test]
fn the_public_page_and_the_proxy_come_from_the_configuration() {
    let config = load_github_config(Some(r#"{"owner":"o","repo":"r","proxy":" http://p "}"#)).config;
    assert_eq!(release_url(&config), "https://github.com/o/r/releases/latest");
    assert_eq!(configured_proxy(&config).as_deref(), Some("http://p"));
    let empty = GithubConfig {
        owner: String::new(),
        repo: String::new(),
        proxy: "  ".to_string(),
        mirrors: Vec::new(),
    };
    assert_eq!(
        release_url(&empty),
        "https://github.com/heylumen/workbuddy-switch-tidy/releases/latest"
    );
    assert_eq!(configured_proxy(&empty), None);
}

// ---------------------------------------------------------------------------
// Checks
// ---------------------------------------------------------------------------

fn config() -> GithubConfig {
    GithubConfig {
        owner: "o".to_string(),
        repo: "r".to_string(),
        proxy: String::new(),
        mirrors: vec!["https://m/".to_string()],
    }
}

fn found(report: &CheckReport) -> &FoundRelease {
    match report {
        CheckReport::Found(found) => found,
        CheckReport::Failed(_) => panic!("a release was found"),
    }
}

fn done(step: CheckStep) -> CheckReport {
    match step {
        CheckStep::Done(report) => report,
        CheckStep::Ask { .. } => panic!("the check is over"),
    }
}

fn delay(step: CheckStep) -> u64 {
    match step {
        CheckStep::Ask { delay_ms } => delay_ms,
        CheckStep::Done(_) => panic!("the check goes on"),
    }
}

#[test]
fn a_manifest_ends_the_check() {
    let mut check = UpdateCheck::start(&config(), "macos", "aarch64");
    let request = check.request();
    assert_eq!(request.url, "https://github.com/o/r/releases/latest/download/latest.json");
    assert_eq!(request.accept, "application/json");
    assert!(request.follow_redirects);
    let report = done(check.on_manifest(
        &json(r#"{"version":" v9.0.0 ","name":"Nine","pub_date":"2026-01-01"}"#),
        55,
    ));
    let release = found(&report);
    assert_eq!(release.current, "1.0.8");
    assert_eq!(release.latest, "9.0.0");
    assert_eq!(release.latest_tag, "v9.0.0");
    assert!(release.has_update);
    let value = report_value(&report);
    assert_eq!(
        value,
        json(
            r#"{"ok":true,"current":"1.0.8","latest":"9.0.0","latestTag":"v9.0.0","hasUpdate":true,
                "releaseName":"Nine","releaseUrl":"https://github.com/o/r/releases/latest",
                "publishedAt":"2026-01-01",
                "source":"https://github.com/o/r/releases/latest/download/latest.json","checkedAt":55}"#
        )
    );
    let outcome = read_outcome(&value);
    assert!(outcome.ok && outcome.has_update);
    assert_eq!(outcome.latest.as_deref(), Some("9.0.0"));
    assert_eq!(outcome.checked_at, Some(55));
}

#[test]
fn every_source_is_asked_before_a_check_fails() {
    let mut check = UpdateCheck::start(&config(), "windows", "x86_64");
    let mut asked = Vec::new();
    // The first address cannot be reached, and is asked again after a pause.
    asked.push(check.request().url);
    assert_eq!(delay(check.on_manifest(&json(r#"{"code":-1,"message":"down"}"#), 1)), 200);
    asked.push(check.request().url);
    assert_eq!(delay(check.on_manifest(&json(r#"{"code":-1,"message":"down"}"#), 1)), 0);
    // The others have no manifest.
    for _ in 0..5 {
        asked.push(check.request().url);
        assert_eq!(delay(check.on_manifest(&json(r#"{"code":404}"#), 1)), 0);
    }
    assert_eq!(asked.len(), 7);
    assert_eq!(asked[0], asked[1]);
    assert_eq!(asked[2], "https://m/https://github.com/o/r/releases/latest/download/latest.json");
    assert_eq!(
        asked[6],
        "https://m/https://github.com/o/r/releases/latest/download/latest-macos-x86_64.json"
    );
    let page = check.request();
    assert_eq!(page.url, "https://github.com/o/r/releases/latest");
    assert_eq!(page.accept, "text/html");
    assert!(!page.follow_redirects);
    assert_eq!(delay(check.on_redirect(404, &Vec::new(), "", 2)), 0);
    for host in ["cdn", "fastly", "gcore"] {
        let url = check.request().url;
        assert_eq!(url, format!("https://{host}.jsdelivr.net/gh/o/r/package.json"));
        asked.push(url);
        if host != "gcore" {
            assert_eq!(delay(check.on_cdn(&json("{}"), 3)), 0);
        }
    }
    let report = done(check.on_cdn(&json(r#"{"message":"gone"}"#), 4));
    let value = report_value(&report);
    assert_eq!(value["ok"], false);
    assert_eq!(value["error"], "所有更新源均不可达");
    assert_eq!(
        value["message"],
        "检查更新失败：GitHub 直连、国内镜像加速与 jsDelivr CDN 均无法访问。请检查网络连接后重试；该失败不影响软件其他功能。详情：更新清单（直连+镜像）: HTTP 404: 更新清单解析失败；release 页跳转: 未找到可用的发布版本（code=404）；jsDelivr CDN: gone"
    );
    assert_eq!(value["releaseUrl"], "https://github.com/o/r/releases/latest");
    assert_eq!(value["checkedAt"], 4);
    for url in asked {
        assert!(url.starts_with("https://"));
    }
}

#[test]
fn the_page_of_the_release_names_its_tag() {
    let headers = |location: &str| {
        vec![
            ("x".to_string(), "y".to_string()),
            ("LOCATION".to_string(), location.to_string()),
            ("location".to_string(), "/releases/tag/second".to_string()),
        ]
    };
    assert_eq!(
        latest_tag(302, &headers("https://github.com/o/r/releases/tag/v1.2.3 "), "").unwrap(),
        "v1.2.3"
    );
    let error = |status: u16, headers: &Vec<(String, String)>, body: &str| {
        let e = latest_tag(status, headers, body).unwrap_err();
        (e.message, e.code)
    };
    let none = Vec::new();
    assert_eq!(error(0, &none, " "), ("网络请求失败".to_string(), -1));
    assert_eq!(error(0, &none, "timed out"), ("timed out".to_string(), -1));
    assert_eq!(error(404, &none, ""), ("未找到可用的发布版本".to_string(), 404));
    assert_eq!(
        error(200, &none, ""),
        ("无法获取发布页跳转地址（HTTP 200）".to_string(), 200)
    );
    assert_eq!(
        error(302, &headers("https://github.com/o/r/releases/tag/"), ""),
        ("无法解析发布版本标签".to_string(), -1)
    );
    assert_eq!(
        error(302, &headers("https://github.com/login"), ""),
        ("无法解析发布版本标签".to_string(), -1)
    );
}

#[test]
fn the_redirection_and_the_network_can_answer_too() {
    let mut check = UpdateCheck::start(&config(), "macos", "x");
    while check.stage == Stage::Manifest {
        check.on_manifest(&json(r#"{"code":500,"message":"no"}"#), 1);
    }
    let headers = vec![("Location".to_string(), "/o/r/releases/tag/vv0.1".to_string())];
    let report = done(check.on_redirect(302, &headers, "", 9));
    let release = found(&report);
    assert_eq!(release.latest, "v0.1");
    assert_eq!(release.latest_tag, "vv0.1");
    assert_eq!(release.source, "release-redirect");
    assert!(!release.has_update);
    assert!(report_value(&report).get("publishedAt").is_none());

    let mut check = UpdateCheck::start(&config(), "macos", "x");
    while check.stage == Stage::Manifest {
        check.on_manifest(&json("{}"), 1);
    }
    check.on_redirect(0, &Vec::new(), "", 1);
    let report = done(check.on_cdn(&json(r#"{"version":" vv3.0 "}"#), 9));
    let release = found(&report);
    assert_eq!(release.latest, "3.0");
    assert_eq!(release.latest_tag, "v3.0");
    assert_eq!(release.release_name, "v3.0");
    assert_eq!(release.source, "jsdelivr-cdn");
    assert!(release.has_update);
}

#[test]
fn results_are_good_for_six_hours() {
    let mut check = UpdateCheck::start(&config(), "macos", "x");
    let report = done(check.on_manifest(&json(r#"{"version":"2.0"}"#), 100));
    let mut cache: Option<CachedCheck> = None;
    remember_report(&mut cache, &report, 100);
    let start = |cache: &Option<CachedCheck>, force: bool, now: i64| {
        update_check(cache, force, now, &config(), None, "macos", "x")
    };
    match start(&cache, false, 100 + 21_599) {
        CheckStart::Cached(stored) => assert_eq!(found(&stored).latest, "2.0"),
        CheckStart::Ask(_, _) => panic!("the result is still good"),
    }
    assert!(matches!(start(&cache, false, 100 + 21_600), CheckStart::Ask(_, None)));
    assert!(matches!(start(&cache, true, 100), CheckStart::Ask(_, None)));
    assert!(matches!(start(&None, false, 100), CheckStart::Ask(_, None)));
    let failed = CheckReport::Failed(FailedCheck {
        message: "m".to_string(),
        release_url: "u".to_string(),
        checked_at: 7,
    });
    remember_report(&mut cache, &failed, 999);
    assert_eq!(cache.as_ref().unwrap().checked_at, 100);
    assert_eq!(found(&stored_report(&cache, false, 100).unwrap()).latest, "2.0");
    assert!(stored_report(&cache, false, 100 + 21_600).is_none());
    assert!(stored_report(&cache, true, 100).is_none());
    assert!(stored_report(&None, false, 100).is_none());
    let mut with_proxy = config();
    with_proxy.proxy = "http://p".to_string();
    match update_check(&None, false, 0, &with_proxy, None, "macos", "x") {
        CheckStart::Ask(_, proxy) => assert_eq!(proxy.as_deref(), Some("http://p")),
        CheckStart::Cached(_) => panic!("nothing is stored"),
    }
    match update_check(&None, false, 0, &with_proxy, Some("http://q".to_string()), "macos", "x") {
        CheckStart::Ask(_, proxy) => assert_eq!(proxy.as_deref(), Some("http://q")),
        CheckStart::Cached(_) => panic!("nothing is stored"),
    }
}

#[test]
fn a_newer_release_comes_to_be_on_offer() {
    for (version, phase, latest) in [
        ("v99.0.0", UpdatePhase::Available, Some("99.0.0")),
        ("0.0.1", UpdatePhase::UpToDate, None),
    ] {
        let answer = json(&format!(r#"{{"version":"{version}"}}"#));
        let mut asked = UpdateCheck::start(&config(), "macos", "x");
        let sent = report_value(&done(asked.on_manifest(&answer, 77)));
        let mut state = UpdateState::new();
        let (guard, _) = check(&mut state).unwrap();
        finish_check(&mut state, guard, &sent, 88);
        assert_eq!(snapshot(&state).phase, phase);
        assert_eq!(snapshot(&state).latest.as_deref(), latest);
        assert_eq!(snapshot(&state).checked_at, Some(77));
    }
}
