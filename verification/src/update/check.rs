//! Asking for the latest release.
//!
//! Three kinds of source are asked in turn, each only where the ones before it failed: the manifest
//! of the latest release, directly and through mirrors; the page of the latest release, whose
//! redirection names its tag; and a content delivery network. A host sends the requests; this
//! module says which one comes next and what the answers mean.

use crate::json::{
    field, field_views, get_integer, get_text, has_distinct_names, integer_member, json_bool,
    json_integer, json_object, json_opt_string, json_string, json_tree, lemma_member, object_tree,
    text_member, text_or_null, JsonTree,
};
use crate::numerals::{decimal, int_text};
use crate::text::{
    begins_with, chars_of, concat2, concat3, contains_text, copy_opt, eq_ignoring_case, find_text,
    last_piece, last_piece_start, same_ignoring_case, separate, separated, skip_leading, string_of,
    trim, trim_start_of, trimmed, view_opt, views, CharSet,
};
use crate::update::config::{
    configured_proxy, proxy_in_use, release_page, release_page_url, GithubConfig, APP_VERSION,
};
use crate::update::versions::{
    candidate_urls, compare_versions, manifest_urls, mirrored, updater_manifest_urls, version_order,
};
use crate::update_service::{after_check, checking, outcome_in, SnapshotView};
use serde_json::Value;
use vstd::prelude::*;

verus! {

broadcast use vstd::string::group_string_axioms;

/// How long a request may take, in seconds.
pub const UPDATE_TIMEOUT_SECS: u64 = 6;

/// How often an address that cannot be reached is asked.
pub const TRANSPORT_ATTEMPTS: usize = 2;

/// The pause before an address is asked again, in milliseconds.
pub const RETRY_DELAY_MS: u64 = 200;

/// How long a result is good for, in seconds.
pub const CACHE_TTL_SECS: i64 = 21_600;

/// The name under which the requests are sent.
pub const USER_AGENT: &'static str = "wb-switch";

// ---------------------------------------------------------------------------
// Reports
// ---------------------------------------------------------------------------

/// The latest release, as a source told of it.
#[derive(Debug)]
pub struct FoundRelease {
    /// The version of this application.
    pub current: String,
    pub latest: String,
    pub latest_tag: String,
    /// The latest version is later than this one.
    pub has_update: bool,
    pub release_name: String,
    pub release_url: String,
    /// The source is one that tells of the date of a release.
    pub is_dated: bool,
    pub published_at: Option<String>,
    /// Where this was found.
    pub source: String,
    /// When this was found, in seconds.
    pub checked_at: i64,
}

/// No source could be reached.
#[derive(Debug)]
pub struct FailedCheck {
    pub message: String,
    pub release_url: String,
    pub checked_at: i64,
}

/// What a check comes to.
#[derive(Debug)]
pub enum CheckReport {
    Found(FoundRelease),
    Failed(FailedCheck),
}

/// The contents of a `FoundRelease`.
pub struct FoundView {
    pub current: Seq<char>,
    pub latest: Seq<char>,
    pub latest_tag: Seq<char>,
    pub has_update: bool,
    pub release_name: Seq<char>,
    pub release_url: Seq<char>,
    pub is_dated: bool,
    pub published_at: Option<Seq<char>>,
    pub source: Seq<char>,
    pub checked_at: i64,
}

/// The contents of a `CheckReport`.
pub enum ReportView {
    Found(FoundView),
    Failed { message: Seq<char>, release_url: Seq<char>, checked_at: i64 },
}

impl View for CheckReport {
    type V = ReportView;

    open spec fn view(&self) -> ReportView {
        match self {
            CheckReport::Found(f) => ReportView::Found(
                FoundView {
                    current: f.current@,
                    latest: f.latest@,
                    latest_tag: f.latest_tag@,
                    has_update: f.has_update,
                    release_name: f.release_name@,
                    release_url: f.release_url@,
                    is_dated: f.is_dated,
                    published_at: view_opt(f.published_at),
                    source: f.source@,
                    checked_at: f.checked_at,
                },
            ),
            CheckReport::Failed(f) => ReportView::Failed {
                message: f.message@,
                release_url: f.release_url@,
                checked_at: f.checked_at,
            },
        }
    }
}

impl Clone for CheckReport {
    fn clone(&self) -> (r: Self)
        ensures
            r@ == self@,
    {
        match self {
            CheckReport::Found(f) => CheckReport::Found(
                FoundRelease {
                    current: f.current.clone(),
                    latest: f.latest.clone(),
                    latest_tag: f.latest_tag.clone(),
                    has_update: f.has_update,
                    release_name: f.release_name.clone(),
                    release_url: f.release_url.clone(),
                    is_dated: f.is_dated,
                    published_at: copy_opt(&f.published_at),
                    source: f.source.clone(),
                    checked_at: f.checked_at,
                },
            ),
            CheckReport::Failed(f) => CheckReport::Failed(
                FailedCheck {
                    message: f.message.clone(),
                    release_url: f.release_url.clone(),
                    checked_at: f.checked_at,
                },
            ),
        }
    }
}

/// The members of a report.
pub open spec fn report_fields(r: ReportView) -> Seq<(Seq<char>, JsonTree)> {
    match r {
        ReportView::Found(f) => {
            let common = seq![
                ("ok"@, JsonTree::Bool(true)),
                ("current"@, JsonTree::Text(f.current)),
                ("latest"@, JsonTree::Text(f.latest)),
                ("latestTag"@, JsonTree::Text(f.latest_tag)),
                ("hasUpdate"@, JsonTree::Bool(f.has_update)),
                ("releaseName"@, JsonTree::Text(f.release_name)),
                ("releaseUrl"@, JsonTree::Text(f.release_url)),
                ("source"@, JsonTree::Text(f.source)),
                ("checkedAt"@, JsonTree::Number(Some(f.checked_at))),
            ];
            if f.is_dated {
                common.push(("publishedAt"@, text_or_null(f.published_at)))
            } else {
                common
            }
        },
        ReportView::Failed { message, release_url, checked_at } => seq![
            ("ok"@, JsonTree::Bool(false)),
            ("error"@, JsonTree::Text("所有更新源均不可达"@)),
            ("message"@, JsonTree::Text(message)),
            ("releaseUrl"@, JsonTree::Text(release_url)),
            ("checkedAt"@, JsonTree::Number(Some(checked_at))),
        ],
    }
}

/// The members of a report have different names.
proof fn lemma_report_names(r: ReportView)
    ensures
        has_distinct_names(report_fields(r)),
{
    reveal_strlit("ok");
    reveal_strlit("current");
    reveal_strlit("latest");
    reveal_strlit("latestTag");
    reveal_strlit("hasUpdate");
    reveal_strlit("releaseName");
    reveal_strlit("releaseUrl");
    reveal_strlit("source");
    reveal_strlit("checkedAt");
    reveal_strlit("publishedAt");
    reveal_strlit("error");
    reveal_strlit("message");
    assert("ok"@.len() == 2);
    assert("current"@.len() == 7);
    assert("latest"@.len() == 6);
    assert("latestTag"@.len() == 9);
    assert("hasUpdate"@.len() == 9);
    assert("releaseName"@.len() == 11);
    assert("releaseUrl"@.len() == 10);
    assert("source"@.len() == 6);
    assert("checkedAt"@.len() == 9);
    assert("publishedAt"@.len() == 11);
    assert("error"@.len() == 5);
    assert("message"@.len() == 7);
    assert("current"@[0] != "message"@[0]);
    assert("latest"@[0] != "source"@[0]);
    assert("latestTag"@[0] != "hasUpdate"@[0]);
    assert("latestTag"@[0] != "checkedAt"@[0]);
    assert("hasUpdate"@[0] != "checkedAt"@[0]);
    assert("releaseName"@[0] != "publishedAt"@[0]);
}

/// A report as it is sent out.
pub fn report_value(report: &CheckReport) -> (r: Value)
    ensures
        json_tree(r) == object_tree(report_fields(report@)),
{
    let mut fields: Vec<(String, Value)> = Vec::new();
    match report {
        CheckReport::Found(f) => {
            fields.push(field("ok", json_bool(true)));
            fields.push(field("current", json_string(f.current.as_str())));
            fields.push(field("latest", json_string(f.latest.as_str())));
            fields.push(field("latestTag", json_string(f.latest_tag.as_str())));
            fields.push(field("hasUpdate", json_bool(f.has_update)));
            fields.push(field("releaseName", json_string(f.release_name.as_str())));
            fields.push(field("releaseUrl", json_string(f.release_url.as_str())));
            fields.push(field("source", json_string(f.source.as_str())));
            fields.push(field("checkedAt", json_integer(f.checked_at)));
            if f.is_dated {
                fields.push(field("publishedAt", json_opt_string(&f.published_at)));
            }
        },
        CheckReport::Failed(f) => {
            fields.push(field("ok", json_bool(false)));
            fields.push(field("error", json_string("所有更新源均不可达")));
            fields.push(field("message", json_string(f.message.as_str())));
            fields.push(field("releaseUrl", json_string(f.release_url.as_str())));
            fields.push(field("checkedAt", json_integer(f.checked_at)));
        },
    }
    proof {
        assert(field_views(fields@) =~= report_fields(report@));
        lemma_report_names(report@);
    }
    json_object(fields)
}

/// A version without one leading `v`.
pub open spec fn without_v(version: Seq<char>) -> Seq<char> {
    if version.len() > 0 && version[0] == 'v' {
        version.drop_first()
    } else {
        version
    }
}

/// A version without one leading `v`.
pub fn strip_v(version: &str) -> (r: String)
    ensures
        r@ == without_v(version@),
{
    let chars = chars_of(version);
    if chars.len() > 0 && chars[0] == 'v' {
        let rest = string_of(&chars, 1, chars.len());
        assert(rest@ =~= version@.drop_first());
        rest
    } else {
        version.to_string()
    }
}

// ---------------------------------------------------------------------------
// The page of the latest release
// ---------------------------------------------------------------------------

/// Why the tag of the latest release is not known.
#[derive(Debug)]
pub struct TagError {
    pub message: String,
    pub code: i64,
}

/// The contents of the headers of an answer.
pub open spec fn header_views(headers: Seq<(String, String)>) -> Seq<(Seq<char>, Seq<char>)> {
    Seq::new(headers.len(), |i: int| (headers[i].0@, headers[i].1@))
}

/// The value of the first header that is named `location`, in any case.
pub open spec fn location_in(headers: Seq<(Seq<char>, Seq<char>)>) -> Option<Seq<char>>
    decreases headers.len(),
{
    if headers.len() == 0 {
        None
    } else {
        match location_in(headers.drop_last()) {
            Some(v) => Some(v),
            None => if same_ignoring_case(headers.last().0, "location"@) {
                Some(headers.last().1)
            } else {
                None
            },
        }
    }
}

/// The tag that the answer to a request for the page of the latest release leads to, or what is
/// said of its absence and a code. A status of zero stands for a request that failed, with the
/// reason as the body.
pub open spec fn tag_of(
    status: u16,
    headers: Seq<(Seq<char>, Seq<char>)>,
    body: Seq<char>,
) -> Result<Seq<char>, (Seq<char>, int)> {
    if status == 0 {
        Err(
            (
                if trimmed(body).len() == 0 {
                    "网络请求失败"@
                } else {
                    body
                },
                -1int,
            ),
        )
    } else if status == 404 {
        Err(("未找到可用的发布版本"@, 404int))
    } else {
        match location_in(headers) {
            None => Err(
                (
                    "无法获取发布页跳转地址（HTTP "@ + int_text(status as int) + "）"@,
                    status as int,
                ),
            ),
            Some(location) => {
                let tag = trimmed(last_piece(location, CharSet::One('/')));
                if tag.len() == 0 || !contains_text(location, "/releases/tag/"@) {
                    Err(("无法解析发布版本标签"@, -1int))
                } else {
                    Ok(tag)
                }
            },
        }
    }
}

/// The contents of the tag, or of what is said of its absence.
pub open spec fn tag_view(r: Result<String, TagError>) -> Result<Seq<char>, (Seq<char>, int)> {
    match r {
        Ok(tag) => Ok(tag@),
        Err(e) => Err((e.message@, e.code as int)),
    }
}

fn find_location(headers: &Vec<(String, String)>) -> (r: Option<String>)
    ensures
        view_opt(r) == location_in(header_views(headers@)),
{
    let ghost all = header_views(headers@);
    let mut found: Option<usize> = None;
    let mut i: usize = headers.len();
    proof {
        assert(all.take(i as int) =~= all);
    }
    while i > 0
        invariant
            i <= headers@.len(),
            all == header_views(headers@),
            found matches Some(k) ==> k < headers@.len(),
            location_in(all) == match location_in(all.take(i as int)) {
                Some(v) => Some(v),
                None => match found {
                    Some(k) => Some(headers@[k as int].1@),
                    None => None,
                },
            },
        decreases i,
    {
        proof {
            assert(all.take(i as int).drop_last() =~= all.take(i - 1));
            assert(all.take(i as int).last() == all[i - 1]);
        }
        if eq_ignoring_case(headers[i - 1].0.as_str(), "location") {
            found = Some(i - 1);
        }
        i -= 1;
    }
    match found {
        Some(k) => Some(headers[k].1.clone()),
        None => None,
    }
}

/// The tag that the answer to a request for the page of the latest release leads to.
pub fn latest_tag(status: u16, headers: &Vec<(String, String)>, body: &str) -> (r: Result<
    String,
    TagError,
>)
    ensures
        tag_view(r) == tag_of(status, header_views(headers@), body@),
{
    if status == 0 {
        let message = if trim(body).as_str().is_empty() {
            "网络请求失败".to_string()
        } else {
            body.to_string()
        };
        return Err(TagError { message, code: -1 });
    }
    if status == 404 {
        return Err(TagError { message: "未找到可用的发布版本".to_string(), code: 404 });
    }
    let location = match find_location(headers) {
        Some(location) => location,
        None => {
            let message = concat3(
                "无法获取发布页跳转地址（HTTP ",
                decimal(status as i64).as_str(),
                "）",
            );
            return Err(TagError { message, code: status as i64 });
        },
    };
    let chars = chars_of(location.as_str());
    let start = last_piece_start(&chars, 0, chars.len(), CharSet::One('/'));
    proof {
        assert(chars@.subrange(0, chars@.len() as int) =~= chars@);
    }
    let tag = trim(string_of(&chars, start, chars.len()).as_str());
    let named = find_text(location.as_str(), "/releases/tag/");
    if tag.as_str().is_empty() || named.is_none() {
        return Err(TagError { message: "无法解析发布版本标签".to_string(), code: -1 });
    }
    Ok(tag)
}

// ---------------------------------------------------------------------------
// The course of a check
// ---------------------------------------------------------------------------

/// The kind of source that is being asked.
#[derive(Debug, Clone, Copy, PartialEq, Eq, Structural)]
pub enum Stage {
    Manifest,
    Redirect,
    Cdn,
}

/// A check under way.
#[derive(Debug)]
pub struct UpdateCheck {
    pub owner: String,
    pub repo: String,
    /// The addresses of the manifest, the preferred one first.
    pub urls: Vec<String>,
    pub stage: Stage,
    /// Which address of this stage is being asked.
    pub next: usize,
    /// How often it was asked in vain.
    pub attempt: usize,
    /// What the last failure of this stage was.
    pub last_error: String,
    /// What the failures of the stages before this one were.
    pub failures: Vec<String>,
}

/// The contents of an `UpdateCheck`.
pub struct CheckView {
    pub owner: Seq<char>,
    pub repo: Seq<char>,
    pub urls: Seq<Seq<char>>,
    pub stage: Stage,
    pub next: int,
    pub attempt: int,
    pub last_error: Seq<char>,
    pub failures: Seq<Seq<char>>,
}

impl View for UpdateCheck {
    type V = CheckView;

    open spec fn view(&self) -> CheckView {
        CheckView {
            owner: self.owner@,
            repo: self.repo@,
            urls: views(self.urls@),
            stage: self.stage,
            next: self.next as int,
            attempt: self.attempt as int,
            last_error: self.last_error@,
            failures: views(self.failures@),
        }
    }
}

impl CheckView {
    /// There is an address to ask.
    pub open spec fn valid(self) -> bool {
        match self.stage {
            Stage::Manifest => {
                &&& 0 <= self.next < self.urls.len()
                &&& 0 <= self.attempt < TRANSPORT_ATTEMPTS
                &&& self.failures.len() == 0
            },
            Stage::Redirect => self.failures.len() == 1,
            Stage::Cdn => 0 <= self.next < 3 && self.failures.len() == 2,
        }
    }
}

/// The hosts of the content delivery network.
pub open spec fn cdn_hosts() -> Seq<Seq<char>> {
    seq![
        "https://cdn.jsdelivr.net"@,
        "https://fastly.jsdelivr.net"@,
        "https://gcore.jsdelivr.net"@,
    ]
}

fn cdn_host(i: usize) -> (r: &'static str)
    requires
        i < 3,
    ensures
        r@ == cdn_hosts()[i as int],
{
    if i == 0 {
        "https://cdn.jsdelivr.net"
    } else if i == 1 {
        "https://fastly.jsdelivr.net"
    } else {
        "https://gcore.jsdelivr.net"
    }
}

/// Every address of every manifest, each manifest with its mirrors.
pub open spec fn all_candidates(manifests: Seq<Seq<char>>, mirrors: Seq<Seq<char>>) -> Seq<
    Seq<char>,
>
    decreases manifests.len(),
{
    if manifests.len() == 0 {
        Seq::empty()
    } else {
        all_candidates(manifests.drop_last(), mirrors) + mirrored(manifests.last(), mirrors)
    }
}

fn collect_candidates(manifests: &Vec<String>, mirrors: &Vec<String>) -> (r: Vec<String>)
    ensures
        views(r@) == all_candidates(views(manifests@), views(mirrors@)),
{
    let ghost all = views(manifests@);
    let mut out: Vec<String> = Vec::new();
    let mut i: usize = 0;
    assert(views(out@) =~= all_candidates(all.take(0), views(mirrors@)));
    while i < manifests.len()
        invariant
            i <= manifests@.len(),
            all == views(manifests@),
            views(out@) == all_candidates(all.take(i as int), views(mirrors@)),
        decreases manifests@.len() - i,
    {
        let ghost before = views(out@);
        let mut more = candidate_urls(manifests[i].as_str(), mirrors);
        let ghost added = views(more@);
        out.append(&mut more);
        proof {
            assert(all.take(i + 1).drop_last() =~= all.take(i as int));
            assert(views(out@) =~= before + added);
        }
        i += 1;
    }
    assert(all.take(i as int) =~= all);
    out
}

/// The check of a repository, before anything was asked.
pub open spec fn first_step(
    owner: Seq<char>,
    repo: Seq<char>,
    mirrors: Seq<Seq<char>>,
    os: Seq<char>,
    arch: Seq<char>,
) -> CheckView {
    CheckView {
        owner,
        repo,
        urls: all_candidates(manifest_urls(owner, repo, os, arch), mirrors),
        stage: Stage::Manifest,
        next: 0,
        attempt: 0,
        last_error: "更新清单不可用"@,
        failures: Seq::empty(),
    }
}

/// What is to be asked.
#[derive(Debug)]
pub struct HttpRequest {
    pub url: String,
    /// The kind of document that is asked for.
    pub accept: &'static str,
    /// Whether a redirection is followed.
    pub follow_redirects: bool,
}

/// The address that is asked next.
pub open spec fn address_of(c: CheckView) -> Seq<char> {
    match c.stage {
        Stage::Manifest => c.urls[c.next],
        Stage::Redirect => release_page(c.owner, c.repo),
        Stage::Cdn => cdn_hosts()[c.next] + "/gh/"@ + c.owner + "/"@ + c.repo + "/package.json"@,
    }
}

/// What a check does next: it asks again, after a pause, or it is over.
#[derive(Debug)]
pub enum CheckStep {
    Ask { delay_ms: u64 },
    Done(CheckReport),
}

/// A check after an answer.
pub struct StepView {
    pub check: CheckView,
    pub delay_ms: int,
    pub report: Option<ReportView>,
}

/// The contents of a step, after which the check stands at `check`.
pub open spec fn step_view(check: CheckView, step: CheckStep) -> StepView {
    match step {
        CheckStep::Ask { delay_ms } => StepView { check, delay_ms: delay_ms as int, report: None },
        CheckStep::Done(report) => StepView { check, delay_ms: 0, report: Some(report@) },
    }
}

/// A check that goes on without a pause.
pub open spec fn going_on(check: CheckView) -> StepView {
    StepView { check, delay_ms: 0, report: None }
}

/// The check after the last failure at the address that was asked: the next address, or the next
/// stage.
pub open spec fn past_manifest(c: CheckView, error: Seq<char>) -> CheckView {
    if c.next + 1 < c.urls.len() {
        CheckView { next: c.next + 1, attempt: 0, last_error: error, ..c }
    } else {
        CheckView {
            stage: Stage::Redirect,
            next: 0,
            attempt: 0,
            last_error: error,
            failures: c.failures.push("更新清单（直连+镜像）: "@ + error),
            ..c
        }
    }
}

/// What a manifest found at `source` says of the latest release.
pub open spec fn manifest_release(
    c: CheckView,
    manifest: JsonTree,
    version: Seq<char>,
    source: Seq<char>,
    now: i64,
) -> FoundView {
    let latest = without_v(version);
    let tag = "v"@ + latest;
    FoundView {
        current: APP_VERSION@,
        latest,
        latest_tag: tag,
        has_update: version_order(latest, APP_VERSION@) > 0,
        release_name: match text_member(manifest, "name"@) {
            Some(name) => name,
            None => tag,
        },
        release_url: release_page(c.owner, c.repo),
        is_dated: true,
        published_at: text_member(manifest, "pub_date"@),
        source,
        checked_at: now,
    }
}

/// The latest release, where only its version and tag are known.
pub open spec fn bare_release(
    c: CheckView,
    latest: Seq<char>,
    tag: Seq<char>,
    source: Seq<char>,
    now: i64,
) -> FoundView {
    FoundView {
        current: APP_VERSION@,
        latest,
        latest_tag: tag,
        has_update: version_order(latest, APP_VERSION@) > 0,
        release_name: tag,
        release_url: release_page(c.owner, c.repo),
        is_dated: false,
        published_at: None,
        source,
        checked_at: now,
    }
}

/// The version that an answer names, without white space around it.
pub open spec fn version_in(answer: JsonTree) -> Seq<char> {
    match text_member(answer, "version"@) {
        Some(v) => trimmed(v),
        None => Seq::empty(),
    }
}

/// The check after an answer to a request for a manifest.
///
/// An answer with a version ends the check. One with a code of zero or more came from a server that
/// has no manifest: the next address is asked. Any other means that the server could not be
/// reached: it is asked once more, after a pause.
pub open spec fn after_manifest(c: CheckView, answer: JsonTree, now: i64) -> StepView {
    let version = version_in(answer);
    let code = match integer_member(answer, "code"@) {
        Some(code) => code as int,
        None => 0,
    };
    let message = match text_member(answer, "message"@) {
        Some(m) => m,
        None => "更新清单解析失败"@,
    };
    if version.len() > 0 {
        StepView {
            check: c,
            delay_ms: 0,
            report: Some(
                ReportView::Found(
                    manifest_release(c, answer, version, c.urls[c.next], now),
                ),
            ),
        }
    } else if code >= 0 {
        going_on(past_manifest(c, "HTTP "@ + int_text(code) + ": "@ + message))
    } else if c.attempt + 1 < TRANSPORT_ATTEMPTS {
        StepView {
            check: CheckView { attempt: c.attempt + 1, last_error: message, ..c },
            delay_ms: RETRY_DELAY_MS as int,
            report: None,
        }
    } else {
        going_on(past_manifest(c, message))
    }
}

/// The check after the answer to the request for the page of the latest release.
pub open spec fn after_redirect(
    c: CheckView,
    tag: Result<Seq<char>, (Seq<char>, int)>,
    now: i64,
) -> StepView {
    match tag {
        Ok(tag) => StepView {
            check: c,
            delay_ms: 0,
            report: Some(
                ReportView::Found(
                    bare_release(c, without_v(tag), tag, "release-redirect"@, now),
                ),
            ),
        },
        Err((message, code)) => going_on(
            CheckView {
                stage: Stage::Cdn,
                next: 0,
                attempt: 0,
                last_error: "jsDelivr CDN 不可达"@,
                failures: c.failures.push(
                    "release 页跳转: "@ + message + "（code="@ + int_text(code) + "）"@,
                ),
                ..c
            },
        ),
    }
}

/// What is said where no source could be reached, with what each of them failed on.
pub open spec fn failure_text(failures: Seq<Seq<char>>) -> Seq<char> {
    "检查更新失败：GitHub 直连、国内镜像加速与 jsDelivr CDN 均无法访问。请检查网络连接后重试；该失败不影响软件其他功能。详情："@
        + separated(failures, "；"@)
}

/// The check after an answer of the content delivery network.
pub open spec fn after_cdn(c: CheckView, answer: JsonTree, now: i64) -> StepView {
    let version = skip_leading(version_in(answer), CharSet::One('v'));
    let error = match text_member(answer, "message"@) {
        Some(m) => m,
        None => c.last_error,
    };
    if version.len() > 0 {
        StepView {
            check: c,
            delay_ms: 0,
            report: Some(
                ReportView::Found(
                    bare_release(c, version, "v"@ + version, "jsdelivr-cdn"@, now),
                ),
            ),
        }
    } else if c.next + 1 < 3 {
        going_on(CheckView { next: c.next + 1, last_error: error, ..c })
    } else {
        let failures = c.failures.push("jsDelivr CDN: "@ + error);
        StepView {
            check: CheckView { last_error: error, failures, ..c },
            delay_ms: 0,
            report: Some(
                ReportView::Failed {
                    message: failure_text(failures),
                    release_url: release_page(c.owner, c.repo),
                    checked_at: now,
                },
            ),
        }
    }
}

fn read_version(answer: &Value) -> (r: String)
    ensures
        r@ == version_in(json_tree(*answer)),
{
    match get_text(answer, "version") {
        Some(v) => trim(v.as_str()),
        None => String::new(),
    }
}

impl UpdateCheck {
    /// Starts a check of the repository that `config` names, for this system.
    pub fn start(config: &GithubConfig, os: &str, arch: &str) -> (r: Self)
        ensures
            r@ == first_step(config@.owner, config@.repo, config@.mirrors, os@, arch@),
            r@.valid(),
    {
        let manifests = updater_manifest_urls(
            config.owner.as_str(),
            config.repo.as_str(),
            os,
            arch,
        );
        let urls = collect_candidates(&manifests, &config.mirrors);
        proof {
            lemma_some_candidate(views(manifests@), config@.mirrors);
        }
        let failures: Vec<String> = Vec::new();
        assert(views(failures@) =~= Seq::empty());
        UpdateCheck {
            owner: config.owner.clone(),
            repo: config.repo.clone(),
            urls,
            stage: Stage::Manifest,
            next: 0,
            attempt: 0,
            last_error: "更新清单不可用".to_string(),
            failures,
        }
    }

    /// What is to be asked next.
    pub fn request(&self) -> (r: HttpRequest)
        requires
            self@.valid(),
        ensures
            r.url@ == address_of(self@),
            r.accept@ == if self@.stage is Redirect {
                "text/html"@
            } else {
                "application/json"@
            },
            r.follow_redirects == !(self@.stage is Redirect),
    {
        match self.stage {
            Stage::Manifest => HttpRequest {
                url: self.urls[self.next].clone(),
                accept: "application/json",
                follow_redirects: true,
            },
            Stage::Redirect => HttpRequest {
                url: release_page_url(self.owner.as_str(), self.repo.as_str()),
                accept: "text/html",
                follow_redirects: false,
            },
            Stage::Cdn => {
                let mut url = concat3(cdn_host(self.next), "/gh/", self.owner.as_str());
                url.append("/");
                url.append(self.repo.as_str());
                url.append("/package.json");
                HttpRequest { url, accept: "application/json", follow_redirects: true }
            },
        }
    }

    fn leave_address(&mut self, error: String)
        requires
            old(self)@.valid(),
            old(self)@.stage is Manifest,
        ensures
            final(self)@ == past_manifest(old(self)@, error@),
    {
        let total: usize = self.urls.len();
        if self.next + 1 < total {
            self.next += 1;
            self.attempt = 0;
            self.last_error = error;
        } else {
            let ghost before = views(self.failures@);
            let line = concat2("更新清单（直连+镜像）: ", error.as_str());
            let ghost added = line@;
            self.failures.push(line);
            assert(views(self.failures@) =~= before.push(added));
            self.stage = Stage::Redirect;
            self.next = 0;
            self.attempt = 0;
            self.last_error = error;
        }
    }

    fn bare(&self, latest: String, tag: String, source: &str, now: i64) -> (r: CheckReport)
        ensures
            r@ == ReportView::Found(bare_release(self@, latest@, tag@, source@, now)),
    {
        let has_update = compare_versions(latest.as_str(), APP_VERSION) > 0;
        CheckReport::Found(
            FoundRelease {
                current: APP_VERSION.to_string(),
                latest,
                latest_tag: tag.clone(),
                has_update,
                release_name: tag,
                release_url: release_page_url(self.owner.as_str(), self.repo.as_str()),
                is_dated: false,
                published_at: None,
                source: source.to_string(),
                checked_at: now,
            },
        )
    }

    /// Takes the answer to a request for a manifest, received at `now` seconds.
    pub fn on_manifest(&mut self, answer: &Value, now: i64) -> (r: CheckStep)
        requires
            old(self)@.valid(),
            old(self)@.stage is Manifest,
        ensures
            step_view(final(self)@, r) == after_manifest(old(self)@, json_tree(*answer), now),
    {
        let version = read_version(answer);
        if !version.as_str().is_empty() {
            let latest = strip_v(version.as_str());
            let tag = concat2("v", latest.as_str());
            let has_update = compare_versions(latest.as_str(), APP_VERSION) > 0;
            let release_name = match get_text(answer, "name") {
                Some(name) => name,
                None => tag.clone(),
            };
            return CheckStep::Done(
                CheckReport::Found(
                    FoundRelease {
                        current: APP_VERSION.to_string(),
                        latest,
                        latest_tag: tag,
                        has_update,
                        release_name,
                        release_url: release_page_url(self.owner.as_str(), self.repo.as_str()),
                        is_dated: true,
                        published_at: get_text(answer, "pub_date"),
                        source: self.urls[self.next].clone(),
                        checked_at: now,
                    },
                ),
            );
        }
        let code: i64 = match get_integer(answer, "code") {
            Some(code) => code,
            None => 0,
        };
        let message = match get_text(answer, "message") {
            Some(m) => m,
            None => "更新清单解析失败".to_string(),
        };
        if code >= 0 {
            let mut error = concat3("HTTP ", decimal(code).as_str(), ": ");
            error.append(message.as_str());
            self.leave_address(error);
            CheckStep::Ask { delay_ms: 0 }
        } else if self.attempt + 1 < TRANSPORT_ATTEMPTS {
            self.attempt += 1;
            self.last_error = message;
            CheckStep::Ask { delay_ms: RETRY_DELAY_MS }
        } else {
            self.leave_address(message);
            CheckStep::Ask { delay_ms: 0 }
        }
    }

    /// Takes the answer to the request for the page of the latest release, received at `now`
    /// seconds. A status of zero stands for a request that failed, with the reason as the body.
    pub fn on_redirect(
        &mut self,
        status: u16,
        headers: &Vec<(String, String)>,
        body: &str,
        now: i64,
    ) -> (r: CheckStep)
        requires
            old(self)@.stage is Redirect,
        ensures
            step_view(final(self)@, r) == after_redirect(
                old(self)@,
                tag_of(status, header_views(headers@), body@),
                now,
            ),
    {
        match latest_tag(status, headers, body) {
            Ok(tag) => {
                let latest = strip_v(tag.as_str());
                CheckStep::Done(self.bare(latest, tag, "release-redirect", now))
            },
            Err(e) => {
                let ghost before = views(self.failures@);
                let mut line = concat3("release 页跳转: ", e.message.as_str(), "（code=");
                line.append(decimal(e.code).as_str());
                line.append("）");
                let ghost added = line@;
                self.failures.push(line);
                assert(views(self.failures@) =~= before.push(added));
                self.stage = Stage::Cdn;
                self.next = 0;
                self.attempt = 0;
                self.last_error = "jsDelivr CDN 不可达".to_string();
                CheckStep::Ask { delay_ms: 0 }
            },
        }
    }

    /// Takes an answer of the content delivery network, received at `now` seconds.
    pub fn on_cdn(&mut self, answer: &Value, now: i64) -> (r: CheckStep)
        requires
            old(self)@.valid(),
            old(self)@.stage is Cdn,
        ensures
            step_view(final(self)@, r) == after_cdn(old(self)@, json_tree(*answer), now),
    {
        let version = trim_start_of(read_version(answer).as_str(), CharSet::One('v'));
        if !version.as_str().is_empty() {
            let tag = concat2("v", version.as_str());
            return CheckStep::Done(self.bare(version, tag, "jsdelivr-cdn", now));
        }
        if let Some(m) = get_text(answer, "message") {
            self.last_error = m;
        }
        if self.next + 1 < 3 {
            self.next += 1;
            return CheckStep::Ask { delay_ms: 0 };
        }
        let ghost before = views(self.failures@);
        let line = concat2("jsDelivr CDN: ", self.last_error.as_str());
        let ghost added = line@;
        self.failures.push(line);
        assert(views(self.failures@) =~= before.push(added));
        let detail = separate(&self.failures, "；");
        let message = concat2(
            "检查更新失败：GitHub 直连、国内镜像加速与 jsDelivr CDN 均无法访问。请检查网络连接后重试；该失败不影响软件其他功能。详情：",
            detail.as_str(),
        );
        CheckStep::Done(
            CheckReport::Failed(
                FailedCheck {
                    message,
                    release_url: release_page_url(self.owner.as_str(), self.repo.as_str()),
                    checked_at: now,
                },
            ),
        )
    }
}

proof fn lemma_some_candidate(manifests: Seq<Seq<char>>, mirrors: Seq<Seq<char>>)
    requires
        manifests.len() > 0,
    ensures
        all_candidates(manifests, mirrors).len() > 0,
{
}

// ---------------------------------------------------------------------------
// Results that are still good
// ---------------------------------------------------------------------------

/// A result, and when it was stored.
#[derive(Debug)]
pub struct CachedCheck {
    /// In seconds.
    pub checked_at: i64,
    pub report: CheckReport,
}

/// What is stored, and when it was: nothing, or a result.
pub open spec fn cache_view(cache: Option<CachedCheck>) -> Option<(int, ReportView)> {
    match cache {
        Some(stored) => Some((stored.checked_at as int, stored.report@)),
        None => None,
    }
}

/// The stored result that is still good at `now`, unless a new one is asked for.
pub open spec fn still_good(
    cache: Option<(int, ReportView)>,
    force: bool,
    now: i64,
) -> Option<ReportView> {
    match cache {
        Some((checked_at, report)) => if !force && now - checked_at < CACHE_TTL_SECS {
            Some(report)
        } else {
            None
        },
        None => None,
    }
}

/// What is stored once a check has ended at `now` with `report`.
pub open spec fn remembered(
    cache: Option<(int, ReportView)>,
    report: ReportView,
    now: i64,
) -> Option<(int, ReportView)> {
    match report {
        ReportView::Found(_) => Some((now as int, report)),
        ReportView::Failed { .. } => cache,
    }
}

/// The stored result that is still good at `now` seconds, unless a new one is asked for.
pub fn stored_report(cache: &Option<CachedCheck>, force: bool, now: i64) -> (r: Option<CheckReport>)
    ensures
        match still_good(cache_view(*cache), force, now) {
            Some(report) => r matches Some(found) && found@ == report,
            None => r is None,
        },
{
    if force {
        return None;
    }
    match cache {
        Some(stored) => if (now as i128) - (stored.checked_at as i128) < CACHE_TTL_SECS as i128 {
            Some(stored.report.clone())
        } else {
            None
        },
        None => None,
    }
}

/// How a check begins.
#[derive(Debug)]
pub enum CheckStart {
    /// A stored result is still good: nothing is asked.
    Cached(CheckReport),
    /// The sources are asked, through this proxy.
    Ask(UpdateCheck, Option<String>),
}

/// Begins a check at `now` seconds: hands out a stored result that is still good, unless a new one
/// is asked for; otherwise starts to ask the sources, through the proxy that is asked for or else
/// the configured one.
pub fn update_check(
    cache: &Option<CachedCheck>,
    force: bool,
    now: i64,
    config: &GithubConfig,
    proxy: Option<String>,
    os: &str,
    arch: &str,
) -> (r: CheckStart)
    ensures
        match still_good(cache_view(*cache), force, now) {
            Some(report) => r matches CheckStart::Cached(c) && c@ == report,
            None => r matches CheckStart::Ask(check, used) && check@ == first_step(
                config@.owner,
                config@.repo,
                config@.mirrors,
                os@,
                arch@,
            ) && check@.valid() && view_opt(used) == proxy_in_use(view_opt(proxy), config@.proxy),
        },
{
    if let Some(report) = stored_report(cache, force, now) {
        return CheckStart::Cached(report);
    }
    let used = match proxy {
        Some(p) => Some(p),
        None => configured_proxy(config),
    };
    CheckStart::Ask(UpdateCheck::start(config, os, arch), used)
}

/// Stores the result of a check that ended at `now` seconds. A failure is not stored: what was
/// stored before stays.
pub fn remember_report(cache: &mut Option<CachedCheck>, report: &CheckReport, now: i64)
    ensures
        cache_view(*final(cache)) == remembered(cache_view(*old(cache)), report@, now),
{
    match report {
        CheckReport::Found(_) => {
            *cache = Some(CachedCheck { checked_at: now, report: report.clone() });
        },
        CheckReport::Failed(_) => {},
    }
}

// ---------------------------------------------------------------------------
// Laws
// ---------------------------------------------------------------------------

/// A release that was found is handed out again, without a request, for as long as a result is good
/// for, unless a new one is asked for; after that it is not. A failure is not stored, and what was
/// found before it stays.
pub proof fn law_found_releases_are_good_for_a_while(
    cache: Option<(int, ReportView)>,
    report: ReportView,
    at: i64,
    now: i64,
)
    ensures
        report is Found ==> {
            let stored = remembered(cache, report, at);
            &&& now - at < CACHE_TTL_SECS ==> still_good(stored, false, now) == Some(report)
            &&& now - at >= CACHE_TTL_SECS ==> still_good(stored, false, now) is None
            &&& still_good(stored, true, now) is None
        },
        report is Failed ==> still_good(remembered(cache, report, at), false, now) == still_good(
            cache,
            false,
            now,
        ),
{
}

/// How many requests a check can still send.
pub open spec fn requests_left(c: CheckView) -> int {
    match c.stage {
        Stage::Manifest => TRANSPORT_ATTEMPTS * (c.urls.len() - c.next) - c.attempt + 4,
        Stage::Redirect => 4,
        Stage::Cdn => 3 - c.next,
    }
}

/// Every check ends: each answer that does not end it leaves it at an address that can be asked,
/// with fewer requests to send. It starts with at most two requests for each address of a manifest,
/// one for the page of the release and one for each host of the network.
pub proof fn law_every_check_ends(
    c: CheckView,
    answer: JsonTree,
    tag: Result<Seq<char>, (Seq<char>, int)>,
    now: i64,
)
    requires
        c.valid(),
    ensures
        requests_left(c) > 0,
        ({
            let step = match c.stage {
                Stage::Manifest => after_manifest(c, answer, now),
                Stage::Redirect => after_redirect(c, tag, now),
                Stage::Cdn => after_cdn(c, answer, now),
            };
            step.report is None ==> step.check.valid() && requests_left(step.check)
                < requests_left(c)
        }),
{
}

/// A check fails only once every stage has failed, and then says what each of them failed on.
pub proof fn law_a_check_fails_only_at_the_last_source(
    c: CheckView,
    answer: JsonTree,
    tag: Result<Seq<char>, (Seq<char>, int)>,
    now: i64,
)
    requires
        c.valid(),
    ensures
        !(after_manifest(c, answer, now).report matches Some(ReportView::Failed { .. })),
        !(after_redirect(c, tag, now).report matches Some(ReportView::Failed { .. })),
        c.stage is Cdn ==> (after_cdn(c, answer, now).report matches Some(
            ReportView::Failed { message, .. },
        ) ==> {
            let failures = after_cdn(c, answer, now).check.failures;
            &&& c.next == 2
            &&& failures.len() == 3
            &&& message == failure_text(failures)
        }),
{
}

/// Every address of a manifest is encrypted.
pub open spec fn asks_encrypted(c: CheckView) -> bool {
    forall|i: int| 0 <= i < c.urls.len() ==> begins_with(#[trigger] c.urls[i], "https://"@)
}

proof fn lemma_longer_begins(head: Seq<char>, tail: Seq<char>)
    requires
        begins_with(head, "https://"@),
    ensures
        begins_with(head + tail, "https://"@),
{
    let n = "https://"@.len() as int;
    assert((head + tail).subrange(0, n) =~= head.subrange(0, n));
}

proof fn lemma_candidates_are_encrypted(manifests: Seq<Seq<char>>, mirrors: Seq<Seq<char>>)
    requires
        forall|i: int|
            0 <= i < manifests.len() ==> begins_with(#[trigger] manifests[i], "https://"@),
        forall|i: int| 0 <= i < mirrors.len() ==> begins_with(#[trigger] mirrors[i], "https://"@),
    ensures
        forall|i: int|
            0 <= i < all_candidates(manifests, mirrors).len() ==> begins_with(
                #[trigger] all_candidates(manifests, mirrors)[i],
                "https://"@,
            ),
    decreases manifests.len(),
{
    if manifests.len() > 0 {
        let shorter = manifests.drop_last();
        let url = manifests.last();
        assert forall|i: int| 0 <= i < shorter.len() implies begins_with(
            #[trigger] shorter[i],
            "https://"@,
        ) by {
            assert(begins_with(manifests[i], "https://"@));
        }
        lemma_candidates_are_encrypted(shorter, mirrors);
        let before = all_candidates(shorter, mirrors);
        let all = all_candidates(manifests, mirrors);
        assert forall|i: int| 0 <= i < all.len() implies begins_with(
            #[trigger] all[i],
            "https://"@,
        ) by {
            if i < before.len() {
                assert(all[i] == before[i]);
            } else if i == before.len() {
                assert(all[i] == url);
                assert(begins_with(manifests[manifests.len() - 1], "https://"@));
            } else {
                let k = i - before.len() - 1;
                assert(all[i] == mirrors[k] + url);
                lemma_longer_begins(mirrors[k], url);
            }
        }
    }
}

/// Nothing is asked of an address that is not encrypted: neither at the start of a check, with
/// mirrors that are encrypted, as those in use always are, nor after any answer.
pub proof fn law_only_encrypted_addresses_are_asked(
    owner: Seq<char>,
    repo: Seq<char>,
    mirrors: Seq<Seq<char>>,
    os: Seq<char>,
    arch: Seq<char>,
    c: CheckView,
    answer: JsonTree,
    tag: Result<Seq<char>, (Seq<char>, int)>,
    now: i64,
)
    requires
        forall|i: int| 0 <= i < mirrors.len() ==> begins_with(#[trigger] mirrors[i], "https://"@),
        c.valid(),
        asks_encrypted(c),
    ensures
        asks_encrypted(first_step(owner, repo, mirrors, os, arch)),
        begins_with(address_of(c), "https://"@),
        asks_encrypted(after_manifest(c, answer, now).check),
        asks_encrypted(after_redirect(c, tag, now).check),
        asks_encrypted(after_cdn(c, answer, now).check),
{
    reveal_strlit("https://");
    reveal_strlit("https://github.com/");
    reveal_strlit("https://cdn.jsdelivr.net");
    reveal_strlit("https://fastly.jsdelivr.net");
    reveal_strlit("https://gcore.jsdelivr.net");
    assert("https://github.com/"@.subrange(0, 8) =~= "https://"@);
    assert("https://cdn.jsdelivr.net"@.subrange(0, 8) =~= "https://"@);
    assert("https://fastly.jsdelivr.net"@.subrange(0, 8) =~= "https://"@);
    assert("https://gcore.jsdelivr.net"@.subrange(0, 8) =~= "https://"@);
    let manifests = manifest_urls(owner, repo, os, arch);
    let site = "https://github.com/"@;
    assert forall|i: int| 0 <= i < manifests.len() implies begins_with(
        #[trigger] manifests[i],
        "https://"@,
    ) by {
        assert(manifests[i].subrange(0, 8) =~= "https://"@);
    }
    lemma_candidates_are_encrypted(manifests, mirrors);
    match c.stage {
        Stage::Manifest => {},
        Stage::Redirect => {
            assert(address_of(c).subrange(0, 8) =~= "https://"@);
        },
        Stage::Cdn => {
            let host = cdn_hosts()[c.next];
            assert(host.len() >= 8 && host.subrange(0, 8) =~= "https://"@);
            assert(address_of(c).subrange(0, 8) =~= host.subrange(0, 8));
        },
    }
}

/// What is sent out for a report is what the update service reads from it.
pub proof fn law_reports_are_read_back(r: ReportView)
    ensures
        ({
            let read = outcome_in(object_tree(report_fields(r)));
            match r {
                ReportView::Found(f) => {
                    &&& read.ok
                    &&& read.latest == Some(f.latest)
                    &&& read.has_update == f.has_update
                    &&& read.checked_at == Some(f.checked_at)
                },
                ReportView::Failed { message, .. } => {
                    &&& !read.ok
                    &&& read.message == Some(message)
                },
            }
        }),
{
    let fields = report_fields(r);
    lemma_report_names(r);
    match r {
        ReportView::Found(f) => {
            lemma_member(fields, 0);
            lemma_member(fields, 2);
            lemma_member(fields, 4);
            lemma_member(fields, 8);
        },
        ReportView::Failed { .. } => {
            lemma_member(fields, 0);
            lemma_member(fields, 2);
        },
    }
}

/// A release that was found comes to be on offer exactly where it is newer and its version is not
/// blank, and otherwise this version counts as the latest; unless a download is under way or waits
/// to be installed.
pub proof fn law_a_newer_release_is_offered(s: SnapshotView, f: FoundView, now: i64)
    requires
        !s.is_settled(),
    ensures
        ({
            let sent = object_tree(report_fields(ReportView::Found(f)));
            let after = after_check(checking(s), outcome_in(sent), now);
            &&& after.checked_at == Some(f.checked_at)
            &&& after.message is None
            &&& if f.has_update && trimmed(f.latest).len() > 0 {
                after.phase is Available && after.latest == Some(trimmed(f.latest))
            } else {
                after.phase is UpToDate && after.latest is None
            }
        }),
{
    law_reports_are_read_back(ReportView::Found(f));
}

} // verus!
