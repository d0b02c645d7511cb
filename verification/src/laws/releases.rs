//! How versions compare, and what a check for the latest release comes to.

use crate::json::{lemma_member, lemma_no_member, member, object_tree, JsonTree};
use crate::laws::conversations::is_visible;
use crate::laws::ledger::text_or_nothing;
use crate::laws::text::{
    is_free_of, law_only_blank_text_is_trimmed_away, law_separators_part_the_pieces, lemma_skipped,
};
use crate::numerals::{i64_numeral, int_text};
use crate::text::{
    contains_text, last_piece, pieces, same_ignoring_case, separated, skip_leading, trimmed, views,
    CharSet,
};
use crate::update::check::{
    address_of, after_cdn, after_manifest, after_redirect, all_candidates, cache_view, first_step,
    header_views, location_in, remembered, report_fields, step_view, still_good, tag_of, without_v,
    CachedCheck, CheckReport, CheckStep, CheckView, FoundRelease, UpdateCheck,
};
use crate::update::config::{release_page, APP_VERSION};
use crate::update::versions::{
    manifest_urls, mirrored, numbers, order_from, part, version_numbers, version_order,
};
use vstd::prelude::*;

verus! {

broadcast use vstd::string::group_string_axioms;

// ---------------------------------------------------------------------------
// Versions
// ---------------------------------------------------------------------------

/// What one part of a version adds: its number, or nothing where it is no numeral.
pub open spec fn number_in(text: Seq<char>) -> Seq<int> {
    match i64_numeral(text) {
        Some(n) => seq![n],
        None => Seq::empty(),
    }
}

proof fn lemma_numbers(a: Seq<Seq<char>>, b: Seq<Seq<char>>)
    ensures
        numbers(a + b) == numbers(a) + numbers(b),
    decreases b.len(),
{
    if b.len() == 0 {
        assert(a + b =~= a);
        assert(numbers(a) + numbers(b) =~= numbers(a));
    } else {
        let short = b.drop_last();
        assert((a + b).drop_last() =~= a + short);
        assert((a + b).last() == b.last());
        lemma_numbers(a, short);
        if let Some(n) = i64_numeral(b.last()) {
            assert((numbers(a) + numbers(short)).push(n) =~= numbers(a) + numbers(short).push(n));
        }
    }
}

/// A version is the numbers between its dots, in order. Any `v` in front does not count, nor does a
/// part that is no numeral.
pub proof fn law_what_a_version_is(a: Seq<char>, b: Seq<char>, s: Seq<char>)
    requires
        !a.contains('.'),
        a.len() > 0 ==> a[0] != 'v',
        b.len() > 0 ==> b[0] != 'v',
    ensures
        version_numbers(a) == number_in(a),
        version_numbers(a + seq!['.'] + b) == number_in(a) + version_numbers(b),
        version_numbers(seq!['v'] + s) == version_numbers(s),
{
    let dot = CharSet::One('.');
    let v = CharSet::One('v');
    assert(is_free_of(a, dot)) by {
        assert forall|i: int| 0 <= i < a.len() implies !dot.has(#[trigger] a[i]) by {
            assert(a.contains(a[i]));
        }
    }
    law_separators_part_the_pieces(a, '.', b, dot);
    let whole = a + seq!['.'] + b;
    assert(skip_leading(a, v) == a);
    assert(skip_leading(b, v) == b);
    assert(whole[0] != 'v');
    assert(skip_leading(whole, v) == whole);
    lemma_numbers(pieces(a, dot), pieces(b, dot));
    let one = seq![a];
    assert(one.drop_last().len() == 0);
    assert(one.last() == a);
    assert(numbers(one.drop_last()) =~= Seq::empty());
    assert(numbers(one) =~= number_in(a));
    assert((seq!['v'] + s).drop_first() =~= s);
}

/// The number at a place of a version, zero where it has no such place.
pub open spec fn number_at(v: Seq<char>, i: int) -> int {
    if i < version_numbers(v).len() {
        version_numbers(v)[i]
    } else {
        0
    }
}

/// `a` is later than `b`: at the first place where their numbers differ that of `a` is the greater.
pub open spec fn is_later(a: Seq<char>, b: Seq<char>) -> bool {
    exists|j: int|
        0 <= j && #[trigger] number_at(a, j) > number_at(b, j) && forall|k: int|
            0 <= k < j ==> #[trigger] number_at(a, k) == number_at(b, k)
}

proof fn lemma_order(a: Seq<int>, b: Seq<int>, i: int)
    requires
        0 <= i,
    ensures
        order_from(a, b, i) == 1 || order_from(a, b, i) == 0 || order_from(a, b, i) == -1,
        order_from(a, b, i) == 1 ==> exists|j: int|
            i <= j && #[trigger] part(a, j) > part(b, j) && forall|k: int|
                i <= k < j ==> #[trigger] part(a, k) == part(b, k),
        order_from(a, b, i) == -1 ==> exists|j: int|
            i <= j && #[trigger] part(a, j) < part(b, j) && forall|k: int|
                i <= k < j ==> #[trigger] part(a, k) == part(b, k),
        order_from(a, b, i) == 0 ==> forall|k: int|
            i <= k ==> #[trigger] part(a, k) == part(b, k),
    decreases (if a.len() > b.len() { a.len() } else { b.len() }) - i,
{
    if i >= a.len() && i >= b.len() {
    } else if part(a, i) > part(b, i) {
    } else if part(a, i) < part(b, i) {
    } else {
        lemma_order(a, b, i + 1);
        if order_from(a, b, i) == 1 {
            let j = choose|j: int|
                i + 1 <= j && #[trigger] part(a, j) > part(b, j) && forall|k: int|
                    i + 1 <= k < j ==> #[trigger] part(a, k) == part(b, k);
            assert(part(a, j) > part(b, j));
        }
        if order_from(a, b, i) == -1 {
            let j = choose|j: int|
                i + 1 <= j && #[trigger] part(a, j) < part(b, j) && forall|k: int|
                    i + 1 <= k < j ==> #[trigger] part(a, k) == part(b, k);
            assert(part(a, j) < part(b, j));
        }
    }
}

/// Versions compare by the first place where their numbers differ; those that are missing are
/// zeros.
pub proof fn law_how_versions_compare(a: Seq<char>, b: Seq<char>)
    ensures
        version_order(a, b) == 1 || version_order(a, b) == 0 || version_order(a, b) == -1,
        version_order(a, b) > 0 <==> is_later(a, b),
        version_order(a, b) < 0 <==> is_later(b, a),
        version_order(a, b) == 0 <==> forall|k: int|
            0 <= k ==> #[trigger] number_at(a, k) == number_at(b, k),
{
    let x = version_numbers(a);
    let y = version_numbers(b);
    assert forall|k: int| 0 <= k implies #[trigger] number_at(a, k) == part(x, k) by {}
    assert forall|k: int| 0 <= k implies #[trigger] number_at(b, k) == part(y, k) by {}
    lemma_order(x, y, 0);
    let o = order_from(x, y, 0);
    if o == 1 {
        let j = choose|j: int|
            0 <= j && #[trigger] part(x, j) > part(y, j) && forall|k: int|
                0 <= k < j ==> #[trigger] part(x, k) == part(y, k);
        assert forall|k: int| 0 <= k < j implies #[trigger] number_at(a, k) == number_at(b, k) by {
            assert(part(x, k) == part(y, k));
        }
        assert(number_at(a, j) > number_at(b, j));
        assert(is_later(a, b));
        lemma_not_both(a, b);
    } else if o == -1 {
        let j = choose|j: int|
            0 <= j && #[trigger] part(x, j) < part(y, j) && forall|k: int|
                0 <= k < j ==> #[trigger] part(x, k) == part(y, k);
        assert forall|k: int| 0 <= k < j implies #[trigger] number_at(b, k) == number_at(a, k) by {
            assert(part(x, k) == part(y, k));
        }
        assert(number_at(b, j) > number_at(a, j));
        assert(is_later(b, a));
        lemma_not_both(b, a);
    } else {
        assert forall|k: int| 0 <= k implies #[trigger] number_at(a, k) == number_at(b, k) by {
            assert(part(x, k) == part(y, k));
        }
        if is_later(b, a) {
            let j = choose|j: int|
                0 <= j && #[trigger] number_at(b, j) > number_at(a, j) && forall|k: int|
                    0 <= k < j ==> #[trigger] number_at(b, k) == number_at(a, k);
            assert(number_at(a, j) == number_at(b, j));
        }
    }
}

proof fn lemma_not_both(a: Seq<char>, b: Seq<char>)
    requires
        is_later(a, b),
    ensures
        !is_later(b, a),
{
    if is_later(b, a) {
        let i = choose|j: int|
            0 <= j && #[trigger] number_at(a, j) > number_at(b, j) && forall|k: int|
                0 <= k < j ==> #[trigger] number_at(a, k) == number_at(b, k);
        let j = choose|j: int|
            0 <= j && #[trigger] number_at(b, j) > number_at(a, j) && forall|k: int|
                0 <= k < j ==> #[trigger] number_at(b, k) == number_at(a, k);
        if i < j {
            assert(number_at(b, i) == number_at(a, i));
        } else if j < i {
            assert(number_at(a, j) == number_at(b, j));
        }
    }
}

/// One leading `v` of a tag does not belong to the version.
pub proof fn law_a_version_goes_without_its_v(version: Seq<char>)
    ensures
        without_v(seq!['v'] + version) == version,
        !(version.len() > 0 && version[0] == 'v') ==> without_v(version) == version,
{
    assert((seq!['v'] + version).drop_first() =~= version);
}

// ---------------------------------------------------------------------------
// Whether there is an update
// ---------------------------------------------------------------------------

/// Whatever source a release is found at, it is offered exactly where its version is later than that
/// of this application.
pub proof fn law_an_update_is_a_later_version(
    before: CheckView,
    after: CheckView,
    step: CheckStep,
    answer: JsonTree,
    tag: Result<Seq<char>, (Seq<char>, int)>,
    now: i64,
)
    requires
        step_view(after, step) == after_manifest(before, answer, now) || step_view(after, step)
            == after_redirect(before, tag, now) || step_view(after, step) == after_cdn(
            before,
            answer,
            now,
        ),
    ensures
        step matches CheckStep::Done(CheckReport::Found(f)) ==> {
            &&& f.has_update <==> version_order(f.latest@, f.current@) > 0
            &&& f.has_update <==> is_later(f.latest@, f.current@)
            &&& f.current@ == APP_VERSION@
            &&& f.checked_at == now
            &&& f.release_url@ == release_page(before.owner, before.repo)
        },
{
    if let CheckStep::Done(CheckReport::Found(f)) = step {
        law_how_versions_compare(f.latest@, f.current@);
    }
}

// ---------------------------------------------------------------------------
// The course of a check
// ---------------------------------------------------------------------------

/// The version that an answer names: a text that is not blank.
pub open spec fn names_version(answer: JsonTree, version: Seq<char>) -> bool {
    member(answer, "version"@) matches Some(JsonTree::Text(v)) && is_visible(v) && version
        == trimmed(v)
}

/// The answer names a version.
pub open spec fn is_release(answer: JsonTree) -> bool {
    member(answer, "version"@) matches Some(JsonTree::Text(v)) && is_visible(v)
}

proof fn lemma_version(answer: JsonTree)
    ensures
        is_release(answer) <==> crate::update::check::version_in(answer).len() > 0,
        is_release(answer) ==> names_version(answer, crate::update::check::version_in(answer)),
{
    if let Some(JsonTree::Text(v)) = member(answer, "version"@) {
        law_only_blank_text_is_trimmed_away(v);
    }
}

/// The check asks the same repository at the same addresses as before.
pub open spec fn keeps_course(before: UpdateCheck, after: UpdateCheck) -> bool {
    &&& after.owner@ == before.owner@
    &&& after.repo@ == before.repo@
    &&& after.urls@.len() == before.urls@.len()
    &&& forall|i: int|
        0 <= i < before.urls@.len() ==> (#[trigger] after.urls@[i])@ == before.urls@[i]@
}

/// The failures are those from before.
pub open spec fn keeps_failures(before: UpdateCheck, after: UpdateCheck) -> bool {
    &&& after.failures@.len() == before.failures@.len()
    &&& forall|i: int|
        0 <= i < before.failures@.len() ==> (#[trigger] after.failures@[i])@
            == before.failures@[i]@
}

/// The failures are those from before and one more, `text`.
pub open spec fn adds_failure(before: UpdateCheck, after: UpdateCheck, text: Seq<char>) -> bool {
    &&& after.failures@.len() == before.failures@.len() + 1
    &&& forall|i: int|
        0 <= i < before.failures@.len() ==> (#[trigger] after.failures@[i])@
            == before.failures@[i]@
    &&& after.failures@[before.failures@.len() as int]@ == text
}

proof fn lemma_same_texts(a: Seq<String>, b: Seq<String>)
    requires
        views(a) == views(b),
    ensures
        a.len() == b.len(),
        forall|i: int| 0 <= i < a.len() ==> (#[trigger] a[i])@ == b[i]@,
{
    assert(views(a).len() == a.len() && views(b).len() == b.len());
    assert forall|i: int| 0 <= i < a.len() implies (#[trigger] a[i])@ == b[i]@ by {
        assert(views(a)[i] == views(b)[i]);
    }
}

proof fn lemma_one_more_text(a: Seq<String>, b: Seq<String>, text: Seq<char>)
    requires
        views(a) == views(b).push(text),
    ensures
        a.len() == b.len() + 1,
        forall|i: int| 0 <= i < b.len() ==> (#[trigger] a[i])@ == b[i]@,
        a[b.len() as int]@ == text,
{
    assert(views(a).len() == a.len() && views(b).len() == b.len());
    assert forall|i: int| 0 <= i < b.len() implies (#[trigger] a[i])@ == b[i]@ by {
        assert(views(a)[i] == views(b)[i]);
    }
    assert(views(a)[b.len() as int] == text);
}

/// The check has left the address that was asked for the next one, or, behind the last one, for the
/// page of the release, with the failure noted down.
pub open spec fn has_left_address(before: UpdateCheck, after: UpdateCheck, error: Seq<char>) -> bool {
    &&& keeps_course(before, after)
    &&& after.attempt == 0
    &&& after.last_error@ == error
    &&& if before.next + 1 < before.urls@.len() {
        after.stage is Manifest && after.next == before.next + 1 && keeps_failures(before, after)
    } else {
        after.stage is Redirect && after.next == 0 && adds_failure(
            before,
            after,
            "更新清单（直连+镜像）: "@ + error,
        )
    }
}

/// What comes after the answer to a request for a manifest.
pub open spec fn follows_manifest(
    before: UpdateCheck,
    after: UpdateCheck,
    step: CheckStep,
    answer: JsonTree,
    now: i64,
) -> bool {
    &&& ({
        let code = match member(answer, "code"@) {
            Some(JsonTree::Number(Some(n))) => n as int,
            _ => 0,
        };
        let message = match member(answer, "message"@) {
            Some(JsonTree::Text(m)) => m,
            _ => "更新清单解析失败"@,
        };
        &&& forall|version: Seq<char>| #[trigger]
            names_version(answer, version) ==> (step matches CheckStep::Done(
                CheckReport::Found(f),
            ) && is_manifest_release(f, before, answer, version))
        &&& is_release(answer) ==> keeps_course(before, after) && keeps_failures(before, after)
            && after.stage == before.stage && after.next == before.next && after.attempt
            == before.attempt && after.last_error@ == before.last_error@
        &&& !is_release(answer) && code >= 0 ==> has_left_address(
            before,
            after,
            "HTTP "@ + int_text(code) + ": "@ + message,
        ) && step == (CheckStep::Ask { delay_ms: 0 })
        &&& !is_release(answer) && code < 0 && before.attempt == 0 ==> {
            &&& keeps_course(before, after)
            &&& keeps_failures(before, after)
            &&& after.stage is Manifest
            &&& after.next == before.next
            &&& after.attempt == 1
            &&& after.last_error@ == message
            &&& step == (CheckStep::Ask { delay_ms: 200 })
        }
        &&& !is_release(answer) && code < 0 && before.attempt > 0 ==> has_left_address(
            before,
            after,
            message,
        ) && step == (CheckStep::Ask { delay_ms: 0 })
    })
}

/// What the answer to a request for a manifest leads to. A manifest that names a version ends the
/// check with that release. An answer with a code below zero means that the address could not be
/// reached: it is asked a second time, after a fifth of a second, and then left. Any other answer
/// means that there is no manifest there: the address is left at once.
pub proof fn law_what_a_manifest_leads_to(
    before: UpdateCheck,
    after: UpdateCheck,
    step: CheckStep,
    answer: JsonTree,
    now: i64,
)
    requires
        before@.valid(),
        before.stage is Manifest,
        step_view(after@, step) == after_manifest(before@, answer, now),
    ensures
        follows_manifest(before, after, step, answer, now),
{
    lemma_version(answer);
    assert(after@ == step_view(after@, step).check);
    lemma_same_texts(after.urls@, before.urls@);
    let code = match member(answer, "code"@) {
        Some(JsonTree::Number(Some(n))) => n as int,
        _ => 0,
    };
    let message = match member(answer, "message"@) {
        Some(JsonTree::Text(m)) => m,
        _ => "更新清单解析失败"@,
    };
    assert(views(before.urls@)[before.next as int] == before.urls@[before.next as int]@);
    assert(before@.urls.len() == before.urls@.len());
    let error = if code >= 0 {
        "HTTP "@ + int_text(code) + ": "@ + message
    } else {
        message
    };
    if is_release(answer) || (code < 0 && before.attempt == 0) || before.next + 1
        < before.urls@.len() {
        lemma_same_texts(after.failures@, before.failures@);
    } else {
        lemma_one_more_text(
            after.failures@,
            before.failures@,
            "更新清单（直连+镜像）: "@ + error,
        );
    }
}

/// What is reported of a release that a manifest names.
pub open spec fn is_manifest_release(
    f: FoundRelease,
    c: UpdateCheck,
    answer: JsonTree,
    version: Seq<char>,
) -> bool {
    let latest = if version[0] == 'v' {
        version.skip(1)
    } else {
        version
    };
    &&& f.latest@ == latest
    &&& f.latest_tag@ == "v"@ + latest
    &&& match member(answer, "name"@) {
        Some(JsonTree::Text(name)) => f.release_name@ == name,
        _ => f.release_name@ == "v"@ + latest,
    }
    &&& f.is_dated
    &&& match member(answer, "pub_date"@) {
        Some(JsonTree::Text(date)) => f.published_at is Some && f.published_at->0@ == date,
        _ => f.published_at is None,
    }
    &&& f.source@ == c.urls@[c.next as int]@
}

/// What comes after the answer to the request for the page of the release.
pub open spec fn follows_release_page(
    before: UpdateCheck,
    after: UpdateCheck,
    step: CheckStep,
    tag: Result<Seq<char>, (Seq<char>, int)>,
) -> bool {
    &&& keeps_course(before, after)
    &&& tag matches Ok(tag) ==> (step matches CheckStep::Done(CheckReport::Found(f)) && f.latest_tag@
        == tag && f.release_name@ == tag && f.latest@ == without_v(tag) && f.source@
        == "release-redirect"@ && !f.is_dated && f.published_at is None)
    &&& tag is Ok ==> keeps_failures(before, after) && after.stage == before.stage
    &&& tag matches Err((message, code)) ==> {
        &&& step == (CheckStep::Ask { delay_ms: 0 })
        &&& after.stage is Cdn
        &&& after.next == 0
        &&& after.attempt == 0
        &&& after.last_error@ == "jsDelivr CDN 不可达"@
        &&& adds_failure(
            before,
            after,
            "release 页跳转: "@ + message + "（code="@ + int_text(code) + "）"@,
        )
    }
}

/// What the answer to the request for the page of the release leads to. A tag ends the check with
/// that release; without one the network is asked next, with the failure noted down.
pub proof fn law_what_the_release_page_leads_to(
    before: UpdateCheck,
    after: UpdateCheck,
    step: CheckStep,
    tag: Result<Seq<char>, (Seq<char>, int)>,
    now: i64,
)
    requires
        step_view(after@, step) == after_redirect(before@, tag, now),
    ensures
        follows_release_page(before, after, step, tag),
{
    assert(after@ == step_view(after@, step).check);
    lemma_same_texts(after.urls@, before.urls@);
    match tag {
        Ok(tag) => {
            lemma_same_texts(after.failures@, before.failures@);
        },
        Err((message, code)) => {
            lemma_one_more_text(
                after.failures@,
                before.failures@,
                "release 页跳转: "@ + message + "（code="@ + int_text(code) + "）"@,
            );
        },
    }
}

/// The version without any leading `v`.
pub open spec fn is_bare(version: Seq<char>, bare: Seq<char>) -> bool {
    exists|n: int|
        0 <= n <= version.len() && bare == #[trigger] version.skip(n) && (forall|i: int|
            0 <= i < n ==> #[trigger] version[i] == 'v') && (n < version.len() ==> version[n] != 'v')
}

/// What comes after an answer of the network.
pub open spec fn follows_network(
    before: UpdateCheck,
    after: UpdateCheck,
    step: CheckStep,
    answer: JsonTree,
    now: i64,
) -> bool {
    &&& keeps_course(before, after)
    &&& after.stage is Cdn
    &&& ({
        let version = crate::update::check::version_in(answer);
        let bare = skip_leading(version, CharSet::One('v'));
        let error = match member(answer, "message"@) {
            Some(JsonTree::Text(m)) => m,
            _ => before.last_error@,
        };
        &&& is_release(answer) ==> names_version(answer, version)
        &&& !is_release(answer) ==> bare.len() == 0
        &&& is_bare(version, bare)
        &&& bare.len() > 0 ==> (step matches CheckStep::Done(CheckReport::Found(f)) && f.latest@
            == bare && f.latest_tag@ == "v"@ + bare && f.release_name@ == f.latest_tag@
            && f.source@ == "jsdelivr-cdn"@ && !f.is_dated && f.published_at is None)
        &&& bare.len() == 0 && before.next < 2 ==> {
            &&& step == (CheckStep::Ask { delay_ms: 0 })
            &&& after.next == before.next + 1
            &&& after.last_error@ == error
            &&& keeps_failures(before, after)
        }
        &&& bare.len() == 0 && before.next == 2 ==> {
            &&& adds_failure(before, after, "jsDelivr CDN: "@ + error)
            &&& step matches CheckStep::Done(CheckReport::Failed(f)) && f.checked_at == now
                && f.release_url@ == release_page(before.owner@, before.repo@) && f.message@
                == "检查更新失败：GitHub 直连、国内镜像加速与 jsDelivr CDN 均无法访问。请检查网络连接后重试；该失败不影响软件其他功能。详情："@
                + separated(views(after.failures@), "；"@)
        }
    })
}

/// What an answer of the network leads to. One that names a version, leading `v`s apart, ends the
/// check with that release. Without one the next of the three hosts is asked, and behind the last
/// one the check has failed, which tells of every failure.
pub proof fn law_what_the_network_leads_to(
    before: UpdateCheck,
    after: UpdateCheck,
    step: CheckStep,
    answer: JsonTree,
    now: i64,
)
    requires
        before@.valid(),
        before.stage is Cdn,
        step_view(after@, step) == after_cdn(before@, answer, now),
    ensures
        follows_network(before, after, step, answer, now),
{
    lemma_version(answer);
    assert(after@ == step_view(after@, step).check);
    lemma_same_texts(after.urls@, before.urls@);
    let version = crate::update::check::version_in(answer);
    let n = lemma_skipped(version, CharSet::One('v'));
    let bare = skip_leading(version, CharSet::One('v'));
    assert(is_bare(version, bare)) by {
        assert(bare == version.skip(n));
        assert forall|i: int| 0 <= i < n implies #[trigger] version[i] == 'v' by {
            assert(CharSet::One('v').has(version[i]));
        }
    }
    let error = match member(answer, "message"@) {
        Some(JsonTree::Text(m)) => m,
        _ => before.last_error@,
    };
    if bare.len() > 0 || before.next < 2 {
        lemma_same_texts(after.failures@, before.failures@);
    } else {
        lemma_one_more_text(after.failures@, before.failures@, "jsDelivr CDN: "@ + error);
    }
}

// ---------------------------------------------------------------------------
// The page of the release
// ---------------------------------------------------------------------------

/// The header is named `location`, in any case.
pub open spec fn is_location(header: (String, String)) -> bool {
    same_ignoring_case(header.0@, "location"@)
}

proof fn lemma_location(headers: Seq<(String, String)>)
    ensures
        location_in(header_views(headers)) matches Some(v) ==> exists|i: int|
            0 <= i < headers.len() && is_location(#[trigger] headers[i]) && headers[i].1@ == v
                && forall|j: int| 0 <= j < i ==> !is_location(#[trigger] headers[j]),
        location_in(header_views(headers)) is None ==> forall|j: int|
            0 <= j < headers.len() ==> !is_location(#[trigger] headers[j]),
    decreases headers.len(),
{
    if headers.len() > 0 {
        let short = headers.drop_last();
        let n = headers.len() - 1;
        assert(header_views(headers).drop_last() =~= header_views(short));
        assert(header_views(headers).last() == (headers[n].0@, headers[n].1@));
        lemma_location(short);
        if let Some(v) = location_in(header_views(short)) {
            let i = choose|i: int|
                0 <= i < short.len() && is_location(#[trigger] short[i]) && short[i].1@ == v && forall|
                    j: int,
                |
                    0 <= j < i ==> !is_location(#[trigger] short[j]);
            assert(headers[i] == short[i]);
            assert forall|j: int| 0 <= j < i implies !is_location(#[trigger] headers[j]) by {
                assert(headers[j] == short[j]);
            }
        } else {
            assert forall|j: int| 0 <= j < n implies !is_location(#[trigger] headers[j]) by {
                assert(headers[j] == short[j]);
            }
        }
    }
}

/// A redirection leads to a tag where the first header named `location`, in any case, holds
/// `/releases/tag/`: the tag is what stands behind its last slash, unless that is blank. A request
/// that failed, a page that is missing, and an answer that leads nowhere each say what they are.
pub proof fn law_which_tag_a_redirection_names(
    status: u16,
    headers: Seq<(String, String)>,
    body: Seq<char>,
)
    ensures
        ({
            let r = tag_of(status, header_views(headers), body);
            let lost = forall|j: int| 0 <= j < headers.len() ==> !is_location(#[trigger] headers[j]);
            &&& status == 0 && is_visible(body) ==> r == Err::<Seq<char>, (Seq<char>, int)>(
                (body, -1int),
            )
            &&& status == 0 && !is_visible(body) ==> r == Err::<Seq<char>, (Seq<char>, int)>(
                ("网络请求失败"@, -1int),
            )
            &&& status == 404 ==> r == Err::<Seq<char>, (Seq<char>, int)>(
                ("未找到可用的发布版本"@, 404int),
            )
            &&& status != 0 && status != 404 && lost ==> r == Err::<Seq<char>, (Seq<char>, int)>(
                (
                    "无法获取发布页跳转地址（HTTP "@ + int_text(status as int) + "）"@,
                    status as int,
                ),
            )
            &&& status != 0 && status != 404 ==> forall|i: int| #[trigger]
                is_first_location(headers, i) ==> {
                    let location = headers[i].1@;
                    let last = last_piece(location, CharSet::One('/'));
                    if is_visible(last) && contains_text(location, "/releases/tag/"@) {
                        r == Ok::<Seq<char>, (Seq<char>, int)>(trimmed(last))
                    } else {
                        r == Err::<Seq<char>, (Seq<char>, int)>(
                            ("无法解析发布版本标签"@, -1int),
                        )
                    }
                }
        }),
{
    law_only_blank_text_is_trimmed_away(body);
    lemma_location(headers);
    assert forall|i: int| #[trigger] is_first_location(headers, i) implies location_in(
        header_views(headers),
    ) == Some(headers[i].1@) by {
        if let Some(v) = location_in(header_views(headers)) {
            let k = choose|k: int|
                0 <= k < headers.len() && is_location(#[trigger] headers[k]) && headers[k].1@ == v
                    && forall|j: int| 0 <= j < k ==> !is_location(#[trigger] headers[j]);
            if k < i {
                assert(!is_location(headers[k]));
            } else if i < k {
                assert(!is_location(headers[i]));
            }
        } else {
            assert(!is_location(headers[i]));
        }
        law_only_blank_text_is_trimmed_away(last_piece(headers[i].1@, CharSet::One('/')));
    }
    assert forall|i: int| #[trigger] is_first_location(headers, i) implies (trimmed(
        last_piece(headers[i].1@, CharSet::One('/')),
    ).len() > 0 <==> is_visible(last_piece(headers[i].1@, CharSet::One('/')))) by {
        law_only_blank_text_is_trimmed_away(last_piece(headers[i].1@, CharSet::One('/')));
    }
    if location_in(header_views(headers)) is Some {
        let v = location_in(header_views(headers))->0;
        let k = choose|k: int|
            0 <= k < headers.len() && is_location(#[trigger] headers[k]) && headers[k].1@ == v
                && forall|j: int| 0 <= j < k ==> !is_location(#[trigger] headers[j]);
        assert(is_location(headers[k]));
    }
}

/// The first header named `location` stands at `i`.
pub open spec fn is_first_location(headers: Seq<(String, String)>, i: int) -> bool {
    &&& 0 <= i < headers.len()
    &&& is_location(headers[i])
    &&& forall|j: int| 0 <= j < i ==> !is_location(#[trigger] headers[j])
}

// ---------------------------------------------------------------------------
// Addresses
// ---------------------------------------------------------------------------

/// Every manifest is asked for at its own address first and then behind each mirror, in order, one
/// manifest after the other.
pub proof fn law_which_addresses_are_asked(
    a: Seq<Seq<char>>,
    b: Seq<Seq<char>>,
    url: Seq<char>,
    mirrors: Seq<Seq<char>>,
)
    ensures
        all_candidates(a + b, mirrors) == all_candidates(a, mirrors) + all_candidates(b, mirrors),
        all_candidates(seq![url], mirrors) == mirrored(url, mirrors),
        mirrored(url, mirrors).len() == mirrors.len() + 1,
        mirrored(url, mirrors)[0] == url,
        forall|i: int|
            0 <= i < mirrors.len() ==> #[trigger] mirrored(url, mirrors)[i + 1] == mirrors[i] + url,
    decreases b.len(),
{
    let one = seq![url];
    assert(one.drop_last().len() == 0);
    assert(one.last() == url);
    assert(all_candidates(one.drop_last(), mirrors) + mirrored(url, mirrors) =~= mirrored(
        url,
        mirrors,
    ));
    if b.len() == 0 {
        assert(a + b =~= a);
        assert(all_candidates(a, mirrors) + all_candidates(b, mirrors) =~= all_candidates(
            a,
            mirrors,
        ));
    } else {
        let short = b.drop_last();
        assert((a + b).drop_last() =~= a + short);
        assert((a + b).last() == b.last());
        law_which_addresses_are_asked(a, short, url, mirrors);
        assert(all_candidates(a, mirrors) + all_candidates(short, mirrors) + mirrored(
            b.last(),
            mirrors,
        ) =~= all_candidates(a, mirrors) + (all_candidates(short, mirrors) + mirrored(
            b.last(),
            mirrors,
        )));
    }
}

/// The manifest for all systems comes first, then that of this system, then, on any other system
/// than macOS, that of macOS.
pub proof fn law_which_manifests_there_are(
    owner: Seq<char>,
    repo: Seq<char>,
    os: Seq<char>,
    arch: Seq<char>,
)
    ensures
        ({
            let urls = manifest_urls(owner, repo, os, arch);
            let dir = "https://github.com/"@ + owner + "/"@ + repo + "/releases/latest/download/"@;
            let mac = os == "macos"@ || os == "darwin"@;
            &&& urls[0] == dir + "latest.json"@
            &&& mac ==> urls.len() == 2 && urls[1] == dir + "latest-macos-"@ + arch + ".json"@
            &&& !mac ==> urls.len() == 3 && urls[1] == dir + "latest-"@ + os + "-"@ + arch
                + ".json"@ && urls[2] == dir + "latest-macos-"@ + arch + ".json"@
        }),
{
    reveal_strlit("/releases/latest/download/");
    reveal_strlit("/releases/latest/download/latest");
    reveal_strlit("latest.json");
    reveal_strlit(".json");
    reveal_strlit("latest-");
    reveal_strlit("-");
    reveal_strlit("latest-macos-");
    reveal_strlit("-macos-");
    reveal_strlit("macos");
    reveal_strlit("darwin");
    let urls = manifest_urls(owner, repo, os, arch);
    let dir = "https://github.com/"@ + owner + "/"@ + repo + "/releases/latest/download/"@;
    assert(urls[0] =~= dir + "latest.json"@);
    if os == "macos"@ || os == "darwin"@ {
        assert(urls[1] =~= dir + "latest-macos-"@ + arch + ".json"@);
    } else {
        assert(urls[1] =~= dir + "latest-"@ + os + "-"@ + arch + ".json"@);
        assert(urls[2] =~= dir + "latest-macos-"@ + arch + ".json"@);
    }
}

/// What is asked next: the address of the manifest that is its turn, the page of the release, or the
/// package at the first, second or third host of the network.
pub proof fn law_which_address_is_asked(c: UpdateCheck)
    requires
        c@.valid(),
    ensures
        c.stage is Manifest ==> address_of(c@) == c.urls@[c.next as int]@,
        c.stage is Redirect ==> address_of(c@) == release_page(c.owner@, c.repo@),
        c.stage is Cdn ==> address_of(c@) == (if c.next == 0 {
            "https://cdn.jsdelivr.net"@
        } else if c.next == 1 {
            "https://fastly.jsdelivr.net"@
        } else {
            "https://gcore.jsdelivr.net"@
        }) + "/gh/"@ + c.owner@ + "/"@ + c.repo@ + "/package.json"@,
{
}

/// A check begins with the first address of the first manifest, and has failed at nothing yet.
pub proof fn law_how_a_check_begins(
    c: UpdateCheck,
    owner: Seq<char>,
    repo: Seq<char>,
    mirrors: Seq<Seq<char>>,
    os: Seq<char>,
    arch: Seq<char>,
)
    requires
        c@ == first_step(owner, repo, mirrors, os, arch),
    ensures
        c.owner@ == owner,
        c.repo@ == repo,
        views(c.urls@) == all_candidates(manifest_urls(owner, repo, os, arch), mirrors),
        c.stage is Manifest,
        c.next == 0,
        c.attempt == 0,
        c.last_error@ == "更新清单不可用"@,
        c.failures@.len() == 0,
{
    assert(views(c.failures@).len() == c.failures@.len());
}

// ---------------------------------------------------------------------------
// Reports
// ---------------------------------------------------------------------------

/// What is sent out of a check holds each field of its report under its name; a date is told of only
/// where the source tells of dates.
pub proof fn law_a_check_report_is_sent_whole(r: CheckReport)
    ensures
        ({
            let sent = object_tree(report_fields(r@));
            match r {
                CheckReport::Found(f) => {
                    &&& member(sent, "ok"@) == Some(JsonTree::Bool(true))
                    &&& member(sent, "current"@) == Some(JsonTree::Text(f.current@))
                    &&& member(sent, "latest"@) == Some(JsonTree::Text(f.latest@))
                    &&& member(sent, "latestTag"@) == Some(JsonTree::Text(f.latest_tag@))
                    &&& member(sent, "hasUpdate"@) == Some(JsonTree::Bool(f.has_update))
                    &&& member(sent, "releaseName"@) == Some(JsonTree::Text(f.release_name@))
                    &&& member(sent, "releaseUrl"@) == Some(JsonTree::Text(f.release_url@))
                    &&& member(sent, "source"@) == Some(JsonTree::Text(f.source@))
                    &&& member(sent, "checkedAt"@) == Some(JsonTree::Number(Some(f.checked_at)))
                    &&& member(sent, "publishedAt"@) == if f.is_dated {
                        Some(text_or_nothing(f.published_at))
                    } else {
                        None
                    }
                },
                CheckReport::Failed(f) => {
                    &&& member(sent, "ok"@) == Some(JsonTree::Bool(false))
                    &&& member(sent, "error"@) == Some(JsonTree::Text("所有更新源均不可达"@))
                    &&& member(sent, "message"@) == Some(JsonTree::Text(f.message@))
                    &&& member(sent, "releaseUrl"@) == Some(JsonTree::Text(f.release_url@))
                    &&& member(sent, "checkedAt"@) == Some(JsonTree::Number(Some(f.checked_at)))
                },
            }
        }),
{
    let fields = report_fields(r@);
    lemma_names();
    lemma_member(fields, 0);
    lemma_member(fields, 1);
    lemma_member(fields, 2);
    lemma_member(fields, 3);
    lemma_member(fields, 4);
    if let CheckReport::Found(f) = r {
        lemma_member(fields, 5);
        lemma_member(fields, 6);
        lemma_member(fields, 7);
        lemma_member(fields, 8);
        if f.is_dated {
            lemma_member(fields, 9);
        } else {
            lemma_no_member(fields, "publishedAt"@);
        }
    }
}

proof fn lemma_names()
    ensures
        "ok"@.len() == 2,
        "current"@.len() == 7,
        "latest"@.len() == 6,
        "latestTag"@.len() == 9,
        "hasUpdate"@.len() == 9,
        "releaseName"@.len() == 11,
        "releaseUrl"@.len() == 10,
        "source"@.len() == 6,
        "checkedAt"@.len() == 9,
        "publishedAt"@.len() == 11,
        "error"@.len() == 5,
        "message"@.len() == 7,
        "current"@ != "message"@,
        "latest"@ != "source"@,
        "latestTag"@ != "hasUpdate"@,
        "latestTag"@ != "checkedAt"@,
        "hasUpdate"@ != "checkedAt"@,
        "releaseName"@ != "publishedAt"@,
{
    reveal_strlit("ok");
    reveal_strlit("current");
    reveal_strlit("latest");
    reveal_strlit("latestTag");
    reveal_strlit("hasUpdate");
    reveal_strlit("releaseName");
    reveal_strlit("releaseUrl");
    reveal_strlit("source");
    reveal_strlit("checkedAt");
    reveal_strlit("publishedAt");
    reveal_strlit("error");
    reveal_strlit("message");
    assert("current"@[0] != "message"@[0]);
    assert("latest"@[0] != "source"@[0]);
    assert("latestTag"@[0] != "hasUpdate"@[0]);
    assert("latestTag"@[0] != "checkedAt"@[0]);
    assert("hasUpdate"@[0] != "checkedAt"@[0]);
    assert("releaseName"@[0] != "publishedAt"@[0]);
}

// ---------------------------------------------------------------------------
// Results that are still good
// ---------------------------------------------------------------------------

/// A stored result is handed out for six hours, unless a new one is asked for.
pub proof fn law_a_result_is_good_for_six_hours(cache: Option<CachedCheck>, force: bool, now: i64)
    ensures
        cache is None || force ==> still_good(cache_view(cache), force, now) is None,
        cache matches Some(stored) ==> (!force ==> still_good(cache_view(cache), force, now) == if now
            - stored.checked_at < 6 * 60 * 60 {
            Some(stored.report@)
        } else {
            None
        }),
{
}

/// A release that was found is stored with the time at which it was; a failure leaves what is stored
/// as it is.
pub proof fn law_what_is_stored_of_a_check(
    before: Option<CachedCheck>,
    after: Option<CachedCheck>,
    report: CheckReport,
    now: i64,
)
    requires
        cache_view(after) == remembered(cache_view(before), report@, now),
    ensures
        report is Found ==> after is Some && after->0.checked_at == now && after->0.report@ == report@,
        report is Failed ==> cache_view(after) == cache_view(before),
        report is Failed ==> (after is Some <==> before is Some),
{
}

} // verus!
