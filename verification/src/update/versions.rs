//! Version numbers and the addresses at which releases are announced.

use crate::numerals::{i64_numeral, parse_bounded};
use crate::text::{
    concat2, pieces, same_text, skip_leading, split_at_set, trim_start_of, views, CharSet,
};
use vstd::prelude::*;

verus! {

broadcast use vstd::string::group_string_axioms;

/// The integers among the pieces of a version.
pub open spec fn numbers(parts: Seq<Seq<char>>) -> Seq<int>
    decreases parts.len(),
{
    if parts.len() == 0 {
        Seq::empty()
    } else {
        match i64_numeral(parts.last()) {
            Some(n) => numbers(parts.drop_last()).push(n),
            None => numbers(parts.drop_last()),
        }
    }
}

/// The numbers of a version: what stands between its dots, behind any leading `v`.
pub open spec fn version_numbers(v: Seq<char>) -> Seq<int> {
    numbers(pieces(skip_leading(v, CharSet::One('v')), CharSet::One('.')))
}

/// Machine integers as integers.
pub open spec fn ints(list: Seq<i64>) -> Seq<int> {
    Seq::new(list.len(), |i: int| list[i] as int)
}

/// The number at place `i`, zero where the version has no such place.
pub open spec fn part(v: Seq<int>, i: int) -> int {
    if 0 <= i < v.len() {
        v[i]
    } else {
        0
    }
}

/// How two versions compare from place `i` on: 1, -1 or 0 as the first is later, earlier or equal.
pub open spec fn order_from(a: Seq<int>, b: Seq<int>, i: int) -> int
    decreases (if a.len() > b.len() { a.len() } else { b.len() }) - i,
{
    if i >= a.len() && i >= b.len() {
        0
    } else if part(a, i) > part(b, i) {
        1
    } else if part(a, i) < part(b, i) {
        -1
    } else {
        order_from(a, b, i + 1)
    }
}

/// How two versions compare.
pub open spec fn version_order(a: Seq<char>, b: Seq<char>) -> int {
    order_from(version_numbers(a), version_numbers(b), 0)
}

/// The numbers of a version.
pub fn version_tuple(v: &str) -> (r: Vec<i64>)
    ensures
        ints(r@) == version_numbers(v@),
{
    let bare = trim_start_of(v, CharSet::One('v'));
    let parts = split_at_set(bare.as_str(), CharSet::One('.'));
    let mut out: Vec<i64> = Vec::new();
    let mut i: usize = 0;
    assert(ints(out@) =~= numbers(views(parts@).take(0)));
    while i < parts.len()
        invariant
            i <= parts@.len(),
            ints(out@) == numbers(views(parts@).take(i as int)),
        decreases parts@.len() - i,
    {
        let ghost before = ints(out@);
        assert(views(parts@).take(i + 1).drop_last() =~= views(parts@).take(i as int));
        assert(views(parts@).take(i + 1).last() == parts@[i as int]@);
        if let Some(n) = parse_bounded(parts[i].as_str(), true, i64::MIN, i64::MAX) {
            out.push(n);
            assert(ints(out@) =~= before.push(n as int));
        }
        i += 1;
    }
    assert(views(parts@).take(i as int) =~= views(parts@));
    out
}

/// How two versions compare: 1 where `a` is later, -1 where it is earlier, 0 where neither is.
pub fn compare_versions(a: &str, b: &str) -> (r: i64)
    ensures
        r == version_order(a@, b@),
{
    let x = version_tuple(a);
    let y = version_tuple(b);
    let n: usize = if x.len() > y.len() {
        x.len()
    } else {
        y.len()
    };
    let mut i: usize = 0;
    while i < n
        invariant
            i <= n,
            n == (if x@.len() > y@.len() {
                x@.len()
            } else {
                y@.len()
            }),
            ints(x@) == version_numbers(a@),
            ints(y@) == version_numbers(b@),
            version_order(a@, b@) == order_from(ints(x@), ints(y@), i as int),
        decreases n - i,
    {
        let p: i64 = if i < x.len() {
            x[i]
        } else {
            0
        };
        let q: i64 = if i < y.len() {
            y[i]
        } else {
            0
        };
        if p != q {
            return if p > q {
                1
            } else {
                -1
            };
        }
        i += 1;
    }
    0
}

/// How two versions compare is decided at the first place where they differ.
proof fn lemma_order_from(a: Seq<int>, b: Seq<int>, i: int)
    requires
        0 <= i,
    ensures
        order_from(a, b, i) == 0 ==> (forall|j: int| i <= j ==> part(a, j) == part(b, j)),
        order_from(a, b, i) == 1 ==> (exists|j: int|
            i <= j && #[trigger] part(a, j) > part(b, j) && (forall|k: int|
                i <= k < j ==> part(a, k) == part(b, k))),
        order_from(a, b, i) == -1 ==> (exists|j: int|
            i <= j && #[trigger] part(a, j) < part(b, j) && (forall|k: int|
                i <= k < j ==> part(a, k) == part(b, k))),
        order_from(a, b, i) == 0 || order_from(a, b, i) == 1 || order_from(a, b, i) == -1,
    decreases (if a.len() > b.len() { a.len() } else { b.len() }) - i,
{
    if (i < a.len() || i < b.len()) && part(a, i) == part(b, i) {
        lemma_order_from(a, b, i + 1);
        if order_from(a, b, i) == 1 {
            let j = choose|j: int|
                i + 1 <= j && #[trigger] part(a, j) > part(b, j) && (forall|k: int|
                    i + 1 <= k < j ==> part(a, k) == part(b, k));
            assert(i <= j && part(a, j) > part(b, j) && (forall|k: int|
                i <= k < j ==> part(a, k) == part(b, k)));
        }
        if order_from(a, b, i) == -1 {
            let j = choose|j: int|
                i + 1 <= j && #[trigger] part(a, j) < part(b, j) && (forall|k: int|
                    i + 1 <= k < j ==> part(a, k) == part(b, k));
            assert(i <= j && part(a, j) < part(b, j) && (forall|k: int|
                i <= k < j ==> part(a, k) == part(b, k)));
        }
    } else if i < a.len() || i < b.len() {
        if part(a, i) > part(b, i) {
            assert(i <= i && part(a, i) > part(b, i));
        } else {
            assert(i <= i && part(a, i) < part(b, i));
        }
    }
}

/// The order that `j`, a place of difference, gives.
proof fn lemma_order_at(a: Seq<int>, b: Seq<int>, i: int, j: int)
    requires
        0 <= i <= j,
        forall|k: int| i <= k < j ==> part(a, k) == part(b, k),
        part(a, j) != part(b, j),
    ensures
        order_from(a, b, i) == (if part(a, j) > part(b, j) {
            1int
        } else {
            -1int
        }),
    decreases j - i,
{
    if i < j {
        lemma_order_at(a, b, i + 1, j);
    }
}

proof fn lemma_order_same(a: Seq<int>, b: Seq<int>, i: int)
    requires
        0 <= i,
        forall|k: int| i <= k ==> part(a, k) == part(b, k),
    ensures
        order_from(a, b, i) == 0,
    decreases (if a.len() > b.len() { a.len() } else { b.len() }) - i,
{
    if i < a.len() || i < b.len() {
        lemma_order_same(a, b, i + 1);
    }
}

/// Comparing the other way round turns the sign; a version equals itself.
pub proof fn law_versions_compare_both_ways(a: Seq<char>, b: Seq<char>)
    ensures
        version_order(a, b) == -version_order(b, a),
        version_order(a, a) == 0,
{
    let x = version_numbers(a);
    let y = version_numbers(b);
    lemma_order_same(x, x, 0);
    lemma_order_from(x, y, 0);
    if order_from(x, y, 0) == 0 {
        lemma_order_same(y, x, 0);
    } else if order_from(x, y, 0) == 1 {
        let j = choose|j: int|
            0 <= j && #[trigger] part(x, j) > part(y, j) && (forall|k: int|
                0 <= k < j ==> part(x, k) == part(y, k));
        lemma_order_at(y, x, 0, j);
    } else {
        let j = choose|j: int|
            0 <= j && #[trigger] part(x, j) < part(y, j) && (forall|k: int|
                0 <= k < j ==> part(x, k) == part(y, k));
        lemma_order_at(y, x, 0, j);
    }
}

/// A version no later than a second, which is no later than a third, is no later than the third.
pub proof fn law_versions_are_ordered(a: Seq<char>, b: Seq<char>, c: Seq<char>)
    requires
        version_order(a, b) <= 0,
        version_order(b, c) <= 0,
    ensures
        version_order(a, c) <= 0,
        version_order(a, c) == 0 ==> version_order(a, b) == 0 && version_order(b, c) == 0,
{
    let x = version_numbers(a);
    let y = version_numbers(b);
    let z = version_numbers(c);
    lemma_order_from(x, y, 0);
    lemma_order_from(y, z, 0);
    if order_from(x, y, 0) == 0 {
        if order_from(y, z, 0) == 0 {
            lemma_order_same(x, z, 0);
        } else {
            let j = choose|j: int|
                0 <= j && #[trigger] part(y, j) < part(z, j) && (forall|k: int|
                    0 <= k < j ==> part(y, k) == part(z, k));
            lemma_order_at(x, z, 0, j);
        }
    } else {
        let j = choose|j: int|
            0 <= j && #[trigger] part(x, j) < part(y, j) && (forall|k: int|
                0 <= k < j ==> part(x, k) == part(y, k));
        if order_from(y, z, 0) == 0 {
            lemma_order_at(x, z, 0, j);
        } else {
            let m = choose|m: int|
                0 <= m && #[trigger] part(y, m) < part(z, m) && (forall|k: int|
                    0 <= k < m ==> part(y, k) == part(z, k));
            if j <= m {
                lemma_order_at(x, z, 0, j);
            } else {
                lemma_order_at(x, z, 0, m);
            }
        }
    }
}

// ---------------------------------------------------------------------------
// Addresses
// ---------------------------------------------------------------------------

/// The name under which releases list an operating system.
pub open spec fn os_slug(os: Seq<char>) -> Seq<char> {
    if os == "macos"@ || os == "darwin"@ {
        "macos"@
    } else {
        os
    }
}

/// Where the files of the latest release stand.
pub open spec fn download_base(owner: Seq<char>, repo: Seq<char>) -> Seq<char> {
    "https://github.com/"@ + owner + "/"@ + repo + "/releases/latest/download/latest"@
}

/// The manifests of the latest release, the preferred one first: the one for all systems, the one
/// for this system, and the one for macOS, which old installations ask for on every system.
pub open spec fn manifest_urls(
    owner: Seq<char>,
    repo: Seq<char>,
    os: Seq<char>,
    arch: Seq<char>,
) -> Seq<Seq<char>> {
    let base = download_base(owner, repo);
    let own = seq![
        base + ".json"@,
        base + "-"@ + os_slug(os) + "-"@ + arch + ".json"@,
    ];
    if os_slug(os) == "macos"@ {
        own
    } else {
        own.push(base + "-macos-"@ + arch + ".json"@)
    }
}

/// The manifests of the latest release, the preferred one first.
pub fn updater_manifest_urls(owner: &str, repo: &str, os: &str, arch: &str) -> (r: Vec<String>)
    ensures
        views(r@) == manifest_urls(owner@, repo@, os@, arch@),
{
    let slug = if same_text(os, "macos") || same_text(os, "darwin") {
        "macos"
    } else {
        os
    };
    let mut base = concat2("https://github.com/", owner);
    base.append("/");
    base.append(repo);
    base.append("/releases/latest/download/latest");
    let mut urls: Vec<String> = Vec::new();
    urls.push(concat2(base.as_str(), ".json"));
    let mut own = concat2(base.as_str(), "-");
    own.append(slug);
    own.append("-");
    own.append(arch);
    own.append(".json");
    urls.push(own);
    if !same_text(slug, "macos") {
        let mut fallback = concat2(base.as_str(), "-macos-");
        fallback.append(arch);
        fallback.append(".json");
        urls.push(fallback);
    }
    assert(views(urls@) =~= manifest_urls(owner@, repo@, os@, arch@));
    urls
}

/// An address and its mirrored forms: the address itself first, then behind each prefix.
pub open spec fn mirrored(url: Seq<char>, mirrors: Seq<Seq<char>>) -> Seq<Seq<char>> {
    seq![url] + Seq::new(mirrors.len(), |i: int| mirrors[i] + url)
}

/// The addresses at which to ask for `github_url`: itself first, then each mirror.
pub fn candidate_urls(github_url: &str, mirrors: &Vec<String>) -> (r: Vec<String>)
    ensures
        views(r@) == mirrored(github_url@, views(mirrors@)),
{
    let mut urls: Vec<String> = Vec::new();
    urls.push(github_url.to_string());
    let mut i: usize = 0;
    while i < mirrors.len()
        invariant
            i <= mirrors@.len(),
            urls@.len() == i + 1,
            forall|k: int|
                0 <= k <= i ==> #[trigger] views(urls@)[k] == mirrored(
                    github_url@,
                    views(mirrors@),
                )[k],
        decreases mirrors@.len() - i,
    {
        let ghost before = urls@;
        urls.push(concat2(mirrors[i].as_str(), github_url));
        assert forall|k: int| 0 <= k <= i + 1 implies #[trigger] views(urls@)[k] == mirrored(
            github_url@,
            views(mirrors@),
        )[k] by {
            if k <= i {
                assert(views(urls@)[k] == views(before)[k]);
            }
        }
        i += 1;
    }
    assert(views(urls@) =~= mirrored(github_url@, views(mirrors@)));
    urls
}

} // verus!
