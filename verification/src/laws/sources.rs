//! Which update source is in use.

use crate::json::{
    bool_member, integer_member, json_document, lemma_member, lemma_no_member, member, text_member,
    JsonTree,
};
use crate::laws::conversations::is_visible;
use crate::laws::lists::{is_selection, lemma_selection_same, lemma_selection_step};
use crate::laws::text::{law_only_blank_text_is_trimmed_away, law_where_a_text_stands};
use crate::text::{begins_with, trimmed, view_opt, views};
use crate::update::config::{
    clean, config_fields, config_tree, default_mirror_list, fields_in, fields_of_file, is_former,
    listed_mirrors, migrated, mirror_prefix, mirrors_in_use, nonblank_or, opt_list, opt_views,
    proxy_in_use, release_page, usable_mirrors, ConfigFields, GithubConfig, LoadedConfig,
};
use vstd::prelude::*;

verus! {

broadcast use vstd::string::group_string_axioms;

// ---------------------------------------------------------------------------
// Members
// ---------------------------------------------------------------------------

/// Only objects have members, and a member is read as a text, a truth value or an integer only where
/// it is one.
pub proof fn law_what_members_are(tree: JsonTree, key: Seq<char>)
    ensures
        tree matches JsonTree::Object(members) ==> member(tree, key) == if members.contains_key(key) {
            Some(members[key])
        } else {
            None
        },
        !(tree is Object) ==> member(tree, key) is None,
        forall|s: Seq<char>| #[trigger]
            text_is(tree, key, s) <==> member(tree, key) == Some(JsonTree::Text(s)),
        bool_member(tree, key) == Some(true) <==> member(tree, key) == Some(JsonTree::Bool(true)),
        bool_member(tree, key) == Some(false) <==> member(tree, key) == Some(JsonTree::Bool(false)),
        forall|n: i64| #[trigger]
            integer_is(tree, key, n) <==> member(tree, key) == Some(JsonTree::Number(Some(n))),
{
    assert forall|s: Seq<char>| #[trigger] text_is(tree, key, s) implies member(tree, key) == Some(
        JsonTree::Text(s),
    ) by {
        match member(tree, key) {
            Some(JsonTree::Text(t)) => {},
            _ => {},
        }
    }
    assert forall|n: i64| #[trigger] integer_is(tree, key, n) implies member(tree, key) == Some(
        JsonTree::Number(Some(n)),
    ) by {
        match member(tree, key) {
            Some(JsonTree::Number(t)) => {},
            _ => {},
        }
    }
    assert(bool_member(tree, key) is Some ==> (member(tree, key) is Some && member(tree, key)->0
        is Bool));
}

/// The member is read as that text.
pub open spec fn text_is(tree: JsonTree, key: Seq<char>, s: Seq<char>) -> bool {
    text_member(tree, key) == Some(s)
}

/// The member is read as that integer.
pub open spec fn integer_is(tree: JsonTree, key: Seq<char>, n: i64) -> bool {
    integer_member(tree, key) == Some(n)
}

// ---------------------------------------------------------------------------
// Mirrors
// ---------------------------------------------------------------------------

/// The entry is a text that is an encrypted address, white space around it apart.
pub open spec fn is_address(entry: Option<String>) -> bool {
    entry matches Some(m) && exists|rest: Seq<char>| trimmed(m@) == #[trigger] ("https://"@ + rest)
}

/// The address with one slash at its end, where it has none.
pub open spec fn closed_off(address: Seq<char>) -> Seq<char> {
    if address.last() == '/' {
        address
    } else {
        address.push('/')
    }
}

/// An encrypted address is fit for use once it ends in a slash; anything else is not.
pub proof fn law_which_mirrors_are_fit(m: String)
    ensures
        is_address(Some(m)) ==> mirror_prefix(m@) == closed_off(trimmed(m@)),
        !is_address(Some(m)) ==> mirror_prefix(m@).len() == 0,
        is_address(Some(m)) ==> mirror_prefix(m@).len() >= 8,
{
    let t = trimmed(m@);
    law_where_a_text_stands(t, "https://"@, 0);
    reveal_strlit("https://");
    assert(begins_with(t, "https://"@) == is_address(Some(m)));
}

spec fn fit(list: Seq<Option<String>>) -> spec_fn(int) -> bool {
    |i: int| is_address(list[i])
}

proof fn lemma_usable(list: Seq<Option<String>>, n: nat) -> (places: Seq<int>)
    requires
        n <= list.len(),
    ensures
        is_selection(n, fit(list), places),
        usable_mirrors(opt_views(list).take(n as int)).len() == places.len(),
        forall|p: int|
            0 <= p < places.len() ==> #[trigger] usable_mirrors(opt_views(list).take(n as int))[p]
                == closed_off(trimmed(list[places[p]]->0@)),
    decreases n,
{
    let all = opt_views(list);
    if n == 0 {
        Seq::empty()
    } else {
        let m = (n - 1) as nat;
        let before = lemma_usable(list, m);
        let part = all.take(n as int);
        assert(part.drop_last() =~= all.take(m as int));
        assert(part.last() == view_opt(list[m as int]));
        lemma_selection_step(m, fit(list), before);
        if let Some(entry) = list[m as int] {
            law_which_mirrors_are_fit(entry);
        }
        let places = if is_address(list[m as int]) {
            before.push(m as int)
        } else {
            before
        };
        assert forall|p: int| 0 <= p < places.len() implies #[trigger] usable_mirrors(part)[p]
            == closed_off(trimmed(list[places[p]]->0@)) by {
            if p < before.len() {
                assert(places[p] == before[p]);
                assert(usable_mirrors(part)[p] == usable_mirrors(all.take(m as int))[p]);
            }
        }
        places
    }
}

/// The mirrors are those of the list that are encrypted addresses, in order and each closed off with
/// a slash; where the list has none, or there is no list, they are the two that come with the
/// application.
pub open spec fn are_mirrors_of(list: Option<Vec<Option<String>>>, mirrors: Seq<String>) -> bool {
    if list is Some && exists|i: int|
        0 <= i < list->0@.len() && is_address(#[trigger] list->0@[i]) {
        exists|places: Seq<int>|
            #![trigger places.len()]
            is_selection(list->0@.len(), |i: int| is_address(list->0@[i]), places) && mirrors.len()
                == places.len() && forall|p: int|
                0 <= p < places.len() ==> (#[trigger] mirrors[p])@ == closed_off(
                    trimmed(list->0@[places[p]]->0@),
                )
    } else {
        mirrors.len() == 2 && mirrors[0]@ == "https://gh-proxy.com/"@ && mirrors[1]@
            == "https://ghproxy.net/"@
    }
}

/// Which mirrors a configured list stands for.
pub proof fn law_which_mirrors_are_used(list: Option<Vec<Option<String>>>, mirrors: Seq<String>)
    requires
        views(mirrors) == mirrors_in_use(opt_list(list)),
    ensures
        are_mirrors_of(list, mirrors),
{
    assert(views(mirrors).len() == mirrors.len());
    assert forall|p: int| 0 <= p < mirrors.len() implies #[trigger] views(mirrors)[p]
        == mirrors[p]@ by {}
    if let Some(given) = list {
        let all = opt_views(given@);
        let places = lemma_usable(given@, given@.len());
        assert(all.take(given@.len() as int) =~= all);
        if exists|i: int| 0 <= i < given@.len() && is_address(#[trigger] given@[i]) {
            let i = choose|i: int| 0 <= i < given@.len() && is_address(#[trigger] given@[i]);
            assert(fit(given@)(i));
            assert(places.contains(i));
            assert(places.len() > 0);
            lemma_selection_same(
                given@.len(),
                fit(given@),
                |i: int| is_address(given@[i]),
                places,
            );
            assert forall|p: int| 0 <= p < places.len() implies (#[trigger] mirrors[p])@
                == closed_off(trimmed(given@[places[p]]->0@)) by {
                assert(views(mirrors)[p] == usable_mirrors(all)[p]);
            }
            assert(mirrors.len() == places.len());
        } else {
            if places.len() > 0 {
                let i = places[0];
                assert(fit(given@)(i));
                assert(is_address(given@[i]));
            }
            assert(views(mirrors) == default_mirror_list());
            assert(views(mirrors)[0] == mirrors[0]@ && views(mirrors)[1] == mirrors[1]@);
        }
    } else {
        assert(views(mirrors)[0] == mirrors[0]@ && views(mirrors)[1] == mirrors[1]@);
    }
}

// ---------------------------------------------------------------------------
// The repository
// ---------------------------------------------------------------------------

/// A name is in use as it was given, unless it was not given or is blank.
pub open spec fn is_named_or(given: Option<String>, name: Seq<char>, default: Seq<char>) -> bool {
    if given is Some && is_visible(given->0@) {
        name == given->0@
    } else {
        name == default
    }
}

proof fn lemma_named(given: Option<String>, default: Seq<char>)
    ensures
        is_named_or(given, nonblank_or(view_opt(given), default), default),
{
    if let Some(v) = given {
        law_only_blank_text_is_trimmed_away(v@);
    }
}

/// `config` is the source that `fields` name.
pub open spec fn is_source_of(fields: ConfigFields, config: GithubConfig) -> bool {
    &&& is_named_or(fields.owner, config.owner@, "heylumen"@)
    &&& is_named_or(fields.repo, config.repo@, "workbuddy-switch-tidy"@)
    &&& fields.proxy matches Some(p) ==> config.proxy@ == trimmed(p@)
    &&& fields.proxy is None ==> config.proxy@.len() == 0
    &&& are_mirrors_of(fields.mirrors, config.mirrors@)
}

/// The owner and the name of the repository are the ones that were given, where they are visible,
/// and those of the application elsewhere; the proxy goes without the white space around it.
pub proof fn law_which_source_is_used(fields: ConfigFields, config: GithubConfig)
    requires
        config@ == clean(fields@),
    ensures
        is_source_of(fields, config),
{
    lemma_named(fields.owner, "heylumen"@);
    lemma_named(fields.repo, "workbuddy-switch-tidy"@);
    law_which_mirrors_are_used(fields.mirrors, config.mirrors@);
}

/// A source is used as it was configured, but that the former name of the repository gives way to
/// the present one; the file is written anew exactly where it has a token or that former name.
pub proof fn law_the_former_repository_gives_way(
    fields: ConfigFields,
    plain: GithubConfig,
    r: LoadedConfig,
)
    requires
        plain@ == clean(fields@),
        r.config@ == migrated(clean(fields@)),
        r.rewrite == (fields.has_token || is_former(clean(fields@))),
    ensures
        ({
            let former = plain.owner@ == "changexbc"@ && plain.repo@ == "wb-switch"@;
            &&& former ==> r.config.repo@ == "workbuddy-switch-tidy"@
            &&& !former ==> r.config.repo@ == plain.repo@
            &&& r.config.owner@ == plain.owner@
            &&& r.config.proxy@ == plain.proxy@
            &&& r.rewrite <==> fields.has_token || former
            &&& are_mirrors_of(fields.mirrors, r.config.mirrors@)
        }),
{
    law_which_mirrors_are_used(fields.mirrors, r.config.mirrors@);
}

/// The fields of a configuration are its members of the same names, where they are texts, and a list
/// of mirrors, whose entries that are no texts stand for none; what it says of a token is only that
/// it has one.
pub proof fn law_what_a_configuration_says(tree: JsonTree, fields: ConfigFields)
    requires
        fields@ == fields_in(tree),
    ensures
        view_opt(fields.owner) == text_member(tree, "owner"@),
        view_opt(fields.repo) == text_member(tree, "repo"@),
        view_opt(fields.proxy) == text_member(tree, "proxy"@),
        fields.has_token <==> member(tree, "token"@) is Some,
        fields.mirrors is Some <==> (member(tree, "mirrors"@) is Some && member(tree, "mirrors"@)->0
            is Array),
        fields.mirrors matches Some(list) ==> {
            let items = member(tree, "mirrors"@)->0->Array_0;
            list@.len() == items.len() && forall|i: int|
                0 <= i < items.len() ==> match #[trigger] items[i] {
                    JsonTree::Text(s) => list@[i] is Some && list@[i]->0@ == s,
                    _ => list@[i] is None,
                }
        },
{
    if let Some(list) = fields.mirrors {
        let items = member(tree, "mirrors"@)->0->Array_0;
        assert(opt_views(list@).len() == items.len());
        assert forall|i: int| 0 <= i < items.len() implies match #[trigger] items[i] {
            JsonTree::Text(s) => list@[i] is Some && list@[i]->0@ == s,
            _ => list@[i] is None,
        } by {
            assert(opt_views(list@)[i] == view_opt(list@[i]));
            assert(listed_mirrors(tree)->0[i] == crate::json::text_of(items[i]));
        }
    }
}

/// A file that cannot be read, or is no document, says nothing; any other says what its document
/// says.
pub proof fn law_what_a_file_says(text: Seq<char>)
    ensures
        json_document(text) matches Some(tree) ==> fields_of_file(Some(text)) == fields_in(tree),
        ({
            let none = fields_of_file(None);
            &&& none.owner is None && none.repo is None && none.proxy is None
            &&& none.mirrors is None && !none.has_token
            &&& json_document(text) is None ==> fields_of_file(Some(text)) == none
        }),
{
}

/// What is stored holds the owner, the name, the proxy and the mirrors under their names, and
/// nothing else: no token is ever stored.
pub proof fn law_what_is_stored_of_a_source(config: GithubConfig)
    ensures
        ({
            let stored = config_tree(config@);
            &&& member(stored, "owner"@) == Some(JsonTree::Text(config.owner@))
            &&& member(stored, "repo"@) == Some(JsonTree::Text(config.repo@))
            &&& member(stored, "proxy"@) == Some(JsonTree::Text(config.proxy@))
            &&& member(stored, "mirrors"@) matches Some(JsonTree::Array(list)) && list.len()
                == config.mirrors@.len() && forall|i: int|
                0 <= i < list.len() ==> #[trigger] list[i] == JsonTree::Text(config.mirrors@[i]@)
            &&& forall|key: Seq<char>|
                #[trigger] member(stored, key) is Some ==> key == "owner"@ || key == "repo"@ || key
                    == "proxy"@ || key == "mirrors"@
        }),
{
    let fields = config_fields(config@);
    reveal_strlit("owner");
    reveal_strlit("repo");
    reveal_strlit("proxy");
    reveal_strlit("mirrors");
    assert("owner"@.len() == 5 && "repo"@.len() == 4 && "proxy"@.len() == 5 && "mirrors"@.len()
        == 7);
    assert("owner"@[0] != "proxy"@[0]);
    lemma_member(fields, 0);
    lemma_member(fields, 1);
    lemma_member(fields, 2);
    lemma_member(fields, 3);
    assert forall|key: Seq<char>| #[trigger]
        member(config_tree(config@), key) is Some implies key == "owner"@ || key == "repo"@ || key
        == "proxy"@ || key == "mirrors"@ by {
        if key != "owner"@ && key != "repo"@ && key != "proxy"@ && key != "mirrors"@ {
            lemma_no_member(fields, key);
        }
    }
}

/// The proxy that is asked for is used as it stands; without one the configured one is, unless it is
/// blank.
pub proof fn law_which_proxy_is_used(asked: Option<Seq<char>>, configured: Seq<char>)
    ensures
        asked is Some ==> proxy_in_use(asked, configured) == asked,
        asked is None && is_visible(configured) ==> proxy_in_use(asked, configured) == Some(
            trimmed(configured),
        ),
        asked is None && !is_visible(configured) ==> proxy_in_use(asked, configured) is None,
{
    law_only_blank_text_is_trimmed_away(configured);
}

/// The page of the latest release stands below the repository, which stands below its owner.
pub proof fn law_where_the_release_page_stands(owner: Seq<char>, repo: Seq<char>)
    ensures
        ({
            let url = release_page(owner, repo);
            let a = 19 + owner.len() as int;
            let b = a + 1 + repo.len();
            &&& url.len() == b + 16
            &&& url.take(19) == "https://github.com/"@
            &&& url.subrange(19, a) == owner
            &&& url[a] == '/'
            &&& url.subrange(a + 1, b) == repo
            &&& url.skip(b) == "/releases/latest"@
        }),
{
    reveal_strlit("https://github.com/");
    reveal_strlit("/");
    reveal_strlit("/releases/latest");
    let url = release_page(owner, repo);
    let a = 19 + owner.len() as int;
    let b = a + 1 + repo.len();
    assert(url.take(19) =~= "https://github.com/"@);
    assert(url.subrange(19, a) =~= owner);
    assert(url.subrange(a + 1, b) =~= repo);
    assert(url.skip(b) =~= "/releases/latest"@);
}

} // verus!
