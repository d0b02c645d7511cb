//! The update source: which repository, through which proxy and mirrors.

use crate::json::{
    field, field_views, get_text, has_distinct_names, json_document, json_get, json_object,
    json_parse, json_pretty, json_string, json_strings, json_tree, lemma_member, lemma_no_member,
    lemma_record, member, object_tree, text_list, text_member, text_of, trees, JsonTree,
};
use crate::paths::{path_at, FilePath};
use crate::text::{
    begins_with, concat2, lemma_trimmed, lemma_trimmed_already, same_text, starts_with_text, trim,
    trimmed, view_opt, views,
};
use serde_json::Value;
use vstd::prelude::*;

verus! {

broadcast use vstd::string::group_string_axioms;

/// The version of this application.
pub const APP_VERSION: &'static str = "1.0.8";

/// The owner of the public repository.
pub const GITHUB_OWNER: &'static str = "heylumen";

/// The name of the public repository.
pub const GITHUB_REPO: &'static str = "workbuddy-switch-tidy";

/// The owner under which old configurations know the repository.
pub const FORMER_OWNER: &'static str = "changexbc";

/// The name that goes with `FORMER_OWNER`.
pub const FORMER_REPO: &'static str = "wb-switch";

/// The file, in the store directory, that holds the update source.
pub fn github_config_file(store_dir: &str) -> (r: FilePath)
    ensures
        r@ == path_at(store_dir@).below("github_config.json"@),
{
    FilePath::at(store_dir).join("github_config.json")
}

// ---------------------------------------------------------------------------
// Mirrors
// ---------------------------------------------------------------------------

/// A mirror prefix made fit for use: without white space around it, and with a `/` at its end.
/// What is not an `https://` address comes out empty.
pub open spec fn mirror_prefix(m: Seq<char>) -> Seq<char> {
    let t = trimmed(m);
    if !begins_with(t, "https://"@) {
        Seq::empty()
    } else if t.last() == '/' {
        t
    } else {
        t.push('/')
    }
}

/// `mirror_prefix`.
pub fn normalize_mirror(m: &str) -> (r: String)
    ensures
        r@ == mirror_prefix(m@),
{
    let mut t = trim(m);
    if !starts_with_text(t.as_str(), "https://") {
        return String::new();
    }
    proof {
        reveal_strlit("https://");
    }
    let n = t.as_str().unicode_len();
    if t.as_str().get_char(n - 1) != '/' {
        t.push('/');
    }
    t
}

/// The mirrors in use where the configuration names none.
pub open spec fn default_mirror_list() -> Seq<Seq<char>> {
    seq!["https://gh-proxy.com/"@, "https://ghproxy.net/"@]
}

/// The mirrors in use where the configuration names none.
pub fn default_mirrors() -> (r: Vec<String>)
    ensures
        views(r@) == default_mirror_list(),
{
    let mut out: Vec<String> = Vec::new();
    out.push("https://gh-proxy.com/".to_string());
    out.push("https://ghproxy.net/".to_string());
    assert(views(out@) =~= default_mirror_list());
    out
}

/// The contents of a list of optional strings.
pub open spec fn opt_views(list: Seq<Option<String>>) -> Seq<Option<Seq<char>>> {
    Seq::new(list.len(), |i: int| view_opt(list[i]))
}

/// The mirrors among `list` that are fit for use, in order.
pub open spec fn usable_mirrors(list: Seq<Option<Seq<char>>>) -> Seq<Seq<char>>
    decreases list.len(),
{
    if list.len() == 0 {
        Seq::empty()
    } else {
        let before = usable_mirrors(list.drop_last());
        match list.last() {
            Some(m) => if mirror_prefix(m).len() > 0 {
                before.push(mirror_prefix(m))
            } else {
                before
            },
            None => before,
        }
    }
}

/// The mirrors that a configured list stands for: those fit for use, or the default ones where
/// there is none.
pub open spec fn mirrors_in_use(list: Option<Seq<Option<Seq<char>>>>) -> Seq<Seq<char>> {
    match list {
        Some(list) => if usable_mirrors(list).len() == 0 {
            default_mirror_list()
        } else {
            usable_mirrors(list)
        },
        None => default_mirror_list(),
    }
}

/// The contents of an optional list of optional strings.
pub open spec fn opt_list(list: Option<Vec<Option<String>>>) -> Option<Seq<Option<Seq<char>>>> {
    match list {
        Some(list) => Some(opt_views(list@)),
        None => None,
    }
}

/// The mirrors that a configured list stands for. An entry that is no string is `None`; a missing
/// list is `None` too.
pub fn mirrors_from_list(list: &Option<Vec<Option<String>>>) -> (r: Vec<String>)
    ensures
        views(r@) == mirrors_in_use(opt_list(*list)),
{
    let mut out: Vec<String> = Vec::new();
    if let Some(list) = list {
        let mut i: usize = 0;
        assert(views(out@) =~= usable_mirrors(opt_views(list@).take(0)));
        while i < list.len()
            invariant
                i <= list@.len(),
                views(out@) == usable_mirrors(opt_views(list@).take(i as int)),
            decreases list@.len() - i,
        {
            let ghost before = views(out@);
            let ghost entry = opt_views(list@).take(i + 1);
            assert(entry.drop_last() =~= opt_views(list@).take(i as int));
            if let Some(m) = &list[i] {
                let fit = normalize_mirror(m.as_str());
                if !fit.as_str().is_empty() {
                    out.push(fit);
                    assert(views(out@) =~= before.push(fit@));
                }
            }
            i += 1;
        }
        assert(opt_views(list@).take(i as int) =~= opt_views(list@));
    }
    if out.len() == 0 {
        assert(views(out@).len() == 0);
        default_mirrors()
    } else {
        assert(views(out@).len() > 0);
        out
    }
}

/// The strings of a JSON list, with `None` for whatever is no string.
pub open spec fn text_items(items: Seq<JsonTree>) -> Seq<Option<Seq<char>>> {
    Seq::new(items.len(), |i: int| text_of(items[i]))
}

/// The list under `mirrors`, where there is one.
pub open spec fn listed_mirrors(tree: JsonTree) -> Option<Seq<Option<Seq<char>>>> {
    match member(tree, "mirrors"@) {
        Some(JsonTree::Array(items)) => Some(text_items(items)),
        _ => None,
    }
}

fn read_mirrors(cfg: &Value) -> (r: Option<Vec<Option<String>>>)
    ensures
        opt_list(r) == listed_mirrors(json_tree(*cfg)),
{
    let found = match json_get(cfg, "mirrors") {
        Some(found) => found,
        None => {
            return None;
        },
    };
    let items = match found.as_array() {
        Some(items) => items,
        None => {
            return None;
        },
    };
    let mut out: Vec<Option<String>> = Vec::new();
    let mut i: usize = 0;
    while i < items.len()
        invariant
            i <= items@.len(),
            opt_views(out@) == text_items(trees(items@)).take(i as int),
        decreases items@.len() - i,
    {
        let ghost before = opt_views(out@);
        let entry = match items[i].as_str() {
            Some(s) => Some(s.to_string()),
            None => None,
        };
        out.push(entry);
        assert(opt_views(out@) =~= before.push(view_opt(entry)));
        assert(text_items(trees(items@)).take(i + 1) =~= text_items(trees(items@)).take(
            i as int,
        ).push(text_of(trees(items@)[i as int])));
        i += 1;
    }
    assert(text_items(trees(items@)).take(i as int) =~= text_items(trees(items@)));
    Some(out)
}

/// The mirrors that the configuration `cfg` stands for.
pub fn mirrors_from_config(cfg: &Value) -> (r: Vec<String>)
    ensures
        views(r@) == mirrors_in_use(listed_mirrors(json_tree(*cfg))),
{
    mirrors_from_list(&read_mirrors(cfg))
}

// ---------------------------------------------------------------------------
// The configuration
// ---------------------------------------------------------------------------

/// What a configuration says, as far as this library reads it.
pub struct ConfigFields {
    pub owner: Option<String>,
    pub repo: Option<String>,
    pub proxy: Option<String>,
    /// The entries under `mirrors`, where that is a list; `None` among them is no string.
    pub mirrors: Option<Vec<Option<String>>>,
    /// Whether there is a member `token`.
    pub has_token: bool,
}

/// The contents of `ConfigFields`.
pub struct FieldsView {
    pub owner: Option<Seq<char>>,
    pub repo: Option<Seq<char>>,
    pub proxy: Option<Seq<char>>,
    pub mirrors: Option<Seq<Option<Seq<char>>>>,
    pub has_token: bool,
}

impl View for ConfigFields {
    type V = FieldsView;

    open spec fn view(&self) -> FieldsView {
        FieldsView {
            owner: view_opt(self.owner),
            repo: view_opt(self.repo),
            proxy: view_opt(self.proxy),
            mirrors: opt_list(self.mirrors),
            has_token: self.has_token,
        }
    }
}

/// The update source in use.
pub struct GithubConfig {
    pub owner: String,
    pub repo: String,
    /// The proxy, without white space around it; empty where there is none.
    pub proxy: String,
    pub mirrors: Vec<String>,
}

/// The contents of a `GithubConfig`.
pub struct ConfigView {
    pub owner: Seq<char>,
    pub repo: Seq<char>,
    pub proxy: Seq<char>,
    pub mirrors: Seq<Seq<char>>,
}

impl View for GithubConfig {
    type V = ConfigView;

    open spec fn view(&self) -> ConfigView {
        ConfigView {
            owner: self.owner@,
            repo: self.repo@,
            proxy: self.proxy@,
            mirrors: views(self.mirrors@),
        }
    }
}

/// What the members of a JSON configuration say.
pub open spec fn fields_in(tree: JsonTree) -> FieldsView {
    FieldsView {
        owner: text_member(tree, "owner"@),
        repo: text_member(tree, "repo"@),
        proxy: text_member(tree, "proxy"@),
        mirrors: listed_mirrors(tree),
        has_token: member(tree, "token"@) is Some,
    }
}

/// The fields of a configuration that says nothing.
pub open spec fn no_fields() -> FieldsView {
    FieldsView { owner: None, repo: None, proxy: None, mirrors: None, has_token: false }
}

/// `value` where it holds more than white space, else `default`.
pub open spec fn nonblank_or(value: Option<Seq<char>>, default: Seq<char>) -> Seq<char> {
    match value {
        Some(v) => if trimmed(v).len() > 0 {
            v
        } else {
            default
        },
        None => default,
    }
}

/// The update source that `fields` name, with the defaults for what they leave out.
pub open spec fn clean(fields: FieldsView) -> ConfigView {
    ConfigView {
        owner: nonblank_or(fields.owner, GITHUB_OWNER@),
        repo: nonblank_or(fields.repo, GITHUB_REPO@),
        proxy: match fields.proxy {
            Some(p) => trimmed(p),
            None => Seq::empty(),
        },
        mirrors: mirrors_in_use(fields.mirrors),
    }
}

/// The configuration names the repository as it was once called.
pub open spec fn is_former(config: ConfigView) -> bool {
    config.owner == FORMER_OWNER@ && config.repo == FORMER_REPO@
}

/// The configuration with the former repository replaced by the present one.
pub open spec fn migrated(config: ConfigView) -> ConfigView {
    if is_former(config) {
        ConfigView { repo: GITHUB_REPO@, ..config }
    } else {
        config
    }
}

/// The members of the JSON object that stands for a configuration. There are no others.
pub open spec fn config_fields(config: ConfigView) -> Seq<(Seq<char>, JsonTree)> {
    seq![
        ("owner"@, JsonTree::Text(config.owner)),
        ("repo"@, JsonTree::Text(config.repo)),
        ("proxy"@, JsonTree::Text(config.proxy)),
        ("mirrors"@, text_list(config.mirrors)),
    ]
}

/// The members of a configuration have different names.
proof fn lemma_config_names(config: ConfigView)
    ensures
        has_distinct_names(config_fields(config)),
{
    reveal_strlit("owner");
    reveal_strlit("repo");
    reveal_strlit("proxy");
    reveal_strlit("mirrors");
    assert("owner"@.len() == 5);
    assert("repo"@.len() == 4);
    assert("proxy"@.len() == 5);
    assert("mirrors"@.len() == 7);
    assert("owner"@[0] != "proxy"@[0]);
}

/// The JSON object that stands for a configuration.
pub open spec fn config_tree(config: ConfigView) -> JsonTree {
    object_tree(config_fields(config))
}

/// What the members of `cfg` say.
pub fn read_fields(cfg: &Value) -> (r: ConfigFields)
    ensures
        r@ == fields_in(json_tree(*cfg)),
{
    ConfigFields {
        owner: get_text(cfg, "owner"),
        repo: get_text(cfg, "repo"),
        proxy: get_text(cfg, "proxy"),
        mirrors: read_mirrors(cfg),
        has_token: json_get(cfg, "token").is_some(),
    }
}

fn nonblank(value: &Option<String>, default: &str) -> (r: String)
    ensures
        r@ == nonblank_or(view_opt(*value), default@),
{
    if let Some(v) = value {
        if !trim(v.as_str()).as_str().is_empty() {
            return v.clone();
        }
    }
    default.to_string()
}

/// The update source that `fields` name.
pub fn clean_config(fields: &ConfigFields) -> (r: GithubConfig)
    ensures
        r@ == clean(fields@),
{
    GithubConfig {
        owner: nonblank(&fields.owner, GITHUB_OWNER),
        repo: nonblank(&fields.repo, GITHUB_REPO),
        proxy: match &fields.proxy {
            Some(p) => trim(p.as_str()),
            None => String::new(),
        },
        mirrors: mirrors_from_list(&fields.mirrors),
    }
}

/// A configuration as it was found, and whether the file should be written anew.
pub struct LoadedConfig {
    pub config: GithubConfig,
    /// The file holds a token or the former repository.
    pub rewrite: bool,
}

/// The update source that a configuration file with these fields stands for. The file is to be
/// written anew where it holds a token, which is never handed on, or the former repository.
pub fn resolve_config(fields: &ConfigFields) -> (r: LoadedConfig)
    ensures
        r.config@ == migrated(clean(fields@)),
        r.rewrite == (fields.has_token || is_former(clean(fields@))),
{
    let mut config = clean_config(fields);
    let mut rewrite = fields.has_token;
    let ghost before = config@;
    if same_text(config.owner.as_str(), FORMER_OWNER) && same_text(
        config.repo.as_str(),
        FORMER_REPO,
    ) {
        config.repo = GITHUB_REPO.to_string();
        rewrite = true;
    }
    LoadedConfig { config, rewrite }
}

/// What the text of the configuration file says; without a readable file, nothing.
pub open spec fn fields_of_file(text: Option<Seq<char>>) -> FieldsView {
    match text {
        Some(t) => match json_document(t) {
            Some(tree) => fields_in(tree),
            None => no_fields(),
        },
        None => no_fields(),
    }
}

/// The update source that the configuration file names. `text` is the content of the file, where
/// it could be read; what is no JSON document counts as no file.
pub fn load_github_config(text: Option<&str>) -> (r: LoadedConfig)
    ensures
        r.config@ == migrated(clean(fields_of_file(crate::text::view_ref(text)))),
        r.rewrite == {
            let fields = fields_of_file(crate::text::view_ref(text));
            fields.has_token || is_former(clean(fields))
        },
{
    if let Some(text) = text {
        if let Some(found) = json_parse(text) {
            return resolve_config(&read_fields(&found));
        }
    }
    resolve_config(
        &ConfigFields { owner: None, repo: None, proxy: None, mirrors: None, has_token: false },
    )
}

/// The text of a configuration file: a JSON object with `owner`, `repo`, `proxy` and `mirrors`.
pub fn config_text(config: &GithubConfig) -> (r: String)
    ensures
        json_document(r@) == Some(config_tree(config@)),
{
    let mut fields: Vec<(String, Value)> = Vec::new();
    fields.push(field("owner", json_string(config.owner.as_str())));
    fields.push(field("repo", json_string(config.repo.as_str())));
    fields.push(field("proxy", json_string(config.proxy.as_str())));
    fields.push(field("mirrors", json_strings(&config.mirrors)));
    proof {
        assert(field_views(fields@) =~= config_fields(config@));
        lemma_config_names(config@);
        lemma_record(config_fields(config@));
    }
    match json_pretty(&json_object(fields)) {
        Some(text) => text,
        None => String::new(),
    }
}

/// What is to be stored for the configuration `cfg`. Only the four known members are kept: a token
/// is never stored.
pub fn save_github_config(cfg: &Value) -> (r: String)
    ensures
        json_document(r@) == Some(config_tree(clean(fields_in(json_tree(*cfg))))),
{
    config_text(&clean_config(&read_fields(cfg)))
}

proof fn lemma_mirror_prefix(m: Seq<char>)
    requires
        mirror_prefix(m).len() > 0,
    ensures
        mirror_prefix(mirror_prefix(m)) == mirror_prefix(m),
{
    reveal_strlit("https://");
    lemma_trimmed(m);
    let t = mirror_prefix(m);
    assert(trimmed(m)[0] == "https://"@[0]);
    assert(t.last() == '/');
    lemma_trimmed_already(t);
    assert(trimmed(m).subrange(0, 8) =~= "https://"@);
    assert(t.subrange(0, 8) =~= "https://"@);
}

/// Mirrors in use, listed again, stay as they are.
proof fn lemma_usable_again(list: Seq<Seq<char>>)
    requires
        forall|i: int|
            0 <= i < list.len() ==> (#[trigger] list[i]).len() > 0 && mirror_prefix(list[i])
                == list[i],
    ensures
        usable_mirrors(Seq::new(list.len(), |i: int| Some(list[i]))) == list,
    decreases list.len(),
{
    let again = Seq::new(list.len(), |i: int| Some(list[i]));
    if list.len() > 0 {
        let shorter = list.drop_last();
        assert forall|i: int| 0 <= i < shorter.len() implies (#[trigger] shorter[i]).len() > 0
            && mirror_prefix(shorter[i]) == shorter[i] by {
            assert(list[i].len() > 0);
        }
        lemma_usable_again(shorter);
        assert(again.drop_last() =~= Seq::new(shorter.len(), |i: int| Some(shorter[i])));
        assert(list[list.len() - 1].len() > 0);
        assert(list =~= shorter.push(list.last()));
    } else {
        assert(list =~= Seq::empty());
    }
}

proof fn lemma_usable(list: Seq<Option<Seq<char>>>)
    ensures
        forall|i: int|
            0 <= i < usable_mirrors(list).len() ==> {
                let m = #[trigger] usable_mirrors(list)[i];
                m.len() > 0 && mirror_prefix(m) == m
            },
    decreases list.len(),
{
    if list.len() > 0 {
        lemma_usable(list.drop_last());
        if let Some(m) = list.last() {
            if mirror_prefix(m).len() > 0 {
                lemma_mirror_prefix(m);
            }
        }
        let before = usable_mirrors(list.drop_last());
        assert forall|i: int| 0 <= i < usable_mirrors(list).len() implies ({
            let m = #[trigger] usable_mirrors(list)[i];
            m.len() > 0 && mirror_prefix(m) == m
        }) by {
            if i < before.len() {
                assert(usable_mirrors(list)[i] == before[i]);
            }
        }
    }
}

proof fn lemma_mirrors_again(list: Option<Seq<Option<Seq<char>>>>)
    ensures
        ({
            let used = mirrors_in_use(list);
            mirrors_in_use(Some(Seq::new(used.len(), |i: int| Some(used[i])))) == used
        }),
{
    let used = mirrors_in_use(list);
    if let Some(given) = list {
        lemma_usable(given);
    }
    assert forall|i: int| 0 <= i < used.len() implies (#[trigger] used[i]).len() > 0
        && mirror_prefix(used[i]) == used[i] by {
        if used == default_mirror_list() {
            reveal_strlit("https://gh-proxy.com/");
            reveal_strlit("https://ghproxy.net/");
            reveal_strlit("https://");
            lemma_trimmed_already(used[i]);
            assert(used[i].subrange(0, 8) =~= "https://"@);
        }
    }
    lemma_usable_again(used);
    assert(used.len() > 0);
}

/// Whatever is configured, every mirror in use is an encrypted address that ends in a `/`.
pub proof fn law_mirrors_are_encrypted(list: Option<Seq<Option<Seq<char>>>>, i: int)
    requires
        0 <= i < mirrors_in_use(list).len(),
    ensures
        begins_with(mirrors_in_use(list)[i], "https://"@),
        mirrors_in_use(list)[i].last() == '/',
{
    let used = mirrors_in_use(list);
    reveal_strlit("https://");
    if let Some(given) = list {
        lemma_usable(given);
    }
    if used == default_mirror_list() {
        reveal_strlit("https://gh-proxy.com/");
        reveal_strlit("https://ghproxy.net/");
        assert(used[i].subrange(0, 8) =~= "https://"@);
    } else {
        assert(mirror_prefix(used[i]) == used[i]);
        assert(used[i].len() > 0);
        let t = trimmed(used[i]);
        assert(t.subrange(0, 8) =~= "https://"@);
        assert(used[i].subrange(0, 8) =~= "https://"@);
    }
}

/// The file that `save_github_config` describes holds the four members and no token, and loading it
/// gives back the configuration that was saved, whatever was asked to be saved; only the former
/// repository is replaced on the way.
pub proof fn law_saved_config_loads_back(asked: FieldsView, text: Seq<char>)
    requires
        json_document(text) == Some(config_tree(clean(asked))),
    ensures
        fields_of_file(Some(text)).has_token == false,
        clean(fields_of_file(Some(text))) == clean(asked),
        !is_former(clean(asked)) ==> migrated(clean(fields_of_file(Some(text)))) == clean(asked),
{
    let saved = clean(asked);
    let fields = config_fields(saved);
    lemma_config_names(saved);
    lemma_no_token_name();
    lemma_member(fields, 0);
    lemma_member(fields, 1);
    lemma_member(fields, 2);
    lemma_member(fields, 3);
    lemma_no_member(fields, "token"@);
    let read = fields_of_file(Some(text));
    assert(read.owner == Some(saved.owner));
    assert(read.repo == Some(saved.repo));
    reveal_strlit("heylumen");
    reveal_strlit("workbuddy-switch-tidy");
    lemma_trimmed_already(GITHUB_OWNER@);
    lemma_trimmed_already(GITHUB_REPO@);
    if let Some(p) = asked.proxy {
        lemma_trimmed(p);
    }
    lemma_trimmed_already(saved.proxy);
    lemma_mirrors_again(asked.mirrors);
    assert(read.mirrors->0 =~= Seq::new(saved.mirrors.len(), |i: int| Some(saved.mirrors[i])));
}

/// A file that was written anew on loading gives the same update source from then on, and is not
/// written anew again.
pub proof fn law_a_rewritten_file_needs_no_rewriting(fields: FieldsView, text: Seq<char>)
    requires
        json_document(text) == Some(config_tree(migrated(clean(fields)))),
    ensures
        ({
            let again = fields_of_file(Some(text));
            &&& migrated(clean(again)) == migrated(clean(fields))
            &&& !again.has_token
            &&& !is_former(clean(again))
        }),
{
    let renamed = FieldsView { repo: Some(GITHUB_REPO@), ..fields };
    reveal_strlit("workbuddy-switch-tidy");
    reveal_strlit("wb-switch");
    lemma_trimmed_already(GITHUB_REPO@);
    assert(GITHUB_REPO@.len() != FORMER_REPO@.len());
    if is_former(clean(fields)) {
        assert(clean(renamed) == migrated(clean(fields)));
        law_saved_config_loads_back(renamed, text);
    } else {
        law_saved_config_loads_back(fields, text);
    }
}

proof fn lemma_no_token_name()
    ensures
        "owner"@ != "token"@,
        "repo"@ != "token"@,
        "proxy"@ != "token"@,
        "mirrors"@ != "token"@,
{
    reveal_strlit("owner");
    reveal_strlit("repo");
    reveal_strlit("proxy");
    reveal_strlit("mirrors");
    reveal_strlit("token");
    assert("owner"@[0] != "token"@[0]);
    assert("repo"@.len() == 4);
    assert("proxy"@[0] != "token"@[0]);
    assert("mirrors"@.len() == 7);
    assert("token"@.len() == 5);
}

/// The proxy to use: the one that was asked for, else the configured one, where there is one.
pub open spec fn proxy_in_use(
    asked: Option<Seq<char>>,
    configured: Seq<char>,
) -> Option<Seq<char>> {
    match asked {
        Some(p) => Some(p),
        None => if trimmed(configured).len() > 0 {
            Some(trimmed(configured))
        } else {
            None
        },
    }
}

/// The configured proxy, where there is one.
pub fn configured_proxy(config: &GithubConfig) -> (r: Option<String>)
    ensures
        view_opt(r) == proxy_in_use(None, config@.proxy),
{
    let proxy = trim(config.proxy.as_str());
    if proxy.as_str().is_empty() {
        None
    } else {
        Some(proxy)
    }
}

/// The address of the page of the latest release.
pub open spec fn release_page(owner: Seq<char>, repo: Seq<char>) -> Seq<char> {
    "https://github.com/"@ + owner + "/"@ + repo + "/releases/latest"@
}

/// The address of the page of the latest release.
pub fn release_page_url(owner: &str, repo: &str) -> (r: String)
    ensures
        r@ == release_page(owner@, repo@),
{
    let mut out = concat2("https://github.com/", owner);
    out.append("/");
    out.append(repo);
    out.append("/releases/latest");
    out
}

/// The public address of the update source: its defaults stand in for an empty owner or name.
pub fn release_url(config: &GithubConfig) -> (r: String)
    ensures
        r@ == release_page(
            if config@.owner.len() == 0 {
                GITHUB_OWNER@
            } else {
                config@.owner
            },
            if config@.repo.len() == 0 {
                GITHUB_REPO@
            } else {
                config@.repo
            },
        ),
{
    let owner = if config.owner.as_str().is_empty() {
        GITHUB_OWNER
    } else {
        config.owner.as_str()
    };
    let repo = if config.repo.as_str().is_empty() {
        GITHUB_REPO
    } else {
        config.repo.as_str()
    };
    release_page_url(owner, repo)
}

} // verus!
