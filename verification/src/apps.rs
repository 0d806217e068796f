//! The catalog of installed applications.
//!
//! A catalog entry joins what the filesystem says of an application bundle
//! (its path, its name, when it was modified) with what the user's record says
//! of that path (its category, how often it was launched). The entries live in
//! a cache that the caller owns. A hard refresh rebuilds the cache from the
//! output of the bundle search; a soft refresh only drops the entries whose
//! path is gone and reads the record again.
//!
//! Nothing here touches the machine. The caller runs the search, asks the
//! filesystem about paths, and hands over what it learned: the text that the
//! search printed, and a map from each path that exists to the time of its
//! last modification, in seconds, where that is known.

use vstd::prelude::*;
use crate::config::{category, usage_count, AppConfig, AppConfigView};
use crate::path_map::PathMap;
use crate::paths::{extension_of, file_stem_of, stem_and_extension_spans};
use crate::sorting::{by_key, positions_in_order, reordered, stable_order};
use crate::text::{
    chars_of,
    contains,
    contains_string,
    has_prefix,
    has_substring,
    lines,
    lines_of,
    lowercase,
    matches_at,
    starts_with,
    to_lowercase,
    trim,
    trimmed_text,
};
use vstd::string::{StrSliceExecFns, StringExecFns};

verus! {

/// One application of the catalog.
#[derive(Debug, PartialEq, Eq)]
pub struct AppInfo {
    /// The display name: the file name of the bundle without its extension.
    pub name: String,
    /// The absolute path of the bundle; the key of the entry.
    pub path: String,
    /// Whether the bundle lies under a directory that the system owns.
    pub is_system: bool,
    /// The category that the user's record gives to the path.
    pub category: Option<String>,
    /// How often the path was launched, by the user's record.
    pub usage_count: u32,
    /// The icon, where someone has fetched it. Never set here.
    pub icon_data: Option<String>,
    /// When the bundle was last modified, in seconds since the epoch; 0 where
    /// that is not known.
    pub date_modified: u64,
}

/// The model of an `AppInfo`.
pub struct AppInfoView {
    pub name: Seq<char>,
    pub path: Seq<char>,
    pub is_system: bool,
    pub category: Option<Seq<char>>,
    pub usage_count: u32,
    pub icon_data: Option<Seq<char>>,
    pub date_modified: u64,
}

impl DeepView for AppInfo {
    type V = AppInfoView;

    open spec fn deep_view(&self) -> AppInfoView {
        AppInfoView {
            name: self.name@,
            path: self.path@,
            is_system: self.is_system,
            category: self.category.deep_view(),
            usage_count: self.usage_count,
            icon_data: self.icon_data.deep_view(),
            date_modified: self.date_modified,
        }
    }
}

impl View for AppInfo {
    type V = AppInfoView;

    open spec fn view(&self) -> AppInfoView {
        self.deep_view()
    }
}

impl Clone for AppInfo {
    fn clone(&self) -> (out: Self)
        ensures
            out == *self,
    {
        AppInfo {
            name: self.name.clone(),
            path: self.path.clone(),
            is_system: self.is_system,
            category: self.category.clone(),
            usage_count: self.usage_count,
            icon_data: self.icon_data.clone(),
            date_modified: self.date_modified,
        }
    }
}

/// What the filesystem is known to hold: each path that exists, with the time
/// of its last modification where that could be read.
pub type FileFacts = Map<Seq<char>, Option<u64>>;

/// A path of the search output that names an application bundle of its own:
/// it does not lie inside another bundle, and its extension is `app`.
pub open spec fn is_bundle_path(line: Seq<char>) -> bool {
    !has_substring(line, ".app/Contents/"@) && extension_of(line) == Some("app"@)
}

/// The bundle paths among `lines`, each once, in the order in which they
/// first occur.
pub open spec fn bundle_paths_of(lines: Seq<Seq<char>>) -> Seq<Seq<char>>
    decreases lines.len(),
{
    if lines.len() == 0 {
        Seq::empty()
    } else {
        let before = bundle_paths_of(lines.drop_last());
        if is_bundle_path(lines.last()) && !before.contains(lines.last()) {
            before.push(lines.last())
        } else {
            before
        }
    }
}

/// Whether `path` lies under one of the directories that the system owns.
pub open spec fn is_system_path(path: Seq<char>) -> bool {
    has_prefix(path, "/System/Applications"@) || has_prefix(path, "/Applications/Utilities"@)
}

/// When `path` was last modified according to `files`; 0 where the path is
/// missing or the time is not known.
pub open spec fn modified_at(files: FileFacts, path: Seq<char>) -> u64 {
    if files.contains_key(path) {
        match files[path] {
            Some(seconds) => seconds,
            None => 0,
        }
    } else {
        0
    }
}

/// The catalog entry for the bundle at `path`, if the path has a file stem to
/// name it by.
pub open spec fn discovered_entry(
    path: Seq<char>,
    files: FileFacts,
    config: AppConfigView,
) -> Option<AppInfoView> {
    match file_stem_of(path) {
        Some(name) => Some(
            AppInfoView {
                name,
                path,
                is_system: is_system_path(path),
                category: config.category_of(path),
                usage_count: config.usage_of(path),
                icon_data: None,
                date_modified: modified_at(files, path),
            },
        ),
        None => None,
    }
}

/// The entries that a search discovers, in the order of its output. A search
/// that could not run discovers nothing.
pub open spec fn discovered(
    search_output: Option<Seq<char>>,
    files: FileFacts,
    config: AppConfigView,
) -> Seq<AppInfoView> {
    match search_output {
        Some(text) => bundle_paths_of(lines_of(text)).filter_map(
            |path: Seq<char>| discovered_entry(path, files, config),
        ),
        None => Seq::empty(),
    }
}

/// The keys by which entries are sorted: their names in lower case.
pub open spec fn name_keys(entries: Seq<AppInfoView>) -> Seq<Seq<char>> {
    entries.map_values(|e: AppInfoView| lowercase(e.name))
}

/// The entries in the order of a stable sort by `keys`, one key for each
/// entry.
pub open spec fn sorted_by_keys(entries: Seq<AppInfoView>, keys: Seq<Seq<char>>) -> Seq<
    AppInfoView,
> {
    reordered(entries, positions_in_order(by_key(keys), entries.len() as int))
}

/// The entries sorted by name without regard to case; entries whose names
/// are equal but for case keep their order.
pub open spec fn sorted_by_name(entries: Seq<AppInfoView>) -> Seq<AppInfoView> {
    sorted_by_keys(entries, name_keys(entries))
}

/// The cache after a hard refresh.
pub open spec fn hard_refreshed(
    search_output: Option<Seq<char>>,
    files: FileFacts,
    config: AppConfigView,
) -> Seq<AppInfoView> {
    sorted_by_name(discovered(search_output, files, config))
}

/// The entry with its category and usage count read from `config` again.
pub open spec fn overlaid(entry: AppInfoView, config: AppConfigView) -> AppInfoView {
    AppInfoView {
        category: config.category_of(entry.path),
        usage_count: config.usage_of(entry.path),
        ..entry
    }
}

/// What a soft refresh makes of one entry: nothing where its path is gone.
pub open spec fn soft_refreshed_entry(
    entry: AppInfoView,
    files: FileFacts,
    config: AppConfigView,
) -> Option<AppInfoView> {
    if files.contains_key(entry.path) {
        Some(overlaid(entry, config))
    } else {
        None
    }
}

/// The cache after a soft refresh.
pub open spec fn soft_refreshed(
    cache: Seq<AppInfoView>,
    files: FileFacts,
    config: AppConfigView,
) -> Seq<AppInfoView> {
    cache.filter_map(|e: AppInfoView| soft_refreshed_entry(e, files, config))
}

/// Whether a fetch of the catalog has to search for bundles: the caller asks
/// for it, or the cache is empty.
pub open spec fn searches(cache: Seq<AppInfoView>, refresh: Option<bool>) -> bool {
    cache.len() == 0 || refresh == Some(true)
}

/// The cache after a fetch of the catalog.
pub open spec fn refreshed(
    cache: Seq<AppInfoView>,
    refresh: Option<bool>,
    search_output: Option<Seq<char>>,
    files: FileFacts,
    config: AppConfigView,
) -> Seq<AppInfoView> {
    if searches(cache, refresh) {
        hard_refreshed(search_output, files, config)
    } else {
        soft_refreshed(cache, files, config)
    }
}

/// The paths of the search output that name application bundles of their own,
/// each once, in the order in which they first occur.
pub fn bundle_paths(search_output: &str) -> (out: Vec<String>)
    ensures
        out.deep_view() == bundle_paths_of(lines_of(search_output@)),
{
    let all = lines(search_output);
    let marker = chars_of(".app/Contents/");
    let wanted = chars_of("app");
    let ghost all_view = all.deep_view();
    let mut out: Vec<String> = Vec::new();
    let mut i: usize = 0;
    assert(all_view.take(0) =~= Seq::<Seq<char>>::empty());
    assert(out.deep_view() =~= Seq::<Seq<char>>::empty());
    while i < all.len()
        invariant
            i <= all@.len(),
            all_view == all.deep_view(),
            marker@ == ".app/Contents/"@,
            wanted@ == "app"@,
            out.deep_view() == bundle_paths_of(all_view.take(i as int)),
        decreases all@.len() - i,
    {
        let ghost before = out.deep_view();
        proof {
            assert(all_view.take(i + 1).drop_last() =~= all_view.take(i as int));
            assert(all_view.take(i + 1).last() == all@[i as int]@);
        }
        let line = chars_of(all[i].as_str());
        let nested = contains(&line, &marker);
        let is_bundle = !nested && match stem_and_extension_spans(&line) {
            Some((_, Some((from, to)))) => {
                let same = to - from == wanted.len() && matches_at(&line, &wanted, from);
                assert(same == (line@.subrange(from as int, to as int) == wanted@));
                same
            },
            _ => false,
        };
        assert(is_bundle == is_bundle_path(all@[i as int]@));
        if is_bundle && !contains_string(&out, &all[i]) {
            out.push(all[i].clone());
            assert(out.deep_view() =~= before.push(all@[i as int]@));
        }
        i += 1;
    }
    assert(all_view.take(all@.len() as int) =~= all_view);
    out
}

/// Whether `path` lies under one of the directories that the system owns.
pub fn is_system_app(path: &str) -> (out: bool)
    ensures
        out == is_system_path(path@),
{
    let chars = chars_of(path);
    let system = chars_of("/System/Applications");
    let utilities = chars_of("/Applications/Utilities");
    starts_with(&chars, &system) || starts_with(&chars, &utilities)
}

/// When `path` was last modified according to `files`.
pub fn modified_seconds(files: &PathMap<Option<u64>>, path: &String) -> (out: u64)
    ensures
        out == modified_at(files@, path@),
{
    match files.get(path) {
        Some(Some(seconds)) => *seconds,
        _ => 0,
    }
}

/// The entries that a search discovers, in the order of its output.
pub fn discover(search_output: Option<&str>, files: &PathMap<Option<u64>>, config: &AppConfig) -> (out:
    Vec<AppInfo>)
    ensures
        out.deep_view() == discovered(
            match search_output {
                Some(text) => Some(text@),
                None => None,
            },
            files@,
            config@,
        ),
{
    let mut out: Vec<AppInfo> = Vec::new();
    assert(out.deep_view() =~= Seq::<AppInfoView>::empty());
    match search_output {
        None => {},
        Some(text) => {
            let paths = bundle_paths(text);
            let ghost all = paths.deep_view();
            let ghost entry = |path: Seq<char>| discovered_entry(path, files@, config@);
            let mut i: usize = 0;
            assert(all.take(0) =~= Seq::<Seq<char>>::empty());
            while i < paths.len()
                invariant
                    i <= paths@.len(),
                    all == paths.deep_view(),
                    entry == (|path: Seq<char>| discovered_entry(path, files@, config@)),
                    out.deep_view() == all.take(i as int).filter_map(entry),
                decreases paths@.len() - i,
            {
                let ghost before = out.deep_view();
                proof {
                    assert(all.take(i + 1).drop_last() =~= all.take(i as int));
                    assert(all.take(i + 1).last() == paths@[i as int]@);
                }
                let path = &paths[i];
                let chars = chars_of(path.as_str());
                match stem_and_extension_spans(&chars) {
                    Some(((from, to), _)) => {
                        let found = AppInfo {
                            name: path.as_str().substring_char(from, to).to_string(),
                            path: path.clone(),
                            is_system: is_system_app(path.as_str()),
                            category: category(config, path),
                            usage_count: usage_count(config, path),
                            icon_data: None,
                            date_modified: modified_seconds(files, path),
                        };
                        assert(Some(found.deep_view()) == entry(path@));
                        out.push(found);
                        assert(out.deep_view() =~= before + seq![found.deep_view()]);
                    },
                    None => {},
                }
                i += 1;
            }
            assert(all.take(paths@.len() as int) =~= all);
        },
    }
    out
}

/// The entries in the order of a stable sort by `keys`, one key for each
/// entry.
pub fn sort_by_keys(entries: &Vec<AppInfo>, keys: &Vec<Vec<char>>) -> (out: Vec<AppInfo>)
    requires
        keys@.len() == entries@.len(),
    ensures
        out.deep_view() == sorted_by_keys(entries.deep_view(), keys.deep_view()),
{
    let order = stable_order(keys);
    let ghost perm = order@.map_values(|p: usize| p as int);
    let ghost all = entries.deep_view();
    let mut out: Vec<AppInfo> = Vec::new();
    let mut i: usize = 0;
    proof {
        crate::sorting::lemma_by_key_strict_total(keys.deep_view(), keys@.len() as int);
        crate::sorting::lemma_sorted_positions_exist(by_key(keys.deep_view()), keys@.len() as int);
    }
    while i < order.len()
        invariant
            i <= order@.len(),
            order@.len() == entries@.len(),
            perm == order@.map_values(|p: usize| p as int),
            all == entries.deep_view(),
            crate::sorting::sorted_positions(perm, by_key(keys.deep_view()), entries@.len() as int),
            out@.len() == i,
            forall|k: int| 0 <= k < i ==> out@[k].deep_view() == all[perm[k]],
        decreases order@.len() - i,
    {
        assert(perm[i as int] == order@[i as int] as int);
        assert(0 <= perm[i as int] < entries@.len());
        out.push(entries[order[i]].clone());
        i += 1;
    }
    assert(out.deep_view() =~= reordered(all, perm));
    out
}

/// The entries sorted by name without regard to case; entries whose names
/// are equal but for case keep their order.
pub fn sort_by_name(entries: &Vec<AppInfo>) -> (out: Vec<AppInfo>)
    ensures
        out.deep_view() == sorted_by_name(entries.deep_view()),
{
    let mut keys: Vec<Vec<char>> = Vec::new();
    let mut i: usize = 0;
    while i < entries.len()
        invariant
            i <= entries@.len(),
            keys@.len() == i,
            forall|k: int| 0 <= k < i ==> keys@[k]@ == lowercase(entries@[k].name@),
        decreases entries@.len() - i,
    {
        let lowered = to_lowercase(entries[i].name.as_str());
        keys.push(chars_of(lowered.as_str()));
        i += 1;
    }
    proof {
        assert forall|k: int| 0 <= k < keys@.len() implies keys.deep_view()[k] == name_keys(
            entries.deep_view(),
        )[k] by {
            assert(keys@[k].deep_view() =~= keys@[k]@);
        }
        assert(keys.deep_view() =~= name_keys(entries.deep_view()));
    }
    sort_by_keys(entries, &keys)
}

/// The entries of `cache` whose path exists, with category and usage count
/// read from `config` again.
pub fn soft_refresh(cache: &Vec<AppInfo>, files: &PathMap<Option<u64>>, config: &AppConfig) -> (out:
    Vec<AppInfo>)
    ensures
        out.deep_view() == soft_refreshed(cache.deep_view(), files@, config@),
{
    let ghost all = cache.deep_view();
    let ghost keep = |e: AppInfoView| soft_refreshed_entry(e, files@, config@);
    let mut out: Vec<AppInfo> = Vec::new();
    let mut i: usize = 0;
    assert(all.take(0) =~= Seq::<AppInfoView>::empty());
    assert(out.deep_view() =~= Seq::<AppInfoView>::empty());
    while i < cache.len()
        invariant
            i <= cache@.len(),
            all == cache.deep_view(),
            keep == (|e: AppInfoView| soft_refreshed_entry(e, files@, config@)),
            out.deep_view() == all.take(i as int).filter_map(keep),
        decreases cache@.len() - i,
    {
        let ghost before = out.deep_view();
        proof {
            assert(all.take(i + 1).drop_last() =~= all.take(i as int));
            assert(all.take(i + 1).last() == cache@[i as int].deep_view());
        }
        let entry = &cache[i];
        if files.contains_key(&entry.path) {
            let kept = AppInfo {
                name: entry.name.clone(),
                path: entry.path.clone(),
                is_system: entry.is_system,
                category: category(config, &entry.path),
                usage_count: usage_count(config, &entry.path),
                icon_data: entry.icon_data.clone(),
                date_modified: entry.date_modified,
            };
            assert(Some(kept.deep_view()) == keep(entry.deep_view()));
            out.push(kept);
            assert(out.deep_view() =~= before + seq![kept.deep_view()]);
        }
        i += 1;
    }
    assert(all.take(cache@.len() as int) =~= all);
    out
}

/// The entries that a search discovers, sorted by name.
pub fn hard_refresh(search_output: Option<&str>, files: &PathMap<Option<u64>>, config: &AppConfig) -> (out:
    Vec<AppInfo>)
    ensures
        out.deep_view() == hard_refreshed(
            match search_output {
                Some(text) => Some(text@),
                None => None,
            },
            files@,
            config@,
        ),
{
    let found = discover(search_output, files, config);
    sort_by_name(&found)
}

/// Whether a fetch of the catalog has to search for bundles.
pub fn needs_search(cache: &Vec<AppInfo>, refresh: Option<bool>) -> (out: bool)
    ensures
        out == searches(cache.deep_view(), refresh),
{
    cache.len() == 0 || match refresh {
        Some(forced) => forced,
        None => false,
    }
}

/// A copy of the entries.
pub fn clone_entries(entries: &Vec<AppInfo>) -> (out: Vec<AppInfo>)
    ensures
        out.deep_view() == entries.deep_view(),
{
    let mut out: Vec<AppInfo> = Vec::new();
    let mut i: usize = 0;
    while i < entries.len()
        invariant
            i <= entries@.len(),
            out@.len() == i,
            forall|k: int| 0 <= k < i ==> out@[k] == entries@[k],
        decreases entries@.len() - i,
    {
        out.push(entries[i].clone());
        i += 1;
    }
    assert(out.deep_view() =~= entries.deep_view());
    out
}

/// Fetches the catalog. With entries in the cache and no refresh asked for,
/// this is a soft refresh; otherwise it is a hard refresh from the output of
/// the search, which the caller ran because `needs_search` said so. The
/// result replaces the cache and is returned.
pub fn get_installed_apps(
    cache: &mut Vec<AppInfo>,
    refresh: Option<bool>,
    config: &AppConfig,
    search_output: Option<&str>,
    files: &PathMap<Option<u64>>,
) -> (out: Vec<AppInfo>)
    ensures
        out.deep_view() == refreshed(
            old(cache).deep_view(),
            refresh,
            match search_output {
                Some(text) => Some(text@),
                None => None,
            },
            files@,
            config@,
        ),
        final(cache).deep_view() == out.deep_view(),
{
    let fresh = if needs_search(cache, refresh) {
        hard_refresh(search_output, files, config)
    } else {
        soft_refresh(cache, files, config)
    };
    let out = clone_entries(&fresh);
    *cache = fresh;
    out
}

/// The category of the fixed taxonomy that a bundle's category identifier,
/// in lower case, stands for. The first rule that matches decides.
pub open spec fn taxonomy_category(lowered: Seq<char>) -> Option<Seq<char>> {
    if has_substring(lowered, "developer-tools"@) {
        Some("Development"@)
    } else if has_substring(lowered, "social-networking"@) {
        Some("Social"@)
    } else if has_substring(lowered, "graphics-design"@) || has_substring(lowered, "photography"@)
        || has_substring(lowered, "video"@) {
        Some("Design"@)
    } else if has_substring(lowered, "productivity"@) || has_substring(lowered, "business"@)
        || has_substring(lowered, "finance"@) || has_substring(lowered, "utilities"@) {
        Some("Productivity"@)
    } else {
        None
    }
}

/// The category guessed for a bundle from the category identifier as the
/// extractor printed it, if it printed one: the identifier is taken without
/// the white space around it and in lower case.
pub open spec fn guessed_category(category_id: Option<Seq<char>>) -> Option<Seq<char>> {
    match category_id {
        Some(id) => taxonomy_category(lowercase(trimmed_text(id))),
        None => None,
    }
}

/// The category of the fixed taxonomy that a category identifier in lower
/// case stands for.
pub fn category_for_identifier(lowered: &str) -> (out: Option<String>)
    ensures
        out.deep_view() == taxonomy_category(lowered@),
{
    let id = chars_of(lowered);
    if contains(&id, &chars_of("developer-tools")) {
        Some("Development".to_string())
    } else if contains(&id, &chars_of("social-networking")) {
        Some("Social".to_string())
    } else if contains(&id, &chars_of("graphics-design")) || contains(&id, &chars_of("photography"))
        || contains(&id, &chars_of("video")) {
        Some("Design".to_string())
    } else if contains(&id, &chars_of("productivity")) || contains(&id, &chars_of("business"))
        || contains(&id, &chars_of("finance")) || contains(&id, &chars_of("utilities")) {
        Some("Productivity".to_string())
    } else {
        None
    }
}

/// Guesses the category of a bundle from the category identifier as the
/// extractor printed it. Without an identifier, or with one that no rule
/// matches, there is no guess.
pub fn guess_category(category_id: Option<&str>) -> (out: Option<String>)
    ensures
        out.deep_view() == guessed_category(
            match category_id {
                Some(id) => Some(id@),
                None => None,
            },
        ),
{
    match category_id {
        Some(id) => {
            let trimmed = trim(id);
            let lowered = to_lowercase(trimmed.as_str());
            category_for_identifier(lowered.as_str())
        },
        None => None,
    }
}

/// What the extractor printed for the bundle at `path`: its category
/// identifier, or nothing where the bundle holds none or could not be read.
#[derive(Debug, PartialEq, Eq)]
pub struct CategoryProbe {
    pub path: String,
    pub category_id: Option<String>,
}

/// The model of a `CategoryProbe`.
pub struct CategoryProbeView {
    pub path: Seq<char>,
    pub category_id: Option<Seq<char>>,
}

impl DeepView for CategoryProbe {
    type V = CategoryProbeView;

    open spec fn deep_view(&self) -> CategoryProbeView {
        CategoryProbeView { path: self.path@, category_id: self.category_id.deep_view() }
    }
}

impl View for CategoryProbe {
    type V = CategoryProbeView;

    open spec fn view(&self) -> CategoryProbeView {
        self.deep_view()
    }
}

/// Whether `path` is one to categorize: it has a file stem, and the record
/// gives it no category yet.
pub open spec fn wants_category(path: Seq<char>, config: AppConfigView) -> bool {
    file_stem_of(path) is Some && !config.categories.contains_key(path)
}

/// The paths to categorize: the bundle paths that the search discovered,
/// each once, that have no category in the record yet. A search that could
/// not run gives none.
pub open spec fn uncategorized(search_output: Option<Seq<char>>, config: AppConfigView) -> Seq<
    Seq<char>,
> {
    match search_output {
        Some(text) => bundle_paths_of(lines_of(text)).filter(
            |path: Seq<char>| wants_category(path, config),
        ),
        None => Seq::empty(),
    }
}

/// The record after one probe: a path without a category gets the guessed
/// one, and that category joins the user categories.
pub open spec fn categorized_one(config: AppConfigView, probe: CategoryProbeView) -> AppConfigView {
    if config.categories.contains_key(probe.path) {
        config
    } else {
        match guessed_category(probe.category_id) {
            Some(guess) => crate::config::with_user_category(
                crate::config::with_app_category(config, probe.path, guess),
                guess,
            ),
            None => config,
        }
    }
}

/// The record after the probes, taken in their order.
pub open spec fn categorized_by(config: AppConfigView, probes: Seq<CategoryProbeView>) -> AppConfigView
    decreases probes.len(),
{
    if probes.len() == 0 {
        config
    } else {
        categorized_one(categorized_by(config, probes.drop_last()), probes.last())
    }
}

/// The probes that count: those of the paths in `candidates`.
pub open spec fn admitted(probes: Seq<CategoryProbeView>, candidates: Seq<Seq<char>>) -> Seq<
    CategoryProbeView,
> {
    probes.filter(|probe: CategoryProbeView| candidates.contains(probe.path))
}

/// The record after automatic categorization: each path that the search
/// discovered and that had no category gets the category guessed from its
/// probe, if there is a probe of it with a guess. Probes of other paths do
/// not count.
pub open spec fn auto_categorized(
    config: AppConfigView,
    search_output: Option<Seq<char>>,
    probes: Seq<CategoryProbeView>,
) -> AppConfigView {
    categorized_by(config, admitted(probes, uncategorized(search_output, config)))
}

/// The paths to categorize: the bundle paths that the search discovered
/// and that have no category in `config` yet. These are the paths to probe.
pub fn uncategorized_paths(config: &AppConfig, search_output: Option<&str>) -> (out: Vec<String>)
    ensures
        out.deep_view() == uncategorized(
            match search_output {
                Some(text) => Some(text@),
                None => None,
            },
            config@,
        ),
{
    let mut out: Vec<String> = Vec::new();
    assert(out.deep_view() =~= Seq::<Seq<char>>::empty());
    match search_output {
        None => {},
        Some(text) => {
            let all = bundle_paths(text);
            let ghost all_view = all.deep_view();
            let ghost wanted = |path: Seq<char>| wants_category(path, config@);
            let mut i: usize = 0;
            proof {
                reveal(Seq::filter);
                assert(all_view.take(0).filter(wanted) =~= Seq::<Seq<char>>::empty());
            }
            while i < all.len()
                invariant
                    i <= all@.len(),
                    all_view == all.deep_view(),
                    wanted == (|path: Seq<char>| wants_category(path, config@)),
                    out.deep_view() == all_view.take(i as int).filter(wanted),
                decreases all@.len() - i,
            {
                let ghost before = out.deep_view();
                proof {
                    reveal(Seq::filter);
                    assert(all_view.take(i + 1).drop_last() =~= all_view.take(i as int));
                    assert(all_view.take(i + 1).last() == all@[i as int]@);
                }
                let chars = chars_of(all[i].as_str());
                if stem_and_extension_spans(&chars).is_some() && !config.categories.contains_key(
                    &all[i],
                ) {
                    out.push(all[i].clone());
                    assert(out.deep_view() =~= before.push(all@[i as int]@));
                }
                i += 1;
            }
            assert(all_view.take(all@.len() as int) =~= all_view);
        },
    }
    out
}

/// Categorizes automatically: each path that the search discovered and that
/// has no category gets the category guessed from its probe, and that
/// category joins the user categories. Probes of other paths are passed
/// over. Returns whether the record changed, which is when the caller has to
/// write it back.
pub fn auto_categorize(
    config: &mut AppConfig,
    search_output: Option<&str>,
    probes: &Vec<CategoryProbe>,
) -> (modified: bool)
    ensures
        final(config)@ == auto_categorized(
            old(config)@,
            match search_output {
                Some(text) => Some(text@),
                None => None,
            },
            probes.deep_view(),
        ),
        modified == (final(config)@ != old(config)@),
{
    let candidates = uncategorized_paths(config, search_output);
    let ghost all = probes.deep_view();
    let ghost start = config@;
    let ghost counts = |probe: CategoryProbeView| candidates.deep_view().contains(probe.path);
    let ghost mut witness: Seq<char> = Seq::empty();
    let mut modified = false;
    let mut i: usize = 0;
    proof {
        reveal(Seq::filter);
        assert(all.take(0).filter(counts) =~= Seq::<CategoryProbeView>::empty());
    }
    while i < probes.len()
        invariant
            i <= probes@.len(),
            all == probes.deep_view(),
            start == old(config)@,
            counts == (|probe: CategoryProbeView| candidates.deep_view().contains(probe.path)),
            config@ == categorized_by(start, all.take(i as int).filter(counts)),
            forall|k: Seq<char>|
                start.categories.contains_key(k) ==> config@.categories.contains_key(k),
            modified ==> config@.categories.contains_key(witness) && !start.categories.contains_key(
                witness,
            ),
            !modified ==> config@ == start,
        decreases probes@.len() - i,
    {
        proof {
            reveal(Seq::filter);
            assert(all.take(i + 1).drop_last() =~= all.take(i as int));
            assert(all.take(i + 1).last() == probes@[i as int].deep_view());
            let counted = all.take(i as int).filter(counts);
            let next = all.take(i + 1).filter(counts);
            if counts(probes@[i as int].deep_view()) {
                assert(next.drop_last() =~= counted);
                assert(next.last() == probes@[i as int].deep_view());
            }
        }
        let probe = &probes[i];
        if contains_string(&candidates, &probe.path) && !config.categories.contains_key(
            &probe.path,
        ) {
            let guess = guess_category(
                match &probe.category_id {
                    Some(id) => Some(id.as_str()),
                    None => None,
                },
            );
            match guess {
                Some(name) => {
                    crate::config::update_app_category(config, probe.path.clone(), name.clone());
                    let _ = crate::config::add_category(config, name);
                    proof {
                        if !modified {
                            witness = probe.path@;
                        }
                    }
                    modified = true;
                },
                None => {},
            }
        }
        i += 1;
    }
    assert(all.take(probes@.len() as int) =~= all);
    modified
}

/// What came of the attempt to open an application.
#[derive(Debug, PartialEq, Eq)]
pub enum LaunchAttempt {
    /// The path does not exist.
    NotFound,
    /// The opener could not be started; the text says why.
    SpawnFailed(String),
    /// The opener ran and reported failure.
    ExitFailure,
    /// The application was opened.
    Started,
}

/// The message for an attempt that did not open the application.
pub open spec fn launch_error(attempt: LaunchAttempt) -> Seq<char> {
    match attempt {
        LaunchAttempt::NotFound => "App not found"@,
        LaunchAttempt::SpawnFailed(reason) => "Failed to execute open: "@ + reason@,
        LaunchAttempt::ExitFailure => "Failed to launch app"@,
        LaunchAttempt::Started => Seq::empty(),
    }
}

/// Books the attempt to open the application at `path`: a launch counts as
/// one more use of the path; any other outcome leaves the record as it is
/// and is reported as an error.
pub fn launch_app(config: &mut AppConfig, path: String, attempt: LaunchAttempt) -> (out: Result<
    (),
    String,
>)
    requires
        attempt is Started ==> old(config)@.usage_of(path@) < u32::MAX,
    ensures
        match out {
            Ok(_) => attempt is Started && final(config)@ == crate::config::with_usage_recorded(
                old(config)@,
                path@,
            ),
            Err(message) => !(attempt is Started) && final(config)@ == old(config)@ && message@
                == launch_error(attempt),
        },
{
    match attempt {
        LaunchAttempt::NotFound => Err("App not found".to_string()),
        LaunchAttempt::SpawnFailed(reason) => {
            let mut message = "Failed to execute open: ".to_string();
            message.append(reason.as_str());
            Err(message)
        },
        LaunchAttempt::ExitFailure => Err("Failed to launch app".to_string()),
        LaunchAttempt::Started => {
            crate::config::record_usage(config, path);
            Ok(())
        },
    }
}

/// The arguments of the search for bundles, for the catalog and for
/// categorizing alike: the three directories to search, the last of them
/// under the user's home directory, and the query for application bundles.
pub open spec fn search_arguments_of(home: Seq<char>) -> Seq<Seq<char>> {
    seq![
        "-onlyin"@,
        "/Applications"@,
        "-onlyin"@,
        "/System/Applications"@,
        "-onlyin"@,
        home + "/Applications"@,
        "kMDItemContentTypeTree == 'com.apple.application-bundle'"@,
    ]
}

/// The arguments of the search for bundles.
pub fn search_arguments(home: &str) -> (out: Vec<String>)
    ensures
        out.deep_view() == search_arguments_of(home@),
{
    let mut user = home.to_string();
    user.append("/Applications");
    let mut out: Vec<String> = Vec::new();
    out.push("-onlyin".to_string());
    out.push("/Applications".to_string());
    out.push("-onlyin".to_string());
    out.push("/System/Applications".to_string());
    out.push("-onlyin".to_string());
    out.push(user);
    out.push("kMDItemContentTypeTree == 'com.apple.application-bundle'".to_string());
    assert(out.deep_view() =~= search_arguments_of(home@));
    out
}

} // verus!
