//! What holds of the catalog and the record, whatever the inputs.
//!
//! Each proof function here states one law over the models that the
//! contracts of the executable functions speak of.

use vstd::prelude::*;
use crate::apps::{
    admitted,
    auto_categorized,
    categorized_by,
    uncategorized,
    wants_category,
    bundle_paths_of,
    discovered,
    discovered_entry,
    guessed_category,
    hard_refreshed,
    is_bundle_path,
    name_keys,
    overlaid,
    refreshed,
    searches,
    soft_refreshed,
    soft_refreshed_entry,
    sorted_by_keys,
    sorted_by_name,
    AppInfoView,
    CategoryProbeView,
    FileFacts,
};
use crate::config::{
    append_missing,
    builtin_order,
    migrated,
    with_app_category,
    with_usage_recorded,
    without_user_category,
    AppConfigView,
};
use crate::paths::{extension_of, file_stem_of};
use crate::sorting::{
    by_key,
    lemma_by_key_strict_total,
    lemma_sorted_positions_exist,
    positions_in_order,
    sorted_positions,
};
use crate::text::{lemma_lex_asymmetric, lemma_lex_irreflexive, lex_lt, lines_of, lowercase};

verus! {

/// Appending the missing names keeps `base` as the beginning of the result.
pub proof fn lemma_append_missing_keeps_base(base: Seq<Seq<char>>, extra: Seq<Seq<char>>)
    ensures
        base.len() <= append_missing(base, extra).len(),
        forall|i: int| 0 <= i < base.len() ==> append_missing(base, extra)[i] == base[i],
    decreases extra.len(),
{
    if extra.len() > 0 {
        lemma_append_missing_keeps_base(base, extra.drop_last());
    }
}

/// After appending the missing names, every name of `extra` is there.
pub proof fn lemma_append_missing_covers(base: Seq<Seq<char>>, extra: Seq<Seq<char>>)
    ensures
        forall|i: int| 0 <= i < extra.len() ==> append_missing(base, extra).contains(extra[i]),
    decreases extra.len(),
{
    if extra.len() > 0 {
        let rest = extra.drop_last();
        let before = append_missing(base, rest);
        let out = append_missing(base, extra);
        lemma_append_missing_covers(base, rest);
        assert forall|i: int| 0 <= i < extra.len() implies out.contains(extra[i]) by {
            if i < rest.len() {
                assert(before.contains(rest[i]));
                let k = choose|k: int| 0 <= k < before.len() && before[k] == rest[i];
                assert(out[k] == extra[i]);
            } else if before.contains(extra.last()) {
            } else {
                assert(out[before.len() as int] == extra[i]);
            }
        }
    }
}

/// Running the migration a second time changes nothing: the category order
/// after two runs is the one after the first.
pub proof fn law_migration_is_idempotent(config: AppConfigView)
    ensures
        migrated(migrated(config)) == migrated(config),
        migrated(migrated(config)).category_order == migrated(config).category_order,
{
    lemma_append_missing_keeps_base(builtin_order(), config.user_categories);
    assert(builtin_order().len() == 9);
}

/// After the migration of a record without a category order, the order
/// begins with the built-in categories and holds every user category.
pub proof fn law_migration_covers_user_categories(config: AppConfigView)
    requires
        config.category_order.len() == 0,
    ensures
        builtin_order().is_prefix_of(migrated(config).category_order),
        forall|i: int|
            0 <= i < config.user_categories.len() ==> migrated(config).category_order.contains(
                config.user_categories[i],
            ),
{
    lemma_append_missing_keeps_base(builtin_order(), config.user_categories);
    lemma_append_missing_covers(builtin_order(), config.user_categories);
}

/// What `filter_map` keeps, it keeps in order: two entries of the result
/// come from two entries of the source that stand in the same order.
pub proof fn lemma_filter_map_in_order<A, B>(s: Seq<A>, f: spec_fn(A) -> Option<B>)
    ensures
        ({
            let out = s.filter_map(f);
            &&& forall|i: int|
                0 <= i < out.len() ==> exists|k: int|
                    0 <= k < s.len() && f(#[trigger] s[k]) == Some(#[trigger] out[i])
            &&& forall|i: int, j: int|
                0 <= i < j < out.len() ==> exists|k: int, l: int|
                    0 <= k < l < s.len() && f(#[trigger] s[k]) == Some(#[trigger] out[i]) && f(
                        #[trigger] s[l],
                    ) == Some(#[trigger] out[j])
            &&& forall|k: int|
                0 <= k < s.len() && f(#[trigger] s[k]) is Some ==> out.contains(f(s[k]).unwrap())
        }),
    decreases s.len(),
{
    let out = s.filter_map(f);
    if s.len() > 0 {
        let rest = s.drop_last();
        let part = rest.filter_map(f);
        lemma_filter_map_in_order(rest, f);
        assert forall|i: int| 0 <= i < out.len() implies exists|k: int|
            0 <= k < s.len() && f(#[trigger] s[k]) == Some(#[trigger] out[i]) by {
            if i < part.len() {
                let k = choose|k: int| 0 <= k < rest.len() && f(#[trigger] rest[k]) == Some(part[i]);
                assert(s[k] == rest[k]);
            } else {
                assert(f(s[s.len() - 1]) == Some(out[i]));
            }
        }
        assert forall|i: int, j: int| 0 <= i < j < out.len() implies exists|k: int, l: int|
            0 <= k < l < s.len() && f(#[trigger] s[k]) == Some(#[trigger] out[i]) && f(
                #[trigger] s[l],
            ) == Some(#[trigger] out[j]) by {
            if j < part.len() {
                let (k, l) = choose|k: int, l: int|
                    0 <= k < l < rest.len() && f(#[trigger] rest[k]) == Some(part[i]) && f(
                        #[trigger] rest[l],
                    ) == Some(part[j]);
                assert(s[k] == rest[k] && s[l] == rest[l]);
            } else {
                let k = choose|k: int| 0 <= k < rest.len() && f(#[trigger] rest[k]) == Some(part[i]);
                assert(s[k] == rest[k]);
                assert(f(s[s.len() - 1]) == Some(out[j]));
            }
        }
        assert forall|k: int| 0 <= k < s.len() && f(#[trigger] s[k]) is Some implies out.contains(
            f(s[k]).unwrap(),
        ) by {
            if k < rest.len() {
                assert(rest[k] == s[k]);
                assert(part.contains(f(rest[k]).unwrap()));
                let i = choose|i: int| 0 <= i < part.len() && part[i] == f(rest[k]).unwrap();
                assert(out[i] == f(s[k]).unwrap());
            } else {
                assert(out[out.len() - 1] == f(s[k]).unwrap());
            }
        }
    }
}

/// `filter_map` returns no more than it was given.
pub proof fn lemma_filter_map_len<A, B>(s: Seq<A>, f: spec_fn(A) -> Option<B>)
    ensures
        s.filter_map(f).len() <= s.len(),
    decreases s.len(),
{
    if s.len() > 0 {
        lemma_filter_map_len(s.drop_last(), f);
    }
}

/// A soft refresh adds nothing: each entry that it returns has the path of an
/// entry that was in the cache, and is that entry with its category and usage
/// count read again.
pub proof fn law_soft_refresh_adds_nothing(
    cache: Seq<AppInfoView>,
    files: FileFacts,
    config: AppConfigView,
)
    ensures
        ({
            let out = soft_refreshed(cache, files, config);
            &&& out.len() <= cache.len()
            &&& forall|i: int|
                0 <= i < out.len() ==> exists|k: int|
                    0 <= k < cache.len() && #[trigger] out[i] == overlaid(
                        #[trigger] cache[k],
                        config,
                    ) && out[i].path == cache[k].path
        }),
{
    let keep = |e: AppInfoView| soft_refreshed_entry(e, files, config);
    let out = soft_refreshed(cache, files, config);
    lemma_filter_map_in_order(cache, keep);
    lemma_filter_map_len(cache, keep);
    assert forall|i: int| 0 <= i < out.len() implies exists|k: int|
        0 <= k < cache.len() && #[trigger] out[i] == overlaid(#[trigger] cache[k], config)
            && out[i].path == cache[k].path by {
        let k = choose|k: int| 0 <= k < cache.len() && keep(#[trigger] cache[k]) == Some(out[i]);
        assert(out[i] == overlaid(cache[k], config));
    }
}

/// A fetch of the catalog that does not search returns no entry whose path
/// was not in the cache before. It does not search when the cache holds
/// entries and no refresh is asked for.
pub proof fn law_fetch_without_search_adds_nothing(
    cache: Seq<AppInfoView>,
    refresh: Option<bool>,
    search_output: Option<Seq<char>>,
    files: FileFacts,
    config: AppConfigView,
)
    requires
        cache.len() > 0,
        refresh != Some(true),
    ensures
        ({
            let out = refreshed(cache, refresh, search_output, files, config);
            forall|i: int|
                0 <= i < out.len() ==> exists|k: int|
                    0 <= k < cache.len() && (#[trigger] out[i]).path == (#[trigger] cache[k]).path
        }),
{
    law_soft_refresh_adds_nothing(cache, files, config);
    let out = soft_refreshed(cache, files, config);
    assert(refreshed(cache, refresh, search_output, files, config) == out);
    assert forall|i: int| 0 <= i < out.len() implies exists|k: int|
        0 <= k < cache.len() && (#[trigger] out[i]).path == (#[trigger] cache[k]).path by {
        let k = choose|k: int|
            0 <= k < cache.len() && #[trigger] out[i] == overlaid(#[trigger] cache[k], config)
                && out[i].path == cache[k].path;
        assert(out[i].path == cache[k].path);
    }
}

/// A soft refresh prunes exactly the entries whose path is gone: every entry
/// that it returns has a path that exists, every cached entry whose path
/// exists is returned, and the entries keep their order.
pub proof fn law_soft_refresh_prunes(
    cache: Seq<AppInfoView>,
    files: FileFacts,
    config: AppConfigView,
)
    ensures
        ({
            let out = soft_refreshed(cache, files, config);
            &&& forall|i: int| 0 <= i < out.len() ==> files.contains_key((#[trigger] out[i]).path)
            &&& forall|k: int|
                0 <= k < cache.len() && files.contains_key((#[trigger] cache[k]).path)
                    ==> out.contains(overlaid(cache[k], config))
            &&& forall|i: int, j: int|
                0 <= i < j < out.len() ==> exists|k: int, l: int|
                    0 <= k < l < cache.len() && (#[trigger] cache[k]).path == (
                    #[trigger] out[i]).path && (#[trigger] cache[l]).path == (
                    #[trigger] out[j]).path
        }),
{
    let keep = |e: AppInfoView| soft_refreshed_entry(e, files, config);
    let out = soft_refreshed(cache, files, config);
    lemma_filter_map_in_order(cache, keep);
    assert forall|i: int| 0 <= i < out.len() implies files.contains_key(
        (#[trigger] out[i]).path,
    ) by {
        let k = choose|k: int| 0 <= k < cache.len() && keep(#[trigger] cache[k]) == Some(out[i]);
        assert(out[i] == overlaid(cache[k], config));
    }
    assert forall|k: int|
        0 <= k < cache.len() && files.contains_key((#[trigger] cache[k]).path) implies out.contains(
        overlaid(cache[k], config),
    ) by {
        assert(keep(cache[k]) is Some);
        assert(out.contains(keep(cache[k]).unwrap()));
    }
    assert forall|i: int, j: int| 0 <= i < j < out.len() implies exists|k: int, l: int|
        0 <= k < l < cache.len() && (#[trigger] cache[k]).path == (#[trigger] out[i]).path && (
        #[trigger] cache[l]).path == (#[trigger] out[j]).path by {
        let (k, l) = choose|k: int, l: int|
            0 <= k < l < cache.len() && keep(#[trigger] cache[k]) == Some(out[i]) && keep(
                #[trigger] cache[l],
            ) == Some(out[j]);
        assert(cache[k].path == out[i].path && cache[l].path == out[j].path);
    }
}

/// The bundle paths of a search output: no path occurs twice, each is a
/// bundle path of the output and so lies inside no other bundle, and no
/// bundle path of the output is left out.
pub proof fn law_bundle_paths_are_distinct(lines: Seq<Seq<char>>)
    ensures
        ({
            let out = bundle_paths_of(lines);
            &&& forall|i: int, j: int| 0 <= i < j < out.len() ==> out[i] != out[j]
            &&& forall|i: int|
                0 <= i < out.len() ==> is_bundle_path(#[trigger] out[i]) && lines.contains(out[i])
            &&& forall|k: int|
                0 <= k < lines.len() && is_bundle_path(#[trigger] lines[k]) ==> out.contains(
                    lines[k],
                )
        }),
    decreases lines.len(),
{
    let out = bundle_paths_of(lines);
    if lines.len() > 0 {
        let rest = lines.drop_last();
        let before = bundle_paths_of(rest);
        law_bundle_paths_are_distinct(rest);
        assert forall|i: int| 0 <= i < out.len() implies is_bundle_path(#[trigger] out[i])
            && lines.contains(out[i]) by {
            if i < before.len() {
                assert(rest.contains(before[i]));
                let k = choose|k: int| 0 <= k < rest.len() && rest[k] == before[i];
                assert(lines[k] == out[i]);
            } else {
                assert(lines[lines.len() - 1] == out[i]);
            }
        }
        assert forall|k: int|
            0 <= k < lines.len() && is_bundle_path(#[trigger] lines[k]) implies out.contains(
            lines[k],
        ) by {
            if k < rest.len() {
                assert(rest[k] == lines[k]);
                assert(before.contains(rest[k]));
                let i = choose|i: int| 0 <= i < before.len() && before[i] == rest[k];
                assert(out[i] == lines[k]);
            } else if before.contains(lines.last()) {
                let i = choose|i: int| 0 <= i < before.len() && before[i] == lines.last();
                assert(out[i] == lines[k]);
            } else {
                assert(out[out.len() - 1] == lines[k]);
            }
        }
    }
}

/// A path with an extension has a file stem.
pub proof fn lemma_extension_implies_stem(path: Seq<char>)
    requires
        extension_of(path) is Some,
    ensures
        file_stem_of(path) is Some,
{
}

/// The entries that a search discovers: one for each bundle path of the
/// output, in that order, so that no two of them have the same path.
pub proof fn law_discovered_paths_are_distinct(
    text: Seq<char>,
    files: FileFacts,
    config: AppConfigView,
)
    ensures
        ({
            let paths = bundle_paths_of(lines_of(text));
            let out = discovered(Some(text), files, config);
            &&& out.len() == paths.len()
            &&& forall|i: int|
                0 <= i < out.len() ==> Some(#[trigger] out[i]) == discovered_entry(
                    paths[i],
                    files,
                    config,
                ) && out[i].path == paths[i]
            &&& forall|i: int, j: int| 0 <= i < j < out.len() ==> out[i].path != out[j].path
        }),
{
    let paths = bundle_paths_of(lines_of(text));
    law_bundle_paths_are_distinct(lines_of(text));
    lemma_discovered_all(paths, files, config, paths.len() as int);
    assert(paths.take(paths.len() as int) =~= paths);
}

/// Of the first `upto` of paths that all have an extension, each is
/// discovered.
proof fn lemma_discovered_all(
    paths: Seq<Seq<char>>,
    files: FileFacts,
    config: AppConfigView,
    upto: int,
)
    requires
        0 <= upto <= paths.len(),
        forall|i: int| 0 <= i < paths.len() ==> is_bundle_path(#[trigger] paths[i]),
    ensures
        ({
            let out = paths.take(upto).filter_map(
                |path: Seq<char>| discovered_entry(path, files, config),
            );
            &&& out.len() == upto
            &&& forall|i: int|
                0 <= i < upto ==> Some(#[trigger] out[i]) == discovered_entry(
                    paths[i],
                    files,
                    config,
                ) && out[i].path == paths[i]
        }),
    decreases upto,
{
    if upto > 0 {
        lemma_discovered_all(paths, files, config, upto - 1);
        assert(paths.take(upto).drop_last() =~= paths.take(upto - 1));
        assert(paths.take(upto).last() == paths[upto - 1]);
        assert(is_bundle_path(paths[upto - 1]));
        lemma_extension_implies_stem(paths[upto - 1]);
    }
}

/// What sorting by keys does: it lists every position once, and puts the
/// entry of each listed position in its place.
pub proof fn lemma_sorted_by_keys(entries: Seq<AppInfoView>, keys: Seq<Seq<char>>)
    requires
        keys.len() == entries.len(),
    ensures
        ({
            let perm = positions_in_order(by_key(keys), entries.len() as int);
            let out = sorted_by_keys(entries, keys);
            &&& sorted_positions(perm, by_key(keys), entries.len() as int)
            &&& out.len() == entries.len()
            &&& forall|i: int| 0 <= i < out.len() ==> #[trigger] out[i] == entries[perm[i]]
            &&& forall|i: int| 0 <= i < out.len() ==> entries.contains(#[trigger] out[i])
            &&& forall|k: int| 0 <= k < entries.len() ==> out.contains(#[trigger] entries[k])
        }),
{
    let n = entries.len() as int;
    let perm = positions_in_order(by_key(keys), n);
    let out = sorted_by_keys(entries, keys);
    lemma_by_key_strict_total(keys, n);
    lemma_sorted_positions_exist(by_key(keys), n);
    assert forall|i: int| 0 <= i < out.len() implies entries.contains(#[trigger] out[i]) by {
        assert(0 <= perm[i] < n);
        assert(entries[perm[i]] == out[i]);
    }
    assert forall|k: int| 0 <= k < entries.len() implies out.contains(#[trigger] entries[k]) by {
        assert(perm.contains(k));
        let i = choose|i: int| 0 <= i < perm.len() && perm[i] == k;
        assert(out[i] == entries[k]);
    }
}

/// Sorting by name rearranges the entries and loses none: the result lists
/// them by their names in lower case, smaller names first, and entries
/// with the same such name in the order in which they stood.
pub proof fn law_sort_by_name_is_stable(entries: Seq<AppInfoView>)
    ensures
        ({
            let perm = positions_in_order(by_key(name_keys(entries)), entries.len() as int);
            let out = sorted_by_name(entries);
            &&& out.len() == entries.len()
            &&& perm.len() == entries.len()
            &&& forall|k: int| 0 <= k < entries.len() ==> #[trigger] perm.contains(k)
            &&& forall|i: int|
                0 <= i < out.len() ==> 0 <= perm[i] < entries.len() && #[trigger] out[i]
                    == entries[perm[i]]
            &&& forall|i: int, j: int|
                0 <= i < j < out.len() ==> !lex_lt(
                    lowercase((#[trigger] out[j]).name),
                    lowercase((#[trigger] out[i]).name),
                )
            &&& forall|i: int, j: int|
                0 <= i < j < out.len() && lowercase((#[trigger] out[i]).name) == lowercase(
                    (#[trigger] out[j]).name,
                ) ==> perm[i] < perm[j]
        }),
{
    let n = entries.len() as int;
    let keys = name_keys(entries);
    let perm = positions_in_order(by_key(keys), n);
    let out = sorted_by_name(entries);
    lemma_sorted_by_keys(entries, keys);
    assert forall|i: int, j: int| 0 <= i < j < out.len() implies !lex_lt(
        lowercase((#[trigger] out[j]).name),
        lowercase((#[trigger] out[i]).name),
    ) && (lowercase(out[i].name) == lowercase(out[j].name) ==> perm[i] < perm[j]) by {
        let a = perm[i];
        let b = perm[j];
        assert(0 <= a < n && 0 <= b < n);
        assert(by_key(keys)(a, b));
        assert(keys[a] == lowercase(out[i].name));
        assert(keys[b] == lowercase(out[j].name));
        if lex_lt(keys[a], keys[b]) {
            lemma_lex_asymmetric(keys[a], keys[b]);
            lemma_lex_irreflexive(keys[a]);
        } else {
            lemma_lex_irreflexive(keys[a]);
        }
    }
}

/// After a hard refresh no two entries of the catalog have the same path.
pub proof fn law_hard_refresh_paths_are_distinct(
    search_output: Option<Seq<char>>,
    files: FileFacts,
    config: AppConfigView,
)
    ensures
        ({
            let out = hard_refreshed(search_output, files, config);
            forall|i: int, j: int| 0 <= i < j < out.len() ==> out[i].path != out[j].path
        }),
{
    let found = discovered(search_output, files, config);
    let out = hard_refreshed(search_output, files, config);
    let keys = name_keys(found);
    let perm = positions_in_order(by_key(keys), found.len() as int);
    lemma_sorted_by_keys(found, keys);
    match search_output {
        Some(text) => {
            law_discovered_paths_are_distinct(text, files, config);
        },
        None => {},
    }
    assert forall|i: int, j: int| 0 <= i < j < out.len() implies out[i].path != out[j].path by {
        let a = perm[i];
        let b = perm[j];
        assert(0 <= a < found.len() && 0 <= b < found.len());
        assert(by_key(keys)(a, b));
        lemma_lex_irreflexive(keys[a]);
        assert(a != b);
        assert(out[i] == found[a] && out[j] == found[b]);
        if a < b {
            assert(found[a].path != found[b].path);
        } else {
            assert(found[b].path != found[a].path);
        }
    }
}

/// A soft refresh of a cache in which no two entries have the same path
/// gives such a cache again.
pub proof fn law_soft_refresh_keeps_paths_distinct(
    cache: Seq<AppInfoView>,
    files: FileFacts,
    config: AppConfigView,
)
    requires
        forall|k: int, l: int| 0 <= k < l < cache.len() ==> cache[k].path != cache[l].path,
    ensures
        ({
            let out = soft_refreshed(cache, files, config);
            forall|i: int, j: int| 0 <= i < j < out.len() ==> out[i].path != out[j].path
        }),
{
    let out = soft_refreshed(cache, files, config);
    law_soft_refresh_prunes(cache, files, config);
    assert forall|i: int, j: int| 0 <= i < j < out.len() implies out[i].path != out[j].path by {
        let (k, l) = choose|k: int, l: int|
            0 <= k < l < cache.len() && (#[trigger] cache[k]).path == (#[trigger] out[i]).path && (
            #[trigger] cache[l]).path == (#[trigger] out[j]).path;
        assert(cache[k].path != cache[l].path);
    }
}

/// Once a path has been given a category, a hard refresh that still
/// discovers the path returns its entry with that category.
pub proof fn law_category_survives_hard_refresh(
    text: Seq<char>,
    files: FileFacts,
    config: AppConfigView,
    path: Seq<char>,
    category: Seq<char>,
)
    requires
        bundle_paths_of(lines_of(text)).contains(path),
    ensures
        ({
            let out = hard_refreshed(Some(text), files, with_app_category(config, path, category));
            &&& exists|i: int|
                0 <= i < out.len() && (#[trigger] out[i]).path == path && out[i].category == Some(
                    category,
                )
            &&& forall|i: int|
                0 <= i < out.len() && (#[trigger] out[i]).path == path ==> out[i].category
                    == Some(category)
        }),
{
    let changed = with_app_category(config, path, category);
    let paths = bundle_paths_of(lines_of(text));
    let found = discovered(Some(text), files, changed);
    let out = hard_refreshed(Some(text), files, changed);
    law_discovered_paths_are_distinct(text, files, changed);
    lemma_sorted_by_keys(found, name_keys(found));
    let k = choose|k: int| 0 <= k < paths.len() && paths[k] == path;
    assert(found[k].path == path);
    assert(Some(found[k]) == discovered_entry(paths[k], files, changed));
    assert(found[k].category == Some(category));
    assert(out.contains(found[k]));
    let i = choose|i: int| 0 <= i < out.len() && out[i] == found[k];
    assert(out[i].path == path && out[i].category == Some(category));
    assert forall|i: int| 0 <= i < out.len() && (#[trigger] out[i]).path == path implies out[i].category
        == Some(category) by {
        assert(found.contains(out[i]));
        let m = choose|m: int| 0 <= m < found.len() && found[m] == out[i];
        assert(Some(found[m]) == discovered_entry(paths[m], files, changed));
    }
}

/// The record after `times` launches of `path`.
pub open spec fn with_usage_recorded_times(config: AppConfigView, path: Seq<char>, times: nat) -> AppConfigView
    decreases times,
{
    if times == 0 {
        config
    } else {
        with_usage_recorded(with_usage_recorded_times(config, path, (times - 1) as nat), path)
    }
}

/// Launches add up: after `times` launches of a path its usage count is
/// `times` higher, no other count has changed, and the entry of the path
/// shows the new count after the next refresh, soft or hard.
pub proof fn law_usage_accumulates(
    config: AppConfigView,
    path: Seq<char>,
    times: nat,
    entry: AppInfoView,
    files: FileFacts,
)
    requires
        config.usage_of(path) + times <= u32::MAX,
    ensures
        ({
            let after = with_usage_recorded_times(config, path, times);
            &&& after.usage_of(path) == config.usage_of(path) + times
            &&& forall|other: Seq<char>| other != path ==> after.usage_of(other) == config.usage_of(other)
            &&& after.categories == config.categories
            &&& entry.path == path ==> overlaid(entry, after).usage_count == config.usage_of(path)
                + times
            &&& discovered_entry(path, files, after) matches Some(found) ==> found.usage_count
                == config.usage_of(path) + times
        }),
    decreases times,
{
    if times > 0 {
        law_usage_accumulates(config, path, (times - 1) as nat, entry, files);
    }
}

/// Removing a category clears it everywhere: it is no user category any
/// more, no path has it, and no entry that a fetch of the catalog returns
/// afterwards shows it.
pub proof fn law_removed_category_is_gone(
    config: AppConfigView,
    name: Seq<char>,
    cache: Seq<AppInfoView>,
    refresh: Option<bool>,
    search_output: Option<Seq<char>>,
    files: FileFacts,
)
    ensures
        ({
            let after = without_user_category(config, name);
            let out = refreshed(cache, refresh, search_output, files, after);
            &&& !after.user_categories.contains(name)
            &&& forall|path: Seq<char>| after.category_of(path) != Some(name)
            &&& forall|i: int| 0 <= i < out.len() ==> (#[trigger] out[i]).category != Some(name)
        }),
{
    let after = without_user_category(config, name);
    let out = refreshed(cache, refresh, search_output, files, after);
    let others = |x: Seq<char>| x != name;
    if after.user_categories.contains(name) {
        let i = choose|i: int|
            0 <= i < after.user_categories.len() && after.user_categories[i] == name;
        config.user_categories.lemma_filter_pred(others, i);
    }
    if searches(cache, refresh) {
        let found = discovered(search_output, files, after);
        lemma_sorted_by_keys(found, name_keys(found));
        assert forall|i: int| 0 <= i < out.len() implies (#[trigger] out[i]).category != Some(
            name,
        ) by {
            assert(found.contains(out[i]));
            let m = choose|m: int| 0 <= m < found.len() && found[m] == out[i];
            match search_output {
                Some(text) => {
                    law_discovered_paths_are_distinct(text, files, after);
                    assert(Some(found[m]) == discovered_entry(
                        bundle_paths_of(lines_of(text))[m],
                        files,
                        after,
                    ));
                },
                None => {},
            }
        }
    } else {
        law_soft_refresh_adds_nothing(cache, files, after);
        assert forall|i: int| 0 <= i < out.len() implies (#[trigger] out[i]).category != Some(
            name,
        ) by {
            let k = choose|k: int|
                0 <= k < cache.len() && #[trigger] out[i] == overlaid(#[trigger] cache[k], after)
                    && out[i].path == cache[k].path;
            assert(out[i].category == after.category_of(cache[k].path));
        }
    }
}

/// Probes only ever add paths to the record's categories.
pub proof fn lemma_categorized_by_keeps_paths(config: AppConfigView, probes: Seq<CategoryProbeView>)
    ensures
        forall|path: Seq<char>|
            config.categories.contains_key(path) ==> #[trigger] categorized_by(
                config,
                probes,
            ).categories.contains_key(path) && categorized_by(config, probes).categories[path]
                == config.categories[path],
    decreases probes.len(),
{
    if probes.len() > 0 {
        lemma_categorized_by_keeps_paths(config, probes.drop_last());
    }
}

/// A path that has a category after the probes had one before, or is the
/// path of one of the probes.
pub proof fn lemma_categorized_by_adds_probed_paths(
    config: AppConfigView,
    probes: Seq<CategoryProbeView>,
    path: Seq<char>,
)
    requires
        categorized_by(config, probes).categories.contains_key(path),
        !config.categories.contains_key(path),
    ensures
        exists|k: int| 0 <= k < probes.len() && (#[trigger] probes[k]).path == path,
    decreases probes.len(),
{
    if probes.len() > 0 {
        let rest = probes.drop_last();
        if categorized_by(config, rest).categories.contains_key(path) {
            lemma_categorized_by_adds_probed_paths(config, rest, path);
            let k = choose|k: int| 0 <= k < rest.len() && (#[trigger] rest[k]).path == path;
            assert(probes[k].path == path);
        } else {
            assert(probes[probes.len() - 1].path == path);
        }
    }
}

/// After the probes, each probed path has a category unless there was no
/// guess for it.
pub proof fn lemma_categorized_by_settles(config: AppConfigView, probes: Seq<CategoryProbeView>)
    ensures
        forall|k: int|
            0 <= k < probes.len() ==> categorized_by(config, probes).categories.contains_key(
                (#[trigger] probes[k]).path,
            ) || guessed_category(probes[k].category_id) is None,
    decreases probes.len(),
{
    if probes.len() > 0 {
        let rest = probes.drop_last();
        let before = categorized_by(config, rest);
        let after = categorized_by(config, probes);
        lemma_categorized_by_settles(config, rest);
        assert forall|k: int| 0 <= k < probes.len() implies after.categories.contains_key(
            (#[trigger] probes[k]).path,
        ) || guessed_category(probes[k].category_id) is None by {
            if k < rest.len() {
                assert(rest[k] == probes[k]);
                if before.categories.contains_key(probes[k].path) {
                    assert(after.categories.contains_key(probes[k].path));
                }
            }
        }
    }
}

/// Probes of paths that all have a category, or no guess, change nothing.
pub proof fn lemma_categorized_by_settled(config: AppConfigView, probes: Seq<CategoryProbeView>)
    requires
        forall|k: int|
            0 <= k < probes.len() ==> config.categories.contains_key((#[trigger] probes[k]).path)
                || guessed_category(probes[k].category_id) is None,
    ensures
        categorized_by(config, probes) == config,
    decreases probes.len(),
{
    if probes.len() > 0 {
        let rest = probes.drop_last();
        assert forall|k: int| 0 <= k < rest.len() implies config.categories.contains_key(
            (#[trigger] rest[k]).path,
        ) || guessed_category(rest[k].category_id) is None by {
            assert(rest[k] == probes[k]);
        }
        lemma_categorized_by_settled(config, rest);
        assert(probes.last() == probes[probes.len() - 1]);
    }
}

/// The paths to categorize are bundle paths that the search discovered and
/// that have no category: each is a line of the output with the extension
/// `app`, outside any other bundle.
pub proof fn law_uncategorized_paths_are_discovered(text: Seq<char>, config: AppConfigView)
    ensures
        ({
            let out = uncategorized(Some(text), config);
            forall|i: int|
                0 <= i < out.len() ==> {
                    &&& bundle_paths_of(lines_of(text)).contains(#[trigger] out[i])
                    &&& lines_of(text).contains(out[i])
                    &&& is_bundle_path(out[i])
                    &&& !config.categories.contains_key(out[i])
                }
        }),
{
    let found = bundle_paths_of(lines_of(text));
    let wanted = |path: Seq<char>| wants_category(path, config);
    let out = uncategorized(Some(text), config);
    law_bundle_paths_are_distinct(lines_of(text));
    assert forall|i: int| 0 <= i < out.len() implies {
        &&& found.contains(#[trigger] out[i])
        &&& lines_of(text).contains(out[i])
        &&& is_bundle_path(out[i])
        &&& !config.categories.contains_key(out[i])
    } by {
        found.lemma_filter_pred(wanted, i);
        assert(out.contains(out[i]));
        found.lemma_filter_contains_rev(wanted, out[i]);
        let k = choose|k: int| 0 <= k < found.len() && found[k] == out[i];
        assert(is_bundle_path(found[k]));
    }
}

/// Automatic categorization keeps to what the search discovered: a path
/// that has a category afterwards had it before, or is a bundle path of the
/// search output, outside any other bundle and with the extension `app`.
/// Without a search output nothing changes.
pub proof fn law_auto_categorize_keeps_to_discovered_paths(
    config: AppConfigView,
    search_output: Option<Seq<char>>,
    probes: Seq<CategoryProbeView>,
    path: Seq<char>,
)
    requires
        auto_categorized(config, search_output, probes).categories.contains_key(path),
        !config.categories.contains_key(path),
    ensures
        search_output matches Some(text) && lines_of(text).contains(path) && is_bundle_path(path)
            && bundle_paths_of(lines_of(text)).contains(path),
{
    let candidates = uncategorized(search_output, config);
    let counts = |probe: CategoryProbeView| candidates.contains(probe.path);
    let counted = admitted(probes, candidates);
    lemma_categorized_by_adds_probed_paths(config, counted, path);
    let k = choose|k: int| 0 <= k < counted.len() && (#[trigger] counted[k]).path == path;
    probes.lemma_filter_pred(counts, k);
    assert(candidates.contains(path));
    match search_output {
        Some(text) => {
            law_uncategorized_paths_are_discovered(text, config);
            let i = choose|i: int| 0 <= i < candidates.len() && candidates[i] == path;
            assert(is_bundle_path(candidates[i]));
        },
        None => {},
    }
}

/// Categorizing a second time with the same search output and the same
/// probes changes nothing, so that the second run has nothing to write.
pub proof fn law_auto_categorize_is_idempotent(
    config: AppConfigView,
    search_output: Option<Seq<char>>,
    probes: Seq<CategoryProbeView>,
)
    ensures
        auto_categorized(auto_categorized(config, search_output, probes), search_output, probes)
            == auto_categorized(config, search_output, probes),
{
    let first = uncategorized(search_output, config);
    let counted = admitted(probes, first);
    let after = auto_categorized(config, search_output, probes);
    let second = uncategorized(search_output, after);
    let recounted = admitted(probes, second);
    let in_first = |probe: CategoryProbeView| first.contains(probe.path);
    let in_second = |probe: CategoryProbeView| second.contains(probe.path);
    lemma_categorized_by_keeps_paths(config, counted);
    lemma_categorized_by_settles(config, counted);
    assert forall|k: int| 0 <= k < recounted.len() implies after.categories.contains_key(
        (#[trigger] recounted[k]).path,
    ) || guessed_category(recounted[k].category_id) is None by {
        let probe = recounted[k];
        probes.lemma_filter_pred(in_second, k);
        assert(recounted.contains(probe));
        probes.lemma_filter_contains_rev(in_second, probe);
        let at = choose|at: int| 0 <= at < probes.len() && probes[at] == probe;
        match search_output {
            Some(text) => {
                let found = bundle_paths_of(lines_of(text));
                let wanted_first = |path: Seq<char>| wants_category(path, config);
                let wanted_second = |path: Seq<char>| wants_category(path, after);
                let i = choose|i: int| 0 <= i < second.len() && second[i] == probe.path;
                found.lemma_filter_pred(wanted_second, i);
                assert(second.contains(second[i]));
                found.lemma_filter_contains_rev(wanted_second, probe.path);
                let j = choose|j: int| 0 <= j < found.len() && found[j] == probe.path;
                assert(wanted_first(found[j]));
                found.lemma_filter_contains(wanted_first, j);
                assert(first.contains(probe.path));
                probes.lemma_filter_contains(in_first, at);
                let m = choose|m: int| 0 <= m < counted.len() && counted[m] == probe;
                assert(after.categories.contains_key(counted[m].path) || guessed_category(
                    counted[m].category_id,
                ) is None);
            },
            None => {},
        }
    }
    lemma_categorized_by_settled(after, recounted);
}

/// Categorizing never takes a category from a path that has one, and never
/// changes it.
pub proof fn law_auto_categorize_is_not_destructive(
    config: AppConfigView,
    search_output: Option<Seq<char>>,
    probes: Seq<CategoryProbeView>,
    path: Seq<char>,
)
    requires
        config.categories.contains_key(path),
    ensures
        auto_categorized(config, search_output, probes).category_of(path) == config.category_of(
            path,
        ),
{
    lemma_categorized_by_keeps_paths(
        config,
        admitted(probes, uncategorized(search_output, config)),
    );
}

} // verus!

