use mac_app_control::apps::{
    auto_categorize, bundle_paths, category_for_identifier, discover, get_installed_apps,
    guess_category, hard_refresh, is_system_app, launch_app, needs_search, soft_refresh,
    sort_by_keys, sort_by_name, uncategorized_paths, AppInfo, CategoryProbe, LaunchAttempt,
};
use mac_app_control::config::{
    add_category, record_usage, remove_category, update_app_category, usage_count, AppConfig,
};
use mac_app_control::path_map::PathMap;

fn entry(name: &str, path: &str) -> AppInfo {
    AppInfo {
        name: name.to_string(),
        path: path.to_string(),
        is_system: false,
        category: None,
        usage_count: 0,
        icon_data: None,
        date_modified: 0,
    }
}

fn files_of(paths: &[(&str, Option<u64>)]) -> PathMap<Option<u64>> {
    let mut files = PathMap::new();
    for (path, modified) in paths {
        files.insert(path.to_string(), *modified);
    }
    files
}

fn names(entries: &[AppInfo]) -> Vec<String> {
    entries.iter().map(|e| e.name.clone()).collect()
}

fn paths(entries: &[AppInfo]) -> Vec<String> {
    entries.iter().map(|e| e.path.clone()).collect()
}

#[test]
fn prunes_nonexistent_cached_apps() {
    let existing = "/tmp/macappcontrol_test_existing.app";
    let missing = "/tmp/macappcontrol_test_missing.app";
    let mut cache = vec![entry("Existing", existing), entry("Missing", missing)];
    let files = files_of(&[(existing, None)]);
    let config = AppConfig::default();

    let result = get_installed_apps(&mut cache, Some(false), &config, None, &files);
    assert_eq!(result.len(), 1);
    assert_eq!(result[0].name, "Existing");
    assert_eq!(cache, result);
}

#[test]
fn soft_refresh_returns_only_paths_that_were_cached() {
    let mut cache = vec![
        entry("Alpha", "/Applications/Alpha.app"),
        entry("Beta", "/Applications/Beta.app"),
        entry("Gamma", "/Applications/Gamma.app"),
    ];
    let before = paths(&cache);
    let files = files_of(&[
        ("/Applications/Gamma.app", Some(7)),
        ("/Applications/Alpha.app", None),
        ("/Applications/Delta.app", Some(9)),
    ]);
    let config = AppConfig::default();
    let output = "/Applications/Delta.app\n";

    let result = get_installed_apps(&mut cache, None, &config, Some(output), &files);
    assert_eq!(paths(&result), vec!["/Applications/Alpha.app", "/Applications/Gamma.app"]);
    for found in &result {
        assert!(before.contains(&found.path));
    }
}

#[test]
fn soft_refresh_reads_the_record_again() {
    let cache = vec![AppInfo {
        name: "Alpha".to_string(),
        path: "/Applications/Alpha.app".to_string(),
        is_system: true,
        category: Some("Old".to_string()),
        usage_count: 41,
        icon_data: Some("icon".to_string()),
        date_modified: 1234,
    }];
    let files = files_of(&[("/Applications/Alpha.app", Some(99))]);
    let mut config = AppConfig::default();
    update_app_category(&mut config, "/Applications/Alpha.app".to_string(), "Design".to_string());
    record_usage(&mut config, "/Applications/Alpha.app".to_string());

    let result = soft_refresh(&cache, &files, &config);
    assert_eq!(
        result,
        vec![AppInfo {
            name: "Alpha".to_string(),
            path: "/Applications/Alpha.app".to_string(),
            is_system: true,
            category: Some("Design".to_string()),
            usage_count: 1,
            icon_data: Some("icon".to_string()),
            date_modified: 1234,
        }]
    );
}

#[test]
fn empty_cache_or_forced_refresh_searches() {
    let empty: Vec<AppInfo> = Vec::new();
    let full = vec![entry("Alpha", "/Applications/Alpha.app")];
    assert!(needs_search(&empty, None));
    assert!(needs_search(&empty, Some(false)));
    assert!(needs_search(&full, Some(true)));
    assert!(!needs_search(&full, Some(false)));
    assert!(!needs_search(&full, None));
}

#[test]
fn empty_cache_is_refreshed_from_the_search() {
    let mut cache: Vec<AppInfo> = Vec::new();
    let files = files_of(&[("/Applications/Safari.app", Some(1700000000))]);
    let config = AppConfig::default();
    let result =
        get_installed_apps(&mut cache, Some(false), &config, Some("/Applications/Safari.app\n"), &files);
    assert_eq!(
        result,
        vec![AppInfo {
            name: "Safari".to_string(),
            path: "/Applications/Safari.app".to_string(),
            is_system: false,
            category: None,
            usage_count: 0,
            icon_data: None,
            date_modified: 1700000000,
        }]
    );
    assert_eq!(cache, result);
}

#[test]
fn failed_search_finds_nothing() {
    let mut cache = vec![entry("Alpha", "/Applications/Alpha.app")];
    let files = files_of(&[("/Applications/Alpha.app", None)]);
    let config = AppConfig::default();
    let result = get_installed_apps(&mut cache, Some(true), &config, None, &files);
    assert!(result.is_empty());
    assert!(cache.is_empty());
}

#[test]
fn category_set_before_hard_refresh_shows_in_the_entry() {
    let path = "/Applications/Sketch.app";
    let mut config = AppConfig::default();
    update_app_category(&mut config, path.to_string(), "Design".to_string());
    let files = files_of(&[(path, Some(5))]);
    let output = "/Applications/Other.app\n/Applications/Sketch.app\n";

    let result = hard_refresh(Some(output), &files, &config);
    let found: Vec<&AppInfo> = result.iter().filter(|e| e.path == path).collect();
    assert_eq!(found.len(), 1);
    assert_eq!(found[0].category, Some("Design".to_string()));
    let other: Vec<&AppInfo> = result.iter().filter(|e| e.path != path).collect();
    assert_eq!(other[0].category, None);
}

#[test]
fn three_launches_count_three() {
    let path = "/Applications/Mail.app";
    let mut config = AppConfig::default();
    for _ in 0..3 {
        let out = launch_app(&mut config, path.to_string(), LaunchAttempt::Started);
        assert_eq!(out, Ok(()));
    }
    assert_eq!(usage_count(&config, &path.to_string()), 3);

    let files = files_of(&[(path, None)]);
    let hard = hard_refresh(Some("/Applications/Mail.app"), &files, &config);
    assert_eq!(hard[0].usage_count, 3);
    let soft = soft_refresh(&vec![entry("Mail", path)], &files, &config);
    assert_eq!(soft[0].usage_count, 3);
}

#[test]
fn failed_launches_are_reported_and_not_counted() {
    let path = "/Applications/Mail.app".to_string();
    let mut config = AppConfig::default();
    assert_eq!(
        launch_app(&mut config, path.clone(), LaunchAttempt::NotFound),
        Err("App not found".to_string())
    );
    assert_eq!(
        launch_app(&mut config, path.clone(), LaunchAttempt::SpawnFailed("no such file".to_string())),
        Err("Failed to execute open: no such file".to_string())
    );
    assert_eq!(
        launch_app(&mut config, path.clone(), LaunchAttempt::ExitFailure),
        Err("Failed to launch app".to_string())
    );
    assert_eq!(usage_count(&config, &path), 0);
}

#[test]
fn same_path_twice_and_nested_bundle_give_one_entry() {
    let output = "/Applications/Xcode.app\n\
                  /Applications/Xcode.app/Contents/Applications/Instruments.app\n\
                  /Applications/Xcode.app\n";
    assert_eq!(bundle_paths(output), vec!["/Applications/Xcode.app"]);
    let found = discover(Some(output), &PathMap::new(), &AppConfig::default());
    assert_eq!(found.len(), 1);
    assert_eq!(found[0].name, "Xcode");
    assert_eq!(found[0].path, "/Applications/Xcode.app");
    assert_eq!(found[0].date_modified, 0);
}

#[test]
fn search_output_is_filtered_by_extension() {
    let output = "/Applications/Notes.app\r\n\
                  /Applications/readme.txt\n\
                  /Applications/NoExtension\n\
                  /Applications/.app\n\
                  /Applications/Trailing.app/\n\
                  \n\
                  /Applications/Upper.APP\n\
                  /Users/me/Applications/Mine.app";
    assert_eq!(
        bundle_paths(output),
        vec!["/Applications/Notes.app", "/Applications/Trailing.app/", "/Users/me/Applications/Mine.app"]
    );
    let found = discover(Some(output), &PathMap::new(), &AppConfig::default());
    assert_eq!(names(&found), vec!["Notes", "Trailing", "Mine"]);
}

#[test]
fn system_directories_are_recognised() {
    assert!(is_system_app("/System/Applications/Calendar.app"));
    assert!(is_system_app("/Applications/Utilities/Terminal.app"));
    assert!(is_system_app("/System/ApplicationsExtra/Thing.app"));
    assert!(!is_system_app("/Applications/Safari.app"));
    assert!(!is_system_app("/Users/me/System/Applications/Fake.app"));
    assert!(!is_system_app("/System"));
    let found = discover(
        Some("/System/Applications/Calendar.app\n/Applications/Safari.app"),
        &PathMap::new(),
        &AppConfig::default(),
    );
    assert_eq!(found[0].is_system, true);
    assert_eq!(found[1].is_system, false);
}

#[test]
fn hard_refresh_sorts_by_name_without_regard_to_case() {
    let output = "/Applications/zoom.app\n\
                  /Applications/Arc.app\n\
                  /Applications/Utilities/arc.app\n\
                  /Applications/Books.app\n\
                  /Applications/ARC.app\n";
    let result = hard_refresh(Some(output), &PathMap::new(), &AppConfig::default());
    assert_eq!(names(&result), vec!["Arc", "arc", "ARC", "Books", "zoom"]);
    assert_eq!(
        paths(&result),
        vec![
            "/Applications/Arc.app",
            "/Applications/Utilities/arc.app",
            "/Applications/ARC.app",
            "/Applications/Books.app",
            "/Applications/zoom.app",
        ]
    );
}

#[test]
fn sort_by_name_orders_by_lower_case_name() {
    let entries = vec![
        entry("b", "/1"),
        entry("B", "/2"),
        entry("a", "/3"),
        entry("", "/4"),
        entry("ab", "/5"),
        entry("Éclair", "/6"),
        entry("éclair", "/7"),
        entry("Z", "/8"),
    ];
    let sorted = sort_by_name(&entries);
    assert_eq!(paths(&sorted), vec!["/4", "/3", "/5", "/1", "/2", "/8", "/6", "/7"]);
}

#[test]
fn sort_by_keys_is_stable() {
    let entries = vec![entry("one", "/1"), entry("two", "/2"), entry("three", "/3"), entry("four", "/4")];
    let keys: Vec<Vec<char>> =
        vec!["b".chars().collect(), "a".chars().collect(), "b".chars().collect(), "a".chars().collect()];
    let sorted = sort_by_keys(&entries, &keys);
    assert_eq!(paths(&sorted), vec!["/2", "/4", "/1", "/3"]);
}

#[test]
fn removed_category_shows_in_no_entry() {
    let mut config = AppConfig::default();
    config.user_categories =
        ["Development", "Social", "Design", "Productivity"].iter().map(|n| n.to_string()).collect();
    update_app_category(&mut config, "/Applications/Sketch.app".to_string(), "Design".to_string());
    update_app_category(&mut config, "/Applications/Figma.app".to_string(), "Design".to_string());
    update_app_category(&mut config, "/Applications/Slack.app".to_string(), "Social".to_string());
    remove_category(&mut config, "Design".to_string());

    assert_eq!(config.user_categories, vec!["Development", "Social", "Productivity"]);
    let output = "/Applications/Sketch.app\n/Applications/Figma.app\n/Applications/Slack.app\n";
    let mut cache: Vec<AppInfo> = Vec::new();
    let hard = get_installed_apps(&mut cache, Some(true), &config, Some(output), &PathMap::new());
    assert_eq!(hard.len(), 3);
    for found in &hard {
        assert_ne!(found.category, Some("Design".to_string()));
    }
    assert_eq!(hard[0].category, None);
    assert_eq!(hard[1].category, None);
    assert_eq!(hard[2].category, Some("Social".to_string()));

    let mut stale = vec![AppInfo {
        category: Some("Design".to_string()),
        ..entry("Sketch", "/Applications/Sketch.app")
    }];
    let files = files_of(&[("/Applications/Sketch.app", None)]);
    let soft = get_installed_apps(&mut stale, Some(false), &config, None, &files);
    assert_eq!(soft[0].category, None);
}

#[test]
fn category_identifiers_map_onto_the_taxonomy() {
    let cases = [
        ("public.app-category.developer-tools", Some("Development")),
        ("public.app-category.social-networking", Some("Social")),
        ("public.app-category.graphics-design", Some("Design")),
        ("public.app-category.photography", Some("Design")),
        ("public.app-category.video", Some("Design")),
        ("public.app-category.productivity", Some("Productivity")),
        ("public.app-category.business", Some("Productivity")),
        ("public.app-category.finance", Some("Productivity")),
        ("public.app-category.utilities", Some("Productivity")),
        ("public.app-category.games", None),
        ("public.app-category.developer-tool", None),
        ("", None),
        ("video productivity developer-tools", Some("Development")),
        ("business social-networking", Some("Social")),
        ("finance photography", Some("Design")),
    ];
    for (id, expected) in cases {
        assert_eq!(category_for_identifier(id), expected.map(|s| s.to_string()), "{}", id);
        assert_eq!(guess_category(Some(id)), expected.map(|s| s.to_string()), "{}", id);
    }
    assert_eq!(guess_category(None), None);
}

#[test]
fn category_identifiers_are_matched_in_lower_case() {
    assert_eq!(category_for_identifier("public.app-category.Developer-Tools"), None);
    assert_eq!(
        guess_category(Some("  public.app-category.Developer-Tools\n")),
        Some("Development".to_string())
    );
    assert_eq!(guess_category(Some("PUBLIC.APP-CATEGORY.VIDEO")), Some("Design".to_string()));
}

#[test]
fn uncategorized_paths_are_discovered_bundles_without_a_category() {
    let mut config = AppConfig::default();
    update_app_category(&mut config, "/Applications/Slack.app".to_string(), "Social".to_string());
    let output = "/Applications/Slack.app\n/Applications/Xcode.app\n/\n/Applications/Xcode.app/Contents/Helper.app\n/Applications/notes.txt\n/Applications/Xcode.app\n/Applications/Folder\n/System/Applications/Mail.app\n";
    assert_eq!(
        uncategorized_paths(&config, Some(output)),
        vec!["/Applications/Xcode.app", "/System/Applications/Mail.app"]
    );
    assert!(uncategorized_paths(&config, None).is_empty());
    assert!(uncategorized_paths(&config, Some("")).is_empty());
}

#[test]
fn auto_categorize_passes_over_what_discovery_drops() {
    let mut config = AppConfig::default();
    let output = "/Applications/Xcode.app\n/Applications/Xcode.app/Contents/Helper.app\n/Applications/notes.txt\n";
    let tools = Some("public.app-category.developer-tools".to_string());
    let probes = vec![
        CategoryProbe {
            path: "/Applications/Xcode.app/Contents/Helper.app".to_string(),
            category_id: tools.clone(),
        },
        CategoryProbe { path: "/Applications/notes.txt".to_string(), category_id: tools.clone() },
        CategoryProbe { path: "/Applications/Elsewhere.app".to_string(), category_id: tools.clone() },
    ];
    assert!(!auto_categorize(&mut config, Some(output), &probes));
    assert_eq!(config.categories.len(), 0);
    assert!(config.user_categories.is_empty());

    let probes = vec![
        CategoryProbe {
            path: "/Applications/Xcode.app/Contents/Helper.app".to_string(),
            category_id: Some("public.app-category.video".to_string()),
        },
        CategoryProbe { path: "/Applications/Xcode.app".to_string(), category_id: tools.clone() },
    ];
    assert!(!auto_categorize(&mut config, None, &probes));
    assert_eq!(config.categories.len(), 0);
    assert!(auto_categorize(&mut config, Some(output), &probes));
    assert_eq!(config.categories.len(), 1);
    assert_eq!(
        config.categories.get(&"/Applications/Xcode.app".to_string()),
        Some(&"Development".to_string())
    );
    assert_eq!(config.user_categories, vec!["Development"]);
}

#[test]
fn category_identifier_is_taken_as_printed() {
    assert_eq!(
        guess_category(Some("\tpublic.app-category.Finance \r\n")),
        Some("Productivity".to_string())
    );
    assert_eq!(guess_category(Some(" \n")), None);
    assert_eq!(guess_category(Some("")), None);
}

#[test]
fn auto_categorize_fills_in_and_writes_once() {
    let mut config = AppConfig::default();
    config.user_categories =
        ["Development", "Social", "Design", "Productivity"].iter().map(|n| n.to_string()).collect();
    remove_category(&mut config, "Design".to_string());
    update_app_category(&mut config, "/Applications/Slack.app".to_string(), "Chat".to_string());
    let probes = vec![
        CategoryProbe {
            path: "/Applications/Xcode.app".to_string(),
            category_id: Some("public.app-category.developer-tools\n".to_string()),
        },
        CategoryProbe {
            path: "/Applications/Slack.app".to_string(),
            category_id: Some("public.app-category.social-networking".to_string()),
        },
        CategoryProbe {
            path: "/Applications/Sketch.app".to_string(),
            category_id: Some("public.app-category.graphics-design".to_string()),
        },
        CategoryProbe { path: "/Applications/Plain.app".to_string(), category_id: None },
        CategoryProbe {
            path: "/Applications/Game.app".to_string(),
            category_id: Some("public.app-category.games".to_string()),
        },
    ];

    let output = "/Applications/Slack.app\n/Applications/Game.app\n/Applications/Sketch.app\n/Applications/Plain.app\n/Applications/Xcode.app\n";
    assert!(auto_categorize(&mut config, Some(output), &probes));
    let category_of = |c: &AppConfig, p: &str| c.categories.get(&p.to_string()).cloned();
    assert_eq!(category_of(&config, "/Applications/Xcode.app"), Some("Development".to_string()));
    assert_eq!(category_of(&config, "/Applications/Slack.app"), Some("Chat".to_string()));
    assert_eq!(category_of(&config, "/Applications/Sketch.app"), Some("Design".to_string()));
    assert_eq!(category_of(&config, "/Applications/Plain.app"), None);
    assert_eq!(category_of(&config, "/Applications/Game.app"), None);
    assert_eq!(config.user_categories, vec!["Development", "Social", "Productivity", "Design"]);
    assert_eq!(config.categories.len(), 3);

    assert!(!auto_categorize(&mut config, Some(output), &probes));
    assert_eq!(config.categories.len(), 3);
    assert_eq!(config.user_categories, vec!["Development", "Social", "Productivity", "Design"]);
}

#[test]
fn auto_categorize_without_a_guess_writes_nothing() {
    let mut config = AppConfig::default();
    let probes = vec![CategoryProbe { path: "/Applications/Plain.app".to_string(), category_id: None }];
    let output = "/Applications/Plain.app\n";
    assert!(!auto_categorize(&mut config, Some(output), &probes));
    assert!(!auto_categorize(&mut config, Some(output), &Vec::new()));
    assert_eq!(config.categories.len(), 0);
}

#[test]
fn add_category_is_a_no_op_for_a_known_name() {
    let mut config = AppConfig::default();
    config.user_categories =
        ["Development", "Social", "Design", "Productivity"].iter().map(|n| n.to_string()).collect();
    assert!(add_category(&mut config, "Games".to_string()));
    assert!(!add_category(&mut config, "Games".to_string()));
    assert!(!add_category(&mut config, "Design".to_string()));
    assert_eq!(
        config.user_categories,
        vec!["Development", "Social", "Design", "Productivity", "Games"]
    );
}

#[test]
fn auto_categorize_defines_the_categories_it_assigns() {
    let mut config = AppConfig::default();
    let probes = vec![
        CategoryProbe {
            path: "/Applications/Xcode.app".to_string(),
            category_id: Some("public.app-category.developer-tools".to_string()),
        },
        CategoryProbe {
            path: "/Applications/Numbers.app".to_string(),
            category_id: Some("public.app-category.productivity".to_string()),
        },
        CategoryProbe {
            path: "/Applications/Instruments.app".to_string(),
            category_id: Some("public.app-category.developer-tools".to_string()),
        },
    ];
    let output = "/Applications/Instruments.app\n/Applications/Numbers.app\n/Applications/Xcode.app\n";
    assert!(auto_categorize(&mut config, Some(output), &probes));
    assert_eq!(config.user_categories, vec!["Development", "Productivity"]);
    assert_eq!(config.categories.len(), 3);
}
