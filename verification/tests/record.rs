use mac_app_control::config::{
    category, default_category_order, default_theme, default_wallpaper_blur,
    default_wallpaper_fit, default_wallpaper_overlay, default_wallpaper_position, load_config,
    migrate_category_order, record_usage, update_app_category, update_shortcut, usage_count,
    AppConfig,
};
use mac_app_control::path_map::PathMap;
use mac_app_control::paths::{extension, file_name, file_stem};
use mac_app_control::text::{chars_of, contains, lex_less, lines, starts_with, str_eq};

fn chars(s: &str) -> Vec<char> {
    s.chars().collect()
}

fn builtin() -> Vec<&'static str> {
    vec![
        "All",
        "Frequent",
        "Scripts",
        "Development",
        "Social",
        "Design",
        "Productivity",
        "User Apps",
        "System",
    ]
}

#[test]
fn default_record_is_the_documented_one() {
    let config = AppConfig::default();
    assert_eq!(config.categories.len(), 0);
    assert_eq!(config.usage_counts.len(), 0);
    assert!(config.user_categories.is_empty());
    assert_eq!(config.shortcut, "Alt+Space");
    assert!(config.scripts.is_empty());
    assert_eq!(config.category_order, builtin());
    assert_eq!(config.theme, "Midnight");
    assert_eq!(config.wallpaper, None);
    assert_eq!(f32::from_bits(config.wallpaper_blur.bits), 10.0);
    assert_eq!(f32::from_bits(config.wallpaper_overlay.bits), 0.4);
    assert_eq!(config.wallpaper_fit, "cover");
    assert_eq!(config.wallpaper_position, "center");
}

#[test]
fn defaults_of_the_presentation_settings() {
    assert_eq!(default_theme(), "Midnight");
    assert_eq!(default_wallpaper_fit(), "cover");
    assert_eq!(default_wallpaper_position(), "center");
    assert_eq!(default_wallpaper_blur().bits, 10.0f32.to_bits());
    assert_eq!(default_wallpaper_overlay().bits, 0.4f32.to_bits());
    assert_eq!(default_category_order(), builtin());
}

#[test]
fn missing_record_loads_as_the_default() {
    let loaded = load_config(None);
    assert_eq!(loaded.category_order, builtin());
    assert!(loaded.user_categories.is_empty());
    assert_eq!(loaded.shortcut, "Alt+Space");
}

#[test]
fn migration_fills_an_empty_order() {
    let mut config = AppConfig::default();
    config.category_order = Vec::new();
    config.user_categories =
        vec!["Games".to_string(), "Design".to_string(), "Music".to_string(), "Games".to_string()];
    let loaded = load_config(Some(config));
    let mut expected = builtin();
    expected.push("Games");
    expected.push("Music");
    assert_eq!(loaded.category_order, expected);
    assert_eq!(loaded.user_categories, vec!["Games", "Design", "Music", "Games"]);
}

#[test]
fn migration_twice_is_migration_once() {
    let mut config = AppConfig::default();
    config.category_order = Vec::new();
    config.user_categories = vec!["Games".to_string(), "Design".to_string()];
    migrate_category_order(&mut config);
    let once = config.category_order.clone();
    migrate_category_order(&mut config);
    assert_eq!(config.category_order, once);
    assert_eq!(once.len(), 10);
}

#[test]
fn migration_leaves_an_order_alone() {
    let mut config = AppConfig::default();
    config.category_order = vec!["System".to_string()];
    config.user_categories = vec!["Games".to_string()];
    migrate_category_order(&mut config);
    assert_eq!(config.category_order, vec!["System"]);
}

#[test]
fn category_is_upserted() {
    let mut config = AppConfig::default();
    let path = "/Applications/Sketch.app".to_string();
    assert_eq!(category(&config, &path), None);
    update_app_category(&mut config, path.clone(), "Design".to_string());
    assert_eq!(category(&config, &path), Some("Design".to_string()));
    update_app_category(&mut config, path.clone(), "Work".to_string());
    assert_eq!(category(&config, &path), Some("Work".to_string()));
    assert_eq!(config.categories.len(), 1);
}

#[test]
fn usage_starts_at_zero_and_counts_up() {
    let mut config = AppConfig::default();
    let path = "/Applications/Mail.app".to_string();
    let other = "/Applications/Notes.app".to_string();
    assert_eq!(usage_count(&config, &path), 0);
    record_usage(&mut config, path.clone());
    assert_eq!(usage_count(&config, &path), 1);
    record_usage(&mut config, path.clone());
    record_usage(&mut config, other.clone());
    assert_eq!(usage_count(&config, &path), 2);
    assert_eq!(usage_count(&config, &other), 1);
    assert_eq!(config.usage_counts.len(), 2);
}

#[test]
fn shortcut_is_replaced() {
    let mut config = AppConfig::default();
    update_shortcut(&mut config, "Command+P".to_string());
    assert_eq!(config.shortcut, "Command+P");
    assert_eq!(config.theme, "Midnight");
}

#[test]
fn path_map_inserts_replaces_and_removes() {
    let mut map: PathMap<u32> = PathMap::new();
    assert_eq!(map.len(), 0);
    map.insert("a".to_string(), 1);
    map.insert("b".to_string(), 2);
    map.insert("a".to_string(), 3);
    assert_eq!(map.len(), 2);
    assert_eq!(map.get(&"a".to_string()), Some(&3));
    assert_eq!(map.get(&"b".to_string()), Some(&2));
    assert_eq!(map.get(&"c".to_string()), None);
    assert!(map.contains_key(&"b".to_string()));
    assert_eq!(map.key_at(0), "a");
    assert_eq!(*map.value_at(1), 2);
    map.remove(&"a".to_string());
    map.remove(&"zzz".to_string());
    assert_eq!(map.len(), 1);
    assert!(!map.contains_key(&"a".to_string()));
    assert_eq!(map.key_at(0), "b");
}

#[test]
fn path_map_removes_by_value() {
    let mut map: PathMap<String> = PathMap::new();
    map.insert("/1".to_string(), "Design".to_string());
    map.insert("/2".to_string(), "Social".to_string());
    map.insert("/3".to_string(), "Design".to_string());
    map.insert("/4".to_string(), "design".to_string());
    map.remove_value(&"Design".to_string());
    assert_eq!(map.len(), 2);
    assert_eq!(map.get(&"/2".to_string()), Some(&"Social".to_string()));
    assert_eq!(map.get(&"/4".to_string()), Some(&"design".to_string()));
    assert_eq!(map.get(&"/1".to_string()), None);
}

#[test]
fn lines_are_split_at_line_feeds() {
    assert_eq!(lines(""), Vec::<String>::new());
    assert_eq!(lines("\n"), vec![""]);
    assert_eq!(lines("a"), vec!["a"]);
    assert_eq!(lines("a\n"), vec!["a"]);
    assert_eq!(lines("a\nb"), vec!["a", "b"]);
    assert_eq!(lines("a\n\nb\n"), vec!["a", "", "b"]);
    assert_eq!(lines("a\r\nb\r\n"), vec!["a", "b"]);
    assert_eq!(lines("a\rb\n"), vec!["a\rb"]);
    assert_eq!(lines("a\r"), vec!["a\r"]);
    assert_eq!(lines("\r\n"), vec![""]);
    assert_eq!(lines("é\nü"), vec!["é", "ü"]);
    for text in ["", "\n", "a\r\n\r\nb", "x\ny\r", "\r\r\n", "один\nдва\n"] {
        let expected: Vec<String> = text.lines().map(|l| l.to_string()).collect();
        assert_eq!(lines(text), expected);
    }
}

#[test]
fn file_names_stems_and_extensions() {
    let cases: [(&str, Option<&str>, Option<&str>, Option<&str>); 16] = [
        ("/Applications/Safari.app", Some("Safari.app"), Some("Safari"), Some("app")),
        ("/Applications/Safari.app/", Some("Safari.app"), Some("Safari"), Some("app")),
        ("/Applications/Safari.app/.", Some("Safari.app"), Some("Safari"), Some("app")),
        ("/Applications/Safari.app//./", Some("Safari.app"), Some("Safari"), Some("app")),
        ("/Applications/My App.v2.app", Some("My App.v2.app"), Some("My App.v2"), Some("app")),
        ("/Applications/NoExtension", Some("NoExtension"), Some("NoExtension"), None),
        ("/Applications/.hidden", Some(".hidden"), Some(".hidden"), None),
        ("/Applications/.hidden.app", Some(".hidden.app"), Some(".hidden"), Some("app")),
        ("/Applications/dot.", Some("dot."), Some("dot"), Some("")),
        ("/Applications/..", None, None, None),
        ("/Applications/...", Some("..."), Some(".."), Some("")),
        ("/", None, None, None),
        ("", None, None, None),
        (".", None, None, None),
        ("relative.app", Some("relative.app"), Some("relative"), Some("app")),
        ("./a/b.tar.gz", Some("b.tar.gz"), Some("b.tar"), Some("gz")),
    ];
    for (path, name, stem, ext) in cases {
        assert_eq!(file_name(path), name.map(|s| s.to_string()), "name of {}", path);
        assert_eq!(file_stem(path), stem.map(|s| s.to_string()), "stem of {}", path);
        assert_eq!(extension(path), ext.map(|s| s.to_string()), "extension of {}", path);
    }
}

#[test]
fn file_names_agree_with_the_standard_library() {
    let paths = [
        "/Applications/Safari.app",
        "/Applications/Safari.app/",
        "/Applications/Safari.app/.",
        "/a/./b/./",
        "/a/..",
        "a..b",
        "..a",
        ".a.",
        "/.",
        "./",
        "//",
        "/Applications/Büro.app",
        "a/b/../c.d",
        "...",
        "....",
        ".././.",
    ];
    for path in paths {
        let std_path = std::path::Path::new(path);
        let name = std_path.file_name().map(|s| s.to_str().unwrap().to_string());
        let stem = std_path.file_stem().map(|s| s.to_str().unwrap().to_string());
        let ext = std_path.extension().map(|s| s.to_str().unwrap().to_string());
        assert_eq!(file_name(path), name, "name of {}", path);
        assert_eq!(file_stem(path), stem, "stem of {}", path);
        assert_eq!(extension(path), ext, "extension of {}", path);
    }
}

#[test]
fn text_searches() {
    assert_eq!(chars_of("héllo"), chars("héllo"));
    assert!(str_eq("abc", "abc"));
    assert!(!str_eq("abc", "abd"));
    assert!(contains(&chars("/A.app/Contents/B.app"), &chars(".app/Contents/")));
    assert!(!contains(&chars("/A.app/Content/B.app"), &chars(".app/Contents/")));
    assert!(contains(&chars("abc"), &chars("")));
    assert!(contains(&chars(""), &chars("")));
    assert!(!contains(&chars(""), &chars("a")));
    assert!(contains(&chars("aab"), &chars("ab")));
    assert!(starts_with(&chars("/System/Applications/X.app"), &chars("/System/Applications")));
    assert!(!starts_with(&chars("/System"), &chars("/System/Applications")));
    assert!(starts_with(&chars("abc"), &chars("")));
}

#[test]
fn strings_compare_by_character_codes() {
    let cases = [
        ("", "", false),
        ("", "a", true),
        ("a", "", false),
        ("a", "b", true),
        ("b", "a", false),
        ("a", "a", false),
        ("a", "ab", true),
        ("ab", "a", false),
        ("B", "a", true),
        ("z", "é", true),
        ("éa", "éb", true),
        ("abc", "abd", true),
    ];
    for (a, b, expected) in cases {
        assert_eq!(lex_less(&chars(a), &chars(b)), expected, "{:?} < {:?}", a, b);
        assert_eq!(a < b, expected);
    }
}
