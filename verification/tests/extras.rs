use mac_app_control::apps::search_arguments;
use mac_app_control::config::{add_script, remove_script, update_script, AppConfig, ScriptAction};
use mac_app_control::icons::{
    cache_file_name_for, data_url_for, icon_cache_file_name, icon_data_url, icon_export_script,
};
use mac_app_control::scripts::{run_script, script_body, script_file_name};
use mac_app_control::shortcuts::{parse_shortcut, shortcut_from_parts, Key, Modifiers, Shortcut};
use mac_app_control::text::{
    blank, decimal, is_whitespace, replace, signed_decimal, split, to_ascii_lowercase, trim,
};
use mac_app_control::wallpaper::{
    check_import_source, components, ensure_path_under_dir, file_name_from_hash,
    has_supported_extension, import_extension, import_key, import_source_path, import_wallpaper,
    is_supported_image_ext, is_under, list_wallpapers, short_hash, WallpaperFile,
};

fn held(alt: bool, control: bool, shift: bool, meta: bool) -> Modifiers {
    Modifiers { alt, control, shift, meta }
}

fn script(name: &str) -> ScriptAction {
    ScriptAction { name: name.to_string(), command: format!("run {}", name), cwd: None }
}

fn script_names(config: &AppConfig) -> Vec<String> {
    config.scripts.iter().map(|s| s.name.clone()).collect()
}

fn wallpaper(path: &str, modified_ms: Option<u128>) -> WallpaperFile {
    WallpaperFile {
        path: path.to_string(),
        filename: path.rsplit('/').next().unwrap().to_string(),
        size: 1,
        modified_ms,
    }
}

#[test]
fn supported_image_extensions() {
    for ext in ["png", "jpg", "jpeg", "webp", "gif", "PNG", "Jpg", "jPeG", "WEBP", "GiF"] {
        assert!(is_supported_image_ext(ext), "{}", ext);
    }
    for ext in ["", "bmp", "pn", "pngg", "tiff", "svg", ".png", "png ", "ｐｎｇ", "jp\u{212A}g"] {
        assert!(!is_supported_image_ext(ext), "{}", ext);
    }
    assert!(has_supported_extension("/w/a.PNG"));
    assert!(has_supported_extension("/w/a.b.gif"));
    assert!(!has_supported_extension("/w/png"));
    assert!(!has_supported_extension("/w/.png"));
    assert!(!has_supported_extension("/w/a.txt"));
}

#[test]
fn delete_rejects_outside_wallpaper_dir() {
    let err = ensure_path_under_dir(
        Some("/tmp/home/outside.png"),
        Some("/tmp/home/Library/Application Support/MacAppControl/wallpapers"),
    )
    .unwrap_err();
    assert!(err.contains("只能删除应用保存的壁纸"));
}

#[test]
fn wallpaper_guard_names_what_is_unavailable() {
    assert_eq!(ensure_path_under_dir(Some("/w/a.png"), Some("/w")), Ok(()));
    assert_eq!(ensure_path_under_dir(Some("/w"), Some("/w")), Ok(()));
    assert_eq!(ensure_path_under_dir(Some("/w/a.png"), None), Err("壁纸目录不可用".to_string()));
    assert_eq!(ensure_path_under_dir(None, None), Err("壁纸目录不可用".to_string()));
    assert_eq!(ensure_path_under_dir(None, Some("/w")), Err("目标文件不可用".to_string()));
    assert_eq!(
        ensure_path_under_dir(Some("/wallpapers2/a.png"), Some("/wallpapers")),
        Err("只能删除应用保存的壁纸".to_string())
    );
}

#[test]
fn paths_are_compared_by_components() {
    assert_eq!(components("/a//b/./c/"), vec!["/", "a", "b", "c"]);
    assert_eq!(components("a/b"), vec!["a", "b"]);
    assert_eq!(components("./a"), vec![".", "a"]);
    assert_eq!(components(""), Vec::<String>::new());
    assert_eq!(components("/"), vec!["/"]);
    assert_eq!(components("a/../b"), vec!["a", "..", "b"]);
    let cases = [
        ("/a/b/c", "/a/b", true),
        ("/a/b", "/a/b", true),
        ("/a/b", "/a/b/", true),
        ("/a/bc", "/a/b", false),
        ("/a", "/a/b", false),
        ("a/b", "/a", false),
        ("/a/b", "a", false),
        ("/a/b", "/", true),
        ("/a/b", "", true),
        ("a/b", "a", true),
        ("./a", "a", false),
        ("/a/./b", "/a/b", true),
    ];
    for (target, dir, expected) in cases {
        assert_eq!(is_under(target, dir), expected, "{} under {}", target, dir);
        assert_eq!(
            std::path::Path::new(target).starts_with(std::path::Path::new(dir)),
            expected,
            "{} under {}",
            target,
            dir
        );
    }
}

#[test]
fn wallpapers_are_listed_newest_first() {
    let found = vec![
        wallpaper("/w/old.png", Some(100)),
        wallpaper("/w/notes.txt", Some(900)),
        wallpaper("/w/unknown.jpg", None),
        wallpaper("/w/new.GIF", Some(300)),
        wallpaper("/w/same.webp", Some(100)),
        wallpaper("/w/zero.jpeg", Some(0)),
        wallpaper("/w/noext", Some(500)),
    ];
    let listed = list_wallpapers(&found);
    let paths: Vec<&str> = listed.iter().map(|w| w.path.as_str()).collect();
    assert_eq!(paths, vec!["/w/new.GIF", "/w/old.png", "/w/same.webp", "/w/unknown.jpg", "/w/zero.jpeg"]);
    assert_eq!(listed[1], found[0]);
    assert!(list_wallpapers(&Vec::new()).is_empty());
}

#[test]
fn import_source_is_cleaned_up() {
    assert_eq!(import_source_path("  /Users/me/a.png \n"), "/Users/me/a.png");
    assert_eq!(import_source_path("file:///Users/me/My%20Pictures/a%20b.png"), "/Users/me/My Pictures/a b.png");
    assert_eq!(import_source_path("file://file:///a.png"), "/a.png");
    assert_eq!(import_source_path("/a/file://b.png"), "/a/file://b.png");
    assert_eq!(import_source_path("%2020%20"), " 20 ");
    assert_eq!(import_source_path(""), "");
    assert_eq!(import_source_path(" \t "), "");
    assert_eq!(import_source_path("\u{3000}a\u{a0}"), "a");
}

#[test]
fn import_checks_file_and_format() {
    assert_eq!(check_import_source("/p/a.PNG", true), Ok("png".to_string()));
    assert_eq!(check_import_source("/p/a.JpEg", true), Ok("jpeg".to_string()));
    assert_eq!(
        check_import_source("/p/a.png", false),
        Err("源文件不存在或不是文件（请确认选择的是本地图片文件）".to_string())
    );
    assert_eq!(
        check_import_source("/p/a.txt", true),
        Err("不支持的图片格式（支持 PNG/JPG/JPEG/WebP/GIF）".to_string())
    );
    assert_eq!(
        check_import_source("/p/noext", true),
        Err("不支持的图片格式（支持 PNG/JPG/JPEG/WebP/GIF）".to_string())
    );
    assert_eq!(import_extension("/p/a.WebP"), "webp");
    assert_eq!(import_extension("/p/a.ÄB"), "Äb");
    assert_eq!(import_extension("/p/a"), "");
}

#[test]
fn imported_file_is_named_by_time_and_digest() {
    assert_eq!(import_key("/p/a.png", 1700000000123, 42), "/p/a.png:1700000000123:42");
    assert_eq!(short_hash("0123456789abcdef"), "0123456789");
    assert_eq!(short_hash("0123"), "0123");
    assert_eq!(short_hash(""), "");
    assert_eq!(file_name_from_hash(5, "0123456789abcdef", "png"), "wallpaper_5_0123456789.png");

    let digest = format!("{:x}", md5::compute("/p/a.png:1700000000123:42"));
    let name = import_wallpaper("/p/a.png", "png", Some(1700000000123), 42, 1700000009999);
    assert_eq!(name, format!("wallpaper_1700000009999_{}.png", &digest[0..10]));
    let digest = format!("{:x}", md5::compute("/p/a.png:0:42"));
    let name = import_wallpaper("/p/a.png", "gif", None, 42, 7);
    assert_eq!(name, format!("wallpaper_7_{}.gif", &digest[0..10]));
}

#[test]
fn icon_cache_name_is_the_digest_of_the_path() {
    assert_eq!(cache_file_name_for("abc"), "abc.png");
    assert_eq!(
        icon_cache_file_name("/Applications/Safari.app"),
        format!("{:x}.png", md5::compute("/Applications/Safari.app"))
    );
    assert_eq!(icon_cache_file_name(""), "d41d8cd98f00b204e9800998ecf8427e.png");
    assert_ne!(icon_cache_file_name("/a"), "/a.png");
}

#[test]
fn icon_is_handed_over_as_a_data_url() {
    assert_eq!(data_url_for("xyz"), "data:image/png;base64,xyz");
    assert_eq!(icon_data_url(b""), Some("data:image/png;base64,".to_string()));
    assert_eq!(icon_data_url(b"f"), Some("data:image/png;base64,Zg==".to_string()));
    assert_eq!(icon_data_url(b"fo"), Some("data:image/png;base64,Zm8=".to_string()));
    assert_eq!(icon_data_url(b"foo"), Some("data:image/png;base64,Zm9v".to_string()));
    assert_eq!(icon_data_url(&[0xfb, 0xff, 0xfe]), Some("data:image/png;base64,+//+".to_string()));
}

#[test]
fn icon_export_script_quotes_paths() {
    let expected = "import AppKit; let img = NSWorkspace.shared.icon(forFile: \"/Applications/My \\\"App\\\".app\"); img.size = NSSize(width: 128, height: 128); guard let tiff = img.tiffRepresentation, let bitmap = NSBitmapImageRep(data: tiff), let data = bitmap.representation(using: .png, properties: [:]) else { exit(1) }; try! data.write(to: URL(fileURLWithPath: \"/cache/ab.png\"))";
    assert_eq!(icon_export_script("/Applications/My \"App\".app", "/cache/ab.png"), expected);
}

#[test]
fn script_runs_in_its_directory() {
    let plain = "#!/bin/sh\necho 'Running Custom Script...'\nls -l\necho '\n-----------------------------------'\necho 'Script finished. Press any key to close.'\nread -n 1\n";
    let moved = "#!/bin/sh\necho 'Running Custom Script...'\ncd \"/tmp/my dir\" || exit\necho 'Changed directory to: /tmp/my dir'\nls -l\necho '\n-----------------------------------'\necho 'Script finished. Press any key to close.'\nread -n 1\n";
    assert_eq!(run_script("ls -l", None), plain);
    assert_eq!(run_script("ls -l", Some("")), plain);
    assert_eq!(run_script("ls -l", Some("  \t\n")), plain);
    assert_eq!(run_script("ls -l", Some("\u{2003}")), plain);
    assert_eq!(run_script("ls -l", Some("/tmp/my dir")), moved);
    assert_eq!(script_body("ls -l", Some("/tmp/my dir")), moved);
    assert_eq!(
        run_script("x", Some(" . ")),
        "#!/bin/sh\necho 'Running Custom Script...'\ncd \" . \" || exit\necho 'Changed directory to:  . '\nx\necho '\n-----------------------------------'\necho 'Script finished. Press any key to close.'\nread -n 1\n"
    );
}

#[test]
fn script_file_is_named_by_the_time() {
    assert_eq!(script_file_name(1700000000123), "macappcontrol_script_1700000000123.command");
    assert_eq!(script_file_name(0), "macappcontrol_script_0.command");
    assert_eq!(script_file_name(-5), "macappcontrol_script_-5.command");
}

#[test]
fn numbers_are_written_in_decimal() {
    for n in [0u128, 1, 9, 10, 11, 99, 100, 101, 1234567890, u64::MAX as u128, u128::MAX] {
        assert_eq!(decimal(n), n.to_string());
    }
    for n in [0i64, 1, -1, 9, -9, 10, -10, 12345, -12345, i64::MAX, i64::MIN, i64::MIN + 1] {
        assert_eq!(signed_decimal(n), n.to_string());
    }
}

#[test]
fn text_is_trimmed_split_and_replaced() {
    for text in ["", " ", "a", " a", "a ", " a b ", "\n\ta\r\n", "\u{a0}x\u{2028}", "  \u{1680} "] {
        assert_eq!(trim(text), text.trim());
    }
    for text in ["", "+", "a", "a+b", "a++b", "+a+", "Alt+Space"] {
        let expected: Vec<String> = text.split('+').map(|p| p.to_string()).collect();
        assert_eq!(split(text, '+'), expected);
    }
    let cases = [
        ("", "a", "b"),
        ("aaa", "a", "b"),
        ("aaa", "aa", "b"),
        ("a%20b%20", "%20", " "),
        ("%2%20", "%20", " "),
        ("say \"hi\"", "\"", "\\\""),
        ("abc", "abc", ""),
        ("abcabc", "bc", "bcbc"),
        ("héllo", "l", "é"),
    ];
    for (text, pattern, by) in cases {
        assert_eq!(replace(text, pattern, by), text.replace(pattern, by), "{} {} {}", text, pattern, by);
    }
}

#[test]
fn shortcuts_are_read_from_their_spelling() {
    let alt_space = Some(Shortcut { modifiers: held(true, false, false, false), key: Key::Space });
    assert_eq!(parse_shortcut("Alt+Space"), alt_space);
    assert_eq!(parse_shortcut("option+SPACE"), alt_space);
    assert_eq!(
        parse_shortcut("Command+P"),
        Some(Shortcut { modifiers: held(false, false, false, true), key: Key::Letter('p') })
    );
    assert_eq!(
        parse_shortcut("cmd+shift+ctrl+z"),
        Some(Shortcut { modifiers: held(false, true, true, true), key: Key::Letter('z') })
    );
    assert_eq!(
        parse_shortcut("Super+Control+Alt+Shift+A"),
        Some(Shortcut { modifiers: held(true, true, true, true), key: Key::Letter('a') })
    );
    assert_eq!(
        parse_shortcut("shift+shift+k"),
        Some(Shortcut { modifiers: held(false, false, true, false), key: Key::Letter('k') })
    );
    for bad in ["", "Space", "Alt", "Alt+", "+Space", "Alt+Tab", "Alt+1", "Hyper+A", "Alt+ Space", "Alt++A", "A+Alt", "Alt+AB", "Alt+é"] {
        assert_eq!(parse_shortcut(bad), None, "{}", bad);
    }
}

#[test]
fn shortcut_parts_are_taken_as_they_are() {
    let parts = |names: &[&str]| -> Vec<String> { names.iter().map(|n| n.to_string()).collect() };
    assert_eq!(
        shortcut_from_parts(&parts(&["alt", "space"])),
        Some(Shortcut { modifiers: held(true, false, false, false), key: Key::Space })
    );
    assert_eq!(shortcut_from_parts(&parts(&["Alt", "space"])), None);
    assert_eq!(shortcut_from_parts(&parts(&["alt", "Space"])), None);
    assert_eq!(shortcut_from_parts(&parts(&["alt", "A"])), None);
    assert_eq!(shortcut_from_parts(&parts(&["space"])), None);
    assert_eq!(shortcut_from_parts(&parts(&[])), None);
}

#[test]
fn scripts_are_added_replaced_and_removed() {
    let mut config = AppConfig::default();
    add_script(&mut config, "build".to_string(), "make".to_string(), Some("/src".to_string()));
    add_script(&mut config, "test".to_string(), "make test".to_string(), None);
    add_script(&mut config, "build".to_string(), "ninja".to_string(), None);
    assert_eq!(script_names(&config), vec!["build", "test", "build"]);
    assert_eq!(
        config.scripts[0],
        ScriptAction { name: "build".to_string(), command: "make".to_string(), cwd: Some("/src".to_string()) }
    );

    update_script(&mut config, "test".to_string(), "check".to_string(), "make check".to_string(), None);
    assert_eq!(script_names(&config), vec!["build", "build", "check"]);
    assert_eq!(config.scripts[2].command, "make check");

    config.scripts.push(script("other"));
    update_script(&mut config, "build".to_string(), "other".to_string(), "o".to_string(), None);
    assert_eq!(script_names(&config), vec!["check", "other"]);
    assert_eq!(config.scripts[1].command, "o");

    remove_script(&mut config, "missing".to_string());
    assert_eq!(script_names(&config), vec!["check", "other"]);
    remove_script(&mut config, "check".to_string());
    assert_eq!(script_names(&config), vec!["other"]);
}

#[test]
fn searches_are_scoped_to_the_application_directories() {
    assert_eq!(
        search_arguments("/Users/me"),
        vec![
            "-onlyin",
            "/Applications",
            "-onlyin",
            "/System/Applications",
            "-onlyin",
            "/Users/me/Applications",
            "kMDItemContentTypeTree == 'com.apple.application-bundle'",
        ]
    );
    assert_eq!(search_arguments("")[5], "/Applications");
}

#[test]
fn import_list_delete_roundtrip() {
    let dir = "/tmp/home/Library/Application Support/MacAppControl/wallpapers";
    let source = import_source_path("/tmp/home/source.png");
    let ext = check_import_source(&source, true).unwrap();
    let size = b"not-a-real-png".len() as u64;
    let name = import_wallpaper(&source, &ext, Some(1), size, 2);
    assert!(name.starts_with("wallpaper_2_") && name.ends_with(".png"));
    let saved = format!("{}/{}", dir, name);

    let found = vec![WallpaperFile {
        path: saved.clone(),
        filename: name.clone(),
        size,
        modified_ms: Some(2),
    }];
    let items = list_wallpapers(&found);
    assert!(items.iter().any(|w| w.path == saved));

    assert_eq!(ensure_path_under_dir(Some(saved.as_str()), Some(dir)), Ok(()));
    assert_eq!(
        ensure_path_under_dir(Some("/tmp/home/source.png"), Some(dir)),
        Err("只能删除应用保存的壁纸".to_string())
    );
    let left = vec![WallpaperFile {
        path: format!("{}/other.png", dir),
        filename: "other.png".to_string(),
        size: 1,
        modified_ms: Some(9),
    }];
    let items = list_wallpapers(&left);
    assert_eq!(items.len(), 1);
    assert_eq!(items[0].filename, "other.png");
}

#[test]
fn imported_name_holds_ten_hexadecimal_digits() {
    for (source, modified, size) in [("/p/a.png", Some(3u128), 7u64), ("", None, 0), ("/ü.gif", Some(0), 1)] {
        let name = import_wallpaper(source, "png", modified, size, 12);
        let digits = name.strip_prefix("wallpaper_12_").unwrap().strip_suffix(".png").unwrap();
        assert_eq!(digits.len(), 10, "{}", name);
        assert!(digits.chars().all(|c| matches!(c, '0'..='9' | 'a'..='f')), "{}", name);
    }
    assert_eq!(icon_cache_file_name("/Applications/Safari.app").chars().count(), 36);
}

#[test]
fn white_space_is_what_the_standard_library_says() {
    for code in 0..=0x10FFFFu32 {
        if let Some(c) = char::from_u32(code) {
            assert_eq!(is_whitespace(c), c.is_whitespace(), "U+{:04X}", code);
        }
    }
    assert!(blank(&" \t\u{3000}".chars().collect()));
    assert!(blank(&Vec::new()));
    assert!(!blank(&" a ".chars().collect()));
    assert_eq!(trim(" a "), "a");
}

#[test]
fn ascii_letters_are_lowered_and_nothing_else() {
    for text in ["", "PNG", "JpEg", "already", "ÄÖ.Ü", "A-Z@[`{", "İK\u{212A}", "x1Y2z3"] {
        assert_eq!(to_ascii_lowercase(text), text.to_ascii_lowercase(), "{}", text);
    }
    let all: String = (0..128u8).map(|b| b as char).collect();
    assert_eq!(to_ascii_lowercase(&all), all.to_ascii_lowercase());
}
