//! Wallpaper files: which files count as wallpapers, in which order they are
//! listed, and which of them may be deleted.
//!
//! The caller reads the wallpaper directory and resolves paths; what it found
//! comes in as plain values.

use vstd::prelude::*;
use crate::paths::{extension_of, stem_and_extension_spans};
use crate::digest::{lower_hex_digit, md5_hex, md5_hex_of};
use crate::text::{
    ascii_lowercase,
    chars_of,
    decimal,
    decimal_of,
    eq_ignore_ascii_case,
    equals_ignore_ascii_case,
    matches_at,
    occurs_at,
    replace,
    replaced,
    split,
    split_on,
    str_eq,
    to_ascii_lowercase,
    trim,
    trimmed_text,
};
use vstd::utf8::encode_utf8;
use crate::sorting::{
    by_largest,
    largest_first_order,
    lemma_by_largest_strict_total,
    lemma_sorted_positions_exist,
    positions_in_order,
    reordered,
    sorted_positions,
};
use vstd::string::{StrSliceExecFns, StringExecFns, StringSliceAdditionalSpecFns};

verus! {

/// One file of the wallpaper directory.
#[derive(Debug, PartialEq, Eq)]
pub struct WallpaperFile {
    pub path: String,
    pub filename: String,
    pub size: u64,
    /// When the file was last modified, in milliseconds since the epoch.
    pub modified_ms: Option<u128>,
}

/// The model of a `WallpaperFile`.
pub struct WallpaperFileView {
    pub path: Seq<char>,
    pub filename: Seq<char>,
    pub size: u64,
    pub modified_ms: Option<u128>,
}

impl DeepView for WallpaperFile {
    type V = WallpaperFileView;

    open spec fn deep_view(&self) -> WallpaperFileView {
        WallpaperFileView {
            path: self.path@,
            filename: self.filename@,
            size: self.size,
            modified_ms: self.modified_ms,
        }
    }
}

impl View for WallpaperFile {
    type V = WallpaperFileView;

    open spec fn view(&self) -> WallpaperFileView {
        self.deep_view()
    }
}

impl Clone for WallpaperFile {
    fn clone(&self) -> (out: Self)
        ensures
            out == *self,
    {
        WallpaperFile {
            path: self.path.clone(),
            filename: self.filename.clone(),
            size: self.size,
            modified_ms: self.modified_ms,
        }
    }
}

/// Whether `ext` is the extension of an image format that is accepted as a
/// wallpaper, whatever the case of its letters.
pub open spec fn supported_image_ext(ext: Seq<char>) -> bool {
    eq_ignore_ascii_case(ext, "png"@) || eq_ignore_ascii_case(ext, "jpg"@) || eq_ignore_ascii_case(
        ext,
        "jpeg"@,
    ) || eq_ignore_ascii_case(ext, "webp"@) || eq_ignore_ascii_case(ext, "gif"@)
}

/// Whether `ext` is the extension of an image format that is accepted as a
/// wallpaper.
pub fn is_supported_image_ext(ext: &str) -> (out: bool)
    ensures
        out == supported_image_ext(ext@),
{
    let e = chars_of(ext);
    equals_ignore_ascii_case(&e, &chars_of("png")) || equals_ignore_ascii_case(&e, &chars_of("jpg"))
        || equals_ignore_ascii_case(&e, &chars_of("jpeg")) || equals_ignore_ascii_case(
        &e,
        &chars_of("webp"),
    ) || equals_ignore_ascii_case(&e, &chars_of("gif"))
}

/// Whether the file at `path` has the extension of a supported image format.
pub open spec fn is_wallpaper_path(path: Seq<char>) -> bool {
    match extension_of(path) {
        Some(ext) => supported_image_ext(ext),
        None => false,
    }
}

/// Whether the file at `path` has the extension of a supported image format.
pub fn has_supported_extension(path: &str) -> (out: bool)
    ensures
        out == is_wallpaper_path(path@),
{
    let chars = chars_of(path);
    match stem_and_extension_spans(&chars) {
        Some((_, Some((from, to)))) => {
            let ext = path.substring_char(from, to);
            is_supported_image_ext(ext)
        },
        _ => false,
    }
}

/// The components of a slash-separated path that count: the root, if the path
/// starts at it, written `/`; a single dot at the start of a relative path;
/// and every other piece that is neither empty nor a single dot.
pub open spec fn components_of(path: Seq<char>) -> Seq<Seq<char>> {
    let pieces = split_on(path, '/');
    let named = pieces.filter(|p: Seq<char>| p.len() > 0 && p != seq!['.']);
    if path.len() > 0 && path[0] == '/' {
        seq![seq!['/']] + named
    } else if pieces.len() > 0 && pieces[0] == seq!['.'] {
        seq![seq!['.']] + named
    } else {
        named
    }
}

/// Whether the path `target` lies under the path `dir`: the components of
/// `dir` are the first components of `target`.
pub open spec fn path_is_under(target: Seq<char>, dir: Seq<char>) -> bool {
    components_of(dir).is_prefix_of(components_of(target))
}

/// The components of `path`.
pub fn components(path: &str) -> (out: Vec<String>)
    ensures
        out.deep_view() == components_of(path@),
{
    let pieces = split(path, '/');
    let chars = chars_of(path);
    let ghost all = pieces.deep_view();
    let ghost named = |p: Seq<char>| p.len() > 0 && p != seq!['.'];
    let mut out: Vec<String> = Vec::new();
    let ghost mut lead: Seq<Seq<char>> = Seq::empty();
    proof {
        reveal_strlit("/");
        reveal_strlit(".");
        assert("/"@ =~= seq!['/']);
        assert("."@ =~= seq!['.']);
    }
    if chars.len() > 0 && chars[0] == '/' {
        out.push("/".to_string());
        proof {
            lead = seq![seq!['/']];
        }
    } else if pieces.len() > 0 && str_eq(pieces[0].as_str(), ".") {
        out.push(".".to_string());
        proof {
            lead = seq![seq!['.']];
        }
    }
    assert(out.deep_view() =~= lead);
    let mut i: usize = 0;
    proof {
        reveal(Seq::filter);
        assert(all.take(0).filter(named) =~= Seq::<Seq<char>>::empty());
        assert(lead + Seq::<Seq<char>>::empty() =~= lead);
    }
    while i < pieces.len()
        invariant
            i <= pieces@.len(),
            all == pieces.deep_view(),
            named == (|p: Seq<char>| p.len() > 0 && p != seq!['.']),
            "."@ == seq!['.'],
            out.deep_view() == lead + all.take(i as int).filter(named),
        decreases pieces@.len() - i,
    {
        let ghost before = out.deep_view();
        proof {
            reveal(Seq::filter);
            assert(all.take(i + 1).drop_last() =~= all.take(i as int));
            assert(all.take(i + 1).last() == pieces@[i as int]@);
        }
        let piece = chars_of(pieces[i].as_str());
        if piece.len() > 0 && !str_eq(pieces[i].as_str(), ".") {
            out.push(pieces[i].clone());
            assert(out.deep_view() =~= before.push(pieces@[i as int]@));
            assert(lead + all.take(i as int).filter(named).push(pieces@[i as int]@) =~= (lead
                + all.take(i as int).filter(named)).push(pieces@[i as int]@));
        }
        i += 1;
    }
    assert(all.take(pieces@.len() as int) =~= all);
    out
}

/// Whether the path `target` lies under the path `dir`.
pub fn is_under(target: &str, dir: &str) -> (out: bool)
    ensures
        out == path_is_under(target@, dir@),
{
    let t = components(target);
    let d = components(dir);
    if d.len() > t.len() {
        return false;
    }
    let mut i: usize = 0;
    while i < d.len()
        invariant
            i <= d@.len() <= t@.len(),
            d.deep_view() == components_of(dir@),
            t.deep_view() == components_of(target@),
            forall|k: int| 0 <= k < i ==> d.deep_view()[k] == t.deep_view()[k],
        decreases d@.len() - i,
    {
        if d[i] != t[i] {
            proof {
                let dv = d.deep_view();
                let tv = t.deep_view();
                assert(dv[i as int] != tv[i as int]);
                assert(tv.subrange(0, dv.len() as int)[i as int] == tv[i as int]);
            }
            return false;
        }
        i += 1;
    }
    assert(d.deep_view() =~= t.deep_view().subrange(0, d.deep_view().len() as int));
    true
}

/// Why a file may not be deleted as a wallpaper.
#[derive(Debug, PartialEq, Eq, Clone, Copy)]
pub enum GuardError {
    /// The wallpaper directory could not be resolved.
    DirectoryUnavailable,
    /// The file could not be resolved.
    TargetUnavailable,
    /// The file does not lie in the wallpaper directory.
    OutsideDirectory,
}

/// What `ensure_path_under_dir` decides for the resolved forms of the target
/// and of the directory, each absent where it could not be resolved.
pub open spec fn guard_of(target: Option<Seq<char>>, dir: Option<Seq<char>>) -> Result<
    (),
    GuardError,
> {
    match dir {
        None => Err(GuardError::DirectoryUnavailable),
        Some(d) => match target {
            None => Err(GuardError::TargetUnavailable),
            Some(t) => if path_is_under(t, d) {
                Ok(())
            } else {
                Err(GuardError::OutsideDirectory)
            },
        },
    }
}

/// The message that goes with a `GuardError`.
pub open spec fn guard_message(error: GuardError) -> Seq<char> {
    match error {
        GuardError::DirectoryUnavailable => "壁纸目录不可用"@,
        GuardError::TargetUnavailable => "目标文件不可用"@,
        GuardError::OutsideDirectory => "只能删除应用保存的壁纸"@,
    }
}

/// Checks that a file lies in the wallpaper directory, given the resolved
/// forms of both paths, each absent where it could not be resolved. The
/// directory is looked at first.
pub fn ensure_path_under_dir(target: Option<&str>, dir: Option<&str>) -> (out: Result<(), String>)
    ensures
        match guard_of(
            match target {
                Some(t) => Some(t@),
                None => None,
            },
            match dir {
                Some(d) => Some(d@),
                None => None,
            },
        ) {
            Ok(_) => out is Ok,
            Err(error) => out matches Err(message) && message@ == guard_message(error),
        },
{
    match dir {
        None => Err("壁纸目录不可用".to_string()),
        Some(d) => match target {
            None => Err("目标文件不可用".to_string()),
            Some(t) => if is_under(t, d) {
                Ok(())
            } else {
                Err("只能删除应用保存的壁纸".to_string())
            },
        },
    }
}

/// The time by which a wallpaper is listed: that of its last modification, or
/// 0 where that is not known.
pub open spec fn listing_key(file: WallpaperFileView) -> u128 {
    match file.modified_ms {
        Some(ms) => ms,
        None => 0,
    }
}

/// The files among `found` that are wallpapers, in their order.
pub open spec fn wallpapers_among(found: Seq<WallpaperFileView>) -> Seq<WallpaperFileView> {
    found.filter(|f: WallpaperFileView| is_wallpaper_path(f.path))
}

/// The wallpapers among `found`, the most recently modified first; files
/// modified at the same time keep their order.
pub open spec fn listed(found: Seq<WallpaperFileView>) -> Seq<WallpaperFileView> {
    let kept = wallpapers_among(found);
    reordered(
        kept,
        positions_in_order(
            by_largest(kept.map_values(|f: WallpaperFileView| listing_key(f))),
            kept.len() as int,
        ),
    )
}

/// Lists the wallpapers among the files found in the wallpaper directory,
/// the most recently modified first.
pub fn list_wallpapers(found: &Vec<WallpaperFile>) -> (out: Vec<WallpaperFile>)
    ensures
        out.deep_view() == listed(found.deep_view()),
{
    let ghost all = found.deep_view();
    let ghost wanted = |f: WallpaperFileView| is_wallpaper_path(f.path);
    let mut kept: Vec<WallpaperFile> = Vec::new();
    let mut keys: Vec<u128> = Vec::new();
    let mut i: usize = 0;
    proof {
        reveal(Seq::filter);
        assert(all.take(0).filter(wanted) =~= Seq::<WallpaperFileView>::empty());
        assert(kept.deep_view() =~= Seq::<WallpaperFileView>::empty());
    }
    while i < found.len()
        invariant
            i <= found@.len(),
            all == found.deep_view(),
            wanted == (|f: WallpaperFileView| is_wallpaper_path(f.path)),
            kept.deep_view() == all.take(i as int).filter(wanted),
            keys@.len() == kept@.len(),
            forall|k: int| 0 <= k < keys@.len() ==> keys@[k] == listing_key(kept@[k].deep_view()),
        decreases found@.len() - i,
    {
        let ghost before = kept.deep_view();
        proof {
            reveal(Seq::filter);
            assert(all.take(i + 1).drop_last() =~= all.take(i as int));
            assert(all.take(i + 1).last() == found@[i as int].deep_view());
        }
        if has_supported_extension(found[i].path.as_str()) {
            kept.push(found[i].clone());
            keys.push(
                match found[i].modified_ms {
                    Some(ms) => ms,
                    None => 0,
                },
            );
            assert(kept.deep_view() =~= before.push(found@[i as int].deep_view()));
        }
        i += 1;
    }
    assert(all.take(found@.len() as int) =~= all);
    let ghost kept_view = kept.deep_view();
    assert(keys@ =~= kept_view.map_values(|f: WallpaperFileView| listing_key(f)));
    let order = largest_first_order(&keys);
    let ghost perm = order@.map_values(|p: usize| p as int);
    proof {
        lemma_by_largest_strict_total(keys@, keys@.len() as int);
        lemma_sorted_positions_exist(by_largest(keys@), keys@.len() as int);
    }
    let mut out: Vec<WallpaperFile> = Vec::new();
    let mut j: usize = 0;
    while j < order.len()
        invariant
            j <= order@.len(),
            order@.len() == kept@.len(),
            perm == order@.map_values(|p: usize| p as int),
            kept_view == kept.deep_view(),
            sorted_positions(perm, by_largest(keys@), kept@.len() as int),
            out@.len() == j,
            forall|k: int| 0 <= k < j ==> out@[k].deep_view() == kept_view[perm[k]],
        decreases order@.len() - j,
    {
        assert(perm[j as int] == order@[j as int] as int);
        assert(0 <= perm[j as int] < kept@.len());
        out.push(kept[order[j]].clone());
        j += 1;
    }
    assert(out.deep_view() =~= reordered(kept_view, perm));
    out
}

/// `s` without every `prefix` that it begins with, one after the other.
pub open spec fn without_leading(s: Seq<char>, prefix: Seq<char>, from: int) -> Seq<char>
    decreases s.len() - from,
{
    if prefix.len() > 0 && 0 <= from && occurs_at(s, prefix, from) {
        without_leading(s, prefix, from + prefix.len())
    } else if 0 <= from <= s.len() {
        s.subrange(from, s.len() as int)
    } else {
        Seq::empty()
    }
}

/// The path of the file to import, as the interface names it: without the
/// white space around it, without a leading `file://`, and with a space for
/// every `%20`.
pub open spec fn import_source_of(raw: Seq<char>) -> Seq<char> {
    replaced(without_leading(trimmed_text(raw), "file://"@, 0), "%20"@, " "@, 0)
}

/// The path of the file to import, as the interface names it.
pub fn import_source_path(raw: &str) -> (out: String)
    ensures
        out@ == import_source_of(raw@),
{
    let bare = trim(raw);
    let chars = chars_of(bare.as_str());
    let scheme = chars_of("file://");
    proof {
        reveal_strlit("file://");
        reveal_strlit("%20");
    }
    let total = chars.len();
    let mut from: usize = 0;
    while matches_at(&chars, &scheme, from)
        invariant
            from <= chars@.len() == total,
            scheme@ == "file://"@,
            scheme@.len() == 7,
            without_leading(chars@, scheme@, 0) == without_leading(chars@, scheme@, from as int),
        decreases chars@.len() - from,
    {
        from = from + scheme.len();
    }
    let rest = bare.as_str().substring_char(from, chars.len());
    replace(rest, "%20", " ")
}

/// The first ten characters of `hex`, or all of it where it has fewer.
pub open spec fn short_hash_of(hex: Seq<char>) -> Seq<char> {
    if hex.len() >= 10 {
        hex.subrange(0, 10)
    } else {
        hex
    }
}

/// The first ten characters of `hex`, or all of it where it has fewer.
pub fn short_hash(hex: &str) -> (out: String)
    ensures
        out@ == short_hash_of(hex@),
{
    let n = hex.unicode_len();
    if n >= 10 {
        hex.substring_char(0, 10).to_string()
    } else {
        hex.to_string()
    }
}

/// What is hashed to name an imported file: the path of the source, the
/// time of its last modification and its size, joined by colons.
pub open spec fn import_key_of(source: Seq<char>, modified_ms: u128, size: u64) -> Seq<char> {
    source + ":"@ + decimal_of(modified_ms as nat) + ":"@ + decimal_of(size as nat)
}

/// What is hashed to name an imported file.
pub fn import_key(source: &str, modified_ms: u128, size: u64) -> (out: String)
    ensures
        out@ == import_key_of(source@, modified_ms, size),
{
    let mut out = source.to_string();
    out.append(":");
    out.append(decimal(modified_ms).as_str());
    out.append(":");
    out.append(decimal(size as u128).as_str());
    out
}

/// The name of an imported file, given the hash of its import key: the time
/// of the import, the beginning of the hash, and the extension.
pub open spec fn file_name_for(now_ms: u128, hex: Seq<char>, ext: Seq<char>) -> Seq<char> {
    "wallpaper_"@ + decimal_of(now_ms as nat) + "_"@ + short_hash_of(hex) + "."@ + ext
}

/// The name of an imported file, given the hash of its import key.
pub fn file_name_from_hash(now_ms: u128, hex: &str, ext: &str) -> (out: String)
    ensures
        out@ == file_name_for(now_ms, hex@, ext@),
{
    let mut out = "wallpaper_".to_string();
    out.append(decimal(now_ms).as_str());
    out.append("_");
    out.append(short_hash(hex).as_str());
    out.append(".");
    out.append(ext);
    out
}

/// The extension under which a source file is imported: its own, in lower
/// case, or the empty one where it has none.
pub open spec fn import_extension_of(source: Seq<char>) -> Seq<char> {
    match extension_of(source) {
        Some(ext) => ascii_lowercase(ext),
        None => Seq::empty(),
    }
}

/// The extension under which a source file is imported.
pub fn import_extension(source: &str) -> (out: String)
    ensures
        out@ == import_extension_of(source@),
{
    let chars = chars_of(source);
    match stem_and_extension_spans(&chars) {
        Some((_, Some((from, to)))) => to_ascii_lowercase(source.substring_char(from, to)),
        _ => String::new(),
    }
}

/// Why a file is not imported.
#[derive(Debug, PartialEq, Eq, Clone, Copy)]
pub enum ImportError {
    /// The source does not exist or is no file.
    NotAFile,
    /// The source has no extension of a supported image format.
    UnsupportedFormat,
}

/// The message that goes with an `ImportError`.
pub open spec fn import_message(error: ImportError) -> Seq<char> {
    match error {
        ImportError::NotAFile => "源文件不存在或不是文件（请确认选择的是本地图片文件）"@,
        ImportError::UnsupportedFormat => "不支持的图片格式（支持 PNG/JPG/JPEG/WebP/GIF）"@,
    }
}

/// Whether the source may be imported, given whether it is a file: its
/// extension if so, and why not otherwise.
pub open spec fn import_check_of(source: Seq<char>, is_file: bool) -> Result<
    Seq<char>,
    ImportError,
> {
    if !is_file {
        Err(ImportError::NotAFile)
    } else if !supported_image_ext(import_extension_of(source)) {
        Err(ImportError::UnsupportedFormat)
    } else {
        Ok(import_extension_of(source))
    }
}

/// Checks whether the source may be imported, given whether it is a file.
/// Returns the extension to import it under, or the message that says why
/// it is not imported.
pub fn check_import_source(source: &str, is_file: bool) -> (out: Result<String, String>)
    ensures
        match import_check_of(source@, is_file) {
            Ok(ext) => out matches Ok(found) && found@ == ext,
            Err(error) => out matches Err(message) && message@ == import_message(error),
        },
{
    if !is_file {
        return Err("源文件不存在或不是文件（请确认选择的是本地图片文件）".to_string());
    }
    let ext = import_extension(source);
    if !is_supported_image_ext(ext.as_str()) {
        return Err("不支持的图片格式（支持 PNG/JPG/JPEG/WebP/GIF）".to_string());
    }
    Ok(ext)
}

/// The digest that names an imported file: that of its import key. A time
/// of modification that is not known counts as 0.
pub open spec fn import_digest_of(source: Seq<char>, modified_ms: Option<u128>, size: u64) -> Seq<
    char,
> {
    md5_hex(
        encode_utf8(
            import_key_of(
                source,
                match modified_ms {
                    Some(ms) => ms,
                    None => 0,
                },
                size,
            ),
        ),
    )
}

/// The name under which a source file is imported at the time `now_ms`: it
/// holds that time and the first ten hexadecimal digits of the digest of the
/// import key, and ends in `ext`.
pub fn import_wallpaper(
    source: &str,
    ext: &str,
    modified_ms: Option<u128>,
    size: u64,
    now_ms: u128,
) -> (out: String)
    ensures
        out@ == file_name_for(now_ms, import_digest_of(source@, modified_ms, size), ext@),
        ({
            let digits = import_digest_of(source@, modified_ms, size).subrange(0, 10);
            &&& out@ == "wallpaper_"@ + decimal_of(now_ms as nat) + "_"@ + digits + "."@ + ext@
            &&& digits.len() == 10
            &&& forall|i: int| 0 <= i < 10 ==> lower_hex_digit(#[trigger] digits[i])
        }),
{
    let modified = match modified_ms {
        Some(ms) => ms,
        None => 0,
    };
    let key = import_key(source, modified, size);
    let hex = md5_hex_of(key.as_str().as_bytes());
    proof {
        let digits = hex@.subrange(0, 10);
        assert forall|i: int| 0 <= i < 10 implies lower_hex_digit(#[trigger] digits[i]) by {
            assert(digits[i] == hex@[i]);
        }
    }
    file_name_from_hash(now_ms, hex.as_str(), ext)
}

} // verus!
