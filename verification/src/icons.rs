//! Icons of applications: where an icon is cached, how it is handed to the
//! interface, and the program that exports it.

use vstd::prelude::*;
use crate::digest::{base64_fits, base64_standard, base64_standard_of, md5_hex, md5_hex_of};
use crate::text::{replace, replaced};
use vstd::string::{StringExecFns, StringSliceAdditionalSpecFns};

verus! {

/// The name of the file that caches an icon, given the digest of the path of
/// its application.
pub fn cache_file_name_for(digest: &str) -> (out: String)
    ensures
        out@ == digest@ + ".png"@,
{
    let mut out = digest.to_string();
    out.append(".png");
    out
}

/// The name of the file that caches the icon of the application at
/// `app_path`: the 32 digits of the digest of the path, with the extension
/// `png`.
pub fn icon_cache_file_name(app_path: &str) -> (out: String)
    ensures
        out@ == md5_hex(app_path.spec_bytes()) + ".png"@,
        out@.len() == 36,
{
    proof {
        reveal_strlit(".png");
    }
    let digest = md5_hex_of(app_path.as_bytes());
    cache_file_name_for(digest.as_str())
}

/// The data URL of a PNG image, given its Base64 encoding.
pub fn data_url_for(encoded: &str) -> (out: String)
    ensures
        out@ == "data:image/png;base64,"@ + encoded@,
{
    let mut out = "data:image/png;base64,".to_string();
    out.append(encoded);
    out
}

/// The data URL of the PNG image `data`; nothing where the image is too
/// large for its encoding to fit the machine.
pub fn icon_data_url(data: &[u8]) -> (out: Option<String>)
    ensures
        match out {
            Some(url) => base64_fits(data@.len()) && url@ == "data:image/png;base64,"@
                + base64_standard(data@),
            None => !base64_fits(data@.len()),
        },
{
    let most: usize = (isize::MAX as usize - 4) / 4;
    if data.len() / 3 > most {
        return None;
    }
    let encoded = base64_standard_of(data);
    Some(data_url_for(encoded.as_str()))
}

/// `s` with a backslash before each double quote.
pub open spec fn quoted(s: Seq<char>) -> Seq<char> {
    replaced(s, "\""@, "\\\""@, 0)
}

/// The program that exports the icon of the application at `app_path` as a
/// PNG file at `cache_path`.
pub open spec fn export_script_of(app_path: Seq<char>, cache_path: Seq<char>) -> Seq<char> {
    "import AppKit; let img = NSWorkspace.shared.icon(forFile: \""@ + quoted(app_path)
        + "\"); img.size = NSSize(width: 128, height: 128); guard let tiff = img.tiffRepresentation, let bitmap = NSBitmapImageRep(data: tiff), let data = bitmap.representation(using: .png, properties: [:]) else { exit(1) }; try! data.write(to: URL(fileURLWithPath: \""@
        + quoted(cache_path) + "\"))"@
}

/// The program that exports the icon of the application at `app_path` as a
/// PNG file at `cache_path`.
pub fn icon_export_script(app_path: &str, cache_path: &str) -> (out: String)
    ensures
        out@ == export_script_of(app_path@, cache_path@),
{
    proof {
        reveal_strlit("\"");
    }
    let app = replace(app_path, "\"", "\\\"");
    let cache = replace(cache_path, "\"", "\\\"");
    let mut out = "import AppKit; let img = NSWorkspace.shared.icon(forFile: \"".to_string();
    out.append(app.as_str());
    out.append(
        "\"); img.size = NSSize(width: 128, height: 128); guard let tiff = img.tiffRepresentation, let bitmap = NSBitmapImageRep(data: tiff), let data = bitmap.representation(using: .png, properties: [:]) else { exit(1) }; try! data.write(to: URL(fileURLWithPath: \"",
    );
    out.append(cache.as_str());
    out.append("\"))");
    out
}

} // verus!
