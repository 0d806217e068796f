//! The persisted record of user-owned metadata, and the changes made to it.
//!
//! The record holds the category that the user gave to each application path,
//! how often each path was launched, the category names that the user defined
//! and the order in which categories are shown. Scripts, the shortcut and the
//! presentation settings live in the same record and are carried along.
//!
//! Every operation here works on a record in memory. Reading the record from
//! its file and writing it back is the caller's part.

use vstd::prelude::*;
use crate::path_map::{PathMap, without_value};
use crate::text::{contains_string, without_string};

verus! {

/// A user-defined shell script.
#[derive(Debug, PartialEq, Eq)]
pub struct ScriptAction {
    pub name: String,
    pub command: String,
    pub cwd: Option<String>,
}

/// The model of a `ScriptAction`.
pub struct ScriptActionView {
    pub name: Seq<char>,
    pub command: Seq<char>,
    pub cwd: Option<Seq<char>>,
}

impl DeepView for ScriptAction {
    type V = ScriptActionView;

    open spec fn deep_view(&self) -> ScriptActionView {
        ScriptActionView {
            name: self.name@,
            command: self.command@,
            cwd: self.cwd.deep_view(),
        }
    }
}

impl View for ScriptAction {
    type V = ScriptActionView;

    open spec fn view(&self) -> ScriptActionView {
        self.deep_view()
    }
}

impl Clone for ScriptAction {
    fn clone(&self) -> (out: Self)
        ensures
            out == *self,
    {
        ScriptAction { name: self.name.clone(), command: self.command.clone(), cwd: self.cwd.clone() }
    }
}

/// A single-precision number of the presentation settings, carried by its
/// IEEE 754 bit pattern. Nothing here computes with it.
#[derive(Clone, Copy, Debug, PartialEq, Eq)]
pub struct Scalar {
    pub bits: u32,
}

/// The persisted record.
pub struct AppConfig {
    /// The category of each application path that has one.
    pub categories: PathMap<String>,
    /// How often each application path was launched.
    pub usage_counts: PathMap<u32>,
    /// The category names that the user defined, in the order of definition.
    pub user_categories: Vec<String>,
    pub shortcut: String,
    pub scripts: Vec<ScriptAction>,
    /// The order in which all categories are shown.
    pub category_order: Vec<String>,
    pub theme: String,
    pub wallpaper: Option<String>,
    pub wallpaper_blur: Scalar,
    pub wallpaper_overlay: Scalar,
    pub wallpaper_fit: String,
    pub wallpaper_position: String,
}

/// The model of an `AppConfig`.
pub struct AppConfigView {
    pub categories: Map<Seq<char>, Seq<char>>,
    pub usage_counts: Map<Seq<char>, u32>,
    pub user_categories: Seq<Seq<char>>,
    pub shortcut: Seq<char>,
    pub scripts: Seq<ScriptActionView>,
    pub category_order: Seq<Seq<char>>,
    pub theme: Seq<char>,
    pub wallpaper: Option<Seq<char>>,
    pub wallpaper_blur: u32,
    pub wallpaper_overlay: u32,
    pub wallpaper_fit: Seq<char>,
    pub wallpaper_position: Seq<char>,
}

impl View for AppConfig {
    type V = AppConfigView;

    open spec fn view(&self) -> AppConfigView {
        AppConfigView {
            categories: self.categories@,
            usage_counts: self.usage_counts@,
            user_categories: self.user_categories.deep_view(),
            shortcut: self.shortcut@,
            scripts: self.scripts.deep_view(),
            category_order: self.category_order.deep_view(),
            theme: self.theme@,
            wallpaper: self.wallpaper.deep_view(),
            wallpaper_blur: self.wallpaper_blur.bits,
            wallpaper_overlay: self.wallpaper_overlay.bits,
            wallpaper_fit: self.wallpaper_fit@,
            wallpaper_position: self.wallpaper_position@,
        }
    }
}

impl AppConfigView {
    /// The category of `path`, if it has one.
    pub open spec fn category_of(self, path: Seq<char>) -> Option<Seq<char>> {
        if self.categories.contains_key(path) {
            Some(self.categories[path])
        } else {
            None
        }
    }

    /// How often `path` was launched; 0 where nothing is recorded.
    pub open spec fn usage_of(self, path: Seq<char>) -> u32 {
        if self.usage_counts.contains_key(path) {
            self.usage_counts[path]
        } else {
            0
        }
    }
}

/// The categories that every record shows, in their order.
pub open spec fn builtin_order() -> Seq<Seq<char>> {
    seq![
        "All"@,
        "Frequent"@,
        "Scripts"@,
        "Development"@,
        "Social"@,
        "Design"@,
        "Productivity"@,
        "User Apps"@,
        "System"@,
    ]
}

/// The bit pattern of 10.0, the blur of a fresh record.
pub const DEFAULT_WALLPAPER_BLUR_BITS: u32 = 0x4120_0000;

/// The bit pattern of 0.4, the overlay of a fresh record.
pub const DEFAULT_WALLPAPER_OVERLAY_BITS: u32 = 0x3ECC_CCCD;

/// The record that stands in where none could be read: the built-in
/// category order, no categories, no usage and no user categories.
pub open spec fn default_config() -> AppConfigView {
    AppConfigView {
        categories: Map::empty(),
        usage_counts: Map::empty(),
        user_categories: Seq::empty(),
        shortcut: "Alt+Space"@,
        scripts: Seq::empty(),
        category_order: builtin_order(),
        theme: "Midnight"@,
        wallpaper: None,
        wallpaper_blur: DEFAULT_WALLPAPER_BLUR_BITS,
        wallpaper_overlay: DEFAULT_WALLPAPER_OVERLAY_BITS,
        wallpaper_fit: "cover"@,
        wallpaper_position: "center"@,
    }
}

/// `base`, followed by the names of `extra` that were not in it yet, each
/// once and in the order of `extra`.
pub open spec fn append_missing(base: Seq<Seq<char>>, extra: Seq<Seq<char>>) -> Seq<Seq<char>>
    decreases extra.len(),
{
    if extra.len() == 0 {
        base
    } else {
        let before = append_missing(base, extra.drop_last());
        if before.contains(extra.last()) {
            before
        } else {
            before.push(extra.last())
        }
    }
}

/// The record after the migration of older records: an empty category order
/// becomes the built-in order followed by the user categories that it lacks.
pub open spec fn migrated(c: AppConfigView) -> AppConfigView {
    if c.category_order.len() == 0 {
        AppConfigView { category_order: append_missing(builtin_order(), c.user_categories), ..c }
    } else {
        c
    }
}

/// The record with `name` among the user categories.
pub open spec fn with_user_category(c: AppConfigView, name: Seq<char>) -> AppConfigView {
    if c.user_categories.contains(name) {
        c
    } else {
        AppConfigView { user_categories: c.user_categories.push(name), ..c }
    }
}

/// The record without the user category `name`: it leaves the user
/// categories, and every path that had it has no category any more.
pub open spec fn without_user_category(c: AppConfigView, name: Seq<char>) -> AppConfigView {
    AppConfigView {
        user_categories: c.user_categories.filter(|x: Seq<char>| x != name),
        categories: without_value(c.categories, name),
        ..c
    }
}

/// The record in which `path` has the category `category`.
pub open spec fn with_app_category(
    c: AppConfigView,
    path: Seq<char>,
    category: Seq<char>,
) -> AppConfigView {
    AppConfigView { categories: c.categories.insert(path, category), ..c }
}

/// The record after one more launch of `path`.
pub open spec fn with_usage_recorded(c: AppConfigView, path: Seq<char>) -> AppConfigView {
    AppConfigView {
        usage_counts: c.usage_counts.insert(path, (c.usage_of(path) + 1) as u32),
        ..c
    }
}

/// The theme of a fresh record.
pub fn default_theme() -> (out: String)
    ensures
        out@ == "Midnight"@,
{
    "Midnight".to_string()
}

/// The wallpaper blur of a fresh record.
pub fn default_wallpaper_blur() -> (out: Scalar)
    ensures
        out.bits == DEFAULT_WALLPAPER_BLUR_BITS,
{
    Scalar { bits: DEFAULT_WALLPAPER_BLUR_BITS }
}

/// The wallpaper overlay of a fresh record.
pub fn default_wallpaper_overlay() -> (out: Scalar)
    ensures
        out.bits == DEFAULT_WALLPAPER_OVERLAY_BITS,
{
    Scalar { bits: DEFAULT_WALLPAPER_OVERLAY_BITS }
}

/// How the wallpaper of a fresh record is fitted.
pub fn default_wallpaper_fit() -> (out: String)
    ensures
        out@ == "cover"@,
{
    "cover".to_string()
}

/// Where the wallpaper of a fresh record is placed.
pub fn default_wallpaper_position() -> (out: String)
    ensures
        out@ == "center"@,
{
    "center".to_string()
}

/// The built-in category order.
pub fn default_category_order() -> (out: Vec<String>)
    ensures
        out.deep_view() == builtin_order(),
{
    let mut out: Vec<String> = Vec::new();
    out.push("All".to_string());
    out.push("Frequent".to_string());
    out.push("Scripts".to_string());
    out.push("Development".to_string());
    out.push("Social".to_string());
    out.push("Design".to_string());
    out.push("Productivity".to_string());
    out.push("User Apps".to_string());
    out.push("System".to_string());
    assert(out.deep_view() =~= builtin_order());
    out
}

impl Default for AppConfig {
    fn default() -> (out: Self)
        ensures
            out@ == default_config(),
    {
        let user_categories: Vec<String> = Vec::new();
        assert(user_categories.deep_view() =~= Seq::<Seq<char>>::empty());
        let scripts: Vec<ScriptAction> = Vec::new();
        assert(scripts.deep_view() =~= Seq::<ScriptActionView>::empty());
        AppConfig {
            categories: PathMap::new(),
            usage_counts: PathMap::new(),
            user_categories,
            shortcut: "Alt+Space".to_string(),
            scripts,
            category_order: default_category_order(),
            theme: default_theme(),
            wallpaper: None,
            wallpaper_blur: default_wallpaper_blur(),
            wallpaper_overlay: default_wallpaper_overlay(),
            wallpaper_fit: default_wallpaper_fit(),
            wallpaper_position: default_wallpaper_position(),
        }
    }
}

/// Fills an empty category order with the built-in order and the user
/// categories that it lacks; leaves any other record as it is.
pub fn migrate_category_order(config: &mut AppConfig)
    ensures
        final(config)@ == migrated(old(config)@),
{
    if config.category_order.len() == 0 {
        let mut order = default_category_order();
        let ghost user = config.user_categories.deep_view();
        let mut i: usize = 0;
        assert(user.take(0) =~= Seq::<Seq<char>>::empty());
        while i < config.user_categories.len()
            invariant
                i <= config.user_categories@.len(),
                user == config.user_categories.deep_view(),
                *config == *old(config),
                order.deep_view() == append_missing(builtin_order(), user.take(i as int)),
            decreases config.user_categories@.len() - i,
        {
            let ghost before = order.deep_view();
            proof {
                assert(user.take(i + 1).drop_last() =~= user.take(i as int));
                assert(user.take(i + 1).last() == config.user_categories@[i as int]@);
            }
            if !contains_string(&order, &config.user_categories[i]) {
                order.push(config.user_categories[i].clone());
                assert(order.deep_view() =~= before.push(config.user_categories@[i as int]@));
            }
            i += 1;
        }
        assert(user.take(user.len() as int) =~= user);
        config.category_order = order;
    } else {
        assert(config.category_order.deep_view().len() == config.category_order@.len());
    }
}

/// The record to work with, given what could be read: the record that was
/// parsed, or the default record where there was none, after the migration.
pub fn load_config(parsed: Option<AppConfig>) -> (out: AppConfig)
    ensures
        out@ == migrated(
            match parsed {
                Some(c) => c@,
                None => default_config(),
            },
        ),
{
    let mut config = match parsed {
        Some(c) => c,
        None => AppConfig::default(),
    };
    migrate_category_order(&mut config);
    config
}

/// Adds `category` to the user categories unless it is one already. Returns
/// whether the record changed.
pub fn add_category(config: &mut AppConfig, category: String) -> (added: bool)
    ensures
        final(config)@ == with_user_category(old(config)@, category@),
        added == !old(config)@.user_categories.contains(category@),
{
    if contains_string(&config.user_categories, &category) {
        false
    } else {
        let ghost before = config.user_categories.deep_view();
        config.user_categories.push(category);
        assert(config.user_categories.deep_view() =~= before.push(category@));
        true
    }
}

/// Removes `category` from the user categories and from every path that had
/// it.
pub fn remove_category(config: &mut AppConfig, category: String)
    ensures
        final(config)@ == without_user_category(old(config)@, category@),
{
    let kept = without_string(&config.user_categories, &category);
    config.user_categories = kept;
    config.categories.remove_value(&category);
}

/// Gives `path` the category `category`, whatever it had before.
pub fn update_app_category(config: &mut AppConfig, path: String, category: String)
    ensures
        final(config)@ == with_app_category(old(config)@, path@, category@),
{
    config.categories.insert(path, category);
}

/// How often `path` was launched according to `config`.
pub fn usage_count(config: &AppConfig, path: &String) -> (out: u32)
    ensures
        out == config@.usage_of(path@),
{
    match config.usage_counts.get(path) {
        Some(n) => *n,
        None => 0,
    }
}

/// The category of `path` according to `config`.
pub fn category(config: &AppConfig, path: &String) -> (out: Option<String>)
    ensures
        out.deep_view() == config@.category_of(path@),
{
    match config.categories.get(path) {
        Some(c) => Some(c.clone()),
        None => None,
    }
}

/// Counts one more launch of `path`.
pub fn record_usage(config: &mut AppConfig, path: String)
    requires
        old(config)@.usage_of(path@) < u32::MAX,
    ensures
        final(config)@ == with_usage_recorded(old(config)@, path@),
{
    let count = usage_count(config, &path);
    config.usage_counts.insert(path, count + 1);
}

/// Sets the shortcut of the record.
pub fn update_shortcut(config: &mut AppConfig, shortcut: String)
    ensures
        final(config)@ == (AppConfigView { shortcut: shortcut@, ..old(config)@ }),
{
    config.shortcut = shortcut;
}

/// The scripts of `scripts` whose name is neither `first` nor `second`, in
/// their order.
pub fn scripts_without(scripts: &Vec<ScriptAction>, first: &String, second: &String) -> (out: Vec<
    ScriptAction,
>)
    ensures
        out.deep_view() == scripts.deep_view().filter(
            |s: ScriptActionView| s.name != first@ && s.name != second@,
        ),
{
    let ghost keep = |s: ScriptActionView| s.name != first@ && s.name != second@;
    let ghost all = scripts.deep_view();
    let mut out: Vec<ScriptAction> = Vec::new();
    let mut i: usize = 0;
    proof {
        reveal(Seq::filter);
        assert(all.take(0).filter(keep) =~= Seq::<ScriptActionView>::empty());
        assert(out.deep_view() =~= Seq::<ScriptActionView>::empty());
    }
    while i < scripts.len()
        invariant
            i <= scripts@.len(),
            all == scripts.deep_view(),
            keep == (|s: ScriptActionView| s.name != first@ && s.name != second@),
            out.deep_view() == all.take(i as int).filter(keep),
        decreases scripts@.len() - i,
    {
        let ghost before = out.deep_view();
        proof {
            reveal(Seq::filter);
            assert(all.take(i + 1).drop_last() =~= all.take(i as int));
            assert(all.take(i + 1).last() == scripts@[i as int].deep_view());
        }
        if scripts[i].name != *first && scripts[i].name != *second {
            out.push(scripts[i].clone());
            assert(out.deep_view() =~= before.push(scripts@[i as int].deep_view()));
        }
        i += 1;
    }
    assert(all.take(scripts@.len() as int) =~= all);
    out
}

/// Appends a script to the record.
pub fn add_script(config: &mut AppConfig, name: String, command: String, cwd: Option<String>)
    ensures
        final(config)@ == (AppConfigView {
            scripts: old(config)@.scripts.push(
                ScriptActionView { name: name@, command: command@, cwd: cwd.deep_view() },
            ),
            ..old(config)@
        }),
{
    let ghost before = config.scripts.deep_view();
    let script = ScriptAction { name, command, cwd };
    let ghost added = script.deep_view();
    config.scripts.push(script);
    assert(config.scripts.deep_view() =~= before.push(added));
}

/// Removes every script called `name` from the record.
pub fn remove_script(config: &mut AppConfig, name: String)
    ensures
        final(config)@ == (AppConfigView {
            scripts: old(config)@.scripts.filter(|s: ScriptActionView| s.name != name@),
            ..old(config)@
        }),
{
    let kept = scripts_without(&config.scripts, &name, &name);
    proof {
        let a = |s: ScriptActionView| s.name != name@ && s.name != name@;
        let b = |s: ScriptActionView| s.name != name@;
        assert(a =~= b);
    }
    config.scripts = kept;
}

/// Replaces the script called `original_name` by the given one: every script
/// with the old or the new name leaves the record, and the new script is
/// appended.
pub fn update_script(
    config: &mut AppConfig,
    original_name: String,
    name: String,
    command: String,
    cwd: Option<String>,
)
    ensures
        final(config)@ == (AppConfigView {
            scripts: old(config)@.scripts.filter(
                |s: ScriptActionView| s.name != original_name@ && s.name != name@,
            ).push(ScriptActionView { name: name@, command: command@, cwd: cwd.deep_view() }),
            ..old(config)@
        }),
{
    let mut kept = scripts_without(&config.scripts, &original_name, &name);
    let ghost before = kept.deep_view();
    let script = ScriptAction { name, command, cwd };
    let ghost added = script.deep_view();
    kept.push(script);
    assert(kept.deep_view() =~= before.push(added));
    config.scripts = kept;
}

} // verus!
