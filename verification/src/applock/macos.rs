use vstd::prelude::*;
use crate::applock::app_info::{AppInfo, AppInfoView};
use crate::applock::identifier::{AppIdentifier, IdentifierView};
use crate::model::text::{char_count, ends_with, has_suffix, text_before, strings_view};
use crate::applock::paths::{join_path, path_join};

verus! {

/// How a key of a property list's root dictionary reads as text.
#[derive(Clone, Debug)]
pub enum PlistText {
    /// The dictionary has no such key.
    Missing,
    /// The key holds something other than a string.
    Other,
    /// The key holds this string.
    Text(String),
}

/// The mathematical model of a `PlistText`.
pub enum PlistTextView {
    Missing,
    Other,
    Text(Seq<char>),
}

impl View for PlistText {
    type V = PlistTextView;

    open spec fn view(&self) -> PlistTextView {
        match self {
            PlistText::Missing => PlistTextView::Missing,
            PlistText::Other => PlistTextView::Other,
            PlistText::Text(s) => PlistTextView::Text(s@),
        }
    }
}

impl DeepView for PlistText {
    type V = PlistTextView;

    open spec fn deep_view(&self) -> PlistTextView {
        self@
    }
}

/// How `key` reads in the root dictionary of the property list encoded in `data`;
/// none where `data` does not decode or its root is not a dictionary.
pub uninterp spec fn plist_entry(data: Seq<u8>, key: Seq<char>) -> Option<PlistTextView>;

/// `plist::from_bytes` into a `plist::Value`, then `Value::as_dictionary`,
/// `Dictionary::get(key)` and `Value::as_string`: the contract names the result
/// `plist_entry`.
#[verifier::external_body]
fn read_plist_entry(data: &[u8], key: &str) -> (r: Option<PlistText>)
    ensures
        r.deep_view() == plist_entry(data@, key@),
{
    let value: plist::Value = plist::from_bytes(data).ok()?;
    let found = value.as_dictionary()?.get(key);
    Some(match found {
        None => PlistText::Missing,
        Some(v) => match v.as_string() {
            Some(s) => PlistText::Text(s.to_string()),
            None => PlistText::Other,
        },
    })
}

/// A bundle directory's name without its `.app` suffix.
pub open spec fn bundle_title(dir_name: Seq<char>) -> Seq<char> {
    if has_suffix(dir_name, ".app"@) {
        dir_name.take(dir_name.len() - ".app"@.len())
    } else {
        dir_name
    }
}

fn strip_app_suffix(dir_name: &str) -> (r: String)
    ensures
        r@ == bundle_title(dir_name@),
{
    if ends_with(dir_name, ".app") {
        let n = char_count(dir_name) - char_count(".app");
        text_before(dir_name, n)
    } else {
        dir_name.to_owned()
    }
}

/// The entry that an `Info.plist` gives for the bundle in directory `dir_name`: the
/// bundle identifier, and the display name, else the bundle name, else the directory
/// name without `.app`. None where the property list does not decode, its root is not
/// a dictionary, or it has no string `CFBundleIdentifier`.
pub open spec fn info_plist_app(data: Seq<u8>, dir_name: Seq<char>) -> Option<AppInfoView> {
    plist_app(
        plist_entry(data, "CFBundleIdentifier"@),
        plist_entry(data, "CFBundleDisplayName"@),
        plist_entry(data, "CFBundleName"@),
        dir_name,
    )
}

/// The entry from the reads of `CFBundleIdentifier`, `CFBundleDisplayName` and
/// `CFBundleName` (none where the property list did not decode or its root is not a
/// dictionary): see `info_plist_app`.
pub open spec fn plist_app(
    identifier: Option<PlistTextView>,
    display_name: Option<PlistTextView>,
    bundle_name: Option<PlistTextView>,
    dir_name: Seq<char>,
) -> Option<AppInfoView> {
    match identifier {
        Some(PlistTextView::Text(id)) => {
            let name = match display_name {
                Some(PlistTextView::Text(n)) => n,
                Some(PlistTextView::Missing) => match bundle_name {
                    Some(PlistTextView::Text(n)) => n,
                    _ => bundle_title(dir_name),
                },
                _ => bundle_title(dir_name),
            };
            Some(AppInfoView { identifier: IdentifierView::BundleId(id), display_name: name })
        },
        _ => None,
    }
}

/// Reads an application bundle's `Info.plist` (see `info_plist_app`).
pub fn parse_info_plist(data: &[u8], dir_name: &str) -> (r: Option<AppInfo>)
    ensures
        match r {
            Some(a) => info_plist_app(data@, dir_name@) == Some(a@),
            None => info_plist_app(data@, dir_name@) is None,
        },
{
    let identifier = read_plist_entry(data, "CFBundleIdentifier");
    let display_name = read_plist_entry(data, "CFBundleDisplayName");
    let bundle_name = read_plist_entry(data, "CFBundleName");
    app_from_plist(identifier, display_name, bundle_name, dir_name)
}

/// The entry from the reads of an `Info.plist`'s keys (see `plist_app`).
pub fn app_from_plist(
    identifier: Option<PlistText>,
    display_name: Option<PlistText>,
    bundle_name: Option<PlistText>,
    dir_name: &str,
) -> (r: Option<AppInfo>)
    ensures
        match r {
            Some(a) => plist_app(identifier.deep_view(), display_name.deep_view(), bundle_name.deep_view(), dir_name@)
                == Some(a@),
            None => plist_app(identifier.deep_view(), display_name.deep_view(), bundle_name.deep_view(), dir_name@)
                is None,
        },
{
    let bundle_id = match identifier {
        Some(PlistText::Text(s)) => s,
        _ => return None,
    };
    let display_name = match display_name {
        Some(PlistText::Text(n)) => n,
        Some(PlistText::Missing) => match bundle_name {
            Some(PlistText::Text(n)) => n,
            _ => strip_app_suffix(dir_name),
        },
        _ => strip_app_suffix(dir_name),
    };
    Some(AppInfo::new(AppIdentifier::BundleId(bundle_id), display_name))
}

/// The entry of the application bundle in directory `dir_name`, whose `Info.plist`
/// read as `info_plist` (none where it could not be read): the entry the property list
/// gives, else one named after the directory, with that name as its identifier.
pub open spec fn bundle_app(info_plist: Option<Seq<u8>>, dir_name: Seq<char>) -> AppInfoView {
    let fallback = AppInfoView {
        identifier: IdentifierView::BundleId(bundle_title(dir_name)),
        display_name: bundle_title(dir_name),
    };
    match info_plist {
        Some(data) => match info_plist_app(data, dir_name) {
            Some(a) => a,
            None => fallback,
        },
        None => fallback,
    }
}

/// Reads the application bundle in directory `dir_name` (see `bundle_app`).
pub fn parse_app_bundle(info_plist: Option<&[u8]>, dir_name: &str) -> (r: Option<AppInfo>)
    ensures
        r is Some,
        r.unwrap()@ == bundle_app(
            match info_plist {
                Some(d) => Some(d@),
                None => None,
            },
            dir_name@,
        ),
{
    match info_plist {
        Some(data) => {
            match parse_info_plist(data, dir_name) {
                Some(app) => {
                    return Some(app);
                },
                None => {},
            }
        },
        None => {},
    }
    let title = strip_app_suffix(dir_name);
    Some(AppInfo::new(AppIdentifier::BundleId(title.clone()), title))
}

/// A directory found in an applications folder: its name, and its `Info.plist`'s
/// bytes where they could be read.
#[derive(Clone, Debug)]
pub struct BundleDir {
    pub name: String,
    pub info_plist: Option<Vec<u8>>,
}

/// The installed applications, from the directories found in the applications
/// folders in order: one entry per directory whose name ends with `.app`.
pub open spec fn bundle_apps(dirs: Seq<(Seq<char>, Option<Seq<u8>>)>) -> Seq<AppInfoView>
    decreases dirs.len(),
{
    if dirs.len() == 0 {
        Seq::empty()
    } else {
        let rest = bundle_apps(dirs.drop_last());
        let d = dirs.last();
        if has_suffix(d.0, ".app"@) {
            rest.push(bundle_app(d.1, d.0))
        } else {
            rest
        }
    }
}

pub open spec fn bundle_dirs_view(dirs: Seq<BundleDir>) -> Seq<(Seq<char>, Option<Seq<u8>>)> {
    dirs.map_values(|d: BundleDir| (d.name@, match d.info_plist {
        Some(v) => Some(v@),
        None => None,
    }))
}

/// The installed applications (see `bundle_apps`).
pub fn get_installed_apps(dirs: Vec<BundleDir>) -> (apps: Vec<AppInfo>)
    ensures
        apps@.map_values(|a: AppInfo| a@) == bundle_apps(bundle_dirs_view(dirs@)),
{
    let ghost all = bundle_dirs_view(dirs@);
    let mut apps: Vec<AppInfo> = Vec::new();
    let mut i: usize = 0;
    assert(all.take(0) =~= Seq::<(Seq<char>, Option<Seq<u8>>)>::empty());
    assert(apps@.map_values(|a: AppInfo| a@) =~= Seq::<AppInfoView>::empty());
    while i < dirs.len()
        invariant
            i <= dirs.len(),
            all == bundle_dirs_view(dirs@),
            apps@.map_values(|a: AppInfo| a@) == bundle_apps(all.take(i as int)),
        decreases dirs.len() - i,
    {
        let d = &dirs[i];
        assert(all.take(i + 1).drop_last() =~= all.take(i as int));
        assert(all.take(i + 1).last() == all[i as int]);
        let ghost before = apps@;
        if ends_with(d.name.as_str(), ".app") {
            let plist = match &d.info_plist {
                Some(v) => Some(v.as_slice()),
                None => None,
            };
            match parse_app_bundle(plist, d.name.as_str()) {
                Some(app) => {
                    apps.push(app);
                    assert(apps@.map_values(|a: AppInfo| a@) =~= before.map_values(|a: AppInfo| a@).push(app@));
                },
                None => {},
            }
        }
        i = i + 1;
    }
    assert(all.take(i as int) =~= all);
    apps
}


/// The folders that hold application bundles, in the order they are searched: the
/// system's, then the user's `Applications` folder where the home directory is known.
pub open spec fn application_folders(home: Option<Seq<char>>) -> Seq<Seq<char>> {
    let system = seq!["/Applications"@, "/System/Applications"@];
    match home {
        Some(h) => system.push(path_join(h, "Applications"@)),
        None => system,
    }
}

/// The folders that hold application bundles (see `application_folders`).
pub fn get_application_dirs(home: Option<String>) -> (dirs: Vec<String>)
    ensures
        strings_view(dirs@) == application_folders(home.deep_view()),
{
    let mut dirs: Vec<String> = Vec::new();
    let a = "/Applications".to_owned();
    let b = "/System/Applications".to_owned();
    dirs.push(a);
    dirs.push(b);
    match home {
        Some(h) => {
            let user = join_path(h.as_str(), "Applications");
            dirs.push(user);
            assert(strings_view(dirs@) =~= seq![a@, b@, user@]);
        },
        None => {
            assert(strings_view(dirs@) =~= seq![a@, b@]);
        },
    }
    dirs
}

} // verus!
