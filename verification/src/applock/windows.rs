use vstd::prelude::*;
use crate::applock::app_info::{AppInfo, AppInfoView};
use crate::applock::identifier::{AppIdentifier, IdentifierView};
use crate::applock::paths::{extension_of, file_stem_of, path_extension, path_file_stem};
use crate::model::text::same_text;

verus! {

/// The entry for a Start menu shortcut at `lnk_path` whose link target is `target`
/// (none where the shortcut names no target): only a target whose extension is `exe`
/// counts; the entry is named after the shortcut's file name without extension, or
/// `Unknown`.
pub open spec fn shortcut_app(lnk_path: Seq<char>, target: Option<Seq<char>>) -> Option<AppInfoView> {
    shortcut_app_parts(
        target,
        match target {
            Some(t) => path_extension(t),
            None => None,
        },
        path_file_stem(lnk_path),
    )
}

/// The entry for a shortcut from its target, the target's extension and the
/// shortcut's file name without extension (see `shortcut_app`).
pub open spec fn shortcut_app_parts(
    target: Option<Seq<char>>,
    extension: Option<Seq<char>>,
    stem: Option<Seq<char>>,
) -> Option<AppInfoView> {
    match target {
        None => None,
        Some(t) => {
            if extension != Some("exe"@) {
                None
            } else {
                let name = match stem {
                    Some(s) => s,
                    None => "Unknown"@,
                };
                Some(AppInfoView { identifier: IdentifierView::Path(t), display_name: name })
            }
        },
    }
}

/// Reads a Start menu shortcut (see `shortcut_app`).
pub fn parse_lnk_shortcut(lnk_path: &str, target: Option<String>) -> (r: Option<AppInfo>)
    ensures
        match r {
            Some(a) => shortcut_app(lnk_path@, target.deep_view()) == Some(a@),
            None => shortcut_app(lnk_path@, target.deep_view()) is None,
        },
{
    let extension = match &target {
        Some(t) => extension_of(t.as_str()),
        None => None,
    };
    let stem = file_stem_of(lnk_path);
    app_from_shortcut(target, extension, stem)
}

/// The entry for a shortcut from its parts (see `shortcut_app_parts`).
pub fn app_from_shortcut(target: Option<String>, extension: Option<String>, stem: Option<String>) -> (r: Option<AppInfo>)
    ensures
        match r {
            Some(a) => shortcut_app_parts(target.deep_view(), extension.deep_view(), stem.deep_view()) == Some(a@),
            None => shortcut_app_parts(target.deep_view(), extension.deep_view(), stem.deep_view()) is None,
        },
{
    let target_path = match target {
        Some(t) => t,
        None => return None,
    };
    let is_exe = match extension {
        Some(ext) => same_text(ext.as_str(), "exe"),
        None => false,
    };
    if !is_exe {
        return None;
    }
    let display_name = match stem {
        Some(s) => s,
        None => "Unknown".to_owned(),
    };
    Some(AppInfo::new(AppIdentifier::Path(target_path), display_name))
}

/// A Start menu shortcut found on disk: its path, and the target it links to, where
/// it names one.
#[derive(Clone, Debug)]
pub struct Shortcut {
    pub path: String,
    pub target: Option<String>,
}

/// The installed applications, from the shortcuts found in the Start menu folders in
/// order: one entry per shortcut to an `exe`.
pub open spec fn shortcut_apps(links: Seq<(Seq<char>, Option<Seq<char>>)>) -> Seq<AppInfoView>
    decreases links.len(),
{
    if links.len() == 0 {
        Seq::empty()
    } else {
        let rest = shortcut_apps(links.drop_last());
        match shortcut_app(links.last().0, links.last().1) {
            Some(a) => rest.push(a),
            None => rest,
        }
    }
}

pub open spec fn shortcuts_view(links: Seq<Shortcut>) -> Seq<(Seq<char>, Option<Seq<char>>)> {
    links.map_values(|l: Shortcut| (l.path@, l.target.deep_view()))
}

/// The installed applications (see `shortcut_apps`).
pub fn get_installed_apps(links: Vec<Shortcut>) -> (apps: Vec<AppInfo>)
    ensures
        apps@.map_values(|a: AppInfo| a@) == shortcut_apps(shortcuts_view(links@)),
{
    let ghost all = shortcuts_view(links@);
    let mut apps: Vec<AppInfo> = Vec::new();
    let mut i: usize = 0;
    assert(all.take(0) =~= Seq::<(Seq<char>, Option<Seq<char>>)>::empty());
    assert(apps@.map_values(|a: AppInfo| a@) =~= Seq::<AppInfoView>::empty());
    while i < links.len()
        invariant
            i <= links.len(),
            all == shortcuts_view(links@),
            apps@.map_values(|a: AppInfo| a@) == shortcut_apps(all.take(i as int)),
        decreases links.len() - i,
    {
        let link = &links[i];
        assert(all.take(i + 1).drop_last() =~= all.take(i as int));
        assert(all.take(i + 1).last() == all[i as int]);
        let ghost before = apps@;
        match parse_lnk_shortcut(link.path.as_str(), link.target.clone()) {
            Some(app) => {
                apps.push(app);
                assert(apps@.map_values(|a: AppInfo| a@) =~= before.map_values(|a: AppInfo| a@).push(app@));
            },
            None => {},
        }
        i = i + 1;
    }
    assert(all.take(i as int) =~= all);
    apps
}

} // verus!
