use vstd::prelude::*;
use crate::applock::identifier::{AppIdentifier, IdentifierView, entered_identifier, same_app};
use crate::records::RecordId;

verus! {

/// An installed application: how it is recognised, and the name shown to the user.
#[derive(Clone, Debug)]
pub struct AppInfo {
    pub identifier: AppIdentifier,
    pub display_name: String,
}

/// The mathematical model of an application entry.
pub struct AppInfoView {
    pub identifier: IdentifierView,
    pub display_name: Seq<char>,
}

impl View for AppInfo {
    type V = AppInfoView;

    open spec fn view(&self) -> AppInfoView {
        AppInfoView { identifier: self.identifier@, display_name: self.display_name@ }
    }
}

impl AppInfo {
    pub fn new(identifier: AppIdentifier, display_name: String) -> (r: AppInfo)
        ensures
            r.identifier == identifier,
            r.display_name == display_name,
    {
        AppInfo { identifier, display_name }
    }

    /// An identical copy of this entry.
    pub fn duplicate(&self) -> (r: AppInfo)
        ensures
            r@ == self@,
    {
        AppInfo { identifier: self.identifier.duplicate(), display_name: self.display_name.clone() }
    }
}

/// Whether some entry of `apps` names the same application as `id` (checked in that
/// direction: the entry first).
pub open spec fn covers(apps: Seq<AppInfoView>, id: IdentifierView) -> bool {
    exists|k: int| 0 <= k < apps.len() && same_app(#[trigger] apps[k].identifier, id)
}

/// The entries of `apps` whose application is not named by an entry kept before them:
/// the first occurrence of each application, in order.
pub open spec fn first_occurrences(apps: Seq<AppInfoView>) -> Seq<AppInfoView>
    decreases apps.len(),
{
    if apps.len() == 0 {
        Seq::empty()
    } else {
        let kept = first_occurrences(apps.drop_last());
        if covers(kept, apps.last().identifier) {
            kept
        } else {
            kept.push(apps.last())
        }
    }
}

/// An application as the user submits it for the block list: the identifier as text,
/// and the name to show.
#[derive(Clone, Debug)]
pub struct AppInfoRaw {
    pub identifier: String,
    pub display_name: String,
}

impl AppInfoRaw {
    /// The application entry the submission stands for: its identifier text read as
    /// a path when it holds `/` or `\`, as a bundle identifier otherwise.
    pub fn to_app_info(&self) -> (r: AppInfo)
        ensures
            r@ == (AppInfoView {
                identifier: entered_identifier(self.identifier@),
                display_name: self.display_name@,
            }),
    {
        AppInfo::new(AppIdentifier::from_entered(self.identifier.as_str()), self.display_name.clone())
    }
}

/// An application on the stored block list.
#[derive(Clone, Debug)]
pub struct BlockedApp {
    pub id: RecordId,
    pub identifier: String,
    pub display_name: String,
}

impl BlockedApp {
    /// The stored identifier text read as an identifier on this platform (see
    /// `AppIdentifier::from_stored`).
    pub fn app_identifier(&self) -> (r: AppIdentifier)
        ensures
            crate::applock::identifier::identifier_text(r@) == self.identifier@,
            exists|sep: char|
                (sep == '/' || sep == '\\') && r@ == crate::applock::identifier::stored_identifier(
                    self.identifier@,
                    sep,
                ),
            self.identifier@.contains('/') ==> r@ is Path,
            !self.identifier@.contains('/') && !self.identifier@.contains('\\') ==> r@ is BundleId,
    {
        AppIdentifier::from_stored(self.identifier.as_str())
    }

    /// The stored identifier text read as an identifier on a platform whose path
    /// separator is `separator` (see `stored_identifier`).
    pub fn identifier_on(&self, separator: char) -> (r: AppIdentifier)
        ensures
            r@ == crate::applock::identifier::stored_identifier(self.identifier@, separator),
    {
        AppIdentifier::read_stored(self.identifier.as_str(), separator)
    }
}

} // verus!
