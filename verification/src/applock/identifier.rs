use vstd::prelude::*;
use crate::applock::paths::{main_separator, path_eq, paths_equal};
use crate::model::text::{contains_char, same_text};

verus! {

/// How an application is recognised for blocking: by the path of its executable
/// (Windows, Linux) or by its bundle identifier (macOS).
#[derive(Clone, Debug, PartialEq, Eq, Hash)]
pub enum AppIdentifier {
    Path(String),
    BundleId(String),
}

/// The mathematical model of an application identifier.
pub enum IdentifierView {
    Path(Seq<char>),
    BundleId(Seq<char>),
}

impl View for AppIdentifier {
    type V = IdentifierView;

    open spec fn view(&self) -> IdentifierView {
        match self {
            AppIdentifier::Path(p) => IdentifierView::Path(p@),
            AppIdentifier::BundleId(b) => IdentifierView::BundleId(b@),
        }
    }
}

/// The text an identifier is stored as: the path or the bundle identifier itself.
pub open spec fn identifier_text(id: IdentifierView) -> Seq<char> {
    match id {
        IdentifierView::Path(p) => p,
        IdentifierView::BundleId(b) => b,
    }
}

/// Whether two identifiers name the same application: two paths that are the same
/// path, or two equal bundle identifiers.
pub open spec fn same_app(a: IdentifierView, b: IdentifierView) -> bool {
    match (a, b) {
        (IdentifierView::Path(x), IdentifierView::Path(y)) => path_eq(x, y),
        (IdentifierView::BundleId(x), IdentifierView::BundleId(y)) => x == y,
        _ => false,
    }
}

/// How stored text is read back as an identifier, on a platform whose path separator
/// is `separator`: text holding that separator or a `/` is a path, other text is a
/// bundle identifier.
pub open spec fn stored_identifier(text: Seq<char>, separator: char) -> IdentifierView {
    if text.contains(separator) || text.contains('/') {
        IdentifierView::Path(text)
    } else {
        IdentifierView::BundleId(text)
    }
}

/// How text entered by the user is read as an identifier: text holding `/` or `\`
/// is a path, other text is a bundle identifier.
pub open spec fn entered_identifier(text: Seq<char>) -> IdentifierView {
    if text.contains('/') || text.contains('\\') {
        IdentifierView::Path(text)
    } else {
        IdentifierView::BundleId(text)
    }
}

impl AppIdentifier {
    /// An identical copy of this identifier.
    pub fn duplicate(&self) -> (r: AppIdentifier)
        ensures
            r@ == self@,
    {
        match self {
            AppIdentifier::Path(p) => AppIdentifier::Path(p.clone()),
            AppIdentifier::BundleId(b) => AppIdentifier::BundleId(b.clone()),
        }
    }

    /// The text this identifier is stored as.
    pub fn text(&self) -> (r: String)
        ensures
            r@ == identifier_text(self@),
    {
        match self {
            AppIdentifier::Path(p) => p.clone(),
            AppIdentifier::BundleId(b) => b.clone(),
        }
    }

    /// Whether the two identifiers name the same application (see `same_app`).
    pub fn same_as(&self, other: &AppIdentifier) -> (r: bool)
        ensures
            r == same_app(self@, other@),
    {
        match (self, other) {
            (AppIdentifier::Path(x), AppIdentifier::Path(y)) => paths_equal(x.as_str(), y.as_str()),
            (AppIdentifier::BundleId(x), AppIdentifier::BundleId(y)) => same_text(x.as_str(), y.as_str()),
            _ => false,
        }
    }

    /// Reads stored text as an identifier, for a platform whose path separator is
    /// `separator` (see `stored_identifier`).
    pub fn read_stored(text: &str, separator: char) -> (r: AppIdentifier)
        ensures
            r@ == stored_identifier(text@, separator),
    {
        if contains_char(text, separator) || contains_char(text, '/') {
            AppIdentifier::Path(text.to_owned())
        } else {
            AppIdentifier::BundleId(text.to_owned())
        }
    }

    /// Reads stored text as an identifier on this platform: text with a `/` is always
    /// a path and text with neither `/` nor `\` is a bundle identifier; text with `\`
    /// alone is a path where `\` is the platform's separator (Windows).
    pub fn from_stored(text: &str) -> (r: AppIdentifier)
        ensures
            exists|sep: char| (sep == '/' || sep == '\\') && r@ == stored_identifier(text@, sep),
            identifier_text(r@) == text@,
            text@.contains('/') ==> r@ is Path,
            !text@.contains('/') && !text@.contains('\\') ==> r@ is BundleId,
    {
        let sep = main_separator();
        AppIdentifier::read_stored(text, sep)
    }

    /// Reads text entered by the user as an identifier (see `entered_identifier`).
    pub fn from_entered(text: &str) -> (r: AppIdentifier)
        ensures
            r@ == entered_identifier(text@),
    {
        if contains_char(text, '/') || contains_char(text, '\\') {
            AppIdentifier::Path(text.to_owned())
        } else {
            AppIdentifier::BundleId(text.to_owned())
        }
    }
}

} // verus!
