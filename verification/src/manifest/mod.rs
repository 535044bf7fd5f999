//! The manifests of topic updates.
use vstd::prelude::*;

use crate::keyed::keyed;
use crate::text::{text_of, texts};
use crate::tum::Localized;

pub mod expression;
pub mod matching;
pub mod oma;
pub mod rules;

verus! {

/// An entry of a manifest of topic updates. Packages come with the version, or in the newer
/// form with the expression on versions, that the update is about; without one the update
/// removes them.
pub enum ManifestEntry {
    Conventional {
        security: bool,
        packages: Vec<(String, Option<String>)>,
        packages_v2: Vec<(String, Option<String>)>,
        name: Localized,
        caution: Option<Localized>,
        must_match_all: bool,
    },
    Cumulative { security: bool, name: Localized, caution: Option<Localized>, topics: Vec<String> },
}

/// What a manifest's entry says, whatever the order in which it is written.
pub enum EntryModel {
    Conventional {
        security: bool,
        packages: Map<Seq<char>, Option<Seq<char>>>,
        packages_v2: Map<Seq<char>, Option<Seq<char>>>,
        name: Map<Seq<char>, Seq<char>>,
        caution: Option<Map<Seq<char>, Seq<char>>>,
        must_match_all: bool,
    },
    Cumulative {
        security: bool,
        name: Map<Seq<char>, Seq<char>>,
        caution: Option<Map<Seq<char>, Seq<char>>>,
        topics: Seq<Seq<char>>,
    },
}

/// The versions by package.
pub open spec fn versions(packages: Seq<(String, Option<String>)>) -> Map<
    Seq<char>,
    Option<Seq<char>>,
> {
    keyed(packages, |version: Option<String>| text_of(version))
}

/// The texts by language.
pub open spec fn by_language(names: Seq<(String, String)>) -> Map<Seq<char>, Seq<char>> {
    keyed(names, |text: String| text@)
}

/// The texts by language, if there are any.
pub open spec fn by_language_if_any(names: Option<Localized>) -> Option<
    Map<Seq<char>, Seq<char>>,
> {
    match names {
        Some(names) => Some(by_language(names@)),
        None => None,
    }
}

impl View for ManifestEntry {
    type V = EntryModel;

    open spec fn view(&self) -> EntryModel {
        match *self {
            ManifestEntry::Conventional {
                security,
                packages,
                packages_v2,
                name,
                caution,
                must_match_all,
            } => EntryModel::Conventional {
                security,
                packages: versions(packages@),
                packages_v2: versions(packages_v2@),
                name: by_language(name@),
                caution: by_language_if_any(caution),
                must_match_all,
            },
            ManifestEntry::Cumulative { security, name, caution, topics } => EntryModel::Cumulative {
                security,
                name: by_language(name@),
                caution: by_language_if_any(caution),
                topics: texts(topics@),
            },
        }
    }
}

/// What manifests hold, entry by id.
pub type Manifests = Seq<Map<Seq<char>, EntryModel>>;

/// The entries of a manifest by id.
pub open spec fn contents(entries: Seq<(String, ManifestEntry)>) -> Map<Seq<char>, EntryModel> {
    keyed(entries, |entry: ManifestEntry| entry@)
}

/// The entries of each manifest by id.
pub open spec fn all_contents(manifests: Seq<Vec<(String, ManifestEntry)>>) -> Manifests {
    manifests.map_values(|entries: Vec<(String, ManifestEntry)>| contents(entries@))
}

/// The package names of an operation that it puts in, with the version that each replaces, if
/// any, and the version that comes.
pub type Versions = Map<Seq<char>, (Option<Seq<char>>, Seq<char>)>;

} // verus!
