//! Manifests and operations as `oma_tum` and `oma_pm_operation_type` hold them.
use oma_pm_operation_type::{InstallOperation, OmaOperation};
use oma_tum::{get_matches_tum, TopicUpdateEntry, TopicUpdateEntryRef, TopicUpdateManifest};
use vstd::prelude::*;

use crate::keyed::has_any;
use crate::manifest::expression::{holds_of, is_version, version_pieces};
use crate::manifest::rules::{carried_out, tame};
use crate::manifest::{contents, EntryModel, ManifestEntry, Manifests, Versions};
use crate::text::text_of;
use crate::tum::TopicUpdate;

verus! {

/// An operation as the package manager plans it.
#[verifier::external_type_specification]
#[verifier::external_body]
pub struct ExOmaOperation(oma_pm_operation_type::OmaOperation);

/// A manifest of topic updates, as `oma_tum` holds it.
#[verifier::external_type_specification]
#[verifier::external_body]
pub struct ExTopicUpdateManifest(oma_tum::TopicUpdateManifest);

/// The packages that an operation's `install` holds, by name without architecture, with the
/// version that each replaces, if any, and the version that comes. Those that are replaced by
/// an older version are not among them. Of two with one name the later counts.
pub uninterp spec fn versions_by(operation: oma_pm_operation_type::OmaOperation) -> Map<
    Seq<char>,
    (Option<Seq<char>>, Seq<char>),
>;

/// The packages that an operation's `remove` holds, by name.
pub uninterp spec fn removed_by(operation: oma_pm_operation_type::OmaOperation) -> Set<Seq<char>>;

/// A package that an operation puts in.
pub struct PlannedInstall {
    pub package: String,
    pub old_version: Option<String>,
    pub new_version: String,
    pub downgrade: bool,
}

/// The versions by package, without downgrades: of two with one name the later.
pub open spec fn versions_in(changes: Seq<PlannedInstall>) -> Versions
    decreases changes.len(),
{
    if changes.len() == 0 {
        Map::empty()
    } else {
        let earlier = versions_in(changes.drop_last());
        let last = changes.last();
        if last.downgrade {
            earlier
        } else {
            earlier.insert(last.package@, (text_of(last.old_version), last.new_version@))
        }
    }
}

/// The entries of `oma_pm_operation_type::OmaOperation`'s `install`, in order: their
/// `name_without_arch`, `old_version` and `new_version`, and whether their `op` is a downgrade.
#[verifier::external_body]
pub(crate) fn changes(operation: &OmaOperation) -> (r: Vec<PlannedInstall>)
    ensures
        versions_in(r@) == versions_by(*operation),
{
    operation.install.iter().map(|entry| PlannedInstall {
        package: entry.name_without_arch().to_string(),
        old_version: entry.old_version().map(str::to_string),
        new_version: entry.new_version().to_string(),
        downgrade: matches!(entry.op(), InstallOperation::Downgrade),
    }).collect()
}

/// Whether a version of the package is replaced.
pub(crate) fn is_replaced(changes: &Vec<PlannedInstall>, package: &String) -> (r: bool)
    ensures
        r <==> versions_in(changes@).contains_key(package@) && versions_in(
            changes@,
        )[package@].0 is Some,
{
    let mut i: usize = changes.len();
    assert(changes@.take(changes.len() as int) =~= changes@);
    while i > 0
        invariant
            i <= changes.len(),
            versions_in(changes@).contains_key(package@) <==> versions_in(
                changes@.take(i as int),
            ).contains_key(package@),
            versions_in(changes@).contains_key(package@) ==> versions_in(changes@)[package@]
                == versions_in(changes@.take(i as int))[package@],
        decreases i,
    {
        i = i - 1;
        assert(changes@.take(i + 1).drop_last() =~= changes@.take(i as int));
        if !changes[i].downgrade && changes[i].package == *package {
            return changes[i].old_version.is_some();
        }
    }
    false
}

/// The entries of a manifest by id.
pub uninterp spec fn held(manifest: oma_tum::TopicUpdateManifest) -> Map<Seq<char>, EntryModel>;

/// The entries of each manifest by id.
pub open spec fn all_held(manifests: Seq<TopicUpdateManifest>) -> Manifests {
    manifests.map_values(|manifest: TopicUpdateManifest| held(manifest))
}

/// `oma_tum::TopicUpdateManifest`, a hash map of entries: it holds the entries that it is
/// made of, the later of two with one id.
#[verifier::external_body]
pub(crate) fn manifest_of(entries: Vec<(String, ManifestEntry)>) -> (r: TopicUpdateManifest)
    ensures
        held(r) == contents(entries@),
{
    let entries = entries.into_iter().map(|(id, entry)| (id, match entry {
        ManifestEntry::Conventional {
            security, packages, packages_v2, name, caution, must_match_all,
        } => TopicUpdateEntry::Conventional {
            security, must_match_all, packages: packages.into_iter().collect(),
            packages_v2: packages_v2.into_iter().collect(), name: name.into_iter().collect(),
            caution: caution.map(|c| c.into_iter().collect()),
        },
        ManifestEntry::Cumulative { security, name, caution, topics } => TopicUpdateEntry::Cumulative {
            security, topics, name: name.into_iter().collect(),
            caution: caution.map(|c| c.into_iter().collect()),
        },
    }));
    TopicUpdateManifest { entries: entries.collect() }
}

/// The manifests hold one entry, and the entry one package that it wants in a version.
pub open spec fn is_lone(
    all: Manifests,
    id: Seq<char>,
    entry: EntryModel,
    package: Seq<char>,
    wanted: Seq<char>,
) -> bool {
    &&& all == seq![Map::<Seq<char>, EntryModel>::empty().insert(id, entry)]
    &&& entry is Conventional
    &&& entry.packages_used() == Map::<Seq<char>, Option<Seq<char>>>::empty().insert(
        package,
        Some(wanted),
    )
}

/// An answer lets an entry match that has one package: it is yes, or it cannot be told and not
/// all packages must match.
pub open spec fn answer_suffices(answer: Option<bool>, must_match_all: bool) -> bool {
    match answer {
        Some(yes) => yes,
        None => !must_match_all,
    }
}

/// `oma_tum::get_matches_tum`: finds the entries that an operation carries out. It first goes
/// through the conventional entries. A cumulative entry whose topics are all found then takes
/// their place. It panics on a topic that is named twice or under which a cumulative entry was
/// found, and on an expression that cannot be worked off. Where manifests share an id, where
/// cumulative entries share a topic, and where a version cannot be read of an entry that need
/// not match in all its packages, what comes back rests on the order in which hash maps are
/// walked: then it is said what holds in any order. How versions compare is named: an entry that
/// stands alone with one package is found as `is_version` says, and in the newer form as
/// `holds_of` says.
#[verifier::external_body]
pub(crate) fn matching(manifests: &Vec<TopicUpdateManifest>, operation: &OmaOperation) -> (r: Vec<
    (String, TopicUpdate),
>)
    requires
        tame(all_held(manifests@), versions_by(*operation), removed_by(*operation)),
    ensures
        carried_out(
            all_held(manifests@),
            versions_by(*operation),
            removed_by(*operation),
            r@,
        ),
        forall|id: Seq<char>, entry: EntryModel, package: Seq<char>, wanted: Seq<char>| #[trigger]
            is_lone(all_held(manifests@), id, entry, package, wanted) && !has_any(
                entry->packages_v2,
            ) && versions_by(*operation).contains_key(package) ==> (r@.len() > 0
                <==> answer_suffices(
                is_version(versions_by(*operation)[package].1, wanted),
                entry->must_match_all,
            )),
        forall|id: Seq<char>, entry: EntryModel, package: Seq<char>, wanted: Seq<char>| #[trigger]
            is_lone(all_held(manifests@), id, entry, package, wanted) && has_any(
                entry->packages_v2,
            ) && versions_by(*operation).contains_key(package) && versions_by(
                *operation,
            )[package].0 is Some && version_pieces(wanted) is Some ==> (r@.len() > 0
                <==> answer_suffices(
                holds_of(wanted, versions_by(*operation)[package].0->0),
                entry->must_match_all,
            )),
{
    get_matches_tum(manifests, operation).into_iter().map(|(id, entry)| (id.to_string(), match entry {
        TopicUpdateEntryRef::Conventional { security, packages, packages_v2, name, caution } =>
            TopicUpdate::Conventional {
                security, packages: packages.keys().cloned().collect(),
                packages_v2: packages_v2.keys().cloned().collect(),
                name: Vec::from_iter(name.clone()),
                caution: caution.cloned().map(Vec::from_iter),
            },
        TopicUpdateEntryRef::Cumulative { security, name, caution, topics, count_packages_changed } =>
            TopicUpdate::Cumulative {
                security, name: Vec::from_iter(name.clone()), topics: topics.to_vec(),
                caution: caution.cloned().map(Vec::from_iter), count_packages_changed,
            },
    })).collect()
}

} // verus!
