//! Finding the topic updates that an operation carries out: what cannot be matched is left out
//! first.
use oma_pm_operation_type::OmaOperation;
use oma_tum::TopicUpdateManifest;
use vstd::prelude::*;

use crate::keyed::{
    find_last, has_any, is_last_of_key, last_of_key, lemma_keyed_has_any, lemma_keyed_has_last,
    lemma_keyed_last, lemma_keyed_single,
};
use crate::manifest::expression::{expression_is_tame, is_expression_tame};
use crate::manifest::oma::{
    all_held, changes, is_replaced, manifest_of, matching, removed_by, versions_by, versions_in,
    PlannedInstall,
};
use crate::manifest::rules::{
    carried_out, could_take_over, found_ids, is_determinate, is_found,
    law_what_is_found_is_determined, lemma_tamed_is_tame, matched_ids, may_be_found,
    may_be_taken_over, readable, tamed, topics_are_tame, unambiguous,
};
use crate::manifest::{
    all_contents, contents, versions, EntryModel, ManifestEntry, Manifests, Versions,
};
use crate::text::{text_of, texts};
use crate::tum::TopicUpdate;

verus! {

/// The same packages with the same versions.
fn copied(packages: &Vec<(String, Option<String>)>) -> (r: Vec<(String, Option<String>)>)
    ensures
        r@.len() == packages@.len(),
        versions(r@) == versions(packages@),
{
    let mut r: Vec<(String, Option<String>)> = Vec::new();
    let mut i: usize = 0;
    while i < packages.len()
        invariant
            i <= packages.len(),
            r@.len() == i,
            versions(r@) == versions(packages@.take(i as int)),
        decreases packages.len() - i,
    {
        let ghost before = r@;
        let version = match &packages[i].1 {
            Some(version) => Some(version.clone()),
            None => None,
        };
        r.push((packages[i].0.clone(), version));
        i = i + 1;
        assert(r@.drop_last() =~= before);
        assert(packages@.take(i as int).drop_last() =~= packages@.take(i - 1));
    }
    assert(packages@.take(packages.len() as int) =~= packages@);
    r
}

/// A conventional entry with these packages and nothing to tell.
pub open spec fn bare_entry(
    packages: Map<Seq<char>, Option<Seq<char>>>,
    newer: bool,
    must_match_all: bool,
) -> EntryModel {
    EntryModel::Conventional {
        security: false,
        packages: if newer {
            Map::empty()
        } else {
            packages
        },
        packages_v2: if newer {
            packages
        } else {
            Map::empty()
        },
        name: Map::empty(),
        caution: None,
        must_match_all,
    }
}

/// Whether an entry with these packages matches, found by trying it alone.
fn is_matched_alone(
    packages: Vec<(String, Option<String>)>,
    newer: bool,
    must_match_all: bool,
    operation: &OmaOperation,
) -> (r: bool)
    requires
        bare_entry(versions(packages@), newer, must_match_all).is_readable(
            versions_by(*operation),
        ),
    ensures
        bare_entry(versions(packages@), newer, must_match_all).surely_matches(
            versions_by(*operation),
            removed_by(*operation),
        ) ==> r,
        r ==> bare_entry(versions(packages@), newer, must_match_all).could_match(
            versions_by(*operation),
            removed_by(*operation),
        ),
{
    let ghost model = bare_entry(versions(packages@), newer, must_match_all);
    let none: Vec<(String, Option<String>)> = Vec::new();
    let (packages, packages_v2) = if newer {
        (none, packages)
    } else {
        (packages, none)
    };
    let entry = ManifestEntry::Conventional {
        security: false,
        packages,
        packages_v2,
        name: Vec::new(),
        caution: None,
        must_match_all,
    };
    let mut entries: Vec<(String, ManifestEntry)> = Vec::new();
    entries.push((String::new(), entry));
    let mut manifests: Vec<TopicUpdateManifest> = Vec::new();
    manifests.push(manifest_of(entries));
    let ghost all = all_held(manifests@);
    proof {
        assert(entry@ == model);
        lemma_keyed_single(entries@, |entry: ManifestEntry| entry@);
        let id = entries@[0].0@;
        assert(all[0] == contents(entries@));
        assert(all[0].contains_key(id));
    }
    let found = matching(&manifests, operation);
    proof {
        if found@.len() > 0 {
            let k = choose|k: int|
                is_found(all, k, versions_by(*operation), removed_by(*operation), found@[0]);
            assert(k == 0);
        }
        if model.surely_matches(versions_by(*operation), removed_by(*operation)) {
            let id = entries@[0].0@;
            assert(all[0].contains_key(id));
        }
    }
    found.len() > 0
}

/// Whether a conventional entry could match.
fn is_possible(entry: &ManifestEntry, operation: &OmaOperation) -> (r: bool)
    requires
        entry@.is_readable(versions_by(*operation)),
    ensures
        r <==> entry@.could_match(versions_by(*operation), removed_by(*operation)),
{
    let ghost installed = versions_by(*operation);
    let ghost removed = removed_by(*operation);
    match entry {
        ManifestEntry::Cumulative { .. } => false,
        ManifestEntry::Conventional { packages, packages_v2, must_match_all, .. } => {
            let newer = packages_v2.len() > 0;
            let used = if newer {
                packages_v2
            } else {
                packages
            };
            let ghost value = |version: Option<String>| text_of(version);
            proof {
                lemma_keyed_has_any(packages_v2@, value);
                lemma_keyed_has_any(used@, value);
                assert(entry@.packages_used() == versions(used@));
                assert(has_any(entry@->packages_v2) == newer);
            }
            if *must_match_all {
                let ghost model = bare_entry(versions(used@), newer, true);
                proof {
                    assert(model.packages_used() == versions(used@));
                    assert(forall|package: Seq<char>| #[trigger]
                        model.answer(package, installed, removed) == entry@.answer(
                            package,
                            installed,
                            removed,
                        ));
                }
                return is_matched_alone(copied(used), newer, true, operation);
            }
            let mut i: usize = 0;
            while i < used.len()
                invariant
                    i <= used.len(),
                    entry@ is Conventional,
                    entry@.is_readable(installed),
                    entry@.packages_used() == versions(used@),
                    has_any(entry@->packages_v2) == newer,
                    newer ==> entry@->packages_v2 == versions(used@),
                    !entry@->must_match_all,
                    installed == versions_by(*operation),
                    removed == removed_by(*operation),
                    value == |version: Option<String>| text_of(version),
                    forall|j: int|
                        0 <= j < i && #[trigger] last_of_key(used@, j) ==> entry@.answer(
                            used@[j].0@,
                            installed,
                            removed,
                        ) == Some(false),
                decreases used.len() - i,
            {
                if is_last_of_key(used, i) {
                    let mut single: Vec<(String, Option<String>)> = Vec::new();
                    let version = match &used[i].1 {
                        Some(version) => Some(version.clone()),
                        None => None,
                    };
                    single.push((used[i].0.clone(), version));
                    let ghost package = used@[i as int].0@;
                    let ghost model = bare_entry(versions(single@), newer, false);
                    proof {
                        lemma_keyed_last(used@, value, i as int);
                        lemma_keyed_single(single@, value);
                        assert(versions(single@).contains_key(package));
                        assert(model.packages_used() == versions(single@));
                        assert(model.answer(package, installed, removed) == entry@.answer(
                            package,
                            installed,
                            removed,
                        ));
                        assert(versions(used@).contains_key(package));
                        assert(model.is_readable(installed));
                    }
                    if is_matched_alone(single, newer, false, operation) {
                        assert(entry@.packages_used().contains_key(package));
                        return true;
                    }
                    assert(entry@.answer(package, installed, removed) == Some(false));
                }
                i = i + 1;
            }
            proof {
                assert forall|package: Seq<char>| #[trigger]
                    entry@.packages_used().contains_key(package) implies entry@.answer(
                    package,
                    installed,
                    removed,
                ) == Some(false) by {
                    let j = lemma_keyed_has_last(used@, value, package);
                    assert(last_of_key(used@, j));
                }
            }
            used.len() == 0
        },
    }
}

/// Every entry is readable.
pub open spec fn all_readable(all: Manifests, installed: Versions) -> bool {
    forall|k: int, id: Seq<char>|
        0 <= k < all.len() && #[trigger] all[k].contains_key(id) ==> all[k][id].is_readable(
            installed,
        )
}

/// Whether a conventional entry under the id could match.
fn is_possible_under(
    manifests: &Vec<Vec<(String, ManifestEntry)>>,
    id: &String,
    operation: &OmaOperation,
) -> (r: bool)
    requires
        all_readable(all_contents(manifests@), versions_by(*operation)),
    ensures
        r <==> may_be_found(
            all_contents(manifests@),
            versions_by(*operation),
            removed_by(*operation),
            id@,
        ),
{
    let ghost all = all_contents(manifests@);
    let ghost installed = versions_by(*operation);
    let ghost removed = removed_by(*operation);
    let ghost value = |entry: ManifestEntry| entry@;
    let mut k: usize = 0;
    while k < manifests.len()
        invariant
            k <= manifests.len(),
            all == all_contents(manifests@),
            all_readable(all, installed),
            installed == versions_by(*operation),
            removed == removed_by(*operation),
            value == |entry: ManifestEntry| entry@,
            forall|l: int|
                0 <= l < k && (#[trigger] all[l]).contains_key(id@) ==> !all[l][id@].could_match(
                    installed,
                    removed,
                ),
        decreases manifests.len() - k,
    {
        let entries = &manifests[k];
        match find_last(entries, id) {
            Some(i) => {
                proof {
                    lemma_keyed_last(entries@, value, i as int);
                    assert(all[k as int].contains_key(id@));
                }
                if is_possible(&entries[i].1, operation) {
                    return true;
                }
            },
            None => {
                proof {
                    if all[k as int].contains_key(id@) {
                        let j = lemma_keyed_has_last(entries@, value, id@);
                        assert(entries@[j].0@ == id@);
                    }
                }
            },
        }
        k = k + 1;
    }
    false
}

fn holds_twice(topics: &Vec<String>) -> (r: bool)
    ensures
        r <==> !texts(topics@).no_duplicates(),
{
    let ghost all = texts(topics@);
    let mut i: usize = 0;
    while i < topics.len()
        invariant
            i <= topics.len(),
            all == texts(topics@),
            forall|j: int, l: int| 0 <= j < i && j < l < all.len() ==> all[j] != all[l],
        decreases topics.len() - i,
    {
        let mut j: usize = i + 1;
        while j < topics.len()
            invariant
                i < j <= topics.len(),
                all == texts(topics@),
                forall|l: int| i < l < j ==> all[i as int] != all[l],
            decreases topics.len() - j,
        {
            if topics[j] == topics[i] {
                assert(all[i as int] == all[j as int]);
                return true;
            }
            j = j + 1;
        }
        i = i + 1;
    }
    false
}

/// Whether the entry is cumulative and could be found.
fn is_possible_cumulative(
    manifests: &Vec<Vec<(String, ManifestEntry)>>,
    entry: &ManifestEntry,
    operation: &OmaOperation,
) -> (r: bool)
    requires
        all_readable(all_contents(manifests@), versions_by(*operation)),
    ensures
        r <==> could_take_over(
            all_contents(manifests@),
            versions_by(*operation),
            removed_by(*operation),
            entry@,
        ),
{
    let ghost all = all_contents(manifests@);
    let ghost installed = versions_by(*operation);
    let ghost removed = removed_by(*operation);
    match entry {
        ManifestEntry::Conventional { .. } => false,
        ManifestEntry::Cumulative { topics, .. } => {
            if holds_twice(topics) {
                return false;
            }
            let mut j: usize = 0;
            while j < topics.len()
                invariant
                    j <= topics.len(),
                    entry@ is Cumulative,
                    entry@->topics == texts(topics@),
                    all == all_contents(manifests@),
                    all_readable(all, installed),
                    installed == versions_by(*operation),
                    removed == removed_by(*operation),
                    forall|l: int|
                        0 <= l < j ==> may_be_found(
                            all,
                            installed,
                            removed,
                            #[trigger] texts(topics@)[l],
                        ),
                decreases topics.len() - j,
            {
                assert(texts(topics@)[j as int] == topics@[j as int]@);
                if !is_possible_under(manifests, &topics[j], operation) {
                    return false;
                }
                j = j + 1;
            }
            true
        },
    }
}

/// Whether a cumulative entry under the id could be found.
fn is_possible_cumulative_under(
    manifests: &Vec<Vec<(String, ManifestEntry)>>,
    id: &String,
    operation: &OmaOperation,
) -> (r: bool)
    requires
        all_readable(all_contents(manifests@), versions_by(*operation)),
    ensures
        r <==> may_be_taken_over(
            all_contents(manifests@),
            versions_by(*operation),
            removed_by(*operation),
            id@,
        ),
{
    let ghost all = all_contents(manifests@);
    let ghost installed = versions_by(*operation);
    let ghost removed = removed_by(*operation);
    let ghost value = |entry: ManifestEntry| entry@;
    let mut k: usize = 0;
    while k < manifests.len()
        invariant
            k <= manifests.len(),
            all == all_contents(manifests@),
            all_readable(all, installed),
            installed == versions_by(*operation),
            removed == removed_by(*operation),
            value == |entry: ManifestEntry| entry@,
            forall|l: int|
                0 <= l < k && (#[trigger] all[l]).contains_key(id@) ==> !could_take_over(
                    all,
                    installed,
                    removed,
                    all[l][id@],
                ),
        decreases manifests.len() - k,
    {
        let entries = &manifests[k];
        match find_last(entries, id) {
            Some(i) => {
                proof {
                    lemma_keyed_last(entries@, value, i as int);
                    assert(all[k as int].contains_key(id@));
                }
                if is_possible_cumulative(manifests, &entries[i].1, operation) {
                    return true;
                }
            },
            None => {
                proof {
                    if all[k as int].contains_key(id@) {
                        let j = lemma_keyed_has_last(entries@, value, id@);
                        assert(entries@[j].0@ == id@);
                    }
                }
            },
        }
        k = k + 1;
    }
    false
}

/// Whether the topics of an entry are as they should be.
fn is_unambiguous(
    manifests: &Vec<Vec<(String, ManifestEntry)>>,
    entry: &ManifestEntry,
    operation: &OmaOperation,
) -> (r: bool)
    requires
        all_readable(all_contents(manifests@), versions_by(*operation)),
    ensures
        r <==> topics_are_tame(
            all_contents(manifests@),
            versions_by(*operation),
            removed_by(*operation),
            entry@,
        ),
{
    let ghost all = all_contents(manifests@);
    let ghost installed = versions_by(*operation);
    let ghost removed = removed_by(*operation);
    match entry {
        ManifestEntry::Conventional { .. } => true,
        ManifestEntry::Cumulative { topics, .. } => {
            if holds_twice(topics) {
                return false;
            }
            let mut j: usize = 0;
            while j < topics.len()
                invariant
                    j <= topics.len(),
                    entry@ is Cumulative,
                    entry@->topics == texts(topics@),
                    all == all_contents(manifests@),
                    all_readable(all, installed),
                    installed == versions_by(*operation),
                    removed == removed_by(*operation),
                    forall|l: int|
                        0 <= l < j ==> !may_be_taken_over(
                            all,
                            installed,
                            removed,
                            #[trigger] texts(topics@)[l],
                        ),
                decreases topics.len() - j,
            {
                assert(texts(topics@)[j as int] == topics@[j as int]@);
                if is_possible_cumulative_under(manifests, &topics[j], operation) {
                    return false;
                }
                j = j + 1;
            }
            true
        },
    }
}

/// Whether every expression of the packages that is worked off can be.
fn is_entry_readable(entry: &ManifestEntry, changes: &Vec<PlannedInstall>) -> (r: bool)
    ensures
        r <==> entry@.is_readable(versions_in(changes@)),
{
    match entry {
        ManifestEntry::Cumulative { .. } => true,
        ManifestEntry::Conventional { packages_v2, .. } => {
            let ghost installed = versions_in(changes@);
            let ghost value = |version: Option<String>| text_of(version);
            let mut i: usize = 0;
            while i < packages_v2.len()
                invariant
                    i <= packages_v2.len(),
                    installed == versions_in(changes@),
                    entry@ is Conventional,
                    entry@->packages_v2 == versions(packages_v2@),
                    value == |version: Option<String>| text_of(version),
                    forall|j: int|
                        0 <= j < i && #[trigger] last_of_key(packages_v2@, j)
                            && packages_v2@[j].1 is Some && installed.contains_key(
                            packages_v2@[j].0@,
                        ) && installed[packages_v2@[j].0@].0 is Some ==> expression_is_tame(
                            packages_v2@[j].1->0@,
                        ),
                decreases packages_v2.len() - i,
            {
                if let Some(expression) = &packages_v2[i].1 {
                    if is_last_of_key(packages_v2, i) && is_replaced(changes, &packages_v2[i].0)
                        && !is_expression_tame(expression.as_str()) {
                        proof {
                            lemma_keyed_last(packages_v2@, value, i as int);
                            assert(versions(packages_v2@).contains_key(packages_v2@[i as int].0@));
                        }
                        return false;
                    }
                }
                i = i + 1;
            }
            proof {
                assert forall|package: Seq<char>| #[trigger]
                    versions(packages_v2@).contains_key(package) && versions(
                        packages_v2@,
                    )[package] is Some && installed.contains_key(package)
                        && installed[package].0 is Some implies expression_is_tame(
                    versions(packages_v2@)[package]->0,
                ) by {
                    let j = lemma_keyed_has_last(packages_v2@, value, package);
                    assert(last_of_key(packages_v2@, j));
                }
            }
            true
        },
    }
}

/// The entries that are to be kept. Of two with one id, the later alone may be.
fn kept(entries: Vec<(String, ManifestEntry)>, keep: &Vec<bool>) -> (r: Vec<
    (String, ManifestEntry),
>)
    requires
        keep@.len() == entries@.len(),
        forall|j: int| 0 <= j < keep@.len() && #[trigger] keep@[j] ==> last_of_key(entries@, j),
    ensures
        forall|id: Seq<char>| #[trigger]
            contents(r@).contains_key(id) ==> exists|j: int|
                0 <= j < keep@.len() && #[trigger] keep@[j] && entries@[j].0@ == id && contents(
                    r@,
                )[id] == entries@[j].1@,
        forall|j: int|
            0 <= j < keep@.len() && #[trigger] keep@[j] ==> contents(r@).contains_key(
                entries@[j].0@,
            ),
{
    let ghost whole = entries@;
    let mut rest = entries;
    let mut r: Vec<(String, ManifestEntry)> = Vec::new();
    while rest.len() > 0
        invariant
            rest.len() <= whole.len(),
            rest@ == whole.subrange(0, rest.len() as int),
            keep@.len() == whole.len(),
            forall|j: int| 0 <= j < keep@.len() && #[trigger] keep@[j] ==> last_of_key(whole, j),
            forall|id: Seq<char>| #[trigger]
                contents(r@).contains_key(id) ==> exists|j: int|
                    rest.len() <= j < whole.len() && #[trigger] keep@[j] && whole[j].0@ == id
                        && contents(r@)[id] == whole[j].1@,
            forall|j: int|
                rest.len() <= j < whole.len() && #[trigger] keep@[j] ==> contents(
                    r@,
                ).contains_key(whole[j].0@),
        decreases rest.len(),
    {
        let ghost before = r@;
        let (id, entry) = rest.pop().unwrap();
        let ghost n = rest.len() as int;
        proof {
            assert(whole[n] == (id, entry));
            assert(rest@ =~= whole.subrange(0, n));
        }
        if keep[rest.len()] {
            r.push((id, entry));
            proof {
                assert(r@.drop_last() =~= before);
                assert(contents(r@) == contents(before).insert(id@, entry@));
                assert forall|other: Seq<char>| #[trigger]
                    contents(r@).contains_key(other) implies exists|j: int|
                    rest.len() <= j < whole.len() && #[trigger] keep@[j] && whole[j].0@ == other
                        && contents(r@)[other] == whole[j].1@ by {
                    if other == id@ {
                        assert(keep@[n]);
                    } else {
                        assert(contents(before).contains_key(other));
                    }
                }
            }
        }
    }
    r
}

/// The entries of a manifest that are readable.
fn readable_entries(
    entries: Vec<(String, ManifestEntry)>,
    changes: &Vec<PlannedInstall>,
) -> (r: Vec<(String, ManifestEntry)>)
    ensures
        forall|id: Seq<char>| #[trigger]
            contents(r@).contains_key(id) <==> contents(entries@).contains_key(id) && contents(
                entries@,
            )[id].is_readable(versions_in(changes@)),
        forall|id: Seq<char>| #[trigger]
            contents(r@).contains_key(id) ==> contents(r@)[id] == contents(entries@)[id],
{
    let ghost value = |entry: ManifestEntry| entry@;
    let mut keep: Vec<bool> = Vec::new();
    let mut i: usize = 0;
    while i < entries.len()
        invariant
            i <= entries.len(),
            keep@.len() == i,
            forall|j: int|
                0 <= j < i ==> (#[trigger] keep@[j] <==> last_of_key(entries@, j)
                    && entries@[j].1@.is_readable(versions_in(changes@))),
        decreases entries.len() - i,
    {
        keep.push(is_last_of_key(&entries, i) && is_entry_readable(&entries[i].1, changes));
        i = i + 1;
    }
    let r = kept(entries, &keep);
    proof {
        assert forall|id: Seq<char>| #[trigger] contents(r@).contains_key(id) implies contents(
            entries@,
        ).contains_key(id) && contents(entries@)[id].is_readable(versions_in(changes@))
            && contents(r@)[id] == contents(entries@)[id] by {
            let j = choose|j: int|
                0 <= j < keep@.len() && #[trigger] keep@[j] && entries@[j].0@ == id && contents(
                    r@,
                )[id] == entries@[j].1@;
            lemma_keyed_last(entries@, value, j);
        }
        assert forall|id: Seq<char>|
            contents(entries@).contains_key(id) && contents(entries@)[id].is_readable(
                versions_in(changes@),
            ) implies #[trigger] contents(r@).contains_key(id) by {
            let j = lemma_keyed_has_last(entries@, value, id);
            assert(keep@[j]);
        }
    }
    r
}

/// The manifests with the entries alone that are readable.
fn readable_manifests(
    manifests: Vec<Vec<(String, ManifestEntry)>>,
    changes: &Vec<PlannedInstall>,
) -> (r: Vec<Vec<(String, ManifestEntry)>>)
    ensures
        all_contents(r@) == readable(all_contents(manifests@), versions_in(changes@)),
{
    let ghost whole = manifests@;
    let ghost goal = readable(all_contents(whole), versions_in(changes@));
    let mut rest = manifests;
    let mut r: Vec<Vec<(String, ManifestEntry)>> = Vec::new();
    while rest.len() > 0
        invariant
            rest.len() <= whole.len(),
            rest@ == whole.subrange(0, rest.len() as int),
            goal == readable(all_contents(whole), versions_in(changes@)),
            all_contents(r@) == goal.subrange(rest.len() as int, whole.len() as int),
        decreases rest.len(),
    {
        let ghost before = r@;
        let entries = rest.pop().unwrap();
        let ghost n = rest.len() as int;
        let part = readable_entries(entries, changes);
        r.insert(0, part);
        proof {
            assert(rest@ =~= whole.subrange(0, n));
            assert(all_contents(whole)[n] == contents(entries@));
            assert(contents(part@) =~= goal[n]);
            assert(all_contents(r@) =~= seq![contents(part@)] + all_contents(before));
            assert(goal.subrange(n, whole.len() as int) =~= seq![goal[n]] + goal.subrange(
                n + 1,
                whole.len() as int,
            ));
        }
    }
    assert(goal.subrange(0, whole.len() as int) =~= goal);
    r
}

/// Which entries of each manifest are kept: the last with its id, if its topics are as they
/// should be.
fn unambiguous_flags(
    manifests: &Vec<Vec<(String, ManifestEntry)>>,
    operation: &OmaOperation,
) -> (r: Vec<Vec<bool>>)
    requires
        all_readable(all_contents(manifests@), versions_by(*operation)),
    ensures
        r@.len() == manifests@.len(),
        forall|k: int|
            0 <= k < r@.len() ==> are_unambiguous_flags(
                (#[trigger] r@[k])@,
                manifests@[k]@,
                all_contents(manifests@),
                versions_by(*operation),
                removed_by(*operation),
            ),
{
    let mut r: Vec<Vec<bool>> = Vec::new();
    let mut k: usize = 0;
    while k < manifests.len()
        invariant
            k <= manifests.len(),
            r@.len() == k,
            all_readable(all_contents(manifests@), versions_by(*operation)),
            forall|l: int|
                0 <= l < k ==> are_unambiguous_flags(
                    (#[trigger] r@[l])@,
                    manifests@[l]@,
                    all_contents(manifests@),
                    versions_by(*operation),
                    removed_by(*operation),
                ),
        decreases manifests.len() - k,
    {
        let entries = &manifests[k];
        let mut keep: Vec<bool> = Vec::new();
        let mut i: usize = 0;
        while i < entries.len()
            invariant
                i <= entries.len(),
                keep@.len() == i,
                all_readable(all_contents(manifests@), versions_by(*operation)),
                forall|j: int|
                    0 <= j < i ==> (#[trigger] keep@[j] <==> last_of_key(entries@, j)
                        && topics_are_tame(
                        all_contents(manifests@),
                        versions_by(*operation),
                        removed_by(*operation),
                        entries@[j].1@,
                    )),
            decreases entries.len() - i,
        {
            keep.push(
                is_last_of_key(entries, i) && is_unambiguous(manifests, &entries[i].1, operation),
            );
            i = i + 1;
        }
        r.push(keep);
        k = k + 1;
    }
    r
}

spec fn are_unambiguous_flags(
    keep: Seq<bool>,
    entries: Seq<(String, ManifestEntry)>,
    all: Manifests,
    installed: Versions,
    removed: Set<Seq<char>>,
) -> bool {
    &&& keep.len() == entries.len()
    &&& forall|j: int|
        0 <= j < keep.len() ==> (#[trigger] keep[j] <==> last_of_key(entries, j)
            && topics_are_tame(all, installed, removed, entries[j].1@))
}

/// The entries that were kept are those whose topics are as they should be.
proof fn lemma_kept_is_unambiguous(
    entries: Seq<(String, ManifestEntry)>,
    keep: Seq<bool>,
    r: Seq<(String, ManifestEntry)>,
    all: Manifests,
    installed: Versions,
    removed: Set<Seq<char>>,
    k: int,
)
    requires
        are_unambiguous_flags(keep, entries, all, installed, removed),
        0 <= k < all.len(),
        all[k] == contents(entries),
        forall|id: Seq<char>| #[trigger]
            contents(r).contains_key(id) ==> exists|j: int|
                0 <= j < keep.len() && #[trigger] keep[j] && entries[j].0@ == id && contents(
                    r,
                )[id] == entries[j].1@,
        forall|j: int|
            0 <= j < keep.len() && #[trigger] keep[j] ==> contents(r).contains_key(
                entries[j].0@,
            ),
    ensures
        contents(r) == unambiguous(all, installed, removed)[k],
{
    let value = |entry: ManifestEntry| entry@;
    let goal = unambiguous(all, installed, removed)[k];
    assert forall|id: Seq<char>| #[trigger] contents(r).contains_key(id) implies goal.contains_key(
        id,
    ) && contents(r)[id] == goal[id] by {
        let j = choose|j: int|
            0 <= j < keep.len() && #[trigger] keep[j] && entries[j].0@ == id && contents(r)[id]
                == entries[j].1@;
        lemma_keyed_last(entries, value, j);
    }
    assert forall|id: Seq<char>| #[trigger] goal.contains_key(id) implies contents(
        r,
    ).contains_key(id) by {
        let j = lemma_keyed_has_last(entries, value, id);
        assert(keep[j]);
    }
    assert(contents(r) =~= goal);
}

/// The topic updates that an operation carries out. Entries that cannot be matched are left
/// out: those with an expression that would have to be worked off and cannot be, and
/// cumulative ones that name a topic twice or one that a cumulative entry could take over.
pub fn matching_updates(
    manifests: Vec<Vec<(String, ManifestEntry)>>,
    operation: &OmaOperation,
) -> (r: Vec<(String, TopicUpdate)>)
    ensures
        ({
            let installed = versions_by(*operation);
            let removed = removed_by(*operation);
            let all = tamed(all_contents(manifests@), installed, removed);
            &&& carried_out(all, installed, removed, r@)
            &&& is_determinate(all, installed, removed) ==> found_ids(r@) == matched_ids(
                all,
                installed,
                removed,
            )
        }),
{
    let ghost installed = versions_by(*operation);
    let ghost removed = removed_by(*operation);
    let ghost all = all_contents(manifests@);
    let planned = changes(operation);
    let manifests = readable_manifests(manifests, &planned);
    let ghost whole = manifests@;
    let ghost goal = tamed(all, installed, removed);
    assert(all_contents(whole) == readable(all, installed));
    let flags = unambiguous_flags(&manifests, operation);
    let mut rest = manifests;
    let mut tame: Vec<TopicUpdateManifest> = Vec::new();
    while rest.len() > 0
        invariant
            rest.len() <= whole.len(),
            rest@ == whole.subrange(0, rest.len() as int),
            goal == unambiguous(all_contents(whole), installed, removed),
            flags@.len() == whole.len(),
            forall|k: int|
                0 <= k < flags@.len() ==> are_unambiguous_flags(
                    (#[trigger] flags@[k])@,
                    whole[k]@,
                    all_contents(whole),
                    installed,
                    removed,
                ),
            all_held(tame@) == goal.subrange(rest.len() as int, whole.len() as int),
        decreases rest.len(),
    {
        let ghost before = tame@;
        let entries = rest.pop().unwrap();
        let ghost n = rest.len() as int;
        let keep = &flags[rest.len()];
        assert(are_unambiguous_flags(flags@[n]@, whole[n]@, all_contents(whole), installed, removed));
        let part = kept(entries, keep);
        proof {
            lemma_kept_is_unambiguous(
                entries@,
                keep@,
                part@,
                all_contents(whole),
                installed,
                removed,
                n,
            );
        }
        tame.insert(0, manifest_of(part));
        proof {
            assert(rest@ =~= whole.subrange(0, n));
            assert(all_held(tame@) =~= seq![contents(part@)] + all_held(before));
            assert(goal.subrange(n, whole.len() as int) =~= seq![goal[n]] + goal.subrange(
                n + 1,
                whole.len() as int,
            ));
        }
    }
    proof {
        assert(goal.subrange(0, whole.len() as int) =~= goal);
        lemma_tamed_is_tame(all, installed, removed);
    }
    let found = matching(&tame, operation);
    proof {
        if is_determinate(goal, installed, removed) {
            law_what_is_found_is_determined(goal, installed, removed, found@);
        }
    }
    found
}

} // verus!
