//! Which entries of manifests an operation carries out.
use vstd::prelude::*;

use crate::keyed::{has_any, last_of_key};
use crate::manifest::expression::{expression_is_tame, holds_of, is_version, version_pieces};
use crate::manifest::{by_language, EntryModel, Manifests, Versions};
use crate::text::texts;
use crate::tum::{Localized, TopicUpdate};

verus! {

impl EntryModel {
    /// The packages of a conventional entry: those in the newer form, if it has any.
    pub open spec fn packages_used(self) -> Map<Seq<char>, Option<Seq<char>>> {
        match self {
            EntryModel::Conventional { packages, packages_v2, .. } => if has_any(packages_v2) {
                packages_v2
            } else {
                packages
            },
            EntryModel::Cumulative { .. } => Map::empty(),
        }
    }

    /// Whether the operation does to a package what the entry says of it. `None` if that
    /// cannot be told. A package without a version is to be taken away. One with a version is
    /// to come in that version; in the newer form it is the version replaced that has to
    /// answer the expression.
    pub open spec fn answer(
        self,
        package: Seq<char>,
        installed: Versions,
        removed: Set<Seq<char>>,
    ) -> Option<bool> {
        match self.packages_used()[package] {
            None => Some(removed.contains(package)),
            Some(wanted) => if !installed.contains_key(package) {
                Some(false)
            } else if !has_any(self->packages_v2) {
                is_version(installed[package].1, wanted)
            } else {
                match installed[package].0 {
                    None => Some(false),
                    Some(replaced) => if version_pieces(wanted) is None {
                        None
                    } else {
                        holds_of(wanted, replaced)
                    },
                }
            },
        }
    }

    /// Some order of its packages lets the entry match: all of them do what it says, or, where
    /// not all must match, one does or cannot be told, if there are any.
    pub open spec fn could_match(self, installed: Versions, removed: Set<Seq<char>>) -> bool {
        match self {
            EntryModel::Conventional { must_match_all, .. } => if must_match_all {
                forall|package: Seq<char>| #[trigger]
                    self.packages_used().contains_key(package) ==> self.answer(
                        package,
                        installed,
                        removed,
                    ) == Some(true)
            } else {
                !has_any(self.packages_used()) || exists|package: Seq<char>| #[trigger]
                    self.packages_used().contains_key(package) && self.answer(
                        package,
                        installed,
                        removed,
                    ) != Some(false)
            },
            EntryModel::Cumulative { .. } => false,
        }
    }

    /// Every order of its packages lets the entry match: all of them do what it says, or,
    /// where not all must match, one does, or none is known not to.
    pub open spec fn surely_matches(self, installed: Versions, removed: Set<Seq<char>>) -> bool {
        match self {
            EntryModel::Conventional { must_match_all, .. } => if must_match_all {
                self.could_match(installed, removed)
            } else {
                ||| exists|package: Seq<char>| #[trigger]
                    self.packages_used().contains_key(package) && self.answer(
                        package,
                        installed,
                        removed,
                    ) == Some(true)
                ||| forall|package: Seq<char>| #[trigger]
                    self.packages_used().contains_key(package) ==> self.answer(
                        package,
                        installed,
                        removed,
                    ) != Some(false)
            },
            EntryModel::Cumulative { .. } => false,
        }
    }

    /// Every expression that is worked off for the operation can be: those of the packages of
    /// which it replaces a version.
    pub open spec fn is_readable(self, installed: Versions) -> bool {
        match self {
            EntryModel::Conventional { packages_v2, .. } => forall|package: Seq<char>| #[trigger]
                packages_v2.contains_key(package) && packages_v2[package] is Some
                    && installed.contains_key(package) && installed[package].0 is Some
                    ==> expression_is_tame(packages_v2[package]->0),
            EntryModel::Cumulative { .. } => true,
        }
    }
}

/// A conventional entry under the id could match.
pub open spec fn may_be_found(
    all: Manifests,
    installed: Versions,
    removed: Set<Seq<char>>,
    id: Seq<char>,
) -> bool {
    exists|k: int|
        0 <= k < all.len() && (#[trigger] all[k]).contains_key(id) && all[k][id].could_match(
            installed,
            removed,
        )
}

/// A conventional entry under the id matches.
pub open spec fn is_surely_matched(
    all: Manifests,
    installed: Versions,
    removed: Set<Seq<char>>,
    id: Seq<char>,
) -> bool {
    exists|k: int|
        0 <= k < all.len() && (#[trigger] all[k]).contains_key(id) && all[k][id].surely_matches(
            installed,
            removed,
        )
}

/// Each of the topics could be found.
pub open spec fn may_be_complete(
    all: Manifests,
    installed: Versions,
    removed: Set<Seq<char>>,
    topics: Seq<Seq<char>>,
) -> bool {
    forall|j: int|
        0 <= j < topics.len() ==> may_be_found(all, installed, removed, #[trigger] topics[j])
}

/// The entry is cumulative, and could be found: its topics are different from each other, and
/// each could be found.
pub open spec fn could_take_over(
    all: Manifests,
    installed: Versions,
    removed: Set<Seq<char>>,
    entry: EntryModel,
) -> bool {
    &&& entry is Cumulative
    &&& entry->topics.no_duplicates()
    &&& may_be_complete(all, installed, removed, entry->topics)
}

/// A cumulative entry under the id could be found.
pub open spec fn may_be_taken_over(
    all: Manifests,
    installed: Versions,
    removed: Set<Seq<char>>,
    id: Seq<char>,
) -> bool {
    exists|k: int|
        0 <= k < all.len() && (#[trigger] all[k]).contains_key(id) && could_take_over(
            all,
            installed,
            removed,
            all[k][id],
        )
}

/// The topics of a cumulative entry are different from each other, and none is the id of a
/// cumulative entry that could be found.
pub open spec fn topics_are_tame(
    all: Manifests,
    installed: Versions,
    removed: Set<Seq<char>>,
    entry: EntryModel,
) -> bool {
    entry is Cumulative ==> {
        &&& entry->topics.no_duplicates()
        &&& forall|j: int|
            0 <= j < entry->topics.len() ==> !may_be_taken_over(
                all,
                installed,
                removed,
                #[trigger] entry->topics[j],
            )
    }
}

/// Every entry of the manifests can be matched.
pub open spec fn tame(all: Manifests, installed: Versions, removed: Set<Seq<char>>) -> bool {
    forall|k: int, id: Seq<char>|
        0 <= k < all.len() && #[trigger] all[k].contains_key(id) ==> all[k][id].is_readable(
            installed,
        ) && topics_are_tame(all, installed, removed, all[k][id])
}

/// The entries of which every expression that is worked off can be.
pub open spec fn readable(all: Manifests, installed: Versions) -> Manifests {
    all.map_values(
        |entries: Map<Seq<char>, EntryModel>|
            Map::new(
                |id: Seq<char>| entries.contains_key(id) && entries[id].is_readable(installed),
                |id: Seq<char>| entries[id],
            ),
    )
}

/// The entries without the cumulative ones whose topics are not as they should be.
pub open spec fn unambiguous(
    all: Manifests,
    installed: Versions,
    removed: Set<Seq<char>>,
) -> Manifests {
    all.map_values(
        |entries: Map<Seq<char>, EntryModel>|
            Map::new(
                |id: Seq<char>|
                    entries.contains_key(id) && topics_are_tame(
                        all,
                        installed,
                        removed,
                        entries[id],
                    ),
                |id: Seq<char>| entries[id],
            ),
    )
}

/// The manifests with the entries alone that can be matched.
pub open spec fn tamed(all: Manifests, installed: Versions, removed: Set<Seq<char>>) -> Manifests {
    unambiguous(readable(all, installed), installed, removed)
}

pub proof fn lemma_tamed_is_tame(all: Manifests, installed: Versions, removed: Set<Seq<char>>)
    ensures
        tame(tamed(all, installed, removed), installed, removed),
{
    let whole = readable(all, installed);
    let part = unambiguous(whole, installed, removed);
    assert forall|id: Seq<char>| may_be_found(part, installed, removed, id) implies may_be_found(
        whole,
        installed,
        removed,
        id,
    ) by {
        let k = choose|k: int|
            0 <= k < part.len() && (#[trigger] part[k]).contains_key(id)
                && part[k][id].could_match(installed, removed);
        assert(whole[k].contains_key(id));
    }
    assert forall|id: Seq<char>|
        may_be_taken_over(part, installed, removed, id) implies may_be_taken_over(
        whole,
        installed,
        removed,
        id,
    ) by {
        let k = choose|k: int|
            0 <= k < part.len() && (#[trigger] part[k]).contains_key(id) && could_take_over(
                part,
                installed,
                removed,
                part[k][id],
            );
        assert(whole[k].contains_key(id));
        assert(could_take_over(whole, installed, removed, whole[k][id]));
    }
    assert forall|k: int, id: Seq<char>|
        0 <= k < part.len() && #[trigger] part[k].contains_key(id) implies part[k][id].is_readable(
        installed,
    ) && topics_are_tame(part, installed, removed, part[k][id]) by {
        assert(whole[k].contains_key(id));
        assert(topics_are_tame(whole, installed, removed, whole[k][id]));
    }
}

/// The list names each key of the map, once each.
pub open spec fn names_keys<W>(names: Seq<String>, map: Map<Seq<char>, W>) -> bool {
    &&& texts(names).no_duplicates()
    &&& texts(names).to_set() == map.dom()
}

/// The list gives the text of each language of the map, once each.
pub open spec fn gives_texts(list: Localized, map: Map<Seq<char>, Seq<char>>) -> bool {
    &&& by_language(list@) == map
    &&& forall|i: int| 0 <= i < list@.len() ==> #[trigger] last_of_key(list@, i)
}

/// The list gives the texts of the map; there is none for none.
pub open spec fn gives_texts_if_any(
    list: Option<Localized>,
    map: Option<Map<Seq<char>, Seq<char>>>,
) -> bool {
    match (list, map) {
        (Some(list), Some(map)) => gives_texts(list, map),
        (None, None) => true,
        _ => false,
    }
}

impl EntryModel {
    /// The update tells what the entry says.
    pub open spec fn is_told_by(self, update: TopicUpdate) -> bool {
        match (self, update) {
            (
                EntryModel::Conventional { security, packages, packages_v2, name, caution, .. },
                TopicUpdate::Conventional {
                    security: told_security,
                    packages: told_packages,
                    packages_v2: told_packages_v2,
                    name: told_name,
                    caution: told_caution,
                },
            ) => {
                &&& told_security == security
                &&& names_keys(told_packages@, packages)
                &&& names_keys(told_packages_v2@, packages_v2)
                &&& gives_texts(told_name, name)
                &&& gives_texts_if_any(told_caution, caution)
            },
            (
                EntryModel::Cumulative { security, name, caution, topics },
                TopicUpdate::Cumulative {
                    security: told_security,
                    name: told_name,
                    caution: told_caution,
                    topics: told_topics,
                    ..
                },
            ) => {
                &&& told_security == security
                &&& gives_texts(told_name, name)
                &&& gives_texts_if_any(told_caution, caution)
                &&& texts(told_topics@) == topics
            },
            _ => false,
        }
    }
}

/// The entry is cumulative, and the id is one of its topics.
pub open spec fn lists_topic(entry: EntryModel, id: Seq<char>) -> bool {
    entry is Cumulative && entry->topics.contains(id)
}

/// The number is that of the packages of the topics, each topic a conventional entry of one
/// of the manifests that could match.
pub open spec fn counts_topics(
    all: Manifests,
    installed: Versions,
    removed: Set<Seq<char>>,
    topics: Seq<Seq<char>>,
    count: int,
) -> bool
    decreases topics.len(),
{
    if topics.len() == 0 {
        count == 0
    } else {
        exists|k: int|
            {
                &&& 0 <= k < all.len()
                &&& (#[trigger] all[k]).contains_key(topics.last())
                &&& all[k][topics.last()].could_match(installed, removed)
                &&& counts_topics(
                    all,
                    installed,
                    removed,
                    topics.drop_last(),
                    count - all[k][topics.last()].packages_used().dom().len(),
                )
            }
    }
}

/// The update is the entry that a manifest holds under the id. A conventional one could match;
/// of a cumulative one, each topic could.
pub open spec fn is_found(
    all: Manifests,
    k: int,
    installed: Versions,
    removed: Set<Seq<char>>,
    found: (String, TopicUpdate),
) -> bool {
    &&& 0 <= k < all.len()
    &&& all[k].contains_key(found.0@)
    &&& all[k][found.0@].is_told_by(found.1)
    &&& match found.1 {
        TopicUpdate::Conventional { .. } => all[k][found.0@].could_match(installed, removed),
        TopicUpdate::Cumulative { topics, count_packages_changed, .. } => counts_topics(
            all,
            installed,
            removed,
            texts(topics@),
            count_packages_changed as int,
        ),
    }
}

/// An update with the id was found.
pub open spec fn is_listed(found: Seq<(String, TopicUpdate)>, id: Seq<char>) -> bool {
    exists|i: int| 0 <= i < found.len() && (#[trigger] found[i]).0@ == id
}

/// Another entry stands for the id: a cumulative one of which it is a topic was found.
pub open spec fn is_stood_for(
    all: Manifests,
    found: Seq<(String, TopicUpdate)>,
    id: Seq<char>,
) -> bool {
    exists|k: int, other: Seq<char>|
        0 <= k < all.len() && #[trigger] all[k].contains_key(other) && lists_topic(
            all[k][other],
            id,
        ) && is_listed(found, other)
}

/// No other cumulative entry has the topic.
pub open spec fn is_own_topic(all: Manifests, k: int, id: Seq<char>, topic: Seq<char>) -> bool {
    forall|l: int, other: Seq<char>|
        0 <= l < all.len() && #[trigger] all[l].contains_key(other) && lists_topic(
            all[l][other],
            topic,
        ) ==> l == k && other == id
}

/// The entry is cumulative, all of its topics match, and none is another's.
pub open spec fn is_due(
    all: Manifests,
    installed: Versions,
    removed: Set<Seq<char>>,
    k: int,
    id: Seq<char>,
) -> bool {
    &&& all[k][id] is Cumulative
    &&& forall|j: int|
        0 <= j < all[k][id]->topics.len() ==> is_surely_matched(
            all,
            installed,
            removed,
            #[trigger] all[k][id]->topics[j],
        ) && is_own_topic(all, k, id, all[k][id]->topics[j])
}

/// The updates are those that the operation carries out. Each is an entry of one of the
/// manifests that could match, or a cumulative one of such entries; an id stands for one
/// only; and the topics of a cumulative one are not listed beside it. Every entry that matches
/// in any order is there, or a cumulative one that stands for it, and so is every cumulative
/// entry whose topics all match and are its own.
pub open spec fn carried_out(
    all: Manifests,
    installed: Versions,
    removed: Set<Seq<char>>,
    found: Seq<(String, TopicUpdate)>,
) -> bool {
    &&& forall|i: int|
        0 <= i < found.len() ==> exists|k: int|
            is_found(all, k, installed, removed, #[trigger] found[i])
    &&& forall|i: int, j: int|
        0 <= i < j < found.len() ==> (#[trigger] found[i]).0@ != (#[trigger] found[j]).0@
    &&& forall|i: int, j: int|
        0 <= i < found.len() && 0 <= j < found.len() ==> !texts(
            (#[trigger] found[i]).1.topics(),
        ).contains((#[trigger] found[j]).0@)
    &&& forall|k: int, id: Seq<char>|
        0 <= k < all.len() && #[trigger] all[k].contains_key(id) && all[k][id].surely_matches(
            installed,
            removed,
        ) ==> is_listed(found, id) || is_stood_for(all, found, id)
    &&& forall|k: int, id: Seq<char>|
        0 <= k < all.len() && #[trigger] all[k].contains_key(id) && is_due(
            all,
            installed,
            removed,
            k,
            id,
        ) ==> is_listed(found, id)
}

/// No id is in two manifests, no topic is in two cumulative entries, and each conventional
/// entry matches in any order of its packages or in none.
pub open spec fn is_determinate(
    all: Manifests,
    installed: Versions,
    removed: Set<Seq<char>>,
) -> bool {
    &&& forall|k: int, l: int, id: Seq<char>|
        0 <= k < all.len() && 0 <= l < all.len() && #[trigger] all[k].contains_key(id)
            && #[trigger] all[l].contains_key(id) ==> k == l
    &&& forall|k: int, id: Seq<char>, topic: Seq<char>|
        0 <= k < all.len() && #[trigger] all[k].contains_key(id) && #[trigger] lists_topic(
            all[k][id],
            topic,
        ) ==> is_own_topic(all, k, id, topic)
    &&& forall|k: int, id: Seq<char>|
        0 <= k < all.len() && #[trigger] all[k].contains_key(id) && all[k][id].could_match(
            installed,
            removed,
        ) ==> all[k][id].surely_matches(installed, removed)
}

/// The id is a topic of a cumulative entry of which each topic could be found.
pub open spec fn is_taken_up(
    all: Manifests,
    installed: Versions,
    removed: Set<Seq<char>>,
    id: Seq<char>,
) -> bool {
    exists|k: int, other: Seq<char>|
        0 <= k < all.len() && #[trigger] all[k].contains_key(other) && lists_topic(
            all[k][other],
            id,
        ) && may_be_complete(all, installed, removed, all[k][other]->topics)
}

/// The entry that a manifest holds under the id matches, and no cumulative entry takes it up;
/// or it is cumulative, and each of its topics matches.
pub open spec fn is_match(
    all: Manifests,
    installed: Versions,
    removed: Set<Seq<char>>,
    k: int,
    id: Seq<char>,
) -> bool {
    &&& 0 <= k < all.len()
    &&& all[k].contains_key(id)
    &&& match all[k][id] {
        EntryModel::Conventional { .. } => all[k][id].could_match(installed, removed)
            && !is_taken_up(all, installed, removed, id),
        EntryModel::Cumulative { topics, .. } => may_be_complete(all, installed, removed, topics),
    }
}

/// The ids of the entries that match.
pub open spec fn matched_ids(
    all: Manifests,
    installed: Versions,
    removed: Set<Seq<char>>,
) -> Set<Seq<char>> {
    Set::new(|id: Seq<char>| exists|k: int| is_match(all, installed, removed, k, id))
}

/// The ids of the updates that were found.
pub open spec fn found_ids(found: Seq<(String, TopicUpdate)>) -> Set<Seq<char>> {
    Set::new(|id: Seq<char>| is_listed(found, id))
}

proof fn lemma_topics_counted(
    all: Manifests,
    installed: Versions,
    removed: Set<Seq<char>>,
    topics: Seq<Seq<char>>,
    count: int,
)
    requires
        counts_topics(all, installed, removed, topics, count),
    ensures
        may_be_complete(all, installed, removed, topics),
    decreases topics.len(),
{
    if topics.len() > 0 {
        let k = choose|k: int|
            {
                &&& 0 <= k < all.len()
                &&& (#[trigger] all[k]).contains_key(topics.last())
                &&& all[k][topics.last()].could_match(installed, removed)
                &&& counts_topics(
                    all,
                    installed,
                    removed,
                    topics.drop_last(),
                    count - all[k][topics.last()].packages_used().dom().len(),
                )
            };
        lemma_topics_counted(
            all,
            installed,
            removed,
            topics.drop_last(),
            count - all[k][topics.last()].packages_used().dom().len(),
        );
        assert(may_be_found(all, installed, removed, topics.last()));
        assert forall|j: int| 0 <= j < topics.len() implies may_be_found(
            all,
            installed,
            removed,
            #[trigger] topics[j],
        ) by {
            if j < topics.len() - 1 {
                assert(topics.drop_last()[j] == topics[j]);
            }
        }
    }
}

/// An update found under the id is the entry that a manifest holds under it: the only one,
/// where ids are not shared.
proof fn lemma_listed_is_held(
    all: Manifests,
    installed: Versions,
    removed: Set<Seq<char>>,
    found: Seq<(String, TopicUpdate)>,
    k: int,
    id: Seq<char>,
) -> (i: int)
    requires
        is_determinate(all, installed, removed),
        carried_out(all, installed, removed, found),
        0 <= k < all.len(),
        all[k].contains_key(id),
        is_listed(found, id),
    ensures
        0 <= i < found.len(),
        found[i].0@ == id,
        is_found(all, k, installed, removed, found[i]),
{
    let i = choose|i: int| 0 <= i < found.len() && (#[trigger] found[i]).0@ == id;
    let l = choose|l: int| is_found(all, l, installed, removed, found[i]);
    assert(all[l].contains_key(id));
    assert(l == k);
    i
}

/// A cumulative entry each of whose topics could be found is found.
proof fn lemma_complete_is_listed(
    all: Manifests,
    installed: Versions,
    removed: Set<Seq<char>>,
    found: Seq<(String, TopicUpdate)>,
    k: int,
    id: Seq<char>,
)
    requires
        is_determinate(all, installed, removed),
        carried_out(all, installed, removed, found),
        0 <= k < all.len(),
        all[k].contains_key(id),
        all[k][id] is Cumulative,
        may_be_complete(all, installed, removed, all[k][id]->topics),
    ensures
        is_listed(found, id),
{
    let topics = all[k][id]->topics;
    assert forall|j: int| 0 <= j < topics.len() implies is_surely_matched(
        all,
        installed,
        removed,
        #[trigger] topics[j],
    ) && is_own_topic(all, k, id, topics[j]) by {
        assert(may_be_found(all, installed, removed, topics[j]));
        let l = choose|l: int|
            0 <= l < all.len() && (#[trigger] all[l]).contains_key(topics[j])
                && all[l][topics[j]].could_match(installed, removed);
        assert(all[l][topics[j]].surely_matches(installed, removed));
        assert(lists_topic(all[k][id], topics[j]));
    }
    assert(is_due(all, installed, removed, k, id));
}

/// Where neither ids nor topics are shared, and no match rests on an order, the updates that
/// are found are exactly the matches: the conventional entries that match, with a cumulative
/// entry in the place of its topics where all of them do.
pub proof fn law_what_is_found_is_determined(
    all: Manifests,
    installed: Versions,
    removed: Set<Seq<char>>,
    found: Seq<(String, TopicUpdate)>,
)
    requires
        is_determinate(all, installed, removed),
        carried_out(all, installed, removed, found),
    ensures
        found_ids(found) == matched_ids(all, installed, removed),
{
    assert forall|id: Seq<char>| is_listed(found, id) implies exists|k: int|
        is_match(all, installed, removed, k, id) by {
        let i = choose|i: int| 0 <= i < found.len() && (#[trigger] found[i]).0@ == id;
        let k = choose|k: int| is_found(all, k, installed, removed, found[i]);
        match found[i].1 {
            TopicUpdate::Conventional { .. } => {
                if is_taken_up(all, installed, removed, id) {
                    let (l, other) = choose|l: int, other: Seq<char>|
                        0 <= l < all.len() && #[trigger] all[l].contains_key(other) && lists_topic(
                            all[l][other],
                            id,
                        ) && may_be_complete(all, installed, removed, all[l][other]->topics);
                    lemma_complete_is_listed(all, installed, removed, found, l, other);
                    let j = lemma_listed_is_held(all, installed, removed, found, l, other);
                    assert(texts(found[j].1.topics()).contains(found[i].0@));
                    assert(false);
                }
            },
            TopicUpdate::Cumulative { topics, count_packages_changed, .. } => {
                lemma_topics_counted(
                    all,
                    installed,
                    removed,
                    texts(topics@),
                    count_packages_changed as int,
                );
            },
        }
        assert(is_match(all, installed, removed, k, id));
    }
    assert forall|id: Seq<char>| (exists|k: int|
        is_match(all, installed, removed, k, id)) implies is_listed(found, id) by {
        let k = choose|k: int| is_match(all, installed, removed, k, id);
        match all[k][id] {
            EntryModel::Conventional { .. } => {
                assert(all[k][id].surely_matches(installed, removed));
                if !is_listed(found, id) {
                    let (l, other) = choose|l: int, other: Seq<char>|
                        0 <= l < all.len() && #[trigger] all[l].contains_key(other) && lists_topic(
                            all[l][other],
                            id,
                        ) && is_listed(found, other);
                    let j = lemma_listed_is_held(all, installed, removed, found, l, other);
                    match found[j].1 {
                        TopicUpdate::Cumulative { topics, count_packages_changed, .. } => {
                            lemma_topics_counted(
                                all,
                                installed,
                                removed,
                                texts(topics@),
                                count_packages_changed as int,
                            );
                        },
                        _ => {},
                    }
                    assert(is_taken_up(all, installed, removed, id));
                }
            },
            EntryModel::Cumulative { .. } => {
                lemma_complete_is_listed(all, installed, removed, found, k, id);
            },
        }
    }
    assert(found_ids(found) =~= matched_ids(all, installed, removed));
}

} // verus!
