//! Topic updates: what is listed of them, and which are.
use oma_pm_operation_type::OmaOperation;
use vstd::prelude::*;

use crate::keyed::{
    has_any, keyed, last_of_key, lemma_keyed_has_any, lemma_keyed_has_last, lemma_keyed_last,
};
use crate::manifest::expression::{
    expression_is_tame, holds_of, is_version, settles, version_pieces, Piece,
};
use crate::manifest::oma::{removed_by, versions_by};
use crate::manifest::rules::{
    carried_out, gives_texts, is_found, is_listed, names_keys, tamed,
};
use crate::manifest::{
    all_contents, by_language, contents, versions, ManifestEntry,
};
use crate::sorting::stably_sorted;
use crate::text::{text_before, text_of, texts};
use crate::tum::{
    list_updates, lists_all, tum_entry, updates_list_response, Localized, TopicUpdate, TumEntry,
    UpdatesListResponse,
};

verus! {

/// The list holds the same texts by language, in the order of the languages.
pub open spec fn in_order_of_language(out: Localized, from: Localized) -> bool {
    &&& out@.to_multiset() == from@.to_multiset()
    &&& forall|i: int, j: int|
        0 <= i < j < out@.len() ==> !text_before((#[trigger] out@[j]).0@, (#[trigger] out@[i]).0@)
}

/// The list holds the same names, in order.
pub open spec fn in_order_of_name(out: Seq<String>, from: Seq<String>) -> bool {
    &&& out.to_multiset() == from.to_multiset()
    &&& out.len() == from.len()
    &&& forall|i: int, j: int|
        0 <= i < j < out.len() ==> !text_before((#[trigger] out[j])@, (#[trigger] out[i])@)
}

/// Cautions are listed exactly if there are any.
pub open spec fn cautions_in_order(out: Option<Localized>, from: Option<Localized>) -> bool {
    match (out, from) {
        (Some(out), Some(from)) => in_order_of_language(out, from),
        (None, None) => true,
        _ => false,
    }
}

/// The entry lists everything of the update: its id, its kind, whether it is a security update,
/// its names and cautions by language; of a conventional one its packages, those in the newer
/// form if it has any; of a cumulative one its topics and how many packages they change.
pub open spec fn tells_everything(entry: TumEntry, id: String, update: TopicUpdate) -> bool {
    &&& entry.id@ == id@
    &&& match update {
        TopicUpdate::Conventional { security, packages, packages_v2, name, caution } => {
            &&& entry.kind@ == "conventional"@
            &&& entry.security == security
            &&& in_order_of_language(entry.name, name)
            &&& cautions_in_order(entry.caution, caution)
            &&& packages_v2@.len() > 0 ==> in_order_of_name(entry.packages@, packages_v2@)
            &&& packages_v2@.len() == 0 ==> in_order_of_name(entry.packages@, packages@)
            &&& entry.package_count == entry.packages@.len()
            &&& entry.topics@.len() == 0
        },
        TopicUpdate::Cumulative { security, name, caution, topics, count_packages_changed } => {
            &&& entry.kind@ == "cumulative"@
            &&& entry.security == security
            &&& in_order_of_language(entry.name, name)
            &&& cautions_in_order(entry.caution, caution)
            &&& entry.packages@.len() == 0
            &&& entry.topics@ == topics@
            &&& entry.package_count == count_packages_changed
        },
    }
}

proof fn lemma_languages(from: Localized, out: Localized)
    requires
        stably_sorted(from@, out@),
    ensures
        in_order_of_language(out, from),
{
    assert forall|i: int, j: int| 0 <= i < j < out@.len() implies !text_before(
        (#[trigger] out@[j]).0@,
        (#[trigger] out@[i]).0@,
    ) by {
        assert(!crate::sorting::Ranked::precedes(&out@[j], &out@[i]));
    }
}

proof fn lemma_names(from: Seq<String>, out: Seq<String>)
    requires
        stably_sorted(from, out),
    ensures
        in_order_of_name(out, from),
{
    from.to_multiset_ensures();
    out.to_multiset_ensures();
    assert forall|i: int, j: int| 0 <= i < j < out.len() implies !text_before(
        (#[trigger] out[j])@,
        (#[trigger] out[i])@,
    ) by {
        assert(!crate::sorting::Ranked::precedes(&out[j], &out[i]));
    }
}

proof fn lemma_tells_everything(entry: TumEntry, id: String, update: TopicUpdate)
    requires
        entry.lists(id, update),
    ensures
        tells_everything(entry, id, update),
{
    match update {
        TopicUpdate::Conventional { security, packages, packages_v2, name, caution } => {
            lemma_languages(name, entry.name);
            if caution is Some {
                lemma_languages(caution->0, entry.caution->0);
            }
            lemma_names(
                if packages_v2@.len() > 0 {
                    packages_v2@
                } else {
                    packages@
                },
                entry.packages@,
            );
        },
        TopicUpdate::Cumulative { security, name, caution, topics, count_packages_changed } => {
            lemma_languages(name, entry.name);
            if caution is Some {
                lemma_languages(caution->0, entry.caution->0);
            }
            lemma_names(Seq::empty(), entry.packages@);
        },
    }
}

/// An entry tells everything of its update, be it conventional or cumulative.
pub proof fn law_entry_tells_everything(id: String, update: TopicUpdate, entry: TumEntry)
    requires
        call_ensures(tum_entry, (id, update), entry),
    ensures
        tells_everything(entry, id, update),
{
    lemma_tells_everything(entry, id, update);
}

/// The update is a security update.
pub open spec fn is_for_security(update: TopicUpdate) -> bool {
    match update {
        TopicUpdate::Conventional { security, .. } => security,
        TopicUpdate::Cumulative { security, .. } => security,
    }
}

/// An entry of the list tells everything of the update.
pub open spec fn is_told_in(tum: Seq<TumEntry>, update: (String, TopicUpdate)) -> bool {
    exists|i: int| 0 <= i < tum.len() && tells_everything(#[trigger] tum[i], update.0, update.1)
}

/// The entry tells everything of one of the updates.
pub open spec fn tells_of_one(entry: TumEntry, updates: Seq<(String, TopicUpdate)>) -> bool {
    exists|k: int|
        0 <= k < updates.len() && tells_everything(
            entry,
            (#[trigger] updates[k]).0,
            updates[k].1,
        )
}

/// Security updates stand before all others, and within each group ids ascend.
pub open spec fn security_first(tum: Seq<TumEntry>) -> bool {
    forall|i: int, j: int|
        0 <= i < j < tum.len() ==> {
            &&& (#[trigger] tum[j]).security ==> (#[trigger] tum[i]).security
            &&& tum[j].security == tum[i].security ==> !text_before(tum[j].id@, tum[i].id@)
        }
}

proof fn lemma_all_told(updates: Seq<(String, TopicUpdate)>, r: UpdatesListResponse)
    requires
        r.answers(updates),
    ensures
        r.tum@.len() == updates.len(),
        forall|i: int| 0 <= i < r.tum@.len() ==> tells_of_one(#[trigger] r.tum@[i], updates),
        forall|k: int| 0 <= k < updates.len() ==> is_told_in(r.tum@, #[trigger] updates[k]),
        security_first(r.tum@),
{
    let listed = choose|listed: Seq<TumEntry>|
        lists_all(listed, updates) && #[trigger] stably_sorted(listed, r.tum@);
    r.tum@.to_multiset_ensures();
    listed.to_multiset_ensures();
    assert forall|i: int| 0 <= i < r.tum@.len() implies tells_of_one(
        #[trigger] r.tum@[i],
        updates,
    ) by {
        assert(r.tum@.contains(r.tum@[i]));
        assert(listed.to_multiset().count(r.tum@[i]) > 0);
        let k = choose|k: int| 0 <= k < listed.len() && listed[k] == r.tum@[i];
        assert(listed[k].lists(updates[k].0, updates[k].1));
        lemma_tells_everything(listed[k], updates[k].0, updates[k].1);
    }
    assert forall|k: int| 0 <= k < updates.len() implies is_told_in(
        r.tum@,
        #[trigger] updates[k],
    ) by {
        assert(listed[k].lists(updates[k].0, updates[k].1));
        lemma_tells_everything(listed[k], updates[k].0, updates[k].1);
        assert(listed.contains(listed[k]));
        assert(r.tum@.to_multiset().count(listed[k]) > 0);
        let i = choose|i: int| 0 <= i < r.tum@.len() && r.tum@[i] == listed[k];
        assert(tells_everything(r.tum@[i], updates[k].0, updates[k].1));
    }
    assert forall|i: int, j: int| 0 <= i < j < r.tum@.len() implies {
        &&& (#[trigger] r.tum@[j]).security ==> (#[trigger] r.tum@[i]).security
        &&& r.tum@[j].security == r.tum@[i].security ==> !text_before(
            r.tum@[j].id@,
            r.tum@[i].id@,
        )
    } by {
        assert(!crate::sorting::Ranked::precedes(&r.tum@[j], &r.tum@[i]));
    }
}

/// Every update is listed with everything there is to tell of it, and nothing else is; security
/// updates come first, then ids ascend; and there are important updates exactly if one of them is
/// a security update.
pub proof fn law_every_update_is_listed_in_full(
    updates: Vec<(String, TopicUpdate)>,
    r: UpdatesListResponse,
)
    requires
        call_ensures(list_updates, (Some(updates),), r),
    ensures
        r.tum@.len() == updates@.len(),
        forall|i: int| 0 <= i < r.tum@.len() ==> tells_of_one(#[trigger] r.tum@[i], updates@),
        forall|k: int| 0 <= k < updates@.len() ==> is_told_in(r.tum@, #[trigger] updates@[k]),
        security_first(r.tum@),
        r.has_important_updates <==> exists|k: int|
            0 <= k < updates@.len() && is_for_security((#[trigger] updates@[k]).1),
{
    lemma_all_told(updates@, r);
    if r.has_important_updates {
        let i = choose|i: int| 0 <= i < r.tum@.len() && (#[trigger] r.tum@[i]).security;
        assert(tells_of_one(r.tum@[i], updates@));
        let k = choose|k: int|
            0 <= k < updates@.len() && tells_everything(
                r.tum@[i],
                (#[trigger] updates@[k]).0,
                updates@[k].1,
            );
        assert(is_for_security(updates@[k].1));
    }
    if exists|k: int| 0 <= k < updates@.len() && is_for_security((#[trigger] updates@[k]).1) {
        let k = choose|k: int| 0 <= k < updates@.len() && is_for_security(
            (#[trigger] updates@[k]).1,
        );
        assert(is_told_in(r.tum@, updates@[k]));
        let i = choose|i: int|
            0 <= i < r.tum@.len() && tells_everything(
                #[trigger] r.tum@[i],
                updates@[k].0,
                updates@[k].1,
            );
        assert(r.tum@[i].security);
    }
}

/// Without manifests nothing is listed, whatever the operation.
pub proof fn law_without_manifests_nothing_is_listed(
    operation: OmaOperation,
    r: UpdatesListResponse,
    q: UpdatesListResponse,
)
    requires
        call_ensures(
            updates_list_response,
            (None::<Vec<Vec<(String, ManifestEntry)>>>, &operation),
            r,
        ),
        call_ensures(list_updates, (None::<Vec<(String, TopicUpdate)>>,), q),
    ensures
        r.tum@.len() == 0,
        !r.has_important_updates,
        q.tum@.len() == 0,
        !q.has_important_updates,
{
}

/// The value at `p` is the last under its key, and the key is this.
pub open spec fn is_last_under<V>(s: Seq<(String, V)>, p: int, key: Seq<char>) -> bool {
    &&& 0 <= p < s.len()
    &&& s[p].0@ == key
    &&& forall|q: int| p < q < s.len() ==> (#[trigger] s[q]).0@ != key
}

/// The pair is the last under its key, in the list.
pub open spec fn is_last_text(from: Seq<(String, String)>, pair: (String, String)) -> bool {
    exists|p: int| #[trigger] is_last_under(from, p, pair.0@) && from[p].1@ == pair.1@
}

/// The list has a value under the key.
pub open spec fn has_key<V>(s: Seq<(String, V)>, key: Seq<char>) -> bool {
    exists|i: int| 0 <= i < s.len() && (#[trigger] s[i]).0@ == key
}

/// The list holds the name.
pub open spec fn has_name(s: Seq<String>, name: Seq<char>) -> bool {
    exists|i: int| 0 <= i < s.len() && (#[trigger] s[i])@ == name
}

/// The list gives, for every language once, the last text that stands under it.
pub open spec fn gives_last_texts(out: Localized, from: Localized) -> bool {
    &&& forall|i: int| 0 <= i < out@.len() ==> is_last_text(from@, #[trigger] out@[i])
    &&& forall|p: int| 0 <= p < from@.len() ==> has_key(out@, (#[trigger] from@[p]).0@)
    &&& forall|i: int, j: int|
        0 <= i < j < out@.len() ==> (#[trigger] out@[i]).0@ != (#[trigger] out@[j]).0@
}

/// Cautions are given exactly if there are any.
pub open spec fn gives_last_cautions(out: Option<Localized>, from: Option<Localized>) -> bool {
    match (out, from) {
        (Some(out), Some(from)) => gives_last_texts(out, from),
        (None, None) => true,
        _ => false,
    }
}

/// The list names each package once.
pub open spec fn names_packages(out: Seq<String>, from: Seq<(String, Option<String>)>) -> bool {
    &&& forall|i: int| 0 <= i < out.len() ==> has_key(from, (#[trigger] out[i])@)
    &&& forall|p: int| 0 <= p < from.len() ==> has_name(out, (#[trigger] from[p]).0@)
    &&& forall|i: int, j: int| 0 <= i < j < out.len() ==> (#[trigger] out[i])@ != (#[trigger] out[j])@
}

/// The entry tells what the manifest's entry says.
pub open spec fn tells_of_manifest(entry: TumEntry, from: ManifestEntry) -> bool {
    match from {
        ManifestEntry::Conventional { security, packages, packages_v2, name, caution, .. } => {
            &&& entry.kind@ == "conventional"@
            &&& entry.security == security
            &&& gives_last_texts(entry.name, name)
            &&& gives_last_cautions(entry.caution, caution)
            &&& packages_v2@.len() > 0 ==> names_packages(entry.packages@, packages_v2@)
            &&& packages_v2@.len() == 0 ==> names_packages(entry.packages@, packages@)
            &&& entry.package_count == entry.packages@.len()
            &&& entry.topics@.len() == 0
        },
        ManifestEntry::Cumulative { security, name, caution, topics } => {
            &&& entry.kind@ == "cumulative"@
            &&& entry.security == security
            &&& gives_last_texts(entry.name, name)
            &&& gives_last_cautions(entry.caution, caution)
            &&& entry.packages@.len() == 0
            &&& entry.topics@.len() == topics@.len()
            &&& forall|j: int| 0 <= j < topics@.len() ==> (#[trigger] entry.topics@[j])@ == topics@[j]@
        },
    }
}

proof fn lemma_last_is_last<V>(s: Seq<(String, V)>, p: int)
    requires
        last_of_key(s, p),
    ensures
        is_last_under(s, p, s[p].0@),
{
}

proof fn lemma_has_key<V, W>(s: Seq<(String, V)>, value: spec_fn(V) -> W, key: Seq<char>)
    ensures
        keyed(s, value).contains_key(key) <==> has_key(s, key),
    decreases s.len(),
{
    if s.len() > 0 {
        let before = s.drop_last();
        lemma_has_key(before, value, key);
        if has_key(s, key) {
            let i = choose|i: int| 0 <= i < s.len() && (#[trigger] s[i]).0@ == key;
            if i < before.len() {
                assert(before[i].0@ == key);
            }
        }
        if has_key(before, key) {
            let i = choose|i: int| 0 <= i < before.len() && (#[trigger] before[i]).0@ == key;
            assert(s[i].0@ == key);
        }
        if keyed(s, value).contains_key(key) && !keyed(before, value).contains_key(key) {
            assert(s[s.len() - 1].0@ == key);
        }
    }
}

proof fn lemma_last_texts(list: Localized, out: Localized, from: Localized)
    requires
        gives_texts(list, by_language(from@)),
        in_order_of_language(out, list),
    ensures
        gives_last_texts(out, from),
{
    let value = |text: String| text@;
    list@.to_multiset_ensures();
    out@.to_multiset_ensures();
    assert forall|i: int| 0 <= i < out@.len() implies list@.contains(#[trigger] out@[i]) by {
        assert(out@.contains(out@[i]));
        assert(list@.to_multiset().count(out@[i]) > 0);
    }
    assert forall|i: int| 0 <= i < out@.len() implies is_last_text(from@, #[trigger] out@[i]) by {
        assert(list@.contains(out@[i]));
        let q = choose|q: int| 0 <= q < list@.len() && list@[q] == out@[i];
        assert(last_of_key(list@, q));
        lemma_keyed_last(list@, value, q);
        let p = lemma_keyed_has_last(from@, value, out@[i].0@);
        lemma_last_is_last(from@, p);
        assert(is_last_under(from@, p, out@[i].0@));
    }
    assert forall|p: int| 0 <= p < from@.len() implies has_key(
        out@,
        (#[trigger] from@[p]).0@,
    ) by {
        let key = from@[p].0@;
        assert(has_key(from@, key));
        lemma_has_key(from@, value, key);
        let q = lemma_keyed_has_last(list@, value, key);
        assert(list@.contains(list@[q]));
        assert(out@.to_multiset().count(list@[q]) > 0);
        let i = choose|i: int| 0 <= i < out@.len() && out@[i] == list@[q];
        assert(out@[i].0@ == key);
    }
    assert forall|i: int, j: int| 0 <= i < j < out@.len() implies (#[trigger] out@[i]).0@ != (
    #[trigger] out@[j]).0@ by {
        if out@[i].0@ == out@[j].0@ {
            assert(list@.contains(out@[i]) && list@.contains(out@[j]));
            let q = choose|q: int| 0 <= q < list@.len() && list@[q] == out@[i];
            let r = choose|r: int| 0 <= r < list@.len() && list@[r] == out@[j];
            assert(last_of_key(list@, q) && last_of_key(list@, r));
            assert(q == r);
            let (m, n) = crate::sorting::lemma_occurs_twice(list@, out@, i, j);
            assert(last_of_key(list@, m));
            assert(list@[n].0@ == list@[m].0@);
        }
    }
}

proof fn lemma_names_packages(
    list: Seq<String>,
    out: Seq<String>,
    from: Seq<(String, Option<String>)>,
)
    requires
        names_keys(list, versions(from)),
        in_order_of_name(out, list),
    ensures
        names_packages(out, from),
{
    let value = |version: Option<String>| text_of(version);
    list.to_multiset_ensures();
    out.to_multiset_ensures();
    let names = texts(list);
    assert forall|i: int| 0 <= i < out.len() implies list.contains(#[trigger] out[i]) by {
        assert(out.contains(out[i]));
        assert(list.to_multiset().count(out[i]) > 0);
    }
    assert forall|i: int| 0 <= i < out.len() implies has_key(from, (#[trigger] out[i])@) by {
        assert(list.contains(out[i]));
        let q = choose|q: int| 0 <= q < list.len() && list[q] == out[i];
        assert(names[q] == out[i]@);
        assert(names.to_set().contains(out[i]@));
        assert(versions(from).contains_key(out[i]@));
        lemma_has_key(from, value, out[i]@);
    }
    assert forall|p: int| 0 <= p < from.len() implies has_name(
        out,
        (#[trigger] from[p]).0@,
    ) by {
        let key = from[p].0@;
        assert(has_key(from, key));
        lemma_has_key(from, value, key);
        assert(names.to_set().contains(key));
        let q = choose|q: int| 0 <= q < names.len() && names[q] == key;
        assert(list.contains(list[q]));
        assert(out.to_multiset().count(list[q]) > 0);
        let i = choose|i: int| 0 <= i < out.len() && out[i] == list[q];
        assert(out[i]@ == key);
    }
    assert forall|i: int, j: int| 0 <= i < j < out.len() implies (#[trigger] out[i])@ != (
    #[trigger] out[j])@ by {
        if out[i]@ == out[j]@ {
            assert(list.contains(out[i]) && list.contains(out[j]));
            let q = choose|q: int| 0 <= q < list.len() && list[q] == out[i];
            let r = choose|r: int| 0 <= r < list.len() && list[r] == out[j];
            assert(names[q] == names[r]);
            assert(q == r);
            let (m, n) = crate::sorting::lemma_occurs_twice(list, out, i, j);
            assert(names[m] == names[n]);
        }
    }
}

/// What was found of an entry of a manifest, and is listed in full, tells of that entry.
proof fn lemma_tells_of_manifest(
    entry: TumEntry,
    id: String,
    update: TopicUpdate,
    from: ManifestEntry,
)
    requires
        tells_everything(entry, id, update),
        from@.is_told_by(update),
    ensures
        tells_of_manifest(entry, from),
{
    let value = |version: Option<String>| text_of(version);
    match from {
        ManifestEntry::Conventional { security, packages, packages_v2, name, caution, .. } => {
            lemma_last_texts(update->Conventional_name, entry.name, name);
            if caution is Some {
                lemma_last_texts(
                    update->Conventional_caution->0,
                    entry.caution->0,
                    caution->0,
                );
            }
            let newer = update->packages_v2;
            let older = update->packages;
            lemma_keyed_has_any(packages_v2@, value);
            if packages_v2@.len() > 0 {
                let key = choose|key: Seq<char>| versions(packages_v2@).contains_key(key);
                assert(texts(newer@).to_set().contains(key));
                assert(newer@.len() > 0);
                lemma_names_packages(newer@, entry.packages@, packages_v2@);
            } else {
                if newer@.len() > 0 {
                    assert(texts(newer@).to_set().contains(texts(newer@)[0]));
                    assert(versions(packages_v2@).contains_key(texts(newer@)[0]));
                }
                lemma_names_packages(older@, entry.packages@, packages@);
            }
        },
        ManifestEntry::Cumulative { security, name, caution, topics } => {
            lemma_last_texts(update->Cumulative_name, entry.name, name);
            if caution is Some {
                lemma_last_texts(update->Cumulative_caution->0, entry.caution->0, caution->0);
            }
            assert(texts(entry.topics@) == texts(topics@));
            assert(texts(entry.topics@).len() == entry.topics@.len());
            assert(texts(topics@).len() == topics@.len());
            assert forall|j: int| 0 <= j < topics@.len() implies (#[trigger] entry.topics@[j])@
                == topics@[j]@ by {
                assert(texts(entry.topics@)[j] == texts(topics@)[j]);
            }
        },
    }
}

/// The entry is the last that the manifest holds under its id.
pub open spec fn holds_at(
    manifests: Seq<Vec<(String, ManifestEntry)>>,
    k: int,
    p: int,
    id: Seq<char>,
) -> bool {
    0 <= k < manifests.len() && is_last_under(manifests[k]@, p, id)
}

/// The entry tells of an entry that one of the manifests holds under its id.
pub open spec fn tells_of_held(
    entry: TumEntry,
    manifests: Seq<Vec<(String, ManifestEntry)>>,
) -> bool {
    exists|k: int, p: int|
        #[trigger] holds_at(manifests, k, p, entry.id@) && tells_of_manifest(
            entry,
            manifests[k]@[p].1,
        )
}

/// Every listed entry tells what a manifest says under its id: the same texts by language, the
/// same cautions, the same packages or topics, and whether it is a security update. Security
/// updates come first, and there are important updates exactly if one is listed.
pub proof fn law_listed_entry_tells_what_a_manifest_says(
    manifests: Vec<Vec<(String, ManifestEntry)>>,
    operation: OmaOperation,
    r: UpdatesListResponse,
)
    requires
        call_ensures(updates_list_response, (Some(manifests), &operation), r),
    ensures
        forall|i: int| 0 <= i < r.tum@.len() ==> tells_of_held(#[trigger] r.tum@[i], manifests@),
        forall|i: int, j: int|
            0 <= i < j < r.tum@.len() ==> (#[trigger] r.tum@[i]).id@ != (#[trigger] r.tum@[j]).id@,
        security_first(r.tum@),
        r.has_important_updates <==> exists|i: int|
            0 <= i < r.tum@.len() && (#[trigger] r.tum@[i]).security,
{
    let installed = versions_by(operation);
    let removed = removed_by(operation);
    let all = tamed(all_contents(manifests@), installed, removed);
    let updates = choose|updates: Seq<(String, TopicUpdate)>|
        carried_out(all, installed, removed, updates) && #[trigger] r.answers(updates);
    lemma_all_told(updates, r);
    crate::tum::law_updates_are_listed_once(updates, r);
    assert forall|i: int| 0 <= i < r.tum@.len() implies tells_of_held(
        #[trigger] r.tum@[i],
        manifests@,
    ) by {
        let entry = r.tum@[i];
        assert(tells_of_one(entry, updates));
        let n = choose|n: int|
            0 <= n < updates.len() && tells_everything(
                entry,
                (#[trigger] updates[n]).0,
                updates[n].1,
            );
        let k = choose|k: int| is_found(all, k, installed, removed, updates[n]);
        let id = updates[n].0@;
        let held = contents(manifests@[k]@);
        assert(all_contents(manifests@)[k] == held);
        assert(held.contains_key(id) && held[id] == all[k][id]);
        let p = lemma_keyed_has_last(manifests@[k]@, |entry: ManifestEntry| entry@, id);
        lemma_last_is_last(manifests@[k]@, p);
        assert(holds_at(manifests@, k, p, entry.id@));
        lemma_tells_of_manifest(entry, updates[n].0, updates[n].1, manifests@[k]@[p].1);
    }
}

/// An expression on versions: a comparison, or two expressions that are joined.
pub enum Expression {
    Comparison(Piece),
    Joined(Box<Expression>, Box<Expression>, Piece),
}

impl Expression {
    /// Comparisons compare, and connectives connect.
    pub open spec fn is_well_formed(self) -> bool
        decreases self,
    {
        match self {
            Expression::Comparison(by) => by == Piece::Eq || by == Piece::EqEq || by == Piece::NotEq
                || by == Piece::GtEq || by == Piece::LtEq || by == Piece::Gt || by == Piece::Lt,
            Expression::Joined(a, b, by) => (by == Piece::Or || by == Piece::And)
                && a.is_well_formed() && b.is_well_formed(),
        }
    }

    /// The pieces of the expression, operands before their operator.
    pub open spec fn pieces(self) -> Seq<Piece>
        decreases self,
    {
        match self {
            Expression::Comparison(by) => seq![Piece::VersionNumber, Piece::VersionNumber, by],
            Expression::Joined(a, b, by) => a.pieces() + b.pieces() + seq![by],
        }
    }
}

proof fn lemma_expression_settles(e: Expression, before: Seq<Piece>, after: Seq<Piece>, depth: nat)
    requires
        e.is_well_formed(),
    ensures
        settles(before + e.pieces() + after, before.len() as int, depth) == settles(
            before + e.pieces() + after,
            (before.len() + e.pieces().len()) as int,
            depth + 1,
        ),
    decreases e,
{
    let all = before + e.pieces() + after;
    let i = before.len() as int;
    match e {
        Expression::Comparison(by) => {
            assert(all[i] == Piece::VersionNumber);
            assert(all[i + 1] == Piece::VersionNumber);
            assert(all[i + 2] == by);
        },
        Expression::Joined(a, b, by) => {
            let tail = seq![by] + after;
            assert(all =~= before + a.pieces() + (b.pieces() + tail));
            assert(all =~= (before + a.pieces()) + b.pieces() + tail);
            lemma_expression_settles(*a, before, b.pieces() + tail, depth);
            lemma_expression_settles(*b, before + a.pieces(), tail, depth + 1);
            let j = i + a.pieces().len() + b.pieces().len();
            assert(all[j] == by);
            assert(j + 1 == i + e.pieces().len());
        },
    }
}

/// The expression is refused by the parser, or it is a well-formed one.
pub open spec fn is_sound(text: Seq<char>) -> bool {
    version_pieces(text) is None || exists|e: Expression|
        #[trigger] e.is_well_formed() && version_pieces(text) == Some(e.pieces())
}

/// Every well-formed expression can be worked off, however long it is.
pub proof fn law_well_formed_expressions_are_worked_off(text: Seq<char>)
    requires
        is_sound(text),
    ensures
        expression_is_tame(text),
{
    if version_pieces(text) is Some {
        let e = choose|e: Expression|
            #[trigger] e.is_well_formed() && version_pieces(text) == Some(e.pieces());
        lemma_expression_settles(e, Seq::empty(), Seq::empty(), 0);
        assert(Seq::<Piece>::empty() + e.pieces() + Seq::<Piece>::empty() =~= e.pieces());
    }
}

/// The operation does to the package what the entry says: it takes it away, if the entry gives no
/// version; else it puts it in, in that version, or, in the newer form, in the place of a version
/// of which the expression holds.
pub open spec fn does(
    operation: OmaOperation,
    package: (String, Option<String>),
    newer: bool,
) -> bool {
    let name = package.0@;
    match package.1 {
        None => removed_by(operation).contains(name),
        Some(wanted) => {
            &&& versions_by(operation).contains_key(name)
            &&& newer ==> {
                &&& versions_by(operation)[name].0 is Some
                &&& version_pieces(wanted@) is Some
                &&& holds_of(wanted@, versions_by(operation)[name].0->0) == Some(true)
            }
            &&& !newer ==> is_version(versions_by(operation)[name].1, wanted@) == Some(true)
        },
    }
}

/// The operation has nothing to do with what the entry says of the package: it does not take it
/// away, if the entry gives no version, and does not put it in otherwise.
pub open spec fn does_not_touch(operation: OmaOperation, package: (String, Option<String>)) -> bool {
    match package.1 {
        None => !removed_by(operation).contains(package.0@),
        Some(_) => !versions_by(operation).contains_key(package.0@),
    }
}

/// Every expression of the packages whose version is replaced is sound.
pub open spec fn has_sound_expressions(
    operation: OmaOperation,
    packages: Seq<(String, Option<String>)>,
) -> bool {
    forall|p: int|
        0 <= p < packages.len() && (#[trigger] packages[p]).1 is Some && versions_by(
            operation,
        ).contains_key(packages[p].0@) && versions_by(operation)[packages[p].0@].0 is Some
            ==> is_sound(packages[p].1->0@)
}

/// The packages of a conventional entry: those in the newer form, if it has any.
pub open spec fn used_by(entry: ManifestEntry) -> Seq<(String, Option<String>)> {
    match entry {
        ManifestEntry::Conventional { packages, packages_v2, .. } => if packages_v2@.len() > 0 {
            packages_v2@
        } else {
            packages@
        },
        ManifestEntry::Cumulative { .. } => Seq::empty(),
    }
}

/// The operation does what a conventional entry says: to all of its packages, or, where not all
/// must match, to one.
pub open spec fn carries_out(operation: OmaOperation, entry: ManifestEntry) -> bool {
    match entry {
        ManifestEntry::Conventional { packages_v2, must_match_all, .. } => {
            let newer = packages_v2@.len() > 0;
            let used = used_by(entry);
            &&& has_sound_expressions(operation, packages_v2@)
            &&& must_match_all ==> forall|p: int|
                0 <= p < used.len() ==> does(operation, #[trigger] used[p], newer)
            &&& !must_match_all ==> exists|p: int| #[trigger]
                is_last_under(used, p, used[p].0@) && does(operation, used[p], newer)
        },
        ManifestEntry::Cumulative { .. } => false,
    }
}

/// The operation cannot carry out a conventional entry: it does not touch one of the packages of
/// which all must match, or none of those of which one must.
pub open spec fn cannot_carry_out(operation: OmaOperation, entry: ManifestEntry) -> bool {
    match entry {
        ManifestEntry::Conventional { must_match_all, .. } => {
            let used = used_by(entry);
            &&& must_match_all ==> exists|p: int| #[trigger]
                is_last_under(used, p, used[p].0@) && does_not_touch(operation, used[p])
            &&& !must_match_all ==> used.len() > 0 && forall|p: int|
                0 <= p < used.len() ==> does_not_touch(operation, #[trigger] used[p])
        },
        ManifestEntry::Cumulative { .. } => false,
    }
}

proof fn lemma_readable(operation: OmaOperation, entry: ManifestEntry)
    requires
        entry is Conventional,
        has_sound_expressions(operation, entry->packages_v2@),
    ensures
        entry@.is_readable(versions_by(operation)),
{
    let value = |version: Option<String>| text_of(version);
    let installed = versions_by(operation);
    let packages = entry->packages_v2@;
    assert forall|name: Seq<char>| #[trigger]
        versions(packages).contains_key(name) && versions(packages)[name] is Some
            && installed.contains_key(name)
            && installed[name].0 is Some implies expression_is_tame(
        versions(packages)[name]->0,
    ) by {
        let p = lemma_keyed_has_last(packages, value, name);
        assert(packages[p].1 is Some);
        law_well_formed_expressions_are_worked_off(packages[p].1->0@);
    }
}

proof fn lemma_used(entry: ManifestEntry)
    requires
        entry is Conventional,
    ensures
        entry@.packages_used() == versions(used_by(entry)),
        has_any(entry@->packages_v2) == (entry->packages_v2@.len() > 0),
{
    let value = |version: Option<String>| text_of(version);
    lemma_keyed_has_any(entry->packages_v2@, value);
}

proof fn lemma_carried_out_matches(operation: OmaOperation, entry: ManifestEntry)
    requires
        carries_out(operation, entry),
    ensures
        entry@.surely_matches(versions_by(operation), removed_by(operation)),
        entry@.is_readable(versions_by(operation)),
{
    let value = |version: Option<String>| text_of(version);
    let installed = versions_by(operation);
    let removed = removed_by(operation);
    let used = used_by(entry);
    lemma_used(entry);
    let newer = entry->packages_v2@.len() > 0;
    lemma_readable(operation, entry);
    assert forall|p: int|
        last_of_key(used, p) && does(operation, #[trigger] used[p], newer) implies entry@.answer(
        used[p].0@,
        installed,
        removed,
    ) == Some(true) by {
        lemma_keyed_last(used, value, p);
    }
    if entry->must_match_all {
        assert forall|name: Seq<char>| #[trigger]
            entry@.packages_used().contains_key(name) implies entry@.answer(
            name,
            installed,
            removed,
        ) == Some(true) by {
            let p = lemma_keyed_has_last(used, value, name);
            assert(does(operation, used[p], newer));
        }
    } else {
        let p = choose|p: int| #[trigger]
            is_last_under(used, p, used[p].0@) && does(operation, used[p], newer);
        assert(last_of_key(used, p));
        lemma_keyed_last(used, value, p);
        assert(entry@.packages_used().contains_key(used[p].0@));
    }
}

proof fn lemma_untouched_does_not_match(operation: OmaOperation, entry: ManifestEntry)
    requires
        cannot_carry_out(operation, entry),
    ensures
        !entry@.could_match(versions_by(operation), removed_by(operation)),
{
    let value = |version: Option<String>| text_of(version);
    let installed = versions_by(operation);
    let removed = removed_by(operation);
    let used = used_by(entry);
    lemma_used(entry);
    assert forall|p: int|
        last_of_key(used, p) && does_not_touch(operation, #[trigger] used[p]) implies entry@.answer(
        used[p].0@,
        installed,
        removed,
    ) == Some(false) by {
        lemma_keyed_last(used, value, p);
    }
    if entry->must_match_all {
        let p = choose|p: int| #[trigger]
            is_last_under(used, p, used[p].0@) && does_not_touch(operation, used[p]);
        assert(last_of_key(used, p));
        lemma_keyed_last(used, value, p);
        assert(entry@.packages_used().contains_key(used[p].0@));
    } else {
        lemma_keyed_has_any(used, value);
        assert forall|name: Seq<char>| #[trigger]
            entry@.packages_used().contains_key(name) implies entry@.answer(
            name,
            installed,
            removed,
        ) == Some(false) by {
            let p = lemma_keyed_has_last(used, value, name);
            assert(does_not_touch(operation, used[p]));
        }
    }
}

/// The entry at that place is cumulative, and the id is one of its topics.
pub open spec fn has_topic(
    manifests: Seq<Vec<(String, ManifestEntry)>>,
    k: int,
    p: int,
    id: Seq<char>,
) -> bool {
    &&& 0 <= k < manifests.len()
    &&& 0 <= p < manifests[k]@.len()
    &&& manifests[k]@[p].1 is Cumulative
    &&& has_name(manifests[k]@[p].1->topics@, id)
}

/// An entry with the id is in the list.
pub open spec fn is_in_tum(tum: Seq<TumEntry>, id: Seq<char>) -> bool {
    exists|i: int| 0 <= i < tum.len() && (#[trigger] tum[i]).id@ == id
}

proof fn lemma_topic_texts(topics: Seq<String>, id: Seq<char>)
    ensures
        texts(topics).contains(id) <==> has_name(topics, id),
{
    if texts(topics).contains(id) {
        let j = choose|j: int| 0 <= j < texts(topics).len() && texts(topics)[j] == id;
        assert(topics[j]@ == id);
    }
    if has_name(topics, id) {
        let j = choose|j: int| 0 <= j < topics.len() && (#[trigger] topics[j])@ == id;
        assert(texts(topics)[j] == id);
    }
}

/// What a manifest holds at a place is what it holds under the id.
proof fn lemma_held(manifests: Seq<Vec<(String, ManifestEntry)>>, k: int, p: int, id: Seq<char>)
    requires
        holds_at(manifests, k, p, id),
    ensures
        all_contents(manifests)[k].contains_key(id),
        all_contents(manifests)[k][id] == manifests[k]@[p].1@,
{
    assert(last_of_key(manifests[k]@, p));
    lemma_keyed_last(manifests[k]@, |entry: ManifestEntry| entry@, p);
    assert(all_contents(manifests)[k] == contents(manifests[k]@));
}

/// Where what a manifest holds under an id stands in it.
proof fn lemma_place(manifests: Seq<Vec<(String, ManifestEntry)>>, k: int, id: Seq<char>) -> (p: int)
    requires
        0 <= k < manifests.len(),
        all_contents(manifests)[k].contains_key(id),
    ensures
        holds_at(manifests, k, p, id),
        all_contents(manifests)[k][id] == manifests[k]@[p].1@,
{
    assert(all_contents(manifests)[k] == contents(manifests[k]@));
    let p = lemma_keyed_has_last(manifests[k]@, |entry: ManifestEntry| entry@, id);
    lemma_last_is_last(manifests[k]@, p);
    p
}

proof fn lemma_tamed_is_part(
    manifests: Seq<Vec<(String, ManifestEntry)>>,
    operation: OmaOperation,
    k: int,
    id: Seq<char>,
)
    requires
        0 <= k < manifests.len(),
        tamed(all_contents(manifests), versions_by(operation), removed_by(operation))[k].contains_key(
            id,
        ),
    ensures
        all_contents(manifests)[k].contains_key(id),
        tamed(all_contents(manifests), versions_by(operation), removed_by(operation))[k][id]
            == all_contents(manifests)[k][id],
{
}

/// A conventional entry that the operation carries out, and that is nobody's topic, is listed,
/// whatever else the manifests hold.
pub proof fn law_what_is_carried_out_is_listed(
    manifests: Vec<Vec<(String, ManifestEntry)>>,
    operation: OmaOperation,
    r: UpdatesListResponse,
    k: int,
    p: int,
    id: Seq<char>,
)
    requires
        call_ensures(updates_list_response, (Some(manifests), &operation), r),
        holds_at(manifests@, k, p, id),
        carries_out(operation, manifests@[k]@[p].1),
        forall|l: int, q: int| !#[trigger] has_topic(manifests@, l, q, id),
    ensures
        is_in_tum(r.tum@, id),
{
    let installed = versions_by(operation);
    let removed = removed_by(operation);
    let all = tamed(all_contents(manifests@), installed, removed);
    let updates = choose|updates: Seq<(String, TopicUpdate)>|
        carried_out(all, installed, removed, updates) && #[trigger] r.answers(updates);
    lemma_carried_out_matches(operation, manifests@[k]@[p].1);
    lemma_held(manifests@, k, p, id);
    assert(all[k].contains_key(id));
    assert(all[k][id] == manifests@[k]@[p].1@);
    if crate::manifest::rules::is_stood_for(all, updates, id) {
        let (l, other) = choose|l: int, other: Seq<char>|
            0 <= l < all.len() && #[trigger] all[l].contains_key(other)
                && crate::manifest::rules::lists_topic(all[l][other], id) && is_listed(
                updates,
                other,
            );
        lemma_tamed_is_part(manifests@, operation, l, other);
        let q = lemma_place(manifests@, l, other);
        lemma_topic_texts(manifests@[l]@[q].1->topics@, id);
        assert(has_topic(manifests@, l, q, id));
    }
    lemma_listed_is_told(updates, r, id);
}

proof fn lemma_listed_is_told(
    updates: Seq<(String, TopicUpdate)>,
    r: UpdatesListResponse,
    id: Seq<char>,
)
    requires
        r.answers(updates),
    ensures
        is_listed(updates, id) <==> is_in_tum(r.tum@, id),
{
    lemma_all_told(updates, r);
    if is_listed(updates, id) {
        let n = choose|n: int| 0 <= n < updates.len() && (#[trigger] updates[n]).0@ == id;
        assert(is_told_in(r.tum@, updates[n]));
        let i = choose|i: int|
            0 <= i < r.tum@.len() && tells_everything(
                #[trigger] r.tum@[i],
                updates[n].0,
                updates[n].1,
            );
        assert(r.tum@[i].id@ == id);
    }
    if is_in_tum(r.tum@, id) {
        let i = choose|i: int| 0 <= i < r.tum@.len() && (#[trigger] r.tum@[i]).id@ == id;
        assert(tells_of_one(r.tum@[i], updates));
        let n = choose|n: int|
            0 <= n < updates.len() && tells_everything(
                r.tum@[i],
                (#[trigger] updates[n]).0,
                updates[n].1,
            );
        assert(updates[n].0@ == id);
    }
}

/// What the operation cannot carry out is not listed.
pub proof fn law_what_cannot_be_carried_out_is_not_listed(
    manifests: Vec<Vec<(String, ManifestEntry)>>,
    operation: OmaOperation,
    r: UpdatesListResponse,
    id: Seq<char>,
)
    requires
        call_ensures(updates_list_response, (Some(manifests), &operation), r),
        forall|k: int, p: int| #[trigger]
            holds_at(manifests@, k, p, id) ==> cannot_carry_out(
                operation,
                manifests@[k]@[p].1,
            ),
    ensures
        !is_in_tum(r.tum@, id),
{
    let installed = versions_by(operation);
    let removed = removed_by(operation);
    let all = tamed(all_contents(manifests@), installed, removed);
    let updates = choose|updates: Seq<(String, TopicUpdate)>|
        carried_out(all, installed, removed, updates) && #[trigger] r.answers(updates);
    lemma_listed_is_told(updates, r, id);
    if is_listed(updates, id) {
        let n = choose|n: int| 0 <= n < updates.len() && (#[trigger] updates[n]).0@ == id;
        let k = choose|k: int| is_found(all, k, installed, removed, updates[n]);
        lemma_tamed_is_part(manifests@, operation, k, id);
        let p = lemma_place(manifests@, k, id);
        assert(cannot_carry_out(operation, manifests@[k]@[p].1));
        lemma_untouched_does_not_match(operation, manifests@[k]@[p].1);
    }
}

/// A manifest holds a conventional entry under the id that the operation carries out.
pub open spec fn is_carried_out(
    manifests: Seq<Vec<(String, ManifestEntry)>>,
    operation: OmaOperation,
    id: Seq<char>,
) -> bool {
    exists|k: int, p: int| #[trigger]
        holds_at(manifests, k, p, id) && carries_out(operation, manifests[k]@[p].1)
}

/// A cumulative entry of which the operation carries out every topic stands in their place: it is
/// listed, and they are not. Its topics are different from each other, no cumulative entry stands
/// under one of them, and no other cumulative entry has one of them; and its id is its own.
pub proof fn law_cumulative_entry_takes_the_place_of_its_topics(
    manifests: Vec<Vec<(String, ManifestEntry)>>,
    operation: OmaOperation,
    r: UpdatesListResponse,
    k: int,
    p: int,
    id: Seq<char>,
)
    requires
        call_ensures(updates_list_response, (Some(manifests), &operation), r),
        holds_at(manifests@, k, p, id),
        manifests@[k]@[p].1 is Cumulative,
        forall|l: int, q: int| #[trigger] holds_at(manifests@, l, q, id) ==> l == k,
        forall|i: int, j: int|
            0 <= i < j < manifests@[k]@[p].1->topics@.len() ==> (
            #[trigger] manifests@[k]@[p].1->topics@[i])@ != (
            #[trigger] manifests@[k]@[p].1->topics@[j])@,
        forall|j: int|
            0 <= j < manifests@[k]@[p].1->topics@.len() ==> is_carried_out(
                manifests@,
                operation,
                (#[trigger] manifests@[k]@[p].1->topics@[j])@,
            ),
        forall|j: int, l: int, q: int|
            0 <= j < manifests@[k]@[p].1->topics@.len() && holds_at(
                manifests@,
                l,
                q,
                (#[trigger] manifests@[k]@[p].1->topics@[j])@,
            ) ==> #[trigger] manifests@[l]@[q].1 is Conventional,
        forall|j: int, l: int, q: int|
            0 <= j < manifests@[k]@[p].1->topics@.len() && #[trigger] has_topic(
                manifests@,
                l,
                q,
                (#[trigger] manifests@[k]@[p].1->topics@[j])@,
            ) ==> l == k && manifests@[l]@[q].0@ == id,
    ensures
        is_in_tum(r.tum@, id),
        forall|j: int|
            0 <= j < manifests@[k]@[p].1->topics@.len() ==> !is_in_tum(
                r.tum@,
                (#[trigger] manifests@[k]@[p].1->topics@[j])@,
            ),
{
    let installed = versions_by(operation);
    let removed = removed_by(operation);
    let whole = all_contents(manifests@);
    let part = crate::manifest::rules::readable(whole, installed);
    let all = tamed(whole, installed, removed);
    let topics = manifests@[k]@[p].1->topics@;
    let updates = choose|updates: Seq<(String, TopicUpdate)>|
        carried_out(all, installed, removed, updates) && #[trigger] r.answers(updates);
    lemma_held(manifests@, k, p, id);
    let model = manifests@[k]@[p].1@;
    assert(model->topics == texts(topics));
    assert(texts(topics).no_duplicates()) by {
        assert forall|i: int, j: int| 0 <= i < j < texts(topics).len() implies texts(topics)[i]
            != texts(topics)[j] by {
            assert(topics[i]@ != topics[j]@);
        }
    }
    assert forall|j: int| 0 <= j < topics.len() implies !crate::manifest::rules::may_be_taken_over(
        part,
        installed,
        removed,
        #[trigger] texts(topics)[j],
    ) by {
        let topic = topics[j]@;
        assert(texts(topics)[j] == topic);
        if crate::manifest::rules::may_be_taken_over(part, installed, removed, topic) {
            let l = choose|l: int|
                0 <= l < part.len() && (#[trigger] part[l]).contains_key(topic)
                    && crate::manifest::rules::could_take_over(
                    part,
                    installed,
                    removed,
                    part[l][topic],
                );
            let q = lemma_place(manifests@, l, topic);
            assert(manifests@[l]@[q].1 is Conventional);
        }
    }
    assert(crate::manifest::rules::topics_are_tame(part, installed, removed, model));
    assert(part[k].contains_key(id) && part[k][id] == model);
    assert(all[k].contains_key(id) && all[k][id] == model);
    assert forall|j: int| 0 <= j < texts(topics).len() implies
        crate::manifest::rules::is_surely_matched(
        all,
        installed,
        removed,
        #[trigger] texts(topics)[j],
    ) && crate::manifest::rules::is_own_topic(all, k, id, texts(topics)[j]) by {
        let topic = topics[j]@;
        assert(texts(topics)[j] == topic);
        assert(is_carried_out(manifests@, operation, topic));
        let (l, q) = choose|l: int, q: int| #[trigger]
            holds_at(manifests@, l, q, topic) && carries_out(operation, manifests@[l]@[q].1);
        lemma_held(manifests@, l, q, topic);
        lemma_carried_out_matches(operation, manifests@[l]@[q].1);
        assert(all[l].contains_key(topic) && all[l][topic] == manifests@[l]@[q].1@);
        assert forall|m: int, other: Seq<char>|
            0 <= m < all.len() && #[trigger] all[m].contains_key(other)
                && crate::manifest::rules::lists_topic(all[m][other], topic) implies m == k && other
            == id by {
            lemma_tamed_is_part(manifests@, operation, m, other);
            let s = lemma_place(manifests@, m, other);
            lemma_topic_texts(manifests@[m]@[s].1->topics@, topic);
            assert(has_topic(manifests@, m, s, topics[j]@));
        }
    }
    assert(crate::manifest::rules::is_due(all, installed, removed, k, id));
    assert(is_listed(updates, id));
    lemma_listed_is_told(updates, r, id);
    let n = choose|n: int| 0 <= n < updates.len() && (#[trigger] updates[n]).0@ == id;
    let l = choose|l: int| is_found(all, l, installed, removed, updates[n]);
    lemma_tamed_is_part(manifests@, operation, l, id);
    let q = lemma_place(manifests@, l, id);
    assert(l == k);
    assert(model.is_told_by(updates[n].1));
    assert(texts(updates[n].1.topics()) == texts(topics));
    assert forall|j: int| 0 <= j < topics.len() implies !is_in_tum(
        r.tum@,
        (#[trigger] topics[j])@,
    ) by {
        let topic = topics[j]@;
        lemma_listed_is_told(updates, r, topic);
        assert(texts(topics)[j] == topic);
        assert(texts(topics).contains(topic));
        if is_listed(updates, topic) {
            let m = choose|m: int| 0 <= m < updates.len() && (#[trigger] updates[m]).0@ == topic;
            assert(!texts(updates[n].1.topics()).contains(updates[m].0@));
        }
    }
}

/// The names that stand in the list.
pub open spec fn names_in(packages: Seq<(String, Option<String>)>) -> Set<Seq<char>> {
    Set::new(|name: Seq<char>| has_key(packages, name))
}

/// The number is that of the packages of the topics, each topic a conventional entry of one of the
/// manifests.
pub open spec fn counts_packages(
    manifests: Seq<Vec<(String, ManifestEntry)>>,
    topics: Seq<String>,
    count: int,
) -> bool
    decreases topics.len(),
{
    if topics.len() == 0 {
        count == 0
    } else {
        exists|k: int, p: int|
            {
                &&& #[trigger] holds_at(manifests, k, p, topics.last()@)
                &&& manifests[k]@[p].1 is Conventional
                &&& counts_packages(
                    manifests,
                    topics.drop_last(),
                    count - names_in(used_by(manifests[k]@[p].1)).len(),
                )
            }
    }
}

proof fn lemma_packages_counted(
    manifests: Seq<Vec<(String, ManifestEntry)>>,
    operation: OmaOperation,
    topics: Seq<String>,
    count: int,
)
    requires
        crate::manifest::rules::counts_topics(
            tamed(all_contents(manifests), versions_by(operation), removed_by(operation)),
            versions_by(operation),
            removed_by(operation),
            texts(topics),
            count,
        ),
    ensures
        counts_packages(manifests, topics, count),
    decreases topics.len(),
{
    let installed = versions_by(operation);
    let removed = removed_by(operation);
    let all = tamed(all_contents(manifests), installed, removed);
    assert(texts(topics).len() == topics.len());
    if topics.len() > 0 {
        let topic = topics.last()@;
        assert(texts(topics).last() == topic);
        assert(texts(topics).drop_last() =~= texts(topics.drop_last()));
        let k = choose|k: int|
            {
                &&& 0 <= k < all.len()
                &&& (#[trigger] all[k]).contains_key(texts(topics).last())
                &&& all[k][texts(topics).last()].could_match(installed, removed)
                &&& crate::manifest::rules::counts_topics(
                    all,
                    installed,
                    removed,
                    texts(topics).drop_last(),
                    count - all[k][texts(topics).last()].packages_used().dom().len(),
                )
            };
        lemma_tamed_is_part(manifests, operation, k, topic);
        let p = lemma_place(manifests, k, topic);
        let entry = manifests[k]@[p].1;
        lemma_used(entry);
        let used = used_by(entry);
        assert forall|name: Seq<char>| versions(used).dom().contains(name) <==> names_in(
            used,
        ).contains(name) by {
            lemma_has_key(used, |version: Option<String>| text_of(version), name);
        }
        assert(versions(used).dom() =~= names_in(used));
        lemma_packages_counted(
            manifests,
            operation,
            topics.drop_last(),
            count - names_in(used).len(),
        );
        assert(holds_at(manifests, k, p, topics.last()@));
    }
}

/// A cumulative entry is listed with the number of packages that its topics change.
pub proof fn law_cumulative_entry_counts_its_packages(
    manifests: Vec<Vec<(String, ManifestEntry)>>,
    operation: OmaOperation,
    r: UpdatesListResponse,
    i: int,
)
    requires
        call_ensures(updates_list_response, (Some(manifests), &operation), r),
        0 <= i < r.tum@.len(),
        r.tum@[i].kind@ == "cumulative"@,
    ensures
        counts_packages(manifests@, r.tum@[i].topics@, r.tum@[i].package_count as int),
{
    reveal_strlit("cumulative");
    reveal_strlit("conventional");
    let installed = versions_by(operation);
    let removed = removed_by(operation);
    let all = tamed(all_contents(manifests@), installed, removed);
    let entry = r.tum@[i];
    let updates = choose|updates: Seq<(String, TopicUpdate)>|
        carried_out(all, installed, removed, updates) && #[trigger] r.answers(updates);
    lemma_all_told(updates, r);
    assert(tells_of_one(entry, updates));
    let n = choose|n: int|
        0 <= n < updates.len() && tells_everything(
            entry,
            (#[trigger] updates[n]).0,
            updates[n].1,
        );
    let k = choose|k: int| is_found(all, k, installed, removed, updates[n]);
    assert("cumulative"@.len() != "conventional"@.len());
    assert(updates[n].1 is Cumulative);
    lemma_packages_counted(manifests@, operation, entry.topics@, entry.package_count as int);
}

} // verus!
