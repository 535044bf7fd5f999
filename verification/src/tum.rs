//! The topic updates that an operation carries out, as they are listed for the user.
use oma_pm_operation_type::OmaOperation;
use vstd::prelude::*;

use crate::manifest::matching::matching_updates;
use crate::manifest::oma::{removed_by, versions_by};
use crate::manifest::rules::{
    carried_out, found_ids, is_determinate, is_listed, matched_ids, tamed,
};
use crate::manifest::{all_contents, ManifestEntry};
use crate::sorting::{lemma_occurs_twice, stable_sort, stably_sorted, Ranked};
use crate::text::{
    is_text_before, lemma_text_before_asymmetric, lemma_text_before_transitive, text_before,
};

verus! {

/// A text by language.
pub type Localized = Vec<(String, String)>;

impl Ranked for (String, String) {
    /// By the first text, then by the second.
    open spec fn precedes(&self, other: &Self) -> bool {
        text_before(self.0@, other.0@) || (self.0@ == other.0@ && text_before(self.1@, other.1@))
    }

    proof fn precedes_asymmetric(a: &Self, b: &Self) {
        lemma_text_before_asymmetric(a.0@, b.0@);
        lemma_text_before_asymmetric(a.1@, b.1@);
    }

    proof fn precedes_transitive(a: &Self, b: &Self, c: &Self) {
        lemma_text_before_asymmetric(a.0@, b.0@);
        lemma_text_before_asymmetric(b.0@, c.0@);
        lemma_text_before_asymmetric(a.0@, c.0@);
        lemma_text_before_transitive(a.0@, b.0@, c.0@);
        if a.0@ == b.0@ && b.0@ == c.0@ {
            lemma_text_before_transitive(a.1@, b.1@, c.1@);
        }
    }

    fn is_before(&self, other: &Self) -> bool {
        if is_text_before(self.0.as_str(), other.0.as_str()) {
            return true;
        }
        self.0 == other.0 && is_text_before(self.1.as_str(), other.1.as_str())
    }
}

/// A topic update that an operation carries out. Packages are given by name, in any
/// order.
pub enum TopicUpdate {
    Conventional {
        security: bool,
        packages: Vec<String>,
        packages_v2: Vec<String>,
        name: Localized,
        caution: Option<Localized>,
    },
    Cumulative {
        security: bool,
        name: Localized,
        caution: Option<Localized>,
        topics: Vec<String>,
        count_packages_changed: usize,
    },
}

impl TopicUpdate {
    pub open spec fn is_security(self) -> bool {
        match self {
            TopicUpdate::Conventional { security, .. } => security,
            TopicUpdate::Cumulative { security, .. } => security,
        }
    }

    /// The packages of the update: those in the newer form, if it has any.
    pub open spec fn package_names(self) -> Seq<String> {
        match self {
            TopicUpdate::Conventional { packages, packages_v2, .. } => if packages_v2@.len() > 0 {
                packages_v2@
            } else {
                packages@
            },
            TopicUpdate::Cumulative { .. } => Seq::empty(),
        }
    }

    /// How many packages the update changes.
    pub open spec fn package_count(self) -> nat {
        match self {
            TopicUpdate::Conventional { .. } => self.package_names().len(),
            TopicUpdate::Cumulative { count_packages_changed, .. } => count_packages_changed as nat,
        }
    }

    pub open spec fn names(self) -> Seq<(String, String)> {
        match self {
            TopicUpdate::Conventional { name, .. } => name@,
            TopicUpdate::Cumulative { name, .. } => name@,
        }
    }

    pub open spec fn cautions(self) -> Option<Seq<(String, String)>> {
        let caution = match self {
            TopicUpdate::Conventional { caution, .. } => caution,
            TopicUpdate::Cumulative { caution, .. } => caution,
        };
        match caution {
            Some(c) => Some(c@),
            None => None,
        }
    }

    pub open spec fn topics(self) -> Seq<String> {
        match self {
            TopicUpdate::Conventional { .. } => Seq::empty(),
            TopicUpdate::Cumulative { topics, .. } => topics@,
        }
    }
}

/// A topic update as it is listed.
pub struct TumEntry {
    pub id: String,
    pub kind: &'static str,
    pub security: bool,
    pub name: Localized,
    pub caution: Option<Localized>,
    pub packages: Vec<String>,
    pub topics: Vec<String>,
    pub package_count: usize,
}

impl TumEntry {
    /// The entry lists the update: its packages, names and cautions in order, its topics as
    /// they stand.
    pub open spec fn lists(self, id: String, update: TopicUpdate) -> bool {
        &&& self.id == id
        &&& self.kind@ == match update {
            TopicUpdate::Conventional { .. } => "conventional"@,
            TopicUpdate::Cumulative { .. } => "cumulative"@,
        }
        &&& self.security == update.is_security()
        &&& stably_sorted(update.names(), self.name@)
        &&& self.caution is Some <==> update.cautions() is Some
        &&& self.caution is Some ==> stably_sorted(update.cautions()->0, self.caution->0@)
        &&& stably_sorted(update.package_names(), self.packages@)
        &&& self.topics@ == update.topics()
        &&& self.package_count == update.package_count()
    }
}

impl Ranked for TumEntry {
    /// Security updates first, then by id.
    open spec fn precedes(&self, other: &Self) -> bool {
        if self.security != other.security {
            self.security
        } else {
            text_before(self.id@, other.id@)
        }
    }

    proof fn precedes_asymmetric(a: &Self, b: &Self) {
        lemma_text_before_asymmetric(a.id@, b.id@);
    }

    proof fn precedes_transitive(a: &Self, b: &Self, c: &Self) {
        if a.security == b.security && b.security == c.security {
            lemma_text_before_transitive(a.id@, b.id@, c.id@);
        }
    }

    fn is_before(&self, other: &Self) -> bool {
        if self.security != other.security {
            self.security
        } else {
            is_text_before(self.id.as_str(), other.id.as_str())
        }
    }
}

fn sorted_localized(caution: Option<Localized>) -> (r: Option<Localized>)
    ensures
        r is Some <==> caution is Some,
        r is Some ==> stably_sorted(caution->0@, r->0@),
{
    match caution {
        Some(c) => Some(stable_sort(c)),
        None => None,
    }
}

proof fn lemma_nothing_is_sorted<T: Ranked>()
    ensures
        stably_sorted(Seq::<T>::empty(), Seq::<T>::empty()),
{
}

/// Lists one topic update.
pub fn tum_entry(id: String, update: TopicUpdate) -> (entry: TumEntry)
    ensures
        entry.lists(id, update),
{
    match update {
        TopicUpdate::Conventional { security, packages, packages_v2, name, caution } => {
            let package_names = if packages_v2.len() > 0 {
                packages_v2
            } else {
                packages
            };
            let package_count: usize = package_names.len();
            TumEntry {
                id,
                kind: "conventional",
                security,
                name: stable_sort(name),
                caution: sorted_localized(caution),
                packages: stable_sort(package_names),
                topics: Vec::new(),
                package_count,
            }
        },
        TopicUpdate::Cumulative { security, name, caution, topics, count_packages_changed } => {
            proof {
                lemma_nothing_is_sorted::<String>();
            }
            TumEntry {
                id,
                kind: "cumulative",
                security,
                name: stable_sort(name),
                caution: sorted_localized(caution),
                packages: Vec::new(),
                topics,
                package_count: count_packages_changed,
            }
        },
    }
}

/// The topic updates of an operation.
pub struct UpdatesListResponse {
    pub has_important_updates: bool,
    pub tum: Vec<TumEntry>,
}

/// `listed` lists each of the updates, in their order.
pub open spec fn lists_all(listed: Seq<TumEntry>, updates: Seq<(String, TopicUpdate)>) -> bool {
    &&& listed.len() == updates.len()
    &&& forall|i: int|
        0 <= i < listed.len() ==> (#[trigger] listed[i]).lists(updates[i].0, updates[i].1)
}

impl UpdatesListResponse {
    /// The response lists the updates: security updates first, then by id.
    pub open spec fn answers(self, updates: Seq<(String, TopicUpdate)>) -> bool {
        exists|listed: Seq<TumEntry>|
            lists_all(listed, updates) && #[trigger] stably_sorted(listed, self.tum@)
    }
}

/// The ids of the entries.
pub open spec fn listed_ids(tum: Seq<TumEntry>) -> Set<Seq<char>> {
    Set::new(|id: Seq<char>| exists|i: int| 0 <= i < tum.len() && (#[trigger] tum[i]).id@ == id)
}

/// Finds the topic updates that an operation carries out, and lists them. `None` if the
/// manifests could not be read: then there are none to list. Entries that cannot be matched
/// are left out.
pub fn updates_list_response(
    manifests: Option<Vec<Vec<(String, ManifestEntry)>>>,
    operation: &OmaOperation,
) -> (r: UpdatesListResponse)
    ensures
        r.has_important_updates <==> exists|i: int|
            0 <= i < r.tum@.len() && (#[trigger] r.tum@[i]).security,
        match manifests {
            Some(manifests) => {
                let installed = versions_by(*operation);
                let removed = removed_by(*operation);
                let all = tamed(all_contents(manifests@), installed, removed);
                &&& exists|updates: Seq<(String, TopicUpdate)>|
                    carried_out(all, installed, removed, updates) && #[trigger] r.answers(updates)
                &&& is_determinate(all, installed, removed) ==> listed_ids(r.tum@) == matched_ids(
                    all,
                    installed,
                    removed,
                )
            },
            None => r.tum@.len() == 0,
        },
{
    match manifests {
        Some(manifests) => {
            let updates = matching_updates(manifests, operation);
            let r = list_updates(Some(updates));
            proof {
                law_every_update_is_listed(updates@, r);
            }
            r
        },
        None => list_updates(None),
    }
}

/// Lists the topic updates that an operation carries out: security updates first, then by
/// id. `None` if the manifests could not be read: then there are none to list.
pub fn list_updates(matched: Option<Vec<(String, TopicUpdate)>>) -> (r: UpdatesListResponse)
    ensures
        r.has_important_updates <==> exists|i: int|
            0 <= i < r.tum@.len() && (#[trigger] r.tum@[i]).security,
        match matched {
            Some(updates) => r.answers(updates@),
            None => r.tum@.len() == 0,
        },
{
    let mut listed: Vec<TumEntry> = Vec::new();
    if let Some(updates) = matched {
        let ghost all = updates@;
        let mut rest = updates;
        while rest.len() > 0
            invariant
                rest.len() <= all.len(),
                rest@ == all.subrange(0, rest.len() as int),
                lists_all(listed@, all.subrange(rest.len() as int, all.len() as int)),
            decreases rest.len(),
        {
            let ghost later = all.subrange(rest.len() as int, all.len() as int);
            let ghost before = listed@;
            let (id, update) = rest.pop().unwrap();
            let entry = tum_entry(id, update);
            listed.insert(0, entry);
            proof {
                let now = all.subrange(rest.len() as int, all.len() as int);
                assert(now =~= seq![(id, update)] + later);
                assert(rest@ =~= all.subrange(0, rest.len() as int));
                assert forall|i: int| 0 <= i < listed@.len() implies (#[trigger] listed@[i]).lists(
                    now[i].0,
                    now[i].1,
                ) by {
                    if i > 0 {
                        assert(listed@[i] == before[i - 1]);
                        assert(now[i] == later[i - 1]);
                    }
                }
            }
        }
        assert(all.subrange(0, all.len() as int) =~= all);
    }
    let ghost all = listed@;
    let tum = stable_sort(listed);
    proof {
        all.to_multiset_ensures();
        tum@.to_multiset_ensures();
    }
    let mut has_important_updates = false;
    let mut i: usize = 0;
    while i < tum.len()
        invariant
            i <= tum.len(),
            has_important_updates <==> exists|j: int|
                0 <= j < i && (#[trigger] tum@[j]).security,
        decreases tum.len() - i,
    {
        if tum[i].security {
            has_important_updates = true;
        }
        i = i + 1;
    }
    UpdatesListResponse { has_important_updates, tum }
}

/// An update is listed as important exactly if one of the updates is a security update,
/// and then a security update comes first.
pub proof fn law_important_updates(updates: Seq<(String, TopicUpdate)>, r: UpdatesListResponse)
    requires
        r.answers(updates),
        r.has_important_updates <==> exists|i: int|
            0 <= i < r.tum@.len() && (#[trigger] r.tum@[i]).security,
    ensures
        r.tum@.len() == updates.len(),
        r.has_important_updates <==> exists|i: int|
            0 <= i < updates.len() && (#[trigger] updates[i]).1.is_security(),
        r.has_important_updates ==> r.tum@[0].security,
{
    let listed = choose|listed: Seq<TumEntry>|
        lists_all(listed, updates) && #[trigger] stably_sorted(listed, r.tum@);
    r.tum@.to_multiset_ensures();
    listed.to_multiset_ensures();
    assert forall|i: int| 0 <= i < r.tum@.len() && (#[trigger] r.tum@[i]).security implies exists|
        j: int,
    |
        0 <= j < updates.len() && (#[trigger] updates[j]).1.is_security() by {
        assert(r.tum@.contains(r.tum@[i]));
        assert(listed.to_multiset().count(r.tum@[i]) > 0);
        assert(listed.contains(r.tum@[i]));
        let j = choose|j: int| 0 <= j < listed.len() && listed[j] == r.tum@[i];
        assert(listed[j].lists(updates[j].0, updates[j].1));
        assert(updates[j].1.is_security());
    }
    assert forall|j: int| 0 <= j < updates.len() && (
    #[trigger] updates[j]).1.is_security() implies exists|i: int|
        0 <= i < r.tum@.len() && (#[trigger] r.tum@[i]).security by {
        assert(listed[j].lists(updates[j].0, updates[j].1));
        assert(listed.contains(listed[j]));
        assert(r.tum@.to_multiset().count(listed[j]) > 0);
        assert(r.tum@.contains(listed[j]));
        let i = choose|i: int| 0 <= i < r.tum@.len() && r.tum@[i] == listed[j];
        assert(r.tum@[i].security);
    }
    if r.has_important_updates {
        let i = choose|i: int| 0 <= i < r.tum@.len() && (#[trigger] r.tum@[i]).security;
        if i > 0 {
            assert(!r.tum@[i].precedes(&r.tum@[0]));
        }
    }
}

/// Every update is listed, and nothing else.
pub proof fn law_every_update_is_listed(
    updates: Seq<(String, TopicUpdate)>,
    r: UpdatesListResponse,
)
    requires
        r.answers(updates),
    ensures
        listed_ids(r.tum@) == found_ids(updates),
{
    let listed = choose|listed: Seq<TumEntry>|
        lists_all(listed, updates) && #[trigger] stably_sorted(listed, r.tum@);
    r.tum@.to_multiset_ensures();
    listed.to_multiset_ensures();
    assert forall|i: int| 0 <= i < r.tum@.len() implies is_listed(
        updates,
        (#[trigger] r.tum@[i]).id@,
    ) by {
        assert(r.tum@.contains(r.tum@[i]));
        assert(listed.to_multiset().count(r.tum@[i]) > 0);
        let j = choose|j: int| 0 <= j < listed.len() && listed[j] == r.tum@[i];
        assert(listed[j].lists(updates[j].0, updates[j].1));
        assert(updates[j].0@ == r.tum@[i].id@);
    }
    assert forall|j: int| 0 <= j < updates.len() implies listed_ids(r.tum@).contains(
        (#[trigger] updates[j]).0@,
    ) by {
        assert(listed[j].lists(updates[j].0, updates[j].1));
        assert(listed.contains(listed[j]));
        assert(r.tum@.to_multiset().count(listed[j]) > 0);
        let i = choose|i: int| 0 <= i < r.tum@.len() && r.tum@[i] == listed[j];
        assert(r.tum@[i].id@ == updates[j].0@);
    }
    assert(listed_ids(r.tum@) =~= found_ids(updates));
}

/// An update is listed once: if no two updates share an id, no two entries do.
pub proof fn law_updates_are_listed_once(
    updates: Seq<(String, TopicUpdate)>,
    r: UpdatesListResponse,
)
    requires
        r.answers(updates),
        forall|i: int, j: int|
            0 <= i < j < updates.len() ==> (#[trigger] updates[i]).0@ != (#[trigger] updates[j]).0@,
    ensures
        forall|i: int, j: int|
            0 <= i < j < r.tum@.len() ==> (#[trigger] r.tum@[i]).id@ != (#[trigger] r.tum@[j]).id@,
{
    let listed = choose|listed: Seq<TumEntry>|
        lists_all(listed, updates) && #[trigger] stably_sorted(listed, r.tum@);
    r.tum@.to_multiset_ensures();
    listed.to_multiset_ensures();
    assert forall|i: int, j: int| 0 <= i < j < r.tum@.len() implies (#[trigger] r.tum@[i]).id@ != (
    #[trigger] r.tum@[j]).id@ by {
        let a = r.tum@[i];
        let b = r.tum@[j];
        assert(r.tum@.contains(a) && r.tum@.contains(b));
        assert(listed.to_multiset().count(a) > 0 && listed.to_multiset().count(b) > 0);
        let k = choose|k: int| 0 <= k < listed.len() && listed[k] == a;
        let l = choose|l: int| 0 <= l < listed.len() && listed[l] == b;
        assert(listed[k].lists(updates[k].0, updates[k].1));
        assert(listed[l].lists(updates[l].0, updates[l].1));
        if k == l {
            let (m, n) = lemma_occurs_twice(listed, r.tum@, i, j);
            assert(listed[m].lists(updates[m].0, updates[m].1));
            assert(listed[n].lists(updates[n].0, updates[n].1));
            assert(updates[m].0@ == updates[n].0@);
        } else {
            assert(updates[k].0@ != updates[l].0@);
        }
    }
}

} // verus!
