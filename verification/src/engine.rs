//! The discovery and reconciliation engine.
//!
//! Both entry points — a full reconciliation against a listing of running
//! containers, and an incremental step for one lifecycle event — run every
//! identifier through the same gate: an identifier in the removed set is
//! never re-added, an identifier already recorded causes no dashboard
//! mutation, and identifiers no longer present are dropped from the record
//! only, never deleted from the dashboard.
//!
//! The removed set is the sole deletion memory: an app deleted through the
//! dashboard's own interface, without the identifier entering the removed
//! set, reappears on the next full scan. That is a policy of this engine,
//! not an accident.

use vstd::prelude::*;

use crate::discovery::{AppModel, ContainerEvent, DiscoveredApp};
use crate::state::{find_app, has_app, AppRecord, AppRecordModel, State, StateModel};

verus! {

/// Whether some listed app carries this container identifier.
pub open spec fn has_id(apps: Seq<AppModel>, id: Seq<char>) -> bool {
    exists|i: int| 0 <= i < apps.len() && apps[i].container_id == id
}

/// A listing with no container identifier twice, as a runtime listing is.
pub open spec fn distinct_ids(apps: Seq<AppModel>) -> bool {
    forall|i: int, j: int|
        0 <= i < j < apps.len() ==> apps[i].container_id != apps[j].container_id
}

/// The entry that a full reconciliation records for one discovered app: the
/// freshly discovered name and url, and the moment the identifier was first
/// added — kept from the existing record if there is one, `now` otherwise.
pub open spec fn entry_for(s: StateModel, d: AppModel, now: u64) -> (Seq<char>, AppRecordModel) {
    (
        d.container_id,
        AppRecordModel {
            name: d.name,
            url: d.url,
            added_at: match find_app(s.discovered_apps, d.container_id) {
                Some(e) => e.added_at,
                None => now,
            },
        },
    )
}

/// The discovered-app record after a full reconciliation: one entry per
/// listed app that is not in the removed set, in listing order. Identifiers
/// recorded before but no longer listed are thereby dropped.
pub open spec fn sync_entries(s: StateModel, disc: Seq<AppModel>, now: u64) -> Seq<
    (Seq<char>, AppRecordModel),
>
    decreases disc.len(),
{
    if disc.len() == 0 {
        Seq::empty()
    } else {
        sync_entries(s, disc.drop_last(), now) + if s.removed(disc.last().container_id) {
            seq![]
        } else {
            seq![entry_for(s, disc.last(), now)]
        }
    }
}

/// The dashboard mutations a full reconciliation performs: exactly the listed
/// apps that are neither removed by the user nor already recorded.
pub open spec fn sync_adds(s: StateModel, disc: Seq<AppModel>) -> Seq<AppModel>
    decreases disc.len(),
{
    if disc.len() == 0 {
        Seq::empty()
    } else {
        sync_adds(s, disc.drop_last()) + if !s.removed(disc.last().container_id) && !has_app(
            s.discovered_apps,
            disc.last().container_id,
        ) {
            seq![disc.last()]
        } else {
            seq![]
        }
    }
}

/// The whole state after a full reconciliation.
pub open spec fn full_sync_model(s: StateModel, disc: Seq<AppModel>, now: u64) -> StateModel {
    StateModel {
        last_sync: Some(now),
        discovered_apps: sync_entries(s, disc, now),
        ..s
    }
}

/// `find_app` searches a concatenation front part first.
pub proof fn lemma_find_app_concat(
    a: Seq<(Seq<char>, AppRecordModel)>,
    b: Seq<(Seq<char>, AppRecordModel)>,
    id: Seq<char>,
)
    ensures
        find_app(a + b, id) == if find_app(a, id) is Some {
            find_app(a, id)
        } else {
            find_app(b, id)
        },
    decreases a.len(),
{
    if a.len() == 0 {
        assert(a + b =~= b);
    } else {
        assert((a + b)[0] == a[0]);
        assert((a + b).drop_first() =~= a.drop_first() + b);
        lemma_find_app_concat(a.drop_first(), b, id);
    }
}

/// An identifier has an entry iff `find_app` finds one.
pub proof fn lemma_has_app_find(e: Seq<(Seq<char>, AppRecordModel)>, id: Seq<char>)
    ensures
        has_app(e, id) <==> find_app(e, id) is Some,
    decreases e.len(),
{
    if e.len() == 0 {
    } else if e[0].0 == id {
        assert(has_app(e, id));
    } else {
        lemma_has_app_find(e.drop_first(), id);
        if has_app(e, id) {
            let i = choose|i: int| 0 <= i < e.len() && e[i].0 == id;
            assert(e.drop_first()[i - 1].0 == id);
            assert(has_app(e.drop_first(), id));
        }
        if has_app(e.drop_first(), id) {
            let i = choose|i: int| 0 <= i < e.drop_first().len() && e.drop_first()[i].0 == id;
            assert(e[i + 1].0 == id);
        }
    }
}

/// Every key that a full reconciliation records comes from the listing.
pub proof fn lemma_sync_entries_key_source(s: StateModel, disc: Seq<AppModel>, now: u64)
    ensures
        forall|j: int|
            0 <= j < sync_entries(s, disc, now).len() ==> has_id(
                disc,
                sync_entries(s, disc, now)[j].0,
            ),
    decreases disc.len(),
{
    if disc.len() == 0 {
    } else {
        let dd = disc.drop_last();
        lemma_sync_entries_key_source(s, dd, now);
        let e = sync_entries(s, disc, now);
        let ed = sync_entries(s, dd, now);
        assert forall|j: int| 0 <= j < e.len() implies has_id(disc, e[j].0) by {
            if j < ed.len() {
                assert(e[j] == ed[j]);
                assert(has_id(dd, ed[j].0));
                let i = choose|i: int| 0 <= i < dd.len() && dd[i].container_id == ed[j].0;
                assert(disc[i].container_id == ed[j].0);
            } else {
                assert(e[j] == entry_for(s, disc.last(), now));
                assert(disc[disc.len() - 1].container_id == e[j].0);
            }
        }
    }
}

/// A full reconciliation records each listed, non-removed identifier exactly
/// once, with the record [`entry_for`] describes.
pub proof fn lemma_find_in_sync_entries(s: StateModel, disc: Seq<AppModel>, now: u64, i: int)
    requires
        distinct_ids(disc),
        0 <= i < disc.len(),
        !s.removed(disc[i].container_id),
    ensures
        find_app(sync_entries(s, disc, now), disc[i].container_id) == Some(
            entry_for(s, disc[i], now).1,
        ),
    decreases disc.len(),
{
    let dd = disc.drop_last();
    let ed = sync_entries(s, dd, now);
    let piece: Seq<(Seq<char>, AppRecordModel)> = if s.removed(disc.last().container_id) {
        seq![]
    } else {
        seq![entry_for(s, disc.last(), now)]
    };
    lemma_find_app_concat(ed, piece, disc[i].container_id);
    if i == disc.len() - 1 {
        lemma_sync_entries_key_source(s, dd, now);
        if find_app(ed, disc[i].container_id) is Some {
            lemma_has_app_find(ed, disc[i].container_id);
            let j = choose|j: int| 0 <= j < ed.len() && ed[j].0 == disc[i].container_id;
            assert(has_id(dd, ed[j].0));
            let k = choose|k: int| 0 <= k < dd.len() && dd[k].container_id == disc[i].container_id;
            assert(disc[k].container_id == disc[i].container_id);
            assert(false);
        }
        assert(piece[0] == entry_for(s, disc[i], now));
    } else {
        lemma_find_in_sync_entries(s, dd, now, i);
    }
}

/// The keys a full reconciliation records are pairwise distinct.
pub proof fn lemma_sync_entries_distinct(s: StateModel, disc: Seq<AppModel>, now: u64)
    requires
        distinct_ids(disc),
    ensures
        forall|i: int, j: int|
            0 <= i < j < sync_entries(s, disc, now).len() ==> sync_entries(s, disc, now)[i].0
                != sync_entries(s, disc, now)[j].0,
    decreases disc.len(),
{
    if disc.len() == 0 {
    } else {
        let dd = disc.drop_last();
        lemma_sync_entries_distinct(s, dd, now);
        lemma_sync_entries_key_source(s, dd, now);
        let e = sync_entries(s, disc, now);
        let ed = sync_entries(s, dd, now);
        assert forall|i: int, j: int| 0 <= i < j < e.len() implies e[i].0 != e[j].0 by {
            if j < ed.len() {
                assert(e[i] == ed[i] && e[j] == ed[j]);
            } else {
                assert(e[j] == entry_for(s, disc.last(), now));
                assert(e[i] == ed[i]);
                assert(has_id(dd, ed[i].0));
                let k = choose|k: int| 0 <= k < dd.len() && dd[k].container_id == ed[i].0;
                assert(disc[k].container_id == ed[i].0);
            }
        }
    }
}

/// Zero mutations the second time: a full reconciliation right after a full
/// reconciliation of the same container population performs no dashboard
/// mutation and leaves the state unchanged but for the sync time.
pub proof fn lemma_full_sync_idempotent(s: StateModel, disc: Seq<AppModel>, n1: u64, n2: u64)
    requires
        distinct_ids(disc),
    ensures
        sync_adds(full_sync_model(s, disc, n1), disc) == Seq::<AppModel>::empty(),
        full_sync_model(full_sync_model(s, disc, n1), disc, n2) == (StateModel {
            last_sync: Some(n2),
            ..full_sync_model(s, disc, n1)
        }),
{
    let s1 = full_sync_model(s, disc, n1);
    lemma_sync_adds_empty(s, s1, disc, disc, n1);
    lemma_sync_entries_stable(s, s1, disc, disc, n1, n2);
    assert(sync_adds(s1, disc) =~= Seq::<AppModel>::empty());
    assert(full_sync_model(s1, disc, n2) == StateModel {
        last_sync: Some(n2),
        ..s1
    });
}

/// Helper for [`lemma_full_sync_idempotent`]: after reconciling `disc`, every
/// prefix of the same listing plans no further addition.
proof fn lemma_sync_adds_empty(
    s: StateModel,
    s1: StateModel,
    disc: Seq<AppModel>,
    prefix: Seq<AppModel>,
    n1: u64,
)
    requires
        distinct_ids(disc),
        s1 == full_sync_model(s, disc, n1),
        forall|i: int| 0 <= i < prefix.len() ==> has_id(disc, prefix[i].container_id),
    ensures
        sync_adds(s1, prefix).len() == 0,
    decreases prefix.len(),
{
    if prefix.len() == 0 {
    } else {
        lemma_sync_adds_empty(s, s1, disc, prefix.drop_last(), n1);
        let d = prefix.last();
        assert(has_id(disc, d.container_id));
        if !s1.removed(d.container_id) {
            let i = choose|i: int| 0 <= i < disc.len() && disc[i].container_id == d.container_id;
            lemma_find_in_sync_entries(s, disc, n1, i);
            lemma_has_app_find(s1.discovered_apps, d.container_id);
            assert(has_app(s1.discovered_apps, d.container_id));
        }
    }
}

/// Helper for [`lemma_full_sync_idempotent`]: re-reconciling the same listing
/// rebuilds the same entries, whatever the new clock reads.
proof fn lemma_sync_entries_stable(
    s: StateModel,
    s1: StateModel,
    disc: Seq<AppModel>,
    prefix: Seq<AppModel>,
    n1: u64,
    n2: u64,
)
    requires
        distinct_ids(disc),
        s1 == full_sync_model(s, disc, n1),
        forall|i: int|
            #![trigger prefix[i]]
            0 <= i < prefix.len() ==> exists|k: int| 0 <= k < disc.len() && #[trigger] disc[k]
                == prefix[i],
    ensures
        sync_entries(s1, prefix, n2) == sync_entries(s, prefix, n1),
    decreases prefix.len(),
{
    if prefix.len() == 0 {
        assert(sync_entries(s1, prefix, n2) =~= sync_entries(s, prefix, n1));
    } else {
        lemma_sync_entries_stable(s, s1, disc, prefix.drop_last(), n1, n2);
        let d = prefix.last();
        assert(exists|k: int| 0 <= k < disc.len() && disc[k] == d);
        if !s.removed(d.container_id) {
            let k = choose|k: int| 0 <= k < disc.len() && disc[k] == d;
            lemma_find_in_sync_entries(s, disc, n1, k);
            assert(find_app(s1.discovered_apps, d.container_id) == Some(entry_for(s, d, n1).1));
            assert(entry_for(s1, d, n2) == entry_for(s, d, n1));
        }
        assert(sync_entries(s1, prefix, n2) =~= sync_entries(s, prefix, n1));
    }
}

/// A removed identifier is neither added to the dashboard nor recorded by a
/// full reconciliation, however often the container is rediscovered.
pub proof fn lemma_removed_never_readded(
    s: StateModel,
    disc: Seq<AppModel>,
    now: u64,
    id: Seq<char>,
)
    requires
        s.removed(id),
    ensures
        !has_id(sync_adds(s, disc), id),
        !has_app(full_sync_model(s, disc, now).discovered_apps, id),
    decreases disc.len(),
{
    if disc.len() == 0 {
    } else {
        lemma_removed_never_readded(s, disc.drop_last(), now, id);
        let adds = sync_adds(s, disc);
        let addsd = sync_adds(s, disc.drop_last());
        if has_id(adds, id) {
            let i = choose|i: int| 0 <= i < adds.len() && adds[i].container_id == id;
            if i < addsd.len() {
                assert(adds[i] == addsd[i]);
                assert(has_id(addsd, id));
            } else {
                assert(adds[i] == disc.last());
                assert(!s.removed(disc.last().container_id));
            }
            assert(false);
        }
        let e = sync_entries(s, disc, now);
        let ed = sync_entries(s, disc.drop_last(), now);
        if has_app(e, id) {
            let i = choose|i: int| 0 <= i < e.len() && e[i].0 == id;
            if i < ed.len() {
                assert(e[i] == ed[i]);
                assert(has_app(ed, id));
            } else {
                assert(e[i] == entry_for(s, disc.last(), now));
                assert(!s.removed(disc.last().container_id));
            }
            assert(false);
        }
    }
}

/// The entries without those keyed by `id`.
pub open spec fn forget(
    entries: Seq<(Seq<char>, AppRecordModel)>,
    id: Seq<char>,
) -> Seq<(Seq<char>, AppRecordModel)>
    decreases entries.len(),
{
    if entries.len() == 0 {
        Seq::empty()
    } else {
        (if entries[0].0 == id {
            seq![]
        } else {
            seq![entries[0]]
        }) + forget(entries.drop_first(), id)
    }
}

/// `forget` distributes over concatenation.
pub proof fn lemma_forget_concat(
    a: Seq<(Seq<char>, AppRecordModel)>,
    b: Seq<(Seq<char>, AppRecordModel)>,
    id: Seq<char>,
)
    ensures
        forget(a + b, id) == forget(a, id) + forget(b, id),
    decreases a.len(),
{
    if a.len() == 0 {
        assert(a + b =~= b);
        assert(forget(a, id) + forget(b, id) =~= forget(b, id));
    } else {
        assert((a + b)[0] == a[0]);
        assert((a + b).drop_first() =~= a.drop_first() + b);
        lemma_forget_concat(a.drop_first(), b, id);
        assert(forget(a + b, id) =~= forget(a, id) + forget(b, id));
    }
}

/// What `forget` keeps: everything but `id`, with lookups unchanged.
pub proof fn lemma_forget_facts(entries: Seq<(Seq<char>, AppRecordModel)>, id: Seq<char>)
    ensures
        !has_app(forget(entries, id), id),
        forall|x: Seq<char>| x != id ==> find_app(forget(entries, id), x) == find_app(entries, x),
        forall|j: int|
            #![trigger forget(entries, id)[j]]
            0 <= j < forget(entries, id).len() ==> exists|i: int|
                0 <= i < entries.len() && #[trigger] entries[i] == forget(entries, id)[j],
        !has_app(entries, id) ==> forget(entries, id) == entries,
    decreases entries.len(),
{
    let f = forget(entries, id);
    if entries.len() == 0 {
        assert(f =~= entries);
    } else {
        let rest = entries.drop_first();
        lemma_forget_facts(rest, id);
        let fr = forget(rest, id);
        if has_app(f, id) {
            let j = choose|j: int| 0 <= j < f.len() && f[j].0 == id;
            if entries[0].0 == id {
                assert(f =~= fr);
                assert(has_app(fr, id));
            } else {
                if j == 0 {
                    assert(f[0] == entries[0]);
                } else {
                    assert(f.drop_first() =~= fr);
                    assert(fr[j - 1].0 == id);
                    assert(has_app(fr, id));
                }
            }
            assert(false);
        }
        assert forall|x: Seq<char>| x != id implies find_app(f, x) == find_app(entries, x) by {
            assert(find_app(fr, x) == find_app(rest, x));
            if entries[0].0 == id {
                assert(f =~= fr);
                assert(entries[0].0 != x);
                assert(find_app(entries, x) == find_app(rest, x));
            } else {
                assert(f =~= seq![entries[0]] + fr);
                assert(f[0] == entries[0]);
                assert(f.drop_first() =~= fr);
                if entries[0].0 == x {
                    assert(find_app(f, x) == Some(f[0].1));
                    assert(find_app(entries, x) == Some(entries[0].1));
                } else {
                    assert(find_app(f, x) == find_app(f.drop_first(), x));
                    assert(find_app(entries, x) == find_app(rest, x));
                }
            }
        }
        assert forall|j: int| #![trigger f[j]] 0 <= j < f.len() implies exists|i: int|
            0 <= i < entries.len() && #[trigger] entries[i] == f[j] by {
            if entries[0].0 == id {
                assert(f =~= fr);
                let i = choose|i: int| 0 <= i < rest.len() && #[trigger] rest[i] == fr[j];
                assert(entries[i + 1] == f[j]);
            } else {
                if j == 0 {
                    assert(entries[0] == f[0]);
                } else {
                    assert(f.drop_first() =~= fr);
                    let i = choose|i: int| 0 <= i < rest.len() && #[trigger] rest[i] == fr[j - 1];
                    assert(entries[i + 1] == f[j]);
                }
            }
        }
        if !has_app(entries, id) {
            assert(entries[0].0 != id);
            assert(!has_app(rest, id)) by {
                if has_app(rest, id) {
                    let i = choose|i: int| 0 <= i < rest.len() && rest[i].0 == id;
                    assert(entries[i + 1].0 == id);
                }
            }
            assert(f =~= entries);
        }
    }
}

/// `forget` keeps pairwise-distinct keys pairwise distinct.
pub proof fn lemma_forget_distinct(entries: Seq<(Seq<char>, AppRecordModel)>, id: Seq<char>)
    requires
        forall|i: int, j: int|
            0 <= i < j < entries.len() ==> entries[i].0 != entries[j].0,
    ensures
        forall|i: int, j: int|
            0 <= i < j < forget(entries, id).len() ==> forget(entries, id)[i].0 != forget(
                entries,
                id,
            )[j].0,
    decreases entries.len(),
{
    let f = forget(entries, id);
    if entries.len() == 0 {
    } else {
        let rest = entries.drop_first();
        lemma_forget_distinct(rest, id);
        lemma_forget_facts(rest, id);
        let fr = forget(rest, id);
        assert forall|i: int, j: int| 0 <= i < j < f.len() implies f[i].0 != f[j].0 by {
            if entries[0].0 == id {
                assert(f =~= fr);
            } else {
                assert(f.drop_first() =~= fr);
                if i == 0 {
                    assert(f[0] == entries[0]);
                    let k = choose|k: int|
                        0 <= k < rest.len() && #[trigger] rest[k] == fr[j - 1];
                    assert(entries[k + 1] == f[j]);
                } else {
                    assert(f[i] == fr[i - 1] && f[j] == fr[j - 1]);
                }
            }
        }
    }
}

/// The state after one started event: nothing when the user removed the
/// identifier; otherwise the identifier is recorded afresh, keeping the
/// original time of first addition if it was recorded before.
pub open spec fn started_model(s: StateModel, app: AppModel, now: u64) -> StateModel {
    if s.removed(app.container_id) {
        s
    } else {
        StateModel {
            discovered_apps: forget(s.discovered_apps, app.container_id).push(
                entry_for(s, app, now),
            ),
            ..s
        }
    }
}

/// The state after one stopped event: the identifier is forgotten — dropped
/// from the record only, never deleted from the dashboard.
pub open spec fn stopped_model(s: StateModel, id: Seq<char>) -> StateModel {
    StateModel { discovered_apps: forget(s.discovered_apps, id), ..s }
}

/// Clone an app record, keeping its value.
fn clone_record(r: &AppRecord) -> (c: AppRecord)
    ensures
        c == *r,
{
    AppRecord { name: r.name.clone(), url: r.url.clone(), added_at: r.added_at }
}

/// Clone an optional string, keeping its view.
fn clone_opt_string(o: &Option<String>) -> (r: Option<String>)
    ensures
        r == *o,
{
    match o {
        Some(s) => Some(s.clone()),
        None => None,
    }
}

/// Clone a discovery record, keeping its view.
pub fn clone_app(a: &DiscoveredApp) -> (r: DiscoveredApp)
    ensures
        r@ == a@,
        r == *a,
{
    DiscoveredApp {
        container_id: a.container_id.clone(),
        container_name: a.container_name.clone(),
        name: a.name.clone(),
        description: clone_opt_string(&a.description),
        url: a.url.clone(),
        icon_url: clone_opt_string(&a.icon_url),
        category: clone_opt_string(&a.category),
    }
}

impl State {
    /// The record held for a container identifier, if any.
    pub fn find_record(&self, id: &str) -> (r: Option<&AppRecord>)
        ensures
            match r {
                Some(rec) => find_app(self@.discovered_apps, id@) == Some(rec@),
                None => find_app(self@.discovered_apps, id@) is None,
            },
    {
        let n = self.discovered_apps.len();
        let mut i: usize = 0;
        proof {
            assert(self@.discovered_apps.skip(0) =~= self@.discovered_apps);
        }
        while i < n
            invariant
                n == self.discovered_apps.len(),
                i <= n,
                find_app(self@.discovered_apps, id@) == find_app(
                    self@.discovered_apps.skip(i as int),
                    id@,
                ),
            decreases n - i,
        {
            proof {
                assert(self@.discovered_apps.skip(i as int).drop_first() =~= self@.discovered_apps
                    .skip(i as int + 1));
                assert(self@.discovered_apps.skip(i as int)[0] == self@.discovered_apps[i as int]);
            }
            if crate::text::str_eq(self.discovered_apps[i].0.as_str(), id) {
                return Some(&self.discovered_apps[i].1);
            }
            i += 1;
        }
        proof {
            assert(self@.discovered_apps.skip(n as int) =~= Seq::<
                (Seq<char>, AppRecordModel),
            >::empty());
        }
        None
    }
}

impl State {
    /// Drop every record keyed by `id`; the dashboard itself is untouched.
    pub fn remove_record(&mut self, id: &str)
        ensures
            final(self)@ == stopped_model(old(self)@, id@),
    {
        let mut kept: Vec<(String, AppRecord)> = Vec::new();
        let n = self.discovered_apps.len();
        let mut i: usize = 0;
        proof {
            assert(crate::state::entries_view(kept@) =~= forget(
                old(self)@.discovered_apps.take(0),
                id@,
            ));
        }
        while i < n
            invariant
                *self == *old(self),
                n == self.discovered_apps.len(),
                i <= n,
                crate::state::entries_view(kept@) == forget(
                    old(self)@.discovered_apps.take(i as int),
                    id@,
                ),
            decreases n - i,
        {
            proof {
                let e = old(self)@.discovered_apps;
                assert(e.take(i as int + 1) =~= e.take(i as int) + seq![e[i as int]]);
                lemma_forget_concat(e.take(i as int), seq![e[i as int]], id@);
                assert(seq![e[i as int]].drop_first() =~= Seq::<
                    (Seq<char>, AppRecordModel),
                >::empty());
                assert(forget(Seq::<(Seq<char>, AppRecordModel)>::empty(), id@) =~= Seq::<
                    (Seq<char>, AppRecordModel),
                >::empty());
                assert(e[i as int] == (self.discovered_apps@[i as int].0@, self.discovered_apps@[
                    i as int
                ].1@));
                assert(forget(seq![e[i as int]], id@) =~= (if e[i as int].0 == id@ {
                    seq![]
                } else {
                    seq![e[i as int]]
                }) + forget(seq![e[i as int]].drop_first(), id@));
            }
            if !crate::text::str_eq(self.discovered_apps[i].0.as_str(), id) {
                let rec = &self.discovered_apps[i];
                kept.push((rec.0.clone(), clone_record(&rec.1)));
                proof {
                    let e = old(self)@.discovered_apps;
                    assert(crate::state::entries_view(kept@) =~= forget(
                        e.take(i as int),
                        id@,
                    ) + seq![e[i as int]]);
                    assert(forget(seq![e[i as int]], id@) =~= seq![e[i as int]]);
                }
            } else {
                proof {
                    let e = old(self)@.discovered_apps;
                    assert(forget(seq![e[i as int]], id@) =~= Seq::<
                        (Seq<char>, AppRecordModel),
                    >::empty());
                    assert(crate::state::entries_view(kept@) =~= forget(
                        e.take(i as int + 1),
                        id@,
                    ));
                }
            }
            i += 1;
        }
        proof {
            assert(old(self)@.discovered_apps.take(n as int) =~= old(self)@.discovered_apps);
        }
        self.discovered_apps = kept;
    }
}

/// Incremental reconciliation: fold one lifecycle event into the state and
/// say whether the dashboard must be touched. A started event for a removed
/// or an already recorded identifier causes no dashboard mutation; a stopped
/// event never does.
pub fn apply_event(state: &mut State, event: &ContainerEvent, now: u64) -> (action: Option<
    DiscoveredApp,
>)
    ensures
        (event matches ContainerEvent::Started(app) ==> {
            &&& final(state)@ == started_model(old(state)@, app@, now)
            &&& (action matches Some(a) ==> a@ == app@)
            &&& (action is Some <==> !old(state)@.removed(app@.container_id) && !has_app(
                old(state)@.discovered_apps,
                app@.container_id,
            ))
        }),
        (event matches ContainerEvent::Stopped(id) ==> final(state)@ == stopped_model(
            old(state)@,
            id@,
        ) && action is None),
        old(state)@.wf() ==> final(state)@.wf(),
{
    match event {
        ContainerEvent::Started(app) => {
            if state.is_removed(app.container_id.as_str()) {
                proof {
                    if old(state)@.wf() {
                        assert(final(state)@.wf());
                    }
                }
                return None;
            }
            let added_at: u64;
            let is_new: bool;
            match state.find_record(app.container_id.as_str()) {
                Some(rec) => {
                    added_at = rec.added_at;
                    is_new = false;
                },
                None => {
                    added_at = now;
                    is_new = true;
                },
            }
            proof {
                lemma_has_app_find(state@.discovered_apps, app.container_id@);
                lemma_forget_facts(state@.discovered_apps, app.container_id@);
                if old(state)@.wf() {
                    lemma_forget_distinct(state@.discovered_apps, app.container_id@);
                }
            }
            let ghost pre = state@;
            state.remove_record(app.container_id.as_str());
            state.discovered_apps.push(
                (
                    app.container_id.clone(),
                    AppRecord { name: app.name.clone(), url: app.url.clone(), added_at },
                ),
            );
            proof {
                assert(state@.discovered_apps =~= forget(
                    pre.discovered_apps,
                    app.container_id@,
                ).push(entry_for(pre, app@, now)));
                if pre.wf() {
                    let f = forget(pre.discovered_apps, app.container_id@);
                    assert forall|i: int, j: int|
                        0 <= i < j < state@.discovered_apps.len() implies state@
                        .discovered_apps[i].0 != state@.discovered_apps[j].0 by {
                        if j < f.len() {
                        } else {
                            assert(state@.discovered_apps[j].0 == app.container_id@);
                            assert(state@.discovered_apps[i] == f[i]);
                            if f[i].0 == app.container_id@ {
                                assert(has_app(f, app.container_id@));
                            }
                        }
                    }
                }
            }
            if is_new {
                Some(clone_app(app))
            } else {
                None
            }
        },
        ContainerEvent::Stopped(id) => {
            proof {
                lemma_forget_facts(state@.discovered_apps, id@);
                if old(state)@.wf() {
                    lemma_forget_distinct(state@.discovered_apps, id@);
                }
            }
            state.remove_record(id.as_str());
            None
        },
    }
}

/// Full reconciliation: bring the recorded apps in line with a fresh listing
/// of eligible containers, and say which apps must now be created on the
/// dashboard. The listing is expected to carry each identifier once, as a
/// runtime listing does.
pub fn sync_apps(state: &mut State, discovered: &Vec<DiscoveredApp>, now: u64) -> (adds: Vec<
    DiscoveredApp,
>)
    requires
        distinct_ids(discovered.deep_view()),
    ensures
        final(state)@ == full_sync_model(old(state)@, discovered.deep_view(), now),
        adds.deep_view() == sync_adds(old(state)@, discovered.deep_view()),
        old(state)@.wf() ==> final(state)@.wf(),
{
    let ghost dv = discovered.deep_view();
    let mut new_entries: Vec<(String, AppRecord)> = Vec::new();
    let mut adds: Vec<DiscoveredApp> = Vec::new();
    let n = discovered.len();
    let mut i: usize = 0;
    proof {
        assert(crate::state::entries_view(new_entries@) =~= sync_entries(
            old(state)@,
            dv.take(0),
            now,
        ));
        assert(adds.deep_view() =~= sync_adds(old(state)@, dv.take(0)));
    }
    while i < n
        invariant
            *state == *old(state),
            n == discovered.len(),
            dv == discovered.deep_view(),
            i <= n,
            crate::state::entries_view(new_entries@) == sync_entries(
                old(state)@,
                dv.take(i as int),
                now,
            ),
            adds.deep_view() == sync_adds(old(state)@, dv.take(i as int)),
        decreases n - i,
    {
        proof {
            assert(dv.take(i as int + 1).drop_last() =~= dv.take(i as int));
            assert(dv.take(i as int + 1).last() == dv[i as int]);
        }
        let d = &discovered[i];
        if !state.is_removed(d.container_id.as_str()) {
            let added_at: u64;
            match state.find_record(d.container_id.as_str()) {
                Some(rec) => {
                    added_at = rec.added_at;
                    proof {
                        lemma_has_app_find(state@.discovered_apps, d.container_id@);
                    }
                },
                None => {
                    added_at = now;
                    proof {
                        lemma_has_app_find(state@.discovered_apps, d.container_id@);
                    }
                    adds.push(clone_app(d));
                },
            }
            new_entries.push(
                (
                    d.container_id.clone(),
                    AppRecord { name: d.name.clone(), url: d.url.clone(), added_at },
                ),
            );
            proof {
                assert(crate::state::entries_view(new_entries@) =~= sync_entries(
                    old(state)@,
                    dv.take(i as int + 1),
                    now,
                ));
                assert(adds.deep_view() =~= sync_adds(old(state)@, dv.take(i as int + 1)));
            }
        } else {
            proof {
                assert(crate::state::entries_view(new_entries@) =~= sync_entries(
                    old(state)@,
                    dv.take(i as int + 1),
                    now,
                ));
                assert(adds.deep_view() =~= sync_adds(old(state)@, dv.take(i as int + 1)));
            }
        }
        i += 1;
    }
    proof {
        assert(dv.take(n as int) =~= dv);
    }
    state.discovered_apps = new_entries;
    state.set_sync_time(now);
    proof {
        if old(state)@.wf() {
            lemma_sync_entries_distinct(old(state)@, dv, now);
        }
    }
    adds
}

} // verus!
