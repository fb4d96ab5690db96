//! The adapter's durable memory: what it believes about onboarding and about
//! the containers it has reconciled into the dashboard.

use vstd::prelude::*;

use crate::text::str_eq;

verus! {

/// What the state remembers about one app it added to the dashboard.
#[derive(Debug, Clone)]
pub struct AppRecord {
    pub name: String,
    pub url: String,
    pub added_at: u64,
}

/// Mathematical image of an [`AppRecord`].
#[verifier::ext_equal]
pub ghost struct AppRecordModel {
    pub name: Seq<char>,
    pub url: Seq<char>,
    pub added_at: u64,
}

impl View for AppRecord {
    type V = AppRecordModel;

    open spec fn view(&self) -> AppRecordModel {
        AppRecordModel { name: self.name@, url: self.url@, added_at: self.added_at }
    }
}

impl DeepView for AppRecord {
    type V = AppRecordModel;

    open spec fn deep_view(&self) -> AppRecordModel {
        self.view()
    }
}

/// Mathematical image of a [`State`].
#[verifier::ext_equal]
pub ghost struct StateModel {
    pub version: Seq<char>,
    pub first_boot_completed: bool,
    pub removed_apps: Seq<Seq<char>>,
    pub last_sync: Option<u64>,
    pub discovered_apps: Seq<(Seq<char>, AppRecordModel)>,
}

/// The views of a vector of removed identifiers.
pub open spec fn removed_view(v: Seq<String>) -> Seq<Seq<char>> {
    Seq::new(v.len(), |i: int| v[i]@)
}

/// The views of a vector of keyed app records.
pub open spec fn entries_view(v: Seq<(String, AppRecord)>) -> Seq<(Seq<char>, AppRecordModel)> {
    Seq::new(v.len(), |i: int| (v[i].0@, v[i].1@))
}

/// First record bound to `id` in a list of entries, if any.
pub open spec fn find_app(
    entries: Seq<(Seq<char>, AppRecordModel)>,
    id: Seq<char>,
) -> Option<AppRecordModel>
    decreases entries.len(),
{
    if entries.len() == 0 {
        None
    } else if entries[0].0 == id {
        Some(entries[0].1)
    } else {
        find_app(entries.drop_first(), id)
    }
}

/// Whether some entry is keyed by `id`.
pub open spec fn has_app(entries: Seq<(Seq<char>, AppRecordModel)>, id: Seq<char>) -> bool {
    exists|i: int| 0 <= i < entries.len() && entries[i].0 == id
}

impl StateModel {
    /// An identifier the user has removed, never to be re-added.
    pub open spec fn removed(self, id: Seq<char>) -> bool {
        self.removed_apps.contains(id)
    }

    /// Well-formedness: the removed list and the discovered list hold each
    /// identifier at most once.
    pub open spec fn wf(self) -> bool {
        &&& (forall|i: int, j: int|
            0 <= i < j < self.removed_apps.len() ==> self.removed_apps[i] != self.removed_apps[j])
        &&& (forall|i: int, j: int|
            0 <= i < j < self.discovered_apps.len() ==> self.discovered_apps[i].0
                != self.discovered_apps[j].0)
    }

    /// The state a first run starts from.
    pub open spec fn init() -> StateModel {
        StateModel {
            version: Seq::empty(),
            first_boot_completed: false,
            removed_apps: Seq::empty(),
            last_sync: None,
            discovered_apps: Seq::empty(),
        }
    }
}

/// Durable state: schema version, onboarding completion, the user-removed
/// identifiers, the last successful sync time (milliseconds since the Unix
/// epoch), and the apps currently known to have been added.
#[derive(Debug)]
pub struct State {
    pub version: String,
    pub first_boot_completed: bool,
    pub removed_apps: Vec<String>,
    pub last_sync: Option<u64>,
    pub discovered_apps: Vec<(String, AppRecord)>,
}

impl View for State {
    type V = StateModel;

    open spec fn view(&self) -> StateModel {
        StateModel {
            version: self.version@,
            first_boot_completed: self.first_boot_completed,
            removed_apps: removed_view(self.removed_apps@),
            last_sync: self.last_sync,
            discovered_apps: entries_view(self.discovered_apps@),
        }
    }
}

impl Default for State {
    /// A fresh state: nothing completed, nothing removed, nothing discovered.
    fn default() -> (r: State)
        ensures
            r@ == StateModel::init(),
            r@.wf(),
    {
        let r = State {
            version: String::new(),
            first_boot_completed: false,
            removed_apps: Vec::new(),
            last_sync: None,
            discovered_apps: Vec::new(),
        };
        proof {
            assert(r@.removed_apps =~= Seq::<Seq<char>>::empty());
            assert(r@.discovered_apps =~= Seq::<(Seq<char>, AppRecordModel)>::empty());
        }
        r
    }
}

/// Relies on `chrono::Utc::now` and `DateTime::timestamp_millis`: the current
/// wall-clock time, as milliseconds since the Unix epoch. Nothing is promised
/// of the value.
#[verifier::external_body]
fn now_millis() -> i64 {
    chrono::Utc::now().timestamp_millis()
}

impl State {
    /// Mark an app as removed by the user; marking twice is the same as
    /// marking once.
    pub fn mark_removed(&mut self, app_id: &str)
        ensures
            final(self)@ == (StateModel {
                removed_apps: if old(self)@.removed(app_id@) {
                    old(self)@.removed_apps
                } else {
                    old(self)@.removed_apps.push(app_id@)
                },
                ..old(self)@
            }),
            final(self)@.removed(app_id@),
            old(self)@.wf() ==> final(self)@.wf(),
    {
        if !self.is_removed(app_id) {
            self.removed_apps.push(app_id.to_owned());
            proof {
                assert(self@.removed_apps =~= old(self)@.removed_apps.push(app_id@));
                assert(self@.removed_apps.last() == app_id@);
            }
        }
    }

    /// Whether the user has removed this app.
    pub fn is_removed(&self, app_id: &str) -> (r: bool)
        ensures
            r == self@.removed(app_id@),
    {
        let n = self.removed_apps.len();
        let mut i: usize = 0;
        while i < n
            invariant
                n == self.removed_apps.len(),
                i <= n,
                forall|j: int| 0 <= j < i ==> self@.removed_apps[j] != app_id@,
            decreases n - i,
        {
            if str_eq(self.removed_apps[i].as_str(), app_id) {
                proof {
                    assert(self@.removed_apps[i as int] == app_id@);
                }
                return true;
            }
            i += 1;
        }
        proof {
            assert(forall|j: int| 0 <= j < self@.removed_apps.len() ==> self@.removed_apps[j]
                != app_id@);
        }
        false
    }

    /// Record the moment of a successful sync.
    pub fn set_sync_time(&mut self, now: u64)
        ensures
            final(self)@ == (StateModel { last_sync: Some(now), ..old(self)@ }),
    {
        self.last_sync = Some(now);
    }

    /// Record the present wall-clock moment as the last successful sync.
    pub fn update_sync_time(&mut self)
        ensures
            final(self)@.last_sync is Some,
            final(self)@ == (StateModel { last_sync: final(self)@.last_sync, ..old(self)@ }),
    {
        let t = now_millis();
        let now: u64 = if t < 0 {
            0
        } else {
            t as u64
        };
        self.set_sync_time(now);
    }
}

} // verus!
