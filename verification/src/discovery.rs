//! Container discovery: label parsing, the eligibility gate, and event
//! classification.
//!
//! Everything here is pure: the runtime client hands in a container
//! identifier together with a snapshot of its labels, and gets back either a
//! validated discovery record or nothing.

use vstd::prelude::*;
use vstd::string::StrSliceExecFns;

use crate::text::{chars_vec, str_eq};

verus! {

/// A flat label mapping, as a list of key/value pairs.
///
/// Lookup returns the first binding of a key, so earlier bindings shadow
/// later ones; a label snapshot taken from a container has distinct keys.
pub struct LabelMap {
    entries: Vec<(String, String)>,
}

impl View for LabelMap {
    type V = Seq<(Seq<char>, Seq<char>)>;

    closed spec fn view(&self) -> Seq<(Seq<char>, Seq<char>)> {
        Seq::new(self.entries@.len(), |i: int| (self.entries@[i].0@, self.entries@[i].1@))
    }
}

/// First value bound to `key`, if any.
pub open spec fn lookup(m: Seq<(Seq<char>, Seq<char>)>, key: Seq<char>) -> Option<Seq<char>>
    decreases m.len(),
{
    if m.len() == 0 {
        None
    } else if m[0].0 == key {
        Some(m[0].1)
    } else {
        lookup(m.drop_first(), key)
    }
}

impl LabelMap {
    pub fn new() -> (r: LabelMap)
        ensures
            r@ == Seq::<(Seq<char>, Seq<char>)>::empty(),
    {
        let r = LabelMap { entries: Vec::new() };
        proof {
            assert(r@ =~= Seq::<(Seq<char>, Seq<char>)>::empty());
        }
        r
    }

    pub fn insert(&mut self, key: &str, value: &str)
        ensures
            final(self)@ == old(self)@.push((key@, value@)),
    {
        self.entries.push((key.to_owned(), value.to_owned()));
        proof {
            assert(self@ =~= old(self)@.push((key@, value@)));
        }
    }

    pub fn get(&self, key: &str) -> (r: Option<&String>)
        ensures
            match r {
                Some(v) => lookup(self@, key@) == Some(v@),
                None => lookup(self@, key@) is None,
            },
    {
        let n = self.entries.len();
        let mut i: usize = 0;
        proof {
            assert(self@.skip(0) =~= self@);
        }
        while i < n
            invariant
                n == self.entries.len(),
                i <= n,
                lookup(self@, key@) == lookup(self@.skip(i as int), key@),
            decreases n - i,
        {
            proof {
                assert(self@.skip(i as int).drop_first() =~= self@.skip(i as int + 1));
                assert(self@.skip(i as int)[0] == self@[i as int]);
            }
            if str_eq(self.entries[i].0.as_str(), key) {
                return Some(&self.entries[i].1);
            }
            i += 1;
        }
        proof {
            assert(self@.skip(n as int) =~= Seq::<(Seq<char>, Seq<char>)>::empty());
        }
        None
    }
}

/// One eligible container, built from its label snapshot.
#[derive(Debug, Clone)]
pub struct DiscoveredApp {
    pub container_id: String,
    pub container_name: String,
    pub name: String,
    pub description: Option<String>,
    pub url: String,
    pub icon_url: Option<String>,
    pub category: Option<String>,
}

/// Mathematical image of a [`DiscoveredApp`].
#[verifier::ext_equal]
pub ghost struct AppModel {
    pub container_id: Seq<char>,
    pub container_name: Seq<char>,
    pub name: Seq<char>,
    pub description: Option<Seq<char>>,
    pub url: Seq<char>,
    pub icon_url: Option<Seq<char>>,
    pub category: Option<Seq<char>>,
}

impl View for DiscoveredApp {
    type V = AppModel;

    open spec fn view(&self) -> AppModel {
        AppModel {
            container_id: self.container_id@,
            container_name: self.container_name@,
            name: self.name@,
            description: match self.description {
                Some(s) => Some(s@),
                None => None,
            },
            url: self.url@,
            icon_url: match self.icon_url {
                Some(s) => Some(s@),
                None => None,
            },
            category: match self.category {
                Some(s) => Some(s@),
                None => None,
            },
        }
    }
}

impl DeepView for DiscoveredApp {
    type V = AppModel;

    open spec fn deep_view(&self) -> AppModel {
        self.view()
    }
}

/// Display-name resolution: the compose-service label when present, else the
/// first 12 characters of the container identifier (all of it if shorter).
pub open spec fn resolved_container_name(
    id: Seq<char>,
    labels: Seq<(Seq<char>, Seq<char>)>,
) -> Seq<char> {
    match lookup(labels, "com.docker.compose.service"@) {
        Some(s) => s,
        None => if id.len() >= 12 {
            id.take(12)
        } else {
            id
        },
    }
}

/// What label parsing yields: a record exactly when both required labels are
/// present, with the optional labels copied one to one.
pub open spec fn parsed_labels(
    id: Seq<char>,
    labels: Seq<(Seq<char>, Seq<char>)>,
) -> Option<AppModel> {
    match (lookup(labels, "homarr.name"@), lookup(labels, "homarr.url"@)) {
        (Some(n), Some(u)) => Some(
            AppModel {
                container_id: id,
                container_name: resolved_container_name(id, labels),
                name: n,
                description: lookup(labels, "homarr.description"@),
                url: u,
                icon_url: lookup(labels, "homarr.icon"@),
                category: lookup(labels, "homarr.category"@),
            },
        ),
        _ => None,
    }
}

/// Parse the adapter's labels from one container.
///
/// Returns a record iff both the name and the url label are present; the
/// enable flag and the self-reference guard are checked by the callers'
/// eligibility gate, not here.
pub fn parse_homarr_labels(container_id: &str, labels: &LabelMap) -> (r: Option<DiscoveredApp>)
    ensures
        r.deep_view() == parsed_labels(container_id@, labels@),
{
    let name = match labels.get("homarr.name") {
        Some(n) => n.clone(),
        None => {
            return None;
        },
    };
    let url = match labels.get("homarr.url") {
        Some(u) => u.clone(),
        None => {
            return None;
        },
    };

    let container_name = match labels.get("com.docker.compose.service") {
        Some(s) => s.clone(),
        None => {
            if container_id.unicode_len() >= 12 {
                container_id.substring_char(0, 12).to_owned()
            } else {
                container_id.to_owned()
            }
        },
    };

    Some(
        DiscoveredApp {
            container_id: container_id.to_owned(),
            container_name,
            name,
            description: match labels.get("homarr.description") {
                Some(s) => Some(s.clone()),
                None => None,
            },
            url,
            icon_url: match labels.get("homarr.icon") {
                Some(s) => Some(s.clone()),
                None => None,
            },
            category: match labels.get("homarr.category") {
                Some(s) => Some(s.clone()),
                None => None,
            },
        },
    )
}

/// Whether `s` is the dashboard's own product name, compared without regard
/// to ASCII case.
pub open spec fn is_product_name(s: Seq<char>) -> bool {
    &&& s.len() == 6
    &&& (s[0] == 'h' || s[0] == 'H')
    &&& (s[1] == 'o' || s[1] == 'O')
    &&& (s[2] == 'm' || s[2] == 'M')
    &&& (s[3] == 'a' || s[3] == 'A')
    &&& (s[4] == 'r' || s[4] == 'R')
    &&& (s[5] == 'r' || s[5] == 'R')
}

/// Executable check for [`is_product_name`].
pub fn matches_product_name(s: &str) -> (r: bool)
    ensures
        r == is_product_name(s@),
{
    let v = chars_vec(s);
    if v.len() != 6 {
        return false;
    }
    (v[0] == 'h' || v[0] == 'H') && (v[1] == 'o' || v[1] == 'O') && (v[2] == 'm' || v[2] == 'M')
        && (v[3] == 'a' || v[3] == 'A') && (v[4] == 'r' || v[4] == 'R') && (v[5] == 'r' || v[5]
        == 'R')
}

/// The eligibility gate: a record comes back exactly when the enable label is
/// the literal "true", the display name is not the dashboard's own product
/// name, and both required labels are present.
pub open spec fn eligible_app(
    id: Seq<char>,
    labels: Seq<(Seq<char>, Seq<char>)>,
) -> Option<AppModel> {
    if lookup(labels, "homarr.enable"@) != Some("true"@) {
        None
    } else if match lookup(labels, "homarr.name"@) {
        Some(n) => is_product_name(n),
        None => false,
    } {
        None
    } else {
        parsed_labels(id, labels)
    }
}

/// Apply the full eligibility gate to one container's label snapshot.
pub fn get_container_app(container_id: &str, labels: &LabelMap) -> (r: Option<DiscoveredApp>)
    ensures
        r.deep_view() == eligible_app(container_id@, labels@),
{
    match labels.get("homarr.enable") {
        Some(v) => {
            if !str_eq(v.as_str(), "true") {
                return None;
            }
        },
        None => {
            return None;
        },
    }
    if let Some(n) = labels.get("homarr.name") {
        if matches_product_name(n.as_str()) {
            return None;
        }
    }
    parse_homarr_labels(container_id, labels)
}

/// A label mapping missing the name label or the url label yields no
/// record, from the parser and from the eligibility gate alike.
pub proof fn lemma_missing_required_label_yields_none(
    id: Seq<char>,
    labels: Seq<(Seq<char>, Seq<char>)>,
)
    requires
        lookup(labels, "homarr.name"@) is None || lookup(labels, "homarr.url"@) is None,
    ensures
        parsed_labels(id, labels) is None,
        eligible_app(id, labels) is None,
{
}

/// A label mapping whose enable label is absent or anything but the literal
/// "true" yields no record from the eligibility gate.
pub proof fn lemma_not_enabled_yields_none(id: Seq<char>, labels: Seq<(Seq<char>, Seq<char>)>)
    requires
        lookup(labels, "homarr.enable"@) != Some("true"@),
    ensures
        eligible_app(id, labels) is None,
{
}

/// A container whose display name is the dashboard's own product name, in
/// any mix of case, is excluded even if otherwise eligible.
pub proof fn lemma_self_reference_excluded(id: Seq<char>, labels: Seq<(Seq<char>, Seq<char>)>)
    requires
        match lookup(labels, "homarr.name"@) {
            Some(n) => is_product_name(n),
            None => false,
        },
    ensures
        eligible_app(id, labels) is None,
{
}

/// Display-name resolution: a compose-service label wins whatever the
/// identifier is; without one the name is the first 12 characters of the
/// identifier, or the whole identifier if it is shorter.
pub proof fn lemma_container_name_resolution(id: Seq<char>, labels: Seq<(Seq<char>, Seq<char>)>)
    ensures
        (lookup(labels, "com.docker.compose.service"@) matches Some(s) ==> resolved_container_name(
            id,
            labels,
        ) == s),
        lookup(labels, "com.docker.compose.service"@) is None && id.len() >= 12
            ==> resolved_container_name(id, labels) == id.take(12),
        lookup(labels, "com.docker.compose.service"@) is None && id.len() < 12
            ==> resolved_container_name(id, labels) == id,
        (parsed_labels(id, labels) matches Some(a) ==> a.container_name
            == resolved_container_name(id, labels)),
{
}

/// A container identifier with the labels it carried when listed.
pub struct ContainerInfo {
    pub id: String,
    pub labels: LabelMap,
}

/// Mathematical image of a [`ContainerInfo`].
#[verifier::ext_equal]
pub ghost struct ContainerModel {
    pub id: Seq<char>,
    pub labels: Seq<(Seq<char>, Seq<char>)>,
}

impl View for ContainerInfo {
    type V = ContainerModel;

    open spec fn view(&self) -> ContainerModel {
        ContainerModel { id: self.id@, labels: self.labels@ }
    }
}

impl DeepView for ContainerInfo {
    type V = ContainerModel;

    open spec fn deep_view(&self) -> ContainerModel {
        self.view()
    }
}

/// The records discovered from a listing, in listing order: each container
/// run through the eligibility gate, ineligible ones silently excluded.
pub open spec fn discovered_of(cs: Seq<ContainerModel>) -> Seq<AppModel>
    decreases cs.len(),
{
    if cs.len() == 0 {
        Seq::empty()
    } else {
        discovered_of(cs.drop_last()) + match eligible_app(cs.last().id, cs.last().labels) {
            Some(a) => seq![a],
            None => seq![],
        }
    }
}

/// Discover apps from a listing of running containers.
pub fn discover_apps(containers: &Vec<ContainerInfo>) -> (r: Vec<DiscoveredApp>)
    ensures
        r.deep_view() == discovered_of(containers.deep_view()),
{
    let mut r: Vec<DiscoveredApp> = Vec::new();
    let n = containers.len();
    let mut i: usize = 0;
    while i < n
        invariant
            n == containers.len(),
            i <= n,
            r.deep_view() == discovered_of(containers.deep_view().take(i as int)),
        decreases n - i,
    {
        proof {
            assert(containers.deep_view().take(i as int + 1).drop_last() =~= containers
                .deep_view()
                .take(i as int));
            assert(containers.deep_view().take(i as int + 1).last() == containers.deep_view()[
                i as int
            ]);
        }
        let c = &containers[i];
        match get_container_app(c.id.as_str(), &c.labels) {
            Some(app) => {
                r.push(app);
            },
            None => (),
        }
        i += 1;
    }
    proof {
        assert(containers.deep_view().take(n as int) =~= containers.deep_view());
    }
    r
}

/// The eligibility gate never yields a record whose display name is the
/// dashboard's own product name.
pub proof fn lemma_eligible_app_not_product_name(
    id: Seq<char>,
    labels: Seq<(Seq<char>, Seq<char>)>,
)
    ensures
        eligible_app(id, labels) matches Some(a) ==> !is_product_name(a.name),
{
}

/// Discovery excludes a container whose display name is the dashboard's own
/// product name, in any mix of case, wherever it stands in the listing.
pub proof fn lemma_discovery_excludes_self(cs: Seq<ContainerModel>)
    ensures
        forall|j: int|
            0 <= j < discovered_of(cs).len() ==> !is_product_name(
                #[trigger] discovered_of(cs)[j].name,
            ),
    decreases cs.len(),
{
    if cs.len() == 0 {
    } else {
        lemma_discovery_excludes_self(cs.drop_last());
        let e = discovered_of(cs);
        let ed = discovered_of(cs.drop_last());
        assert forall|j: int| 0 <= j < e.len() implies !is_product_name(e[j].name) by {
            if j < ed.len() {
                assert(e[j] == ed[j]);
            } else {
                lemma_eligible_app_not_product_name(cs.last().id, cs.last().labels);
                assert(eligible_app(cs.last().id, cs.last().labels) == Some(e[j]));
            }
        }
    }
}

/// One normalized lifecycle transition from the runtime's event stream.
#[derive(Debug, Clone)]
pub enum ContainerEvent {
    Started(DiscoveredApp),
    Stopped(String),
}

/// What the watcher does with one raw runtime event.
#[derive(Debug, Clone, PartialEq, Eq, Structural)]
pub enum EventDecision {
    /// A container started: look its labels up and apply eligibility.
    Inspect,
    /// A container stopped or died: forget it.
    Stopped,
    /// Anything else, or an event without an actor: skip it.
    Ignore,
}

/// Classification of a raw runtime event by action name and actor id.
pub open spec fn classified_event(action: Seq<char>, container_id: Seq<char>) -> EventDecision {
    if container_id.len() == 0 {
        EventDecision::Ignore
    } else if action == "start"@ {
        EventDecision::Inspect
    } else if action == "stop"@ || action == "die"@ {
        EventDecision::Stopped
    } else {
        EventDecision::Ignore
    }
}

/// Normalize one raw runtime event into a watcher decision.
pub fn classify_event(action: &str, container_id: &str) -> (d: EventDecision)
    ensures
        d == classified_event(action@, container_id@),
{
    if container_id.unicode_len() == 0 {
        EventDecision::Ignore
    } else if str_eq(action, "start") {
        EventDecision::Inspect
    } else if str_eq(action, "stop") || str_eq(action, "die") {
        EventDecision::Stopped
    } else {
        EventDecision::Ignore
    }
}

} // verus!
