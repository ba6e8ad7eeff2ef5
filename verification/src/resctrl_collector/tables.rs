//! What the collector has been told of pods.

use vstd::prelude::*;

use crate::decimal::{dec, usize_to_string};
use crate::nri_enrich::MetadataMessage;
use crate::nri_plugin::types::{GroupView, PodEventView, PodResctrlEvent, ResctrlGroupState};
use crate::str_map::StrMap;
use crate::text::concat;

verus! {

/// Which of its sources the collector has heard.
#[derive(Debug, Clone, Copy, PartialEq, Eq, Structural)]
pub struct ResctrlCollector {
    pub resctrl_synced: bool,
    pub metadata_synced: bool,
}

impl ResctrlCollector {
    /// A collector that has heard nothing.
    pub fn new() -> (r: ResctrlCollector)
        ensures
            !r.resctrl_synced,
            !r.metadata_synced,
    {
        ResctrlCollector { resctrl_synced: false, metadata_synced: false }
    }

    /// Whether both resctrl and metadata have produced at least one event.
    pub fn ready(&self) -> (r: bool)
        ensures
            r == (self.resctrl_synced && self.metadata_synced),
    {
        self.resctrl_synced && self.metadata_synced
    }
}

/// What is held of a pod.
#[derive(Debug)]
pub struct PodState {
    pub group_path: Option<String>,
    pub total_containers: usize,
    pub reconciled_containers: usize,
}

/// What is held of a pod, as a value.
pub ghost struct PodStateView {
    pub group_path: Option<Seq<char>>,
    pub total: nat,
    pub reconciled: nat,
}

/// A text that may be missing, as a value.
pub open spec fn text_view(s: Option<String>) -> Option<Seq<char>> {
    match s {
        Some(t) => Some(t@),
        None => None,
    }
}

impl View for PodState {
    type V = PodStateView;

    open spec fn view(&self) -> PodStateView {
        PodStateView {
            group_path: text_view(self.group_path),
            total: self.total_containers as nat,
            reconciled: self.reconciled_containers as nat,
        }
    }
}

/// What the collector has been told: the state of each pod, and the namespace and name of each.
#[verifier::ext_equal]
pub ghost struct TablesView {
    pub pods: Map<Seq<char>, PodStateView>,
    pub labels: Map<Seq<char>, (Seq<char>, Seq<char>)>,
}

impl TablesView {
    /// The tables once an event came.
    pub open spec fn after_event(self, event: PodEventView) -> TablesView {
        match event {
            PodEventView::AddOrUpdate { pod_uid, pod } => TablesView {
                pods: self.pods.insert(
                    pod_uid,
                    PodStateView {
                        group_path: match pod.group {
                            GroupView::Exists(path) => Some(path),
                            GroupView::Failed => None,
                        },
                        total: pod.total,
                        reconciled: pod.reconciled,
                    },
                ),
                labels: self.labels,
            },
            PodEventView::Removed { uid } => TablesView {
                pods: self.pods.remove(uid),
                labels: self.labels.remove(uid),
            },
        }
    }

    /// The tables once a message came. A container without a pod tells nothing, and that a
    /// container is gone tells nothing of its pod.
    pub open spec fn after_message(self, msg: MetadataMessage) -> TablesView {
        match msg {
            MetadataMessage::Add(_, m) => if m.pod_uid@.len() > 0 {
                TablesView {
                    pods: self.pods,
                    labels: self.labels.insert(m.pod_uid@, (m.pod_namespace@, m.pod_name@)),
                }
            } else {
                self
            },
            MetadataMessage::Remove(_) => self,
        }
    }

    /// The pods without a group.
    pub open spec fn failed(self) -> Set<Seq<char>> {
        self.pods.dom().filter(|k: Seq<char>| self.pods[k].group_path is None)
    }

    /// The pods with containers that are not reconciled.
    pub open spec fn unreconciled(self) -> Set<Seq<char>> {
        self.pods.dom().filter(|k: Seq<char>| self.pods[k].reconciled < self.pods[k].total)
    }
}

/// Whether a list holds each pod that has a group once, with the path of its group.
pub open spec fn lists_groups(
    list: Seq<(Seq<char>, Seq<char>)>,
    pods: Map<Seq<char>, PodStateView>,
) -> bool {
    &&& forall|i: int|
        #![trigger list[i]]
        0 <= i < list.len() ==> pods.dom().contains(list[i].0) && pods[list[i].0].group_path
            == Some(list[i].1)
    &&& forall|i: int, j: int| 0 <= i < j < list.len() ==> (#[trigger] list[i]).0 != (
    #[trigger] list[j]).0
    &&& forall|uid: Seq<char>|
        #![trigger pods.dom().contains(uid)]
        pods.dom().contains(uid) && pods[uid].group_path is Some ==> list.contains(
            (uid, pods[uid].group_path.unwrap()),
        )
}

/// Pods and their groups as values.
pub open spec fn group_views(v: Seq<(String, String)>) -> Seq<(Seq<char>, Seq<char>)> {
    v.map_values(|g: (String, String)| (g.0@, g.1@))
}

/// How many pods fail, as it is logged.
pub open spec fn health_text(failed: nat, unreconciled: nat) -> Seq<char> {
    "resctrl health: pods_failed="@ + dec(failed) + ", pods_unreconciled="@ + dec(unreconciled)
}

/// What the collector has been told of pods.
pub struct Tables {
    pods: StrMap<PodState>,
    pod_labels: StrMap<(String, String)>,
}

impl View for Tables {
    type V = TablesView;

    closed spec fn view(&self) -> TablesView {
        TablesView {
            pods: self.pods@.map_values(|p: PodState| p@),
            labels: self.pod_labels@.map_values(|l: (String, String)| (l.0@, l.1@)),
        }
    }
}

impl Tables {
    /// No pod is held twice.
    pub closed spec fn wf(&self) -> bool {
        self.pods.wf() && self.pod_labels.wf()
    }

    /// Empty tables.
    pub fn new() -> (r: Tables)
        ensures
            r.wf(),
            r@ == (TablesView { pods: Map::empty(), labels: Map::empty() }),
    {
        let r = Tables { pods: StrMap::new(), pod_labels: StrMap::new() };
        assert(r@ =~= TablesView { pods: Map::empty(), labels: Map::empty() });
        r
    }

    /// Takes in an event of the resctrl plugin, where one came.
    pub fn on_resctrl_event(
        &mut self,
        collector: &mut ResctrlCollector,
        event: Option<PodResctrlEvent>,
    )
        requires
            old(self).wf(),
        ensures
            final(self).wf(),
            match event {
                Some(e) => final(self)@ == old(self)@.after_event(e@) && *final(collector) == (
                ResctrlCollector { resctrl_synced: true, ..*old(collector) }),
                None => final(self)@ == old(self)@ && *final(collector) == *old(collector),
            },
    {
        let ghost before = self@;
        if let Some(e) = event {
            collector.resctrl_synced = true;
            match e {
                PodResctrlEvent::AddOrUpdate(add) => {
                    let ghost uid = add.pod_uid@;
                    let ghost view = PodResctrlEvent::AddOrUpdate(add)@;
                    let group_path = match add.group_state {
                        ResctrlGroupState::Exists(p) => Some(p),
                        ResctrlGroupState::Failed => None,
                    };
                    let pod = PodState {
                        group_path,
                        total_containers: add.total_containers,
                        reconciled_containers: add.reconciled_containers,
                    };
                    self.pods.insert(add.pod_uid, pod);
                    assert(self@ =~= before.after_event(view));
                },
                PodResctrlEvent::Removed(r) => {
                    let ghost view = PodResctrlEvent::Removed(r)@;
                    let _ = self.pods.remove(r.pod_uid.as_str());
                    let _ = self.pod_labels.remove(r.pod_uid.as_str());
                    assert(self@ =~= before.after_event(view));
                },
            }
        }
    }

    /// Takes in a message about a container, where one came.
    pub fn on_metadata(&mut self, collector: &mut ResctrlCollector, msg: Option<MetadataMessage>)
        requires
            old(self).wf(),
        ensures
            final(self).wf(),
            match msg {
                Some(m) => final(self)@ == old(self)@.after_message(m) && *final(collector) == (
                ResctrlCollector { metadata_synced: true, ..*old(collector) }),
                None => final(self)@ == old(self)@ && *final(collector) == *old(collector),
            },
    {
        let ghost before = self@;
        if let Some(m) = msg {
            collector.metadata_synced = true;
            match m {
                MetadataMessage::Add(_, m) => {
                    if !m.pod_uid.as_str().is_empty() {
                        let ghost uid = m.pod_uid@;
                        let ghost label = (m.pod_namespace@, m.pod_name@);
                        self.pod_labels.insert(m.pod_uid, (m.pod_namespace, m.pod_name));
                        assert(self@ =~= TablesView {
                            pods: before.pods,
                            labels: before.labels.insert(uid, label),
                        });
                    }
                },
                MetadataMessage::Remove(_) => {},
            }
        }
    }

    /// The pods that have a group, with its path.
    pub fn groups_to_sample(&self) -> (r: Vec<(String, String)>)
        requires
            self.wf(),
        ensures
            lists_groups(group_views(r@), self@.pods),
    {
        let mut out: Vec<(String, String)> = Vec::new();
        let ghost keys = self.pods.key_order();
        let ghost pods = self@.pods;
        proof {
            self.pods.lemma_key_order();
        }
        let mut i: usize = 0;
        while i < self.pods.len()
            invariant
                self.wf(),
                i <= keys.len(),
                keys == self.pods.key_order(),
                keys.no_duplicates(),
                pods == self@.pods,
                forall|k: Seq<char>| keys.contains(k) <==> #[trigger] pods.dom().contains(k),
                forall|k: int|
                    #![trigger group_views(out@)[k]]
                    0 <= k < out@.len() ==> keys.take(i as int).contains(group_views(out@)[k].0)
                        && pods.dom().contains(group_views(out@)[k].0)
                        && pods[group_views(out@)[k].0].group_path == Some(
                        group_views(out@)[k].1,
                    ),
                forall|a: int, b: int|
                    0 <= a < b < out@.len() ==> (#[trigger] group_views(out@)[a]).0 != (
                    #[trigger] group_views(out@)[b]).0,
                forall|k: int|
                    #![trigger keys[k]]
                    0 <= k < i && pods[keys[k]].group_path is Some ==> group_views(out@).contains(
                        (keys[k], pods[keys[k]].group_path.unwrap()),
                    ),
            decreases keys.len() - i,
        {
            let ghost done = group_views(out@);
            let pod = self.pods.value_at(i);
            let ghost key = keys[i as int];
            assert(pods[key] == pod@);
            assert(!keys.take(i as int).contains(key));
            assert forall|k: Seq<char>| #[trigger]
                keys.take(i as int).contains(k) implies keys.take(i as int + 1).contains(k) by {
                let j = choose|j: int| 0 <= j < i && keys.take(i as int)[j] == k;
                assert(keys.take(i as int + 1)[j] == k);
            }
            assert(keys.take(i as int + 1)[i as int] == key);
            if let Some(path) = &pod.group_path {
                let uid = self.pods.key_at(i);
                out.push((uid.clone(), path.clone()));
                proof {
                    let now = group_views(out@);
                    assert(now =~= done.push((key, path@)));
                    assert(now[done.len() as int] == (key, path@));
                    assert forall|k: int|
                        #![trigger keys[k]]
                        0 <= k < i + 1 && pods[keys[k]].group_path is Some implies now.contains(
                        (keys[k], pods[keys[k]].group_path.unwrap()),
                    ) by {
                        if k < i {
                            let e = (keys[k], pods[keys[k]].group_path.unwrap());
                            let j = choose|j: int| 0 <= j < done.len() && done[j] == e;
                            assert(now[j] == e);
                        }
                    }
                }
            }
            i = i + 1;
        }
        proof {
            let list = group_views(out@);
            assert forall|uid: Seq<char>|
                #![trigger pods.dom().contains(uid)]
                pods.dom().contains(uid) && pods[uid].group_path is Some implies list.contains(
                (uid, pods[uid].group_path.unwrap()),
            ) by {
                assert(keys.contains(uid));
                let k = choose|k: int| 0 <= k < keys.len() && keys[k] == uid;
                assert(pods[keys[k]].group_path is Some);
            }
        }
        out
    }

    /// The namespace and the name of a pod.
    pub fn labels_of(&self, uid: &str) -> (r: Option<(String, String)>)
        requires
            self.wf(),
        ensures
            match r {
                Some(l) => self@.labels.dom().contains(uid@) && self@.labels[uid@] == (l.0@, l.1@),
                None => !self@.labels.dom().contains(uid@),
            },
    {
        match self.pod_labels.get(uid) {
            Some(l) => Some((l.0.clone(), l.1.clone())),
            None => None,
        }
    }

    /// How many pods have no group, and how many have containers that are not reconciled.
    pub fn health(&self) -> (r: (usize, usize))
        requires
            self.wf(),
        ensures
            r.0 == self@.failed().len(),
            r.1 == self@.unreconciled().len(),
    {
        let ghost keys = self.pods.key_order();
        let ghost pods = self@.pods;
        let ghost bad = |k: Seq<char>| pods[k].group_path is None;
        let ghost behind = |k: Seq<char>| pods[k].reconciled < pods[k].total;
        let mut failed: usize = 0;
        let mut not_reconciled: usize = 0;
        let mut i: usize = 0;
        assert(keys.take(0) =~= Seq::<Seq<char>>::empty());
        while i < self.pods.len()
            invariant
                self.wf(),
                i <= keys.len(),
                keys == self.pods.key_order(),
                pods == self@.pods,
                bad == (|k: Seq<char>| pods[k].group_path is None),
                behind == (|k: Seq<char>| pods[k].reconciled < pods[k].total),
                failed <= i,
                not_reconciled <= i,
                failed == count(keys.take(i as int), bad),
                not_reconciled == count(keys.take(i as int), behind),
            decreases keys.len() - i,
        {
            let pod = self.pods.value_at(i);
            assert(pods[keys[i as int]] == pod@);
            assert(keys.take(i as int + 1).drop_last() =~= keys.take(i as int));
            if pod.group_path.is_none() {
                failed = failed + 1;
            }
            if pod.reconciled_containers < pod.total_containers {
                not_reconciled = not_reconciled + 1;
            }
            i = i + 1;
        }
        proof {
            assert(keys.take(i as int) =~= keys);
            self.pods.lemma_key_order();
            assert(pods.dom() =~= keys.to_set());
            lemma_count(keys, bad);
            lemma_count(keys, behind);
            assert(self@.failed() =~= keys.to_set().filter(bad));
            assert(self@.unreconciled() =~= keys.to_set().filter(behind));
        }
        (failed, not_reconciled)
    }

    /// How many pods fail, as it is logged.
    pub fn health_line(&self) -> (r: String)
        requires
            self.wf(),
        ensures
            r@ == health_text(self@.failed().len(), self@.unreconciled().len()),
    {
        let (failed, unreconciled) = self.health();
        let start = concat("resctrl health: pods_failed=", usize_to_string(failed).as_str());
        let mut line = concat(start.as_str(), ", pods_unreconciled=");
        let number = usize_to_string(unreconciled);
        line.append(number.as_str());
        line
    }
}

/// How many of a list have a property.
pub open spec fn count(s: Seq<Seq<char>>, p: spec_fn(Seq<char>) -> bool) -> nat
    decreases s.len(),
{
    if s.len() == 0 {
        0
    } else {
        count(s.drop_last(), p) + if p(s.last()) {
            1nat
        } else {
            0nat
        }
    }
}

proof fn lemma_count(s: Seq<Seq<char>>, p: spec_fn(Seq<char>) -> bool)
    requires
        s.no_duplicates(),
    ensures
        s.to_set().filter(p).finite(),
        count(s, p) == s.to_set().filter(p).len(),
    decreases s.len(),
{
    if s.len() == 0 {
        assert(s.to_set().filter(p) =~= Set::empty());
    } else {
        let rest = s.drop_last();
        lemma_count(rest, p);
        assert(!rest.contains(s.last()));
        let set = rest.to_set().filter(p);
        assert forall|k: Seq<char>| s.contains(k) <==> rest.contains(k) || k == s.last() by {
            if rest.contains(k) {
                let j = choose|j: int| 0 <= j < rest.len() && rest[j] == k;
                assert(s[j] == k);
            }
            if s.contains(k) && k != s.last() {
                let j = choose|j: int| 0 <= j < s.len() && s[j] == k;
                assert(rest[j] == k);
            }
            assert(s[s.len() - 1] == s.last());
        }
        if p(s.last()) {
            assert(s.to_set().filter(p) =~= set.insert(s.last()));
            assert(!set.contains(s.last()));
        } else {
            assert(s.to_set().filter(p) =~= set);
        }
    }
}

/// Of a pod that was removed nothing is held, and all else stays.
pub proof fn law_removed_pod_is_forgotten(t: TablesView, uid: Seq<char>, other: Seq<char>)
    requires
        other != uid,
    ensures
        ({
            let gone = t.after_event(PodEventView::Removed { uid });
            &&& !gone.pods.dom().contains(uid)
            &&& !gone.labels.dom().contains(uid)
            &&& gone.pods.dom().contains(other) == t.pods.dom().contains(other)
            &&& t.pods.dom().contains(other) ==> gone.pods[other] == t.pods[other]
            &&& gone.labels.dom().contains(other) == t.labels.dom().contains(other)
            &&& t.labels.dom().contains(other) ==> gone.labels[other] == t.labels[other]
        }),
{
}

/// The last report of a pod is the one that counts.
pub proof fn law_last_event_counts(t: TablesView, first: PodEventView, second: PodEventView)
    requires
        first is AddOrUpdate,
        match second {
            PodEventView::AddOrUpdate { pod_uid, .. } => pod_uid == first->pod_uid,
            PodEventView::Removed { uid } => uid == first->pod_uid,
        },
    ensures
        t.after_event(first).after_event(second) == t.after_event(second),
{
    assert(t.after_event(first).after_event(second) =~= t.after_event(second));
}

}
