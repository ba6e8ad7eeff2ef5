//! Laws of what the collector knows of pods, what its samples tell, and how it is configured.

use vstd::prelude::*;

use crate::decimal::{dec, parse_usize_of, IntError};
use crate::nri_enrich::MetadataMessage;
use crate::nri_plugin::types::{GroupView, PodEventView, PodView};
use crate::path::joined;
use crate::resctrl::call_laws::{domains_in, law_occupancy_is_the_sum_of_all_domains, sum_in};
use crate::resctrl::provider::FsEvent;
use crate::resctrl::runs::{group_occupancy_run, mon_data_of, occupancy_path};
use crate::resctrl_collector::config::{
    config_of, has_one_part, has_short_units, number_sum, surely_in_range, Interval,
};
use crate::resctrl_collector::sampling::{
    drops_report, failed_report, law_samples_are_of_groups, sample_of, sample_run, sampled,
    timestamp_of, OccupancyColumns, SampleView,
};
use crate::resctrl_collector::tables::{lists_groups, TablesView};

verus! {

// ---------------------------------------------------------------------------
// Tables
// ---------------------------------------------------------------------------

/// What the collector is told: an event of the plugin, or a message about a container.
pub ghost enum Told {
    Event(PodEventView),
    Message(MetadataMessage),
}

/// The tables once things were told, in order.
pub open spec fn told_all(t: TablesView, told: Seq<Told>) -> TablesView
    decreases told.len(),
{
    if told.len() == 0 {
        t
    } else {
        let before = told_all(t, told.drop_last());
        match told.last() {
            Told::Event(e) => before.after_event(e),
            Told::Message(m) => before.after_message(m),
        }
    }
}

/// Whether something that is told says nothing of a pod's state.
pub open spec fn leaves_state(told: Told, uid: Seq<char>) -> bool {
    match told {
        Told::Event(PodEventView::AddOrUpdate { pod_uid, .. }) => pod_uid != uid,
        Told::Event(PodEventView::Removed { uid: gone }) => gone != uid,
        Told::Message(_) => true,
    }
}

/// Whether something that is told says nothing of a pod's labels.
pub open spec fn leaves_labels(told: Told, uid: Seq<char>) -> bool {
    match told {
        Told::Event(PodEventView::AddOrUpdate { .. }) => true,
        Told::Event(PodEventView::Removed { uid: gone }) => gone != uid,
        Told::Message(MetadataMessage::Add(_, m)) => m.pod_uid@ != uid,
        Told::Message(MetadataMessage::Remove(_)) => true,
    }
}

/// Things that say nothing of a pod change nothing that is held of it.
pub proof fn law_other_news_changes_nothing(t: TablesView, told: Seq<Told>, uid: Seq<char>)
    ensures
        (forall|i: int| 0 <= i < told.len() ==> leaves_state(#[trigger] told[i], uid)) ==> {
            let now = told_all(t, told);
            &&& now.pods.dom().contains(uid) == t.pods.dom().contains(uid)
            &&& t.pods.dom().contains(uid) ==> now.pods[uid] == t.pods[uid]
        },
        (forall|i: int| 0 <= i < told.len() ==> leaves_labels(#[trigger] told[i], uid)) ==> {
            let now = told_all(t, told);
            &&& now.labels.dom().contains(uid) == t.labels.dom().contains(uid)
            &&& t.labels.dom().contains(uid) ==> now.labels[uid] == t.labels[uid]
        },
    decreases told.len(),
{
    if told.len() > 0 {
        let front = told.drop_last();
        law_other_news_changes_nothing(t, front, uid);
        assert(told[told.len() - 1] == told.last());
        assert forall|i: int| 0 <= i < front.len() implies told[i] == front[i] by {}
        if forall|i: int| 0 <= i < told.len() ==> leaves_state(#[trigger] told[i], uid) {
            assert forall|i: int| 0 <= i < front.len() implies leaves_state(
                #[trigger] front[i],
                uid,
            ) by {
                assert(leaves_state(told[i], uid));
            }
            assert(leaves_state(told[told.len() - 1], uid));
        }
        if forall|i: int| 0 <= i < told.len() ==> leaves_labels(#[trigger] told[i], uid) {
            assert forall|i: int| 0 <= i < front.len() implies leaves_labels(
                #[trigger] front[i],
                uid,
            ) by {
                assert(leaves_labels(told[i], uid));
            }
            assert(leaves_labels(told[told.len() - 1], uid));
        }
    }
}

/// A pod is known as it was last reported, whatever is told of others later: with the path of its
/// group where it has one, and with its counts.
pub proof fn law_pods_are_known_as_reported(
    t: TablesView,
    uid: Seq<char>,
    pod: PodView,
    later: Seq<Told>,
)
    requires
        forall|i: int| 0 <= i < later.len() ==> leaves_state(#[trigger] later[i], uid),
    ensures
        ({
            let now = told_all(
                t.after_event(PodEventView::AddOrUpdate { pod_uid: uid, pod }),
                later,
            );
            &&& now.pods.dom().contains(uid)
            &&& now.pods[uid].total == pod.total
            &&& now.pods[uid].reconciled == pod.reconciled
            &&& forall|path: Seq<char>|
                pod.group == GroupView::Exists(path) <==> now.pods[uid].group_path == Some(path)
            &&& now.failed().contains(uid) <==> pod.group is Failed
            &&& now.unreconciled().contains(uid) <==> pod.reconciled < pod.total
        }),
{
    let told = t.after_event(PodEventView::AddOrUpdate { pod_uid: uid, pod });
    law_other_news_changes_nothing(told, later, uid);
}

/// A pod has the namespace and the name that the last message about one of its containers gave,
/// whatever is told of others later.
pub proof fn law_labels_are_as_last_told(
    t: TablesView,
    msg: MetadataMessage,
    later: Seq<Told>,
)
    requires
        msg matches MetadataMessage::Add(_, m) && m.pod_uid@.len() > 0,
        forall|i: int|
            0 <= i < later.len() ==> leaves_labels(#[trigger] later[i], msg->Add_1.pod_uid@),
    ensures
        ({
            let m = msg->Add_1;
            let now = told_all(t.after_message(msg), later);
            now.labels.dom().contains(m.pod_uid@) && now.labels[m.pod_uid@] == (
                m.pod_namespace@,
                m.pod_name@,
            )
        }),
{
    law_other_news_changes_nothing(t.after_message(msg), later, msg->Add_1.pod_uid@);
}

/// Nothing is held of a pod that was removed, until it is told of again; and a container without a
/// pod tells nothing at all.
pub proof fn law_removed_pods_stay_away(
    t: TablesView,
    uid: Seq<char>,
    later: Seq<Told>,
    msg: MetadataMessage,
)
    requires
        forall|i: int|
            0 <= i < later.len() ==> leaves_state(#[trigger] later[i], uid) && leaves_labels(
                later[i],
                uid,
            ),
    ensures
        ({
            let now = told_all(t.after_event(PodEventView::Removed { uid }), later);
            &&& !now.pods.dom().contains(uid)
            &&& !now.labels.dom().contains(uid)
            &&& !now.failed().contains(uid)
            &&& !now.unreconciled().contains(uid)
        }),
        msg matches MetadataMessage::Add(_, m) && m.pod_uid@.len() == 0 ==> t.after_message(msg) == t,
{
    law_other_news_changes_nothing(t.after_event(PodEventView::Removed { uid }), later, uid);
}

// ---------------------------------------------------------------------------
// Samples
// ---------------------------------------------------------------------------

/// Groups are read one after the other: the samples of some come before those of the others, and so
/// do the calls.
pub proof fn law_groups_are_read_in_turn(
    t: TablesView,
    a: Seq<(Seq<char>, Seq<char>)>,
    b: Seq<(Seq<char>, Seq<char>)>,
    tr: Seq<FsEvent>,
    done: Seq<SampleView>,
)
    ensures
        sample_run(t, a + b, tr, done) == match sample_run(t, a, tr, done) {
            None => None,
            Some((samples, rest)) => sample_run(t, b, rest, samples),
        },
    decreases a.len(),
{
    if a.len() == 0 {
        assert(a + b =~= b);
    } else {
        assert((a + b)[0] == a[0]);
        assert((a + b).drop_first() =~= a.drop_first() + b);
        match group_occupancy_run(mon_data_of(a[0].1), tr) {
            None => {},
            Some((Ok(bytes), rest)) => {
                law_groups_are_read_in_turn(
                    t,
                    a.drop_first(),
                    b,
                    rest,
                    done.push(sample_of(t, a[0], bytes)),
                );
            },
            Some((Err(_), rest)) => {
                law_groups_are_read_in_turn(t, a.drop_first(), b, rest, done);
            },
        }
    }
}

/// A group gives one sample where all its cache domains could be read, and none else. The sample
/// names the pod and the group, has the pod's own labels, and holds the sum of what was read of that
/// group's domains, short of the greatest `i64`.
pub proof fn law_sample_tells_of_its_own_group(
    t: TablesView,
    uid: Seq<char>,
    path: Seq<char>,
    tr: Seq<FsEvent>,
    samples: Seq<SampleView>,
)
    requires
        sample_run(t, seq![(uid, path)], tr, Seq::empty()) == Some(
            (samples, Seq::<FsEvent>::empty()),
        ),
    ensures
        samples.len() <= 1,
        tr.len() > 0,
        tr[0] matches FsEvent::ReadChildDirs { path: dir, .. } && dir == joined(path, "mon_data"@),
        ({
            let reads = tr.drop_first();
            let dir = joined(path, "mon_data"@);
            samples.len() == 1 ==> {
                let s = samples[0];
                &&& s.pod_uid == uid
                &&& s.group_path == path
                &&& s.labels is Some <==> t.labels.dom().contains(uid)
                &&& s.labels matches Some(l) ==> l == t.labels[uid]
                &&& tr[0] matches FsEvent::ReadChildDirs { answer: Ok(names), .. } && reads.len()
                    == domains_in(names).len() && forall|i: int|
                    0 <= i < reads.len() ==> (
                    #[trigger] reads[i] matches FsEvent::ReadToString { path: file, .. } && file
                        == occupancy_path(dir, domains_in(names)[i]))
                &&& 0 <= sum_in(reads) <= i64::MAX ==> s.bytes == sum_in(reads)
            }
        }),
        samples.len() == 1 <==> group_occupancy_run(mon_data_of(path), tr).unwrap().0 is Ok,
{
    let group = (uid, path);
    let groups = seq![group];
    let (answer, rest) = group_occupancy_run(mon_data_of(path), tr).unwrap();
    assert(groups.drop_first() =~= Seq::<(Seq<char>, Seq<char>)>::empty());
    reveal_with_fuel(sample_run, 2);
    assert(rest.len() == 0);
    law_occupancy_is_the_sum_of_all_domains(mon_data_of(path), tr);
    if let Ok(bytes) = answer {
        assert(samples =~= seq![sample_of(t, group, bytes)]);
    }
}

proof fn lemma_samples_differ(
    t: TablesView,
    groups: Seq<(Seq<char>, Seq<char>)>,
    tr: Seq<FsEvent>,
    done: Seq<SampleView>,
)
    requires
        sample_run(t, groups, tr, done) matches Some(_),
        forall|i: int, j: int|
            0 <= i < j < groups.len() ==> (#[trigger] groups[i]).0 != (#[trigger] groups[j]).0,
        forall|i: int, j: int|
            0 <= i < done.len() && 0 <= j < groups.len() ==> (#[trigger] done[i]).pod_uid != (
            #[trigger] groups[j]).0,
        forall|i: int, j: int|
            0 <= i < j < done.len() ==> (#[trigger] done[i]).pod_uid != (#[trigger] done[j]).pod_uid,
    ensures
        ({
            let samples = sample_run(t, groups, tr, done).unwrap().0;
            forall|i: int, j: int|
                0 <= i < j < samples.len() ==> (#[trigger] samples[i]).pod_uid != (
                #[trigger] samples[j]).pod_uid
        }),
    decreases groups.len(),
{
    if groups.len() > 0 {
        let (answer, rest) = group_occupancy_run(mon_data_of(groups[0].1), tr).unwrap();
        let next = match answer {
            Ok(bytes) => done.push(sample_of(t, groups[0], bytes)),
            Err(_) => done,
        };
        let others = groups.drop_first();
        assert forall|i: int, j: int| 0 <= i < j < others.len() implies (#[trigger] others[i]).0 != (
        #[trigger] others[j]).0 by {
            assert(groups[i + 1].0 != groups[j + 1].0);
        }
        assert forall|i: int, j: int| 0 <= i < next.len() && 0 <= j < others.len() implies (
        #[trigger] next[i]).pod_uid != (#[trigger] others[j]).0 by {
            if i < done.len() {
                assert(done[i].pod_uid != groups[j + 1].0);
            } else {
                assert(groups[0].0 != groups[j + 1].0);
            }
        }
        assert forall|i: int, j: int| 0 <= i < j < next.len() implies (#[trigger] next[i]).pod_uid
            != (#[trigger] next[j]).pod_uid by {
            if j < done.len() {
                assert(done[i].pod_uid != done[j].pod_uid);
            } else {
                assert(done[i].pod_uid != groups[0].0);
            }
        }
        lemma_samples_differ(t, others, rest, next);
    }
}

/// Samples are of pods that are known, each with the group that is known of it, and no pod gives two.
pub proof fn law_samples_are_of_known_pods(t: TablesView, tr: Seq<FsEvent>, samples: Seq<SampleView>)
    requires
        sampled(t, tr, samples),
    ensures
        forall|i: int|
            0 <= i < samples.len() ==> t.pods.dom().contains((#[trigger] samples[i]).pod_uid)
                && t.pods[samples[i].pod_uid].group_path == Some(samples[i].group_path),
        forall|i: int, j: int|
            0 <= i < j < samples.len() ==> (#[trigger] samples[i]).pod_uid != (
            #[trigger] samples[j]).pod_uid,
{
    let groups = choose|groups: Seq<(Seq<char>, Seq<char>)>|
        #![trigger lists_groups(groups, t.pods)]
        lists_groups(groups, t.pods) && sample_run(t, groups, tr, Seq::empty()) == Some(
            (samples, Seq::<FsEvent>::empty()),
        );
    law_samples_are_of_groups(t, groups, tr, Seq::empty());
    lemma_samples_differ(t, groups, tr, Seq::empty());
    assert forall|i: int| 0 <= i < samples.len() implies t.pods.dom().contains(
        (#[trigger] samples[i]).pod_uid,
    ) && t.pods[samples[i].pod_uid].group_path == Some(samples[i].group_path) by {
        let g = (samples[i].pod_uid, samples[i].group_path);
        let j = choose|j: int| 0 <= j < groups.len() && groups[j] == g;
        assert(groups[j].0 == g.0);
    }
}

/// A row tells what the sample of the same place tells, and when it was taken.
pub proof fn law_rows_tell_their_samples(
    c: &OccupancyColumns,
    timestamp: i64,
    samples: Seq<SampleView>,
    i: int,
)
    requires
        c.holds(timestamp, samples),
        0 <= i < samples.len(),
    ensures
        c.timestamp@.len() == samples.len(),
        c.timestamp@[i] == timestamp,
        c.pod_uid@[i]@ == samples[i].pod_uid,
        c.resctrl_group@[i]@ == samples[i].group_path,
        c.llc_occupancy_bytes@[i] == samples[i].bytes,
        c.pod_namespace@[i] is Some <==> samples[i].labels is Some,
        c.pod_name@[i] is Some <==> samples[i].labels is Some,
        samples[i].labels matches Some((namespace, name)) ==> c.pod_namespace@[i].unwrap()@
            == namespace && c.pod_name@[i].unwrap()@ == name,
{
    assert(c.row_is(i, timestamp, samples[i]));
}

/// A timestamp counts the nanoseconds: the seconds and the rest can be had back of it, and a later
/// time has a greater one.
pub proof fn law_timestamps_count_nanoseconds(a: (u64, u32), b: (u64, u32))
    requires
        a.1 < 1_000_000_000,
        b.1 < 1_000_000_000,
        a.0 < 9_223_372_036,
        b.0 < 9_223_372_036,
    ensures
        timestamp_of(Some(a)) / 1_000_000_000 == a.0,
        timestamp_of(Some(a)) % 1_000_000_000 == a.1,
        timestamp_of(Some(a)) < timestamp_of(Some(b)) <==> a.0 < b.0 || (a.0 == b.0 && a.1 < b.1),
        timestamp_of(None) == 0,
{
}

/// A second without trouble is not reported; one with trouble is, with the count.
pub proof fn law_reports_tell_the_count(n: nat)
    ensures
        n == 0 <==> drops_report(n) is None,
        n == 0 <==> failed_report(n) is None,
        n > 0 ==> drops_report(n) == Some(
            "Dropped "@ + dec(n) + " occupancy batches in the last second"@,
        ),
        n > 0 ==> failed_report(n) == Some(
            "Failed to read "@ + dec(n) + " resctrl groups in the last second"@,
        ),
{
}

// ---------------------------------------------------------------------------
// Configuration
// ---------------------------------------------------------------------------

/// Each setting decides what it is about and nothing else: two configurations agree wherever their
/// settings do.
pub proof fn law_settings_decide_for_themselves(
    a: (Option<(u64, u32)>, Option<(u64, u32)>, Option<(u64, u32)>, Option<&str>, Option<&str>),
    b: (Option<(u64, u32)>, Option<(u64, u32)>, Option<(u64, u32)>, Option<&str>, Option<&str>),
)
    ensures
        ({
            let x = config_of(a.0, a.1, a.2, a.3, a.4);
            let y = config_of(b.0, b.1, b.2, b.3, b.4);
            &&& a.0 == b.0 ==> x.sample_interval == y.sample_interval
            &&& a.1 == b.1 ==> x.retry_interval == y.retry_interval
            &&& a.2 == b.2 ==> x.health_interval == y.health_interval
            &&& a.3 == b.3 ==> x.channel_capacity == y.channel_capacity
            &&& a.4 == b.4 ==> x.mountpoint == y.mountpoint
        }),
{
}

/// A valid setting is taken over as it is, and one that is missing or not valid leaves the default.
pub proof fn law_valid_settings_count(
    sampling: Option<(u64, u32)>,
    retry: Option<(u64, u32)>,
    health: Option<(u64, u32)>,
    capacity: Option<&str>,
    mount: Option<&str>,
)
    ensures
        ({
            let c = config_of(sampling, retry, health, capacity, mount);
            &&& c.sample_interval == match sampling {
                Some(x) => Interval { secs: x.0, nanos: x.1 },
                None => Interval { secs: 1, nanos: 0 },
            }
            &&& c.retry_interval == match retry {
                Some(x) => Interval { secs: x.0, nanos: x.1 },
                None => Interval { secs: 10, nanos: 0 },
            }
            &&& c.health_interval == match health {
                Some(x) => Interval { secs: x.0, nanos: x.1 },
                None => Interval { secs: 60, nanos: 0 },
            }
            &&& (capacity matches Some(s) && (parse_usize_of(s@) matches Ok(n) && n > 0)) ==> Ok::<
                int,
                IntError,
            >(c.channel_capacity as int) == parse_usize_of(capacity.unwrap()@)
            &&& !(capacity matches Some(s) && (parse_usize_of(s@) matches Ok(n) && n > 0))
                ==> c.channel_capacity == 256
            &&& (mount matches Some(s) && s@.len() > 0) ==> c.mountpoint == mount.unwrap()@
            &&& !(mount matches Some(s) && s@.len() > 0) ==> c.mountpoint == "/sys/fs/resctrl"@
        }),
{
}

/// The parts of a span of time that is surely in range do not add up to more seconds than a `u64`
/// holds, whatever their units are, unless there is but one.
pub proof fn law_spans_in_range_fit(text: Seq<char>)
    requires
        surely_in_range(text),
        !has_one_part(text),
    ensures
        number_sum(text) * 31_557_600 < u64::MAX || (has_short_units(text) && number_sum(text) * 60
            < u64::MAX),
{
}

}
