//! Taking samples, and laying them out in columns.

use vstd::prelude::*;

use crate::decimal::{dec, u128_to_string};
use crate::error_report::{count_after, reported_by, ReporterStep};
use crate::resctrl::handle::{bytes_answer, Resctrl};
use crate::resctrl::provider::{
    continues, lemma_continues, lemma_no_call, since, FsEvent, FsProvider,
};
use crate::resctrl::runs::{
    group_occupancy_run, mon_data_of, occupancy_answer, occupancy_run, sat64,
};
use crate::resctrl_collector::tables::{group_views, lists_groups, Tables, TablesView};
use crate::schema::{field_of, field_views, DataType, Field, FieldView};
use crate::text::{concat, opt_view};

verus! {

/// The columns of samples.
pub open spec fn sample_fields() -> Seq<FieldView> {
    seq![
        field_of("timestamp"@, DataType::Int64, false),
        field_of("pod_namespace"@, DataType::Utf8, true),
        field_of("pod_name"@, DataType::Utf8, true),
        field_of("pod_uid"@, DataType::Utf8, true),
        field_of("resctrl_group"@, DataType::Utf8, true),
        field_of("llc_occupancy_bytes"@, DataType::Int64, false),
    ]
}

/// The columns of samples.
pub fn create_schema() -> (r: Vec<Field>)
    ensures
        field_views(r@) == sample_fields(),
{
    let mut fields: Vec<Field> = Vec::new();
    fields.push(Field::new("timestamp", DataType::Int64, false));
    fields.push(Field::new("pod_namespace", DataType::Utf8, true));
    fields.push(Field::new("pod_name", DataType::Utf8, true));
    fields.push(Field::new("pod_uid", DataType::Utf8, true));
    fields.push(Field::new("resctrl_group", DataType::Utf8, true));
    fields.push(Field::new("llc_occupancy_bytes", DataType::Int64, false));
    assert(field_views(fields@) =~= sample_fields());
    fields
}

/// The nanoseconds since the start of the epoch that are in a sample taken the given seconds and
/// nanoseconds after it; zero where the clock is before it.
pub open spec fn timestamp_of(since_epoch: Option<(u64, u32)>) -> i64 {
    match since_epoch {
        Some((secs, nanos)) => (secs * 1_000_000_000 + nanos) as i64,
        None => 0,
    }
}

/// The timestamp of a sample.
pub fn now_ns(since_epoch: Option<(u64, u32)>) -> (r: i64)
    ensures
        r == timestamp_of(since_epoch),
{
    match since_epoch {
        Some((secs, nanos)) => {
            let total: u128 = (secs as u128) * 1_000_000_000 + (nanos as u128);
            #[verifier::truncate]
            (total as i64)
        },
        None => 0,
    }
}

/// The cache that a pod's group occupies.
#[derive(Debug)]
pub struct Sample {
    /// The pod's namespace and name, where they are known.
    pub labels: Option<(String, String)>,
    pub pod_uid: String,
    pub group_path: String,
    pub bytes: i64,
}

/// A sample as a value.
pub ghost struct SampleView {
    pub labels: Option<(Seq<char>, Seq<char>)>,
    pub pod_uid: Seq<char>,
    pub group_path: Seq<char>,
    pub bytes: i64,
}

impl View for Sample {
    type V = SampleView;

    open spec fn view(&self) -> SampleView {
        SampleView {
            labels: match self.labels {
                Some(l) => Some((l.0@, l.1@)),
                None => None,
            },
            pod_uid: self.pod_uid@,
            group_path: self.group_path@,
            bytes: self.bytes,
        }
    }
}

/// Samples as values.
pub open spec fn sample_views(v: Seq<Sample>) -> Seq<SampleView> {
    v.map_values(|s: Sample| s@)
}

/// The sample of a group whose occupancy was read.
pub open spec fn sample_of(
    t: TablesView,
    group: (Seq<char>, Seq<char>),
    bytes: int,
) -> SampleView {
    SampleView {
        labels: if t.labels.dom().contains(group.0) {
            Some(t.labels[group.0])
        } else {
            None
        },
        pod_uid: group.0,
        group_path: group.1,
        bytes: bytes as i64,
    }
}

/// The occupancy of each group is read in turn. A group that cannot be read gives no sample.
pub open spec fn sample_run(
    t: TablesView,
    groups: Seq<(Seq<char>, Seq<char>)>,
    tr: Seq<FsEvent>,
    done: Seq<SampleView>,
) -> Option<(Seq<SampleView>, Seq<FsEvent>)>
    decreases groups.len(),
{
    if groups.len() == 0 {
        Some((done, tr))
    } else {
        match group_occupancy_run(mon_data_of(groups[0].1), tr) {
            None => None,
            Some((Ok(bytes), rest)) => sample_run(
                t,
                groups.drop_first(),
                rest,
                done.push(sample_of(t, groups[0], bytes)),
            ),
            Some((Err(_), rest)) => sample_run(t, groups.drop_first(), rest, done),
        }
    }
}

/// The calls that read a domain's occupancy stay apart from what follows them.
proof fn lemma_occupancy_frame(
    mon_data: Seq<char>,
    names: Seq<Seq<char>>,
    a: Seq<FsEvent>,
    b: Seq<FsEvent>,
    total: int,
)
    requires
        occupancy_run(mon_data, names, a, total) matches Some(_),
    ensures
        ({
            let (answer, rest) = occupancy_run(mon_data, names, a, total).unwrap();
            occupancy_run(mon_data, names, a + b, total) == Some((answer, rest + b))
        }),
    decreases names.len(),
{
    if names.len() > 0 {
        if !crate::search::begins(names[0], crate::resctrl::runs::L3_PREFIX@) {
            lemma_occupancy_frame(mon_data, names.drop_first(), a, b, total);
        } else {
            assert((a + b)[0] == a[0]);
            assert((a + b).drop_first() =~= a.drop_first() + b);
            if let FsEvent::ReadToString { path, answer } = a[0] {
                if let Ok(n) = occupancy_answer(path, answer) {
                    lemma_occupancy_frame(
                        mon_data,
                        names.drop_first(),
                        a.drop_first(),
                        b,
                        sat64(total + n),
                    );
                }
            }
        }
    }
}

/// The calls that read a group's occupancy stay apart from what follows them.
proof fn lemma_group_frame(mon_data: Seq<char>, a: Seq<FsEvent>, b: Seq<FsEvent>)
    requires
        group_occupancy_run(mon_data, a) matches Some(_),
    ensures
        ({
            let (answer, rest) = group_occupancy_run(mon_data, a).unwrap();
            group_occupancy_run(mon_data, a + b) == Some((answer, rest + b))
        }),
{
    assert((a + b)[0] == a[0]);
    assert((a + b).drop_first() =~= a.drop_first() + b);
    if let FsEvent::ReadChildDirs { path, answer } = a[0] {
        if let Ok(names) = answer {
            lemma_occupancy_frame(mon_data, names, a.drop_first(), b, 0);
        }
    }
}

/// Whether samples were taken, by the calls, of all pods that have a group.
pub open spec fn sampled(t: TablesView, tr: Seq<FsEvent>, samples: Seq<SampleView>) -> bool {
    exists|groups: Seq<(Seq<char>, Seq<char>)>|
        #![trigger lists_groups(groups, t.pods)]
        lists_groups(groups, t.pods) && sample_run(t, groups, tr, Seq::empty()) == Some(
            (samples, Seq::<FsEvent>::empty()),
        )
}

impl Tables {
    /// Reads the occupancy of groups.
    pub fn sample_groups<P: FsProvider>(
        &self,
        rc: &mut Resctrl<P>,
        groups: &Vec<(String, String)>,
    ) -> (r: Vec<Sample>)
        requires
            self.wf(),
        ensures
            final(rc).config() == old(rc).config(),
            continues(old(rc).history(), final(rc).history()),
            sample_run(
                self@,
                group_views(groups@),
                since(old(rc).history(), final(rc).history()),
                Seq::empty(),
            ) == Some((sample_views(r@), Seq::<FsEvent>::empty())),
    {
        let ghost h0 = rc.history();
        let ghost all = group_views(groups@);
        let ghost t = self@;
        let ghost none = Seq::<SampleView>::empty();
        let mut samples: Vec<Sample> = Vec::new();
        let mut i: usize = 0;
        proof {
            lemma_no_call(h0);
            assert(all.skip(0) =~= all);
            assert(sample_views(samples@) =~= none);
            assert forall|b: Seq<FsEvent>|
                sample_run(t, all, #[trigger] (since(h0, h0) + b), none) == sample_run(
                    t,
                    all.skip(0),
                    b,
                    none,
                ) by {
                assert(since(h0, h0) + b =~= b);
            }
        }
        while i < groups.len()
            invariant
                self.wf(),
                t == self@,
                i <= groups@.len(),
                all == group_views(groups@),
                none == Seq::<SampleView>::empty(),
                h0 == old(rc).history(),
                rc.config() == old(rc).config(),
                continues(h0, rc.history()),
                forall|b: Seq<FsEvent>|
                    sample_run(t, all, #[trigger] (since(h0, rc.history()) + b), none)
                        == sample_run(t, all.skip(i as int), b, sample_views(samples@)),
            decreases groups.len() - i,
        {
            let ghost h1 = rc.history();
            let ghost done = sample_views(samples@);
            let ghost group = all[i as int];
            let uid = groups[i].0.as_str();
            let path = groups[i].1.as_str();
            let answer = rc.llc_occupancy_total_bytes(path);
            let ghost h2 = rc.history();
            let ghost calls = since(h1, h2);
            proof {
                lemma_continues(h0, h1, h2);
                assert(all.skip(i as int)[0] == group);
                assert(all.skip(i as int).drop_first() =~= all.skip(i as int + 1));
                assert forall|b: Seq<FsEvent>|
                    sample_run(t, all, #[trigger] (since(h0, h2) + b), none) == sample_run(
                        t,
                        all.skip(i as int),
                        calls + b,
                        done,
                    ) && group_occupancy_run(mon_data_of(group.1), calls + b) == Some(
                        (bytes_answer(answer), b),
                    ) by {
                    assert(since(h0, h2) + b =~= since(h0, h1) + (calls + b));
                    lemma_group_frame(mon_data_of(group.1), calls, b);
                    assert(Seq::<FsEvent>::empty() + b =~= b);
                }
            }
            if let Ok(total) = answer {
                let labels = self.labels_of(uid);
                let bytes: i64 = #[verifier::truncate]
                (total as i64);
                samples.push(
                    Sample {
                        labels,
                        pod_uid: groups[i].0.clone(),
                        group_path: groups[i].1.clone(),
                        bytes,
                    },
                );
                assert(samples@.last()@ == sample_of(t, group, total as int));
                assert(sample_views(samples@) =~= done.push(sample_of(t, group, total as int)));
            }
            i = i + 1;
        }
        proof {
            let tr = since(h0, rc.history());
            assert(tr + Seq::<FsEvent>::empty() =~= tr);
            assert(all.skip(i as int) =~= Seq::empty());
        }
        samples
    }

    /// Takes samples of all pods that have a group.
    pub fn sample<P: FsProvider>(&self, rc: &mut Resctrl<P>) -> (r: Vec<Sample>)
        requires
            self.wf(),
        ensures
            final(rc).config() == old(rc).config(),
            continues(old(rc).history(), final(rc).history()),
            sampled(
                self@,
                since(old(rc).history(), final(rc).history()),
                sample_views(r@),
            ),
    {
        let groups = self.groups_to_sample();
        self.sample_groups(rc, &groups)
    }
}

/// Samples laid out in columns.
#[derive(Debug)]
pub struct OccupancyColumns {
    pub timestamp: Vec<i64>,
    pub pod_namespace: Vec<Option<String>>,
    pub pod_name: Vec<Option<String>>,
    pub pod_uid: Vec<String>,
    pub resctrl_group: Vec<String>,
    pub llc_occupancy_bytes: Vec<i64>,
}

impl OccupancyColumns {
    /// Whether all columns have the given number of rows.
    pub open spec fn rows(&self, n: nat) -> bool {
        &&& self.timestamp@.len() == n
        &&& self.pod_namespace@.len() == n
        &&& self.pod_name@.len() == n
        &&& self.pod_uid@.len() == n
        &&& self.resctrl_group@.len() == n
        &&& self.llc_occupancy_bytes@.len() == n
    }

    /// Whether a row holds a sample.
    pub open spec fn row_is(&self, i: int, timestamp: i64, s: SampleView) -> bool {
        &&& self.timestamp@[i] == timestamp
        &&& match s.labels {
            Some((namespace, name)) => {
                &&& self.pod_namespace@[i] is Some && self.pod_namespace@[i].unwrap()@ == namespace
                &&& self.pod_name@[i] is Some && self.pod_name@[i].unwrap()@ == name
            },
            None => self.pod_namespace@[i] is None && self.pod_name@[i] is None,
        }
        &&& self.pod_uid@[i]@ == s.pod_uid
        &&& self.resctrl_group@[i]@ == s.group_path
        &&& self.llc_occupancy_bytes@[i] == s.bytes
    }

    /// Whether the columns hold the samples, row by row.
    pub open spec fn holds(&self, timestamp: i64, samples: Seq<SampleView>) -> bool {
        &&& self.rows(samples.len())
        &&& forall|i: int| #![trigger samples[i]]
            0 <= i < samples.len() ==> self.row_is(i, timestamp, samples[i])
    }
}

/// Lays out samples in columns. Where there is no sample, there is no batch.
pub fn occupancy_columns(timestamp: i64, samples: Vec<Sample>) -> (r: Option<OccupancyColumns>)
    ensures
        match r {
            Some(c) => samples@.len() > 0 && c.holds(timestamp, sample_views(samples@)),
            None => samples@.len() == 0,
        },
{
    if samples.len() == 0 {
        return None;
    }
    let mut c = OccupancyColumns {
        timestamp: Vec::new(),
        pod_namespace: Vec::new(),
        pod_name: Vec::new(),
        pod_uid: Vec::new(),
        resctrl_group: Vec::new(),
        llc_occupancy_bytes: Vec::new(),
    };
    let mut i: usize = 0;
    while i < samples.len()
        invariant
            i <= samples@.len(),
            c.rows(i as nat),
            forall|k: int|
                0 <= k < i ==> #[trigger] c.row_is(k, timestamp, sample_views(samples@)[k]),
        decreases samples.len() - i,
    {
        let ghost before = c;
        let s = &samples[i];
        c.timestamp.push(timestamp);
        match &s.labels {
            Some(l) => {
                c.pod_namespace.push(Some(l.0.clone()));
                c.pod_name.push(Some(l.1.clone()));
            },
            None => {
                c.pod_namespace.push(None);
                c.pod_name.push(None);
            },
        }
        c.pod_uid.push(s.pod_uid.clone());
        c.resctrl_group.push(s.group_path.clone());
        c.llc_occupancy_bytes.push(s.bytes);
        assert forall|k: int| 0 <= k < i + 1 implies #[trigger] c.row_is(
            k,
            timestamp,
            sample_views(samples@)[k],
        ) by {
            if k < i {
                assert(before.row_is(k, timestamp, sample_views(samples@)[k]));
            }
        }
        i = i + 1;
    }
    Some(c)
}

/// What becomes of the samples of a tick.
#[derive(Debug, Clone, Copy, PartialEq, Eq, Structural)]
pub enum BatchFate {
    /// There were none.
    Empty,
    /// No batch could be made of them.
    NotBuilt,
    /// The batch was passed on.
    Sent,
    /// The batch found no room.
    Dropped,
}

/// Batches that found no room and were not yet reported.
pub struct Drops {
    pub dropped_batches: u64,
}

/// What is reported of batches that found no room; nothing where there are none.
pub open spec fn drops_report(n: nat) -> Option<Seq<char>> {
    if n > 0 {
        Some("Dropped "@ + dec(n) + " occupancy batches in the last second"@)
    } else {
        None
    }
}

impl Drops {
    /// None were dropped.
    pub fn new() -> (r: Drops)
        ensures
            r.dropped_batches == 0,
    {
        Drops { dropped_batches: 0 }
    }

    /// Counts a batch that found no room. Any other fate changes nothing.
    pub fn on_batch(&mut self, fate: BatchFate)
        requires
            old(self).dropped_batches < u64::MAX,
        ensures
            final(self).dropped_batches == if fate == BatchFate::Dropped {
                count_after(old(self).dropped_batches as nat, ReporterStep::Event)
            } else {
                old(self).dropped_batches as nat
            },
    {
        if fate == BatchFate::Dropped {
            self.dropped_batches = self.dropped_batches + 1;
        }
    }

    /// What is reported once a second is over: all that were dropped in it. The count starts anew.
    pub fn on_second(&mut self) -> (r: Option<String>)
        ensures
            final(self).dropped_batches == count_after(
                old(self).dropped_batches as nat,
                ReporterStep::Tick,
            ),
            opt_view(r) == drops_report(
                reported_by(old(self).dropped_batches as nat, ReporterStep::Tick),
            ),
    {
        if self.dropped_batches > 0 {
            let number = u128_to_string(self.dropped_batches as u128);
            let start = concat("Dropped ", number.as_str());
            let line = concat(start.as_str(), " occupancy batches in the last second");
            self.dropped_batches = 0;
            Some(line)
        } else {
            None
        }
    }
}

/// Groups that could not be read and were not yet reported.
pub struct FailedReads {
    pub failed_groups: u64,
}

/// What is reported of groups that could not be read; nothing where there are none.
pub open spec fn failed_report(n: nat) -> Option<Seq<char>> {
    if n > 0 {
        Some("Failed to read "@ + dec(n) + " resctrl groups in the last second"@)
    } else {
        None
    }
}

impl FailedReads {
    /// None have failed.
    pub fn new() -> (r: FailedReads)
        ensures
            r.failed_groups == 0,
    {
        FailedReads { failed_groups: 0 }
    }

    /// Counts the groups that were to be sampled and that no sample came of, up to the greatest
    /// count that can be held.
    pub fn on_sampled(&mut self, groups: usize, samples: usize)
        requires
            samples <= groups,
        ensures
            final(self).failed_groups == sat64(old(self).failed_groups + groups - samples),
    {
        let failed: u64 = (groups - samples) as u64;
        self.failed_groups = self.failed_groups.saturating_add(failed);
    }

    /// What is reported once a second is over: all that failed in it. The count starts anew.
    pub fn on_second(&mut self) -> (r: Option<String>)
        ensures
            final(self).failed_groups == count_after(
                old(self).failed_groups as nat,
                ReporterStep::Tick,
            ),
            opt_view(r) == failed_report(
                reported_by(old(self).failed_groups as nat, ReporterStep::Tick),
            ),
    {
        if self.failed_groups > 0 {
            let number = u128_to_string(self.failed_groups as u128);
            let start = concat("Failed to read ", number.as_str());
            let line = concat(start.as_str(), " resctrl groups in the last second");
            self.failed_groups = 0;
            Some(line)
        } else {
            None
        }
    }
}

/// Samples are of groups that were to be sampled, at most one of each: they come in the order of
/// the groups, and only groups that could not be read are left out.
pub proof fn law_samples_are_of_groups(
    t: TablesView,
    groups: Seq<(Seq<char>, Seq<char>)>,
    tr: Seq<FsEvent>,
    done: Seq<SampleView>,
)
    requires
        sample_run(t, groups, tr, done) matches Some(_),
    ensures
        ({
            let samples = sample_run(t, groups, tr, done).unwrap().0;
            &&& done.len() <= samples.len() <= done.len() + groups.len()
            &&& samples.take(done.len() as int) == done
            &&& forall|i: int|
                #![trigger samples[i]]
                done.len() <= i < samples.len() ==> groups.contains(
                    (samples[i].pod_uid, samples[i].group_path),
                )
        }),
    decreases groups.len(),
{
    if groups.len() == 0 {
        assert(done.take(done.len() as int) =~= done);
    } else {
        let (answer, rest) = group_occupancy_run(mon_data_of(groups[0].1), tr).unwrap();
        let next = match answer {
            Ok(bytes) => done.push(sample_of(t, groups[0], bytes)),
            Err(_) => done,
        };
        law_samples_are_of_groups(t, groups.drop_first(), rest, next);
        let samples = sample_run(t, groups, tr, done).unwrap().0;
        assert(samples.take(done.len() as int) =~= next.take(done.len() as int));
        assert(next.take(done.len() as int) =~= done);
        assert forall|i: int|
            #![trigger samples[i]]
            done.len() <= i < samples.len() implies groups.contains(
            (samples[i].pod_uid, samples[i].group_path),
        ) by {
            if i < next.len() {
                assert(samples.take(next.len() as int)[i] == next[i]);
                assert(groups[0] == (samples[i].pod_uid, samples[i].group_path));
            } else {
                let g = (samples[i].pod_uid, samples[i].group_path);
                let j = choose|j: int|
                    0 <= j < groups.drop_first().len() && groups.drop_first()[j] == g;
                assert(groups[j + 1] == g);
            }
        }
    }
}

}
