//! Labels of containers for rows that name a control group.
//!
//! The task learns from the runtime which container belongs to which control group, and appends to
//! each batch of rows the labels of the container that each row's control group belongs to.

use std::collections::HashMap;

use vstd::prelude::*;

use crate::batch::{Batch, Column};
use crate::schema::{extended, field_of, field_views, DataType, Field, FieldView};
use crate::str_map::StrMap;
use crate::text::concat;

verus! {

broadcast use vstd::std_specs::hash::group_hash_axioms;

/// What the runtime tells of a container.
#[derive(Debug, Clone)]
pub struct ContainerMetadata {
    pub container_id: String,
    pub pod_name: String,
    pub pod_namespace: String,
    pub pod_uid: String,
    pub container_name: String,
    pub cgroup_path: String,
}

/// What the runtime tells of a container, as a value.
pub ghost struct MetadataView {
    pub container_id: Seq<char>,
    pub pod_name: Seq<char>,
    pub pod_namespace: Seq<char>,
    pub pod_uid: Seq<char>,
    pub container_name: Seq<char>,
    pub cgroup_path: Seq<char>,
}

impl View for ContainerMetadata {
    type V = MetadataView;

    open spec fn view(&self) -> MetadataView {
        MetadataView {
            container_id: self.container_id@,
            pod_name: self.pod_name@,
            pod_namespace: self.pod_namespace@,
            pod_uid: self.pod_uid@,
            container_name: self.container_name@,
            cgroup_path: self.cgroup_path@,
        }
    }
}

/// A message about a container, by its ID.
#[derive(Debug)]
pub enum MetadataMessage {
    Add(String, ContainerMetadata),
    Remove(String),
}

/// Why a batch cannot be enriched, or the task ends.
#[derive(Debug)]
pub enum EnrichError {
    /// The batch has no control groups.
    NoCgroupId,
    /// The control groups of the batch are no 64-bit integers.
    CgroupIdNotInt64,
    /// The enriched batch could not be built.
    NotBuilt(String),
    /// The enriched batch could not be passed on.
    DownstreamClosed(String),
    /// The runtime tells nothing more.
    MetadataClosed,
}

/// What an error says.
pub ghost enum EnrichErrorView {
    NoCgroupId,
    CgroupIdNotInt64,
    NotBuilt(Seq<char>),
    DownstreamClosed(Seq<char>),
    MetadataClosed,
}

impl View for EnrichError {
    type V = EnrichErrorView;

    open spec fn view(&self) -> EnrichErrorView {
        match *self {
            EnrichError::NoCgroupId => EnrichErrorView::NoCgroupId,
            EnrichError::CgroupIdNotInt64 => EnrichErrorView::CgroupIdNotInt64,
            EnrichError::NotBuilt(e) => EnrichErrorView::NotBuilt(e@),
            EnrichError::DownstreamClosed(e) => EnrichErrorView::DownstreamClosed(e@),
            EnrichError::MetadataClosed => EnrichErrorView::MetadataClosed,
        }
    }
}

impl EnrichErrorView {
    /// The text of an error.
    pub open spec fn text(self) -> Seq<char> {
        match self {
            EnrichErrorView::NoCgroupId => "cgroup_id column not found in input batch schema"@,
            EnrichErrorView::CgroupIdNotInt64 => "cgroup_id column is not Int64"@,
            EnrichErrorView::NotBuilt(e) => "Failed to create enriched RecordBatch: "@ + e,
            EnrichErrorView::DownstreamClosed(e) => "downstream batch channel closed: "@ + e,
            EnrichErrorView::MetadataClosed => "nri metadata channel closed"@,
        }
    }
}

impl EnrichError {
    /// The text of the error.
    pub fn message(&self) -> (r: String)
        ensures
            r@ == self@.text(),
    {
        match self {
            EnrichError::NoCgroupId => {
                "cgroup_id column not found in input batch schema".to_string()
            },
            EnrichError::CgroupIdNotInt64 => "cgroup_id column is not Int64".to_string(),
            EnrichError::NotBuilt(e) => {
                concat("Failed to create enriched RecordBatch: ", e.as_str())
            },
            EnrichError::DownstreamClosed(e) => {
                concat("downstream batch channel closed: ", e.as_str())
            },
            EnrichError::MetadataClosed => "nri metadata channel closed".to_string(),
        }
    }
}

/// The labels that are appended to a batch, row by row; those of unknown containers are missing.
#[derive(Debug)]
pub struct Enrichment {
    pub pod_name: Vec<Option<String>>,
    pub pod_namespace: Vec<Option<String>>,
    pub pod_uid: Vec<Option<String>>,
    pub container_name: Vec<Option<String>>,
    pub container_id: Vec<Option<String>>,
}

/// A label that may be missing, as a value.
pub open spec fn label_view(s: Option<String>) -> Option<Seq<char>> {
    match s {
        Some(t) => Some(t@),
        None => None,
    }
}

/// Labels as values.
pub open spec fn label_views(v: Seq<Option<String>>) -> Seq<Option<Seq<char>>> {
    v.map_values(|s: Option<String>| label_view(s))
}

/// The labels of the rows: of each the container of its control group, where it is known.
pub open spec fn labels(
    metadata: Map<u64, MetadataView>,
    ids: Seq<i64>,
    pick: spec_fn(MetadataView) -> Seq<char>,
) -> Seq<Option<Seq<char>>> {
    Seq::new(
        ids.len(),
        |i: int|
            if metadata.dom().contains(ids[i] as u64) {
                Some(pick(metadata[ids[i] as u64]))
            } else {
                None
            },
    )
}

/// Whether labels are those that belong to the rows' control groups.
pub open spec fn enriches(
    e: Enrichment,
    metadata: Map<u64, MetadataView>,
    ids: Seq<i64>,
) -> bool {
    &&& label_views(e.pod_name@) == labels(metadata, ids, |m: MetadataView| m.pod_name)
    &&& label_views(e.pod_namespace@) == labels(metadata, ids, |m: MetadataView| m.pod_namespace)
    &&& label_views(e.pod_uid@) == labels(metadata, ids, |m: MetadataView| m.pod_uid)
    &&& label_views(e.container_name@) == labels(metadata, ids, |m: MetadataView| m.container_name)
    &&& label_views(e.container_id@) == labels(metadata, ids, |m: MetadataView| m.container_id)
}

/// The control groups of a batch.
pub open spec fn cgroup_ids_of(batch: &Batch) -> Result<Seq<i64>, EnrichErrorView> {
    match batch.find("cgroup_id"@) {
        None => Err(EnrichErrorView::NoCgroupId),
        Some(Column::Int64(v)) => Ok(v@),
        Some(_) => Err(EnrichErrorView::CgroupIdNotInt64),
    }
}

/// The columns that are appended.
pub open spec fn enrich_fields() -> Seq<FieldView> {
    seq![
        field_of("pod_name"@, DataType::Utf8, true),
        field_of("pod_namespace"@, DataType::Utf8, true),
        field_of("pod_uid"@, DataType::Utf8, true),
        field_of("container_name"@, DataType::Utf8, true),
        field_of("container_id"@, DataType::Utf8, true),
    ]
}

/// The columns that are appended.
pub fn new_fields() -> (r: Vec<Field>)
    ensures
        field_views(r@) == enrich_fields(),
{
    let mut fields: Vec<Field> = Vec::new();
    fields.push(Field::new("pod_name", DataType::Utf8, true));
    fields.push(Field::new("pod_namespace", DataType::Utf8, true));
    fields.push(Field::new("pod_uid", DataType::Utf8, true));
    fields.push(Field::new("container_name", DataType::Utf8, true));
    fields.push(Field::new("container_id", DataType::Utf8, true));
    assert(field_views(fields@) =~= enrich_fields());
    fields
}

/// What the task knows: the control group of each container, and the container of each control
/// group.
#[verifier::ext_equal]
pub ghost struct EnrichView {
    pub containers: Map<Seq<char>, u64>,
    pub metadata: Map<u64, MetadataView>,
}

impl EnrichView {
    /// The task once a message came. What is told of a container without a control group, or whose
    /// control group is not found, is ignored.
    pub open spec fn told(self, msg: MetadataMessage, inode: Option<u64>) -> EnrichView {
        match msg {
            MetadataMessage::Add(id, m) => if m.cgroup_path@.len() == 0 || inode is None {
                self
            } else {
                EnrichView {
                    containers: self.containers.insert(id@, inode.unwrap()),
                    metadata: self.metadata.insert(inode.unwrap(), m@),
                }
            },
            MetadataMessage::Remove(id) => if self.containers.dom().contains(id@) {
                EnrichView {
                    containers: self.containers.remove(id@),
                    metadata: self.metadata.remove(self.containers[id@]),
                }
            } else {
                self
            },
        }
    }
}

/// What happens to the task.
#[derive(Debug)]
pub enum TaskEvent {
    /// A batch came.
    Batch(Batch),
    /// No more batches come.
    InputClosed,
    /// An enriched batch could not be built.
    BuildFailed(String),
    /// An enriched batch could not be passed on.
    SendFailed(String),
    /// A message came, with the control group of its container where it was found.
    Metadata(MetadataMessage, Option<u64>),
    /// No more messages come.
    MetadataClosed,
}

/// What the task does next.
#[derive(Debug)]
pub enum TaskStep {
    /// It waits.
    Wait,
    /// It appends labels to the batch and passes it on.
    Send(Enrichment),
    /// It ends.
    Stop(Result<(), EnrichError>),
}

/// Task that enriches incoming batches with container metadata based on the control group.
pub struct NRIEnrichRecordBatchTask {
    output_schema: Vec<Field>,
    container_to_inode: StrMap<u64>,
    inode_to_metadata: HashMap<u64, ContainerMetadata>,
}

impl View for NRIEnrichRecordBatchTask {
    type V = EnrichView;

    closed spec fn view(&self) -> EnrichView {
        EnrichView {
            containers: self.container_to_inode@,
            metadata: self.inode_to_metadata@.map_values(|m: ContainerMetadata| m@),
        }
    }
}

impl NRIEnrichRecordBatchTask {
    /// No container is held twice.
    pub closed spec fn wf(&self) -> bool {
        self.container_to_inode.wf()
    }

    /// The columns of enriched batches.
    pub closed spec fn fields(&self) -> Seq<FieldView> {
        field_views(self.output_schema@)
    }

    /// A task for batches with the given columns.
    pub fn new(input_schema: &Vec<Field>) -> (r: NRIEnrichRecordBatchTask)
        ensures
            r.wf(),
            r.fields() == field_views(input_schema@) + enrich_fields(),
            r@ == (EnrichView { containers: Map::empty(), metadata: Map::empty() }),
    {
        let r = NRIEnrichRecordBatchTask {
            output_schema: extended(input_schema, new_fields()),
            container_to_inode: StrMap::new(),
            inode_to_metadata: HashMap::new(),
        };
        assert(r@.metadata =~= Map::<u64, MetadataView>::empty());
        r
    }

    /// The columns of enriched batches: those of the input and the labels.
    pub fn schema(&self) -> (r: &Vec<Field>)
        ensures
            field_views(r@) == self.fields(),
    {
        &self.output_schema
    }

    /// The path of the control group that has to be found for a message.
    pub fn path_to_resolve<'a>(msg: &'a MetadataMessage) -> (r: Option<&'a str>)
        ensures
            match (*msg, r) {
                (MetadataMessage::Add(_, m), Some(p)) => p@ == m.cgroup_path@ && p@.len() > 0,
                (MetadataMessage::Add(_, m), None) => m.cgroup_path@.len() == 0,
                (MetadataMessage::Remove(_), _) => r is None,
            },
    {
        match msg {
            MetadataMessage::Add(_, m) => if m.cgroup_path.as_str().is_empty() {
                None
            } else {
                Some(m.cgroup_path.as_str())
            },
            MetadataMessage::Remove(_) => None,
        }
    }

    /// Takes in a message, with the control group of its container where it was found.
    pub fn process_metadata_message(&mut self, msg: MetadataMessage, inode: Option<u64>)
        requires
            old(self).wf(),
        ensures
            final(self).wf(),
            final(self).fields() == old(self).fields(),
            final(self)@ == old(self)@.told(msg, inode),
    {
        let ghost before = self@;
        match msg {
            MetadataMessage::Add(id, metadata) => {
                if metadata.cgroup_path.as_str().is_empty() {
                    return;
                }
                if let Some(n) = inode {
                    let ghost view = metadata@;
                    let ghost key = id@;
                    self.container_to_inode.insert(id, n);
                    self.inode_to_metadata.insert(n, metadata);
                    assert(self@.metadata =~= before.metadata.insert(n, view));
                }
            },
            MetadataMessage::Remove(id) => {
                if let Some(n) = self.container_to_inode.remove(id.as_str()) {
                    self.inode_to_metadata.remove(&n);
                    assert(self@.metadata =~= before.metadata.remove(n));
                }
            },
        }
    }

    /// The control group of a container.
    pub fn inode_of(&self, container_id: &str) -> (r: Option<u64>)
        requires
            self.wf(),
        ensures
            match r {
                Some(n) => self@.containers.dom().contains(container_id@)
                    && self@.containers[container_id@] == n,
                None => !self@.containers.dom().contains(container_id@),
            },
    {
        match self.container_to_inode.get(container_id) {
            Some(n) => Some(*n),
            None => None,
        }
    }

    /// What is known of a control group.
    pub fn metadata_of(&self, inode: u64) -> (r: Option<&ContainerMetadata>)
        ensures
            match r {
                Some(m) => self@.metadata.dom().contains(inode) && self@.metadata[inode] == m@,
                None => !self@.metadata.dom().contains(inode),
            },
    {
        self.inode_to_metadata.get(&inode)
    }

    /// The labels for the rows of a batch.
    pub fn enrich_batch(&self, batch: &Batch) -> (r: Result<Enrichment, EnrichError>)
        requires
            batch.wf(),
        ensures
            match cgroup_ids_of(batch) {
                Ok(ids) => r is Ok && enriches(r->Ok_0, self@.metadata, ids) && ids.len()
                    == batch.num_rows,
                Err(e) => r is Err && r->Err_0@ == e,
            },
    {
        let ids: &Vec<i64> = match batch.column_by_name("cgroup_id") {
            None => {
                return Err(EnrichError::NoCgroupId);
            },
            Some(Column::Int64(v)) => v,
            Some(_) => {
                return Err(EnrichError::CgroupIdNotInt64);
            },
        };
        let mut e = Enrichment {
            pod_name: Vec::new(),
            pod_namespace: Vec::new(),
            pod_uid: Vec::new(),
            container_name: Vec::new(),
            container_id: Vec::new(),
        };
        let ghost meta = self@.metadata;
        let mut i: usize = 0;
        assert(enriches(e, meta, ids@.take(0))) by {
            lemma_no_labels(e, meta, ids@.take(0));
        }
        while i < ids.len()
            invariant
                i <= ids@.len(),
                meta == self@.metadata,
                enriches(e, meta, ids@.take(i as int)),
            decreases ids.len() - i,
        {
            let inode: u64 = #[verifier::truncate]
            (ids[i] as u64);
            let ghost before = e;
            match self.inode_to_metadata.get(&inode) {
                Some(m) => {
                    e.pod_name.push(Some(m.pod_name.clone()));
                    e.pod_namespace.push(Some(m.pod_namespace.clone()));
                    e.pod_uid.push(Some(m.pod_uid.clone()));
                    e.container_name.push(Some(m.container_name.clone()));
                    e.container_id.push(Some(m.container_id.clone()));
                    assert(meta.dom().contains(inode) && meta[inode] == m@);
                },
                None => {
                    e.pod_name.push(None);
                    e.pod_namespace.push(None);
                    e.pod_uid.push(None);
                    e.container_name.push(None);
                    e.container_id.push(None);
                    assert(!meta.dom().contains(inode));
                },
            }
            proof {
                lemma_push_label(
                    before.pod_name@,
                    e.pod_name@,
                    meta,
                    ids@,
                    i as int,
                    |m: MetadataView| m.pod_name,
                );
                lemma_push_label(
                    before.pod_namespace@,
                    e.pod_namespace@,
                    meta,
                    ids@,
                    i as int,
                    |m: MetadataView| m.pod_namespace,
                );
                lemma_push_label(
                    before.pod_uid@,
                    e.pod_uid@,
                    meta,
                    ids@,
                    i as int,
                    |m: MetadataView| m.pod_uid,
                );
                lemma_push_label(
                    before.container_name@,
                    e.container_name@,
                    meta,
                    ids@,
                    i as int,
                    |m: MetadataView| m.container_name,
                );
                lemma_push_label(
                    before.container_id@,
                    e.container_id@,
                    meta,
                    ids@,
                    i as int,
                    |m: MetadataView| m.container_id,
                );
            }
            i = i + 1;
        }
        assert(ids@.take(i as int) =~= ids@);
        Ok(e)
    }

    /// What the task does next once something happened.
    pub fn step(&mut self, event: TaskEvent) -> (r: TaskStep)
        requires
            old(self).wf(),
            event matches TaskEvent::Batch(b) ==> b.wf(),
        ensures
            final(self).wf(),
            final(self).fields() == old(self).fields(),
            match event {
                TaskEvent::Batch(b) => final(self)@ == old(self)@ && match cgroup_ids_of(&b) {
                    Ok(ids) => r matches TaskStep::Send(e) && enriches(e, old(self)@.metadata, ids),
                    Err(x) => r matches TaskStep::Stop(Err(y)) && y@ == x,
                },
                TaskEvent::InputClosed => final(self)@ == old(self)@ && r == TaskStep::Stop(
                    Ok::<(), EnrichError>(()),
                ),
                TaskEvent::BuildFailed(e) => final(self)@ == old(self)@ && (r matches TaskStep::Stop(
                    Err(y),
                ) && y@ == EnrichErrorView::NotBuilt(e@)),
                TaskEvent::SendFailed(e) => final(self)@ == old(self)@ && (r matches TaskStep::Stop(
                    Err(y),
                ) && y@ == EnrichErrorView::DownstreamClosed(e@)),
                TaskEvent::Metadata(msg, inode) => final(self)@ == old(self)@.told(msg, inode) && r
                    == TaskStep::Wait,
                TaskEvent::MetadataClosed => final(self)@ == old(self)@ && (r matches TaskStep::Stop(
                    Err(y),
                ) && y@ == EnrichErrorView::MetadataClosed),
            },
    {
        match event {
            TaskEvent::Batch(batch) => match self.enrich_batch(&batch) {
                Ok(e) => TaskStep::Send(e),
                Err(e) => TaskStep::Stop(Err(e)),
            },
            TaskEvent::InputClosed => TaskStep::Stop(Ok(())),
            TaskEvent::BuildFailed(e) => TaskStep::Stop(Err(EnrichError::NotBuilt(e))),
            TaskEvent::SendFailed(e) => TaskStep::Stop(Err(EnrichError::DownstreamClosed(e))),
            TaskEvent::Metadata(msg, inode) => {
                self.process_metadata_message(msg, inode);
                TaskStep::Wait
            },
            TaskEvent::MetadataClosed => TaskStep::Stop(Err(EnrichError::MetadataClosed)),
        }
    }
}

proof fn lemma_no_labels(e: Enrichment, meta: Map<u64, MetadataView>, ids: Seq<i64>)
    requires
        ids.len() == 0,
        e.pod_name@.len() == 0,
        e.pod_namespace@.len() == 0,
        e.pod_uid@.len() == 0,
        e.container_name@.len() == 0,
        e.container_id@.len() == 0,
    ensures
        enriches(e, meta, ids),
{
    assert(label_views(e.pod_name@) =~= labels(meta, ids, |m: MetadataView| m.pod_name));
    assert(label_views(e.pod_namespace@) =~= labels(meta, ids, |m: MetadataView| m.pod_namespace));
    assert(label_views(e.pod_uid@) =~= labels(meta, ids, |m: MetadataView| m.pod_uid));
    assert(label_views(e.container_name@) =~= labels(
        meta,
        ids,
        |m: MetadataView| m.container_name,
    ));
    assert(label_views(e.container_id@) =~= labels(meta, ids, |m: MetadataView| m.container_id));
}

proof fn lemma_push_label(
    before: Seq<Option<String>>,
    after: Seq<Option<String>>,
    meta: Map<u64, MetadataView>,
    ids: Seq<i64>,
    i: int,
    pick: spec_fn(MetadataView) -> Seq<char>,
)
    requires
        0 <= i < ids.len(),
        label_views(before) == labels(meta, ids.take(i), pick),
        after.len() == before.len() + 1,
        after.drop_last() =~= before,
        label_view(after.last()) == (if meta.dom().contains(ids[i] as u64) {
            Some(pick(meta[ids[i] as u64]))
        } else {
            None
        }),
    ensures
        label_views(after) == labels(meta, ids.take(i + 1), pick),
{
    assert(label_views(before).len() == i);
    assert forall|k: int| 0 <= k < i implies label_views(after)[k] == labels(
        meta,
        ids.take(i + 1),
        pick,
    )[k] by {
        assert(after[k] == before[k]);
        assert(label_views(before)[k] == labels(meta, ids.take(i), pick)[k]);
    }
    assert(label_views(after) =~= labels(meta, ids.take(i + 1), pick));
}

/// What is told of a container is forgotten once it is removed.
pub proof fn law_removed_is_forgotten(s: EnrichView, id: String, m: ContainerMetadata, inode: u64)
    requires
        m.cgroup_path@.len() > 0,
    ensures
        ({
            let there = s.told(MetadataMessage::Add(id, m), Some(inode));
            let gone = there.told(MetadataMessage::Remove(id), None);
            &&& there.containers.dom().contains(id@) && there.containers[id@] == inode
            &&& there.metadata.dom().contains(inode) && there.metadata[inode] == m@
            &&& !gone.containers.dom().contains(id@)
            &&& !gone.metadata.dom().contains(inode)
        }),
{
}

/// Enrichment keeps the columns of the input, each where it was.
pub proof fn law_input_columns_stay(input: Seq<FieldView>, i: int)
    requires
        0 <= i < input.len(),
    ensures
        (input + enrich_fields())[i] == input[i],
        (input + enrich_fields()).len() == input.len() + 5,
{
}

/// Being told of a container leaves what is known of every other container, and of every other
/// control group, as it was. What is told of a container without a control group, or whose control
/// group is not found, changes nothing at all.
pub proof fn law_others_stay_as_they_were(
    s: EnrichView,
    msg: MetadataMessage,
    inode: Option<u64>,
    other: Seq<char>,
    k: u64,
)
    requires
        match msg {
            MetadataMessage::Add(id, m) => other != id@ && inode != Some(k),
            MetadataMessage::Remove(id) => other != id@ && (s.containers.dom().contains(id@)
                ==> s.containers[id@] != k),
        },
    ensures
        ({
            let t = s.told(msg, inode);
            &&& t.containers.dom().contains(other) == s.containers.dom().contains(other)
            &&& s.containers.dom().contains(other) ==> t.containers[other] == s.containers[other]
            &&& t.metadata.dom().contains(k) == s.metadata.dom().contains(k)
            &&& s.metadata.dom().contains(k) ==> t.metadata[k] == s.metadata[k]
        }),
        match msg {
            MetadataMessage::Add(_, m) => m.cgroup_path@.len() == 0 || inode is None ==> s.told(
                msg,
                inode,
            ) == s,
            MetadataMessage::Remove(id) => !s.containers.dom().contains(id@) ==> s.told(msg, inode)
                == s,
        },
{
}

/// Each row has the labels of the container that its own control group belongs to, each label in
/// its own column, or none where the control group is not known; there are as many labels as rows.
pub proof fn law_rows_have_their_own_labels(
    e: Enrichment,
    metadata: Map<u64, MetadataView>,
    ids: Seq<i64>,
    i: int,
)
    requires
        enriches(e, metadata, ids),
        0 <= i < ids.len(),
    ensures
        e.pod_name@.len() == ids.len(),
        e.pod_namespace@.len() == ids.len(),
        e.pod_uid@.len() == ids.len(),
        e.container_name@.len() == ids.len(),
        e.container_id@.len() == ids.len(),
        ({
            let k = ids[i] as u64;
            if metadata.dom().contains(k) {
                let m = metadata[k];
                &&& e.pod_name@[i] matches Some(x) && x@ == m.pod_name
                &&& e.pod_namespace@[i] matches Some(x) && x@ == m.pod_namespace
                &&& e.pod_uid@[i] matches Some(x) && x@ == m.pod_uid
                &&& e.container_name@[i] matches Some(x) && x@ == m.container_name
                &&& e.container_id@[i] matches Some(x) && x@ == m.container_id
            } else {
                &&& e.pod_name@[i] is None
                &&& e.pod_namespace@[i] is None
                &&& e.pod_uid@[i] is None
                &&& e.container_name@[i] is None
                &&& e.container_id@[i] is None
            }
        }),
{
    let known = metadata.dom().contains(ids[i] as u64);
    assert(label_views(e.pod_name@).len() == ids.len());
    assert(label_views(e.pod_namespace@).len() == ids.len());
    assert(label_views(e.pod_uid@).len() == ids.len());
    assert(label_views(e.container_name@).len() == ids.len());
    assert(label_views(e.container_id@).len() == ids.len());
    assert(label_views(e.pod_name@)[i] == label_view(e.pod_name@[i]));
    assert(label_views(e.pod_namespace@)[i] == label_view(e.pod_namespace@[i]));
    assert(label_views(e.pod_uid@)[i] == label_view(e.pod_uid@[i]));
    assert(label_views(e.container_name@)[i] == label_view(e.container_name@[i]));
    assert(label_views(e.container_id@)[i] == label_view(e.container_id@[i]));
}

/// A row is labelled with what was told last of the container in its control group, however many
/// containers were told of after it, as long as none of them is in the same control group and it is
/// not removed.
pub proof fn law_told_containers_are_known(
    s: EnrichView,
    id: String,
    m: ContainerMetadata,
    inode: u64,
    later: Seq<(MetadataMessage, Option<u64>)>,
)
    requires
        m.cgroup_path@.len() > 0,
        all_about_others(
            s.told(MetadataMessage::Add(id, m), Some(inode)),
            later,
            id@,
            inode,
        ),
    ensures
        ({
            let t = told_all(s.told(MetadataMessage::Add(id, m), Some(inode)), later);
            &&& t.metadata.dom().contains(inode) && t.metadata[inode] == m@
            &&& t.containers.dom().contains(id@) && t.containers[id@] == inode
        }),
    decreases later.len(),
{
    if later.len() > 0 {
        let first = s.told(MetadataMessage::Add(id, m), Some(inode));
        law_told_containers_are_known(s, id, m, inode, later.drop_last());
        let before = told_all(first, later.drop_last());
        law_others_stay_as_they_were(before, later.last().0, later.last().1, id@, inode);
    }
}

/// The task once messages came, one after the other.
pub open spec fn told_all(
    s: EnrichView,
    messages: Seq<(MetadataMessage, Option<u64>)>,
) -> EnrichView
    decreases messages.len(),
{
    if messages.len() == 0 {
        s
    } else {
        told_all(s, messages.drop_last()).told(messages.last().0, messages.last().1)
    }
}

/// Whether messages are about neither a container nor a control group.
pub open spec fn all_about_others(
    s: EnrichView,
    messages: Seq<(MetadataMessage, Option<u64>)>,
    id: Seq<char>,
    inode: u64,
) -> bool
    decreases messages.len(),
{
    messages.len() > 0 ==> {
        let before = told_all(s, messages.drop_last());
        &&& all_about_others(s, messages.drop_last(), id, inode)
        &&& match messages.last().0 {
            MetadataMessage::Add(other, _) => other@ != id && messages.last().1 != Some(inode),
            MetadataMessage::Remove(other) => other@ != id && (before.containers.dom().contains(
                other@,
            ) ==> before.containers[other@] != inode),
        }
    }
}

/// The labels are appended as five text columns that may be empty, in this order.
pub proof fn law_labels_are_appended(input: Seq<FieldView>)
    ensures
        ({
            let all = input + enrich_fields();
            let n = input.len() as int;
            &&& all[n] == field_of("pod_name"@, DataType::Utf8, true)
            &&& all[n + 1] == field_of("pod_namespace"@, DataType::Utf8, true)
            &&& all[n + 2] == field_of("pod_uid"@, DataType::Utf8, true)
            &&& all[n + 3] == field_of("container_name"@, DataType::Utf8, true)
            &&& all[n + 4] == field_of("container_id"@, DataType::Utf8, true)
        }),
{
}

}
