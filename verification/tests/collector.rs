use std::collections::HashMap;

use collector::batch::{Batch, Column, NamedColumn};
use collector::error_report::{
    handle_lost_events, lost_events_unsent, timer_migration_report, ErrorEvent, ErrorReporter,
    LostEventStep,
};
use collector::health_server::{respond, route, route_text, Route};
use collector::nri_enrich::{
    ContainerMetadata, EnrichError, MetadataMessage, NRIEnrichRecordBatchTask, TaskEvent, TaskStep,
};
use collector::nri_plugin::{
    PodResctrlAddOrUpdate, PodResctrlEvent, PodResctrlRemoved, ResctrlGroupState,
};
use collector::resctrl::error::IoError;
use collector::resctrl::{Config, FsProvider, Resctrl};
use collector::resctrl_collector::config::is_surely_in_range;
use collector::resctrl_collector::sampling::{
    occupancy_columns, BatchFate, Drops, FailedReads,
};
use collector::resctrl_collector::{
    create_schema, now_ns, Interval, ResctrlCollector, ResctrlCollectorConfig, Tables,
};
use collector::schema::{DataType, Field};

fn make_input_schema() -> Vec<Field> {
    vec![
        Field::new("start_time", DataType::Int64, false),
        Field::new("pid", DataType::Int32, false),
        Field::new("process_name", DataType::Utf8, true),
        Field::new("cgroup_id", DataType::Int64, false),
    ]
}

fn named(name: &str, column: Column) -> NamedColumn {
    NamedColumn { name: name.to_string(), column }
}

fn make_simple_batch(cgroups: &[i64]) -> Batch {
    let n = cgroups.len();
    Batch {
        num_rows: n,
        columns: vec![
            named("start_time", Column::Int64(vec![123; n])),
            named("pid", Column::Int32((0..n as i32).collect(), vec![false; n])),
            named("process_name", Column::Utf8((0..n).map(|i| format!("p{}", i)).collect())),
            named("cgroup_id", Column::Int64(cgroups.to_vec())),
        ],
    }
}

fn metadata(id: &str, cgroup_path: &str) -> ContainerMetadata {
    ContainerMetadata {
        container_id: id.to_string(),
        pod_name: "pod-a".to_string(),
        pod_namespace: "ns-a".to_string(),
        pod_uid: "uid-a".to_string(),
        container_name: "c-a".to_string(),
        cgroup_path: cgroup_path.to_string(),
    }
}

#[test]
fn test_schema_appended_fields() {
    let schema = make_input_schema();
    let task = NRIEnrichRecordBatchTask::new(&schema);
    let out = task.schema();
    assert_eq!(out.len(), schema.len() + 5);
    let names: Vec<String> = out.iter().map(|f| f.name.clone()).collect();
    assert!(names.ends_with(&[
        "pod_name".to_string(),
        "pod_namespace".to_string(),
        "pod_uid".to_string(),
        "container_name".to_string(),
        "container_id".to_string(),
    ]));
    for name in ["pod_name", "pod_namespace", "pod_uid", "container_name", "container_id"] {
        let f = &out[out.len() - 5 + names.iter().rev().position(|n| n == name).unwrap()];
        assert!(f.nullable);
    }
}

#[test]
fn test_process_metadata_map_updates() {
    let mut task = NRIEnrichRecordBatchTask::new(&make_input_schema());
    let inode: u64 = 2;
    let meta = ContainerMetadata {
        container_id: "abc".to_string(),
        pod_name: "p".to_string(),
        pod_namespace: "ns".to_string(),
        pod_uid: "uid".to_string(),
        container_name: "c".to_string(),
        cgroup_path: "/".to_string(),
    };
    task.process_metadata_message(MetadataMessage::Add("abc".to_string(), meta), Some(inode));
    assert_eq!(task.inode_of("abc"), Some(inode));
    assert!(task.metadata_of(inode).is_some());

    task.process_metadata_message(MetadataMessage::Remove("abc".to_string()), None);
    assert!(task.inode_of("abc").is_none());
    assert!(task.metadata_of(inode).is_none());
}

#[test]
fn test_enrich_batch_known_unknown() {
    let mut task = NRIEnrichRecordBatchTask::new(&make_input_schema());
    task.process_metadata_message(
        MetadataMessage::Add("cont-1".to_string(), metadata("cont-1", "x")),
        Some(42),
    );

    // Batch with cgroup ids [42, 7]
    let batch = make_simple_batch(&[42, 7]);
    let enriched = task.enrich_batch(&batch).unwrap();
    assert_eq!(task.schema().len(), batch.columns.len() + 5);
    assert_eq!(enriched.pod_name.len(), 2);

    // Row 0 has metadata
    assert_eq!(enriched.pod_name[0].as_deref(), Some("pod-a"));
    assert_eq!(enriched.pod_namespace[0].as_deref(), Some("ns-a"));
    assert_eq!(enriched.pod_uid[0].as_deref(), Some("uid-a"));
    assert_eq!(enriched.container_name[0].as_deref(), Some("c-a"));
    assert_eq!(enriched.container_id[0].as_deref(), Some("cont-1"));

    // Row 1 should be nulls
    assert!(enriched.pod_name[1].is_none());
    assert!(enriched.pod_namespace[1].is_none());
    assert!(enriched.pod_uid[1].is_none());
    assert!(enriched.container_name[1].is_none());
    assert!(enriched.container_id[1].is_none());
}

#[test]
fn negative_control_groups_are_taken_as_unsigned() {
    let mut task = NRIEnrichRecordBatchTask::new(&make_input_schema());
    task.process_metadata_message(
        MetadataMessage::Add("c".to_string(), metadata("c", "x")),
        Some(u64::MAX),
    );
    let enriched = task.enrich_batch(&make_simple_batch(&[-1])).unwrap();
    assert_eq!(enriched.container_id[0].as_deref(), Some("c"));
}

#[test]
fn containers_without_control_group_are_ignored() {
    let mut task = NRIEnrichRecordBatchTask::new(&make_input_schema());
    let without = MetadataMessage::Add("c".to_string(), metadata("c", ""));
    assert!(NRIEnrichRecordBatchTask::path_to_resolve(&without).is_none());
    task.process_metadata_message(without, Some(1));
    assert!(task.inode_of("c").is_none());

    let unresolved = MetadataMessage::Add("c".to_string(), metadata("c", "/gone"));
    assert_eq!(NRIEnrichRecordBatchTask::path_to_resolve(&unresolved), Some("/gone"));
    task.process_metadata_message(unresolved, None);
    assert!(task.inode_of("c").is_none());
    assert!(NRIEnrichRecordBatchTask::path_to_resolve(&MetadataMessage::Remove("c".to_string()))
        .is_none());
}

#[test]
fn batches_without_control_groups_are_errors() {
    let task = NRIEnrichRecordBatchTask::new(&make_input_schema());
    let none = Batch { num_rows: 0, columns: vec![] };
    assert_eq!(
        task.enrich_batch(&none).unwrap_err().message(),
        "cgroup_id column not found in input batch schema"
    );
    let wrong = Batch {
        num_rows: 1,
        columns: vec![named("cgroup_id", Column::Utf8(vec!["7".to_string()]))],
    };
    assert_eq!(task.enrich_batch(&wrong).unwrap_err().message(), "cgroup_id column is not Int64");
}

#[test]
fn enrichment_task_steps() {
    let mut task = NRIEnrichRecordBatchTask::new(&make_input_schema());
    let add = MetadataMessage::Add("c".to_string(), metadata("c", "/cg"));
    assert!(matches!(task.step(TaskEvent::Metadata(add, Some(9))), TaskStep::Wait));
    match task.step(TaskEvent::Batch(make_simple_batch(&[9]))) {
        TaskStep::Send(e) => assert_eq!(e.pod_uid[0].as_deref(), Some("uid-a")),
        other => panic!("unexpected: {:?}", other),
    }
    assert!(matches!(task.step(TaskEvent::InputClosed), TaskStep::Stop(Ok(()))));
    let texts = [
        (TaskEvent::MetadataClosed, "nri metadata channel closed"),
        (TaskEvent::SendFailed("gone".to_string()), "downstream batch channel closed: gone"),
        (
            TaskEvent::BuildFailed("bad".to_string()),
            "Failed to create enriched RecordBatch: bad",
        ),
        (
            TaskEvent::Batch(Batch { num_rows: 0, columns: vec![] }),
            "cgroup_id column not found in input batch schema",
        ),
    ];
    for (event, text) in texts {
        match task.step(event) {
            TaskStep::Stop(Err(e)) => assert_eq!(e.message(), text),
            other => panic!("unexpected: {:?}", other),
        }
    }
    assert_eq!(EnrichError::MetadataClosed.message(), "nri metadata channel closed");
}

#[test]
fn health_routes() {
    assert_eq!(route(b"GET /live HTTP/1.1\r\nHost: x\r\n\r\n"), Route::Live);
    assert_eq!(route(b"GET /ready HTTP/1.1\r\n"), Route::Ready);
    assert_eq!(route(b"GET /other HTTP/1.1\r\n"), Route::Unknown);
    assert_eq!(route(b"GET"), Route::Unknown);
    assert_eq!(route(b""), Route::Unknown);
    assert_eq!(route(b"\xff\xfe /live \xff"), Route::Live);
    assert_eq!(route(b"GET /live\xff"), Route::Unknown);
    assert_eq!(route_text("\n GET /live"), Route::Unknown);
    assert_eq!(route_text("  GET\t/ready"), Route::Ready);
}

#[test]
fn health_answers() {
    let live = respond(Route::Live, false);
    assert_eq!(
        live.head,
        "HTTP/1.1 200 OK\r\nContent-Type: text/plain\r\nContent-Length: 4\r\nConnection: close\r\n\r\n"
    );
    assert_eq!(live.body, "live");
    let ready = respond(Route::Ready, true);
    assert!(ready.head.starts_with("HTTP/1.1 200 OK\r\n"));
    assert!(ready.head.contains("Content-Length: 5\r\n"));
    assert_eq!(ready.body, "ready");
    let not_ready = respond(Route::Ready, false);
    assert_eq!(
        not_ready.head,
        "HTTP/1.1 503 Service Unavailable\r\nContent-Type: text/plain\r\nContent-Length: 9\r\nConnection: close\r\n\r\n"
    );
    assert_eq!(not_ready.body, "not ready");
    let unknown = respond(Route::Unknown, true);
    assert!(unknown.head.starts_with("HTTP/1.1 404 Not Found\r\n"));
    assert_eq!(unknown.body, "not found");
}

#[test]
fn lost_events_are_reported_once_per_interval() {
    let mut reporter = ErrorReporter::new();
    assert!(reporter.on_tick().is_none());
    reporter.on_event(ErrorEvent::LostEvents);
    reporter.on_event(ErrorEvent::LostEvents);
    assert_eq!(reporter.on_tick().unwrap(), "Lost 2 events in the last second");
    assert!(reporter.on_tick().is_none());
    reporter.on_event(ErrorEvent::LostEvents);
    assert_eq!(reporter.on_closed().unwrap(), "Lost 1 events in the last second");
    assert!(ErrorReporter::new().on_closed().is_none());
}

#[test]
fn lost_events_of_a_ring() {
    assert!(matches!(handle_lost_events(3, true, true), LostEventStep::SendAsync(_)));
    assert!(matches!(handle_lost_events(3, true, false), LostEventStep::SendBlocking(_)));
    match handle_lost_events(3, false, true) {
        LostEventStep::Log(s) => {
            assert_eq!(s, "Lost events notification on ring 3 (no error sender)")
        }
        other => panic!("unexpected: {:?}", other),
    }
    assert_eq!(
        lost_events_unsent(12),
        "Lost events notification on ring 12 (error channel closed)"
    );
}

#[test]
fn timer_migration_is_reported() {
    assert_eq!(
        timer_migration_report(3, 11),
        r#"CRITICAL ERROR: Timer migration detected!
Expected CPU: 3, Actual CPU: 11
Timer pinning failed - measurements are no longer reliable.
This indicates either:
  1. Kernel version doesn't support BPF timer CPU pinning (requires 6.7+)
  2. Legacy fallback timer migration control failed
  This case should never happen, please report this as a bug with the distribution and kernel version.
Exiting to prevent incorrect performance measurements."#
    );
}

#[test]
fn sample_schema() {
    let fields: Vec<(String, DataType, bool)> =
        create_schema().into_iter().map(|f| (f.name, f.data_type, f.nullable)).collect();
    assert_eq!(
        fields,
        vec![
            ("timestamp".to_string(), DataType::Int64, false),
            ("pod_namespace".to_string(), DataType::Utf8, true),
            ("pod_name".to_string(), DataType::Utf8, true),
            ("pod_uid".to_string(), DataType::Utf8, true),
            ("resctrl_group".to_string(), DataType::Utf8, true),
            ("llc_occupancy_bytes".to_string(), DataType::Int64, false),
        ]
    );
}

#[test]
fn collector_config_by_default() {
    let cfg = ResctrlCollectorConfig::default();
    assert_eq!(cfg.sample_interval, Interval { secs: 1, nanos: 0 });
    assert_eq!(cfg.retry_interval, Interval { secs: 10, nanos: 0 });
    assert_eq!(cfg.health_interval, Interval { secs: 60, nanos: 0 });
    assert_eq!(cfg.channel_capacity, 256);
    assert_eq!(cfg.mountpoint, "/sys/fs/resctrl");
}

#[test]
fn collector_config_from_settings() {
    let cfg = ResctrlCollectorConfig::from_env(
        Some("500ms"),
        Some("1m 30s"),
        Some("2h"),
        Some("16"),
        Some("/mnt/resctrl"),
    );
    assert_eq!(cfg.sample_interval, Interval { secs: 0, nanos: 500_000_000 });
    assert_eq!(cfg.retry_interval, Interval { secs: 90, nanos: 0 });
    assert_eq!(cfg.health_interval, Interval { secs: 7200, nanos: 0 });
    assert_eq!(cfg.channel_capacity, 16);
    assert_eq!(cfg.mountpoint, "/mnt/resctrl");
}

#[test]
fn collector_config_ignores_what_is_not_valid() {
    let cfg =
        ResctrlCollectorConfig::from_env(Some("soon"), Some(""), Some("10"), Some("0"), Some(""));
    assert_eq!(cfg.sample_interval, Interval { secs: 1, nanos: 0 });
    assert_eq!(cfg.retry_interval, Interval { secs: 10, nanos: 0 });
    assert_eq!(cfg.health_interval, Interval { secs: 60, nanos: 0 });
    assert_eq!(cfg.channel_capacity, 256);
    assert_eq!(cfg.mountpoint, "/sys/fs/resctrl");
    let cfg = ResctrlCollectorConfig::from_env(None, None, None, Some("many"), None);
    assert_eq!(cfg.channel_capacity, 256);
}

#[test]
fn spans_of_time_in_range() {
    assert!(is_surely_in_range("500ms"));
    assert!(is_surely_in_range("99999999999y"));
    assert!(!is_surely_in_range("584542046090y 1ms"));
    assert!(is_surely_in_range("100000000000ns"));
    // One number alone never adds up to too much
    assert!(is_surely_in_range("1000000000000ms"));
    assert!(is_surely_in_range("18446744073709551615.5s"));
    assert!(is_surely_in_range("99999999999999999999999y"));
    assert!(is_surely_in_range("1m 123456789012345.5s"));
    assert!(is_surely_in_range("100y 11months 30days 23h 59m 59s 999ms"));
    assert!(is_surely_in_range("584542046089y 1ns"));
    assert!(!is_surely_in_range("1h 123456789012345.5s"));
    let cfg = ResctrlCollectorConfig::from_env(
        Some("18446744073709551615.5s"),
        Some("99999999999999999999999y"),
        Some("1000000000000ms"),
        None,
        None,
    );
    assert_eq!(cfg.sample_interval, Interval { secs: u64::MAX, nanos: 500_000_000 });
    assert_eq!(cfg.retry_interval, Interval { secs: 10, nanos: 0 });
    assert_eq!(cfg.health_interval, Interval { secs: 1_000_000_000, nanos: 0 });
    assert!(!is_surely_in_range("18446744073709551615s 1000ms"));
}

#[test]
fn timestamps_of_samples() {
    assert_eq!(now_ns(None), 0);
    assert_eq!(now_ns(Some((1_700_000_000, 5))), 1_700_000_000_000_000_005);
    // Beyond the range the low bits remain
    assert_eq!(now_ns(Some((9_223_372_036, 854_775_808))), i64::MIN);
}

#[derive(Clone, Default)]
struct OccupancyFs {
    files: HashMap<String, String>,
    children: HashMap<String, Vec<String>>,
}

fn unsupported<T>() -> Result<T, IoError> {
    Err(IoError::from_raw_os_error(libc::ENOSYS))
}

impl FsProvider for OccupancyFs {
    fn path_exists(&mut self, _p: &str) -> bool {
        false
    }

    fn create_dir(&mut self, _p: &str) -> Result<(), IoError> {
        unsupported()
    }

    fn remove_dir(&mut self, _p: &str) -> Result<(), IoError> {
        unsupported()
    }

    fn write_str(&mut self, _p: &str, _data: &str) -> Result<(), IoError> {
        unsupported()
    }

    fn read_to_string(&mut self, p: &str) -> Result<String, IoError> {
        match self.files.get(p) {
            Some(s) => Ok(s.clone()),
            None => Err(IoError::from_raw_os_error(libc::ENOENT)),
        }
    }

    fn check_can_open_for_write(&mut self, _p: &str) -> Result<(), IoError> {
        unsupported()
    }

    fn read_child_dirs(&mut self, p: &str) -> Result<Vec<String>, IoError> {
        match self.children.get(p) {
            Some(v) => Ok(v.clone()),
            None => Err(IoError::from_raw_os_error(libc::ENOENT)),
        }
    }

    fn mount_resctrl(&mut self, _target: &str) -> Result<(), IoError> {
        unsupported()
    }
}

fn added(uid: &str, group_state: ResctrlGroupState, total: usize, done: usize) -> PodResctrlEvent {
    PodResctrlEvent::AddOrUpdate(PodResctrlAddOrUpdate {
        pod_uid: uid.to_string(),
        group_state,
        total_containers: total,
        reconciled_containers: done,
    })
}

fn group_at(path: &str) -> ResctrlGroupState {
    ResctrlGroupState::Exists(path.to_string())
}

#[test]
fn collector_is_ready_once_both_sources_spoke() {
    let mut collector = ResctrlCollector::new();
    let mut tables = Tables::new();
    assert!(!collector.ready());
    tables.on_resctrl_event(&mut collector, None);
    tables.on_metadata(&mut collector, None);
    assert!(!collector.ready());
    tables.on_resctrl_event(&mut collector, Some(added("u", group_at("/g"), 1, 1)));
    assert!(!collector.ready());
    tables.on_metadata(&mut collector, Some(MetadataMessage::Remove("c".to_string())));
    assert!(collector.ready());
}

#[test]
fn groups_are_sampled_with_labels() {
    let mut collector = ResctrlCollector::new();
    let mut tables = Tables::new();
    tables.on_resctrl_event(&mut collector, Some(added("uid-a", group_at("/r/a"), 2, 2)));
    tables.on_resctrl_event(&mut collector, Some(added("uid-b", group_at("/r/b"), 1, 0)));
    tables.on_resctrl_event(&mut collector, Some(added("uid-c", ResctrlGroupState::Failed, 1, 0)));
    tables.on_resctrl_event(&mut collector, Some(added("uid-d", group_at("/r/d"), 1, 1)));
    let add = MetadataMessage::Add("cont".to_string(), metadata("cont", "/cg"));
    tables.on_metadata(&mut collector, Some(add));
    assert_eq!(tables.health(), (1, 2));
    assert_eq!(
        tables.health_line(),
        "resctrl health: pods_failed=1, pods_unreconciled=2"
    );

    let mut fs = OccupancyFs::default();
    fs.children.insert(
        "/r/a/mon_data".to_string(),
        vec!["mon_L3_00".to_string(), "other".to_string(), "mon_L3_01".to_string()],
    );
    fs.files.insert("/r/a/mon_data/mon_L3_00/llc_occupancy".to_string(), "100\n".to_string());
    fs.files.insert("/r/a/mon_data/mon_L3_01/llc_occupancy".to_string(), "23\n".to_string());
    fs.children.insert("/r/b/mon_data".to_string(), vec!["mon_L3_00".to_string()]);
    fs.files.insert(
        "/r/b/mon_data/mon_L3_00/llc_occupancy".to_string(),
        "18446744073709551615\n".to_string(),
    );
    fs.children.insert("/r/d/mon_data".to_string(), vec!["mon_L3_00".to_string()]);
    fs.files.insert("/r/d/mon_data/mon_L3_00/llc_occupancy".to_string(), "Error\n".to_string());

    let mut rc = Resctrl::with_provider(fs, Config::default());
    let samples = tables.sample(&mut rc);
    let columns = occupancy_columns(7, samples).unwrap();
    let mut rows: Vec<(String, String, i64)> = Vec::new();
    for i in 0..columns.timestamp.len() {
        assert_eq!(columns.timestamp[i], 7);
        let known = columns.pod_uid[i] == "uid-a";
        assert_eq!(columns.pod_namespace[i].as_deref(), if known { Some("ns-a") } else { None });
        assert_eq!(columns.pod_name[i].as_deref(), if known { Some("pod-a") } else { None });
        rows.push((
            columns.pod_uid[i].clone(),
            columns.resctrl_group[i].clone(),
            columns.llc_occupancy_bytes[i],
        ));
    }
    rows.sort();
    assert_eq!(
        rows,
        vec![
            ("uid-a".to_string(), "/r/a".to_string(), 123),
            ("uid-b".to_string(), "/r/b".to_string(), -1),
        ]
    );

    // A removed pod is sampled no more, and its labels are gone
    let gone = PodResctrlEvent::Removed(PodResctrlRemoved { pod_uid: "uid-a".to_string() });
    tables.on_resctrl_event(&mut collector, Some(gone));
    assert!(tables.labels_of("uid-a").is_none());
    assert_eq!(tables.groups_to_sample().len(), 2);
    assert!(occupancy_columns(7, vec![]).is_none());
}

#[test]
fn pods_that_fail_later_are_not_sampled() {
    let mut collector = ResctrlCollector::new();
    let mut tables = Tables::new();
    tables.on_resctrl_event(&mut collector, Some(added("u", group_at("/g"), 1, 1)));
    assert_eq!(tables.groups_to_sample(), vec![("u".to_string(), "/g".to_string())]);
    tables.on_resctrl_event(&mut collector, Some(added("u", ResctrlGroupState::Failed, 1, 1)));
    assert!(tables.groups_to_sample().is_empty());
}

#[test]
fn containers_without_a_pod_give_no_labels() {
    let mut collector = ResctrlCollector::new();
    let mut tables = Tables::new();
    let mut meta = metadata("c", "/cg");
    meta.pod_uid = String::new();
    tables.on_metadata(&mut collector, Some(MetadataMessage::Add("c".to_string(), meta)));
    assert!(collector.metadata_synced);
    assert!(tables.labels_of("").is_none());
}

#[test]
fn dropped_batches_are_reported() {
    let mut drops = Drops::new();
    drops.on_batch(BatchFate::Sent);
    drops.on_batch(BatchFate::Empty);
    drops.on_batch(BatchFate::NotBuilt);
    assert!(drops.on_second().is_none());
    // All that were dropped in a second are reported once
    drops.on_batch(BatchFate::Dropped);
    drops.on_batch(BatchFate::Sent);
    drops.on_batch(BatchFate::Dropped);
    drops.on_batch(BatchFate::NotBuilt);
    assert_eq!(
        drops.on_second().unwrap(),
        "Dropped 2 occupancy batches in the last second"
    );
    assert!(drops.on_second().is_none());
    drops.on_batch(BatchFate::Dropped);
    assert_eq!(
        drops.on_second().unwrap(),
        "Dropped 1 occupancy batches in the last second"
    );
}

#[test]
fn groups_that_cannot_be_read_are_reported() {
    let mut failed = FailedReads::new();
    failed.on_sampled(3, 3);
    assert!(failed.on_second().is_none());
    failed.on_sampled(3, 1);
    failed.on_sampled(3, 2);
    assert_eq!(
        failed.on_second().unwrap(),
        "Failed to read 3 resctrl groups in the last second"
    );
    assert!(failed.on_second().is_none());
    failed.failed_groups = u64::MAX;
    failed.on_sampled(1, 0);
    assert_eq!(failed.failed_groups, u64::MAX);
}
