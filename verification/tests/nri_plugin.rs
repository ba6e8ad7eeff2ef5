use std::collections::{HashMap, HashSet};
use std::sync::{Arc, Mutex};

use collector::nri_plugin::pid_source::check_cgroup_path;
use collector::nri_plugin::types::{
    subscribed_events, Container, ContainerSyncState, LifecycleEvent, PodSandbox,
};
use collector::nri_plugin::{
    CgroupPidSource, PluginError, PodResctrlAddOrUpdate, PodResctrlEvent, ResctrlGroupState,
    ResctrlPlugin, ResctrlPluginConfig,
};
use collector::path::{file_stem, join, parent};
use collector::resctrl::error::{ErrorKind, IoError};
use collector::resctrl::{Config, Error, FsProvider, Resctrl};

#[derive(Default)]
struct TestFsState {
    files: HashMap<String, String>,
    dirs: HashSet<String>,
    nospace_dirs: HashSet<String>,
    mkdir_calls: HashMap<String, usize>,
    missing_pids: HashSet<i32>,
}

#[derive(Clone)]
struct TestFs {
    state: Arc<Mutex<TestFsState>>,
}

impl TestFs {
    fn mounted() -> TestFs {
        let fs = TestFs { state: Arc::new(Mutex::new(TestFsState::default())) };
        fs.add_file("/proc/mounts", "resctrl /sys/fs/resctrl resctrl rw 0 0\n");
        fs.add_dir("/sys");
        fs.add_dir("/sys/fs");
        fs.add_dir("/sys/fs/resctrl");
        fs
    }

    fn add_file(&self, p: &str, content: &str) {
        self.state.lock().unwrap().files.insert(p.to_string(), content.to_string());
    }

    fn add_dir(&self, p: &str) {
        self.state.lock().unwrap().dirs.insert(p.to_string());
    }

    fn set_nospace_dir(&self, p: &str) {
        self.state.lock().unwrap().nospace_dirs.insert(p.to_string());
    }

    fn clear_nospace_dir(&self, p: &str) {
        self.state.lock().unwrap().nospace_dirs.remove(p);
    }

    fn mkdir_count(&self, p: &str) -> usize {
        *self.state.lock().unwrap().mkdir_calls.get(p).unwrap_or(&0)
    }

    fn set_missing_pid(&self, pid: i32) {
        self.state.lock().unwrap().missing_pids.insert(pid);
    }

    fn clear_missing_pid(&self, pid: i32) {
        self.state.lock().unwrap().missing_pids.remove(&pid);
    }

    fn there(&self, p: &str) -> bool {
        let st = self.state.lock().unwrap();
        st.dirs.contains(p) || st.files.contains_key(p)
    }

    fn content(&self, p: &str) -> String {
        self.state.lock().unwrap().files.get(p).cloned().unwrap_or_default()
    }
}

fn os_error<T>(code: i32) -> Result<T, IoError> {
    Err(IoError::from_raw_os_error(code))
}

impl FsProvider for TestFs {
    fn path_exists(&mut self, p: &str) -> bool {
        self.there(p)
    }

    fn create_dir(&mut self, p: &str) -> Result<(), IoError> {
        let mut st = self.state.lock().unwrap();
        *st.mkdir_calls.entry(p.to_string()).or_default() += 1;
        if st.nospace_dirs.contains(p) {
            return os_error(libc::ENOSPC);
        }
        if st.dirs.contains(p) {
            return os_error(libc::EEXIST);
        }
        st.dirs.insert(p.to_string());
        if file_stem(p).unwrap_or_default().starts_with("pod_") {
            st.files.entry(join(p, "tasks")).or_default();
        }
        Ok(())
    }

    fn remove_dir(&mut self, p: &str) -> Result<(), IoError> {
        let mut st = self.state.lock().unwrap();
        if !st.dirs.remove(p) {
            return os_error(libc::ENOENT);
        }
        Ok(())
    }

    fn write_str(&mut self, p: &str, data: &str) -> Result<(), IoError> {
        let mut st = self.state.lock().unwrap();
        if p.ends_with("/tasks") {
            for line in data.lines() {
                if let Ok(pid) = line.trim().parse::<i32>() {
                    if st.missing_pids.contains(&pid) {
                        return os_error(libc::ESRCH);
                    }
                }
            }
        }
        let e = st.files.entry(p.to_string()).or_default();
        if !e.ends_with('\n') && !e.is_empty() {
            e.push('\n');
        }
        e.push_str(data);
        e.push('\n');
        Ok(())
    }

    fn read_to_string(&mut self, p: &str) -> Result<String, IoError> {
        match self.state.lock().unwrap().files.get(p) {
            Some(s) => Ok(s.clone()),
            None => os_error(libc::ENOENT),
        }
    }

    fn check_can_open_for_write(&mut self, p: &str) -> Result<(), IoError> {
        if self.state.lock().unwrap().files.contains_key(p) {
            Ok(())
        } else {
            os_error(libc::ENOENT)
        }
    }

    fn read_child_dirs(&mut self, p: &str) -> Result<Vec<String>, IoError> {
        let st = self.state.lock().unwrap();
        if !st.dirs.contains(p) {
            return os_error(libc::ENOENT);
        }
        let mut out = Vec::new();
        for d in st.dirs.iter() {
            if parent(d) == Some(p.to_string()) {
                out.push(file_stem(d).unwrap());
            }
        }
        Ok(out)
    }

    fn mount_resctrl(&mut self, _target: &str) -> Result<(), IoError> {
        os_error(libc::ENOSYS)
    }
}

#[derive(Default)]
struct MockCgroupPidSource {
    pids: HashMap<String, Vec<i32>>,
}

impl MockCgroupPidSource {
    fn with_pids(path: &str, pids: Vec<i32>) -> MockCgroupPidSource {
        let mut source = MockCgroupPidSource::default();
        source.pids.insert(path.to_string(), pids);
        source
    }
}

impl CgroupPidSource for MockCgroupPidSource {
    fn pids_for_path(&mut self, cgroup_path: &str) -> Result<Vec<i32>, Error> {
        Ok(self.pids.get(cgroup_path).cloned().unwrap_or_default())
    }
}

fn plugin_on(fs: &TestFs, source: MockCgroupPidSource) -> ResctrlPlugin<TestFs, MockCgroupPidSource> {
    let rc = Resctrl::with_provider(fs.clone(), Config::default());
    ResctrlPlugin::with_pid_source(ResctrlPluginConfig::default(), rc, source)
}

fn pod(id: &str, uid: &str) -> PodSandbox {
    PodSandbox { id: id.to_string(), uid: uid.to_string() }
}

fn container(id: &str, pod: &PodSandbox, cgroup_path: &str) -> Container {
    Container {
        id: id.to_string(),
        pod_sandbox_id: pod.id.clone(),
        cgroup_path: cgroup_path.to_string(),
        cgroup_path_without_pod: cgroup_path.to_string(),
    }
}

fn update(event: &PodResctrlEvent) -> &PodResctrlAddOrUpdate {
    match event {
        PodResctrlEvent::AddOrUpdate(a) => a,
        other => panic!("unexpected event: {:?}", other),
    }
}

#[test]
fn test_cleanup_on_start_removes_only_prefix() {
    let fs = TestFs::mounted();
    fs.add_dir("/sys/fs/resctrl/mon_groups");
    fs.add_dir("/sys/fs/resctrl/pod_x1");
    fs.add_dir("/sys/fs/resctrl/other");
    fs.add_dir("/sys/fs/resctrl/mon_groups/pod_mx");
    fs.add_dir("/sys/fs/resctrl/mon_groups/foo");

    let mut plugin = plugin_on(&fs, MockCgroupPidSource::default());
    plugin.synchronize(&vec![], &vec![]);

    // No events emitted for cleanup-only
    assert!(plugin.take_events().is_empty());

    // Prefix dirs removed, others remain
    assert!(!fs.there("/sys/fs/resctrl/pod_x1"));
    assert!(fs.there("/sys/fs/resctrl/other"));
    assert!(!fs.there("/sys/fs/resctrl/mon_groups/pod_mx"));
    assert!(fs.there("/sys/fs/resctrl/mon_groups/foo"));
}

#[test]
fn test_default_config() {
    let cfg = ResctrlPluginConfig::default();
    assert_eq!(cfg.group_prefix, "pod_");
    assert!(cfg.cleanup_on_start);
    assert_eq!(cfg.max_reconcile_passes, 10);
    assert_eq!(cfg.concurrency_limit, 1);
    assert!(!cfg.auto_mount);
}

#[test]
fn test_configure_event_mask() {
    let events = subscribed_events();
    assert!(events.contains(&LifecycleEvent::CreateContainer));
    assert!(events.contains(&LifecycleEvent::RunPodSandbox));
    assert!(events.contains(&LifecycleEvent::RemovePodSandbox));
    assert!(events.contains(&LifecycleEvent::RemoveContainer));
    assert_eq!(events.len(), 4);
}

#[test]
fn test_reconcile_emits_counts() {
    let fs = TestFs::mounted();
    let p = pod("pod-sb-1", "u123");
    let c = container("ctr1", &p, "/cg/podX/containerA");
    let source = MockCgroupPidSource::with_pids("/cg/podX/containerA", vec![1, 2]);
    let mut plugin = plugin_on(&fs, source);

    plugin.synchronize(&vec![p.clone()], &vec![c.clone()]);
    let events = plugin.take_events();
    assert_eq!(events.len(), 2);
    for event in &events {
        let a = update(event);
        assert_eq!(a.pod_uid, "u123");
        assert!(matches!(a.group_state, ResctrlGroupState::Exists(_)));
    }
    let a = update(&events[1]);
    assert_eq!(a.total_containers, 1);
    assert_eq!(a.reconciled_containers, 1);

    // Test container removal
    plugin.state_change(LifecycleEvent::RemoveContainer, Some(&p), Some(&c));
    let events = plugin.take_events();
    let a = update(&events[0]);
    assert_eq!(a.total_containers, 0);
    assert_eq!(a.reconciled_containers, 0);
}

#[test]
fn running_pod_gets_a_group_until_it_is_removed() {
    let fs = TestFs::mounted();
    let mut plugin = plugin_on(&fs, MockCgroupPidSource::default());
    let p = pod("pod-sb-run-test", "u789");

    plugin.state_change(LifecycleEvent::RunPodSandbox, Some(&p), None);
    let events = plugin.take_events();
    let a = update(&events[0]);
    assert_eq!(a.pod_uid, "u789");
    assert_eq!(
        a.group_state,
        ResctrlGroupState::Exists("/sys/fs/resctrl/mon_groups/pod_u789".to_string())
    );
    assert!(fs.there("/sys/fs/resctrl/mon_groups/pod_u789"));

    plugin.state_change(LifecycleEvent::RemovePodSandbox, Some(&p), None);
    let events = plugin.take_events();
    match &events[0] {
        PodResctrlEvent::Removed(r) => assert_eq!(r.pod_uid, "u789"),
        other => panic!("expected a removal, got: {:?}", other),
    }
    assert!(!fs.there("/sys/fs/resctrl/mon_groups/pod_u789"));
}

#[test]
fn full_capacity_fails_a_pod_until_a_retry() {
    let fs = TestFs::mounted();
    let mut plugin = plugin_on(&fs, MockCgroupPidSource::default());
    let group_path = "/sys/fs/resctrl/mon_groups/pod_u1";
    fs.set_nospace_dir(group_path);
    let p = pod("sb1", "u1");
    let c = container("c1", &p, "/cg/runtime:cri-containerd:c1");

    // Running the pod reports that it failed (0/0)
    plugin.state_change(LifecycleEvent::RunPodSandbox, Some(&p), None);
    let events = plugin.take_events();
    let a = update(&events[0]);
    assert_eq!(a.pod_uid, "u1");
    assert!(matches!(a.group_state, ResctrlGroupState::Failed));
    assert_eq!(a.total_containers, 0);
    assert_eq!(a.reconciled_containers, 0);

    // A container of the failed pod is counted, not reconciled (1/0)
    plugin.create_container(Some(&p), Some(&c));
    let events = plugin.take_events();
    let a = update(&events[0]);
    assert_eq!(a.total_containers, 1);
    assert_eq!(a.reconciled_containers, 0);
    assert!(matches!(a.group_state, ResctrlGroupState::Failed));

    // First retry: still full
    match plugin.retry_group_creation("u1") {
        Err(PluginError::Resctrl(Error::Capacity { .. })) => {}
        other => panic!("expected capacity error, got: {:?}", other),
    }
    assert!(plugin.take_events().is_empty());

    // Second retry: there is room, and counts stay 1/0
    fs.clear_nospace_dir(group_path);
    match plugin.retry_group_creation("u1") {
        Ok(ResctrlGroupState::Exists(path)) => assert_eq!(path, group_path),
        other => panic!("expected Exists, got: {:?}", other),
    }
    let events = plugin.take_events();
    let a = update(&events[0]);
    assert!(matches!(a.group_state, ResctrlGroupState::Exists(_)));
    assert_eq!(a.total_containers, 1);
    assert_eq!(a.reconciled_containers, 0);

    // A group that exists is not created again, and nothing is reported
    assert!(matches!(plugin.retry_group_creation("u1"), Ok(ResctrlGroupState::Exists(_))));
    assert!(plugin.take_events().is_empty());
    assert_eq!(fs.mkdir_count(group_path), 3);
}

#[test]
fn retried_container_is_reconciled_once() {
    let fs = TestFs::mounted();
    let group = "/sys/fs/resctrl/mon_groups/pod_u1";
    fs.add_dir(group);
    fs.add_file("/sys/fs/resctrl/mon_groups/pod_u1/tasks", "");
    let p = pod("sb1", "u1");
    let c = container("c1", &p, "/cg/x:cri-containerd:c1");
    let source = MockCgroupPidSource::with_pids("/cg/x:cri-containerd:c1", vec![101, 102]);
    let mut plugin = plugin_on(&fs, source);
    fs.set_missing_pid(101);
    fs.set_missing_pid(102);

    plugin.state_change(LifecycleEvent::RunPodSandbox, Some(&p), None);
    plugin.create_container(Some(&p), Some(&c));
    let events = plugin.take_events();
    assert_eq!(events.len(), 2);
    assert_eq!(update(&events[1]).total_containers, 1);
    assert_eq!(update(&events[1]).reconciled_containers, 0);

    fs.clear_missing_pid(101);
    fs.clear_missing_pid(102);
    let state = plugin.retry_container_reconcile("c1").expect("retry ok");
    assert_eq!(state, ContainerSyncState::Reconciled);
    let events = plugin.take_events();
    assert_eq!(events.len(), 1);
    assert_eq!(update(&events[0]).total_containers, 1);
    assert_eq!(update(&events[0]).reconciled_containers, 1);

    let mut rc = Resctrl::with_provider(fs.clone(), Config::default());
    let pids = rc.list_group_tasks(group).expect("list tasks");
    assert!(pids.contains(&101) && pids.contains(&102));
    assert_eq!(fs.content("/sys/fs/resctrl/mon_groups/pod_u1/tasks"), "101\n102\n");

    // A second retry changes and reports nothing
    let state = plugin.retry_container_reconcile("c1").expect("retry ok");
    assert_eq!(state, ContainerSyncState::Reconciled);
    assert!(plugin.take_events().is_empty());
}

#[test]
fn retrying_all_stops_at_full_capacity_and_reconciles_the_rest() {
    let fs = TestFs::mounted();
    let pod_a = pod("sbA", "uA");
    let pod_b = pod("sbB", "uB");
    let ctr_b = container("b1", &pod_b, "/cg/b:cri-containerd:b1");
    let source = MockCgroupPidSource::with_pids("/cg/b:cri-containerd:b1", vec![222, 223]);
    let mut plugin = plugin_on(&fs, source);

    let group_a = "/sys/fs/resctrl/mon_groups/pod_uA";
    fs.set_nospace_dir(group_a);
    fs.add_dir("/sys/fs/resctrl/mon_groups/pod_uB");
    fs.add_file("/sys/fs/resctrl/mon_groups/pod_uB/tasks", "");
    fs.set_missing_pid(222);
    fs.set_missing_pid(223);

    plugin.state_change(LifecycleEvent::RunPodSandbox, Some(&pod_a), None);
    plugin.state_change(LifecycleEvent::RunPodSandbox, Some(&pod_b), None);
    plugin.create_container(Some(&pod_b), Some(&ctr_b));
    let events = plugin.take_events();
    assert_eq!(events.len(), 3);
    let a = update(&events[2]);
    assert_eq!(a.pod_uid, "uB");
    assert_eq!(a.total_containers, 1);
    assert_eq!(a.reconciled_containers, 0);

    fs.clear_missing_pid(222);
    fs.clear_missing_pid(223);
    let before = fs.mkdir_count(group_a);
    plugin.retry_all_once().expect("retry all ok");
    assert_eq!(fs.mkdir_count(group_a) - before, 1);
    let events = plugin.take_events();
    assert_eq!(events.len(), 1);
    assert_eq!(update(&events[0]).pod_uid, "uB");
    assert_eq!(update(&events[0]).reconciled_containers, 1);
}

#[test]
fn container_before_its_pod_is_reconciled_later() {
    let fs = TestFs::mounted();
    let p = pod("sb1", "u1");
    let c = container("c1", &p, "/cg/c1");
    let mut plugin = plugin_on(&fs, MockCgroupPidSource::with_pids("/cg/c1", vec![7]));

    // Nothing is reported of a pod that was not seen
    plugin.create_container(Some(&p), Some(&c));
    assert!(plugin.take_events().is_empty());

    // Without its pod the container counts nowhere
    plugin.state_change(LifecycleEvent::RunPodSandbox, Some(&p), None);
    let events = plugin.take_events();
    assert_eq!(update(&events[0]).total_containers, 0);
}

#[test]
fn unknown_pods_and_containers_are_errors() {
    let fs = TestFs::mounted();
    let mut plugin = plugin_on(&fs, MockCgroupPidSource::default());
    match plugin.retry_group_creation("nobody") {
        Err(e) => assert_eq!(e.message(""), "pod not found"),
        Ok(_) => panic!("no such pod"),
    }
    match plugin.retry_container_reconcile("nobody") {
        Err(e) => assert_eq!(e.message(""), "container not found"),
        Ok(_) => panic!("no such container"),
    }
}

#[test]
fn dropped_events_are_counted() {
    let fs = TestFs::mounted();
    let mut plugin = plugin_on(&fs, MockCgroupPidSource::default());
    assert_eq!(plugin.dropped_events(), 0);
    plugin.event_dropped();
    plugin.event_dropped();
    assert_eq!(plugin.dropped_events(), 2);
}

#[test]
fn control_group_paths_are_checked() {
    match check_cgroup_path("", true) {
        Err(Error::Io { path, source }) => {
            assert_eq!(path, "<cgroup path>");
            assert_eq!(source.kind(), ErrorKind::InvalidInput);
            assert_eq!(source.message(), "empty cgroup path");
        }
        other => panic!("unexpected: {:?}", other),
    }
    match check_cgroup_path("/cg/x", false) {
        Err(Error::Io { path, source }) => {
            assert_eq!(path, "/cg/x");
            assert_eq!(source.raw_os_error(), Some(libc::ENOENT));
        }
        other => panic!("unexpected: {:?}", other),
    }
    assert!(check_cgroup_path("/cg/x", true).is_ok());
}

#[test]
fn counts_never_exceed_the_containers() {
    let fs = TestFs::mounted();
    let p = pod("sb", "u");
    let mut source = MockCgroupPidSource::default();
    source.pids.insert("/cg/1".to_string(), vec![1]);
    source.pids.insert("/cg/2".to_string(), vec![2]);
    let mut plugin = plugin_on(&fs, source);
    fs.set_missing_pid(2);
    plugin.state_change(LifecycleEvent::RunPodSandbox, Some(&p), None);
    plugin.create_container(Some(&p), Some(&container("a", &p, "/cg/1")));
    plugin.create_container(Some(&p), Some(&container("b", &p, "/cg/2")));
    plugin.create_container(Some(&p), Some(&container("b", &p, "/cg/2")));
    plugin.state_change(LifecycleEvent::RemoveContainer, Some(&p), Some(&container("a", &p, "/cg/1")));
    let events = plugin.take_events();
    for event in &events {
        assert!(update(event).reconciled_containers <= update(event).total_containers);
    }
    let last = update(events.last().unwrap());
    assert_eq!(last.reconciled_containers, 0);
}

#[test]
fn room_and_missing_tasks_are_counted() {
    let fs = TestFs::mounted();
    fs.add_dir("/sys/fs/resctrl/mon_groups");
    let mut plugin = plugin_on(&fs, MockCgroupPidSource::with_pids("/cg/c", vec![9]));
    assert!(plugin.has_room_for(usize::MAX));
    assert_eq!(plugin.partial_count(), 0);
    fs.set_missing_pid(9);
    let p = pod("sb", "u");
    plugin.handle_new_pod(&p);
    fs.add_file("/sys/fs/resctrl/mon_groups/pod_u/tasks", "");
    plugin.handle_new_container(&p, &container("c", &p, "/cg/c"));
    assert_eq!(plugin.partial_count(), 1);
    assert!(plugin.has_room_for(usize::MAX - 1));
    assert!(!plugin.has_room_for(usize::MAX));
}
