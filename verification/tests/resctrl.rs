use std::cell::RefCell;
use std::collections::{HashMap, HashSet};
use std::sync::{Arc, Mutex};

use collector::path::{file_stem, join, parent};
use collector::resctrl::error::{ErrorKind, IoError};
use collector::resctrl::group::{sanitize_uid, MAX_UID_LEN};
use collector::resctrl::{Config, Error, FsProvider, PidSource, Resctrl};

#[derive(Clone, Default)]
struct MockFsState {
    files: HashMap<String, String>,
    dirs: HashSet<String>,
    no_perm_files: HashSet<String>,
    no_perm_dirs: HashSet<String>,
    nospace_dirs: HashSet<String>,
    missing_pids: HashSet<i32>,
    mount_err: Option<i32>,
    child_dir_overrides: HashMap<String, Vec<String>>,
    no_perm_remove_dirs: HashSet<String>,
}

#[derive(Clone, Default)]
struct MockFs {
    state: Arc<Mutex<MockFsState>>,
}

impl MockFs {
    fn add_file(&self, p: &str, content: &str) {
        let mut st = self.state.lock().unwrap();
        st.files.insert(p.to_string(), content.to_string());
    }

    fn add_dir(&self, p: &str) {
        self.state.lock().unwrap().dirs.insert(p.to_string());
    }

    fn set_missing_pid(&self, pid: i32) {
        self.state.lock().unwrap().missing_pids.insert(pid);
    }

    fn set_no_perm_file(&self, p: &str) {
        self.state.lock().unwrap().no_perm_files.insert(p.to_string());
    }

    fn set_no_perm_dir(&self, p: &str) {
        self.state.lock().unwrap().no_perm_dirs.insert(p.to_string());
    }

    fn set_no_perm_remove_dir(&self, p: &str) {
        self.state.lock().unwrap().no_perm_remove_dirs.insert(p.to_string());
    }

    fn set_nospace_dir(&self, p: &str) {
        self.state.lock().unwrap().nospace_dirs.insert(p.to_string());
    }

    fn set_mount_err(&self, err: i32) {
        self.state.lock().unwrap().mount_err = Some(err);
    }

    fn dir_exists(&self, p: &str) -> bool {
        self.state.lock().unwrap().dirs.contains(p)
    }

    fn exists_at(&self, p: &str) -> bool {
        let st = self.state.lock().unwrap();
        st.dirs.contains(p) || st.files.contains_key(p)
    }

    fn set_child_dirs_override(&self, parent: &str, names: Vec<String>) {
        let mut st = self.state.lock().unwrap();
        st.child_dir_overrides.insert(parent.to_string(), names);
    }
}

fn os_error<T>(code: i32) -> Result<T, IoError> {
    Err(IoError::from_raw_os_error(code))
}

impl FsProvider for MockFs {
    fn path_exists(&mut self, p: &str) -> bool {
        self.exists_at(p)
    }

    fn create_dir(&mut self, p: &str) -> Result<(), IoError> {
        let mut st = self.state.lock().unwrap();
        if st.no_perm_dirs.contains(p) {
            return os_error(libc::EACCES);
        }
        if st.nospace_dirs.contains(p) {
            return os_error(libc::ENOSPC);
        }
        if st.dirs.contains(p) {
            return os_error(libc::EEXIST);
        }
        st.dirs.insert(p.to_string());
        Ok(())
    }

    fn remove_dir(&mut self, p: &str) -> Result<(), IoError> {
        let mut st = self.state.lock().unwrap();
        if st.no_perm_remove_dirs.contains(p) {
            return os_error(libc::EACCES);
        }
        if !st.dirs.remove(p) {
            return os_error(libc::ENOENT);
        }
        let prefix = format!("{}/", p);
        st.files.retain(|k, _| !k.starts_with(&prefix));
        Ok(())
    }

    fn write_str(&mut self, p: &str, data: &str) -> Result<(), IoError> {
        let mut st = self.state.lock().unwrap();
        if st.no_perm_files.contains(p) {
            return os_error(libc::EACCES);
        }
        if !st.files.contains_key(p) {
            return os_error(libc::ENOENT);
        }
        if p.ends_with("/tasks") {
            for line in data.lines() {
                if let Ok(pid) = line.trim().parse::<i32>() {
                    if st.missing_pids.contains(&pid) {
                        return os_error(libc::ESRCH);
                    }
                }
            }
        }
        let e = st.files.entry(p.to_string()).or_default();
        if !e.ends_with('\n') && !e.is_empty() {
            e.push('\n');
        }
        e.push_str(data);
        if !data.ends_with('\n') {
            e.push('\n');
        }
        Ok(())
    }

    fn read_to_string(&mut self, p: &str) -> Result<String, IoError> {
        let st = self.state.lock().unwrap();
        if st.no_perm_files.contains(p) {
            return os_error(libc::EACCES);
        }
        match st.files.get(p) {
            Some(s) => Ok(s.clone()),
            None => os_error(libc::ENOENT),
        }
    }

    fn check_can_open_for_write(&mut self, p: &str) -> Result<(), IoError> {
        let st = self.state.lock().unwrap();
        if st.no_perm_files.contains(p) {
            return os_error(libc::EACCES);
        }
        let dir = parent(p).unwrap_or("/".to_string());
        if st.files.contains_key(p) || st.dirs.contains(&dir) {
            Ok(())
        } else {
            os_error(libc::ENOENT)
        }
    }

    fn read_child_dirs(&mut self, p: &str) -> Result<Vec<String>, IoError> {
        let st = self.state.lock().unwrap();
        if let Some(v) = st.child_dir_overrides.get(p) {
            return Ok(v.clone());
        }
        if st.no_perm_dirs.contains(p) {
            return os_error(libc::EACCES);
        }
        if !st.dirs.contains(p) {
            return os_error(libc::ENOENT);
        }
        let mut out = Vec::new();
        for d in st.dirs.iter() {
            if parent(d) == Some(p.to_string()) {
                out.push(file_stem(d).unwrap());
            }
        }
        Ok(out)
    }

    fn mount_resctrl(&mut self, target: &str) -> Result<(), IoError> {
        let mut st = self.state.lock().unwrap();
        if let Some(code) = st.mount_err.take() {
            return os_error(code);
        }
        st.dirs.insert(target.to_string());
        let line = format!("resctrl {} resctrl rw,relatime 0 0\n", target);
        st.files.entry("/proc/mounts".to_string()).or_default().push_str(&line);
        st.files.entry(join(target, "tasks")).or_default();
        Ok(())
    }
}

#[test]
fn test_group_sanitization() {
    let s = sanitize_uid("abcDEF-123_+=!:@#$%^&*()");
    assert_eq!(s, "abcDEF-123_");

    let long = "x".repeat(100);
    let s2 = sanitize_uid(&long);
    assert_eq!(s2.len(), MAX_UID_LEN);
}

#[test]
fn test_detect_support_not_mounted() {
    let fs = MockFs::default();
    // Provide empty /proc/mounts
    fs.add_file("/proc/mounts", "");
    let mut rc = Resctrl::with_provider(fs, Config::default());
    let info = rc.detect_support().expect("detect ok");
    assert!(!info.mounted);
    assert_eq!(info.mount_point, None);
    assert!(!info.writable);
}

#[test]
fn test_detect_support_proc_mounts_missing() {
    let fs = MockFs::default();
    let mut rc = Resctrl::with_provider(fs, Config::default());
    let err = rc.detect_support().unwrap_err();
    match err {
        Error::Io { path, source } => {
            assert!(path.ends_with("/proc/mounts"));
            assert_eq!(source.raw_os_error(), Some(libc::ENOENT));
        }
        other => panic!("unexpected error: {:?}", other),
    }
}

#[test]
fn test_detect_support_proc_mounts_permission_denied() {
    let fs = MockFs::default();
    fs.add_file("/proc/mounts", "");
    fs.set_no_perm_file("/proc/mounts");
    let mut rc = Resctrl::with_provider(fs, Config::default());
    let err = rc.detect_support().unwrap_err();
    match err {
        Error::Io { path, source } => {
            assert!(path.ends_with("/proc/mounts"));
            assert_eq!(source.raw_os_error(), Some(libc::EACCES));
        }
        other => panic!("unexpected error: {:?}", other),
    }
}

#[test]
fn test_detect_support_mounted_and_writable() {
    let fs = MockFs::default();
    // Simulate mounted under default root
    fs.add_file(
        "/proc/mounts",
        "resctrl /sys/fs/resctrl resctrl rw 0 0\n",
    );
    fs.add_dir("/sys");
    fs.add_dir("/sys/fs");
    fs.add_dir("/sys/fs/resctrl");
    fs.add_file("/sys/fs/resctrl/tasks", "");
    let mut rc = Resctrl::with_provider(fs, Config::default());
    let info = rc.detect_support().expect("detect ok");
    assert!(info.mounted);
    assert_eq!(info.mount_point, Some("/sys/fs/resctrl".to_string()));
    assert!(info.writable);
}

#[test]
fn test_detect_support_mounted_but_no_permission() {
    let fs = MockFs::default();
    fs.add_file(
        "/proc/mounts",
        "resctrl /sys/fs/resctrl resctrl rw 0 0\n",
    );
    fs.add_dir("/sys/fs/resctrl");
    let tasks = "/sys/fs/resctrl/tasks";
    fs.add_file(tasks, "");
    fs.set_no_perm_file(tasks);
    let mut rc = Resctrl::with_provider(fs, Config::default());
    let info = rc.detect_support().expect("detect ok");
    assert!(info.mounted);
    assert!(!info.writable);
}

#[test]
fn test_ensure_mounted_respects_auto_mount_flag() {
    let fs = MockFs::default();
    fs.add_file("/proc/mounts", "");
    let mut rc = Resctrl::with_provider(
        fs,
        Config {
            root: "/sys/fs/resctrl".to_string(),
            group_prefix: "pod_".into(),
        },
    );
    let err = rc.ensure_mounted(false).unwrap_err();
    match err {
        Error::NotMounted { .. } => {}
        other => panic!("unexpected: {other:?}"),
    }
}

#[test]
fn test_ensure_mounted_performs_mount() {
    let fs = MockFs::default();
    fs.add_file("/proc/mounts", "");
    // also ensure /sys and /sys/fs exist in mock
    fs.add_dir("/sys");
    fs.add_dir("/sys/fs");
    let mut rc = Resctrl::with_provider(
        fs.clone(),
        Config {
            root: "/sys/fs/resctrl".to_string(),
            group_prefix: "pod_".into(),
        },
    );
    rc.ensure_mounted(true).expect("mounted");
    // After mount, detect reports mounted
    let info = rc.detect_support().expect("detect ok");
    assert!(info.mounted);
    assert_eq!(
        info.mount_point.unwrap(),
        "/sys/fs/resctrl"
    );
}

#[test]
fn test_ensure_mounted_permission_failure() {
    let fs = MockFs::default();
    fs.add_file("/proc/mounts", "");
    // cause mount to fail with EPERM
    fs.set_mount_err(libc::EPERM);
    let mut rc = Resctrl::with_provider(
        fs,
        Config {
            root: "/sys/fs/resctrl".to_string(),
            group_prefix: "pod_".into(),
        },
    );
    let err = rc.ensure_mounted(true).unwrap_err();
    match err {
        Error::NoPermission { .. } => {}
        other => panic!("unexpected: {other:?}"),
    }
}

#[test]
fn test_ensure_mounted_unsupported_kernel() {
    let fs = MockFs::default();
    fs.add_file("/proc/mounts", "");
    // cause mount to fail with ENODEV
    fs.set_mount_err(libc::ENODEV);
    let mut rc = Resctrl::with_provider(
        fs,
        Config {
            root: "/sys/fs/resctrl".to_string(),
            group_prefix: "pod_".into(),
        },
    );
    let err = rc.ensure_mounted(true).unwrap_err();
    match err {
        Error::Unsupported { .. } => {}
        other => panic!("unexpected: {other:?}"),
    }
}

#[test]
fn test_create_group_success() {
    let fs = MockFs::default();
    let root = "/sys/fs/resctrl".to_string();
    fs.add_dir(&root);
    let cfg = Config {
        root: root.clone(),
        group_prefix: "pod_".into(),
    };
    let mut rc = Resctrl::with_provider(fs.clone(), cfg);
    let group = rc.create_group("my-pod:UID").expect("create ok");
    assert!(group.contains("/sys/fs/resctrl/mon_groups/pod_my-podUID"));
    // also verify the fs contains the directory
    assert!(fs.exists_at(&group));
}

#[test]
fn test_create_group_not_mounted() {
    let fs = MockFs::default();
    let mut rc = Resctrl::with_provider(fs, Config::default());
    let err = rc.create_group("uid").unwrap_err();
    match err {
        Error::NotMounted { .. } => {}
        other => panic!("unexpected error: {:?}", other),
    }
}

#[test]
fn test_create_group_enospc_maps_capacity() {
    let fs = MockFs::default();
    let root = "/sys/fs/resctrl".to_string();
    fs.add_dir(&root);
    let cfg = Config {
        root: root.clone(),
        group_prefix: "pod_".into(),
    };
    let group_path = join(&join(&root, "mon_groups"), "pod_abc");
    fs.set_nospace_dir(&group_path);

    let mut rc = Resctrl::with_provider(fs, cfg);
    let err = rc.create_group("abc").unwrap_err();
    matches_capacity(err);
}

#[test]
fn test_delete_group_success() {
    let fs = MockFs::default();
    let root = "/sys/fs/resctrl".to_string();
    fs.add_dir(&root);
    let group_path = join(&root, "pod_abc");
    fs.add_dir(&group_path);

    let mut rc = Resctrl::with_provider(
        fs.clone(),
        Config {
            root,
            group_prefix: "pod_".into(),
        },
    );
    rc.delete_group(group_path.as_str())
        .expect("delete ok");
    // also verify directory removed in fs
    assert!(!fs.exists_at(&group_path));
}

#[test]
fn test_assign_tasks_success_and_missing() {
    let fs = MockFs::default();
    let root = "/sys/fs/resctrl".to_string();
    fs.add_dir(&root);
    let group_path = join(&root, "pod_abc");
    fs.add_dir(&group_path);
    let tasks = join(&group_path, "tasks");
    fs.add_file(&tasks, "");
    fs.set_missing_pid(42);

    let mut rc = Resctrl::with_provider(
        fs,
        Config {
            root,
            group_prefix: "pod_".into(),
        },
    );
    let res = rc
        .assign_tasks(group_path.as_str(), &[1, 42, 2])
        .expect("assign ok");
    assert_eq!(res.assigned, 2);
    assert_eq!(res.missing, 1);
}

#[test]
fn test_assign_tasks_no_permission() {
    let fs = MockFs::default();
    let root = "/sys/fs/resctrl".to_string();
    fs.add_dir(&root);
    let group_path = join(&root, "pod_abc");
    fs.add_dir(&group_path);
    let tasks = join(&group_path, "tasks");
    fs.add_file(&tasks, "");
    fs.set_no_perm_file(&tasks);

    let mut rc = Resctrl::with_provider(
        fs,
        Config {
            root,
            group_prefix: "pod_".into(),
        },
    );
    let err = rc
        .assign_tasks(group_path.as_str(), &[1])
        .unwrap_err();
    match err {
        Error::NoPermission { .. } => {}
        other => panic!("unexpected error: {:?}", other),
    }
}

#[test]
fn test_assign_tasks_enoent_group_missing() {
    let fs = MockFs::default();
    let root = "/sys/fs/resctrl".to_string();
    fs.add_dir(&root);
    let group_path = join(&root, "pod_abc");
    fs.add_dir(&group_path);
    // Do NOT create tasks file
    let mut rc = Resctrl::with_provider(
        fs,
        Config {
            root,
            group_prefix: "pod_".into(),
        },
    );
    let err = rc
        .assign_tasks(group_path.as_str(), &[1])
        .unwrap_err();
    match err {
        Error::Io { path, source } => {
            assert!(path.ends_with("tasks"));
            assert_eq!(source.raw_os_error(), Some(libc::ENOENT));
        }
        other => panic!("unexpected error: {:?}", other),
    }
}

#[test]
fn test_list_group_tasks_success() {
    let fs = MockFs::default();
    let root = "/sys/fs/resctrl".to_string();
    fs.add_dir(&root);
    let group_path = join(&root, "pod_abc");
    fs.add_dir(&group_path);
    let tasks = join(&group_path, "tasks");
    fs.add_file(&tasks, "1\n2\n3\n");

    let mut rc = Resctrl::with_provider(
        fs,
        Config {
            root,
            group_prefix: "pod_".into(),
        },
    );
    let pids = rc
        .list_group_tasks(group_path.as_str())
        .expect("list ok");
    assert_eq!(pids, vec![1, 2, 3]);
}

#[test]
fn test_list_group_tasks_invalid_content() {
    let fs = MockFs::default();
    let root = "/sys/fs/resctrl".to_string();
    fs.add_dir(&root);
    let group_path = join(&root, "pod_abc");
    fs.add_dir(&group_path);
    let tasks = join(&group_path, "tasks");
    fs.add_file(&tasks, "1\n2\na bc\n3\n");

    let mut rc = Resctrl::with_provider(
        fs,
        Config {
            root,
            group_prefix: "pod_".into(),
        },
    );
    let err = rc
        .list_group_tasks(group_path.as_str())
        .unwrap_err();
    match err {
        Error::Io { path, source } => {
            assert!(path.ends_with("tasks"));
            assert_eq!(source.kind(), ErrorKind::InvalidData);
        }
        other => panic!("unexpected error: {:?}", other),
    }
}

#[test]
fn test_list_group_tasks_no_permission() {
    let fs = MockFs::default();
    let root = "/sys/fs/resctrl".to_string();
    fs.add_dir(&root);
    let group_path = join(&root, "pod_abc");
    fs.add_dir(&group_path);
    let tasks = join(&group_path, "tasks");
    fs.add_file(&tasks, "");
    fs.set_no_perm_file(&tasks);

    let mut rc = Resctrl::with_provider(
        fs,
        Config {
            root,
            group_prefix: "pod_".into(),
        },
    );
    let err = rc
        .list_group_tasks(group_path.as_str())
        .unwrap_err();
    match err {
        Error::NoPermission { .. } => {}
        other => panic!("unexpected error: {:?}", other),
    }
}

fn matches_capacity(err: Error) {
    match err {
        Error::Capacity { .. } => {}
        other => panic!("expected capacity, got {:?}", other),
    }
}

/// A source of tasks that a closure gives.
struct Asked<F>(F);

impl<F: FnMut() -> Result<Vec<i32>, Error>> PidSource for Asked<F> {
    fn pids(&mut self) -> Result<Vec<i32>, Error> {
        (self.0)()
    }
}

#[test]
fn reconciling_again_asks_once_and_writes_nothing() {
    let fs = MockFs::default();
    fs.add_dir("/sys/fs/resctrl/pod_again");
    fs.add_file("/sys/fs/resctrl/pod_again/tasks", "");
    let mut rc = Resctrl::with_provider(fs, Config::default());
    let group = "/sys/fs/resctrl/pod_again";
    // The source is asked anew in each pass
    let mut calls = 0usize;
    let grows = || -> Result<Vec<i32>, Error> {
        calls += 1;
        Ok(if calls == 1 { vec![1, 1] } else { vec![1, 2] })
    };
    let res = rc.reconcile_group(group, &mut Asked(grows), 10).unwrap();
    assert_eq!((res.assigned, res.missing), (2, 0));
    assert_eq!(calls, 3);
    let mut calls = 0usize;
    let same = || -> Result<Vec<i32>, Error> {
        calls += 1;
        Ok(vec![1, 2])
    };
    let res = rc.reconcile_group(group, &mut Asked(same), 10).unwrap();
    assert_eq!((res.assigned, res.missing), (0, 0));
    assert_eq!(calls, 1);
    // Without passes the source is not asked
    let mut calls = 0usize;
    let never = || -> Result<Vec<i32>, Error> {
        calls += 1;
        Ok(vec![3])
    };
    let res = rc.reconcile_group(group, &mut Asked(never), 0).unwrap();
    assert_eq!((res.assigned, res.missing), (0, 0));
    assert_eq!(calls, 0);
}

#[test]
fn test_reconcile_group_converges() {
    let fs = MockFs::default();
    // Simulate mounted under default root
    fs.add_file(
        "/proc/mounts",
        "resctrl /sys/fs/resctrl resctrl rw 0 0\n",
    );
    let root = "/sys/fs/resctrl".to_string();
    fs.add_dir(&root);

    // Create group and its tasks file
    let group_path = join(&root, "pod_abc");
    fs.add_dir(&group_path);
    let tasks = join(&group_path, "tasks");
    fs.add_file(&tasks, "");

    let mut rc = Resctrl::with_provider(
        fs,
        Config {
            root: root.clone(),
            group_prefix: "pod_".into(),
        },
    );

    // Desired PIDs remain stable; should converge in <= 2 passes
    let desired = vec![101, 202];
        let calls = RefCell::new(0usize);
    let pid_source = || -> Result<Vec<i32>, Error> {
        *calls.borrow_mut() += 1;
        Ok(desired.clone())
    };
    let res = rc
        .reconcile_group(group_path.as_str(), &mut Asked(pid_source), 10)
        .expect("reconcile ok");

    assert_eq!(res.missing, 0);
    assert_eq!(res.assigned, desired.len());
    // Should converge in 2 passes (first to assign, second to verify)
    assert!(
        *calls.borrow() <= 2,
        "Expected <= 2 iterations, got {}",
        *calls.borrow()
    );

    // Verify tasks file contains the assigned PIDs
    let listed = rc
        .list_group_tasks(group_path.as_str())
        .expect("list ok");
    assert_eq!(listed.len(), desired.len());
    for p in desired {
        assert!(listed.contains(&p));
    }
}

#[test]
fn test_reconcile_group_partial_when_pids_missing() {
    let fs = MockFs::default();
    // Simulate mounted under default root
    fs.add_file(
        "/proc/mounts",
        "resctrl /sys/fs/resctrl resctrl rw 0 0\n",
    );
    let root = "/sys/fs/resctrl".to_string();
    fs.add_dir(&root);

    // Create group and its tasks file
    let group_path = join(&root, "pod_def");
    fs.add_dir(&group_path);
    let tasks = join(&group_path, "tasks");
    fs.add_file(&tasks, "");

    // Mark a PID as always missing (ESRCH) when writing
    fs.set_missing_pid(303);

    let mut rc = Resctrl::with_provider(
        fs,
        Config {
            root: root.clone(),
            group_prefix: "pod_".into(),
        },
    );

        let calls = RefCell::new(0usize);
    let pid_source = || -> Result<Vec<i32>, Error> {
        *calls.borrow_mut() += 1;
        Ok(vec![303])
    };

    let max_passes = 3;
    let res = rc
        .reconcile_group(group_path.as_str(), &mut Asked(pid_source), max_passes)
        .expect("reconcile ok");

    assert_eq!(res.assigned, 0);
    assert_eq!(res.missing, 1);
    assert_eq!(*calls.borrow(), max_passes);
}

#[test]
fn test_reconcile_group_converges_after_changes() {
    let fs = MockFs::default();
    fs.add_file(
        "/proc/mounts",
        "resctrl /sys/fs/resctrl resctrl rw 0 0\n",
    );
    let root = "/sys/fs/resctrl".to_string();
    fs.add_dir(&root);

    let group_path = join(&root, "pod_dyn");
    fs.add_dir(&group_path);
    let tasks = join(&group_path, "tasks");
    fs.add_file(&tasks, "");

    let mut rc = Resctrl::with_provider(
        fs,
        Config {
            root: root.clone(),
            group_prefix: "pod_".into(),
        },
    );

    let mut pass = 0usize;
    let pid_source = move || -> Result<Vec<i32>, Error> {
        let out = match pass {
            0 => vec![1],
            1 => vec![1, 2],
            _ => vec![1, 2],
        };
        pass += 1;
        Ok(out)
    };
    let res = rc
        .reconcile_group(group_path.as_str(), &mut Asked(pid_source), 10)
        .expect("reconcile ok");
    assert_eq!(res.missing, 0);
    assert_eq!(res.assigned, 2); // 1 then 2
                                 // should have required at least 3 passes (implicitly via closure sequence)
}

#[test]
fn test_reconcile_group_noop_when_desired_already_present() {
    let fs = MockFs::default();
    fs.add_file(
        "/proc/mounts",
        "resctrl /sys/fs/resctrl resctrl rw 0 0\n",
    );
    let root = "/sys/fs/resctrl".to_string();
    fs.add_dir(&root);

    let group_path = join(&root, "pod_preloaded");
    fs.add_dir(&group_path);
    let tasks = join(&group_path, "tasks");
    fs.add_file(&tasks, "10\n11\n");

    let mut rc = Resctrl::with_provider(
        fs,
        Config {
            root: root.clone(),
            group_prefix: "pod_".into(),
        },
    );

        let calls = RefCell::new(0usize);
    let pid_source = || -> Result<Vec<i32>, Error> {
        *calls.borrow_mut() += 1;
        Ok(vec![10, 11])
    };
    let res = rc
        .reconcile_group(group_path.as_str(), &mut Asked(pid_source), 5)
        .expect("reconcile ok");
    assert_eq!(res.missing, 0);
    assert_eq!(res.assigned, 0);
    // Should only need 1 pass since PIDs are already there
    assert_eq!(
        *calls.borrow(),
        1,
        "Expected 1 iteration for already-present PIDs"
    );
}

#[test]
fn test_reconcile_group_no_convergence_with_continuous_changes() {
    let fs = MockFs::default();
    fs.add_file(
        "/proc/mounts",
        "resctrl /sys/fs/resctrl resctrl rw 0 0\n",
    );
    let root = "/sys/fs/resctrl".to_string();
    fs.add_dir(&root);

    let group_path = join(&root, "pod_chaos");
    fs.add_dir(&group_path);
    let tasks = join(&group_path, "tasks");
    fs.add_file(&tasks, "");

    // Mark all PIDs from earlier iterations as missing to simulate process churn
    for i in 0..10 {
        fs.set_missing_pid(100 + i);
        fs.set_missing_pid(200 + i);
    }

    let mut rc = Resctrl::with_provider(
        fs,
        Config {
            root: root.clone(),
            group_prefix: "pod_".into(),
        },
    );

        let calls = RefCell::new(0usize);
    let pid_source = || -> Result<Vec<i32>, Error> {
        let iteration = *calls.borrow();
        *calls.borrow_mut() += 1;
        // PIDs keep changing every iteration - simulate high churn
        Ok(vec![100 + iteration as i32, 200 + iteration as i32])
    };

    let max_passes = 5;
    let res = rc
        .reconcile_group(group_path.as_str(), &mut Asked(pid_source), max_passes)
        .expect("reconcile ok");

    // Should not converge as all PIDs fail with ESRCH (missing)
    assert_eq!(
        res.assigned, 0,
        "Should not have assigned any PIDs due to ESRCH"
    );
    assert_eq!(
        res.missing, 2,
        "Should have 2 missing PIDs from last iteration"
    );
    assert_eq!(
        *calls.borrow(),
        max_passes,
        "Should have tried all {} passes",
        max_passes
    );
}

#[test]
fn test_reconcile_group_handles_forking_processes() {
    let fs = MockFs::default();
    fs.add_file(
        "/proc/mounts",
        "resctrl /sys/fs/resctrl resctrl rw 0 0\n",
    );
    let root = "/sys/fs/resctrl".to_string();
    fs.add_dir(&root);

    let group_path = join(&root, "pod_fork");
    fs.add_dir(&group_path);
    let tasks = join(&group_path, "tasks");
    // Simulate that PID 100 is already in resctrl group (parent already assigned)
    fs.add_file(&tasks, "100\n");

    // Keep a handle to the mock FS to mutate the tasks file from the PID source
    let mut fs_mut = fs.clone();

    let mut rc = Resctrl::with_provider(
        fs,
        Config {
            root: root.clone(),
            group_prefix: "pod_".into(),
        },
    );

        let calls = RefCell::new(0usize);
    let tasks_path = tasks.clone();
    // On every call, add a new PID to the resctrl tasks file and also include
    // it in the returned desired set (simulating children forking into the cgroup
    // and already present in resctrl via inheritance).
    let pid_source = || -> Result<Vec<i32>, Error> {
        *calls.borrow_mut() += 1;
        let dyn_pid = 200 + *calls.borrow() as i32;
        // Append the dynamic PID to the tasks file before we list current tasks
        fs_mut
            .write_str(&tasks_path, &format!("{}", dyn_pid))
            .expect("write tasks");
        Ok(vec![100, 101, dyn_pid])
    };

    let res = rc
        .reconcile_group(group_path.as_str(), &mut Asked(pid_source), 10)
        .expect("reconcile ok");

    // We expect immediate convergence because the dynamically added PID is already
    // present in the resctrl tasks file when desired is evaluated.
    assert_eq!(res.missing, 0);
    assert_eq!(res.assigned, 1);
    assert!(
        *calls.borrow() <= 2,
        "Should converge quickly for fork scenario"
    );

    // Verify that both the original and dynamically added PID are in the group
    let listed = rc
        .list_group_tasks(group_path.as_str())
        .expect("list ok");
    assert!(listed.contains(&100));
    // At least the first dynamic PID should be present
    assert!(listed.iter().any(|p| *p >= 201));
}

#[test]
fn test_cleanup_all_counts_and_removes() {
    let fs = MockFs::default();
    // Simulate mounted
    fs.add_file(
        "/proc/mounts",
        "resctrl /sys/fs/resctrl resctrl rw 0 0\n",
    );

    let root = "/sys/fs/resctrl".to_string();
    fs.add_dir("/sys");
    fs.add_dir("/sys/fs");
    fs.add_dir(&root);
    // root children
    fs.add_dir(&join(&root, "pod_u1"));
    fs.add_dir(&join(&root, "pod_u2"));
    fs.add_dir(&join(&root, "info"));
    // include a non-prefix custom directory under root
    fs.add_dir(&join(&root, "custom_root"));
    fs.add_dir(&join(&root, "mon_groups"));
    // mon_groups children
    fs.add_dir(&join(&join(&root, "mon_groups"), "pod_u1"));
    fs.add_dir(&join(&join(&root, "mon_groups"), "pod_u3"));
    fs.add_dir(&join(&join(&root, "mon_groups"), "custom"));

    let mut rc = Resctrl::with_provider(
        fs.clone(),
        Config {
            root: root.clone(),
            group_prefix: "pod_".into(),
        },
    );

    let rep = rc.cleanup_all().expect("cleanup ok");
    assert_eq!(rep.removed, 4);
    assert_eq!(rep.removal_failures, 0);
    assert_eq!(rep.removal_race, 0);
    // non-prefix: custom_root under root, and custom under mon_groups
    assert_eq!(rep.non_prefix_groups, 2);

    // Verify removals on fs
    assert!(!fs.dir_exists(&join(&root, "pod_u1")));
    assert!(!fs.dir_exists(&join(&root, "pod_u2")));
    assert!(!fs.dir_exists(&join(&join(&root, "mon_groups"), "pod_u1")));
    assert!(!fs.dir_exists(&join(&join(&root, "mon_groups"), "pod_u3")));

    // Non-prefix remain
    assert!(fs.dir_exists(&join(&root, "info")));
    assert!(fs.dir_exists(&join(&root, "mon_groups")));
    assert!(fs.dir_exists(&join(&join(&root, "mon_groups"), "custom")));
    assert!(fs.dir_exists(&join(&root, "custom_root")));
}

#[test]
fn test_cleanup_all_failures_and_race() {
    let fs = MockFs::default();
    // Simulate mounted
    fs.add_file(
        "/proc/mounts",
        "resctrl /sys/fs/resctrl resctrl rw 0 0\n",
    );

    let root = "/sys/fs/resctrl".to_string();
    fs.add_dir("/sys");
    fs.add_dir("/sys/fs");
    fs.add_dir(&root);
    fs.add_dir(&join(&root, "mon_groups"));

    // We'll simulate listing that includes one existing, one missing (race),
    // and one no-permission path for removal; plus a non-prefix keep entry.
    fs.add_dir(&join(&root, "x_keep")); // non-prefix
    fs.add_dir(&join(&root, "pod_fail"));
    fs.set_no_perm_remove_dir(&join(&root, "pod_fail"));
    // Also add a root entry that will successfully be removed
    fs.add_dir(&join(&root, "pod_r_ok"));
    // Race: include pod_race in listing override but do not create it
    fs.set_child_dirs_override(
        &root,
        vec![
            "pod_fail".into(),
            "pod_race".into(),
            "x_keep".into(), // non-prefix
            "pod_r_ok".into(),
        ],
    );

    // mon_groups with one removable
    fs.add_dir(&join(&join(&root, "mon_groups"), "pod_m1"));

    let mut rc = Resctrl::with_provider(
        fs.clone(),
        Config {
            root: root.clone(),
            group_prefix: "pod_".into(),
        },
    );

    let rep = rc.cleanup_all().expect("cleanup ok");
    // Removed: mon_groups/pod_m1 and root/pod_r_ok
    assert_eq!(rep.removed, 2);
    // Failures: pod_fail remove permission denied
    assert_eq!(rep.removal_failures, 1);
    // Race: pod_race ENOENT
    assert_eq!(rep.removal_race, 1);
    // Non-prefix: x_keep (root). Root special dirs filtered; none under mon_groups listing.
    assert_eq!(rep.non_prefix_groups, 1);

    // Verify removals and non-removals on fs
    assert!(fs.dir_exists(&join(&root, "x_keep")), "x_keep should remain");
    assert!(
        !fs.dir_exists(&join(&root, "pod_r_ok")),
        "pod_r_ok should be removed"
    );
    assert!(
        !fs.dir_exists(&join(&join(&root, "mon_groups"), "pod_m1")),
        "pod_m1 should be removed"
    );
}

#[test]
fn test_cleanup_all_list_errors() {
    let fs = MockFs::default();
    let root = "/sys/fs/resctrl".to_string();
    // Root dir missing -> list error
    let mut rc = Resctrl::with_provider(
        fs.clone(),
        Config {
            root: root.clone(),
            group_prefix: "pod_".into(),
        },
    );
    let err = rc.cleanup_all().unwrap_err();
    match err {
        Error::Io { path, source } => {
            assert_eq!(path, root);
            assert_eq!(source.raw_os_error(), Some(libc::ENOENT));
        }
        other => panic!("unexpected: {other:?}"),
    }

    // Root exists but mon_groups unreadable
    fs.add_dir(&root);
    fs.add_dir(&join(&root, "mon_groups"));
    fs.set_no_perm_dir(&join(&root, "mon_groups"));
    let err2 = rc.cleanup_all().unwrap_err();
    match err2 {
        Error::NoPermission { path, source } => {
            let ps = path;
            assert!(ps.ends_with("/sys/fs/resctrl/mon_groups"), "path={}", ps);
            assert_eq!(source.raw_os_error(), Some(libc::EACCES));
        }
        other => panic!("unexpected: {other:?}"),
    }
}
