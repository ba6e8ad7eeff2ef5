use collector::batch::{Batch, Column, NamedColumn};
use collector::schema::{DataType, Field};
use collector::trace::analyzer::{Analyzer, READER_BATCH_SIZE};
use collector::trace::command_line::{
    determine_csv_output_filename, determine_output_filename, num_cpus_from_metadata,
    parse_analysis_type, AnalysisType, KeyValue,
};
use collector::trace::concurrency_analysis::{ConcurrencyAnalysis, ThreadTime};
use collector::trace::cpu_time_counter::CpuTimeCounter;
use collector::trace::cpu_time_tracker::CpuTimeTracker;
use collector::trace::event::read_events;
use collector::trace::monotonicity_analysis::MonotonicityAnalysis;
use collector::trace::off_cpu_analysis::{OffCpuAnalysis, OffMetric, OffTimes};

fn named(name: &str, column: Column) -> NamedColumn {
    NamedColumn { name: name.to_string(), column }
}

/// timestamp, pid, CPU, the process that comes on a context switch, instructions, cycles, name
type Row = (i64, i32, i32, Option<i32>, i64, i64, &'static str);

fn batch(rows: &[Row]) -> Batch {
    let n = rows.len();
    Batch {
        num_rows: n,
        columns: vec![
            named("timestamp", Column::Int64(rows.iter().map(|r| r.0).collect())),
            named("pid", Column::Int32(rows.iter().map(|r| r.1).collect(), vec![false; n])),
            named("cpu_id", Column::Int32(rows.iter().map(|r| r.2).collect(), vec![false; n])),
            named(
                "is_context_switch",
                Column::Boolean(rows.iter().map(|r| r.3.is_some()).collect()),
            ),
            named(
                "next_tgid",
                Column::Int32(
                    rows.iter().map(|r| r.3.unwrap_or(0)).collect(),
                    rows.iter().map(|r| r.3.is_none()).collect(),
                ),
            ),
            named("instructions", Column::Int64(rows.iter().map(|r| r.4).collect())),
            named("cycles", Column::Int64(rows.iter().map(|r| r.5).collect())),
            named("process_name", Column::Utf8(rows.iter().map(|r| r.6.to_string()).collect())),
        ],
    }
}

#[test]
fn counters_add_up_thread_time() {
    let mut c = CpuTimeCounter::new();
    c.increase();
    c.update(100);
    assert_eq!(c.get_ns(), 0);
    c.update(150);
    assert_eq!(c.get_ns(), 50);
    c.increase();
    c.update(160);
    assert_eq!(c.get_ns(), 70);
    assert_eq!(c.ns_at(200), 150);
    c.decrease();
    c.decrease();
    assert_eq!(c.current_thread_count, 0);
    c.update(1000);
    assert_eq!(c.get_ns(), 70);
    // A second update at the same time changes nothing
    c.update(1000);
    assert_eq!(c.get_ns(), 70);
}

#[test]
fn tracker_follows_context_switches() {
    let mut t = CpuTimeTracker::new(2);
    assert!(CpuTimeTracker::is_kernel(0));
    assert!(!CpuTimeTracker::is_kernel(1));
    t.process_context_switch(100, 0, 0, 7).unwrap();
    t.process_context_switch(110, 1, 0, 7).unwrap();
    t.process_timer_event(130, 7, 0).unwrap();
    // 7 ran on one CPU for 10 and on two for 20
    assert_eq!(t.get_pid_cpu_time(7), 50);
    assert_eq!(t.get_total_cpu_time(), 50);
    assert_eq!(t.get_pid_counter(7).unwrap().current_thread_count, 2);
    t.process_context_switch(140, 1, 7, 0).unwrap();
    assert_eq!(t.get_pid_cpu_time(7), 70);
    t.process_context_switch(150, 0, 7, 8).unwrap();
    // The kernel's time does not count in the total
    assert_eq!(t.get_pid_cpu_time(7), 80);
    assert_eq!(t.get_total_cpu_time(), 80);
    assert_eq!(t.get_pid_counter(7).unwrap().current_thread_count, 0);
    assert_eq!(t.last_timestamp(0), 150);
    assert_eq!(t.get_pid_cpu_time(99), 0);
    assert!(t.get_pid_counter(99).is_none());
    assert_eq!(t.num_cpus(), 2);
}

#[test]
fn tracker_refuses_what_cannot_be() {
    let mut t = CpuTimeTracker::new(1);
    assert_eq!(
        t.process_context_switch(1, 1, 0, 7).unwrap_err().message(),
        "Invalid CPU ID: 1"
    );
    assert_eq!(t.process_timer_event(1, 7, 3).unwrap_err().message(), "Invalid CPU ID: 3");
    t.process_context_switch(100, 0, 0, 7).unwrap();
    // Another process than the one on the CPU leaves
    assert!(!t.accepts_context_switch(110, 0, 8, 9));
    assert!(t.accepts_context_switch(110, 0, 7, 9));
    // Time runs backwards
    assert!(!t.accepts_timer_event(99, 7));
    assert!(!t.accepts_context_switch(99, 0, 7, 9));
    assert!(t.accepts_timer_event(100, 7));
    assert_eq!(t.get_per_cpu_state(0).current_pid, Some(7));
    t.get_or_create_pid_counter(5);
    assert!(t.get_pid_counter(5).is_some());
    assert_eq!(t.pid_cpu_time_at(7, 130), 30);
}

#[test]
fn rows_are_read_as_events() {
    let b = batch(&[(5, 7, 1, Some(8), 10, 20, "sh"), (6, -1, 0, None, -1, 0, "")]);
    let events = read_events(&b).unwrap();
    assert_eq!(events.len(), 2);
    assert_eq!(events[0].timestamp, 5);
    assert_eq!(events[0].next_tgid, Some(8));
    assert!(events[0].is_context_switch);
    assert_eq!(events[0].process_name, "sh");
    assert_eq!(events[1].pid, u32::MAX);
    assert_eq!(events[1].next_tgid, None);
    assert_eq!(events[1].instructions, u64::MAX);
}

#[test]
fn missing_and_wrong_columns_are_errors() {
    let full = || batch(&[(5, 7, 0, None, 1, 1, "sh")]);
    for name in [
        "timestamp", "pid", "cpu_id", "is_context_switch", "next_tgid", "instructions", "cycles",
        "process_name",
    ] {
        let mut b = full();
        b.columns.retain(|c| c.name != name);
        let mut analysis = ConcurrencyAnalysis::new(1).unwrap();
        assert_eq!(
            analysis.process_record_batch(&b).unwrap_err().message(),
            format!("Missing {} column", name)
        );
        let mut b = full();
        for c in b.columns.iter_mut() {
            if c.name == name {
                c.column = Column::Other;
            }
        }
        let mut analysis = OffCpuAnalysis::new(1).unwrap();
        assert_eq!(
            analysis.process_record_batch(&b).unwrap_err().message(),
            format!("Invalid {} column type", name)
        );
    }
}

fn time(interval: u64, total: u64, same_process: u64) -> ThreadTime {
    ThreadTime { interval, total, same_process }
}

#[test]
fn concurrency_of_two_cpus() {
    let mut analysis = ConcurrencyAnalysis::new(2).unwrap();
    let times = analysis
        .process_record_batch(&batch(&[
            (100, 0, 0, Some(7), 0, 0, "swapper"),
            (110, 0, 1, Some(7), 0, 0, "swapper"),
            (120, 7, 0, None, 10, 20, "work"),
            (130, 7, 1, Some(8), 5, 0, "work"),
            (140, 7, 0, Some(0), 10, 5, "work"),
        ]))
        .unwrap();
    assert_eq!(
        times,
        vec![time(0, 0, 0), time(0, 0, 0), time(20, 30, 30), time(20, 40, 40), time(20, 40, 30)]
    );
    // Only rows with instructions and cycles are measured
    let measurements = analysis.take_measurements();
    assert_eq!(measurements.len(), 2);
    assert_eq!(measurements[0].process_name, "work");
    assert_eq!(measurements[0].time, time(20, 30, 30));
    assert_eq!((measurements[1].cycles, measurements[1].instructions), (5, 10));
    assert!(analysis.take_measurements().is_empty());
    // The average never exceeds the number of CPUs
    for t in &times {
        assert!(t.total <= t.interval * 2);
    }
}

#[test]
fn concurrency_stops_where_the_trace_is_broken() {
    let mut analysis = ConcurrencyAnalysis::new(1).unwrap();
    let b = batch(&[(100, 0, 0, Some(7), 0, 0, ""), (50, 7, 0, None, 0, 0, "")]);
    assert!(analysis.process_accepted(&b).unwrap().is_none());
    let mut analysis = ConcurrencyAnalysis::new(1).unwrap();
    let b = batch(&[(100, 0, 3, Some(7), 0, 0, "")]);
    assert_eq!(
        analysis.process_record_batch(&b).unwrap_err().message(),
        "Invalid CPU ID: 3"
    );
    assert!(!analysis.accepts_event(1, 7, 0, true, None));
    assert!(analysis.accepts_event(1, 7, 0, true, Some(8)));
}

#[test]
fn rows_before_an_invalid_cpu_are_measured() {
    let rows = [
        (100, 0, 0, Some(7), 10, 20, "idle"),
        (120, 7, 0, Some(8), 10, 20, "a"),
        (150, 8, 0, Some(7), 10, 20, "b"),
        (160, 7, 0, None, 10, 30, "a"),
        (170, 7, 9, None, 10, 20, "a"),
        (180, 7, 0, None, 10, 20, "a"),
    ];
    let mut analysis = ConcurrencyAnalysis::new(1).unwrap();
    assert_eq!(
        analysis.process_record_batch(&batch(&rows)).unwrap_err().message(),
        "Invalid CPU ID: 9"
    );
    let measurements = analysis.take_measurements();
    let names: Vec<&str> = measurements.iter().map(|m| m.process_name.as_str()).collect();
    assert_eq!(names, vec!["idle", "a", "b", "a"]);
    assert_eq!(measurements[3].time, time(10, 10, 10));
    let mut analysis = OffCpuAnalysis::new(1).unwrap();
    assert_eq!(
        analysis.process_record_batch(&batch(&rows)).unwrap_err().message(),
        "Invalid CPU ID: 9"
    );
    let measurements = analysis.take_measurements();
    assert_eq!(measurements.len(), 4);
    assert!(measurements.iter().all(|m| m.process_name == "a" && m.value == 30 && m.cycles == 30));
}

#[test]
fn concurrency_paths_and_columns() {
    let mut analysis = ConcurrencyAnalysis::new(1).unwrap();
    assert!(analysis.total_csv_path().is_none() && analysis.same_process_csv_path().is_none());
    analysis.set_csv_paths("t.csv".to_string(), "s.csv".to_string());
    assert_eq!(analysis.total_csv_path().unwrap(), "t.csv");
    assert_eq!(analysis.same_process_csv_path().unwrap(), "s.csv");
    let columns = analysis.new_columns_schema();
    let names: Vec<&str> = columns.iter().map(|f| f.name.as_str()).collect();
    assert_eq!(names, vec!["avg_total_threads", "avg_same_process_threads"]);
    assert!(columns.iter().all(|f| f.data_type == DataType::Float64 && !f.nullable));
}

fn off(per_cpu: u64, global: u64, per_cpu_other: u64, global_other: u64) -> OffTimes {
    OffTimes {
        per_cpu_off_time: per_cpu,
        global_off_time: global,
        per_cpu_other_cpu_time: per_cpu_other,
        global_other_cpu_time: global_other,
    }
}

#[test]
fn off_cpu_times_belong_to_the_next_event() {
    let mut analysis = OffCpuAnalysis::new(1).unwrap();
    let times = analysis
        .process_record_batch(&batch(&[
            (100, 0, 0, Some(7), 0, 0, ""),
            (120, 7, 0, Some(8), 10, 20, "a"),
            (150, 8, 0, Some(7), 10, 20, "b"),
            (160, 7, 0, None, 10, 20, "a"),
            (170, 7, 0, Some(0), 10, 20, "a"),
        ]))
        .unwrap();
    assert_eq!(
        times,
        vec![off(0, 0, 0, 0), off(0, 0, 0, 0), off(0, 0, 0, 0), off(30, 30, 30, 30), off(0, 0, 0, 0)]
    );
    let found: Vec<(OffMetric, u64)> =
        analysis.take_measurements().iter().map(|m| (m.metric, m.value)).collect();
    assert_eq!(
        found,
        vec![
            (OffMetric::PerCpuOffTime, 30),
            (OffMetric::GlobalOffTime, 30),
            (OffMetric::PerCpuOtherCpuTime, 30),
            (OffMetric::GlobalOtherCpuTime, 30),
        ]
    );
}

#[test]
fn off_cpu_of_a_process_on_two_cpus() {
    let mut analysis = OffCpuAnalysis::new(2).unwrap();
    let times = analysis
        .process_record_batch(&batch(&[
            (100, 0, 0, Some(7), 0, 0, ""),
            (100, 0, 1, Some(7), 0, 0, ""),
            (110, 7, 0, Some(0), 0, 0, ""),
            (130, 7, 1, Some(0), 0, 0, ""),
            (140, 0, 0, Some(7), 0, 0, ""),
            (150, 7, 0, None, 0, 0, ""),
        ]))
        .unwrap();
    // Away from its CPU since 110, from all since 130
    assert_eq!(times[5], off(30, 10, 20, 0));
    assert!(times[5].global_off_time <= times[5].per_cpu_off_time);
}

#[test]
fn off_cpu_paths_and_columns() {
    let mut analysis = OffCpuAnalysis::new(3).unwrap();
    assert_eq!(analysis.num_cpus(), 3);
    assert!(analysis.csv_paths().is_none());
    analysis.set_csv_paths("a".to_string(), "b".to_string(), "c".to_string(), "d".to_string());
    let paths = analysis.csv_paths().unwrap();
    assert_eq!(
        (paths.per_cpu_off_time.as_str(), paths.global_off_time.as_str()),
        ("a", "b")
    );
    assert_eq!(
        (paths.per_cpu_other_cpu_time.as_str(), paths.global_other_cpu_time.as_str()),
        ("c", "d")
    );
    let names: Vec<String> = analysis.new_columns_schema().into_iter().map(|f| f.name).collect();
    assert_eq!(
        names,
        vec![
            "per_cpu_off_time_ns",
            "global_off_time_ns",
            "per_cpu_other_cpu_time_ns",
            "global_other_cpu_time_ns",
        ]
    );
}

fn stamps(v: &[i64]) -> Batch {
    Batch { num_rows: v.len(), columns: vec![named("timestamp", Column::Int64(v.to_vec()))] }
}

#[test]
fn breaks_in_monotonicity() {
    let (mut analysis, header) = MonotonicityAnalysis::new();
    assert_eq!(
        header,
        vec!["row_number", "event_type", "first_timestamp", "second_timestamp", "difference"]
    );
    assert!(analysis.accepts(&stamps(&[10, 20, 15])));
    let lines = analysis.process_record_batch(&stamps(&[10, 20, 15])).unwrap();
    assert_eq!(
        lines,
        vec![
            vec!["0", "new_record_batch", "", "10", ""],
            vec!["2", "break_in_monotonicity", "20", "15", "-5"],
        ]
    );
    let lines = analysis.process_record_batch(&stamps(&[-3])).unwrap();
    assert_eq!(
        lines,
        vec![
            vec!["3", "new_record_batch", "15", "-3", ""],
            vec!["3", "break_in_monotonicity", "15", "-3", "-18"],
        ]
    );
    let lines = analysis.process_record_batch(&stamps(&[])).unwrap();
    assert_eq!(lines, vec![vec!["4", "new_record_batch", "-3", "", ""]]);
    assert_eq!(analysis.total_row_count, 4);
    assert_eq!(analysis.last_timestamp, Some(-3));
    assert!(analysis.new_columns_schema().is_empty());
}

#[test]
fn monotonicity_errors() {
    let (mut analysis, _) = MonotonicityAnalysis::new();
    let none = Batch { num_rows: 0, columns: vec![] };
    assert_eq!(
        analysis.process_record_batch(&none).unwrap_err().message(),
        "timestamp column not found"
    );
    let wrong = Batch { num_rows: 0, columns: vec![named("timestamp", Column::Other)] };
    assert_eq!(
        analysis.process_record_batch(&wrong).unwrap_err().message(),
        "timestamp column is not Int64Array"
    );
    // A difference that does not fit
    assert!(!analysis.accepts(&stamps(&[i64::MAX, i64::MIN])));
    assert!(analysis.accepts(&stamps(&[i64::MIN, i64::MAX])));
}

#[test]
fn output_files_stand_beside_the_trace() {
    assert_eq!(
        determine_output_filename("/data/trace.parquet", None, "concurrency").unwrap(),
        "/data/trace_concurrency_analysis.parquet"
    );
    assert_eq!(
        determine_output_filename("trace.tar.gz", Some("out"), "hyperthread").unwrap(),
        "out_hyperthread_analysis.parquet"
    );
    assert_eq!(
        determine_csv_output_filename("a/b.parquet", None, "total_concurrency").unwrap(),
        "a/b_total_concurrency.csv"
    );
    assert_eq!(
        determine_csv_output_filename("/", None, "x").unwrap_err().message(),
        "Invalid input filename"
    );
    assert_eq!(
        determine_output_filename("..", None, "x").unwrap_err().message(),
        "Invalid input filename"
    );
}

#[test]
fn analyses_by_name() {
    assert_eq!(parse_analysis_type("concurrency").unwrap(), AnalysisType::Concurrency);
    assert_eq!(parse_analysis_type("hyperthread").unwrap(), AnalysisType::Hyperthread);
    assert_eq!(parse_analysis_type("monotonicity").unwrap(), AnalysisType::Monotonicity);
    assert_eq!(
        parse_analysis_type("speed").unwrap_err().message(),
        "Invalid analysis type: speed. Must be 'concurrency', 'hyperthread', or 'monotonicity'"
    );
}

fn entry(key: &str, value: Option<&str>) -> KeyValue {
    KeyValue { key: key.to_string(), value: value.map(|v| v.to_string()) }
}

#[test]
fn number_of_cpus_in_metadata() {
    let message = |m: Option<&Vec<KeyValue>>| num_cpus_from_metadata(m).unwrap_err().message();
    assert_eq!(message(None), "No key-value metadata found in Parquet file");
    assert_eq!(message(Some(&vec![entry("x", Some("1"))])), "num_cpus not found in metadata");
    assert_eq!(message(Some(&vec![entry("num_cpus", None)])), "num_cpus value is empty");
    assert_eq!(
        message(Some(&vec![entry("num_cpus", Some("four"))])),
        "Failed to parse num_cpus as integer"
    );
    let entries =
        vec![entry("x", None), entry("num_cpus", Some("64")), entry("num_cpus", Some("1"))];
    assert_eq!(num_cpus_from_metadata(Some(&entries)).unwrap(), 64);
}

#[test]
fn added_columns_follow_those_of_the_trace() {
    let analyzer = Analyzer::new("out.parquet".to_string());
    let input = vec![Field::new("timestamp", DataType::Int64, false)];
    let added = vec![Field::new("avg", DataType::Float64, true)];
    let names: Vec<String> =
        analyzer.create_output_schema(&input, added).into_iter().map(|f| f.name).collect();
    assert_eq!(names, vec!["timestamp", "avg"]);
    assert_eq!(analyzer.output_columns(vec![1, 2], vec![3]), vec![1, 2, 3]);
    assert_eq!(READER_BATCH_SIZE, 32 * 1024);
}
