use apex_oled::stats::{cpu_times, is_cpu_sensor, meminfo_field, CpuLoad};

#[test]
fn cpu_times_counts_iowait_as_idle() {
    let stat = "cpu  10 0 5 80 5 0 0 0 0 0\ncpu0 10 0 5 80 5 0 0 0 0 0\nintr 1";
    assert_eq!(cpu_times(stat), vec![(15, 100), (15, 100)]);
}

#[test]
fn cpu_times_reads_only_the_first_eight_fields() {
    let stat = "cpu 1 2 3 4 5 6 7 8 900 900\n";
    assert_eq!(cpu_times(stat), vec![(27, 36)]);
}

#[test]
fn cpu_times_stops_at_the_first_other_line() {
    let stat = "cpu 1 1 1 1 1\nintr 5\ncpu1 9 9 9 9 9\n";
    assert_eq!(cpu_times(stat), vec![(3, 5)]);
    assert_eq!(cpu_times(""), vec![]);
    assert_eq!(cpu_times("intr 1\ncpu 1 2"), vec![]);
}

#[test]
fn cpu_times_takes_bad_fields_as_zero_and_short_lines_as_they_are() {
    assert_eq!(cpu_times("cpu 4 x 6\r\n"), vec![(10, 10)]);
    assert_eq!(cpu_times("cpu 3 4 5 6"), vec![(12, 18)]);
    assert_eq!(cpu_times("cpu"), vec![(0, 0)]);
    assert_eq!(cpu_times("cpu +7 99999999999999999999"), vec![(7, 7)]);
}

#[test]
fn cpu_times_wraps_like_u64_arithmetic() {
    let max = u64::MAX;
    let stat = format!("cpu {max} 2");
    assert_eq!(cpu_times(&stat), vec![(1, 1)]);
}

#[test]
fn cpu_load_gives_deltas_between_samples() {
    let mut load = CpuLoad::new();
    assert_eq!(load.sample("cpu 10 0 0 90\ncpu0 10 0 0 90\n"), None);
    let d = load.sample("cpu 30 0 0 170\ncpu0 10 0 0 90\n").unwrap();
    assert_eq!(d, vec![(20, 100), (0, 0)]);
    // a CPU came online: the layout changed, so no load this time
    assert_eq!(load.sample("cpu 30 0 0 170\ncpu0 10 0 0 90\ncpu1 1 0 0 1\n"), None);
    assert_eq!(load.prev.len(), 3);
}

#[test]
fn cpu_load_busy_delta_wraps_when_busy_shrinks() {
    let mut load = CpuLoad::new();
    load.sample("cpu 5 0 0 0\n");
    let d = load.sample("cpu 4 0 0 10\n").unwrap();
    assert_eq!(d, vec![(u64::MAX, 9)]);
}

#[test]
fn meminfo_field_reads_the_first_matching_line() {
    let m = "MemTotal:       32000000 kB\nMemFree: 1 kB\nMemAvailable:   16000000 kB\n";
    let total: String = meminfo_field(m, "MemTotal:").unwrap().into_iter().collect();
    assert_eq!(total, "32000000");
    let avail: String = meminfo_field(m, "MemAvailable:").unwrap().into_iter().collect();
    assert_eq!(avail, "16000000");
    assert_eq!(meminfo_field(m, "SwapTotal:"), None);
    assert_eq!(meminfo_field("MemTotal:\nMemTotal: 5 kB", "MemTotal:"), None);
}

#[test]
fn cpu_sensor_names() {
    assert!(is_cpu_sensor("k10temp\n"));
    assert!(is_cpu_sensor("  coretemp"));
    assert!(is_cpu_sensor("zenpower"));
    assert!(!is_cpu_sensor("nvme\n"));
    assert!(!is_cpu_sensor("k10temp2"));
    assert!(!is_cpu_sensor(""));
}
