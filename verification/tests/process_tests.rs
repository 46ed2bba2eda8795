use sysmon::models::SortOrder;
use sysmon::process::{
    collect_process_metrics, process_info, run_time, sort_processes, user_label, ProcessInfo,
    ProcessSample,
};

fn sample(pid: u32, cpu: f32, mem_pct: f32) -> ProcessSample {
    ProcessSample {
        pid,
        name: format!("p{}", pid),
        command: format!("/bin/p{} --flag", pid),
        cpu_usage_bits: cpu.to_bits(),
        memory_usage: pid as u64 * 1000,
        memory_percentage_bits: mem_pct.to_bits(),
        virtual_memory: pid as u64 * 5000,
        user_id: Some(format!("{}", 1000 + pid)),
        user_name: if pid % 2 == 0 { Some(format!("user{}", pid)) } else { None },
        status: "Sleeping".to_string(),
        parent_pid: if pid == 1 { None } else { Some(1) },
        start_time: 100,
    }
}

fn row(pid: u32, cpu: f32, mem_pct: f32) -> ProcessInfo {
    process_info(sample(pid, cpu, mem_pct), 160)
}

#[test]
fn run_time_cases() {
    assert_eq!(run_time(100, 160), 60);
    assert_eq!(run_time(0, 160), 0);
    assert_eq!(run_time(200, 160), 0);
    assert_eq!(run_time(160, 160), 0);
    assert_eq!(run_time(1u64 << 63, u64::MAX), 0);
    assert_eq!(run_time(5, 1u64 << 63), 0);
    assert_eq!(run_time(5, i64::MAX as u64), i64::MAX as u64 - 5);
}

#[test]
fn user_label_cases() {
    assert_eq!(user_label(None, Some("root".to_string())), "?");
    assert_eq!(user_label(Some("0".to_string()), Some("root".to_string())), "root");
    assert_eq!(user_label(Some("1001".to_string()), None), "1001");
}

#[test]
fn process_info_fields() {
    let p = process_info(sample(4, 12.5, 3.25), 160);
    assert_eq!(p.pid, 4);
    assert_eq!(p.name, "p4");
    assert_eq!(p.command, "/bin/p4 --flag");
    assert_eq!(f32::from_bits(p.cpu_usage_bits), 12.5);
    assert_eq!(f32::from_bits(p.memory_percentage_bits), 3.25);
    assert_eq!(p.memory_usage, 4000);
    assert_eq!(p.virtual_memory, 20000);
    assert_eq!(p.user, "user4");
    assert_eq!(p.status, "Sleeping");
    assert_eq!(p.parent_pid, 1);
    assert_eq!(p.start_time, 100);
    assert_eq!(p.run_time, 60);
    let q = process_info(sample(1, 0.0, 0.0), 50);
    assert_eq!(q.parent_pid, 0);
    assert_eq!(q.user, "1001");
    assert_eq!(q.run_time, 0);
}

fn pids(rows: &[ProcessInfo]) -> Vec<u32> {
    rows.iter().map(|p| p.pid).collect()
}

#[test]
fn sort_by_cpu_descending_and_stable() {
    let rows = vec![row(1, 1.0, 0.0), row(2, 5.0, 0.0), row(3, 1.0, 0.0), row(4, 7.5, 0.0), row(5, 0.0, 0.0)];
    let sorted = sort_processes(rows, SortOrder::Cpu);
    assert_eq!(pids(&sorted), vec![4, 2, 1, 3, 5]);
}

#[test]
fn sort_by_memory_descending() {
    let rows = vec![row(1, 0.0, 0.5), row(2, 0.0, 10.0), row(3, 0.0, 2.0), row(4, 0.0, 10.0)];
    let sorted = sort_processes(rows, SortOrder::Memory);
    assert_eq!(pids(&sorted), vec![2, 4, 3, 1]);
}

#[test]
fn sort_by_pid_ascending() {
    let rows = vec![row(30, 0.0, 0.0), row(2, 0.0, 0.0), row(17, 0.0, 0.0), row(1, 0.0, 0.0)];
    let sorted = sort_processes(rows, SortOrder::Pid);
    assert_eq!(pids(&sorted), vec![1, 2, 17, 30]);
}

#[test]
fn sort_empty_and_single() {
    assert!(sort_processes(Vec::new(), SortOrder::Cpu).is_empty());
    let sorted = sort_processes(vec![row(9, 1.0, 1.0)], SortOrder::Memory);
    assert_eq!(pids(&sorted), vec![9]);
}

#[test]
fn negative_zero_ties_with_zero() {
    let rows = vec![row(1, 0.0, 0.0), row(2, -0.0, 0.0), row(3, 0.0, 0.0)];
    let sorted = sort_processes(rows, SortOrder::Cpu);
    assert_eq!(pids(&sorted), vec![1, 2, 3]);
}

/// The order of the table agrees with a stable sort on the float values, for
/// values that are not NaN.
#[test]
fn sort_agrees_with_float_comparison() {
    let mut x: u64 = 12345;
    let mut next = || {
        x = x.wrapping_mul(6364136223846793005).wrapping_add(1442695040888963407);
        x
    };
    for round in 0..200 {
        let n = (next() % 40) as u32;
        let mut rows = Vec::new();
        let mut floats = Vec::new();
        for i in 0..n {
            let r = next();
            let cpu = match r % 5 {
                0 => (r % 7) as f32,
                1 => -((r % 3) as f32),
                2 => f32::from_bits((r >> 8) as u32 & 0x7f7f_ffff),
                3 => -f32::from_bits((r >> 16) as u32 & 0x7f7f_ffff),
                _ => 0.0,
            };
            let mem = ((r >> 20) % 1000) as f32 / 10.0;
            rows.push(row(i + 1 + round * 100, cpu, mem));
            floats.push((i + 1 + round * 100, cpu, mem));
        }
        let mut by_cpu = floats.clone();
        by_cpu.sort_by(|a, b| b.1.partial_cmp(&a.1).unwrap_or(std::cmp::Ordering::Equal));
        let mut by_mem = floats.clone();
        by_mem.sort_by(|a, b| b.2.partial_cmp(&a.2).unwrap_or(std::cmp::Ordering::Equal));
        let mut by_pid = floats.clone();
        by_pid.sort_by_key(|t| t.0);
        let expect = |v: &Vec<(u32, f32, f32)>| v.iter().map(|t| t.0).collect::<Vec<u32>>();
        assert_eq!(pids(&sort_processes(rows.clone(), SortOrder::Cpu)), expect(&by_cpu));
        assert_eq!(pids(&sort_processes(rows.clone(), SortOrder::Memory)), expect(&by_mem));
        assert_eq!(pids(&sort_processes(rows, SortOrder::Pid)), expect(&by_pid));
    }
}

#[test]
fn collect_process_metrics_builds_and_orders() {
    let samples = vec![sample(3, 1.0, 9.0), sample(1, 50.0, 1.0), sample(2, 2.0, 5.0)];
    let rows = collect_process_metrics(samples, 400, SortOrder::Cpu);
    assert_eq!(pids(&rows), vec![1, 2, 3]);
    assert!(rows.iter().all(|p| p.run_time == 300));
    assert_eq!(rows[0].user, "1001");
    assert_eq!(rows[1].user, "user2");
    assert_eq!(rows[0].parent_pid, 0);
    let samples = vec![sample(3, 1.0, 9.0), sample(1, 50.0, 1.0), sample(2, 2.0, 5.0)];
    let rows = collect_process_metrics(samples, 400, SortOrder::Memory);
    assert_eq!(pids(&rows), vec![3, 2, 1]);
    let samples = vec![sample(3, 1.0, 9.0), sample(1, 50.0, 1.0), sample(2, 2.0, 5.0)];
    let rows = collect_process_metrics(samples, 400, SortOrder::Pid);
    assert_eq!(pids(&rows), vec![1, 2, 3]);
}

#[test]
fn clone_keeps_fields() {
    let p = row(8, 3.0, 4.0);
    let q = p.clone();
    assert_eq!(q.pid, p.pid);
    assert_eq!(q.name, p.name);
    assert_eq!(q.user, p.user);
    assert_eq!(q.run_time, p.run_time);
}
