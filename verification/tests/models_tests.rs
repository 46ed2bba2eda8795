use sysmon::models::SortOrder;

#[test]
fn next_cycles_through_orders() {
    assert_eq!(SortOrder::Cpu.next(), SortOrder::Memory);
    assert_eq!(SortOrder::Memory.next(), SortOrder::Pid);
    assert_eq!(SortOrder::Pid.next(), SortOrder::Cpu);
    for o in [SortOrder::Cpu, SortOrder::Memory, SortOrder::Pid] {
        assert_eq!(o.next().next().next(), o);
        assert_ne!(o.next(), o);
    }
}

#[test]
fn labels() {
    assert_eq!(SortOrder::Cpu.label(), "CPU%");
    assert_eq!(SortOrder::Memory.label(), "MEM%");
    assert_eq!(SortOrder::Pid.label(), "PID");
}
