//! The data model shared by the collectors and the user interface.

use vstd::prelude::*;

verus! {

/// Identity of the machine, shown in the header.
#[derive(Debug, Clone, Default)]
pub struct SystemInfo {
    pub hostname: String,
    pub os_name: String,
    pub kernel_version: String,
    pub cpu_arch: String,
    pub uptime: u64,
    pub boot_time: u64,
}

/// One mounted disk.
#[derive(Debug, Clone, Default)]
pub struct DiskMetrics {
    pub name: String,
    pub file_system: String,
    pub mount_point: String,
    pub total_space: u64,
    pub available_space: u64,
    pub is_removable: bool,
    pub is_read_only: bool,
    pub disk_kind: String,
}

/// Memory and swap use, in bytes.
#[derive(Debug, Clone, Copy, Default, PartialEq, Eq, Structural)]
pub struct MemoryMetrics {
    pub total_bytes: u64,
    pub used_bytes: u64,
    pub available_bytes: u64,
    pub swap_total: u64,
    pub swap_used: u64,
}

/// The key by which the process table is ordered.
#[derive(Debug, Clone, Copy, PartialEq, Eq, Structural)]
pub enum SortOrder {
    Cpu,
    Memory,
    Pid,
}

/// The order that follows `o` when the user cycles through the orders.
pub open spec fn next_order(o: SortOrder) -> SortOrder {
    match o {
        SortOrder::Cpu => SortOrder::Memory,
        SortOrder::Memory => SortOrder::Pid,
        SortOrder::Pid => SortOrder::Cpu,
    }
}

/// The column heading shown for an order.
pub open spec fn order_label(o: SortOrder) -> Seq<char> {
    match o {
        SortOrder::Cpu => "CPU%"@,
        SortOrder::Memory => "MEM%"@,
        SortOrder::Pid => "PID"@,
    }
}

impl SortOrder {
    /// Cycles CPU -> memory -> PID -> CPU.
    pub fn next(self) -> (r: Self)
        ensures
            r == next_order(self),
    {
        match self {
            SortOrder::Cpu => SortOrder::Memory,
            SortOrder::Memory => SortOrder::Pid,
            SortOrder::Pid => SortOrder::Cpu,
        }
    }

    /// The heading of the column that the order sorts by.
    pub fn label(self) -> (r: &'static str)
        ensures
            r@ == order_label(self),
    {
        match self {
            SortOrder::Cpu => "CPU%",
            SortOrder::Memory => "MEM%",
            SortOrder::Pid => "PID",
        }
    }
}

/// Cycling three times through the orders comes back to the start, and no
/// order is its own successor.
pub proof fn lemma_next_cycles(o: SortOrder)
    ensures
        next_order(next_order(next_order(o))) == o,
        next_order(o) != o,
{
}

/// Each order has a heading of its own.
pub proof fn lemma_labels_distinct(a: SortOrder, b: SortOrder)
    ensures
        a != b ==> order_label(a) != order_label(b),
{
    reveal_strlit("CPU%");
    reveal_strlit("MEM%");
    reveal_strlit("PID");
    if a != b {
        match (a, b) {
            (SortOrder::Cpu, SortOrder::Memory) | (SortOrder::Memory, SortOrder::Cpu) => {
                assert(order_label(a)[0] != order_label(b)[0]);
            },
            (SortOrder::Pid, _) | (_, SortOrder::Pid) => {
                assert(order_label(a).len() != order_label(b).len());
            },
            _ => {},
        }
    }
}

} // verus!
