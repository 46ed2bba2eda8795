//! The process table: the record of each process and the order of the rows.

use vstd::prelude::*;
use crate::models::SortOrder;
use crate::order::{is_stable_order, lemma_stable_order_unique, orders_before, stable_order};

verus! {

/// What the collector reads of one process. Percentages are carried as the
/// bit patterns of their `f32` values; the user is the text of the owner's
/// id, if the process has one, with the name found for that id, if any.
pub struct ProcessSample {
    pub pid: u32,
    pub name: String,
    pub command: String,
    pub cpu_usage_bits: u32,
    pub memory_usage: u64,
    pub memory_percentage_bits: u32,
    pub virtual_memory: u64,
    pub user_id: Option<String>,
    pub user_name: Option<String>,
    pub status: String,
    pub parent_pid: Option<u32>,
    pub start_time: u64,
}

/// One row of the process table. Percentages are the bit patterns of their
/// `f32` values; `start_time` is in seconds since the Unix epoch and
/// `run_time` in seconds.
pub struct ProcessInfo {
    pub pid: u32,
    pub name: String,
    pub command: String,
    pub cpu_usage_bits: u32,
    pub memory_usage: u64,
    pub memory_percentage_bits: u32,
    pub virtual_memory: u64,
    pub user: String,
    pub status: String,
    pub parent_pid: u32,
    pub start_time: u64,
    pub run_time: u64,
}

impl Clone for ProcessInfo {
    fn clone(&self) -> (r: Self)
        ensures
            r == *self,
    {
        ProcessInfo {
            pid: self.pid,
            name: self.name.clone(),
            command: self.command.clone(),
            cpu_usage_bits: self.cpu_usage_bits,
            memory_usage: self.memory_usage,
            memory_percentage_bits: self.memory_percentage_bits,
            virtual_memory: self.virtual_memory,
            user: self.user.clone(),
            status: self.status.clone(),
            parent_pid: self.parent_pid,
            start_time: self.start_time,
            run_time: self.run_time,
        }
    }
}

/// A count of seconds read as a signed 64-bit number, as `as i64` does.
pub open spec fn as_i64(x: nat) -> int {
    if x <= i64::MAX {
        x as int
    } else {
        x - 0x1_0000_0000_0000_0000
    }
}

/// Seconds a process has run: from its start to now when both are positive
/// and now is later, else zero.
pub open spec fn run_time_of(start: nat, now: nat) -> nat {
    let s = as_i64(start);
    let n = as_i64(now);
    if s > 0 && n > s {
        (n - s) as nat
    } else {
        0
    }
}

/// The owner shown for a process: its user name, else the text of its user
/// id, and `?` when it has no owner.
pub open spec fn user_text(user_id: Option<String>, user_name: Option<String>) -> Seq<char> {
    match user_id {
        None => seq!['?'],
        Some(id) => match user_name {
            Some(name) => name@,
            None => id@,
        },
    }
}

/// Seconds a process has run, given its start time and the current time, both
/// in seconds since the Unix epoch.
pub fn run_time(start_time: u64, now: u64) -> (r: u64)
    ensures
        r as nat == run_time_of(start_time as nat, now as nat),
        0 < start_time < now <= i64::MAX ==> r + start_time == now,
        start_time == 0 || now <= start_time ==> r == 0,
{
    proof {
        lemma_run_time_spans_start_to_now(start_time, now);
    }
    if start_time > 0 && start_time <= i64::MAX as u64 && now <= i64::MAX as u64 && now > start_time {
        now - start_time
    } else {
        0
    }
}

/// A process started at a positive time before now has run from then to now;
/// one with no start time (zero), or starting now or later, has run zero
/// seconds; a start or a clock past the signed 64-bit range reads as negative
/// and gives zero too.
pub proof fn lemma_run_time_spans_start_to_now(start: u64, now: u64)
    ensures
        0 < start < now <= i64::MAX ==> run_time_of(start as nat, now as nat) + start == now,
        start == 0 || now <= start ==> run_time_of(start as nat, now as nat) == 0,
        start > i64::MAX || now > i64::MAX ==> run_time_of(start as nat, now as nat) == 0,
        run_time_of(start as nat, now as nat) <= now,
{
}

/// The owner is the user's name when it is known, the user id when only that
/// is known, and `?` when the process has no owner.
pub proof fn lemma_user_text_prefers_name(id: String, name: String, other: Option<String>)
    ensures
        user_text(Some(id), Some(name)) == name@,
        user_text(Some(id), None) == id@,
        user_text(None, other) == seq!['?'],
{
}

/// The owner shown for a process.
pub fn user_label(user_id: Option<String>, user_name: Option<String>) -> (r: String)
    ensures
        r@ == user_text(user_id, user_name),
{
    match user_id {
        None => {
            let mut s = String::new();
            crate::text::push_char(&mut s, '?');
            assert(s@ =~= seq!['?']);
            s
        },
        Some(id) => match user_name {
            Some(name) => name,
            None => id,
        },
    }
}

/// `p` is the row built from `s` at time `now`.
pub open spec fn row_of(s: ProcessSample, p: ProcessInfo, now: nat) -> bool {
    &&& p.pid == s.pid
    &&& p.name == s.name
    &&& p.command == s.command
    &&& p.cpu_usage_bits == s.cpu_usage_bits
    &&& p.memory_usage == s.memory_usage
    &&& p.memory_percentage_bits == s.memory_percentage_bits
    &&& p.virtual_memory == s.virtual_memory
    &&& p.user@ == user_text(s.user_id, s.user_name)
    &&& p.status == s.status
    &&& p.parent_pid == (match s.parent_pid {
        Some(pp) => pp,
        None => 0u32,
    })
    &&& p.start_time == s.start_time
    &&& p.run_time == run_time_of(s.start_time as nat, now)
}

/// Builds the row of a process at time `now` (seconds since the Unix epoch).
pub fn process_info(s: ProcessSample, now: u64) -> (p: ProcessInfo)
    ensures
        row_of(s, p, now as nat),
{
    let run = run_time(s.start_time, now);
    let parent = match s.parent_pid {
        Some(pp) => pp,
        None => 0,
    };
    let user = user_label(s.user_id, s.user_name);
    ProcessInfo {
        pid: s.pid,
        name: s.name,
        command: s.command,
        cpu_usage_bits: s.cpu_usage_bits,
        memory_usage: s.memory_usage,
        memory_percentage_bits: s.memory_percentage_bits,
        virtual_memory: s.virtual_memory,
        user,
        status: s.status,
        parent_pid: parent,
        start_time: s.start_time,
        run_time: run,
    }
}

/// The IEEE 754 bit pattern of an `f32` read as sign and magnitude. For two
/// patterns that are not NaN this orders them as the numbers they encode
/// (both zeros map to 0).
pub open spec fn signed_magnitude(bits: u32) -> int {
    if bits >= 0x8000_0000 {
        -(bits - 0x8000_0000)
    } else {
        bits as int
    }
}

/// The key by which the table is sorted ascending: CPU and memory use in
/// descending order of their values, the PID ascending.
pub open spec fn row_key(cpu_bits: u32, mem_bits: u32, pid: u32, order: SortOrder) -> int {
    match order {
        SortOrder::Cpu => 0x8000_0000 - signed_magnitude(cpu_bits),
        SortOrder::Memory => 0x8000_0000 - signed_magnitude(mem_bits),
        SortOrder::Pid => pid as int,
    }
}

/// The sort key of a row.
pub open spec fn info_key(p: ProcessInfo, order: SortOrder) -> int {
    row_key(p.cpu_usage_bits, p.memory_percentage_bits, p.pid, order)
}

/// The sort key of a sample.
pub open spec fn sample_key(s: ProcessSample, order: SortOrder) -> int {
    row_key(s.cpu_usage_bits, s.memory_percentage_bits, s.pid, order)
}

/// The keys of a table.
pub open spec fn info_keys(rows: Seq<ProcessInfo>, order: SortOrder) -> Seq<int> {
    rows.map_values(|p: ProcessInfo| info_key(p, order))
}

/// The keys of a list of samples.
pub open spec fn sample_keys(samples: Seq<ProcessSample>, order: SortOrder) -> Seq<int> {
    samples.map_values(|s: ProcessSample| sample_key(s, order))
}

/// `output` holds the rows of `input` as a stable sort by key places them.
pub open spec fn is_sorted_table(input: Seq<ProcessInfo>, output: Seq<ProcessInfo>, order: SortOrder) -> bool {
    exists|perm: Seq<int>|
        #[trigger] is_stable_order(info_keys(input, order), perm) && output.len() == input.len()
            && forall|i: int| 0 <= i < output.len() ==> output[i] == input[perm[i]]
}

fn key_of_float(bits: u32) -> (r: u64)
    ensures
        r as int == 0x8000_0000 - signed_magnitude(bits),
{
    if bits >= 0x8000_0000 {
        bits as u64
    } else {
        0x8000_0000u64 - bits as u64
    }
}

fn row_key_exec(p: &ProcessInfo, order: SortOrder) -> (r: u64)
    ensures
        r as int == info_key(*p, order),
{
    match order {
        SortOrder::Cpu => key_of_float(p.cpu_usage_bits),
        SortOrder::Memory => key_of_float(p.memory_percentage_bits),
        SortOrder::Pid => p.pid as u64,
    }
}

/// Orders the table as the chosen column asks: CPU and memory use from the
/// highest down, PIDs from the lowest up; rows that compare equal keep their
/// order.
pub fn sort_processes(rows: Vec<ProcessInfo>, order: SortOrder) -> (r: Vec<ProcessInfo>)
    ensures
        is_sorted_table(rows@, r@, order),
        r.len() == rows.len(),
        order == SortOrder::Pid ==> forall|i: int, j: int|
            0 <= i < j < r.len() ==> (#[trigger] r@[i]).pid <= (#[trigger] r@[j]).pid,
        order == SortOrder::Cpu ==> forall|i: int, j: int|
            0 <= i < j < r.len() ==> float_bits_at_least(
                (#[trigger] r@[i]).cpu_usage_bits,
                (#[trigger] r@[j]).cpu_usage_bits,
            ),
        order == SortOrder::Memory ==> forall|i: int, j: int|
            0 <= i < j < r.len() ==> float_bits_at_least(
                (#[trigger] r@[i]).memory_percentage_bits,
                (#[trigger] r@[j]).memory_percentage_bits,
            ),
{
    let n = rows.len();
    let mut keys: Vec<u64> = Vec::new();
    let mut i: usize = 0;
    while i < n
        invariant
            n == rows.len(),
            i <= n,
            keys.len() == i,
            forall|j: int| 0 <= j < i ==> #[trigger] keys@[j] as int == info_key(rows@[j], order),
        decreases n - i,
    {
        keys.push(row_key_exec(&rows[i], order));
        i = i + 1;
    }
    let perm = stable_order(&keys);
    let ghost ks = keys@.map_values(|k: u64| k as int);
    let ghost ps = perm@.map_values(|j: usize| j as int);
    assert(ks =~= info_keys(rows@, order));
    let mut out: Vec<ProcessInfo> = Vec::new();
    let mut k: usize = 0;
    while k < n
        invariant
            n == rows.len(),
            perm.len() == n,
            ps == perm@.map_values(|j: usize| j as int),
            is_stable_order(info_keys(rows@, order), ps),
            k <= n,
            out.len() == k,
            forall|j: int| 0 <= j < k ==> #[trigger] out@[j] == rows@[ps[j]],
        decreases n - k,
    {
        assert(0 <= ps[k as int] < n);
        let row = rows[perm[k]].clone();
        out.push(row);
        k = k + 1;
    }
    assert(is_stable_order(info_keys(rows@, order), ps));
    proof {
        assert(is_sorted_table(rows@, out@, order));
        assert forall|i: int, j: int| 0 <= i < j < out.len() implies {
            &&& order == SortOrder::Pid ==> (#[trigger] out@[i]).pid <= (#[trigger] out@[j]).pid
            &&& order == SortOrder::Cpu ==> float_bits_at_least(out@[i].cpu_usage_bits, out@[j].cpu_usage_bits)
            &&& order == SortOrder::Memory ==> float_bits_at_least(
                out@[i].memory_percentage_bits,
                out@[j].memory_percentage_bits,
            )
        } by {
            lemma_table_order(rows@, out@, order, i, j);
        }
    }
    out
}

/// `a` and `b` are `f32` bit patterns, and the number that `a` encodes is at
/// least the number that `b` encodes, when neither is NaN: patterns with the
/// sign bit set are negative with the magnitude of the low 31 bits, the
/// others non-negative, and both zeros are equal.
pub open spec fn float_bits_at_least(a: u32, b: u32) -> bool {
    let va: int = if a >= 0x8000_0000 { 0x8000_0000 - (a as int) } else { a as int };
    let vb: int = if b >= 0x8000_0000 { 0x8000_0000 - (b as int) } else { b as int };
    va >= vb
}

/// Down a sorted table, PIDs never fall when ordered by PID (compared as full
/// 32-bit values), and CPU or memory use never rises when ordered by it.
pub proof fn lemma_table_order(input: Seq<ProcessInfo>, output: Seq<ProcessInfo>, order: SortOrder, i: int, j: int)
    requires
        is_sorted_table(input, output, order),
        0 <= i < j < output.len(),
    ensures
        order == SortOrder::Pid ==> output[i].pid <= output[j].pid,
        order == SortOrder::Cpu ==> float_bits_at_least(output[i].cpu_usage_bits, output[j].cpu_usage_bits),
        order == SortOrder::Memory ==> float_bits_at_least(
            output[i].memory_percentage_bits,
            output[j].memory_percentage_bits,
        ),
{
    lemma_sorted_table_ascends(input, output, order, i, j);
}

/// Rows that are equal in the sorted column keep their input order: a row
/// that came first in the input comes first in the table.
pub proof fn lemma_table_stable(input: Seq<ProcessInfo>, output: Seq<ProcessInfo>, order: SortOrder)
    requires
        is_sorted_table(input, output, order),
    ensures
        exists|perm: Seq<int>|
            {
                &&& perm.len() == output.len()
                &&& forall|i: int| 0 <= i < perm.len() ==> 0 <= #[trigger] perm[i] < input.len()
                    && output[i] == input[perm[i]]
                &&& forall|i: int, j: int|
                    0 <= i < j < perm.len() && same_in_column(#[trigger] output[i], #[trigger] output[j], order)
                        ==> perm[i] < perm[j]
            },
{
    let perm = choose|perm: Seq<int>|
        #[trigger] is_stable_order(info_keys(input, order), perm) && output.len() == input.len()
            && forall|i: int| 0 <= i < output.len() ==> output[i] == input[perm[i]];
    assert forall|i: int, j: int|
        0 <= i < j < perm.len() && same_in_column(#[trigger] output[i], #[trigger] output[j], order)
            implies perm[i] < perm[j] by {
        assert(orders_before(info_keys(input, order), perm[i], perm[j]));
    }
}

/// Two rows are equal in the sorted column: the same PID, or CPU (memory)
/// percentages that encode the same number.
pub open spec fn same_in_column(a: ProcessInfo, b: ProcessInfo, order: SortOrder) -> bool {
    match order {
        SortOrder::Pid => a.pid == b.pid,
        SortOrder::Cpu => float_bits_at_least(a.cpu_usage_bits, b.cpu_usage_bits) && float_bits_at_least(
            b.cpu_usage_bits,
            a.cpu_usage_bits,
        ),
        SortOrder::Memory => float_bits_at_least(a.memory_percentage_bits, b.memory_percentage_bits)
            && float_bits_at_least(b.memory_percentage_bits, a.memory_percentage_bits),
    }
}

/// `rows` holds one row per sample, built at time `now`, in the order of a
/// stable sort of the samples by key.
pub open spec fn is_process_table(samples: Seq<ProcessSample>, rows: Seq<ProcessInfo>, now: nat, order: SortOrder) -> bool {
    exists|perm: Seq<int>|
        #[trigger] is_stable_order(sample_keys(samples, order), perm) && rows.len() == samples.len()
            && forall|i: int| 0 <= i < rows.len() ==> row_of(samples[perm[i]], rows[i], now)
}

/// Builds the process table from the samples read at time `now` (seconds since
/// the Unix epoch), ordered as `order` asks.
pub fn collect_process_metrics(samples: Vec<ProcessSample>, now: u64, order: SortOrder) -> (r: Vec<ProcessInfo>)
    ensures
        is_process_table(samples@, r@, now as nat, order),
        r.len() == samples.len(),
        order == SortOrder::Pid ==> forall|i: int, j: int|
            0 <= i < j < r.len() ==> (#[trigger] r@[i]).pid <= (#[trigger] r@[j]).pid,
        order == SortOrder::Cpu ==> forall|i: int, j: int|
            0 <= i < j < r.len() ==> float_bits_at_least(
                (#[trigger] r@[i]).cpu_usage_bits,
                (#[trigger] r@[j]).cpu_usage_bits,
            ),
        order == SortOrder::Memory ==> forall|i: int, j: int|
            0 <= i < j < r.len() ==> float_bits_at_least(
                (#[trigger] r@[i]).memory_percentage_bits,
                (#[trigger] r@[j]).memory_percentage_bits,
            ),
{
    let ghost all = samples@;
    let n = samples.len();
    let mut rest = samples;
    let mut rows: Vec<ProcessInfo> = Vec::new();
    let mut i: usize = 0;
    while i < n
        invariant
            n == all.len(),
            i <= n,
            rest@ == all.subrange(i as int, n as int),
            rows.len() == i,
            forall|j: int| 0 <= j < i ==> row_of(all[j], #[trigger] rows@[j], now as nat),
        decreases n - i,
    {
        let s = rest.remove(0);
        assert(s == all[i as int]);
        rows.push(process_info(s, now));
        i = i + 1;
        assert(rest@ =~= all.subrange(i as int, n as int));
    }
    let ghost built = rows@;
    let sorted = sort_processes(rows, order);
    proof {
        let p = choose|perm: Seq<int>|
            #[trigger] is_stable_order(info_keys(built, order), perm) && sorted@.len() == built.len()
                && forall|i: int| 0 <= i < sorted@.len() ==> sorted@[i] == built[perm[i]];
        assert(info_keys(built, order) =~= sample_keys(all, order)) by {
            assert forall|j: int| 0 <= j < n implies #[trigger] info_keys(built, order)[j] == sample_keys(all, order)[j] by {
                assert(row_of(all[j], built[j], now as nat));
            }
        }
        assert forall|j: int| 0 <= j < sorted@.len() implies row_of(all[p[j]], #[trigger] sorted@[j], now as nat) by {
            assert(0 <= p[j] < n);
            assert(row_of(all[p[j]], built[p[j]], now as nat));
        }
        assert(is_stable_order(sample_keys(all, order), p));
    }
    sorted
}

/// In a process table ordered by PID, PIDs never fall down the table,
/// compared as full 32-bit values; ordered by CPU or memory use, the use never
/// rises.
pub proof fn lemma_process_table_order(
    samples: Seq<ProcessSample>,
    rows: Seq<ProcessInfo>,
    now: nat,
    order: SortOrder,
    i: int,
    j: int,
)
    requires
        is_process_table(samples, rows, now, order),
        0 <= i < j < rows.len(),
    ensures
        order == SortOrder::Pid ==> rows[i].pid <= rows[j].pid,
        order == SortOrder::Cpu ==> float_bits_at_least(rows[i].cpu_usage_bits, rows[j].cpu_usage_bits),
        order == SortOrder::Memory ==> float_bits_at_least(
            rows[i].memory_percentage_bits,
            rows[j].memory_percentage_bits,
        ),
{
    let perm = choose|perm: Seq<int>|
        #[trigger] is_stable_order(sample_keys(samples, order), perm) && rows.len() == samples.len()
            && forall|i: int| 0 <= i < rows.len() ==> row_of(samples[perm[i]], rows[i], now);
    assert(orders_before(sample_keys(samples, order), perm[i], perm[j]));
    assert(row_of(samples[perm[i]], rows[i], now));
    assert(row_of(samples[perm[j]], rows[j], now));
}

/// A sorted table is in ascending key order: CPU and memory use never rise
/// down the table, PIDs never fall.
pub proof fn lemma_sorted_table_ascends(input: Seq<ProcessInfo>, output: Seq<ProcessInfo>, order: SortOrder, i: int, j: int)
    requires
        is_sorted_table(input, output, order),
        0 <= i < j < output.len(),
    ensures
        info_key(output[i], order) <= info_key(output[j], order),
{
    let perm = choose|perm: Seq<int>|
        #[trigger] is_stable_order(info_keys(input, order), perm) && output.len() == input.len()
            && forall|i: int| 0 <= i < output.len() ==> output[i] == input[perm[i]];
    assert(orders_before(info_keys(input, order), perm[i], perm[j]));
}

/// Sorting a table neither drops nor adds rows: the output has the length of
/// the input, holds every input row, and takes no input position twice.
pub proof fn lemma_sorted_table_keeps_rows(input: Seq<ProcessInfo>, output: Seq<ProcessInfo>, order: SortOrder)
    requires
        is_sorted_table(input, output, order),
    ensures
        output.len() == input.len(),
        forall|k: int| 0 <= k < input.len() ==> output.contains(#[trigger] input[k]),
        exists|perm: Seq<int>|
            {
                &&& perm.len() == input.len()
                &&& forall|i: int| 0 <= i < perm.len() ==> 0 <= #[trigger] perm[i] < input.len()
                    && output[i] == input[perm[i]]
                &&& forall|i: int, j: int| 0 <= i < j < perm.len() ==> #[trigger] perm[i] != #[trigger] perm[j]
            },
{
    let perm = choose|perm: Seq<int>|
        #[trigger] is_stable_order(info_keys(input, order), perm) && output.len() == input.len()
            && forall|i: int| 0 <= i < output.len() ==> output[i] == input[perm[i]];
    assert forall|k: int| 0 <= k < input.len() implies output.contains(#[trigger] input[k]) by {
        assert(perm.contains(k));
        let i = choose|i: int| 0 <= i < perm.len() && perm[i] == k;
        assert(output[i] == input[k]);
    }
    assert forall|i: int, j: int| 0 <= i < j < perm.len() implies #[trigger] perm[i] != #[trigger] perm[j] by {
        assert(orders_before(info_keys(input, order), perm[i], perm[j]));
    }
}

/// Sorting a table has one outcome.
pub proof fn lemma_sorted_table_unique(input: Seq<ProcessInfo>, a: Seq<ProcessInfo>, b: Seq<ProcessInfo>, order: SortOrder)
    requires
        is_sorted_table(input, a, order),
        is_sorted_table(input, b, order),
    ensures
        a == b,
{
    let p = choose|perm: Seq<int>|
        #[trigger] is_stable_order(info_keys(input, order), perm) && a.len() == input.len()
            && forall|i: int| 0 <= i < a.len() ==> a[i] == input[perm[i]];
    let q = choose|perm: Seq<int>|
        #[trigger] is_stable_order(info_keys(input, order), perm) && b.len() == input.len()
            && forall|i: int| 0 <= i < b.len() ==> b[i] == input[perm[i]];
    lemma_stable_order_unique(info_keys(input, order), p, q);
    assert(a =~= b);
}

} // verus!
