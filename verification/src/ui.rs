//! The decisions of the user interface: which row is selected, what the
//! gauges show, and what each panel says.

use vstd::prelude::*;
use crate::models::{DiskMetrics, MemoryMetrics};

verus! {

/// The state of the process table: the selected row, if any.
pub struct AppUI {
    pub selected: Option<usize>,
}

/// The row selected after moving up from `selected`.
pub open spec fn after_scroll_up(selected: Option<usize>) -> Option<usize> {
    match selected {
        None => Some(0usize),
        Some(i) => Some(if i > 0 { (i - 1) as usize } else { 0usize }),
    }
}

/// The row selected after moving down from `selected` in a table of `max`
/// rows.
pub open spec fn after_scroll_down(selected: Option<usize>, max: usize) -> Option<usize> {
    if max == 0 {
        selected
    } else {
        match selected {
            None => Some(0usize),
            Some(i) => Some(if i < max - 1 { (i + 1) as usize } else { (max - 1) as usize }),
        }
    }
}

impl AppUI {
    /// A table with no row selected.
    pub fn new() -> (r: Self)
        ensures
            r.selected is None,
    {
        AppUI { selected: None }
    }

    /// Moves the selection one row up, stopping at the first row; with no
    /// selection, selects the first row.
    pub fn scroll_up(&mut self)
        ensures
            final(self).selected == after_scroll_up(old(self).selected),
    {
        let i = match self.selected {
            None => 0,
            Some(i) => i.saturating_sub(1),
        };
        self.selected = Some(i);
    }

    /// Moves the selection one row down in a table of `max` rows, stopping at
    /// the last row; with no selection, selects the first row. An empty table
    /// leaves the selection as it is.
    pub fn scroll_down(&mut self, max: usize)
        ensures
            final(self).selected == after_scroll_down(old(self).selected, max),
    {
        if max == 0 {
            return;
        }
        let i = match self.selected {
            Some(i) => {
                if i < max - 1 {
                    i + 1
                } else {
                    max - 1
                }
            },
            None => 0,
        };
        self.selected = Some(i);
    }
}

/// Moving down in a non-empty table always selects one of its rows, and moving
/// up from there returns to the row moved from, unless that was the last.
pub proof fn lemma_scroll_down_then_up(selected: Option<usize>, max: usize)
    requires
        max > 0,
    ensures
        after_scroll_down(selected, max) matches Some(j) && j < max,
        selected matches Some(i) && i + 1 < max ==> after_scroll_up(after_scroll_down(selected, max))
            == selected,
{
}

/// Moving up from a selected row and back down returns to it, unless it was
/// the first.
pub proof fn lemma_scroll_up_then_down(i: usize, max: usize)
    requires
        0 < i < max,
    ensures
        after_scroll_down(after_scroll_up(Some(i)), max) == Some(i),
{
}

/// The whole-number percentage that `part` is of `whole`, cut to 16 bits as
/// `as u16` does; zero when `whole` is zero.
pub open spec fn percent_value(part: u64, whole: u64) -> nat {
    if whole > 0 {
        ((part * 100) / (whole as int)) as nat % 0x1_0000
    } else {
        0
    }
}

/// The percentage shown by a gauge: `part * 100 / whole`, rounded down.
pub fn percent_of(part: u64, whole: u64) -> (r: u16)
    requires
        whole == 0 || part <= u64::MAX / 100,
    ensures
        r as nat == percent_value(part, whole),
        whole > 0 ==> r as nat == (part as nat * 100 / whole as nat) % 0x1_0000,
        whole == 0 ==> r == 0,
{
    proof {
        lemma_percent_is_floor_share(part, whole);
    }
    if whole > 0 {
        let p = part * 100 / whole;
        (p % 0x1_0000) as u16
    } else {
        0
    }
}

/// The gauge percentage is the share rounded down: below 2^16, `p` is the
/// percentage exactly when `p * whole <= part * 100 < (p + 1) * whole`; and
/// half of anything is 50.
pub proof fn lemma_percent_is_floor_share(part: u64, whole: u64)
    ensures
        whole > 0 ==> percent_value(part, whole) == (part as nat * 100 / whole as nat) % 0x1_0000,
        whole > 0 && part as nat * 100 < 0x1_0000 * whole as nat ==> {
            let p = percent_value(part, whole);
            p * whole <= part * 100 < (p + 1) * whole
        },
        whole > 0 && 2 * part == whole ==> percent_value(part, whole) == 50,
        whole == 0 ==> percent_value(part, whole) == 0,
{
    if whole > 0 {
        let n = part as nat * 100;
        let w = whole as nat;
        let q = n / w;
        assert(q * w <= n < (q + 1) * w) by (nonlinear_arith)
            requires
                w > 0,
                q == n / w,
        ;
        if n < 0x1_0000 * w {
            assert(q < 0x1_0000) by (nonlinear_arith)
                requires
                    q * w <= n,
                    n < 0x1_0000 * w,
                    w > 0,
            ;
        }
        if 2 * part == whole {
            assert(n == 50 * w);
            assert(q == 50) by (nonlinear_arith)
                requires
                    w > 0,
                    n == 50 * w,
                    q * w <= n < (q + 1) * w,
            ;
        }
    }
}

/// A part never exceeds its whole, so its percentage is at most 100.
pub proof fn lemma_percent_at_most_100(part: u64, whole: u64)
    requires
        part <= whole,
    ensures
        percent_value(part, whole) <= 100,
{
    if whole > 0 {
        assert((part * 100) / (whole as int) <= 100) by (nonlinear_arith)
            requires
                part <= whole,
                whole > 0,
        ;
    }
}

/// What the memory panel shows: the share of memory in use, and the share of
/// swap in use when there is swap.
pub struct MemoryPanel {
    pub percent: u16,
    pub swap_percent: Option<u16>,
}

/// The shares that the memory panel shows.
pub fn memory_panel(mem: MemoryMetrics) -> (r: MemoryPanel)
    requires
        mem.total_bytes == 0 || mem.used_bytes <= u64::MAX / 100,
        mem.swap_total == 0 || mem.swap_used <= u64::MAX / 100,
    ensures
        r.percent as nat == percent_value(mem.used_bytes, mem.total_bytes),
        r.swap_percent == (if mem.swap_total > 0 {
            Some(percent_value(mem.swap_used, mem.swap_total) as u16)
        } else {
            None
        }),
{
    let percent = percent_of(mem.used_bytes, mem.total_bytes);
    let swap_percent = if mem.swap_total > 0 {
        Some(percent_of(mem.swap_used, mem.swap_total))
    } else {
        None
    };
    MemoryPanel { percent, swap_percent }
}

/// What the disk panel shows of the first disk: the share in use, the bytes in
/// use and in all, the mount point and the kind of disk; whether the kind is a
/// known one (SSD or HDD); and how many more disks there are.
pub struct DiskPanel {
    pub percent: u16,
    pub used: u64,
    pub total: u64,
    pub label: String,
    pub kind: String,
    pub kind_known: bool,
    pub more: Option<usize>,
}

/// Space in use on a disk: all of it less what is available, at least zero.
pub open spec fn used_space(d: DiskMetrics) -> u64 {
    if d.total_space >= d.available_space {
        (d.total_space - d.available_space) as u64
    } else {
        0
    }
}

/// The space in use and the space available make up the whole disk; a disk
/// that reports more available than its size shows nothing in use.
pub proof fn lemma_used_space_complements(d: DiskMetrics)
    ensures
        d.available_space <= d.total_space ==> used_space(d) + d.available_space == d.total_space,
        d.available_space > d.total_space ==> used_space(d) == 0,
        used_space(d) <= d.total_space,
{
}

/// The disk panel can be computed without overflow: the first disk's space in
/// use times 100 fits in 64 bits.
pub open spec fn disk_panel_fits(disks: Seq<DiskMetrics>) -> bool {
    disks.len() > 0 ==> (disks[0].total_space == 0 || used_space(disks[0]) <= u64::MAX / 100)
}

/// What the disk panel shows for a list of disks; with no disk, zeros and the
/// label `none`.
pub fn disk_panel(disks: &Vec<DiskMetrics>) -> (r: DiskPanel)
    requires
        disk_panel_fits(disks@),
    ensures
        disks.len() == 0 ==> r.percent == 0 && r.used == 0 && r.total == 0 && r.label@ == "none"@
            && r.kind@ == Seq::<char>::empty() && !r.kind_known,
        disks.len() > 0 ==> {
            let d = disks@[0];
            &&& r.total == d.total_space
            &&& r.used == used_space(d)
            &&& r.percent as nat == percent_value(used_space(d), d.total_space)
            &&& r.label@ == d.mount_point@
            &&& r.kind@ == d.disk_kind@
            &&& r.kind_known == (d.disk_kind@ == "SSD"@ || d.disk_kind@ == "HDD"@)
        },
        disks.len() > 0 && disks@[0].available_space <= disks@[0].total_space ==> r.used
            + disks@[0].available_space == disks@[0].total_space,
        disks.len() > 0 && disks@[0].available_space > disks@[0].total_space ==> r.used == 0,
        r.more == (if disks.len() > 1 {
            Some((disks.len() - 1) as usize)
        } else {
            None
        }),
{
    let more = if disks.len() > 1 {
        Some(disks.len() - 1)
    } else {
        None
    };
    if disks.len() == 0 {
        return DiskPanel {
            percent: 0,
            used: 0,
            total: 0,
            label: "none".to_owned(),
            kind: String::new(),
            kind_known: false,
            more,
        };
    }
    let d = &disks[0];
    proof {
        lemma_used_space_complements(disks@[0]);
    }
    let total = d.total_space;
    let used = d.total_space.saturating_sub(d.available_space);
    let percent = percent_of(used, total);
    let ssd = "SSD".to_owned();
    let hdd = "HDD".to_owned();
    let kind_known = d.disk_kind == ssd || d.disk_kind == hdd;
    DiskPanel {
        percent,
        used,
        total,
        label: d.mount_point.clone(),
        kind: d.disk_kind.clone(),
        kind_known,
        more,
    }
}

/// The space in use on a disk never exceeds its size, so the disk gauge never
/// goes past 100.
pub proof fn lemma_disk_percent_in_range(d: DiskMetrics)
    ensures
        percent_value(used_space(d), d.total_space) <= 100,
{
    lemma_percent_at_most_100(used_space(d), d.total_space);
}

/// The terminal is too small for the layout: under 50 columns or 18 rows.
pub fn terminal_too_small(width: u16, height: u16) -> (r: bool)
    ensures
        r == (height < 18 || width < 50),
{
    height < 18 || width < 50
}

/// The bar glyph for a core at a load level (eighths of full load, rounded):
/// one of eight block heights, levels of 7 and more giving the full block.
pub open spec fn core_glyph_text(level: usize) -> Seq<char> {
    if level == 0 {
        "▁"@
    } else if level == 1 {
        "▂"@
    } else if level == 2 {
        "▃"@
    } else if level == 3 {
        "▄"@
    } else if level == 4 {
        "▅"@
    } else if level == 5 {
        "▆"@
    } else if level == 6 {
        "▇"@
    } else {
        "█"@
    }
}

/// The bar glyph for a core at a load level.
pub fn core_glyph(level: usize) -> (r: &'static str)
    ensures
        r@ == core_glyph_text(level),
{
    let level = if level < 7 { level } else { 7 };
    match level {
        0 => "▁",
        1 => "▂",
        2 => "▃",
        3 => "▄",
        4 => "▅",
        5 => "▆",
        6 => "▇",
        _ => "█",
    }
}

/// The characters with the Unicode `White_Space` property.
pub open spec fn is_white_space(c: char) -> bool {
    let u = c as u32;
    (0x9 <= u <= 0xD) || u == 0x20 || u == 0x85 || u == 0xA0 || u == 0x1680 || (0x2000 <= u
        <= 0x200A) || u == 0x2028 || u == 0x2029 || u == 0x202F || u == 0x205F || u == 0x3000
}

fn white_space(c: char) -> (r: bool)
    ensures
        r == is_white_space(c),
{
    let u = c as u32;
    (0x9 <= u && u <= 0xD) || u == 0x20 || u == 0x85 || u == 0xA0 || u == 0x1680 || (0x2000 <= u
        && u <= 0x200A) || u == 0x2028 || u == 0x2029 || u == 0x202F || u == 0x205F || u == 0x3000
}

/// The first position at or after `i` that does not hold white space.
pub open spec fn skip_white_space(s: Seq<char>, i: int) -> int
    decreases s.len() - i,
{
    if 0 <= i < s.len() && is_white_space(s[i]) {
        skip_white_space(s, i + 1)
    } else {
        i
    }
}

/// The first position at or after `i` that holds white space, or the end.
pub open spec fn word_end(s: Seq<char>, i: int) -> int
    decreases s.len() - i,
{
    if 0 <= i < s.len() && !is_white_space(s[i]) {
        word_end(s, i + 1)
    } else {
        i
    }
}

/// The first word of a sensor label, or the whole label when it has no word.
pub open spec fn first_word(s: Seq<char>) -> Seq<char> {
    let a = skip_white_space(s, 0);
    if a >= s.len() {
        s
    } else {
        s.subrange(a, word_end(s, a))
    }
}

proof fn lemma_skip_bounds(s: Seq<char>, i: int)
    requires
        0 <= i <= s.len(),
    ensures
        i <= skip_white_space(s, i) <= s.len(),
    decreases s.len() - i,
{
    if i < s.len() && is_white_space(s[i]) {
        lemma_skip_bounds(s, i + 1);
    }
}

proof fn lemma_word_end_bounds(s: Seq<char>, i: int)
    requires
        0 <= i <= s.len(),
    ensures
        i <= word_end(s, i) <= s.len(),
    decreases s.len() - i,
{
    if i < s.len() && !is_white_space(s[i]) {
        lemma_word_end_bounds(s, i + 1);
    }
}

/// The first word of a sensor label, as the CPU panel shows it.
pub fn short_label(label: &str) -> (r: String)
    ensures
        r@ == first_word(label@),
{
    let n = label.unicode_len();
    let mut a: usize = 0;
    proof {
        lemma_skip_bounds(label@, 0);
    }
    while a < n && white_space(label.get_char(a))
        invariant
            n == label@.len(),
            a <= n,
            skip_white_space(label@, a as int) == skip_white_space(label@, 0),
        decreases n - a,
    {
        a = a + 1;
    }
    if a >= n {
        return label.to_owned();
    }
    let mut b: usize = a;
    proof {
        lemma_word_end_bounds(label@, a as int);
    }
    while b < n && !white_space(label.get_char(b))
        invariant
            n == label@.len(),
            a <= b <= n,
            word_end(label@, b as int) == word_end(label@, a as int),
        decreases n - b,
    {
        b = b + 1;
    }
    label.substring_char(a, b).to_owned()
}

} // verus!
