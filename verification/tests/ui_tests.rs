use sysmon::models::{DiskMetrics, MemoryMetrics};
use sysmon::ui::{
    core_glyph, disk_panel, memory_panel, percent_of, short_label, terminal_too_small, AppUI,
};

#[test]
fn scrolling() {
    let mut ui = AppUI::new();
    assert_eq!(ui.selected, None);
    ui.scroll_down(0);
    assert_eq!(ui.selected, None);
    ui.scroll_up();
    assert_eq!(ui.selected, Some(0));
    ui.scroll_up();
    assert_eq!(ui.selected, Some(0));
    let mut ui = AppUI::new();
    ui.scroll_down(3);
    assert_eq!(ui.selected, Some(0));
    ui.scroll_down(3);
    ui.scroll_down(3);
    assert_eq!(ui.selected, Some(2));
    ui.scroll_down(3);
    assert_eq!(ui.selected, Some(2));
    ui.scroll_up();
    assert_eq!(ui.selected, Some(1));
    ui.scroll_down(3);
    assert_eq!(ui.selected, Some(2));
    ui.selected = Some(10);
    ui.scroll_down(4);
    assert_eq!(ui.selected, Some(3));
}

#[test]
fn percentages() {
    assert_eq!(percent_of(0, 0), 0);
    assert_eq!(percent_of(5, 0), 0);
    assert_eq!(percent_of(50, 200), 25);
    assert_eq!(percent_of(199, 200), 99);
    assert_eq!(percent_of(200, 200), 100);
    assert_eq!(percent_of(300, 200), 150);
    assert_eq!(percent_of(700, 1), (70000u64 % 65536) as u16);
    for (part, whole) in [(1u64, 3u64), (2, 3), (17, 1000), (999, 1000), (123456789, 987654321)] {
        assert!(percent_of(part, whole) <= 100);
        assert_eq!(percent_of(part, whole) as u64, part * 100 / whole);
    }
}

#[test]
fn memory_panel_shares() {
    let m = MemoryMetrics { total_bytes: 1000, used_bytes: 250, available_bytes: 750, swap_total: 0, swap_used: 0 };
    let p = memory_panel(m);
    assert_eq!(p.percent, 25);
    assert_eq!(p.swap_percent, None);
    let m = MemoryMetrics { total_bytes: 0, used_bytes: 0, available_bytes: 0, swap_total: 400, swap_used: 100 };
    let p = memory_panel(m);
    assert_eq!(p.percent, 0);
    assert_eq!(p.swap_percent, Some(25));
}

fn disk(mount: &str, total: u64, available: u64, kind: &str) -> DiskMetrics {
    DiskMetrics {
        name: "sda1".to_string(),
        file_system: "ext4".to_string(),
        mount_point: mount.to_string(),
        total_space: total,
        available_space: available,
        is_removable: false,
        is_read_only: false,
        disk_kind: kind.to_string(),
    }
}

#[test]
fn disk_panel_cases() {
    let p = disk_panel(&Vec::new());
    assert_eq!((p.percent, p.used, p.total), (0, 0, 0));
    assert_eq!(p.label, "none");
    assert_eq!(p.kind, "");
    assert!(!p.kind_known);
    assert_eq!(p.more, None);

    let p = disk_panel(&vec![disk("/", 1000, 400, "SSD")]);
    assert_eq!((p.percent, p.used, p.total), (60, 600, 1000));
    assert_eq!(p.label, "/");
    assert_eq!(p.kind, "SSD");
    assert!(p.kind_known);
    assert_eq!(p.more, None);

    let p = disk_panel(&vec![disk("/home", 100, 200, "Unknown(-1)"), disk("/", 1, 1, "HDD"), disk("/b", 1, 1, "HDD")]);
    assert_eq!((p.percent, p.used, p.total), (0, 0, 100));
    assert!(!p.kind_known);
    assert_eq!(p.more, Some(2));

    let p = disk_panel(&vec![disk("/x", 0, 0, "HDD")]);
    assert_eq!(p.percent, 0);
    assert!(p.kind_known);
}

#[test]
fn terminal_size_threshold() {
    assert!(terminal_too_small(49, 40));
    assert!(terminal_too_small(120, 17));
    assert!(!terminal_too_small(50, 18));
    assert!(!terminal_too_small(200, 60));
}

#[test]
fn core_glyphs() {
    let glyphs = ["▁", "▂", "▃", "▄", "▅", "▆", "▇", "█"];
    for level in 0..8usize {
        assert_eq!(core_glyph(level), glyphs[level]);
    }
    assert_eq!(core_glyph(8), "█");
    assert_eq!(core_glyph(usize::MAX), "█");
}

fn first_word_by_std(label: &str) -> String {
    label.split_whitespace().next().unwrap_or(label).to_string()
}

#[test]
fn short_labels() {
    assert_eq!(short_label("coretemp Package id 0"), "coretemp");
    assert_eq!(short_label("  acpitz  temp1"), "acpitz");
    assert_eq!(short_label(""), "");
    assert_eq!(short_label("   "), "   ");
    assert_eq!(short_label("nvme"), "nvme");
    for label in ["a b", "\tx\ny", "é ü", "x\u{3000}y", " \u{85}z", "\u{a0}", "w\u{2028}"] {
        assert_eq!(short_label(label), first_word_by_std(label));
    }
}

#[test]
fn white_space_matches_std_for_every_char() {
    for u in 0u32..=0x10FFFF {
        if let Some(c) = char::from_u32(u) {
            let label = format!("a{}b", c);
            assert_eq!(short_label(&label), first_word_by_std(&label), "char {:#x}", u);
        }
    }
}
