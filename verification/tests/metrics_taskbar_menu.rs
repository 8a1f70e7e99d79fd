use pulsebar::menu::{command_for, context_menu, startup_value, MenuCommand, MenuEntry, ID_EXIT, ID_STARTUP, ID_TASKMGR};
use pulsebar::metrics::{filetime_ticks, Load, Metrics};
use pulsebar::taskbar::{default_work_area, effective_dpi, fallback_fits_check, fallback_placement, left_of_fits_check, placement_left_of, secondary_fits_check, secondary_placement, Placement, Rect};
use pulsebar::util::scale_checked;

#[test]
fn filetime_joins_halves() {
    assert_eq!(filetime_ticks(1, 2), 0x1_0000_0002);
    assert_eq!(filetime_ticks(0, 0), 0);
    assert_eq!(filetime_ticks(u32::MAX, u32::MAX), u64::MAX);
}

#[test]
fn first_reading_only_primes_cpu() {
    let mut m = Metrics::new();
    assert_eq!(m.cpu, Load { num: 0, den: 0 });
    m.sample(Some((100, 300, 200)), None);
    assert_eq!(m.cpu, Load { num: 0, den: 0 });
    assert_eq!(m.prev, Some((100, 300, 200)));
}

#[test]
fn cpu_load_is_busy_share_of_interval() {
    let mut m = Metrics::new();
    m.sample(Some((100, 300, 200)), None);
    // kernel +100 (idle included), user +100, idle +50: 150 of 200 busy
    m.sample(Some((150, 400, 300)), None);
    assert_eq!(m.cpu, Load { num: 150, den: 200 });
}

#[test]
fn empty_interval_keeps_previous_cpu() {
    let mut m = Metrics::new();
    m.sample(Some((100, 300, 200)), None);
    m.sample(Some((150, 400, 300)), None);
    m.sample(Some((150, 400, 300)), None);
    assert_eq!(m.cpu, Load { num: 150, den: 200 });
}

#[test]
fn cpu_never_exceeds_the_interval() {
    let mut m = Metrics::new();
    m.sample(Some((0, 100, 0)), None);
    // idle grew more than kernel + user: all idle
    m.sample(Some((1000, 150, 10)), None);
    assert_eq!(m.cpu, Load { num: 0, den: 60 });
    // counters that went backwards count as no time
    m.sample(Some((0, 140, 5)), None);
    assert_eq!(m.cpu, Load { num: 0, den: 60 });
}

#[test]
fn times_fit_detects_overflowing_intervals() {
    let mut m = Metrics::new();
    assert!(m.times_fit(u64::MAX, u64::MAX));
    m.sample(Some((0, 0, 0)), None);
    assert!(m.times_fit(u64::MAX, 0));
    assert!(!m.times_fit(u64::MAX, 1));
}

#[test]
fn failed_readings_keep_previous_values() {
    let mut m = Metrics::new();
    m.sample(Some((100, 300, 200)), Some((40, 1000, 600)));
    m.sample(Some((150, 400, 300)), None);
    assert_eq!(m.mem, Load { num: 40, den: 100 });
    assert_eq!(m.mem_used_bytes, 400);
    m.sample(None, Some((50, 1000, 500)));
    assert_eq!(m.cpu, Load { num: 150, den: 200 });
    assert_eq!(m.prev, Some((150, 400, 300)));
    assert_eq!(m.mem_used_bytes, 500);
}

#[test]
fn memory_status_is_recorded() {
    let mut m = Metrics::new();
    let gib: u64 = 1 << 30;
    m.sample(None, Some((42, 16 * gib, 10 * gib)));
    assert_eq!(m.mem, Load { num: 42, den: 100 });
    assert_eq!(m.mem_total_bytes, 16 * gib);
    assert_eq!(m.mem_used_bytes, 6 * gib);
    m.sample(None, Some((3, 5, 9)));
    assert_eq!(m.mem_used_bytes, 0);
}

fn rect(left: i32, top: i32, right: i32, bottom: i32) -> Rect {
    Rect { left, top, right, bottom }
}

#[test]
fn widget_sits_left_of_notification_area() {
    let p = placement_left_of(&rect(0, 1032, 1920, 1080), 1700, 96);
    assert_eq!(p, Some(Placement { x: 1648, y: 6, w: 46, h: 36, dpi: 96 }));
}

#[test]
fn widget_scales_with_dpi() {
    // 72-pixel bar at 144 dpi: w 69, margin 9, h = 72 - 18 = 54, y = 9
    let p = placement_left_of(&rect(0, 2088, 3840, 2160), 3500, 144);
    assert_eq!(p, Some(Placement { x: 3500 - 9 - 69, y: 9, w: 69, h: 54, dpi: 144 }));
}

#[test]
fn widget_height_has_a_floor_and_a_ceiling() {
    // 20-pixel bar: 20 - 12 = 8 < 16, so 16, centred at 2
    assert_eq!(placement_left_of(&rect(0, 0, 800, 20), 500, 96), Some(Placement { x: 448, y: 2, w: 46, h: 16, dpi: 96 }));
    // 10-pixel bar: never taller than the bar
    assert_eq!(placement_left_of(&rect(0, 0, 800, 10), 500, 96), Some(Placement { x: 448, y: 0, w: 46, h: 10, dpi: 96 }));
}

#[test]
fn no_placement_without_room() {
    assert_eq!(placement_left_of(&rect(0, 100, 1920, 100), 1700, 96), None);
    assert_eq!(placement_left_of(&rect(0, 100, 1920, 90), 1700, 96), None);
    assert_eq!(placement_left_of(&rect(0, 1032, 1920, 1080), 51, 96), None);
    assert!(placement_left_of(&rect(0, 1032, 1920, 1080), 52, 96).is_some());
}

#[test]
fn placement_is_relative_to_the_tray() {
    let p = placement_left_of(&rect(1920, 1032, 3840, 1080), 3600, 96).unwrap();
    assert_eq!(p.x, 3600 - 1920 - 6 - 46);
}

#[test]
fn secondary_widget_goes_left_of_clock() {
    let tr = rect(1920, 1032, 3840, 1080);
    let with_clock = secondary_placement(&tr, Some(rect(3700, 1032, 3840, 1080)), 96).unwrap();
    assert_eq!(with_clock.x, 3700 - 1920 - 6 - 46);
    // No clock window: reserve 100 logical pixels at the right edge.
    let without = secondary_placement(&tr, None, 96).unwrap();
    assert_eq!(without.x, 3840 - 100 - 1920 - 6 - 46);
    // A clock window not right of the bar's left edge is ignored.
    let bogus = secondary_placement(&tr, Some(rect(1920, 0, 0, 0)), 96).unwrap();
    assert_eq!(bogus, without);
}

#[test]
fn fallback_goes_to_bottom_right_of_work_area() {
    assert_eq!(fallback_placement(&rect(0, 0, 1920, 1040), 96), Placement { x: 1866, y: 1004, w: 46, h: 28, dpi: 96 });
    let wa = default_work_area();
    assert_eq!(wa, rect(0, 0, 1280, 720));
    assert_eq!(fallback_placement(&wa, 144), Placement { x: 1280 - 69 - 12, y: 720 - 42 - 12, w: 69, h: 42, dpi: 144 });
}

#[test]
fn effective_dpi_falls_back_to_system() {
    assert_eq!(effective_dpi(0, 120), 120);
    assert_eq!(effective_dpi(144, 120), 144);
}

#[test]
fn menu_commands() {
    assert_eq!(command_for(ID_TASKMGR as i32), Some(MenuCommand::OpenTaskManager));
    assert_eq!(command_for(ID_STARTUP as i32), Some(MenuCommand::ToggleStartup));
    assert_eq!(command_for(ID_EXIT as i32), Some(MenuCommand::Exit));
    assert_eq!(command_for(0), None);
    assert_eq!(command_for(4), None);
    assert_eq!(command_for(-1), None);
}

#[test]
fn context_menu_entries() {
    for enabled in [true, false] {
        let m = context_menu(enabled);
        assert_eq!(m.len(), 4);
        assert_eq!(m[0], MenuEntry::Item { id: ID_TASKMGR, label: "Open &Task Manager", checked: false });
        assert_eq!(m[1], MenuEntry::Item { id: ID_STARTUP, label: "Run at &startup", checked: enabled });
        assert_eq!(m[2], MenuEntry::Separator);
        assert_eq!(m[3], MenuEntry::Item { id: ID_EXIT, label: "E&xit", checked: false });
    }
}

#[test]
fn startup_value_quotes_the_path() {
    let path: Vec<u16> = "C:\\Program Files\\pulsebar.exe".encode_utf16().collect();
    let v = startup_value(&path);
    let mut expected = vec![0x22u16];
    expected.extend_from_slice(&path);
    expected.push(0x22);
    expected.push(0);
    assert_eq!(v, expected);
    assert_eq!(startup_value(&[]), vec![0x22u16, 0x22, 0]);
}

#[test]
fn overflow_checks_accept_ordinary_screens() {
    assert!(left_of_fits_check(&rect(0, 1032, 1920, 1080), 1700, 96));
    assert!(secondary_fits_check(&rect(1920, 1032, 3840, 1080), None, 144));
    assert!(fallback_fits_check(&rect(0, 0, 1920, 1040), 96));
    // a bar with no height needs no further arithmetic
    assert!(left_of_fits_check(&rect(0, 5, 0, 5), 0, u32::MAX / 2));
}

#[test]
fn overflow_checks_reject_overflowing_inputs() {
    // bottom - top overflows
    assert!(!left_of_fits_check(&rect(0, i32::MIN, 0, i32::MAX), 0, 96));
    // 46 * dpi overflows
    assert!(!left_of_fits_check(&rect(0, 0, 100, 40), 50, 50_000_000));
    // anchor - left overflows
    assert!(!left_of_fits_check(&rect(i32::MIN, 0, 100, 40), i32::MAX, 96));
    assert!(!secondary_fits_check(&rect(0, 0, i32::MIN, 40), None, 96));
    assert!(!fallback_fits_check(&rect(0, 0, i32::MIN, 100), 96));
}

#[test]
fn scale_checked_reports_overflow() {
    assert_eq!(scale_checked(46, 144), Some(69));
    assert_eq!(scale_checked(46, 50_000_000), None);
    assert_eq!(scale_checked(-1, 96), Some(-1));
    assert_eq!(scale_checked(i32::MIN, 2), None);
    assert_eq!(scale_checked(i32::MIN, 1), Some(-22369621));
    assert_eq!(scale_checked(1, u32::MAX), Some(0));
}
