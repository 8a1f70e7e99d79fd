use pulsebar::metrics::Load;
use pulsebar::taskbar::{fallback_placement, placement_left_of, Placement, Rect};
use pulsebar::util::wide;
use pulsebar::window::{
    immersive_color_set_name, is_immersive_color_set, placement_is_drawable, App, Mode, Next, SlotStep, TickStep,
    MAX_ATTACH_FAILS, REATTACH_INTERVAL,
};

fn pl(x: i32, w: i32, h: i32, dpi: u32) -> Placement {
    Placement { x, y: 6, w, h, dpi }
}

fn attached_app() -> App {
    let mut app = App::new(0xC123, false);
    let (next, released) = app.ensure_widget(false);
    assert_eq!(next, Next::Attach);
    assert!(released.is_none());
    assert_eq!(app.attach_finished(Some((10, 11, pl(1648, 46, 36, 96)))), Next::Render);
    app
}

#[test]
fn new_app_starts_on_the_taskbar() {
    let app = App::new(0xC123, true);
    assert_eq!(app.taskbar_created_msg, 0xC123);
    assert_eq!(app.mode, Mode::Taskbar);
    assert_eq!(app.attach_fails, 0);
    assert!(app.widget.is_none());
    assert!(app.secondary.is_empty());
    assert!(app.light_theme);
    assert_eq!(app.metrics.cpu, Load { num: 0, den: 0 });
    assert_eq!(app.metrics.mem_used_bytes, 0);
    assert_eq!(app.metrics.mem_total_bytes, 0);
}

#[test]
fn live_widget_is_kept() {
    let mut app = attached_app();
    let (next, released) = app.ensure_widget(true);
    assert_eq!(next, Next::Nothing);
    assert!(released.is_none());
    assert_eq!(app.widget.as_ref().unwrap().window, 10);
}

#[test]
fn dead_widget_is_released_and_reattached() {
    let mut app = attached_app();
    let (next, released) = app.ensure_widget(false);
    assert_eq!(next, Next::Attach);
    let w = released.unwrap();
    assert_eq!((w.window, w.tooltip), (10, 11));
    assert!(app.widget.is_none());
}

#[test]
fn attach_creates_a_blank_surface_of_the_placement_size() {
    let app = attached_app();
    let w = app.widget.as_ref().unwrap();
    assert_eq!(w.placement, pl(1648, 46, 36, 96));
    let r = w.renderer.as_ref().unwrap();
    assert_eq!((r.width(), r.height()), (46, 36));
    assert!(r.pixels().iter().all(|&p| p == 0));
}

#[test]
fn third_attach_failure_switches_to_fallback() {
    let mut app = App::new(1, false);
    for k in 1..MAX_ATTACH_FAILS {
        assert_eq!(app.ensure_widget(false).0, Next::Attach);
        assert_eq!(app.attach_finished(None), Next::Nothing);
        assert_eq!(app.attach_fails, k);
        assert_eq!(app.mode, Mode::Taskbar);
    }
    assert_eq!(app.ensure_widget(false).0, Next::Attach);
    assert_eq!(app.attach_finished(None), Next::CreateFallback);
    assert_eq!(app.mode, Mode::Fallback);
    assert_eq!(app.attach_fails, MAX_ATTACH_FAILS);
    // Fallback mode asks for the compatibility window from then on.
    assert_eq!(app.ensure_widget(false).0, Next::CreateFallback);
}

fn fallback_app() -> App {
    let mut app = App::new(1, false);
    for _ in 0..MAX_ATTACH_FAILS {
        app.ensure_widget(false);
        app.attach_finished(None);
    }
    assert_eq!(app.fallback_created(Some((20, 21)), pl(1866, 46, 28, 96)), Next::Render);
    app
}

#[test]
fn failed_fallback_window_changes_nothing() {
    let mut app = App::new(1, false);
    for _ in 0..MAX_ATTACH_FAILS {
        app.ensure_widget(false);
        app.attach_finished(None);
    }
    assert_eq!(app.fallback_created(None, pl(1866, 46, 28, 96)), Next::Nothing);
    assert!(app.widget.is_none());
    assert_eq!(app.mode, Mode::Fallback);
}

#[test]
fn fallback_reattaches_only_every_interval() {
    let mut app = fallback_app();
    assert_eq!(app.reattach_countdown, REATTACH_INTERVAL);
    for _ in 0..REATTACH_INTERVAL {
        assert!(!app.reattach_due());
        let (next, released) = app.tick_fallback(true);
        assert_eq!(next, Next::Nothing);
        assert!(released.is_none());
    }
    assert!(app.reattach_due());
    // Taskbar still missing: the next look is REATTACH_INTERVAL ticks later.
    assert_eq!(app.tick_fallback(false).0, Next::Nothing);
    let mut quiet = 0;
    while !app.reattach_due() {
        app.tick_fallback(false);
        quiet += 1;
    }
    assert_eq!(quiet + 1, REATTACH_INTERVAL);
    // And so on while the taskbar stays missing.
    app.tick_fallback(false);
    for _ in 0..REATTACH_INTERVAL - 1 {
        assert!(!app.reattach_due());
        app.tick_fallback(false);
    }
    assert!(app.reattach_due());
    // Taskbar back: drop the compatibility widget and attach.
    let (next, released) = app.tick_fallback(true);
    assert_eq!(next, Next::Attach);
    assert_eq!(released.unwrap().window, 20);
    assert_eq!(app.mode, Mode::Taskbar);
    assert_eq!(app.attach_fails, 0);
    assert_eq!(app.attach_finished(Some((30, 31, pl(1648, 46, 36, 96)))), Next::Render);
    assert_eq!(app.mode, Mode::Taskbar);
}

#[test]
fn tick_step_follows_mode() {
    let mut app = App::new(1, false);
    assert_eq!(app.tick_step(), TickStep::Nothing);
    app.ensure_widget(false);
    app.attach_finished(Some((10, 11, pl(1648, 46, 36, 96))));
    assert_eq!(app.tick_step(), TickStep::FollowTaskbar);
    let f = fallback_app();
    assert_eq!(f.tick_step(), TickStep::TickFallback);
}

#[test]
fn repeated_present_failures_fall_back() {
    let mut app = attached_app();
    assert!(app.primary_presented(false).is_none());
    assert!(app.primary_presented(true).is_none());
    assert_eq!(app.present_fails, 0);
    assert!(app.primary_presented(false).is_none());
    assert!(app.primary_presented(false).is_none());
    assert_eq!(app.mode, Mode::Taskbar);
    let released = app.primary_presented(false);
    assert_eq!(released.unwrap().window, 10);
    assert_eq!(app.mode, Mode::Fallback);
    assert!(app.widget.is_none());
    assert_eq!(app.ensure_widget(false).0, Next::CreateFallback);
}

#[test]
fn present_failures_in_fallback_keep_the_widget() {
    let mut app = fallback_app();
    for _ in 0..5 {
        assert!(app.primary_presented(false).is_none());
    }
    assert_eq!(app.mode, Mode::Fallback);
    assert!(app.widget.is_some());
}

#[test]
fn placement_changes_are_followed() {
    let mut app = attached_app();
    assert!(!app.sync_placement(pl(1648, 46, 36, 96)));
    // Move only: the surface is kept.
    assert!(app.sync_placement(pl(1600, 46, 36, 96)));
    assert_eq!(app.widget.as_ref().unwrap().placement.x, 1600);
    // Resize: a new surface of the new size.
    assert!(app.sync_placement(pl(1600, 69, 54, 144)));
    let r = app.widget.as_ref().unwrap().renderer.as_ref().unwrap();
    assert_eq!((r.width(), r.height()), (69, 54));
}

#[test]
fn render_draws_the_current_loads() {
    let mut app = attached_app();
    app.metrics.sample(None, Some((95, 100, 5)));
    app.render_now();
    let r = app.widget.as_ref().unwrap().renderer.as_ref().unwrap();
    assert!(r.pixels().iter().all(|&p| (p >> 24) > 0));
    let red = pulsebar::render::premul(pulsebar::theme::palette(false).warn_hi);
    assert!(r.pixels().iter().any(|&p| p == red));
}

#[test]
fn theme_reload_reports_changes_only() {
    let mut app = App::new(1, false);
    assert!(app.reload_theme(true));
    assert!(app.light_theme);
    assert!(!app.reload_theme(true));
    assert!(app.reload_theme(false));
}

#[test]
fn secondary_slots_follow_the_taskbars() {
    let mut app = attached_app();
    let released = app.sync_secondary_slots(&vec![100, 200, 100], &vec![], &vec![]);
    assert!(released.is_empty());
    let trays: Vec<usize> = app.secondary.iter().map(|s| s.tray).collect();
    assert_eq!(trays, vec![100, 200]);
    // New slots attach on their first tick.
    assert_eq!(app.secondary_step(0), SlotStep::Attach);
    app.secondary_attached(0, Some((101, 102, pl(1000, 46, 36, 96))));
    assert_eq!(app.secondary_step(0), SlotStep::Follow);
    assert_eq!(app.secondary_step(1), SlotStep::Attach);
    app.secondary_attached(1, None);
    assert_eq!(app.secondary[1].cooldown, REATTACH_INTERVAL);
    assert_eq!(app.secondary_step(1), SlotStep::Wait);
    assert_eq!(app.secondary[1].cooldown, REATTACH_INTERVAL - 1);
    // Taskbar 200 vanishes, 300 appears.
    let released = app.sync_secondary_slots(&vec![300, 100], &vec![true, true], &vec![true, true]);
    assert!(released.is_empty());
    let trays: Vec<usize> = app.secondary.iter().map(|s| s.tray).collect();
    assert_eq!(trays, vec![100, 300]);
    assert!(app.secondary[0].widget.is_some());
    // The widget of slot 0 died: detached, kept, cooling down.
    let released = app.sync_secondary_slots(&vec![300, 100], &vec![true, true], &vec![false, true]);
    assert_eq!(released.len(), 1);
    assert_eq!(released[0].window, 101);
    assert!(app.secondary[0].widget.is_none());
    assert_eq!(app.secondary[0].cooldown, REATTACH_INTERVAL);
    // The primary widget is never touched.
    assert_eq!(app.widget.as_ref().unwrap().window, 10);
    assert_eq!(app.mode, Mode::Taskbar);
}

#[test]
fn removed_taskbar_releases_its_widget() {
    let mut app = App::new(1, false);
    app.sync_secondary_slots(&vec![7], &vec![], &vec![]);
    app.secondary_attached(0, Some((8, 9, pl(10, 46, 36, 96))));
    let released = app.sync_secondary_slots(&vec![], &vec![true], &vec![true]);
    assert_eq!(released.len(), 1);
    assert_eq!(released[0].tooltip, 9);
    assert!(app.secondary.is_empty());
    // A dead taskbar window goes even if still listed.
    app.sync_secondary_slots(&vec![7], &vec![], &vec![]);
    app.sync_secondary_slots(&vec![7], &vec![false], &vec![true]);
    let trays: Vec<usize> = app.secondary.iter().map(|s| s.tray).collect();
    assert_eq!(trays, vec![7]);
    assert_eq!(app.secondary[0].cooldown, 0);
}

#[test]
fn secondary_present_failure_only_detaches_the_slot() {
    let mut app = attached_app();
    app.sync_secondary_slots(&vec![5], &vec![], &vec![]);
    app.secondary_attached(0, Some((6, 7, pl(10, 46, 36, 96))));
    assert!(app.secondary_presented(0, true).is_none());
    let released = app.secondary_presented(0, false).unwrap();
    assert_eq!(released.window, 6);
    assert!(app.secondary[0].widget.is_none());
    assert_eq!(app.secondary[0].cooldown, REATTACH_INTERVAL);
    assert_eq!(app.mode, Mode::Taskbar);
    assert_eq!(app.present_fails, 0);
}

#[test]
fn secondary_follows_its_taskbar() {
    let mut app = App::new(1, false);
    app.sync_secondary_slots(&vec![5], &vec![], &vec![]);
    app.secondary_attached(0, Some((6, 7, pl(10, 46, 36, 96))));
    assert!(!app.secondary_follow(0, pl(10, 46, 36, 96)));
    assert!(app.secondary_follow(0, pl(12, 46, 36, 96)));
    assert_eq!(app.secondary[0].widget.as_ref().unwrap().placement.x, 12);
}

#[test]
fn taskbar_restart_drops_everything_and_reattaches() {
    let mut app = fallback_app();
    app.sync_secondary_slots(&vec![5, 6], &vec![], &vec![]);
    app.secondary_attached(1, Some((60, 61, pl(10, 46, 36, 96))));
    let (next, released) = app.on_taskbar_created();
    assert_eq!(next, Next::Attach);
    let windows: Vec<usize> = released.iter().map(|w| w.window).collect();
    assert_eq!(windows, vec![20, 60]);
    assert_eq!(app.mode, Mode::Taskbar);
    assert_eq!(app.attach_fails, 0);
    assert!(app.widget.is_none());
    assert!(app.secondary.is_empty());
}

#[test]
fn dead_widgets_are_cleaned_up() {
    let mut app = attached_app();
    app.sync_secondary_slots(&vec![5, 6], &vec![], &vec![]);
    app.secondary_attached(0, Some((50, 51, pl(10, 46, 36, 96))));
    app.secondary_attached(1, Some((60, 61, pl(10, 46, 36, 96))));
    let released = app.on_widget_dead(true, &vec![true, false]);
    let windows: Vec<usize> = released.iter().map(|w| w.window).collect();
    assert_eq!(windows, vec![60]);
    assert!(app.widget.is_some());
    assert!(app.secondary[0].widget.is_some());
    assert!(app.secondary[1].widget.is_none());
    let released = app.on_widget_dead(false, &vec![true, true]);
    assert_eq!(released.len(), 1);
    assert_eq!(released[0].window, 10);
    assert!(app.widget.is_none());
}

#[test]
fn shutdown_releases_every_widget() {
    let mut app = attached_app();
    app.sync_secondary_slots(&vec![5], &vec![], &vec![]);
    app.secondary_attached(0, Some((50, 51, pl(10, 46, 36, 96))));
    let released = app.shutdown();
    let windows: Vec<usize> = released.iter().map(|w| w.window).collect();
    assert_eq!(windows, vec![10, 50]);
    assert!(app.widget.is_none());
    assert!(app.secondary.is_empty());
}

#[test]
fn theme_notification_is_recognised() {
    assert_eq!(immersive_color_set_name(), wide("ImmersiveColorSet"));
    assert!(is_immersive_color_set(&wide("ImmersiveColorSet")));
    assert!(!is_immersive_color_set(&wide("ImmersiveColorSe")));
    assert!(!is_immersive_color_set(&wide("Policy")));
    assert!(!is_immersive_color_set(&"ImmersiveColorSet".encode_utf16().collect::<Vec<u16>>()));
    let mut longer = "ImmersiveColorSet".encode_utf16().collect::<Vec<u16>>();
    longer.push(b'X' as u16);
    assert!(!is_immersive_color_set(&longer));
}

#[test]
fn drawable_placements() {
    assert!(placement_is_drawable(&pl(0, 46, 36, 96)));
    assert!(placement_is_drawable(&pl(0, 0, 36, u32::MAX)));
    assert!(placement_is_drawable(&pl(0, 46, 36, u32::MAX)));
    assert!(!placement_is_drawable(&pl(0, 46, 36, 0x7fff_0000)));
    assert!(placement_is_drawable(&pl(0, 46, 36, 357913933)));
    assert!(!placement_is_drawable(&pl(0, 46, 36, 357913934)));
}

#[test]
fn taskbar_placements_are_drawable() {
    for dpi in [96u32, 120, 144, 192, 288, 480] {
        let tr = Rect { left: 0, top: 2000, right: 7680, bottom: 2160 };
        let p = placement_left_of(&tr, 7000, dpi).unwrap();
        assert!(placement_is_drawable(&p));
        let f = fallback_placement(&Rect { left: 0, top: 0, right: 7680, bottom: 4000 }, dpi);
        assert!(placement_is_drawable(&f));
    }
}
