//! The widget's life cycle: attaching to the taskbar, falling back to a
//! plain always-on-top window after repeated failures, periodically trying
//! to get back onto the taskbar, and one best-effort widget per secondary
//! taskbar. The host performs the window-system work that each step asks
//! for and reports the outcome back; all decisions are made here.

use vstd::prelude::*;
use crate::metrics::{Load, Metrics};
use crate::render::{draw_fits, draw_spec, Renderer};
use crate::taskbar::Placement;
use crate::theme::{palette, palette_spec, Palette};
use crate::util::{wide, wide_spec};

verus! {

/// Id of the one-second timer that drives `tick`.
pub const TIMER_ID: usize = 1;

/// Consecutive taskbar-attach failures before giving up.
pub const MAX_ATTACH_FAILS: u32 = 3;

/// Interval (ticks = seconds) between reattach attempts while in fallback
/// mode, and cooldown of a secondary slot after a failure.
pub const REATTACH_INTERVAL: u32 = 30;

/// Where the primary widget lives.
#[derive(Clone, Copy, Debug, PartialEq, Eq, Structural)]
pub enum Mode {
    /// A child window of the taskbar.
    Taskbar,
    /// Compatibility mode: a plain always-on-top borderless window.
    Fallback,
}

/// A widget window: its handle, its tooltip's handle (0 when there is
/// none), where it is placed, and its pixels (`None` when the surface could
/// not be created). Handles are opaque non-zero numbers given by the host.
pub struct Widget {
    pub window: usize,
    pub tooltip: usize,
    pub placement: Placement,
    pub renderer: Option<Renderer>,
}

/// One widget attached to a secondary taskbar. Purely best-effort: any
/// failure just detaches the slot and schedules a retry; it never touches
/// the primary widget's mode.
pub struct SecondarySlot {
    /// Handle of the secondary taskbar.
    pub tray: usize,
    /// `None` while detached (waiting out `cooldown`).
    pub widget: Option<Widget>,
    /// Ticks until the next attach attempt.
    pub cooldown: u32,
}

/// What the host does next after a step.
#[derive(Clone, Copy, Debug, PartialEq, Eq, Structural)]
pub enum Next {
    /// Nothing more.
    Nothing,
    /// Try to attach a widget to the primary taskbar, then report with
    /// `attach_finished`.
    Attach,
    /// Create the compatibility-mode window, then report with
    /// `fallback_created`.
    CreateFallback,
    /// Draw and present the widgets (`render_now`, then `primary_presented` and `secondary_presented`).
    Render,
}

/// A placement whose surface, if one can be made, can be drawn at the
/// placement's DPI without overflowing.
pub open spec fn placement_drawable(pl: Placement) -> bool {
    (pl.w > 0 && pl.h > 0 && pl.w * pl.h <= i32::MAX) ==> draw_fits(pl.w as int, pl.h as int, pl.dpi)
}

/// A widget's surface matches its placement and can be drawn.
pub open spec fn widget_ok(w: Widget) -> bool {
    &&& placement_drawable(w.placement)
    &&& w.renderer matches Some(r) ==> {
        &&& r.shape_ok()
        &&& r.spec_width() == w.placement.w
        &&& r.spec_height() == w.placement.h
    }
}

/// A freshly attached widget: the given windows and placement and a blank
/// surface of the placement's size (none when that size cannot be made).
pub open spec fn fresh_widget(w: Widget, window: usize, tooltip: usize, pl: Placement) -> bool {
    &&& w.window == window
    &&& w.tooltip == tooltip
    &&& w.placement == pl
    &&& (w.renderer is Some <==> (pl.w > 0 && pl.h > 0 && pl.w * pl.h <= i32::MAX))
    &&& w.renderer matches Some(r) ==> r.spec_width() == pl.w && r.spec_height() == pl.h && r@
        == Seq::new((pl.w * pl.h) as nat, |i: int| 0u32)
}

pub open spec fn slot_ok(s: SecondarySlot) -> bool {
    s.widget matches Some(w) ==> widget_ok(w)
}

/// No two secondary slots serve the same taskbar.
pub open spec fn trays_distinct(slots: Seq<SecondarySlot>) -> bool {
    forall|i: int, j: int|
        0 <= i < j < slots.len() ==> #[trigger] slots[i].tray != #[trigger] slots[j].tray
}

/// The widget's state: attach bookkeeping, the primary widget, the
/// secondary slots, the latest metrics and the theme.
pub struct App {
    /// The registered "TaskbarCreated" broadcast message.
    pub taskbar_created_msg: u32,
    pub mode: Mode,
    /// Consecutive failed attempts to attach to the taskbar.
    pub attach_fails: u32,
    /// Consecutive failed presents of the primary widget.
    pub present_fails: u32,
    /// Ticks until the next attempt to get back onto the taskbar.
    pub reattach_countdown: u32,
    pub widget: Option<Widget>,
    pub secondary: Vec<SecondarySlot>,
    pub metrics: Metrics,
    pub light_theme: bool,
}

impl App {
    /// The invariant every step keeps.
    pub open spec fn wf(&self) -> bool {
        &&& self.attach_fails <= MAX_ATTACH_FAILS
        &&& self.mode == Mode::Taskbar ==> self.attach_fails < MAX_ATTACH_FAILS
        &&& self.widget matches Some(w) ==> widget_ok(w)
        &&& forall|i: int| 0 <= i < self.secondary@.len() ==> slot_ok(#[trigger] self.secondary@[i])
        &&& trays_distinct(self.secondary@)
    }

    /// Start on the taskbar with no widget yet.
    pub fn new(taskbar_created_msg: u32, light_theme: bool) -> (a: App)
        ensures
            a.wf(),
            a.taskbar_created_msg == taskbar_created_msg,
            a.light_theme == light_theme,
            a.mode == Mode::Taskbar,
            a.attach_fails == 0,
            a.present_fails == 0,
            a.reattach_countdown == 0,
            a.widget is None,
            a.secondary@.len() == 0,
            a.metrics.prev is None,
            a.metrics.cpu == (Load { num: 0, den: 0 }),
            a.metrics.mem == (Load { num: 0, den: 0 }),
            a.metrics.mem_used_bytes == 0,
            a.metrics.mem_total_bytes == 0,
    {
        App {
            taskbar_created_msg,
            mode: Mode::Taskbar,
            attach_fails: 0,
            present_fails: 0,
            reattach_countdown: 0,
            widget: None,
            secondary: Vec::new(),
            metrics: Metrics::new(),
            light_theme,
        }
    }

    /// Make sure a widget exists. `alive` says whether the current widget's
    /// window still exists. A live widget is kept (`Nothing`); otherwise the
    /// widget's state is dropped (returned, for the host to destroy its
    /// windows) and, on the taskbar, an attach is asked for, in fallback
    /// mode the compatibility window.
    pub fn ensure_widget(&mut self, alive: bool) -> (r: (Next, Option<Widget>))
        requires
            old(self).wf(),
        ensures
            final(self).wf(),
            final(self).mode == old(self).mode,
            final(self).attach_fails == old(self).attach_fails,
            final(self).present_fails == old(self).present_fails,
            final(self).reattach_countdown == old(self).reattach_countdown,
            final(self).secondary@ == old(self).secondary@,
            final(self).metrics == old(self).metrics,
            final(self).light_theme == old(self).light_theme,
            final(self).taskbar_created_msg == old(self).taskbar_created_msg,
            old(self).widget is Some && alive ==> r.0 == Next::Nothing && r.1 is None
                && final(self).widget == old(self).widget,
            !(old(self).widget is Some && alive) ==> {
                &&& final(self).widget is None
                &&& r.1 == old(self).widget
                &&& r.0 == if old(self).mode == Mode::Taskbar { Next::Attach } else { Next::CreateFallback }
            },
    {
        if self.widget.is_some() && alive {
            return (Next::Nothing, None);
        }
        let released = self.drop_widget_state();
        match self.mode {
            Mode::Taskbar => (Next::Attach, released),
            Mode::Fallback => (Next::CreateFallback, released),
        }
    }

    /// Forget the primary widget, handing it back for its windows to be
    /// destroyed.
    pub fn drop_widget_state(&mut self) -> (released: Option<Widget>)
        requires
            old(self).wf(),
        ensures
            final(self).wf(),
            released == old(self).widget,
            final(self).widget is None,
            final(self).mode == old(self).mode,
            final(self).attach_fails == old(self).attach_fails,
            final(self).present_fails == old(self).present_fails,
            final(self).reattach_countdown == old(self).reattach_countdown,
            final(self).secondary@ == old(self).secondary@,
            final(self).metrics == old(self).metrics,
            final(self).light_theme == old(self).light_theme,
            final(self).taskbar_created_msg == old(self).taskbar_created_msg,
    {
        let mut released: Option<Widget> = None;
        std::mem::swap(&mut released, &mut self.widget);
        released
    }
}

/// One more consecutive failure (of an attach, or of a present on the
/// taskbar): the new count, and fallback mode once it reaches
/// `MAX_ATTACH_FAILS`.
pub open spec fn failure_step(fails: u32) -> (Mode, u32) {
    let f = fails + 1;
    (if f >= MAX_ATTACH_FAILS { Mode::Fallback } else { Mode::Taskbar }, f as u32)
}

/// Mode and count after `n` consecutive failures that start on the taskbar
/// with `fails` failures; once in fallback mode nothing changes any more.
pub open spec fn after_failures(fails: u32, n: nat) -> (Mode, u32)
    decreases n,
{
    if n == 0 {
        (Mode::Taskbar, fails)
    } else {
        let prev = after_failures(fails, (n - 1) as nat);
        if prev.0 == Mode::Taskbar {
            failure_step(prev.1)
        } else {
            prev
        }
    }
}

/// The reattach countdown after a fallback tick on which the taskbar was
/// not available: it counts down, and a look that found nothing restarts
/// it so that the next look comes `REATTACH_INTERVAL` ticks later.
pub open spec fn countdown_step(c: u32) -> u32 {
    if c > 0 {
        (c - 1) as u32
    } else {
        (REATTACH_INTERVAL - 1) as u32
    }
}

/// The countdown after `n` such ticks.
pub open spec fn countdown_after(c: u32, n: nat) -> u32
    decreases n,
{
    if n == 0 {
        c
    } else {
        countdown_step(countdown_after(c, (n - 1) as nat))
    }
}

/// Consecutive failures switch to fallback mode exactly at the
/// `MAX_ATTACH_FAILS`-th one: from `fails` earlier failures, `n` more
/// leave the widget on the taskbar while `fails + n < MAX_ATTACH_FAILS`
/// and put it in fallback mode from then on.
pub proof fn lemma_fallback_after_max_failures(fails: u32, n: nat)
    requires
        fails < MAX_ATTACH_FAILS,
    ensures
        after_failures(fails, n).0 == (if fails + n >= MAX_ATTACH_FAILS { Mode::Fallback } else { Mode::Taskbar }),
        after_failures(fails, n).1 == (if fails + n >= MAX_ATTACH_FAILS { MAX_ATTACH_FAILS as int } else { fails + n }),
    decreases n,
{
    if n > 0 {
        lemma_fallback_after_max_failures(fails, (n - 1) as nat);
    }
}

proof fn lemma_countdown_closed_form(c: u32, n: nat)
    requires
        c <= REATTACH_INTERVAL,
    ensures
        countdown_after(c, n) == (if n < c {
            c - n
        } else if (n - c) % (REATTACH_INTERVAL as int) == 0 {
            0
        } else {
            REATTACH_INTERVAL - (n - c) % (REATTACH_INTERVAL as int)
        }),
    decreases n,
{
    if n > 0 {
        lemma_countdown_closed_form(c, (n - 1) as nat);
        if n > c {
            let k = (n - 1 - c) as int;
            vstd::arithmetic::div_mod::lemma_fundamental_div_mod(k, 30);
            vstd::arithmetic::div_mod::lemma_fundamental_div_mod(k + 1, 30);
            if k % 30 == 29 {
                vstd::arithmetic::div_mod::lemma_fundamental_div_mod_converse(k + 1, 30, k / 30 + 1, 0);
            } else {
                vstd::arithmetic::div_mod::lemma_fundamental_div_mod_converse(k + 1, 30, k / 30, k % 30 + 1);
            }
        } else if n == c {
            assert(0int % 30 == 0);
        }
    }
}

/// While the widget is in fallback mode and the taskbar stays missing, the
/// taskbar is looked for (the countdown is 0) exactly every
/// `REATTACH_INTERVAL` ticks: from a countdown `c`, on ticks `c`, `c + 30`,
/// `c + 60`, and so on, and on no other tick.
pub proof fn lemma_reattach_period(c: u32, n: nat)
    requires
        c <= REATTACH_INTERVAL,
    ensures
        countdown_after(c, n) == 0 <==> (n >= c && (n - c) % (REATTACH_INTERVAL as int) == 0),
{
    lemma_countdown_closed_form(c, n);
    if n >= c {
        let k = (n - c) as int;
        vstd::arithmetic::div_mod::lemma_fundamental_div_mod(k, 30);
    }
}

/// A widget for freshly created windows at `pl`, with a blank surface of
/// the placement's size.
pub fn make_widget(window: usize, tooltip: usize, pl: Placement) -> (w: Widget)
    requires
        placement_drawable(pl),
    ensures
        fresh_widget(w, window, tooltip, pl),
        widget_ok(w),
{
    let renderer = Renderer::new(pl.w, pl.h);
    Widget { window, tooltip, placement: pl, renderer }
}

/// Everything but the attach bookkeeping and the primary widget is left
/// alone by a step.
pub open spec fn same_rest(a: App, b: App) -> bool {
    &&& a.secondary@ == b.secondary@
    &&& a.metrics == b.metrics
    &&& a.light_theme == b.light_theme
    &&& a.taskbar_created_msg == b.taskbar_created_msg
}

impl App {
    /// Report the outcome of an attach attempt: the new widget's window,
    /// tooltip and placement, or `None` when the taskbar could not be found
    /// or measured or the window could not be created. Success resets both
    /// failure counters and asks for a render; the `MAX_ATTACH_FAILS`-th
    /// consecutive failure switches to fallback mode and asks for the
    /// compatibility window.
    pub fn attach_finished(&mut self, attached: Option<(usize, usize, Placement)>) -> (r: Next)
        requires
            old(self).wf(),
            old(self).widget is None,
            old(self).mode == Mode::Taskbar,
            attached matches Some(t) ==> placement_drawable(t.2),
        ensures
            final(self).wf(),
            same_rest(*old(self), *final(self)),
            final(self).reattach_countdown == old(self).reattach_countdown,
            attached matches Some(t) ==> {
                &&& r == Next::Render
                &&& final(self).widget matches Some(w) && fresh_widget(w, t.0, t.1, t.2)
                &&& final(self).mode == Mode::Taskbar
                &&& final(self).attach_fails == 0
                &&& final(self).present_fails == 0
            },
            attached is None ==> {
                &&& final(self).widget is None
                &&& (final(self).mode, final(self).attach_fails) == failure_step(old(self).attach_fails)
                &&& final(self).attach_fails == old(self).attach_fails + 1
                &&& final(self).present_fails == old(self).present_fails
                &&& if old(self).attach_fails + 1 >= MAX_ATTACH_FAILS {
                    final(self).mode == Mode::Fallback && r == Next::CreateFallback
                } else {
                    final(self).mode == Mode::Taskbar && r == Next::Nothing
                }
            },
    {
        match attached {
            Some((window, tooltip, pl)) => {
                self.widget = Some(make_widget(window, tooltip, pl));
                self.attach_fails = 0;
                self.present_fails = 0;
                Next::Render
            },
            None => {
                self.attach_fails = self.attach_fails + 1;
                if self.attach_fails >= MAX_ATTACH_FAILS {
                    self.mode = Mode::Fallback;
                    Next::CreateFallback
                } else {
                    Next::Nothing
                }
            },
        }
    }

    /// Report the outcome of creating the compatibility window at `pl`:
    /// its window and tooltip, or `None` when it could not be created (then
    /// nothing changes and the next tick retries). Success restarts the
    /// reattach countdown and asks for a render.
    pub fn fallback_created(&mut self, created: Option<(usize, usize)>, pl: Placement) -> (r: Next)
        requires
            old(self).wf(),
            old(self).widget is None,
            old(self).mode == Mode::Fallback,
            placement_drawable(pl),
        ensures
            final(self).wf(),
            same_rest(*old(self), *final(self)),
            final(self).mode == old(self).mode,
            final(self).attach_fails == old(self).attach_fails,
            final(self).present_fails == old(self).present_fails,
            created matches Some(c) ==> {
                &&& r == Next::Render
                &&& final(self).widget matches Some(w) && fresh_widget(w, c.0, c.1, pl)
                &&& final(self).reattach_countdown == REATTACH_INTERVAL
            },
            created is None ==> r == Next::Nothing && final(self).widget is None
                && final(self).reattach_countdown == old(self).reattach_countdown,
    {
        match created {
            Some((window, tooltip)) => {
                self.widget = Some(make_widget(window, tooltip, pl));
                self.reattach_countdown = REATTACH_INTERVAL;
                Next::Render
            },
            None => Next::Nothing,
        }
    }

    /// Whether this fallback tick is the one that looks for the taskbar.
    pub fn reattach_due(&self) -> (r: bool)
        ensures
            r == (self.reattach_countdown == 0),
    {
        self.reattach_countdown == 0
    }

    /// One tick in fallback mode. Counts the reattach countdown down; when
    /// it has run out and the taskbar is available (`tray_available`, only
    /// consulted then), goes back to taskbar mode, drops the compatibility
    /// widget (returned for destruction) and asks for an attach; when it
    /// has run out and the taskbar is still missing, restarts it so that
    /// the next look is `REATTACH_INTERVAL` ticks after this one. In the
    /// other cases (`Nothing`) the host keeps the window topmost.
    pub fn tick_fallback(&mut self, tray_available: bool) -> (r: (Next, Option<Widget>))
        requires
            old(self).wf(),
            old(self).mode == Mode::Fallback,
        ensures
            final(self).wf(),
            same_rest(*old(self), *final(self)),
            final(self).present_fails == old(self).present_fails,
            !(old(self).reattach_countdown == 0 && tray_available) ==> final(self).reattach_countdown
                == countdown_step(old(self).reattach_countdown),
            old(self).reattach_countdown > 0 ==> {
                &&& r.0 == Next::Nothing && r.1 is None
                &&& final(self).reattach_countdown == old(self).reattach_countdown - 1
                &&& final(self).mode == Mode::Fallback
                &&& final(self).attach_fails == old(self).attach_fails
                &&& final(self).widget == old(self).widget
            },
            old(self).reattach_countdown == 0 && tray_available ==> {
                &&& r.0 == Next::Attach && r.1 == old(self).widget
                &&& final(self).mode == Mode::Taskbar
                &&& final(self).attach_fails == 0
                &&& final(self).widget is None
                &&& final(self).reattach_countdown == 0
            },
            old(self).reattach_countdown == 0 && !tray_available ==> {
                &&& r.0 == Next::Nothing && r.1 is None
                &&& final(self).reattach_countdown == REATTACH_INTERVAL - 1
                &&& final(self).mode == Mode::Fallback
                &&& final(self).attach_fails == old(self).attach_fails
                &&& final(self).widget == old(self).widget
            },
    {
        if self.reattach_countdown > 0 {
            self.reattach_countdown = self.reattach_countdown - 1;
            (Next::Nothing, None)
        } else if tray_available {
            self.mode = Mode::Taskbar;
            self.attach_fails = 0;
            let released = self.drop_widget_state();
            (Next::Attach, released)
        } else {
            // This tick was the look; the next one comes REATTACH_INTERVAL
            // ticks later.
            self.reattach_countdown = REATTACH_INTERVAL - 1;
            (Next::Nothing, None)
        }
    }

    /// Report whether presenting the primary widget worked (`false` too
    /// when it has no surface). Success clears the failure count. The
    /// `MAX_ATTACH_FAILS`-th consecutive failure on the taskbar means the
    /// layered child window is unavailable here: switch to fallback mode and
    /// drop the widget (returned for destruction).
    pub fn primary_presented(&mut self, ok: bool) -> (released: Option<Widget>)
        requires
            old(self).wf(),
            old(self).widget is Some,
            !ok ==> old(self).present_fails < u32::MAX,
        ensures
            final(self).wf(),
            same_rest(*old(self), *final(self)),
            final(self).attach_fails == old(self).attach_fails,
            final(self).reattach_countdown == old(self).reattach_countdown,
            ok ==> final(self).present_fails == 0 && released is None
                && final(self).widget == old(self).widget && final(self).mode == old(self).mode,
            !ok ==> final(self).present_fails == old(self).present_fails + 1,
            !ok && old(self).mode == Mode::Taskbar ==> (final(self).mode, final(self).present_fails) == failure_step(old(self).present_fails),
            !ok && old(self).present_fails + 1 >= MAX_ATTACH_FAILS && old(self).mode == Mode::Taskbar
                ==> final(self).mode == Mode::Fallback && final(self).widget is None && released
                == old(self).widget,
            !ok && !(old(self).present_fails + 1 >= MAX_ATTACH_FAILS && old(self).mode == Mode::Taskbar)
                ==> final(self).mode == old(self).mode && final(self).widget == old(self).widget
                && released is None,
    {
        if ok {
            self.present_fails = 0;
            None
        } else {
            self.present_fails = self.present_fails + 1;
            if self.present_fails >= MAX_ATTACH_FAILS && self.mode == Mode::Taskbar {
                self.mode = Mode::Fallback;
                self.drop_widget_state()
            } else {
                None
            }
        }
    }

    /// Follow a taskbar move, resize or DPI change: when `pl` differs from
    /// the widget's placement the new one is taken (and `true` returned, for
    /// the host to move the window); a size change also replaces the
    /// surface with a blank one of the new size.
    pub fn sync_placement(&mut self, pl: Placement) -> (moved: bool)
        requires
            old(self).wf(),
            old(self).widget is Some,
            placement_drawable(pl),
        ensures
            final(self).wf(),
            same_rest(*old(self), *final(self)),
            final(self).mode == old(self).mode,
            final(self).attach_fails == old(self).attach_fails,
            final(self).present_fails == old(self).present_fails,
            final(self).reattach_countdown == old(self).reattach_countdown,
            final(self).widget matches Some(w) && old(self).widget matches Some(ow) && {
                &&& moved == (pl != ow.placement)
                &&& w.window == ow.window && w.tooltip == ow.tooltip
                &&& w.placement == pl
                &&& (moved && (pl.w != ow.placement.w || pl.h != ow.placement.h)) ==> fresh_widget(w, ow.window, ow.tooltip, pl)
                &&& !(moved && (pl.w != ow.placement.w || pl.h != ow.placement.h)) ==> w.renderer == ow.renderer
            },
    {
        let mut slot: Option<Widget> = None;
        std::mem::swap(&mut slot, &mut self.widget);
        let mut w = slot.unwrap();
        let moved = pl != w.placement;
        if moved {
            if pl.w != w.placement.w || pl.h != w.placement.h {
                w.renderer = Renderer::new(pl.w, pl.h);
            }
            w.placement = pl;
        }
        self.widget = Some(w);
        moved
    }

    /// Take the system theme (`true` when light). Returns whether it
    /// changed, in which case the widgets are to be redrawn.
    pub fn reload_theme(&mut self, light: bool) -> (changed: bool)
        requires
            old(self).wf(),
        ensures
            final(self).wf(),
            changed == (light != old(self).light_theme),
            final(self).light_theme == light,
            final(self).mode == old(self).mode,
            final(self).attach_fails == old(self).attach_fails,
            final(self).present_fails == old(self).present_fails,
            final(self).reattach_countdown == old(self).reattach_countdown,
            final(self).widget == old(self).widget,
            final(self).secondary@ == old(self).secondary@,
            final(self).metrics == old(self).metrics,
    {
        if light != self.light_theme {
            self.light_theme = light;
            true
        } else {
            false
        }
    }
}

/// `new` is `old` with its surface (if any) showing the current loads.
pub open spec fn widget_drawn(old: Widget, new: Widget, cpu: Load, mem: Load, pal: Palette) -> bool {
    &&& new.window == old.window
    &&& new.tooltip == old.tooltip
    &&& new.placement == old.placement
    &&& match old.renderer {
        None => new.renderer is None,
        Some(r) => new.renderer matches Some(nr) && {
            &&& nr.shape_ok()
            &&& nr.spec_width() == r.spec_width()
            &&& nr.spec_height() == r.spec_height()
            &&& nr@ == draw_spec(r.spec_width(), r.spec_height(), cpu, mem, pal, old.placement.dpi)
        },
    }
}

/// `new` is `old` with its widget (if any) drawn.
pub open spec fn slot_drawn(old: SecondarySlot, new: SecondarySlot, cpu: Load, mem: Load, pal: Palette) -> bool {
    &&& new.tray == old.tray
    &&& new.cooldown == old.cooldown
    &&& match old.widget {
        None => new.widget is None,
        Some(w) => new.widget matches Some(nw) && widget_drawn(w, nw, cpu, mem, pal),
    }
}

fn draw_widget(w: &mut Widget, cpu: Load, mem: Load, pal: &Palette)
    requires
        widget_ok(*old(w)),
    ensures
        widget_ok(*final(w)),
        widget_drawn(*old(w), *final(w), cpu, mem, *pal),
{
    let dpi = w.placement.dpi;
    match &mut w.renderer {
        Some(r) => {
            r.draw(cpu, mem, pal, dpi);
        },
        None => {},
    }
}

fn draw_slot(s: &mut SecondarySlot, cpu: Load, mem: Load, pal: &Palette)
    requires
        slot_ok(*old(s)),
    ensures
        slot_ok(*final(s)),
        slot_drawn(*old(s), *final(s), cpu, mem, *pal),
{
    match &mut s.widget {
        Some(w) => draw_widget(w, cpu, mem, pal),
        None => {},
    }
}

impl App {
    /// Draw the current CPU and memory loads into every widget's surface,
    /// in the current theme's palette; the host then presents them.
    pub fn render_now(&mut self)
        requires
            old(self).wf(),
        ensures
            final(self).wf(),
            final(self).mode == old(self).mode,
            final(self).attach_fails == old(self).attach_fails,
            final(self).present_fails == old(self).present_fails,
            final(self).reattach_countdown == old(self).reattach_countdown,
            final(self).metrics == old(self).metrics,
            final(self).light_theme == old(self).light_theme,
            final(self).taskbar_created_msg == old(self).taskbar_created_msg,
            match old(self).widget {
                None => final(self).widget is None,
                Some(w) => final(self).widget matches Some(nw) && widget_drawn(w, nw, old(self).metrics.cpu, old(self).metrics.mem, palette_spec(old(self).light_theme)),
            },
            final(self).secondary@.len() == old(self).secondary@.len(),
            forall|i: int| 0 <= i < old(self).secondary@.len() ==> slot_drawn(#[trigger] old(self).secondary@[i], final(self).secondary@[i], old(self).metrics.cpu, old(self).metrics.mem, palette_spec(old(self).light_theme)),
    {
        let pal = palette(self.light_theme);
        let cpu = self.metrics.cpu;
        let mem = self.metrics.mem;
        match &mut self.widget {
            Some(w) => draw_widget(w, cpu, mem, &pal),
            None => {},
        }
        let ghost old_slots = self.secondary@;
        let ghost mid = *self;
        let n = self.secondary.len();
        let mut i: usize = 0;
        while i < n
            invariant
                self.mode == mid.mode,
                self.attach_fails == mid.attach_fails,
                self.present_fails == mid.present_fails,
                self.reattach_countdown == mid.reattach_countdown,
                self.metrics == mid.metrics,
                self.light_theme == mid.light_theme,
                self.taskbar_created_msg == mid.taskbar_created_msg,
                self.widget == mid.widget,
                n == old_slots.len(),
                i <= n,
                self.secondary@.len() == n,
                forall|j: int| 0 <= j < i ==> slot_drawn(#[trigger] old_slots[j], self.secondary@[j], cpu, mem, pal),
                forall|j: int| i <= j < n ==> #[trigger] self.secondary@[j] == old_slots[j],
                forall|j: int| 0 <= j < n ==> slot_ok(#[trigger] self.secondary@[j]),
                forall|j: int| 0 <= j < n ==> #[trigger] self.secondary@[j].tray == old_slots[j].tray,
            decreases n - i,
        {
            let mut s = self.secondary.remove(i);
            draw_slot(&mut s, cpu, mem, &pal);
            self.secondary.insert(i, s);
            i = i + 1;
        }
        proof {
            assert forall|a: int, b: int| 0 <= a < b < self.secondary@.len() implies #[trigger] self.secondary@[a].tray != #[trigger] self.secondary@[b].tray by {
                assert(old_slots[a].tray != old_slots[b].tray);
            }
        }
    }
}

/// A slot that has just lost its widget: it waits `REATTACH_INTERVAL`
/// ticks before the next attempt.
pub open spec fn detached_spec(s: SecondarySlot) -> SecondarySlot {
    SecondarySlot { tray: s.tray, widget: None, cooldown: REATTACH_INTERVAL }
}

/// A new slot for a taskbar that just appeared: it attaches on its first
/// tick.
pub open spec fn new_slot_spec(tray: usize) -> SecondarySlot {
    SecondarySlot { tray, widget: None, cooldown: 0 }
}

/// The widget of a slot, as a sequence of zero or one widgets.
pub open spec fn widget_seq(w: Option<Widget>) -> Seq<Widget> {
    match w {
        Some(x) => seq![x],
        None => Seq::empty(),
    }
}

/// The slots that survive a re-enumeration of the secondary taskbars, in
/// their old order: a slot goes when its taskbar is no longer listed in
/// `trays` or its window is gone (`tray_alive`); a surviving slot whose
/// widget window was destroyed (`widget_alive`, e.g. by a shell restart)
/// is detached to re-attach after the cooldown.
pub open spec fn pruned_slots(slots: Seq<SecondarySlot>, trays: Seq<usize>, tray_alive: Seq<bool>, widget_alive: Seq<bool>) -> Seq<SecondarySlot>
    decreases slots.len(),
{
    if slots.len() == 0 {
        Seq::empty()
    } else {
        let k = slots.len() - 1;
        let rest = pruned_slots(slots.drop_last(), trays, tray_alive, widget_alive);
        let s = slots[k];
        if !(trays.contains(s.tray) && tray_alive[k]) {
            rest
        } else if s.widget is Some && !widget_alive[k] {
            rest.push(detached_spec(s))
        } else {
            rest.push(s)
        }
    }
}

/// The widgets that the re-enumeration lets go, in slot order.
pub open spec fn pruned_widgets(slots: Seq<SecondarySlot>, trays: Seq<usize>, tray_alive: Seq<bool>, widget_alive: Seq<bool>) -> Seq<Widget>
    decreases slots.len(),
{
    if slots.len() == 0 {
        Seq::empty()
    } else {
        let k = slots.len() - 1;
        let rest = pruned_widgets(slots.drop_last(), trays, tray_alive, widget_alive);
        let s = slots[k];
        if !(trays.contains(s.tray) && tray_alive[k]) {
            rest + widget_seq(s.widget)
        } else if s.widget is Some && !widget_alive[k] {
            rest + widget_seq(s.widget)
        } else {
            rest
        }
    }
}

/// Whether some slot serves `tray`.
pub open spec fn has_tray(slots: Seq<SecondarySlot>, tray: usize) -> bool {
    exists|j: int| 0 <= j < slots.len() && #[trigger] slots[j].tray == tray
}

/// `slots` with a new slot appended for each taskbar of `trays` (in order)
/// that no slot serves yet.
pub open spec fn with_new_trays(slots: Seq<SecondarySlot>, trays: Seq<usize>) -> Seq<SecondarySlot>
    decreases trays.len(),
{
    if trays.len() == 0 {
        slots
    } else {
        let s = with_new_trays(slots, trays.drop_last());
        if has_tray(s, trays.last()) {
            s
        } else {
            s.push(new_slot_spec(trays.last()))
        }
    }
}

/// All widgets of the slots, in slot order.
pub open spec fn slot_widgets(slots: Seq<SecondarySlot>) -> Seq<Widget>
    decreases slots.len(),
{
    if slots.len() == 0 {
        Seq::empty()
    } else {
        slot_widgets(slots.drop_last()) + widget_seq(slots.last().widget)
    }
}

/// `new` equals `old` but at index `i`.
pub open spec fn slots_same_except(old: Seq<SecondarySlot>, new: Seq<SecondarySlot>, i: int) -> bool {
    &&& new.len() == old.len()
    &&& forall|j: int| 0 <= j < old.len() && j != i ==> #[trigger] new[j] == old[j]
}

/// What a secondary slot does on a tick.
#[derive(Clone, Copy, Debug, PartialEq, Eq, Structural)]
pub enum SlotStep {
    /// Detached and still cooling down.
    Wait,
    /// Detached and due: measure the taskbar, create a widget and report
    /// with `secondary_attached`.
    Attach,
    /// Attached: measure the taskbar and report with `secondary_follow`.
    Follow,
}

fn vec_contains(v: &Vec<usize>, x: usize) -> (r: bool)
    ensures
        r == v@.contains(x),
{
    let mut i: usize = 0;
    while i < v.len()
        invariant
            i <= v@.len(),
            forall|j: int| 0 <= j < i ==> v@[j] != x,
        decreases v@.len() - i,
    {
        if v[i] == x {
            return true;
        }
        i = i + 1;
    }
    false
}

fn slots_have_tray(v: &Vec<SecondarySlot>, tray: usize) -> (r: bool)
    ensures
        r == has_tray(v@, tray),
{
    let mut i: usize = 0;
    while i < v.len()
        invariant
            i <= v@.len(),
            forall|j: int| 0 <= j < i ==> #[trigger] v@[j].tray != tray,
        decreases v@.len() - i,
    {
        if v[i].tray == tray {
            return true;
        }
        i = i + 1;
    }
    false
}

impl App {
    /// Re-enumerate the secondary taskbars: `trays` lists the ones that
    /// exist now; `tray_alive[i]` and `widget_alive[i]` say whether slot
    /// `i`'s taskbar window and widget window still exist. Slots of vanished
    /// taskbars go, slots whose widget died are detached, and each newly
    /// listed taskbar gets a slot. Returns the widgets let go, for the host
    /// to destroy their windows.
    pub fn sync_secondary_slots(&mut self, trays: &Vec<usize>, tray_alive: &Vec<bool>, widget_alive: &Vec<bool>) -> (released: Vec<Widget>)
        requires
            old(self).wf(),
            tray_alive@.len() == old(self).secondary@.len(),
            widget_alive@.len() == old(self).secondary@.len(),
        ensures
            final(self).wf(),
            final(self).secondary@ == with_new_trays(pruned_slots(old(self).secondary@, trays@, tray_alive@, widget_alive@), trays@),
            released@ == pruned_widgets(old(self).secondary@, trays@, tray_alive@, widget_alive@),
            final(self).mode == old(self).mode,
            final(self).attach_fails == old(self).attach_fails,
            final(self).present_fails == old(self).present_fails,
            final(self).reattach_countdown == old(self).reattach_countdown,
            final(self).widget == old(self).widget,
            final(self).metrics == old(self).metrics,
            final(self).light_theme == old(self).light_theme,
            final(self).taskbar_created_msg == old(self).taskbar_created_msg,
    {
        let ghost orig = self.secondary@;
        let mut rest: Vec<SecondarySlot> = Vec::new();
        std::mem::swap(&mut rest, &mut self.secondary);
        let mut kept: Vec<SecondarySlot> = Vec::new();
        let mut released: Vec<Widget> = Vec::new();
        let n = rest.len();
        let mut i: usize = 0;
        while i < n
            invariant
                n == orig.len(),
                tray_alive@.len() == n,
                widget_alive@.len() == n,
                i <= n,
                rest@ == orig.skip(i as int),
                kept@ == pruned_slots(orig.take(i as int), trays@, tray_alive@, widget_alive@),
                released@ == pruned_widgets(orig.take(i as int), trays@, tray_alive@, widget_alive@),
                forall|j: int| 0 <= j < orig.len() ==> slot_ok(#[trigger] orig[j]),
                trays_distinct(orig),
                forall|j: int| 0 <= j < kept@.len() ==> slot_ok(#[trigger] kept@[j]),
                forall|j: int| 0 <= j < kept@.len() ==> exists|m: int| 0 <= m < i && #[trigger] kept@[j].tray == orig[m].tray,
                trays_distinct(kept@),
            decreases n - i,
        {
            proof {
                assert(orig.take(i + 1).drop_last() =~= orig.take(i as int));
                assert(orig.take(i + 1)[i as int] == orig[i as int]);
                assert(rest@[0] == orig[i as int]);
                assert(orig.skip(i + 1) =~= rest@.drop_first());
            }
            let ghost kept_before = kept@;
            let s = rest.remove(0);
            let tray = s.tray;
            let listed = vec_contains(trays, tray);
            let keep = listed && tray_alive[i];
            let has_widget = s.widget.is_some();
            if !keep {
                match s.widget {
                    Some(w) => released.push(w),
                    None => {},
                }
            } else if has_widget && !widget_alive[i] {
                match s.widget {
                    Some(w) => released.push(w),
                    None => {},
                }
                kept.push(SecondarySlot { tray, widget: None, cooldown: REATTACH_INTERVAL });
            } else {
                kept.push(s);
            }
            proof {
                assert(released@ =~= pruned_widgets(orig.take(i + 1), trays@, tray_alive@, widget_alive@));
                assert(kept@ =~= pruned_slots(orig.take(i + 1), trays@, tray_alive@, widget_alive@));
                assert forall|j: int| 0 <= j < kept@.len() implies exists|m: int| 0 <= m < i + 1 && #[trigger] kept@[j].tray == orig[m].tray by {
                    if j < kept_before.len() {
                        assert(kept@[j] == kept_before[j]);
                        let m = choose|m: int| 0 <= m < i && #[trigger] kept_before[j].tray == orig[m].tray;
                        assert(kept@[j].tray == orig[m].tray);
                    } else {
                        assert(kept@[j].tray == orig[i as int].tray);
                    }
                }
                assert forall|a: int, b: int| 0 <= a < b < kept@.len() implies #[trigger] kept@[a].tray != #[trigger] kept@[b].tray by {
                    if b < kept_before.len() {
                        assert(kept@[a] == kept_before[a]);
                        assert(kept@[b] == kept_before[b]);
                    } else {
                        assert(kept@[a] == kept_before[a]);
                        let m = choose|m: int| 0 <= m < i && #[trigger] kept_before[a].tray == orig[m].tray;
                        assert(orig[m].tray != orig[i as int].tray);
                    }
                }
            }
            i = i + 1;
        }
        proof {
            assert(orig.take(n as int) =~= orig);
        }
        let ghost base = kept@;
        let tn = trays.len();
        let mut t: usize = 0;
        while t < tn
            invariant
                tn == trays@.len(),
                t <= tn,
                kept@ == with_new_trays(base, trays@.take(t as int)),
                forall|j: int| 0 <= j < kept@.len() ==> slot_ok(#[trigger] kept@[j]),
                trays_distinct(kept@),
            decreases tn - t,
        {
            proof {
                assert(trays@.take(t + 1).drop_last() =~= trays@.take(t as int));
                assert(trays@.take(t + 1).last() == trays@[t as int]);
            }
            let tray = trays[t];
            if !slots_have_tray(&kept, tray) {
                let ghost before = kept@;
                kept.push(SecondarySlot { tray, widget: None, cooldown: 0 });
                proof {
                    assert forall|a: int, b: int| 0 <= a < b < kept@.len() implies #[trigger] kept@[a].tray != #[trigger] kept@[b].tray by {
                        assert(kept@[a] == before[a]);
                        if b < before.len() {
                            assert(kept@[b] == before[b]);
                        }
                    }
                }
            }
            t = t + 1;
        }
        proof {
            assert(trays@.take(tn as int) =~= trays@);
        }
        self.secondary = kept;
        released
    }
}

proof fn lemma_pruned_listed(slots: Seq<SecondarySlot>, trays: Seq<usize>, tray_alive: Seq<bool>, widget_alive: Seq<bool>)
    ensures
        forall|j: int|
            0 <= j < pruned_slots(slots, trays, tray_alive, widget_alive).len() ==> trays.contains(
                #[trigger] pruned_slots(slots, trays, tray_alive, widget_alive)[j].tray,
            ),
    decreases slots.len(),
{
    if slots.len() > 0 {
        lemma_pruned_listed(slots.drop_last(), trays, tray_alive, widget_alive);
    }
}

proof fn lemma_new_trays_cover(slots: Seq<SecondarySlot>, trays: Seq<usize>)
    ensures
        forall|k: int| 0 <= k < trays.len() ==> has_tray(with_new_trays(slots, trays), #[trigger] trays[k]),
        forall|j: int|
            0 <= j < with_new_trays(slots, trays).len() ==> has_tray(slots, #[trigger] with_new_trays(slots, trays)[j].tray)
                || trays.contains(with_new_trays(slots, trays)[j].tray),
    decreases trays.len(),
{
    if trays.len() > 0 {
        let init = trays.drop_last();
        lemma_new_trays_cover(slots, init);
        let s = with_new_trays(slots, init);
        let r = with_new_trays(slots, trays);
        assert forall|k: int| 0 <= k < trays.len() implies has_tray(r, #[trigger] trays[k]) by {
            if k < init.len() {
                assert(init[k] == trays[k]);
                assert(has_tray(s, init[k]));
                let j = choose|j: int| 0 <= j < s.len() && #[trigger] s[j].tray == init[k];
                assert(r[j] == s[j]);
            } else if !has_tray(s, trays.last()) {
                assert(r[s.len() as int].tray == trays.last());
            }
        }
        assert forall|j: int| 0 <= j < r.len() implies has_tray(slots, #[trigger] r[j].tray) || trays.contains(r[j].tray) by {
            if j < s.len() {
                assert(r[j] == s[j]);
                if !has_tray(slots, s[j].tray) {
                    assert(init.contains(s[j].tray));
                    let m = choose|m: int| 0 <= m < init.len() && init[m] == s[j].tray;
                    assert(trays[m] == init[m]);
                }
            } else {
                assert(trays[trays.len() - 1] == r[j].tray);
            }
        }
    }
}

/// After a re-enumeration the slots follow the taskbars: every listed
/// secondary taskbar has a slot, and every slot serves a listed taskbar.
pub proof fn lemma_secondaries_follow_taskbars(slots: Seq<SecondarySlot>, trays: Seq<usize>, tray_alive: Seq<bool>, widget_alive: Seq<bool>)
    ensures
        forall|k: int|
            0 <= k < trays.len() ==> has_tray(
                with_new_trays(pruned_slots(slots, trays, tray_alive, widget_alive), trays),
                #[trigger] trays[k],
            ),
        forall|j: int|
            0 <= j < with_new_trays(pruned_slots(slots, trays, tray_alive, widget_alive), trays).len()
                ==> trays.contains(#[trigger] with_new_trays(pruned_slots(slots, trays, tray_alive, widget_alive), trays)[j].tray),
{
    let p = pruned_slots(slots, trays, tray_alive, widget_alive);
    lemma_pruned_listed(slots, trays, tray_alive, widget_alive);
    lemma_new_trays_cover(p, trays);
    let r = with_new_trays(p, trays);
    assert forall|j: int| 0 <= j < r.len() implies trays.contains(#[trigger] r[j].tray) by {
        if has_tray(p, r[j].tray) {
            let m = choose|m: int| 0 <= m < p.len() && #[trigger] p[m].tray == r[j].tray;
            assert(trays.contains(p[m].tray));
        }
    }
}

/// Everything but the secondary slots is left alone by a step.
pub open spec fn same_primary(a: App, b: App) -> bool {
    &&& a.mode == b.mode
    &&& a.attach_fails == b.attach_fails
    &&& a.present_fails == b.present_fails
    &&& a.reattach_countdown == b.reattach_countdown
    &&& a.widget == b.widget
    &&& a.metrics == b.metrics
    &&& a.light_theme == b.light_theme
    &&& a.taskbar_created_msg == b.taskbar_created_msg
}

impl App {
    proof fn lemma_replace_slot_keeps_wf(&self, i: int, s: SecondarySlot, slots: Seq<SecondarySlot>)
        requires
            self.wf(),
            0 <= i < self.secondary@.len(),
            slot_ok(s),
            s.tray == self.secondary@[i].tray,
            slots == self.secondary@.update(i, s),
        ensures
            forall|j: int| 0 <= j < slots.len() ==> slot_ok(#[trigger] slots[j]),
            trays_distinct(slots),
    {
        assert forall|a: int, b: int| 0 <= a < b < slots.len() implies #[trigger] slots[a].tray != #[trigger] slots[b].tray by {
            assert(self.secondary@[a].tray != self.secondary@[b].tray);
        }
    }

    /// What secondary slot `i` does this tick: a detached slot counts its
    /// cooldown down (`Wait`) and, once it has run out, asks for an attach;
    /// an attached slot follows its taskbar.
    pub fn secondary_step(&mut self, i: usize) -> (r: SlotStep)
        requires
            old(self).wf(),
            i < old(self).secondary@.len(),
        ensures
            final(self).wf(),
            same_primary(*old(self), *final(self)),
            slots_same_except(old(self).secondary@, final(self).secondary@, i as int),
            ({
                let s = old(self).secondary@[i as int];
                let t = final(self).secondary@[i as int];
                &&& s.widget is Some ==> r == SlotStep::Follow && t == s
                &&& s.widget is None && s.cooldown > 0 ==> r == SlotStep::Wait && t == (SecondarySlot { tray: s.tray, widget: None, cooldown: (s.cooldown - 1) as u32 })
                &&& s.widget is None && s.cooldown == 0 ==> r == SlotStep::Attach && t == s
            }),
    {
        let mut s = self.secondary.remove(i);
        let r = if s.widget.is_some() {
            SlotStep::Follow
        } else if s.cooldown > 0 {
            s.cooldown = s.cooldown - 1;
            SlotStep::Wait
        } else {
            SlotStep::Attach
        };
        let ghost old_self = *old(self);
        self.secondary.insert(i, s);
        proof {
            assert(self.secondary@ =~= old_self.secondary@.update(i as int, s));
            old_self.lemma_replace_slot_keeps_wf(i as int, s, self.secondary@);
        }
        r
    }

    /// Report the outcome of attaching secondary slot `i`: the new widget's
    /// window, tooltip and placement, or `None` (the taskbar could not be
    /// measured or the window not created), after which the slot waits
    /// `REATTACH_INTERVAL` ticks.
    pub fn secondary_attached(&mut self, i: usize, attached: Option<(usize, usize, Placement)>)
        requires
            old(self).wf(),
            i < old(self).secondary@.len(),
            old(self).secondary@[i as int].widget is None,
            attached matches Some(t) ==> placement_drawable(t.2),
        ensures
            final(self).wf(),
            same_primary(*old(self), *final(self)),
            slots_same_except(old(self).secondary@, final(self).secondary@, i as int),
            ({
                let s = old(self).secondary@[i as int];
                let t = final(self).secondary@[i as int];
                &&& t.tray == s.tray
                &&& attached matches Some(a) ==> (t.cooldown == s.cooldown && (t.widget matches Some(w) && fresh_widget(w, a.0, a.1, a.2)))
                &&& attached is None ==> t == detached_spec(s)
            }),
    {
        let mut s = self.secondary.remove(i);
        match attached {
            Some((window, tooltip, pl)) => {
                s.widget = Some(make_widget(window, tooltip, pl));
            },
            None => {
                s.cooldown = REATTACH_INTERVAL;
            },
        }
        let ghost old_self = *old(self);
        self.secondary.insert(i, s);
        proof {
            assert(self.secondary@ =~= old_self.secondary@.update(i as int, s));
            old_self.lemma_replace_slot_keeps_wf(i as int, s, self.secondary@);
        }
    }

    /// Follow a move, resize or DPI change of secondary slot `i`'s taskbar,
    /// as `sync_placement` does for the primary widget.
    pub fn secondary_follow(&mut self, i: usize, pl: Placement) -> (moved: bool)
        requires
            old(self).wf(),
            i < old(self).secondary@.len(),
            old(self).secondary@[i as int].widget is Some,
            placement_drawable(pl),
        ensures
            final(self).wf(),
            same_primary(*old(self), *final(self)),
            slots_same_except(old(self).secondary@, final(self).secondary@, i as int),
            ({
                let s = old(self).secondary@[i as int];
                let t = final(self).secondary@[i as int];
                &&& t.tray == s.tray
                &&& t.cooldown == s.cooldown
                &&& t.widget matches Some(w) && s.widget matches Some(ow) && {
                    &&& moved == (pl != ow.placement)
                    &&& w.window == ow.window && w.tooltip == ow.tooltip
                    &&& w.placement == pl
                    &&& (moved && (pl.w != ow.placement.w || pl.h != ow.placement.h)) ==> fresh_widget(w, ow.window, ow.tooltip, pl)
                    &&& !(moved && (pl.w != ow.placement.w || pl.h != ow.placement.h)) ==> w.renderer == ow.renderer
                }
            }),
    {
        let mut s = self.secondary.remove(i);
        let mut slot: Option<Widget> = None;
        std::mem::swap(&mut slot, &mut s.widget);
        let mut w = slot.unwrap();
        let moved = pl != w.placement;
        if moved {
            if pl.w != w.placement.w || pl.h != w.placement.h {
                w.renderer = Renderer::new(pl.w, pl.h);
            }
            w.placement = pl;
        }
        s.widget = Some(w);
        let ghost old_self = *old(self);
        self.secondary.insert(i, s);
        proof {
            assert(self.secondary@ =~= old_self.secondary@.update(i as int, s));
            old_self.lemma_replace_slot_keeps_wf(i as int, s, self.secondary@);
        }
        moved
    }

    /// Report whether presenting secondary slot `i`'s widget worked (`false`
    /// too when it has no surface). A failure just detaches the slot (its
    /// widget is returned for destruction); it retries after the cooldown
    /// and never changes the primary widget's mode.
    pub fn secondary_presented(&mut self, i: usize, ok: bool) -> (released: Option<Widget>)
        requires
            old(self).wf(),
            i < old(self).secondary@.len(),
            old(self).secondary@[i as int].widget is Some,
        ensures
            final(self).wf(),
            same_primary(*old(self), *final(self)),
            ok ==> final(self).secondary@ == old(self).secondary@ && released is None,
            !ok ==> final(self).secondary@ == old(self).secondary@.update(i as int, detached_spec(old(self).secondary@[i as int]))
                && released == old(self).secondary@[i as int].widget,
    {
        if ok {
            return None;
        }
        let mut s = self.secondary.remove(i);
        let mut released: Option<Widget> = None;
        std::mem::swap(&mut released, &mut s.widget);
        s.cooldown = REATTACH_INTERVAL;
        let ghost old_self = *old(self);
        self.secondary.insert(i, s);
        proof {
            assert(self.secondary@ =~= old_self.secondary@.update(i as int, s));
            old_self.lemma_replace_slot_keeps_wf(i as int, s, self.secondary@);
        }
        released
    }

    /// Drop every secondary slot, returning their widgets in slot order.
    fn release_secondaries(&mut self) -> (released: Vec<Widget>)
        requires
            old(self).wf(),
        ensures
            final(self).wf(),
            same_primary(*old(self), *final(self)),
            final(self).secondary@.len() == 0,
            released@ == slot_widgets(old(self).secondary@),
    {
        let ghost orig = self.secondary@;
        let mut rest: Vec<SecondarySlot> = Vec::new();
        std::mem::swap(&mut rest, &mut self.secondary);
        let mut released: Vec<Widget> = Vec::new();
        let n = rest.len();
        let mut i: usize = 0;
        while i < n
            invariant
                n == orig.len(),
                i <= n,
                rest@ == orig.skip(i as int),
                released@ == slot_widgets(orig.take(i as int)),
            decreases n - i,
        {
            proof {
                assert(orig.take(i + 1).drop_last() =~= orig.take(i as int));
                assert(rest@[0] == orig[i as int]);
                assert(orig.skip(i + 1) =~= rest@.drop_first());
            }
            let s = rest.remove(0);
            match s.widget {
                Some(w) => released.push(w),
                None => {},
            }
            proof {
                assert(released@ =~= slot_widgets(orig.take(i + 1)));
            }
            i = i + 1;
        }
        proof {
            assert(orig.take(n as int) =~= orig);
        }
        released
    }

    /// Explorer restarted and recreated every taskbar: go back to taskbar
    /// mode with a fresh failure count, drop the primary widget and every
    /// secondary slot (all stale now; returned for destruction), and ask
    /// for an attach. If it fails (the notification area may not exist yet)
    /// the next tick retries.
    pub fn on_taskbar_created(&mut self) -> (r: (Next, Vec<Widget>))
        requires
            old(self).wf(),
        ensures
            final(self).wf(),
            r.0 == Next::Attach,
            r.1@ == widget_seq(old(self).widget) + slot_widgets(old(self).secondary@),
            final(self).mode == Mode::Taskbar,
            final(self).attach_fails == 0,
            final(self).widget is None,
            final(self).secondary@.len() == 0,
            final(self).present_fails == old(self).present_fails,
            final(self).reattach_countdown == old(self).reattach_countdown,
            final(self).metrics == old(self).metrics,
            final(self).light_theme == old(self).light_theme,
            final(self).taskbar_created_msg == old(self).taskbar_created_msg,
    {
        self.mode = Mode::Taskbar;
        self.attach_fails = 0;
        let primary = self.drop_widget_state();
        let mut released: Vec<Widget> = Vec::new();
        match primary {
            Some(w) => released.push(w),
            None => {},
        }
        let mut others = self.release_secondaries();
        released.append(&mut others);
        (Next::Attach, released)
    }

    /// Some widget window is already gone: `primary_alive` and
    /// `slots_alive[i]` say which widget windows still exist. The primary
    /// widget's state is dropped if its window is gone, and each secondary
    /// slot whose window is gone is detached. Returns the widgets let go.
    pub fn on_widget_dead(&mut self, primary_alive: bool, slots_alive: &Vec<bool>) -> (released: Vec<Widget>)
        requires
            old(self).wf(),
            slots_alive@.len() == old(self).secondary@.len(),
        ensures
            final(self).wf(),
            final(self).mode == old(self).mode,
            final(self).attach_fails == old(self).attach_fails,
            final(self).present_fails == old(self).present_fails,
            final(self).reattach_countdown == old(self).reattach_countdown,
            final(self).metrics == old(self).metrics,
            final(self).light_theme == old(self).light_theme,
            final(self).taskbar_created_msg == old(self).taskbar_created_msg,
            final(self).widget == if primary_alive { old(self).widget } else { None },
            final(self).secondary@.len() == old(self).secondary@.len(),
            forall|i: int|
                0 <= i < old(self).secondary@.len() ==> #[trigger] final(self).secondary@[i] == if old(self).secondary@[i].widget is Some && !slots_alive@[i] {
                    detached_spec(old(self).secondary@[i])
                } else {
                    old(self).secondary@[i]
                },
    {
        let mut released: Vec<Widget> = Vec::new();
        if !primary_alive {
            match self.drop_widget_state() {
                Some(w) => released.push(w),
                None => {},
            }
        }
        let ghost orig = self.secondary@;
        let ghost mid = *self;
        let n = self.secondary.len();
        let mut i: usize = 0;
        while i < n
            invariant
                same_primary(mid, *self),
                n == orig.len(),
                slots_alive@.len() == n,
                i <= n,
                self.wf(),
                self.secondary@.len() == n,
                forall|j: int| 0 <= j < i ==> #[trigger] self.secondary@[j] == if orig[j].widget is Some && !slots_alive@[j] {
                    detached_spec(orig[j])
                } else {
                    orig[j]
                },
                forall|j: int| i <= j < n ==> #[trigger] self.secondary@[j] == orig[j],
            decreases n - i,
        {
            if !slots_alive[i] && self.secondary[i].widget.is_some() {
                match self.secondary_presented(i, false) {
                    Some(w) => released.push(w),
                    None => {},
                }
            }
            i = i + 1;
        }
        released
    }

    /// Shutting down: drop every widget, returning them for destruction.
    pub fn shutdown(&mut self) -> (released: Vec<Widget>)
        requires
            old(self).wf(),
        ensures
            final(self).wf(),
            released@ == widget_seq(old(self).widget) + slot_widgets(old(self).secondary@),
            final(self).widget is None,
            final(self).secondary@.len() == 0,
            final(self).mode == old(self).mode,
            final(self).attach_fails == old(self).attach_fails,
            final(self).present_fails == old(self).present_fails,
            final(self).reattach_countdown == old(self).reattach_countdown,
            final(self).metrics == old(self).metrics,
            final(self).light_theme == old(self).light_theme,
            final(self).taskbar_created_msg == old(self).taskbar_created_msg,
    {
        let primary = self.drop_widget_state();
        let mut released: Vec<Widget> = Vec::new();
        match primary {
            Some(w) => released.push(w),
            None => {},
        }
        let mut others = self.release_secondaries();
        released.append(&mut others);
        released
    }
}

/// The setting name that a theme-change notification carries, as the
/// NUL-terminated UTF-16 text it arrives in.
pub fn immersive_color_set_name() -> (r: Vec<u16>)
    ensures
        r@ == wide_spec("ImmersiveColorSet"@),
{
    wide("ImmersiveColorSet")
}

/// Whether a setting-change notification is the theme change: its text,
/// read up to and including the first NUL but no further than the length
/// of `immersive_color_set_name()`, is exactly "ImmersiveColorSet".
pub fn is_immersive_color_set(text: &[u16]) -> (r: bool)
    ensures
        r == (text@ == wide_spec("ImmersiveColorSet"@)),
{
    let name = immersive_color_set_name();
    if text.len() != name.len() {
        return false;
    }
    let mut i: usize = 0;
    while i < name.len()
        invariant
            name@ == wide_spec("ImmersiveColorSet"@),
            text@.len() == name@.len(),
            i <= name@.len(),
            forall|j: int| 0 <= j < i ==> text@[j] == name@[j],
        decreases name@.len() - i,
    {
        if text[i] != name[i] {
            assert(text@[i as int] != name@[i as int]);
            return false;
        }
        i = i + 1;
    }
    assert(text@ =~= name@);
    true
}

/// Whether a placement can be handed to the attach steps (see
/// `placement_drawable`).
pub fn placement_is_drawable(pl: &Placement) -> (r: bool)
    ensures
        r == placement_drawable(*pl),
{
    if pl.w > 0 && pl.h > 0 {
        assert((pl.w as i64) * (pl.h as i64) <= 0x7fff_ffff * 0x7fff_ffff) by (nonlinear_arith)
            requires
                0 < pl.w <= 0x7fff_ffff,
                0 < pl.h <= 0x7fff_ffff,
        ;
        if (pl.w as i64) * (pl.h as i64) <= 0x7fff_ffff {
            return crate::render::draw_fits_check(pl.w, pl.h, pl.dpi);
        }
    }
    true
}

proof fn lemma_small_scales(dpi: u32)
    requires
        crate::util::scale_fits(crate::taskbar::BASE_W as int, dpi),
        crate::util::scale_spec(crate::taskbar::BASE_W as int, dpi) > 0,
    ensures
        dpi <= i32::MAX,
        crate::util::scale_fits(2, dpi),
        crate::util::scale_fits(4, dpi),
        crate::util::scale_fits(6, dpi),
        0 <= crate::util::scale_spec(2, dpi) <= crate::util::scale_spec(4, dpi) <= crate::util::scale_spec(6, dpi)
            <= crate::util::scale_spec(crate::taskbar::BASE_W as int, dpi) <= 22369621,
{
    let d = crate::util::dpi_as_i32(dpi);
    if d <= 0 {
        assert(46 * d <= 0) by (nonlinear_arith)
            requires
                d <= 0,
        ;
        assert(46 * d + 48 <= 48);
        vstd::arithmetic::div_mod::lemma_div_is_ordered(46 * d + 48, 48, 96);
    }
    assert(dpi <= i32::MAX);
    assert(0 <= 2 * d <= 4 * d <= 6 * d <= 46 * d) by (nonlinear_arith)
        requires
            d > 0,
    ;
    crate::util::lemma_scale_monotonic_in_value(0, 2, dpi);
    crate::util::lemma_scale_monotonic_in_value(2, 4, dpi);
    crate::util::lemma_scale_monotonic_in_value(4, 6, dpi);
    crate::util::lemma_scale_monotonic_in_value(6, 46, dpi);
    assert(crate::util::scale_spec(0, dpi) == 0);
    vstd::arithmetic::div_mod::lemma_div_is_ordered(46 * d + 48, 0x7fff_ffff, 96);
}

proof fn lemma_drawable_when_scaled(w: int, h: int, dpi: u32)
    requires
        crate::util::scale_fits(crate::taskbar::BASE_W as int, dpi),
        crate::util::scale_spec(crate::taskbar::BASE_W as int, dpi) > 0,
        w == crate::util::scale_spec(crate::taskbar::BASE_W as int, dpi),
        0 < h <= i32::MAX,
    ensures
        draw_fits(w, h, dpi),
{
    lemma_small_scales(dpi);
    let t = crate::util::div_toward_zero(h - (2 * crate::render::bar_height_spec(dpi) + crate::render::gap_spec(dpi)), 2);
    assert(t <= h / 2 + 1);
}

/// Every placement the taskbar geometry produces can be drawn: a widget
/// with a positive width implies a DPI small enough for the drawing
/// arithmetic.
pub proof fn lemma_taskbar_placements_drawable(tr: crate::taskbar::Rect, anchor_x: i32, wa: crate::taskbar::Rect, dpi: u32)
    ensures
        crate::taskbar::left_of_fits(tr, anchor_x, dpi) && crate::taskbar::left_of_spec(tr, anchor_x, dpi) is Some
            ==> placement_drawable(crate::taskbar::left_of_spec(tr, anchor_x, dpi)->0),
        crate::taskbar::fallback_fits(wa, dpi) ==> placement_drawable(crate::taskbar::fallback_spec(wa, dpi)),
{
    if crate::taskbar::left_of_fits(tr, anchor_x, dpi) && crate::taskbar::left_of_spec(tr, anchor_x, dpi) is Some {
        let p = crate::taskbar::left_of_spec(tr, anchor_x, dpi)->0;
        if p.w > 0 && p.h > 0 {
            lemma_drawable_when_scaled(p.w as int, p.h as int, dpi);
        }
    }
    if crate::taskbar::fallback_fits(wa, dpi) {
        let p = crate::taskbar::fallback_spec(wa, dpi);
        if p.w > 0 && p.h > 0 {
            lemma_drawable_when_scaled(p.w as int, p.h as int, dpi);
        }
    }
}

/// What a timer tick does with the primary widget once it exists.
#[derive(Clone, Copy, Debug, PartialEq, Eq, Structural)]
pub enum TickStep {
    /// No widget: nothing to follow.
    Nothing,
    /// On the taskbar: measure it and report with `sync_placement`.
    FollowTaskbar,
    /// In fallback mode: report with `tick_fallback`.
    TickFallback,
}

impl App {
    /// The primary widget's part of a tick (after the metrics are sampled
    /// and `ensure_widget` has run, before the secondary taskbars, the
    /// render and the tooltip update): follow the taskbar when attached to
    /// it, run the fallback countdown in fallback mode, nothing without a
    /// widget.
    pub fn tick_step(&self) -> (r: TickStep)
        ensures
            r == (if self.widget is None {
                TickStep::Nothing
            } else if self.mode == Mode::Taskbar {
                TickStep::FollowTaskbar
            } else {
                TickStep::TickFallback
            }),
    {
        if self.widget.is_none() {
            TickStep::Nothing
        } else {
            match self.mode {
                Mode::Taskbar => TickStep::FollowTaskbar,
                Mode::Fallback => TickStep::TickFallback,
            }
        }
    }
}

proof fn lemma_pruned_slots_members(slots: Seq<SecondarySlot>, trays: Seq<usize>, tray_alive: Seq<bool>, widget_alive: Seq<bool>)
    requires
        tray_alive.len() == slots.len(),
        widget_alive.len() == slots.len(),
    ensures
        forall|i: int|
            0 <= i < slots.len() && trays.contains(slots[i].tray) && tray_alive[i] && !(slots[i].widget is Some && !widget_alive[i])
                ==> exists|j: int| 0 <= j < pruned_slots(slots, trays, tray_alive, widget_alive).len() && #[trigger] pruned_slots(slots, trays, tray_alive, widget_alive)[j] == slots[i],
        forall|i: int|
            0 <= i < slots.len() && trays.contains(slots[i].tray) && tray_alive[i] && slots[i].widget is Some && !widget_alive[i]
                ==> exists|j: int| 0 <= j < pruned_slots(slots, trays, tray_alive, widget_alive).len() && #[trigger] pruned_slots(slots, trays, tray_alive, widget_alive)[j] == detached_spec(slots[i]),
        forall|j: int|
            0 <= j < pruned_slots(slots, trays, tray_alive, widget_alive).len() ==> exists|i: int| 0 <= i < slots.len() && tray_alive[i] && #[trigger] pruned_slots(slots, trays, tray_alive, widget_alive)[j].tray == slots[i].tray,
    decreases slots.len(),
{
    if slots.len() > 0 {
        let init = slots.drop_last();
        let ta = tray_alive.drop_last();
        let wa = widget_alive.drop_last();
        lemma_pruned_slots_members(init, trays, ta, wa);
        lemma_pruned_slots_prefix_alive(init, trays, tray_alive, widget_alive);
        let rest = pruned_slots(init, trays, tray_alive, widget_alive);
        let p = pruned_slots(slots, trays, tray_alive, widget_alive);
        assert(pruned_slots(init, trays, ta, wa) == rest);
        let k = slots.len() - 1;
        assert(forall|j: int| 0 <= j < rest.len() ==> #[trigger] p[j] == rest[j]);
        assert forall|i: int|
            0 <= i < slots.len() && trays.contains(slots[i].tray) && tray_alive[i] && !(slots[i].widget is Some && !widget_alive[i])
                implies exists|j: int| 0 <= j < p.len() && #[trigger] p[j] == slots[i] by {
            if i < k {
                assert(init[i] == slots[i] && ta[i] == tray_alive[i] && wa[i] == widget_alive[i]);
                let j = choose|j: int| 0 <= j < rest.len() && #[trigger] rest[j] == init[i];
                assert(p[j] == slots[i]);
            } else {
                assert(p[rest.len() as int] == slots[i]);
            }
        }
        assert forall|i: int|
            0 <= i < slots.len() && trays.contains(slots[i].tray) && tray_alive[i] && slots[i].widget is Some && !widget_alive[i]
                implies exists|j: int| 0 <= j < p.len() && #[trigger] p[j] == detached_spec(slots[i]) by {
            if i < k {
                assert(init[i] == slots[i] && ta[i] == tray_alive[i] && wa[i] == widget_alive[i]);
                let j = choose|j: int| 0 <= j < rest.len() && #[trigger] rest[j] == detached_spec(init[i]);
                assert(p[j] == detached_spec(slots[i]));
            } else {
                assert(p[rest.len() as int] == detached_spec(slots[i]));
            }
        }
        assert forall|j: int| 0 <= j < p.len() implies exists|i: int| 0 <= i < slots.len() && tray_alive[i] && #[trigger] p[j].tray == slots[i].tray by {
            if j < rest.len() {
                let i = choose|i: int| 0 <= i < init.len() && ta[i] && #[trigger] rest[j].tray == init[i].tray;
                assert(slots[i] == init[i] && tray_alive[i] == ta[i]);
                assert(p[j].tray == slots[i].tray);
            } else {
                assert(p[j].tray == slots[k].tray);
            }
        }
    }
}

proof fn lemma_pruned_slots_prefix_alive(init: Seq<SecondarySlot>, trays: Seq<usize>, tray_alive: Seq<bool>, widget_alive: Seq<bool>)
    requires
        tray_alive.len() == init.len() + 1,
        widget_alive.len() == init.len() + 1,
    ensures
        pruned_slots(init, trays, tray_alive, widget_alive) == pruned_slots(init, trays, tray_alive.drop_last(), widget_alive.drop_last()),
    decreases init.len(),
{
    if init.len() > 0 {
        let ta = tray_alive.drop_last();
        let wa = widget_alive.drop_last();
        lemma_pruned_slots_prefix_alive_gen(init.drop_last(), trays, tray_alive, widget_alive, ta, wa);
    }
}

proof fn lemma_pruned_slots_prefix_alive_gen(init: Seq<SecondarySlot>, trays: Seq<usize>, ta1: Seq<bool>, wa1: Seq<bool>, ta2: Seq<bool>, wa2: Seq<bool>)
    requires
        forall|i: int| 0 <= i < init.len() ==> ta1[i] == ta2[i] && wa1[i] == wa2[i],
    ensures
        pruned_slots(init, trays, ta1, wa1) == pruned_slots(init, trays, ta2, wa2),
    decreases init.len(),
{
    if init.len() > 0 {
        lemma_pruned_slots_prefix_alive_gen(init.drop_last(), trays, ta1, wa1, ta2, wa2);
    }
}

proof fn lemma_new_trays_extend(base: Seq<SecondarySlot>, trays: Seq<usize>)
    ensures
        with_new_trays(base, trays).len() >= base.len(),
        forall|j: int| 0 <= j < base.len() ==> #[trigger] with_new_trays(base, trays)[j] == base[j],
        forall|j: int|
            base.len() <= j < with_new_trays(base, trays).len() ==> #[trigger] with_new_trays(base, trays)[j] == new_slot_spec(with_new_trays(base, trays)[j].tray),
        forall|k: int|
            0 <= k < trays.len() && !has_tray(base, trays[k]) ==> exists|j: int|
                0 <= j < with_new_trays(base, trays).len() && #[trigger] with_new_trays(base, trays)[j] == new_slot_spec(trays[k]),
    decreases trays.len(),
{
    if trays.len() > 0 {
        let init = trays.drop_last();
        lemma_new_trays_extend(base, init);
        let s = with_new_trays(base, init);
        let r = with_new_trays(base, trays);
        assert(forall|j: int| 0 <= j < s.len() ==> #[trigger] r[j] == s[j]);
        assert forall|k: int| 0 <= k < trays.len() && !has_tray(base, trays[k]) implies exists|j: int|
            0 <= j < r.len() && #[trigger] r[j] == new_slot_spec(trays[k]) by {
            if k < init.len() {
                assert(init[k] == trays[k]);
                let j = choose|j: int| 0 <= j < s.len() && #[trigger] s[j] == new_slot_spec(init[k]);
                assert(r[j] == s[j]);
            } else if has_tray(s, trays.last()) {
                let j = choose|j: int| 0 <= j < s.len() && #[trigger] s[j].tray == trays.last();
                if j < base.len() {
                    assert(base[j].tray == trays[k]);
                    assert(has_tray(base, trays[k]));
                }
                assert(r[j] == s[j]);
                assert(s[j] == new_slot_spec(trays[k]));
            } else {
                assert(r[s.len() as int] == new_slot_spec(trays[k]));
            }
        }
    }
}

/// Re-enumerating the secondary taskbars keeps every slot of a listed,
/// live taskbar whose widget is not dead exactly as it was (same widget,
/// same cooldown, so a cooling-down slot keeps waiting); detaches a slot
/// whose widget died (no widget, a full `REATTACH_INTERVAL` cooldown); and
/// gives each listed taskbar that had no live slot a new slot that attaches
/// on its first tick. Every slot afterwards serves a listed taskbar.
pub proof fn lemma_sync_secondaries_slots(slots: Seq<SecondarySlot>, trays: Seq<usize>, tray_alive: Seq<bool>, widget_alive: Seq<bool>)
    requires
        tray_alive.len() == slots.len(),
        widget_alive.len() == slots.len(),
    ensures
        ({
            let r = with_new_trays(pruned_slots(slots, trays, tray_alive, widget_alive), trays);
            &&& forall|i: int|
                0 <= i < slots.len() && trays.contains(slots[i].tray) && tray_alive[i] && !(slots[i].widget is Some && !widget_alive[i])
                    ==> exists|j: int| 0 <= j < r.len() && #[trigger] r[j] == slots[i]
            &&& forall|i: int|
                0 <= i < slots.len() && trays.contains(slots[i].tray) && tray_alive[i] && slots[i].widget is Some && !widget_alive[i]
                    ==> exists|j: int| 0 <= j < r.len() && #[trigger] r[j] == (SecondarySlot { tray: slots[i].tray, widget: None, cooldown: REATTACH_INTERVAL })
            &&& forall|k: int|
                #![trigger trays[k]]
                0 <= k < trays.len() && (forall|i: int| 0 <= i < slots.len() && #[trigger] slots[i].tray == trays[k] ==> !tray_alive[i])
                    ==> exists|j: int| 0 <= j < r.len() && #[trigger] r[j] == (SecondarySlot { tray: trays[k], widget: None, cooldown: 0 })
            &&& forall|j: int| 0 <= j < r.len() ==> trays.contains(#[trigger] r[j].tray)
        }),
{
    let p = pruned_slots(slots, trays, tray_alive, widget_alive);
    let r = with_new_trays(p, trays);
    lemma_pruned_slots_members(slots, trays, tray_alive, widget_alive);
    lemma_new_trays_extend(p, trays);
    lemma_secondaries_follow_taskbars(slots, trays, tray_alive, widget_alive);
    assert forall|i: int|
        0 <= i < slots.len() && trays.contains(slots[i].tray) && tray_alive[i] && !(slots[i].widget is Some && !widget_alive[i])
            implies exists|j: int| 0 <= j < r.len() && #[trigger] r[j] == slots[i] by {
        let j = choose|j: int| 0 <= j < p.len() && #[trigger] p[j] == slots[i];
        assert(r[j] == p[j]);
    }
    assert forall|i: int|
        0 <= i < slots.len() && trays.contains(slots[i].tray) && tray_alive[i] && slots[i].widget is Some && !widget_alive[i]
            implies exists|j: int| 0 <= j < r.len() && #[trigger] r[j] == (SecondarySlot { tray: slots[i].tray, widget: None, cooldown: REATTACH_INTERVAL }) by {
        let j = choose|j: int| 0 <= j < p.len() && #[trigger] p[j] == detached_spec(slots[i]);
        assert(r[j] == p[j]);
    }
    assert forall|k: int|
        #![trigger trays[k]]
        0 <= k < trays.len() && (forall|i: int| 0 <= i < slots.len() && #[trigger] slots[i].tray == trays[k] ==> !tray_alive[i])
            implies exists|j: int| 0 <= j < r.len() && #[trigger] r[j] == (SecondarySlot { tray: trays[k], widget: None, cooldown: 0 }) by {
        if has_tray(p, trays[k]) {
            let j = choose|j: int| 0 <= j < p.len() && #[trigger] p[j].tray == trays[k];
            let i = choose|i: int| 0 <= i < slots.len() && tray_alive[i] && #[trigger] p[j].tray == slots[i].tray;
            assert(slots[i].tray == trays[k]);
        }
        assert(new_slot_spec(trays[k]) == (SecondarySlot { tray: trays[k], widget: None, cooldown: 0 }));
    }
}

} // verus!
