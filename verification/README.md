# pulsebar

A tiny CPU / RAM meter that sits on the Windows 11 taskbar: two bars (CPU on
top, memory below) just left of the notification area, one more on each
secondary taskbar, and a plain always-on-top window in the bottom-right
corner when the taskbar cannot host it.

- `src/` is the verified library (Verus): UTF-16 strings and DPI scaling
  (`util`), the two colour palettes (`theme`), CPU / memory bookkeeping
  (`metrics`), drawing the bars into a premultiplied pixel buffer
  (`render`), widget geometry (`taskbar`), the context menu (`menu`) and the
  widget's attach / fallback / secondary-taskbar state machine (`window`).
- `app/` is the Windows program around it: it reads the system times and
  memory status, finds and measures the taskbar windows, creates, moves,
  presents and destroys windows, and runs the message loop, asking the
  library what to do at each step.
- `tests/` exercises the library on concrete values.
