//! Verified core of a tiny CPU / memory meter that sits on the Windows taskbar:
//! geometry, colours, pixel drawing, metric bookkeeping and the widget's
//! attach / fallback state machine. Everything that talks to the operating
//! system lives in the host program.

pub mod util;
pub mod theme;
pub mod metrics;
pub mod render;
pub mod taskbar;
pub mod menu;
pub mod window;
