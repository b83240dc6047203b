pub mod adb;
pub mod ansi;
pub mod classify;
pub mod color;
pub mod commute;
pub mod config;
pub mod level;
pub mod render;
pub mod scan;
pub mod session;
pub mod tags;
pub mod text;
pub mod tracker;
pub mod trim;
pub mod wrap;

pub use ansi::{get_active_codes_at_pos, get_ansi_segments, insert_ansi_codes_in_range, AnsiSegment};
pub use classify::{get_started_process, is_native_tags_line, parse_log_line, LogRecord};
pub use color::{Color, ColorTable};
pub use config::{get_adb_command, AdbDevice, AdbState, CliArgs};
pub use level::LogLevel;
pub use render::{Sink, State};
pub use session::{apply_message_rules, splice_gc, splice_strict_mode};
pub use tags::{is_matching_tag, TagFilter};
pub use tracker::{get_dead_process, is_matching_package, ProcessTracker};
pub use wrap::{get_wrapped_indent, wrap_text};
