//! A structured text-logging library: leveled messages are rendered through
//! `{{key}}` placeholder templates and dispatched to one or more sinks.

pub mod formatter;
pub mod laws;
pub mod logger;
pub mod subst;

pub use formatter::{Formatter, Level, Output};
pub use laws::is_template_ok;
pub use logger::Logger;
pub use subst::replace_all;
