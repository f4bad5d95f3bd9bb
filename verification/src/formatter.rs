//! Log levels, sink descriptors, and the template-driven message formatter.

use vstd::prelude::*;
use std::fmt::Write;

use crate::subst::{placeholder, spec_replace, spec_subst, make_placeholder, replace_all};

verus! {

/// Log levels. They select a display label (and its color on console sinks);
/// no level filtering exists, every call is rendered.
#[derive(Copy, Clone, Debug, PartialEq, Eq, PartialOrd, Ord, Hash, Structural)]
pub enum Level {
    /// Debug log level. The default value
    DEBUG,
    /// Info log level
    INFO,
    /// Warn log level
    WARN,
    /// Error log level
    ERROR,
    /// Fatal log level
    FATAL,
    /// Message log level
    MESSAGE,
}

impl Default for Level {
    /// The default level is `DEBUG`.
    fn default() -> (res: Level)
        ensures
            res == Level::DEBUG,
    {
        Level::DEBUG
    }
}

/// Output sinks: a console stream or a file identified by its path.
#[derive(Clone, Debug, Eq, Hash)]
pub enum Output {
    /// Stdout. The default value
    STDOUT,
    /// Stderr
    STDERR,
    /// File
    FILE {
        /// File path
        path: String,
    },
}

impl Default for Output {
    /// The default sink is standard output.
    fn default() -> (res: Output)
        ensures
            res == Output::STDOUT,
    {
        Output::STDOUT
    }
}

impl PartialEq for Output {
    fn eq(&self, other: &Output) -> (r: bool) {
        match (self, other) {
            (Output::STDOUT, Output::STDOUT) => true,
            (Output::STDERR, Output::STDERR) => true,
            (Output::FILE { path: a }, Output::FILE { path: b }) => *a == *b,
            _ => false,
        }
    }
}

/// Two sink descriptors denote the same sink: the same console stream, or
/// files of the same path.
pub open spec fn output_eq(a: Output, b: Output) -> bool {
    ||| (a is STDOUT && b is STDOUT)
    ||| (a is STDERR && b is STDERR)
    ||| (a is FILE && b is FILE && a->path@ == b->path@)
}

impl vstd::std_specs::cmp::PartialEqSpecImpl for Output {
    open spec fn obeys_eq_spec() -> bool {
        true
    }

    open spec fn eq_spec(&self, other: &Output) -> bool {
        output_eq(*self, *other)
    }
}

/// Console sinks use the color template; all other sinks the plain one.
pub open spec fn is_console(output: Output) -> bool {
    match output {
        Output::STDOUT => true,
        Output::STDERR => true,
        Output::FILE { .. } => false,
    }
}

/// The plain display label of a level.
pub open spec fn spec_plain_label(level: Level) -> Seq<char> {
    match level {
        Level::DEBUG => "DEBUG"@,
        Level::INFO => "INFO"@,
        Level::WARN => "WARNING"@,
        Level::ERROR => "ERROR"@,
        Level::FATAL => "FATAL"@,
        Level::MESSAGE => "MESSAGE"@,
    }
}

/// The display label of a level on console sinks: wrapped in color
/// placeholders (and closed with the reset placeholder), except for `DEBUG`,
/// which stays unstyled.
pub open spec fn spec_colored_label(level: Level) -> Seq<char> {
    match level {
        Level::DEBUG => "DEBUG"@,
        Level::INFO => "{{color.blue}}INFO{{end}}"@,
        Level::WARN => "{{color.yellow}}WARNING{{end}}"@,
        Level::ERROR => "{{color.red}}ERROR{{end}}"@,
        Level::FATAL => "{{color.red}}FATAL{{end}}"@,
        Level::MESSAGE => "{{color.blue}}MESSAGE{{end}}"@,
    }
}

fn plain_label(level: Level) -> (res: &'static str)
    ensures
        res@ == spec_plain_label(level),
{
    match level {
        Level::DEBUG => "DEBUG",
        Level::INFO => "INFO",
        Level::WARN => "WARNING",
        Level::ERROR => "ERROR",
        Level::FATAL => "FATAL",
        Level::MESSAGE => "MESSAGE",
    }
}

fn colored_label(level: Level) -> (res: &'static str)
    ensures
        res@ == spec_colored_label(level),
{
    match level {
        Level::DEBUG => "DEBUG",
        Level::INFO => "{{color.blue}}INFO{{end}}",
        Level::WARN => "{{color.yellow}}WARNING{{end}}",
        Level::ERROR => "{{color.red}}ERROR{{end}}",
        Level::FATAL => "{{color.red}}FATAL{{end}}",
        Level::MESSAGE => "{{color.blue}}MESSAGE{{end}}",
    }
}

/// The fixed palette of ANSI color and style substitution entries.
pub open spec fn spec_palette() -> Seq<(Seq<char>, Seq<char>)> {
    seq![
        ("end"@, "\x1b[0m"@),
        ("bold"@, "\x1b[1m"@),
        ("italic"@, "\x1b[3m"@),
        ("underline"@, "\x1b[4m"@),
        ("overline"@, "\x1b[53m"@),
        ("color.black"@, "\x1b[30m"@),
        ("color.red"@, "\x1b[31m"@),
        ("color.green"@, "\x1b[32m"@),
        ("color.yellow"@, "\x1b[33m"@),
        ("color.blue"@, "\x1b[34m"@),
        ("color.magenta"@, "\x1b[35m"@),
        ("color.cyan"@, "\x1b[36m"@),
        ("color.white"@, "\x1b[37m"@),
        ("color.bright_black"@, "\x1b[90m"@),
        ("color.bright_red"@, "\x1b[91m"@),
        ("color.bright_green"@, "\x1b[92m"@),
        ("color.bright_yellow"@, "\x1b[93m"@),
        ("color.bright_blue"@, "\x1b[94m"@),
        ("color.bright_magenta"@, "\x1b[95m"@),
        ("color.bright_cyan"@, "\x1b[96m"@),
        ("color.bright_white"@, "\x1b[97m"@),
        ("back.black"@, "\x1b[40m"@),
        ("back.red"@, "\x1b[41m"@),
        ("back.green"@, "\x1b[42m"@),
        ("back.yellow"@, "\x1b[43m"@),
        ("back.blue"@, "\x1b[44m"@),
        ("back.magenta"@, "\x1b[45m"@),
        ("back.cyan"@, "\x1b[46m"@),
        ("back.white"@, "\x1b[47m"@),
        ("back.bright_black"@, "\x1b[100m"@),
        ("back.bright_red"@, "\x1b[101m"@),
        ("back.bright_green"@, "\x1b[102m"@),
        ("back.bright_yellow"@, "\x1b[103m"@),
        ("back.bright_blue"@, "\x1b[104m"@),
        ("back.bright_magenta"@, "\x1b[105m"@),
        ("back.bright_cyan"@, "\x1b[106m"@),
        ("back.bright_white"@, "\x1b[107m"@),
    ]
}

/// The views of an executable substitution table's entries.
pub open spec fn views_of(s: Seq<(&str, String)>) -> Seq<(Seq<char>, Seq<char>)> {
    s.map_values(|p: (&str, String)| (p.0@, p.1@))
}

fn build_palette() -> (res: Vec<(&'static str, String)>)
    ensures
        views_of(res@) == spec_palette(),
{
    let mut v: Vec<(&'static str, String)> = Vec::new();
    v.push(("end", "\x1b[0m".to_owned()));
    v.push(("bold", "\x1b[1m".to_owned()));
    v.push(("italic", "\x1b[3m".to_owned()));
    v.push(("underline", "\x1b[4m".to_owned()));
    v.push(("overline", "\x1b[53m".to_owned()));
    v.push(("color.black", "\x1b[30m".to_owned()));
    v.push(("color.red", "\x1b[31m".to_owned()));
    v.push(("color.green", "\x1b[32m".to_owned()));
    v.push(("color.yellow", "\x1b[33m".to_owned()));
    v.push(("color.blue", "\x1b[34m".to_owned()));
    v.push(("color.magenta", "\x1b[35m".to_owned()));
    v.push(("color.cyan", "\x1b[36m".to_owned()));
    v.push(("color.white", "\x1b[37m".to_owned()));
    v.push(("color.bright_black", "\x1b[90m".to_owned()));
    v.push(("color.bright_red", "\x1b[91m".to_owned()));
    v.push(("color.bright_green", "\x1b[92m".to_owned()));
    v.push(("color.bright_yellow", "\x1b[93m".to_owned()));
    v.push(("color.bright_blue", "\x1b[94m".to_owned()));
    v.push(("color.bright_magenta", "\x1b[95m".to_owned()));
    v.push(("color.bright_cyan", "\x1b[96m".to_owned()));
    v.push(("color.bright_white", "\x1b[97m".to_owned()));
    v.push(("back.black", "\x1b[40m".to_owned()));
    v.push(("back.red", "\x1b[41m".to_owned()));
    v.push(("back.green", "\x1b[42m".to_owned()));
    v.push(("back.yellow", "\x1b[43m".to_owned()));
    v.push(("back.blue", "\x1b[44m".to_owned()));
    v.push(("back.magenta", "\x1b[45m".to_owned()));
    v.push(("back.cyan", "\x1b[46m".to_owned()));
    v.push(("back.white", "\x1b[47m".to_owned()));
    v.push(("back.bright_black", "\x1b[100m".to_owned()));
    v.push(("back.bright_red", "\x1b[101m".to_owned()));
    v.push(("back.bright_green", "\x1b[102m".to_owned()));
    v.push(("back.bright_yellow", "\x1b[103m".to_owned()));
    v.push(("back.bright_blue", "\x1b[104m".to_owned()));
    v.push(("back.bright_magenta", "\x1b[105m".to_owned()));
    v.push(("back.bright_cyan", "\x1b[106m".to_owned()));
    v.push(("back.bright_white", "\x1b[107m".to_owned()));
    proof {
        assert(views_of(v@) =~= spec_palette());
    }
    v
}

/// The substitution table of one formatting call, in replacement order:
/// the message, the timestamp, the level label (colored on console sinks,
/// plain otherwise), the fixed palette, and only then the caller's extra
/// entries. Replacement consumes placeholders left to right per entry, so on
/// a duplicate key the entry that stands earlier in this table wins: every
/// reserved entry beats a caller entry of the same name.
pub open spec fn spec_table(
    level: Level,
    console: bool,
    message: Seq<char>,
    timestamp: Seq<char>,
    extra: Seq<(Seq<char>, Seq<char>)>,
) -> Seq<(Seq<char>, Seq<char>)> {
    seq![
        ("message"@, message),
        ("timestamp"@, timestamp),
        ("level"@, if console { spec_colored_label(level) } else { spec_plain_label(level) }),
    ] + spec_palette() + extra
}

/// Logging formatter object: two template strings (one with color escape
/// placeholders, one plain) and a strftime-style timestamp pattern.
///
/// Use [`Formatter::new()`] to create formatter objects.
#[derive(Clone, Debug, Eq, Hash)]
pub struct Formatter {
    /// Format string supporting special ASCII control characters
    pub color_format_string: String,
    /// Format string *NOT* supporting special ASCII control characters
    pub format_string: String,
    /// Timestamp format string in strftime format
    pub timestamp_format: String,
}

impl PartialEq for Formatter {
    fn eq(&self, other: &Formatter) -> (r: bool) {
        self.color_format_string == other.color_format_string && self.format_string
            == other.format_string && self.timestamp_format == other.timestamp_format
    }
}

/// Two formatters hold the same templates and timestamp pattern.
pub open spec fn formatter_eq(a: Formatter, b: Formatter) -> bool {
    a.color_format_string@ == b.color_format_string@ && a.format_string@ == b.format_string@
        && a.timestamp_format@ == b.timestamp_format@
}

impl vstd::std_specs::cmp::PartialEqSpecImpl for Formatter {
    open spec fn obeys_eq_spec() -> bool {
        true
    }

    open spec fn eq_spec(&self, other: &Formatter) -> bool {
        formatter_eq(*self, *other)
    }
}

/// The template a sink selects: the color template on console sinks, the
/// plain template otherwise.
pub open spec fn spec_template(f: Formatter, output: Output) -> Seq<char> {
    if is_console(output) {
        f.color_format_string@
    } else {
        f.format_string@
    }
}

/// The rendered text of one formatting call: the sink's template after
/// substituting the call's table, given the rendered timestamp.
pub open spec fn spec_format(
    f: Formatter,
    output: Output,
    level: Level,
    message: Seq<char>,
    timestamp: Seq<char>,
    extra: Seq<(Seq<char>, Seq<char>)>,
) -> Seq<char> {
    spec_subst(
        spec_template(f, output),
        spec_table(level, is_console(output), message, timestamp, extra),
    )
}

/// Relies on `chrono::Local::now` and `chrono::DateTime::format`: renders the
/// current local time with the strftime-style `pattern`. The result depends
/// on the clock, so nothing is promised of it. `write!` is used instead of
/// `to_string` so that an invalid pattern yields an empty string rather than
/// a panic.
#[verifier::external_body]
fn formatted_now(pattern: &str) -> (res: String) {
    let now = chrono::Local::now();
    let mut out = String::new();
    match write!(out, "{}", now.format(pattern)) {
        Ok(()) => out,
        Err(_) => String::new(),
    }
}

impl Default for Formatter {
    /// The default formatter: bracketed bright-blue timestamp, level label
    /// and call-site path before the message, timestamps as
    /// `"%Y-%m-%d %H:%M:%S"`.
    fn default() -> (res: Formatter)
        ensures
            res.color_format_string@
                == "[{{color.bright_blue}}{{timestamp}}{{end}}] [{{level}}] {{path}}: {{message}}"@,
            res.format_string@ == "[{{timestamp}}] [{{level}}] {{path}}: {{message}}"@,
            res.timestamp_format@ == "%Y-%m-%d %H:%M:%S"@,
    {
        Formatter::new(
            "[{{color.bright_blue}}{{timestamp}}{{end}}] [{{level}}] {{path}}: {{message}}",
            "[{{timestamp}}] [{{level}}] {{path}}: {{message}}",
            "%Y-%m-%d %H:%M:%S",
        )
    }
}

impl Formatter {
    /// Creates a new formatter object holding exactly the given color
    /// template, plain template and timestamp pattern.
    pub fn new(color_format_string: &str, format_string: &str, timestamp_format: &str) -> (res:
        Formatter)
        ensures
            res.color_format_string@ == color_format_string@,
            res.format_string@ == format_string@,
            res.timestamp_format@ == timestamp_format@,
    {
        Formatter {
            color_format_string: color_format_string.to_owned(),
            format_string: format_string.to_owned(),
            timestamp_format: timestamp_format.to_owned(),
        }
    }

    /// Formats `message` for `output` at `level` with the given, already
    /// rendered, timestamp text: the sink's template with the call's whole
    /// substitution table applied, entry by entry.
    pub fn format_with_timestamp(
        &self,
        output: &Output,
        level: Level,
        message: &str,
        timestamp: &str,
        extra_arguments: Vec<(&str, String)>,
    ) -> (res: String)
        ensures
            res@ == spec_format(
                *self,
                *output,
                level,
                message@,
                timestamp@,
                views_of(extra_arguments@),
            ),
    {
        let console = match output {
            Output::STDOUT => true,
            Output::STDERR => true,
            Output::FILE { .. } => false,
        };
        let ghost extra_views = views_of(extra_arguments@);
        let mut table: Vec<(&str, String)> = Vec::new();
        table.push(("message", message.to_owned()));
        table.push(("timestamp", timestamp.to_owned()));
        if console {
            table.push(("level", colored_label(level).to_owned()));
        } else {
            table.push(("level", plain_label(level).to_owned()));
        }
        let mut palette = build_palette();
        table.append(&mut palette);
        let mut extra = extra_arguments;
        table.append(&mut extra);
        let ghost full_table = spec_table(level, console, message@, timestamp@, extra_views);
        proof {
            assert(views_of(table@) =~= full_table);
        }
        let mut result: String = if console {
            self.color_format_string.clone()
        } else {
            self.format_string.clone()
        };
        let ghost goal = spec_format(*self, *output, level, message@, timestamp@, extra_views);
        proof {
            assert(full_table.skip(0) =~= full_table);
        }
        let n = table.len();
        let mut idx: usize = 0;
        while idx < n
            invariant
                idx <= n,
                n == table@.len(),
                views_of(table@) == full_table,
                spec_subst(result@, full_table.skip(idx as int)) == goal,
            decreases n - idx,
        {
            let pat = make_placeholder(table[idx].0);
            let replaced = replace_all(result.as_str(), pat.as_str(), table[idx].1.as_str());
            proof {
                assert(full_table.skip(idx as int)[0] == full_table[idx as int]);
                assert(full_table[idx as int] == views_of(table@)[idx as int]);
                assert(full_table.skip(idx as int).skip(1) =~= full_table.skip(idx + 1));
            }
            result = replaced;
            idx = idx + 1;
        }
        proof {
            assert(full_table.skip(n as int) =~= Seq::<(Seq<char>, Seq<char>)>::empty());
        }
        result
    }

    /// Formats `message` for `output` at `level`, taking the timestamp from
    /// the clock: the result is the sink's template with the call's table
    /// applied, for some rendered timestamp text.
    pub fn format(
        &self,
        output: Output,
        level: Level,
        message: &str,
        extra_arguments: Vec<(&str, String)>,
    ) -> (res: String)
        ensures
            exists|ts: Seq<char>|
                res@ == spec_format(
                    *self,
                    output,
                    level,
                    message@,
                    ts,
                    views_of(extra_arguments@),
                ),
    {
        let timestamp = formatted_now(self.timestamp_format.as_str());
        let res = self.format_with_timestamp(
            &output,
            level,
            message,
            timestamp.as_str(),
            extra_arguments,
        );
        proof {
            assert(res@ == spec_format(
                *self,
                output,
                level,
                message@,
                timestamp@,
                views_of(extra_arguments@),
            ));
        }
        res
    }
}

} // verus!
