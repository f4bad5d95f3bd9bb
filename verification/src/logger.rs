//! The logger: a formatter plus an ordered list of sinks, rendering each
//! message once per sink.

use vstd::prelude::*;

use crate::formatter::{Formatter, Level, Output, formatter_eq, output_eq, spec_format, views_of};

verus! {

/// `line` is a rendering of `message` for `output` at `level` with the
/// substitution table built from `extra`: the sink's template with the
/// call's table applied, for some rendered timestamp text.
pub open spec fn rendered_line(
    f: Formatter,
    output: Output,
    level: Level,
    message: Seq<char>,
    extra: Seq<(Seq<char>, Seq<char>)>,
    line: Seq<char>,
) -> bool {
    exists|ts: Seq<char>| line == spec_format(f, output, level, message, ts, extra)
}

/// Clones a sink descriptor.
fn clone_output(output: &Output) -> (res: Output)
    ensures
        res == *output,
{
    match output {
        Output::STDOUT => Output::STDOUT,
        Output::STDERR => Output::STDERR,
        Output::FILE { path } => Output::FILE { path: path.clone() },
    }
}

/// Clones a substitution argument list.
fn clone_arguments<'a>(arguments: &Vec<(&'a str, String)>) -> (res: Vec<(&'a str, String)>)
    ensures
        res@ == arguments@,
{
    let mut res: Vec<(&'a str, String)> = Vec::new();
    let n = arguments.len();
    let mut i: usize = 0;
    while i < n
        invariant
            i <= n,
            n == arguments@.len(),
            res@ == arguments@.subrange(0, i as int),
        decreases n - i,
    {
        res.push((arguments[i].0, arguments[i].1.clone()));
        proof {
            assert(res@ =~= arguments@.subrange(0, i + 1));
        }
        i = i + 1;
    }
    proof {
        assert(arguments@.subrange(0, n as int) =~= arguments@);
    }
    res
}

/// Logger object: an immutable formatter and a fixed, ordered list of sinks.
///
/// Use [`Logger::new()`] to create logger objects.
#[derive(Clone, Debug, Eq, Hash)]
pub struct Logger {
    /// The formatter used for every message
    pub formatter: Formatter,
    /// The sinks each rendered message is written to, in order
    pub writable_list: Vec<Output>,
}

impl PartialEq for Logger {
    fn eq(&self, other: &Logger) -> (r: bool) {
        if !(self.formatter == other.formatter) {
            return false;
        }
        let n = self.writable_list.len();
        if n != other.writable_list.len() {
            return false;
        }
        let mut i: usize = 0;
        while i < n
            invariant
                i <= n,
                n == self.writable_list@.len() == other.writable_list@.len(),
                formatter_eq(self.formatter, other.formatter),
                forall|j: int|
                    0 <= j < i ==> output_eq(self.writable_list@[j], other.writable_list@[j]),
            decreases n - i,
        {
            if !(self.writable_list[i] == other.writable_list[i]) {
                return false;
            }
            i = i + 1;
        }
        true
    }
}

impl vstd::std_specs::cmp::PartialEqSpecImpl for Logger {
    open spec fn obeys_eq_spec() -> bool {
        true
    }

    open spec fn eq_spec(&self, other: &Logger) -> bool {
        &&& formatter_eq(self.formatter, other.formatter)
        &&& self.writable_list@.len() == other.writable_list@.len()
        &&& forall|j: int|
            0 <= j < self.writable_list@.len() ==> output_eq(
                self.writable_list@[j],
                other.writable_list@[j],
            )
    }
}

impl Default for Logger {
    /// The default logger: the default formatter writing to standard output
    /// alone.
    fn default() -> (res: Logger)
        ensures
            res.formatter.color_format_string@
                == "[{{color.bright_blue}}{{timestamp}}{{end}}] [{{level}}] {{path}}: {{message}}"@,
            res.formatter.format_string@ == "[{{timestamp}}] [{{level}}] {{path}}: {{message}}"@,
            res.formatter.timestamp_format@ == "%Y-%m-%d %H:%M:%S"@,
            res.writable_list@ =~= seq![Output::STDOUT],
    {
        let res = Logger::new(Formatter::default(), vec![Output::STDOUT]);
        proof {
            assert(res.writable_list@ =~= seq![Output::STDOUT]);
        }
        res
    }
}

impl Logger {
    /// Creates a new logger object holding exactly the given formatter and
    /// sink list.
    pub fn new(formatter: Formatter, writable_list: Vec<Output>) -> (res: Logger)
        ensures
            res.formatter == formatter,
            res.writable_list == writable_list,
    {
        Logger { formatter, writable_list }
    }

    /// Renders `message` once per configured sink, in sink order: the result
    /// holds, for each sink, the text the sink's template produces, with
    /// `("path", path)` put before the caller's arguments so that the
    /// template's `{{path}}` names the call site even when a caller entry
    /// carries the reserved name. Each rendering takes its own timestamp from
    /// the clock; nothing is written anywhere.
    pub fn render(
        &self,
        message: &str,
        level: Level,
        path: &str,
        arguments: Vec<(&str, String)>,
    ) -> (res: Vec<String>)
        ensures
            res@.len() == self.writable_list@.len(),
            forall|i: int|
                0 <= i < res@.len() ==> #[trigger] rendered_line(
                    self.formatter,
                    self.writable_list@[i],
                    level,
                    message@,
                    seq![("path"@, path@)] + views_of(arguments@),
                    res@[i]@,
                ),
    {
        let mut args: Vec<(&str, String)> = Vec::new();
        args.push(("path", path.to_owned()));
        let mut rest = arguments;
        args.append(&mut rest);
        proof {
            assert(views_of(args@) =~= seq![("path"@, path@)] + views_of(arguments@));
        }
        let mut res: Vec<String> = Vec::new();
        let n = self.writable_list.len();
        let mut i: usize = 0;
        while i < n
            invariant
                i <= n,
                n == self.writable_list@.len(),
                res@.len() == i,
                views_of(args@) == seq![("path"@, path@)] + views_of(arguments@),
                forall|j: int|
                    0 <= j < i ==> #[trigger] rendered_line(
                        self.formatter,
                        self.writable_list@[j],
                        level,
                        message@,
                        seq![("path"@, path@)] + views_of(arguments@),
                        res@[j]@,
                    ),
            decreases n - i,
        {
            let sink = clone_output(&self.writable_list[i]);
            let cloned = clone_arguments(&args);
            let line = self.formatter.format(sink, level, message, cloned);
            let ghost table = seq![("path"@, path@)] + views_of(arguments@);
            res.push(line);
            proof {
                let ts0 = choose|ts: Seq<char>|
                    line@ == spec_format(
                        self.formatter,
                        sink,
                        level,
                        message@,
                        ts,
                        views_of(cloned@),
                    );
                assert(line@ == spec_format(
                    self.formatter,
                    self.writable_list@[i as int],
                    level,
                    message@,
                    ts0,
                    table,
                ));
                assert(rendered_line(
                    self.formatter,
                    self.writable_list@[i as int],
                    level,
                    message@,
                    table,
                    res@[i as int]@,
                ));
            }
            i = i + 1;
        }
        res
    }
}

} // verus!
