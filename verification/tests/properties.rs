use logging_rs::{Formatter, Level, Logger, Output, is_template_ok, replace_all};

#[test]
fn default_templates_are_well_formed() {
    let formatter = Formatter::default();
    assert!(is_template_ok(&formatter.color_format_string));
    assert!(is_template_ok(&formatter.format_string));
}

#[test]
fn malformed_templates_are_rejected() {
    assert!(is_template_ok("no placeholders at all"));
    assert!(is_template_ok("single { braces } are fine"));
    assert!(is_template_ok("{{a}} and {{b.c}}"));
    assert!(is_template_ok("{{}}"));
    assert!(!is_template_ok("{{unclosed"));
    assert!(!is_template_ok("{{a{{x}}}}"));
    assert!(!is_template_ok("{{half}"));
}

fn fixed_format(output: Output, level: Level, message: &str) -> String {
    let formatter = Formatter::default();
    formatter.format_with_timestamp(&output, level, message, "2020-01-02 03:04:05", vec![])
}

#[test]
fn console_labels_are_color_wrapped() {
    assert!(fixed_format(Output::STDOUT, Level::DEBUG, "m").contains("[DEBUG]"));
    assert!(fixed_format(Output::STDOUT, Level::INFO, "m").contains("[\x1b[34mINFO\x1b[0m]"));
    assert!(fixed_format(Output::STDOUT, Level::WARN, "m").contains("[\x1b[33mWARNING\x1b[0m]"));
    assert!(fixed_format(Output::STDOUT, Level::ERROR, "m").contains("[\x1b[31mERROR\x1b[0m]"));
    assert!(fixed_format(Output::STDOUT, Level::FATAL, "m").contains("[\x1b[31mFATAL\x1b[0m]"));
    assert!(fixed_format(Output::STDERR, Level::MESSAGE, "m").contains("[\x1b[34mMESSAGE\x1b[0m]"));
}

#[test]
fn file_labels_are_plain() {
    let file = |level| {
        fixed_format(
            Output::FILE {
                path: "out.log".to_owned(),
            },
            level,
            "m",
        )
    };
    assert!(file(Level::DEBUG).contains("[DEBUG]"));
    assert!(file(Level::INFO).contains("[INFO]"));
    assert!(file(Level::WARN).contains("[WARNING]"));
    assert!(file(Level::ERROR).contains("[ERROR]"));
    assert!(file(Level::FATAL).contains("[FATAL]"));
    assert!(file(Level::MESSAGE).contains("[MESSAGE]"));
    assert!(!file(Level::ERROR).contains("\x1b"));
}

#[test]
fn substitution_is_order_independent() {
    let template = "[{{timestamp}}] {{message}} and {{message}}";
    let first_message = replace_all(
        &replace_all(template, "{{message}}", "hello"),
        "{{timestamp}}",
        "2020",
    );
    let first_timestamp = replace_all(
        &replace_all(template, "{{timestamp}}", "2020"),
        "{{message}}",
        "hello",
    );
    assert_eq!(first_message, first_timestamp);
    assert_eq!(first_message, "[2020] hello and hello");
}

#[test]
fn substitution_is_single_pass() {
    assert_eq!(replace_all("{{a}}", "{{a}}", "x{{a}}y"), "x{{a}}y");
    assert_eq!(replace_all("{{a}}{{a}}", "{{a}}", "-"), "--");
}

#[test]
fn formatting_is_deterministic() {
    let first = fixed_format(Output::STDOUT, Level::INFO, "same call");
    let second = fixed_format(Output::STDOUT, Level::INFO, "same call");
    assert_eq!(first, second);
}

#[test]
fn custom_formatter_round_trip() {
    let formatter = Formatter::new("color template", "plain template", "pattern");
    assert_eq!(formatter.color_format_string, "color template");
    assert_eq!(formatter.format_string, "plain template");
    assert_eq!(formatter.timestamp_format, "pattern");
}

#[test]
fn unresolved_placeholders_pass_through() {
    let formatter = Formatter::new("{{unknown_key}}", "{{unknown_key}}", "%Y-%m-%d %H:%M:%S");
    let rendered =
        formatter.format_with_timestamp(&Output::STDOUT, Level::DEBUG, "m", "ts", vec![]);
    assert_eq!(rendered, "{{unknown_key}}");
}

#[test]
fn default_console_line_shape() {
    let formatter = Formatter::default();
    let rendered = formatter.format_with_timestamp(
        &Output::STDOUT,
        Level::MESSAGE,
        "Test",
        "2020-01-02 03:04:05",
        vec![("path", "main.rs".to_owned())],
    );
    assert_eq!(
        rendered,
        "[\x1b[94m2020-01-02 03:04:05\x1b[0m] [\x1b[34mMESSAGE\x1b[0m] main.rs: Test"
    );
}

#[test]
fn render_stamps_the_clock() {
    let logger = Logger::default();
    let lines = logger.render("Test", Level::MESSAGE, "main.rs", vec![]);
    assert_eq!(lines.len(), 1);
    let line = &lines[0];
    assert!(line.starts_with("[\x1b[94m"));
    assert!(line.ends_with("] [\x1b[34mMESSAGE\x1b[0m] main.rs: Test"));
    let stamp: Vec<char> = line.chars().skip(6).take(19).collect();
    assert_eq!(stamp.len(), 19);
    for (i, c) in stamp.iter().enumerate() {
        match i {
            4 | 7 => assert_eq!(*c, '-'),
            10 => assert_eq!(*c, ' '),
            13 | 16 => assert_eq!(*c, ':'),
            _ => assert!(c.is_ascii_digit()),
        }
    }
}

#[test]
fn file_renderings_concatenate_without_separator() {
    let sink = Output::FILE {
        path: "out.log".to_owned(),
    };
    let logger = Logger::new(Formatter::default(), vec![sink.clone()]);
    let first = logger.render("first message", Level::INFO, "main.rs", vec![]);
    let second = logger.render("second message", Level::INFO, "main.rs", vec![]);
    assert_eq!(first.len(), 1);
    assert_eq!(second.len(), 1);
    assert!(!first[0].contains('\n'));
    assert!(!second[0].contains('\n'));
    let combined = format!("{}{}", first[0], second[0]);
    assert!(combined.contains("first message["));
    assert!(combined.ends_with("second message"));
}

#[test]
fn extra_arguments_substitute_into_the_message() {
    let formatter = Formatter::default();
    let rendered = formatter.format_with_timestamp(
        &Output::STDOUT,
        Level::DEBUG,
        "A message with more {{details}}",
        "ts",
        vec![("details", "stuff".to_owned())],
    );
    assert!(rendered.contains("A message with more stuff"));
}

#[test]
fn reserved_message_key_wins_over_extra_argument() {
    let formatter = Formatter::default();
    let rendered = formatter.format_with_timestamp(
        &Output::STDOUT,
        Level::DEBUG,
        "Real",
        "ts",
        vec![("message", "fake".to_owned())],
    );
    assert!(rendered.contains("Real"));
    assert!(!rendered.contains("fake"));
}

#[test]
fn reserved_level_key_wins_over_extra_argument() {
    let formatter = Formatter::new("{{level}}", "{{level}}", "%Y");
    let colored = formatter.format_with_timestamp(
        &Output::STDOUT,
        Level::INFO,
        "m",
        "ts",
        vec![("level", "X".to_owned())],
    );
    assert_eq!(colored, "\x1b[34mINFO\x1b[0m");
    let plain = formatter.format_with_timestamp(
        &Output::FILE {
            path: "out.log".to_owned(),
        },
        Level::WARN,
        "m",
        "ts",
        vec![("level", "X".to_owned())],
    );
    assert_eq!(plain, "WARNING");
}

#[test]
fn reserved_palette_key_wins_over_extra_argument() {
    let formatter = Formatter::new("{{end}}", "{{end}}", "%Y");
    let rendered = formatter.format_with_timestamp(
        &Output::STDOUT,
        Level::DEBUG,
        "m",
        "ts",
        vec![("end", "X".to_owned())],
    );
    assert_eq!(rendered, "\x1b[0m");
}

#[test]
fn reserved_path_key_wins_over_extra_argument() {
    let sink = Output::FILE {
        path: "out.log".to_owned(),
    };
    let logger = Logger::new(Formatter::default(), vec![sink]);
    let lines = logger.render(
        "m",
        Level::DEBUG,
        "main.rs",
        vec![("path", "CALLER".to_owned())],
    );
    assert_eq!(lines.len(), 1);
    assert!(lines[0].contains("] main.rs: m"));
    assert!(!lines[0].contains("CALLER"));
}

#[test]
fn later_keys_reach_inserted_text() {
    let formatter = Formatter::new("{{message}}", "{{message}}", "%Y");
    let rendered = formatter.format_with_timestamp(
        &Output::STDOUT,
        Level::DEBUG,
        "literal {{level}} stays",
        "ts",
        vec![],
    );
    assert_eq!(rendered, "literal DEBUG stays");
}
