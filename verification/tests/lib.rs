use logging_rs;

#[test]
fn test_level_default() {
    assert_eq!(logging_rs::Level::default(), logging_rs::Level::DEBUG);
}

#[test]
fn test_output_default() {
    assert_eq!(logging_rs::Output::default(), logging_rs::Output::STDOUT);
}

#[test]
fn test_formatter_default() {
    assert_eq!(
        logging_rs::Formatter::default(),
        logging_rs::Formatter {
            color_format_string:
                "[{{color.bright_blue}}{{timestamp}}{{end}}] [{{level}}] {{path}}: {{message}}"
                    .to_owned(),
            format_string: "[{{timestamp}}] [{{level}}] {{path}}: {{message}}".to_owned(),
            timestamp_format: "%Y-%m-%d %H:%M:%S".to_owned()
        }
    );
}

#[test]
fn test_formatter_new() {
    assert_eq!(
        logging_rs::Formatter::new(
            "[{{color.bright_blue}}{{timestamp}}{{end}}] [{{level}}] {{path}}: {{message}}",
            "[{{timestamp}}] [{{level}}] {{path}}: {{message}}",
            "%Y-%m-%d %H:%M:%S"
        ),
        logging_rs::Formatter {
            color_format_string:
                "[{{color.bright_blue}}{{timestamp}}{{end}}] [{{level}}] {{path}}: {{message}}"
                    .to_owned(),
            format_string: "[{{timestamp}}] [{{level}}] {{path}}: {{message}}".to_owned(),
            timestamp_format: "%Y-%m-%d %H:%M:%S".to_owned()
        }
    );
}

#[test]
fn test_formatter_format() {
    let formatter: logging_rs::Formatter = logging_rs::Formatter::default();

    assert_eq!(
        formatter.format(
            logging_rs::Output::default(),
            logging_rs::Level::default(),
            "Test",
            vec![]
        ),
        format!(
            "[\x1b[94m{}\x1b[0m] [DEBUG] {{{{path}}}}: Test",
            chrono::Local::now().format(&logging_rs::Formatter::default().timestamp_format)
        )
    );
}

#[test]
fn test_logger_default() {
    assert_eq!(
        logging_rs::Logger::default(),
        logging_rs::Logger {
            formatter: logging_rs::Formatter::default(),
            writable_list: vec![logging_rs::Output::STDOUT]
        }
    );
}

#[test]
fn test_logger_new() {
    assert_eq!(
        logging_rs::Logger::new(
            logging_rs::Formatter::default(),
            vec![logging_rs::Output::STDOUT]
        ),
        logging_rs::Logger {
            formatter: logging_rs::Formatter::default(),
            writable_list: vec![logging_rs::Output::STDOUT]
        }
    );
}
