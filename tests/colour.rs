use csp_pretty::{handle_line, Row, Value};

#[test]
fn colouring_frames_values_by_verdict() {
    colored::control::set_override(true);
    assert_eq!(Value::from("'self'").pretty(), "\x1B[32m'self'\x1B[0m");
    assert_eq!(Value::from("data:").pretty(), "\x1B[31mdata:\x1B[0m");
    assert_eq!(Value::from("*").pretty(), "\x1B[41;30m*\x1B[0m");
    assert_eq!(Value::from("a.com").pretty(), "a.com");
    let row = Row::from("img-src a.com 'none'").unwrap();
    assert_eq!(
        row.to_colored_string(" "),
        "\x1B[34mimg-src\x1B[0m a.com \x1B[32m'none'\x1B[0m"
    );
    assert_eq!(
        handle_line("default-src 'self'; img-src *", true),
        "\x1B[34mdefault-src\x1B[0m\n\t\x1B[32m'self'\x1B[0m;\n\x1B[34mimg-src\x1B[0m\n\t\x1B[41;30m*\x1B[0m"
    );
}
