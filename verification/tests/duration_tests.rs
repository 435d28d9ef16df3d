use arewefastyet::cargo::parse_run_time;
use arewefastyet::cargo::Milliseconds;

#[test]
fn parse_compile_times() {
    let inputs = [
        ("Finished dev [unoptimized + debuginfo] target(s) in 4m 26s", Milliseconds(266000)),
        ("Finished dev [unoptimized + debuginfo] target(s) in 0.86s", Milliseconds(860)),
        ("Finished release [optimized] target(s) in 1.33s", Milliseconds(1330)),
    ];

    for (input, expected) in inputs.iter() {
        let output = parse_run_time(input).expect("summary line should parse");
        assert_eq!(&output, expected);
    }
}

#[test]
fn parse_run_time_rejects_streams_without_summary() {
    assert!(parse_run_time("").is_none());
    assert!(parse_run_time("error[E0308]: mismatched types").is_none());
    // A summary head without the duration token parses nothing.
    assert!(parse_run_time("Finished dev build").is_none());
    // A token without a recognizable duration fragment fails too.
    assert!(parse_run_time("Finished dev target(s) in soon").is_none());
}

#[test]
fn parse_run_time_takes_the_last_token_of_the_line() {
    // The duration follows the last occurrence of the token on the line.
    let line = "Finished x target(s) in y target(s) in 2s";
    assert_eq!(parse_run_time(line), Some(Milliseconds(2000)));
}

#[test]
fn parse_run_time_reads_surrounding_lines() {
    let stderr = "   Compiling foo v0.1.0\n    Finished dev [unoptimized] target(s) in 2m 3s\nwarning: unused";
    assert_eq!(parse_run_time(stderr), Some(Milliseconds(123000)));
}

#[test]
fn grammar_agrees_with_a_general_duration_parser() {
    let fragments = [
        "4m 26s",
        "0.86s",
        "1.33s",
        "26",
        "120ms",
        "1.5m",
        "2m 3s",
        "0.001s",
        "00000000000000000004m",
        "1.0000000005s",
    ];
    for fragment in fragments.iter() {
        let reference = parse_duration::parse(fragment).expect("reference parser accepts");
        let line = format!("Finished dev [unoptimized] target(s) in {}", fragment);
        let ours = parse_run_time(line.as_str()).expect("summary line parses");
        assert_eq!(ours, Milliseconds(reference.as_millis() as u64));
    }
}

#[test]
fn leading_zeros_are_value_not_length() {
    assert_eq!(
        parse_run_time("Finished dev target(s) in 00000000000000000004m"),
        Some(Milliseconds(240000)),
    );
}

#[test]
fn parse_run_time_accepts_bare_seconds_and_milliseconds() {
    assert_eq!(
        parse_run_time("Finished dev target(s) in 26"),
        Some(Milliseconds(26000)),
    );
    assert_eq!(
        parse_run_time("Finished dev target(s) in 120ms"),
        Some(Milliseconds(120)),
    );
    assert_eq!(
        parse_run_time("Finished dev target(s) in 1.5m"),
        Some(Milliseconds(90000)),
    );
}
