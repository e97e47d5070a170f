use ani_dl::progress::{extract_percent, extract_speed, parse_line, LineSignal, ProgressSignal};

fn progress(percent: &str, rate: Option<&str>) -> LineSignal {
    LineSignal::Progress(ProgressSignal {
        percent: percent.to_string(),
        rate: rate.map(|r| r.to_string()),
    })
}

#[test]
fn full_progress_line() {
    let line = "[download]  42.5% of 100MiB at 3.21MiB/s ETA 00:10";
    assert_eq!(parse_line(line), progress("42.5", Some("3.21MiB/s")));
    match parse_line(line) {
        LineSignal::Progress(signal) => {
            assert_eq!(signal.percent.parse::<f32>().unwrap(), 42.5);
            assert_eq!(signal.rate.as_deref(), Some("3.21MiB/s"));
        }
        LineSignal::NoSignal => panic!("a progress line gave no signal"),
    }
}

#[test]
fn line_without_percent_is_no_signal() {
    assert_eq!(parse_line("[download] Destination: ep1.mp4"), LineSignal::NoSignal);
    assert_eq!(parse_line("[download] 3MiB at 1MiB/s ETA 00:03"), LineSignal::NoSignal);
}

#[test]
fn line_without_tag_is_no_signal() {
    assert_eq!(parse_line(" 42.5% of 100MiB at 3.21MiB/s ETA 00:10"), LineSignal::NoSignal);
    assert_eq!(parse_line("[info] 50% done"), LineSignal::NoSignal);
    assert_eq!(parse_line(""), LineSignal::NoSignal);
}

#[test]
fn malformed_number_keeps_the_rate() {
    let line = "[download]  n/a% of 100MiB at 3.21MiB/s ETA 00:10";
    assert_eq!(parse_line(line), progress("n/a", Some("3.21MiB/s")));
    match parse_line(line) {
        LineSignal::Progress(signal) => assert!(signal.percent.parse::<f32>().is_err()),
        LineSignal::NoSignal => panic!("a progress line gave no signal"),
    }
}

#[test]
fn percent_without_rate() {
    assert_eq!(parse_line("[download] 100% of 100MiB in 00:31"), progress("100", None));
    assert_eq!(parse_line("[download]   7.0% of ~10MiB at 1MiB/s"), progress("7.0", None));
    assert_eq!(parse_line("[download]   7.0% of ~10MiB ETA 00:02"), progress("7.0", None));
}

#[test]
fn last_percent_sign_wins() {
    assert_eq!(extract_percent("10% then 20% then 30%"), Some("30".to_string()));
    assert_eq!(
        parse_line("[download] file 50%.mp4  12.0% at 1KiB/s ETA 01:00"),
        progress("12.0", Some("1KiB/s"))
    );
}

#[test]
fn percent_word_is_delimited_by_whitespace() {
    assert_eq!(extract_percent("  42.5%"), Some("42.5".to_string()));
    assert_eq!(extract_percent("a\t42.5%"), Some("42.5".to_string()));
    assert_eq!(extract_percent("42.5%"), Some("42.5".to_string()));
    assert_eq!(extract_percent("[download]42%"), Some("[download]42".to_string()));
    assert_eq!(extract_percent("done %"), Some("".to_string()));
    assert_eq!(extract_percent("%"), Some("".to_string()));
    assert_eq!(extract_percent("no sign here"), None);
    assert_eq!(extract_percent(""), None);
}

#[test]
fn percent_word_with_non_ascii_text() {
    assert_eq!(extract_percent("épisode n°3 \u{a0}99.9% fini"), Some("99.9".to_string()));
}

#[test]
fn empty_percent_word_on_a_tagged_line() {
    assert_eq!(parse_line("[download] %"), progress("", None));
}

#[test]
fn rate_is_trimmed() {
    assert_eq!(extract_speed("x at    3.21MiB/s   ETA 00:10"), Some("3.21MiB/s".to_string()));
    assert_eq!(extract_speed("x at \t1.0KiB/s\t ETA 00:10"), Some("1.0KiB/s".to_string()));
    assert_eq!(extract_speed("x at  ETA 00:10"), Some("".to_string()));
}

#[test]
fn rate_needs_both_markers_in_order() {
    assert_eq!(extract_speed("x at 3.21MiB/s"), None);
    assert_eq!(extract_speed("x 3.21MiB/s ETA 00:10"), None);
    assert_eq!(extract_speed("x ETA 00:10 at 3.21MiB/s"), None);
    assert_eq!(extract_speed("x ETA 00:10 at 3.21MiB/s ETA 00:09"), None);
    assert_eq!(extract_speed("x at ETA y"), None);
    assert_eq!(extract_speed(""), None);
}

#[test]
fn rate_uses_the_first_of_each_marker() {
    assert_eq!(extract_speed("a at b at c ETA d ETA e"), Some("b at c".to_string()));
}

#[test]
fn rate_markers_are_case_sensitive() {
    assert_eq!(extract_speed("x AT 1MiB/s ETA 00:10"), None);
    assert_eq!(extract_speed("x at 1MiB/s eta 00:10"), None);
}
