use corescribe::transcript::{classify_error, classify_lowered, filter_timestamps};

fn reference_filter(text: &str) -> String {
    text.lines()
        .filter(|line| !line.starts_with('[') && !line.trim().is_empty())
        .map(|line| line.trim())
        .collect::<Vec<_>>()
        .join("\n")
        .trim()
        .to_string()
}

#[test]
fn filter_drops_timestamp_and_blank_lines() {
    let text = "[00:00:00.000 --> 00:00:02.000]  Hello there.\n\n  Plain line  \n[meta]\nlast\n";
    assert_eq!(filter_timestamps(text), "Plain line\nlast");
}

#[test]
fn filter_keeps_indented_bracket_lines_trimmed() {
    assert_eq!(filter_timestamps("  [indented]\nok"), "[indented]\nok");
}

#[test]
fn filter_handles_crlf_and_empty_input() {
    assert_eq!(filter_timestamps("one\r\ntwo\r\n"), "one\ntwo");
    assert_eq!(filter_timestamps(""), "");
    assert_eq!(filter_timestamps("[only]\n\n   \n"), "");
}

#[test]
fn filter_matches_reference_on_samples() {
    let samples = [
        "1\n00:00:00,000 --> 00:00:01,000\nHallo Welt\n\n2\n00:00:01,000 --> 00:00:02,000\nZweite Zeile\n",
        "[a]\n[b]\n c \r\n\r\n d\u{3000}",
        "\u{2028}x\u{2028}",
        "a\rb\n\rc\r",
    ];
    for s in samples {
        assert_eq!(filter_timestamps(s), reference_filter(s), "{:?}", s);
    }
}

#[test]
fn filtered_lines_are_the_kept_lines() {
    let text = " one \n[ts]\n\ttwo\n\n three";
    let out = filter_timestamps(text);
    let lines: Vec<&str> = out.lines().collect();
    assert_eq!(lines, vec!["one", "two", "three"]);
    assert!(lines.iter().all(|l| !l.is_empty() && l.trim() == *l));
}

#[test]
fn classify_each_class() {
    assert_eq!(classify_error("Unsupported bit depth: 8"), ("Unsupported Format", true));
    assert_eq!(classify_error("Failed to download tiny model: x"), ("Network Error", false));
    assert_eq!(classify_error("No audio samples found"), ("Empty Audio", true));
    assert_eq!(classify_error("Whisper failed with code: 1"), ("Whisper Error", false));
    assert_eq!(classify_error("something else"), ("Error", false));
}

#[test]
fn classify_first_class_wins() {
    assert_eq!(
        classify_error("format probe failed: connection reset"),
        ("Unsupported Format", true)
    );
    assert_eq!(classify_error("internet gone, file empty"), ("Network Error", false));
}

#[test]
fn classify_matches_in_lowercase() {
    // Would fail if the message were matched without lowercasing it.
    assert_eq!(classify_error("NOT FOUND: whisper.exe"), ("Whisper Error", false));
    assert_eq!(classify_error("Check your INTERNET"), ("Network Error", false));
    assert_eq!(classify_lowered("NOT FOUND"), ("Error", false));
}

#[test]
fn filter_distributes_over_line_feed_join() {
    let parts = [
        "",
        "[ts]",
        " one \r",
        "two\n[x]\n",
        "a\r\n\r\nb",
        "\n",
        "last\r",
    ];
    for a in parts {
        for b in parts {
            let joined = format!("{}\n{}", a, b);
            let fa = filter_timestamps(a);
            let fb = filter_timestamps(b);
            let want = [fa, fb]
                .into_iter()
                .filter(|s| !s.is_empty())
                .collect::<Vec<_>>()
                .join("\n");
            assert_eq!(filter_timestamps(&joined), want, "{:?} / {:?}", a, b);
        }
    }
}
