use sloposcope::text::line_count;

#[test]
fn line_count_matches_str_lines() {
    let samples = [
        "",
        "one",
        "one\n",
        "one\ntwo",
        "one\r\ntwo\r\n",
        "\n\n",
        "a\n\nb\n",
        "trailing cr\r",
    ];
    for s in samples {
        assert_eq!(line_count(s), s.lines().count(), "for {:?}", s);
    }
}

#[test]
fn line_count_exact_values() {
    assert_eq!(line_count(""), 0);
    assert_eq!(line_count("x"), 1);
    assert_eq!(line_count("x\n"), 1);
    assert_eq!(line_count("x\ny\n\n"), 3);
}
