use carbonthrone::dialog_screen::{
    decimal_string, render_dialog_screen, speaker_lines, text_fits, CONTEXT_LINES, WIDTH,
};
use carbonthrone::yarn::wrap_text;

/// Straightforward word wrapper used as an oracle.
fn simple_wrap(text: &str, max_width: usize) -> Vec<String> {
    if max_width == 0 || text.len() <= max_width {
        return vec![text.to_string()];
    }
    let mut lines = Vec::new();
    let mut current = String::new();
    for word in text.split(' ') {
        if current.is_empty() {
            current.push_str(word);
        } else if current.len() + 1 + word.len() <= max_width {
            current.push(' ');
            current.push_str(word);
        } else {
            lines.push(current.clone());
            current = word.to_string();
        }
    }
    if !current.is_empty() {
        lines.push(current);
    }
    lines
}

/// The expected screen, built with `format!` layout rules.
fn expected_screen(history: &[(String, String)], choices: &[String], waiting: bool) -> Vec<String> {
    let mut out = String::new();
    let bar = "=".repeat(WIDTH);
    out.push_str(&format!("{bar}\r\n"));
    out.push_str(&format!("{:^width$}\r\n", "C A R B O N T H R O N E", width = WIDTH));
    out.push_str(&format!("{bar}\r\n\r\n"));
    let start = history.len().saturating_sub(CONTEXT_LINES);
    for (speaker, text) in &history[start..] {
        let label = format!("[{}]", speaker.to_uppercase());
        for wrapped in simple_wrap(text, WIDTH.saturating_sub(label.len() + 3)) {
            out.push_str(&format!("  {label} {wrapped}\r\n"));
        }
    }
    out.push_str("\r\n");
    out.push_str(&format!("  {}\r\n", "-".repeat(WIDTH - 2)));
    if !choices.is_empty() {
        out.push_str("\r\n");
        for (i, choice) in choices.iter().enumerate() {
            out.push_str(&format!("  [{}] {}\r\n", i + 1, choice));
        }
        out.push_str("\r\n");
    }
    out.push_str(&format!("{bar}\r\n"));
    if waiting {
        out.push_str(&format!("  Press 1-{} to choose\r\n", choices.len()));
    } else {
        out.push_str("  [any key] next\r\n");
    }
    out.push_str(&format!("{bar}\r\n"));
    let mut lines: Vec<String> = out.split("\r\n").map(|s| s.to_string()).collect();
    lines.pop();
    lines
}

fn pair(s: &str, t: &str) -> (String, String) {
    (s.to_string(), t.to_string())
}

#[test]
fn screen_shows_a_line() {
    let history = vec![pair("orin", "Hello.")];
    let lines = render_dialog_screen(&history, &vec![], false);
    assert_eq!(lines.len(), 10);
    assert_eq!(lines[0], "=".repeat(58));
    assert_eq!(lines[1], format!("{}C A R B O N T H R O N E{}", " ".repeat(17), " ".repeat(18)));
    assert_eq!(lines[4], "  [ORIN] Hello.");
    assert_eq!(lines[6], format!("  {}", "-".repeat(56)));
    assert_eq!(lines[8], "  [any key] next");
    assert_eq!(lines, expected_screen(&history, &[], false));
}

#[test]
fn screen_lists_options() {
    let history = vec![pair("Kaleo", "Choose.")];
    let choices = vec!["Yes".to_string(), "No".to_string()];
    let lines = render_dialog_screen(&history, &choices, true);
    assert!(lines.contains(&"  [1] Yes".to_string()));
    assert!(lines.contains(&"  [2] No".to_string()));
    assert!(lines.contains(&"  Press 1-2 to choose".to_string()));
    assert_eq!(lines, expected_screen(&history, &choices, true));
}

#[test]
fn screen_keeps_the_last_five_lines_and_wraps_long_ones() {
    let long = "the station drifts and nobody knows why the loop began, perhaps that is enough for now";
    let mut history = Vec::new();
    for i in 0..7 {
        history.push(pair(&format!("speaker{i}"), &format!("line {i}")));
    }
    history.push(pair("Dr.Orin", long));
    let lines = render_dialog_screen(&history, &vec![], false);
    assert!(!lines.iter().any(|l| l.contains("[SPEAKER2]")));
    assert!(lines.iter().any(|l| l.contains("[SPEAKER3] line 3")));
    assert_eq!(lines, expected_screen(&history, &[], false));
    let choices: Vec<String> = (0..12).map(|i| format!("option {i}")).collect();
    assert_eq!(
        render_dialog_screen(&history, &choices, true),
        expected_screen(&history, &choices, true)
    );
}

#[test]
fn speaker_lines_prefix_every_piece() {
    let lines = speaker_lines("DOSS", "short");
    assert_eq!(lines, vec!["  [DOSS] short".to_string()]);
    let wide = "X".repeat(60);
    // A label too wide for the frame leaves no room: the text is not wrapped.
    assert_eq!(speaker_lines(&wide, "a b c"), vec![format!("  [{wide}] a b c")]);
}

#[test]
fn decimal_numbers() {
    for n in [0usize, 7, 10, 42, 1000, 123456789] {
        assert_eq!(decimal_string(n), n.to_string());
    }
}

#[test]
fn text_fits_in_memory() {
    assert!(text_fits(""));
    assert!(text_fits("ordinary text"));
}

#[test]
fn wrap_agrees_with_simple_wrapper() {
    let texts = [
        "",
        "one",
        "two  spaces  here",
        " leading and trailing ",
        "a bb ccc dddd eeeee ffffff ggggggg",
        "ünïcödé wörds wrap by bytes",
    ];
    for t in texts {
        for w in 0..20 {
            assert_eq!(wrap_text(t, w), simple_wrap(t, w), "text {t:?} width {w}");
        }
    }
}
