use carbonthrone::yarn::{
    collect_choices, eval_expr, parse_dialog, parse_jump, parse_nodes, parse_set,
    rfind_binary_op, set_line_breaks, split_if_block, split_lines, utf8_len, wrap_text, Val,
};

fn strings(v: &[&str]) -> Vec<String> {
    v.iter().map(|s| s.to_string()).collect()
}

#[test]
fn parse_jump_reads_target() {
    assert_eq!(parse_jump("<<jump  loop1_end >>"), Some("loop1_end".to_string()));
    assert_eq!(parse_jump("<<jump x"), None);
    assert_eq!(parse_jump("<<set $a = true>>"), None);
}

#[test]
fn parse_set_reads_each_value_form() {
    match parse_set("<<set $met_orin = true>>") {
        Some((name, Val::Bool(true))) => assert_eq!(name, "met_orin"),
        other => panic!("unexpected {:?}", other),
    }
    match parse_set("<<set $door = false>>") {
        Some((name, Val::Bool(false))) => assert_eq!(name, "door"),
        other => panic!("unexpected {:?}", other),
    }
    match parse_set("<<set $companion = \"doss\">>") {
        Some((name, Val::Str(s))) => {
            assert_eq!(name, "companion");
            assert_eq!(s, "doss");
        }
        other => panic!("unexpected {:?}", other),
    }
    match parse_set("<<set $count = 5>>") {
        Some((name, Val::Bool(true))) => assert_eq!(name, "count"),
        other => panic!("unexpected {:?}", other),
    }
    assert!(parse_set("<<set $x true>>").is_none());
    assert!(parse_set("Orin: <<set $x = true>>").is_none());
}

#[test]
fn parse_dialog_splits_speaker_and_text() {
    assert_eq!(
        parse_dialog("Orin:   The loop repeats.  "),
        Some(("Orin".to_string(), "The loop repeats.".to_string()))
    );
    assert_eq!(parse_dialog("Dr Orin: hi"), None);
    assert_eq!(parse_dialog("<<jump x>>: y"), None);
    assert_eq!(parse_dialog("-> Leave: now"), None);
    assert_eq!(parse_dialog("no colon here"), None);
}

#[test]
fn rfind_binary_op_finds_last_occurrence() {
    assert_eq!(rfind_binary_op("a and b and c", " and "), Some(7));
    assert_eq!(rfind_binary_op("a or b", " and "), None);
}

#[test]
fn eval_expr_follows_yarn_conditions() {
    let vars = vec![
        ("a".to_string(), Val::Bool(true)),
        ("off".to_string(), Val::Bool(false)),
        ("name".to_string(), Val::Str("orin".to_string())),
    ];
    assert!(eval_expr("$a", &vars));
    assert!(!eval_expr("not $a", &vars));
    assert!(eval_expr("$name == \"orin\"", &vars));
    assert!(!eval_expr("$name == \"doss\"", &vars));
    assert!(eval_expr("$a == \"true\"", &vars));
    assert!(eval_expr("$off == \"false\"", &vars));
    assert!(eval_expr("$missing == \"false\"", &vars));
    assert!(!eval_expr("$a and $missing", &vars));
    assert!(eval_expr("$missing or $a", &vars));
    assert!(eval_expr("$name == \"orin\" and $a", &vars));
    assert!(eval_expr("$name", &vars));
    assert!(!eval_expr("$missing", &vars));
}

#[test]
fn split_lines_handles_crlf_and_final_break() {
    assert_eq!(split_lines("a\r\nb\n\nc"), strings(&["a", "b", "", "c"]));
    assert_eq!(split_lines("x\n"), strings(&["x"]));
    assert!(split_lines("").is_empty());
}

const SCRIPT: &str = "title: start\n---\nOrin: Hello.\n===\n\ntitle: bye\ntags: end\n---\n    Orin: Goodbye.\n===\ntitle: start\n---\nOrin: Again.\n===\n";

#[test]
fn parse_nodes_reads_titles_and_bodies() {
    let nodes = parse_nodes(SCRIPT);
    assert_eq!(nodes.len(), 2);
    let start = nodes.iter().find(|(t, _)| t == "start").unwrap();
    assert_eq!(start.1, strings(&["Orin: Again."]));
    let bye = nodes.iter().find(|(t, _)| t == "bye").unwrap();
    assert_eq!(bye.1, strings(&["    Orin: Goodbye."]));
}

#[test]
fn split_if_block_separates_branches() {
    let lines = strings(&[
        "<<if $a>>",
        "A",
        "<<if $b>>",
        "B",
        "<<endif>>",
        "<<elseif $c>>",
        "C",
        "<<else>>",
        "D",
        "<<endif>>",
        "after",
    ]);
    let (branches, end) = split_if_block(&lines, 0);
    assert_eq!(end, 10);
    assert_eq!(branches.len(), 3);
    assert_eq!(branches[0].0, Some("$a".to_string()));
    assert_eq!(branches[0].1, strings(&["A", "<<if $b>>", "B", "<<endif>>"]));
    assert_eq!(branches[1].0, Some("$c".to_string()));
    assert_eq!(branches[1].1, strings(&["C"]));
    assert_eq!(branches[2].0, None);
    assert_eq!(branches[2].1, strings(&["D"]));
}

#[test]
fn split_if_block_without_endif_runs_to_the_end() {
    let lines = strings(&["x", "<<if $a>>", "A"]);
    let (branches, end) = split_if_block(&lines, 1);
    assert_eq!(end, 3);
    assert_eq!(branches.len(), 1);
    assert_eq!(branches[0].1, strings(&["A"]));
}

#[test]
fn collect_choices_gathers_options_and_bodies() {
    let lines = strings(&[
        "-> Ask",
        "    Orin: It repeats.",
        "\t<<set $asked = true>>",
        "-> Leave",
        "Orin: Next.",
    ]);
    let (choices, end) = collect_choices(&lines, 0);
    assert_eq!(end, 4);
    assert_eq!(choices.len(), 2);
    assert_eq!(choices[0].0, "Ask");
    assert_eq!(choices[0].1, strings(&["Orin: It repeats.", "<<set $asked = true>>"]));
    assert_eq!(choices[1].0, "Leave");
    assert!(choices[1].1.is_empty());
}

#[test]
fn wrap_text_breaks_on_spaces() {
    assert_eq!(wrap_text("the quick brown fox", 9), strings(&["the quick", "brown fox"]));
    assert_eq!(wrap_text("short", 10), strings(&["short"]));
    assert_eq!(wrap_text("no width at all", 0), strings(&["no width at all"]));
    assert_eq!(wrap_text("a verylongword b", 4), strings(&["a", "verylongword", "b"]));
}

#[test]
fn wrap_text_counts_bytes() {
    // Each "é" takes two bytes.
    assert_eq!(utf8_len("éé éé"), 9);
    assert_eq!(wrap_text("éé éé", 5), strings(&["éé", "éé"]));
    assert_eq!(wrap_text("éé éé", 9), strings(&["éé éé"]));
}

#[test]
fn wrapped_lines_fit_or_are_single_words() {
    let text = "temporal flux rises as the loop folds back on itself again";
    for width in 1..30usize {
        for line in wrap_text(text, width) {
            assert!(line.len() <= width || !line.contains(' '));
        }
    }
}

#[test]
fn val_truthiness() {
    assert!(Val::Bool(true).as_bool());
    assert!(!Val::Bool(false).as_bool());
    assert!(Val::Str("x".to_string()).as_bool());
    assert!(!Val::Str(String::new()).as_bool());
}

#[test]
fn set_line_breaks_only_on_a_lone_quote() {
    assert!(set_line_breaks("<<set $x = \">>"));
    assert!(set_line_breaks("<<set $x =  \"  >>"));
    assert!(!set_line_breaks("<<set $x = \"\">>"));
    assert!(!set_line_breaks("<<set $x = true>>"));
    assert!(!set_line_breaks("Orin: \""));
}
