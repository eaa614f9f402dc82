use carbonthrone::yarn_runner::{yarn_for_loop, DialogEvent, YarnRunner};

const LOOP1: &str = "\
title: start
---
// comment
<<set $met_orin = true>>
Orin: Hello there.
<<if $met_orin>>
Orin: We have met.
<<else>>
Orin: Who are you?
<<endif>>
-> Ask about the loop
    Orin: It repeats.
    <<set $asked = \"yes\">>
-> Leave
    <<jump bye>>
Orin: Anything else?
===
title: bye
---
Orin: Goodbye.
===
";

fn scripts() -> [String; 5] {
    [
        LOOP1.to_string(),
        "title: two\n---\nKaleo: Loop two.\n===\n".to_string(),
        String::new(),
        String::new(),
        String::new(),
    ]
}

/// Steps until something other than `Continue` happens.
fn next_event(r: &mut YarnRunner) -> DialogEvent {
    loop {
        let ev = r.step();
        if ev != DialogEvent::Continue {
            return ev;
        }
    }
}

fn line(s: &str, t: &str) -> DialogEvent {
    DialogEvent::Line(s.to_string(), t.to_string())
}

#[test]
fn yarn_for_loop_picks_the_loop_script() {
    let s = scripts();
    assert_eq!(yarn_for_loop(1, &s), LOOP1);
    assert!(yarn_for_loop(2, &s).starts_with("title: two"));
    assert_eq!(yarn_for_loop(0, &s), "");
    assert_eq!(yarn_for_loop(6, &s), "");
}

#[test]
fn runner_knows_its_nodes() {
    let r = YarnRunner::new(1, &scripts(), &vec![], None);
    assert!(r.has_node("start"));
    assert!(r.has_node("bye"));
    assert!(!r.has_node("two"));
    let r2 = YarnRunner::new(2, &scripts(), &vec![], None);
    assert!(r2.has_node("two"));
}

#[test]
fn runner_plays_lines_branches_and_choices() {
    let mut r = YarnRunner::new(1, &scripts(), &vec![], Some("orin"));
    r.run("start");
    assert_eq!(next_event(&mut r), line("Orin", "Hello there."));
    assert_eq!(next_event(&mut r), line("Orin", "We have met."));
    assert_eq!(
        next_event(&mut r),
        DialogEvent::Choice(vec!["Ask about the loop".to_string(), "Leave".to_string()])
    );
    // Options stay on offer until answered.
    assert_eq!(
        r.step(),
        DialogEvent::Choice(vec!["Ask about the loop".to_string(), "Leave".to_string()])
    );
    assert!(!r.choose_option(2));
    assert!(r.choose_option(0));
    assert_eq!(next_event(&mut r), line("Orin", "It repeats."));
    assert_eq!(next_event(&mut r), line("Orin", "Anything else?"));
    assert_eq!(next_event(&mut r), DialogEvent::Finished);
    assert_eq!(r.history().len(), 4);

    // Only boolean variables set to true count; `asked` and `companion` hold text.
    assert_eq!(r.new_flags(), vec!["met_orin"]);
}

#[test]
fn jump_ends_the_current_node() {
    let mut r = YarnRunner::new(1, &scripts(), &vec![], None);
    r.run("start");
    assert_eq!(next_event(&mut r), line("Orin", "Hello there."));
    assert_eq!(next_event(&mut r), line("Orin", "We have met."));
    assert!(matches!(next_event(&mut r), DialogEvent::Choice(_)));
    assert!(r.choose_option(1));
    assert_eq!(next_event(&mut r), line("Orin", "Goodbye."));
    assert_eq!(next_event(&mut r), DialogEvent::Finished);
}

#[test]
fn flags_set_before_the_dialog_are_not_new() {
    let start_flags = vec!["met_orin".to_string()];
    let mut r = YarnRunner::new(1, &scripts(), &start_flags, None);
    r.run("start");
    assert_eq!(next_event(&mut r), line("Orin", "Hello there."));
    assert!(r.new_flags().is_empty());
}

#[test]
fn a_fresh_runner_reports_no_new_flags() {
    let r = YarnRunner::new(1, &scripts(), &vec!["x".to_string()], Some("orin"));
    assert!(r.new_flags().is_empty());
}

#[test]
fn running_a_missing_node_finishes_at_once() {
    let mut r = YarnRunner::new(1, &scripts(), &vec![], None);
    r.run("nowhere");
    assert_eq!(r.step(), DialogEvent::Finished);
    assert!(r.history().is_empty());
}

#[test]
fn broken_set_line_is_reported_before_it_runs() {
    let broken = "title: start\n---\nA: one\n<<set $x = \">>\n===\n".to_string();
    let scripts = [broken, String::new(), String::new(), String::new(), String::new()];
    let mut r = YarnRunner::new(1, &scripts, &vec![], None);
    r.run("start");
    assert!(!r.next_step_panics());
    assert_eq!(r.step(), DialogEvent::Line("A".to_string(), "one".to_string()));
    assert!(r.next_step_panics());
}
