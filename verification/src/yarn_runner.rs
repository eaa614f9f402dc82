use vstd::prelude::*;
use vstd::string::*;

use crate::assoc::{assoc_map, assoc_set, find_key, keys_distinct, lemma_assoc_dom, lemma_assoc_index};
use crate::text::{chars_of, chars_eq, starts_with, starts_with_str, to_string, trim, trim_str};
use crate::yarn::{
    collect_choices, copy_lines, eval_expr, parse_dialog, parse_jump, parse_nodes, parse_set,
    set_line_breaks, set_line_breaks_parser, spec_collect_choices, spec_eval_expr, spec_parse_dialog,
    spec_parse_jump, spec_parse_nodes, spec_parse_set, spec_split_if_block, split_if_block,
    val_spec_truthy, Val, ValSpec,
};

verus! {

// ── Scripts ───────────────────────────────────────────────────────────────────

/// The script of loop `n` (1 to 5) among the five loop scripts; empty for any other `n`.
pub open spec fn spec_yarn_for_loop(n: u32, scripts: Seq<String>) -> Seq<char> {
    if 1 <= n <= 5 && scripts.len() == 5 {
        scripts[n - 1]@
    } else {
        Seq::empty()
    }
}

/// Loop `n` of 1–5 plays the `n`-th of the five scripts, the last loop included;
/// every other loop number, or a list that is not five scripts long, selects no script.
pub proof fn lemma_yarn_for_loop_selects(n: u32, scripts: Seq<String>)
    ensures
        scripts.len() == 5 && 1 <= n <= 5 ==> spec_yarn_for_loop(n, scripts) == scripts[n - 1]@,
        scripts.len() == 5 ==> spec_yarn_for_loop(5, scripts) == scripts[4]@,
        scripts.len() == 5 ==> spec_yarn_for_loop(1, scripts) == scripts[0]@,
        (n < 1 || n > 5 || scripts.len() != 5) ==> spec_yarn_for_loop(n, scripts).len() == 0,
{
}

/// The script of loop `n` among the five loop scripts, or `""` for any other loop.
pub fn yarn_for_loop<'a>(n: u32, scripts: &'a [String; 5]) -> (r: &'a str)
    ensures
        r@ == spec_yarn_for_loop(n, scripts@),
{
    proof {
        reveal_strlit("");
    }
    if 1 <= n && n <= 5 {
        let i: usize = (n - 1) as usize;
        scripts[i].as_str()
    } else {
        ""
    }
}

// ── Events ────────────────────────────────────────────────────────────────────

/// What one step of a dialog asks of its caller.
#[derive(Debug, Clone, PartialEq)]
pub enum DialogEvent {
    /// Nothing to show; step again.
    Continue,
    /// Show a spoken line (speaker, text), then step again once the player moves on.
    Line(String, String),
    /// Offer these options; answer with [`YarnRunner::choose_option`].
    Choice(Vec<String>),
    /// The dialog is over.
    Finished,
}

/// The plain content of a [`DialogEvent`].
pub enum EventView {
    Continue,
    Line(Seq<char>, Seq<char>),
    Choice(Seq<Seq<char>>),
    Finished,
}

impl View for DialogEvent {
    type V = EventView;

    open spec fn view(&self) -> EventView {
        match self {
            DialogEvent::Continue => EventView::Continue,
            DialogEvent::Line(s, t) => EventView::Line(s@, t@),
            DialogEvent::Choice(c) => EventView::Choice(c.deep_view()),
            DialogEvent::Finished => EventView::Finished,
        }
    }
}

// ── The runner's model ────────────────────────────────────────────────────────

/// What a [`YarnRunner`] holds: the script's nodes, the variables, the flags set at
/// the start, the lines shown so far, the stack of line lists being executed (each
/// with the index of its next line) and the options waiting for an answer.
pub struct RunnerView {
    pub nodes: Map<Seq<char>, Seq<Seq<char>>>,
    pub vars: Map<Seq<char>, ValSpec>,
    pub initial: Set<Seq<char>>,
    pub history: Seq<(Seq<char>, Seq<char>)>,
    pub frames: Seq<(Seq<Seq<char>>, int)>,
    pub pending: Seq<(Seq<char>, Seq<Seq<char>>)>,
}

/// The texts of a list of options.
pub open spec fn choice_texts(c: Seq<(Seq<char>, Seq<Seq<char>>)>) -> Seq<Seq<char>> {
    c.map_values(|p: (Seq<char>, Seq<Seq<char>>)| p.0)
}

/// Whether a branch is taken: `<<else>>` always, a condition when it holds.
pub open spec fn branch_holds(cond: Option<Seq<char>>, vars: Map<Seq<char>, ValSpec>) -> bool {
    match cond {
        Some(c) => spec_eval_expr(c, vars),
        None => true,
    }
}

/// The first branch from `k` on that is taken.
pub open spec fn first_active_from(
    branches: Seq<(Option<Seq<char>>, Seq<Seq<char>>)>,
    vars: Map<Seq<char>, ValSpec>,
    k: int,
) -> Option<int>
    decreases branches.len() - k,
{
    if k < 0 || k >= branches.len() {
        None
    } else if branch_holds(branches[k].0, vars) {
        Some(k)
    } else {
        first_active_from(branches, vars, k + 1)
    }
}

/// The stack with its top frame's next line set to `p`.
pub open spec fn set_pos(frames: Seq<(Seq<Seq<char>>, int)>, p: int) -> Seq<(Seq<Seq<char>>, int)> {
    frames.update(frames.len() - 1, (frames.last().0, p))
}

/// The runner with another stack.
pub open spec fn with_frames(v: RunnerView, frames: Seq<(Seq<Seq<char>>, int)>) -> RunnerView {
    RunnerView {
        nodes: v.nodes,
        vars: v.vars,
        initial: v.initial,
        history: v.history,
        frames,
        pending: v.pending,
    }
}

/// The runner with other options waiting for an answer.
pub open spec fn with_pending(v: RunnerView, pending: Seq<(Seq<char>, Seq<Seq<char>>)>) -> RunnerView {
    RunnerView {
        nodes: v.nodes,
        vars: v.vars,
        initial: v.initial,
        history: v.history,
        frames: v.frames,
        pending,
    }
}

/// The stack after a jump to `target`: just that node, or nothing when there is no
/// such node.
pub open spec fn jump_frames(nodes: Map<Seq<char>, Seq<Seq<char>>>, target: Seq<char>) -> Seq<
    (Seq<Seq<char>>, int),
> {
    if nodes.dom().contains(target) {
        seq![(nodes[target], 0int)]
    } else {
        seq![]
    }
}

/// One step of a dialog: the next line of the innermost running list, read as
/// a comment or blank (skipped), `<<jump node>>` (the whole stack gives way to that
/// node), `<<set $var = value>>`, `<<if …>>` (the first branch that holds runs, then
/// the lines after `<<endif>>`), another command (skipped), a run of `-> option`
/// lines (offered, the stack resuming after them), or `speaker: text` (shown).
/// A finished list is dropped; with no list left the dialog is over; while options
/// wait for an answer they are offered again.
pub open spec fn spec_step(v: RunnerView) -> (RunnerView, EventView) {
    if v.pending.len() > 0 {
        (v, EventView::Choice(choice_texts(v.pending)))
    } else if v.frames.len() == 0 {
        (v, EventView::Finished)
    } else {
        let lines = v.frames.last().0;
        let pos = v.frames.last().1;
        if pos < 0 || pos >= lines.len() {
            (with_frames(v, v.frames.drop_last()), EventView::Continue)
        } else {
            let t = trim(lines[pos]);
            let next = with_frames(v, set_pos(v.frames, pos + 1));
            if t.len() == 0 || starts_with(t, "//"@) {
                (next, EventView::Continue)
            } else if starts_with(t, "<<"@) {
                match spec_parse_jump(t) {
                    Some(target) => (with_frames(v, jump_frames(v.nodes, target)), EventView::Continue),
                    None => match spec_parse_set(t) {
                        Some((name, val)) => (
                            RunnerView {
                                nodes: next.nodes,
                                vars: next.vars.insert(name, val),
                                initial: next.initial,
                                history: next.history,
                                frames: next.frames,
                                pending: next.pending,
                            },
                            EventView::Continue,
                        ),
                        None => if starts_with(t, "<<if "@) {
                            let (branches, end) = spec_split_if_block(lines, pos);
                            let fr = set_pos(v.frames, end);
                            (
                                with_frames(
                                    v,
                                    match first_active_from(branches, v.vars, 0) {
                                        Some(k) => fr.push((branches[k].1, 0int)),
                                        None => fr,
                                    },
                                ),
                                EventView::Continue,
                            )
                        } else {
                            (next, EventView::Continue)
                        },
                    },
                }
            } else if starts_with(t, "-> "@) {
                let (choices, end) = spec_collect_choices(lines, pos);
                (
                    RunnerView {
                        nodes: v.nodes,
                        vars: v.vars,
                        initial: v.initial,
                        history: v.history,
                        frames: set_pos(v.frames, end),
                        pending: choices,
                    },
                    EventView::Choice(choice_texts(choices)),
                )
            } else {
                match spec_parse_dialog(t) {
                    Some((speaker, text)) => (
                        RunnerView {
                            nodes: next.nodes,
                            vars: next.vars,
                            initial: next.initial,
                            history: next.history.push((speaker, text)),
                            frames: next.frames,
                            pending: next.pending,
                        },
                        EventView::Line(speaker, text),
                    ),
                    None => (next, EventView::Continue),
                }
            }
        }
    }
}

/// A step never changes the script or the starting flags, and it adds to the
/// history exactly the line it shows, if any.
pub proof fn lemma_step_keeps_script(v: RunnerView)
    ensures
        spec_step(v).0.nodes == v.nodes,
        spec_step(v).0.initial == v.initial,
        match spec_step(v).1 {
            EventView::Line(speaker, text) => spec_step(v).0.history == v.history.push((speaker, text)),
            _ => spec_step(v).0.history == v.history,
        },
{
}

/// Whether the next step would meet a `<<set>>` line that the parser cannot take
/// (its value a lone `"`).
pub open spec fn step_would_panic(v: RunnerView) -> bool {
    &&& v.pending.len() == 0
    &&& v.frames.len() > 0
    &&& 0 <= v.frames.last().1 < v.frames.last().0.len()
    &&& set_line_breaks_parser(trim(v.frames.last().0[v.frames.last().1]))
}

/// The variables a runner starts with: each flag `true`, and `companion` holding the
/// companion's name when there is one.
pub open spec fn initial_vars(flags: Seq<Seq<char>>, companion: Option<Seq<char>>) -> Map<
    Seq<char>,
    ValSpec,
> {
    let m = Map::new(|k: Seq<char>| flags.contains(k), |k: Seq<char>| ValSpec::Bool(true));
    match companion {
        Some(c) => m.insert("companion"@, ValSpec::Str(c)),
        None => m,
    }
}

/// The flags a dialog has set: the boolean variables holding `true` that were not
/// set at the start.
pub open spec fn spec_new_flags(v: RunnerView) -> Set<Seq<char>> {
    Set::new(
        |k: Seq<char>|
            v.vars.dom().contains(k) && v.vars[k] == ValSpec::Bool(true) && !v.initial.contains(k),
    )
}

// ── The runner ────────────────────────────────────────────────────────────────

/// A Yarn dialog interpreter, driven one step at a time by its caller.
pub struct YarnRunner {
    nodes: Vec<(String, Vec<String>)>,
    vars: Vec<(String, Val)>,
    initial_flags: Vec<String>,
    history: Vec<(String, String)>,
    frames: Vec<(Vec<String>, usize)>,
    pending: Vec<(String, Vec<String>)>,
}

spec fn frames_view(f: Seq<(Vec<String>, usize)>) -> Seq<(Seq<Seq<char>>, int)> {
    f.map_values(|p: (Vec<String>, usize)| (p.0.deep_view(), p.1 as int))
}

impl View for YarnRunner {
    type V = RunnerView;

    closed spec fn view(&self) -> RunnerView {
        RunnerView {
            nodes: assoc_map(self.nodes.deep_view()),
            vars: assoc_map(self.vars.deep_view()),
            initial: self.initial_flags.deep_view().to_set(),
            history: self.history.deep_view(),
            frames: frames_view(self.frames@),
            pending: self.pending.deep_view(),
        }
    }
}

/// Whether `name` is one of `v`.
fn contains_str(v: &Vec<String>, name: &Vec<char>) -> (b: bool)
    ensures
        b == v.deep_view().contains(name@),
{
    let mut i: usize = 0;
    while i < v.len()
        invariant
            i <= v@.len(),
            forall|j: int| 0 <= j < i ==> v.deep_view()[j] != name@,
        decreases v@.len() - i,
    {
        let k = chars_of(v[i].as_str());
        if chars_eq(&k, name) {
            proof {
                assert(v.deep_view()[i as int] == name@);
            }
            return true;
        }
        i = i + 1;
    }
    false
}

/// The texts of the options.
fn option_texts(choices: &Vec<(String, Vec<String>)>) -> (r: Vec<String>)
    ensures
        r.deep_view() == choice_texts(choices.deep_view()),
{
    let mut out: Vec<String> = Vec::new();
    let mut i: usize = 0;
    while i < choices.len()
        invariant
            i <= choices@.len(),
            out.deep_view() == choice_texts(choices.deep_view()).take(i as int),
        decreases choices@.len() - i,
    {
        let ghost old_dv = out.deep_view();
        let c = choices[i].0.clone();
        out.push(c);
        proof {
            assert(out.deep_view() =~= old_dv.push(c@));
            assert(choice_texts(choices.deep_view()).take(i + 1) =~= choice_texts(
                choices.deep_view(),
            ).take(i as int).push(c@));
        }
        i = i + 1;
    }
    proof {
        assert(choice_texts(choices.deep_view()).take(choices@.len() as int) =~= choice_texts(
            choices.deep_view(),
        ));
    }
    out
}

/// The first branch that is taken, if any.
fn first_active(branches: &Vec<(Option<String>, Vec<String>)>, vars: &Vec<(String, Val)>) -> (r:
    Option<usize>)
    requires
        keys_distinct(vars.deep_view()),
    ensures
        match r {
            Some(k) => k < branches@.len() && first_active_from(
                branches.deep_view(),
                assoc_map(vars.deep_view()),
                0,
            ) == Some(k as int),
            None => first_active_from(branches.deep_view(), assoc_map(vars.deep_view()), 0)
                == None::<int>,
        },
{
    let ghost bd = branches.deep_view();
    let ghost vm = assoc_map(vars.deep_view());
    let mut k: usize = 0;
    while k < branches.len()
        invariant
            bd == branches.deep_view(),
            vm == assoc_map(vars.deep_view()),
            keys_distinct(vars.deep_view()),
            k <= bd.len(),
            first_active_from(bd, vm, 0) == first_active_from(bd, vm, k as int),
        decreases bd.len() - k,
    {
        let holds = match &branches[k].0 {
            Some(c) => eval_expr(c.as_str(), vars),
            None => true,
        };
        if holds {
            return Some(k);
        }
        k = k + 1;
    }
    None
}

impl YarnRunner {
    /// The runner's own consistency: no node title and no variable name occurs twice.
    pub closed spec fn wf(&self) -> bool {
        &&& keys_distinct(self.nodes.deep_view())
        &&& keys_distinct(self.vars.deep_view())
    }

    /// Build a runner for loop `loop_number`'s script, seeded with the game's
    /// flags (each a variable set to `true`) and the companion's name.
    pub fn new(
        loop_number: u32,
        scripts: &[String; 5],
        flags: &Vec<String>,
        companion: Option<&str>,
    ) -> (r: Self)
        ensures
            r@.nodes == spec_parse_nodes(spec_yarn_for_loop(loop_number, scripts@)),
            r@.vars == initial_vars(
                flags.deep_view(),
                match companion {
                    Some(c) => Some(c@),
                    None => None,
                },
            ),
            r@.initial == flags.deep_view().to_set(),
            r@.history.len() == 0,
            r@.frames.len() == 0,
            r@.pending.len() == 0,
            r.wf(),
    {
        let text = yarn_for_loop(loop_number, scripts);
        let nodes = parse_nodes(text);
        let mut vars: Vec<(String, Val)> = Vec::new();
        let ghost fd = flags.deep_view();
        let mut i: usize = 0;
        proof {
            assert(assoc_map(vars.deep_view()) =~= Map::<Seq<char>, ValSpec>::empty());
        }
        while i < flags.len()
            invariant
                fd == flags.deep_view(),
                i <= fd.len(),
                keys_distinct(vars.deep_view()),
                assoc_map(vars.deep_view()) == Map::new(
                    |k: Seq<char>| fd.take(i as int).contains(k),
                    |k: Seq<char>| ValSpec::Bool(true),
                ),
            decreases fd.len() - i,
        {
            let f = flags[i].clone();
            proof {
                assert(f@ == fd[i as int]);
            }
            let tv = Val::Bool(true);
            proof {
                assert(tv.deep_view() == ValSpec::Bool(true));
            }
            assoc_set(&mut vars, f, tv);
            proof {
                let ti = fd.take(i as int);
                let tn = fd.take(i + 1);
                assert(tn =~= ti.push(fd[i as int]));
                assert forall|k: Seq<char>| tn.contains(k) == (ti.contains(k) || k == fd[i as int]) by {
                    if tn.contains(k) {
                        let j = choose|j: int| 0 <= j < tn.len() && tn[j] == k;
                        if j < i {
                            assert(ti[j] == k);
                        }
                    }
                    if ti.contains(k) {
                        let j = choose|j: int| 0 <= j < ti.len() && ti[j] == k;
                        assert(tn[j] == k);
                    }
                    if k == fd[i as int] {
                        assert(tn[i as int] == k);
                    }
                }
                assert(assoc_map(vars.deep_view()) =~= Map::new(
                    |k: Seq<char>| fd.take(i + 1).contains(k),
                    |k: Seq<char>| ValSpec::Bool(true),
                ));
            }
            i = i + 1;
        }
        proof {
            assert(fd.take(fd.len() as int) =~= fd);
        }
        match companion {
            Some(c) => {
                proof {
                    reveal_strlit("companion");
                }
                assoc_set(&mut vars, to_string("companion"), Val::Str(to_string(c)));
            },
            None => {},
        }
        let initial_flags = copy_lines(flags);
        let r = YarnRunner {
            nodes,
            vars,
            initial_flags,
            history: Vec::new(),
            frames: Vec::new(),
            pending: Vec::new(),
        };
        proof {
            assert(r.history.deep_view() =~= Seq::<(Seq<char>, Seq<char>)>::empty());
            assert(r.pending.deep_view() =~= Seq::<(Seq<char>, Seq<Seq<char>>)>::empty());
        }
        r
    }

    /// `true` when the named node exists in the script.
    pub fn has_node(&self, name: &str) -> (b: bool)
        ensures
            b == self@.nodes.dom().contains(name@),
    {
        let k = chars_of(name);
        let found = find_key(&self.nodes, &k);
        proof {
            lemma_assoc_dom(self.nodes.deep_view(), name@);
            match found {
                Some(i) => {
                    assert(self.nodes.deep_view()[i as int].0 == name@);
                },
                None => {
                    assert forall|i: int| 0 <= i < self.nodes.deep_view().len() implies self.nodes.deep_view()[i].0
                        != name@ by {
                        assert(self.nodes@[i].0@ != name@);
                    }
                },
            }
        }
        found.is_some()
    }

    /// The stack that starts node `name`: that node alone, or nothing when the
    /// script has no such node.
    fn node_frames(&self, name: &str) -> (r: Vec<(Vec<String>, usize)>)
        requires
            self.wf(),
        ensures
            frames_view(r@) == jump_frames(self@.nodes, name@),
    {
        let k = chars_of(name);
        let mut out: Vec<(Vec<String>, usize)> = Vec::new();
        proof {
            lemma_assoc_dom(self.nodes.deep_view(), name@);
        }
        match find_key(&self.nodes, &k) {
            Some(i) => {
                let body = copy_lines(&self.nodes[i].1);
                out.push((body, 0));
                proof {
                    lemma_assoc_index(self.nodes.deep_view(), i as int);
                    assert(self.nodes.deep_view()[i as int].0 == name@);
                    assert(frames_view(out@) =~= jump_frames(self@.nodes, name@));
                }
            },
            None => {
                proof {
                    assert forall|i: int| 0 <= i < self.nodes.deep_view().len() implies self.nodes.deep_view()[i].0
                        != name@ by {
                        assert(self.nodes@[i].0@ != name@);
                    }
                    assert(frames_view(out@) =~= jump_frames(self@.nodes, name@));
                }
            },
        }
        out
    }

    /// Start node `node_name` from its first line, dropping whatever was running;
    /// with no such node there is nothing to run. Drive it with [`YarnRunner::step`].
    pub fn run(&mut self, node_name: &str)
        requires
            old(self).wf(),
        ensures
            final(self).wf(),
            final(self)@ == with_pending(
                with_frames(old(self)@, jump_frames(old(self)@.nodes, node_name@)),
                Seq::empty(),
            ),
    {
        let fr = self.node_frames(node_name);
        self.frames = fr;
        self.pending = Vec::new();
        proof {
            assert(self.pending.deep_view() =~= Seq::<(Seq<char>, Seq<Seq<char>>)>::empty());
        }
    }

    /// Return every boolean variable set to `true` that was not a flag at
    /// construction time: the flags this dialog set. Each is listed once.
    pub fn new_flags(&self) -> (r: Vec<String>)
        requires
            self.wf(),
        ensures
            r.deep_view().no_duplicates(),
            r.deep_view().to_set() == spec_new_flags(self@),
    {
        let ghost vd = self.vars.deep_view();
        let ghost init = self.initial_flags.deep_view();
        let mut out: Vec<String> = Vec::new();
        let mut i: usize = 0;
        while i < self.vars.len()
            invariant
                vd == self.vars.deep_view(),
                init == self.initial_flags.deep_view(),
                keys_distinct(vd),
                i <= vd.len(),
                out.deep_view().no_duplicates(),
                forall|k: Seq<char>|
                    out.deep_view().contains(k) <==> exists|j: int|
                        0 <= j < i && #[trigger] vd[j].0 == k && vd[j].1 == ValSpec::Bool(true)
                            && !init.contains(k),
            decreases vd.len() - i,
        {
            let name = &self.vars[i].0;
            let truthy = match &self.vars[i].1 {
                Val::Bool(b) => *b,
                Val::Str(_) => false,
            };
            let nv = chars_of(name.as_str());
            let seen = contains_str(&self.initial_flags, &nv);
            let ghost old_dv = out.deep_view();
            proof {
                assert(vd[i as int].0 == name@);
                assert(vd[i as int].1 == crate::yarn::val_spec(self.vars@[i as int].1));
            }
            if truthy && !seen {
                let c = name.clone();
                out.push(c);
                proof {
                    assert(out.deep_view() =~= old_dv.push(c@));
                    assert(!old_dv.contains(c@)) by {
                        if old_dv.contains(c@) {
                            let j = choose|j: int|
                                0 <= j < i && #[trigger] vd[j].0 == c@ && vd[j].1 == ValSpec::Bool(true)
                                    && !init.contains(c@);
                            assert(vd[j].0 != vd[i as int].0);
                        }
                    }
                    assert forall|k: Seq<char>|
                        out.deep_view().contains(k) <==> exists|j: int|
                            0 <= j < i + 1 && #[trigger] vd[j].0 == k && vd[j].1 == ValSpec::Bool(true)
                                && !init.contains(k) by {
                        if k == c@ {
                            assert(out.deep_view()[old_dv.len() as int] == k);
                        }
                        if out.deep_view().contains(k) && k != c@ {
                            let m = choose|m: int| 0 <= m < out.deep_view().len() && out.deep_view()[m] == k;
                            assert(old_dv[m] == k);
                        }
                        if old_dv.contains(k) {
                            let m = choose|m: int| 0 <= m < old_dv.len() && old_dv[m] == k;
                            assert(out.deep_view()[m] == k);
                        }
                    }
                }
            } else {
                proof {
                    assert forall|k: Seq<char>|
                        out.deep_view().contains(k) <==> exists|j: int|
                            0 <= j < i + 1 && #[trigger] vd[j].0 == k && vd[j].1 == ValSpec::Bool(true)
                                && !init.contains(k) by {
                        if exists|j: int|
                            0 <= j < i + 1 && #[trigger] vd[j].0 == k && vd[j].1 == ValSpec::Bool(true)
                                && !init.contains(k) {
                            let j = choose|j: int|
                                0 <= j < i + 1 && #[trigger] vd[j].0 == k && vd[j].1 == ValSpec::Bool(true)
                                    && !init.contains(k);
                            if j == i {
                                assert(false);
                            }
                        }
                    }
                }
            }
            i = i + 1;
        }
        proof {
            assert forall|k: Seq<char>| #[trigger]
                out.deep_view().to_set().contains(k) == spec_new_flags(self@).contains(k) by {
                lemma_assoc_dom(vd, k);
                if exists|j: int| 0 <= j < vd.len() && vd[j].0 == k {
                    let j = choose|j: int| 0 <= j < vd.len() && vd[j].0 == k;
                    lemma_assoc_index(vd, j);
                    if out.deep_view().contains(k) {
                        let j2 = choose|j2: int|
                            0 <= j2 < vd.len() && #[trigger] vd[j2].0 == k && vd[j2].1 == ValSpec::Bool(true)
                                && !init.contains(k);
                        assert(j2 == j);
                    }
                }
            }
            assert(out.deep_view().to_set() =~= spec_new_flags(self@));
        }
        out
    }

    /// Bind variable `var` to `val`.
    fn do_set(&mut self, var: String, val: Val)
        requires
            old(self).wf(),
        ensures
            final(self).wf(),
            final(self)@ == (RunnerView {
                nodes: old(self)@.nodes,
                vars: old(self)@.vars.insert(var@, crate::yarn::val_spec(val)),
                initial: old(self)@.initial,
                history: old(self)@.history,
                frames: old(self)@.frames,
                pending: old(self)@.pending,
            }),
    {
        assoc_set(&mut self.vars, var, val);
    }

    /// Whether the next [`YarnRunner::step`] would meet a `<<set>>` line that the
    /// parser cannot take (see [`step_would_panic`]).
    pub fn next_step_panics(&self) -> (b: bool)
        ensures
            b == step_would_panic(self@),
    {
        if self.pending.len() > 0 {
            return false;
        }
        let nf = self.frames.len();
        if nf == 0 {
            return false;
        }
        let lines = &self.frames[nf - 1].0;
        let pos = self.frames[nf - 1].1;
        proof {
            assert(self@.frames.last() == (lines.deep_view(), pos as int));
        }
        if pos >= lines.len() {
            return false;
        }
        proof {
            assert(lines.deep_view()[pos as int] == lines@[pos as int]@);
        }
        set_line_breaks(trim_str(lines[pos].as_str()))
    }

    /// Answer the options on offer with option `idx` (from 0): its body runs next,
    /// then the lines after the options. Returns `false`, changing nothing, when no
    /// options wait or `idx` is not one of them.
    pub fn choose_option(&mut self, idx: usize) -> (accepted: bool)
        requires
            old(self).wf(),
        ensures
            final(self).wf(),
            accepted == (idx < old(self)@.pending.len()),
            accepted ==> final(self)@ == with_pending(
                with_frames(
                    old(self)@,
                    old(self)@.frames.push((old(self)@.pending[idx as int].1, 0int)),
                ),
                Seq::empty(),
            ),
            !accepted ==> final(self)@ == old(self)@,
    {
        if idx >= self.pending.len() {
            return false;
        }
        let body = copy_lines(&self.pending[idx].1);
        let ghost old_fr = self.frames@;
        self.frames.push((body, 0));
        self.pending = Vec::new();
        proof {
            assert(body.deep_view() == old(self)@.pending[idx as int].1);
            assert(frames_view(self.frames@) =~= frames_view(old_fr).push(
                (old(self)@.pending[idx as int].1, 0int),
            ));
            assert(self.pending.deep_view() =~= Seq::<(Seq<char>, Seq<Seq<char>>)>::empty());
        }
        true
    }

    /// Run the dialog one line further; see [`spec_step`] for what each line does.
    pub fn step(&mut self) -> (ev: DialogEvent)
        requires
            old(self).wf(),
            !step_would_panic(old(self)@),
        ensures
            final(self).wf(),
            (final(self)@, ev@) == spec_step(old(self)@),
    {
        let ghost v0 = self@;
        if self.pending.len() > 0 {
            return DialogEvent::Choice(option_texts(&self.pending));
        }
        if self.frames.len() == 0 {
            return DialogEvent::Finished;
        }
        let ghost fr0 = self.frames@;
        let top = self.frames.pop().unwrap();
        let (lines, pos) = top;
        proof {
            assert(fr0.drop_last() == self.frames@);
            assert(frames_view(self.frames@) =~= v0.frames.drop_last());
            assert(v0.frames.last() == (lines.deep_view(), pos as int));
        }
        if pos >= lines.len() {
            return DialogEvent::Continue;
        }
        let ghost ld = lines.deep_view();
        let ghost rest = self.frames@;
        let t = trim_str(lines[pos].as_str());
        let tv = chars_of(t);
        proof {
            reveal_strlit("//");
            reveal_strlit("<<");
            reveal_strlit("<<if ");
            reveal_strlit("-> ");
            assert(ld[pos as int] == lines@[pos as int]@);
            assert(frames_view(rest.push((lines, (pos + 1) as usize))) =~= set_pos(
                v0.frames,
                pos + 1,
            ));
        }
        if tv.len() == 0 || starts_with_str(t, "//") {
            self.frames.push((lines, pos + 1));
            return DialogEvent::Continue;
        }
        if starts_with_str(t, "<<") {
            match parse_jump(t) {
                Some(target) => {
                    let fr = self.node_frames(target.as_str());
                    self.frames = fr;
                    return DialogEvent::Continue;
                },
                None => {},
            }
            match parse_set(t) {
                Some((var, val)) => {
                    self.frames.push((lines, pos + 1));
                    self.do_set(var, val);
                    return DialogEvent::Continue;
                },
                None => {},
            }
            if starts_with_str(t, "<<if ") {
                let (branches, end) = split_if_block(&lines, pos);
                let active = first_active(&branches, &self.vars);
                proof {
                    assert(frames_view(rest.push((lines, end))) =~= set_pos(v0.frames, end as int));
                }
                self.frames.push((lines, end));
                match active {
                    Some(k) => {
                        let body = copy_lines(&branches[k].1);
                        let ghost fr1 = self.frames@;
                        self.frames.push((body, 0));
                        proof {
                            assert(body.deep_view() == branches.deep_view()[k as int].1);
                            assert(frames_view(self.frames@) =~= frames_view(fr1).push(
                                (branches.deep_view()[k as int].1, 0int),
                            ));
                        }
                    },
                    None => {},
                }
                return DialogEvent::Continue;
            }
            self.frames.push((lines, pos + 1));
            return DialogEvent::Continue;
        }
        if starts_with_str(t, "-> ") {
            let (choices, end) = collect_choices(&lines, pos);
            let texts = option_texts(&choices);
            proof {
                assert(frames_view(rest.push((lines, end))) =~= set_pos(v0.frames, end as int));
            }
            self.frames.push((lines, end));
            self.pending = choices;
            return DialogEvent::Choice(texts);
        }
        match parse_dialog(t) {
            Some((speaker, text)) => {
                self.frames.push((lines, pos + 1));
                let ghost hd = self.history.deep_view();
                self.history.push((speaker.clone(), text.clone()));
                proof {
                    assert(self.history.deep_view() =~= hd.push((speaker@, text@)));
                }
                DialogEvent::Line(speaker, text)
            },
            None => {
                self.frames.push((lines, pos + 1));
                DialogEvent::Continue
            },
        }
    }

    /// The lines shown so far, as `(speaker, text)`.
    pub fn history(&self) -> (r: &Vec<(String, String)>)
        ensures
            r.deep_view() == self@.history,
    {
        &self.history
    }
}

} // verus!
