use vstd::prelude::*;
use vstd::string::*;

use crate::ability::{Combatant, Health};
use crate::dialog::string_views;
use crate::dialog_screen::{decimal, decimal_string};
use crate::game::{recruits_fit, spec_goto_loop, GamePhase, GameSession};
use crate::player_input::{hostile, hostile_c};
use crate::text::{
    back_ws_from, chars_eq, chars_of, is_ws, skip_ws_from, starts_with, strip_prefix_str, to_string,
    trim, trim_str,
};

verus! {

// ── Decimal numbers ───────────────────────────────────────────────────────────

/// Every character is a decimal digit.
pub open spec fn all_digits(s: Seq<char>) -> bool {
    forall|i: int| 0 <= i < s.len() ==> '0' <= #[trigger] s[i] <= '9'
}

/// The value of a string of decimal digits.
pub open spec fn digits_value(s: Seq<char>) -> int
    decreases s.len(),
{
    if s.len() == 0 {
        0
    } else {
        digits_value(s.drop_last()) * 10 + (s.last() as int - '0' as int)
    }
}

/// What `str::parse::<u32>` gives: an optional `+`, then one or more decimal digits
/// whose value fits in a `u32`; anything else is refused.
pub open spec fn spec_parse_u32(s: Seq<char>) -> Option<u32> {
    let d = if s.len() > 0 && s[0] == '+' {
        s.drop_first()
    } else {
        s
    };
    if d.len() > 0 && all_digits(d) && digits_value(d) <= u32::MAX {
        Some(digits_value(d) as u32)
    } else {
        None
    }
}

/// A longer run of digits is worth at least as much as its prefix.
proof fn lemma_digits_value_prefix(s: Seq<char>, i: int)
    requires
        all_digits(s),
        0 <= i <= s.len(),
    ensures
        digits_value(s.take(i)) <= digits_value(s),
        0 <= digits_value(s.take(i)),
    decreases s.len() - i,
{
    if i < s.len() {
        lemma_digits_value_prefix(s, i + 1);
        assert(s.take(i + 1).drop_last() =~= s.take(i));
        assert('0' <= s[i] <= '9');
        assert(0 <= digits_value(s.take(i)) <= digits_value(s.take(i)) * 10);
    } else {
        assert(s.take(i) =~= s);
        lemma_digits_value_nonneg(s);
    }
}

proof fn lemma_digits_value_nonneg(s: Seq<char>)
    requires
        all_digits(s),
    ensures
        0 <= digits_value(s),
    decreases s.len(),
{
    if s.len() > 0 {
        assert(all_digits(s.drop_last()));
        lemma_digits_value_nonneg(s.drop_last());
        assert('0' <= s[s.len() - 1] <= '9');
    }
}

/// Parse a decimal `u32`, as `str::parse::<u32>` does.
pub fn parse_u32(s: &str) -> (r: Option<u32>)
    ensures
        r == spec_parse_u32(s@),
{
    let v = chars_of(s);
    let n = v.len();
    let mut i: usize = if n > 0 && v[0] == '+' {
        1
    } else {
        0
    };
    let ghost d = if s@.len() > 0 && s@[0] == '+' {
        s@.drop_first()
    } else {
        s@
    };
    let first = i;
    proof {
        assert(d =~= v@.subrange(first as int, n as int));
    }
    if i >= n {
        return None;
    }
    let mut acc: u64 = 0;
    while i < n
        invariant
            v@ == s@,
            n == v@.len(),
            first <= i <= n,
            first <= 1,
            d == v@.subrange(first as int, n as int),
            d == (if s@.len() > 0 && s@[0] == '+' {
                s@.drop_first()
            } else {
                s@
            }),
            all_digits(d.take(i - first)),
            acc == digits_value(d.take(i - first)),
            acc <= u32::MAX,
        decreases n - i,
    {
        let c = v[i];
        if c < '0' || c > '9' {
            proof {
                assert(d[i - first] == c);
                assert(!('0' <= d[i - first] <= '9'));
                assert(!all_digits(d));
            }
            return None;
        }
        let digit = (c as u32 - '0' as u32) as u64;
        proof {
            assert(d.take(i - first + 1).drop_last() =~= d.take(i - first));
            assert(d.take(i - first + 1).last() == c);
            assert(all_digits(d.take(i - first + 1)));
        }
        acc = acc * 10 + digit;
        if acc > 0xffff_ffff {
            proof {
                if all_digits(d) {
                    lemma_digits_value_prefix(d, i - first + 1);
                    assert(digits_value(d) > u32::MAX);
                }
            }
            return None;
        }
        i = i + 1;
    }
    proof {
        assert(d.take(n - first) =~= d);
    }
    Some(acc as u32)
}

// ── Commands ──────────────────────────────────────────────────────────────────

/// A command typed at the debug console.
#[derive(Debug, Clone, PartialEq)]
pub enum ConsoleCommand {
    Help,
    DefeatEnemies,
    SetLoop(u32),
    FlagList,
    FlagSet(String),
    FlagClear(String),
    SetCompanion(Option<String>),
    Unknown(String),
}

/// The plain content of a [`ConsoleCommand`].
pub enum CommandView {
    Help,
    DefeatEnemies,
    SetLoop(u32),
    FlagList,
    FlagSet(Seq<char>),
    FlagClear(Seq<char>),
    SetCompanion(Option<Seq<char>>),
    Unknown(Seq<char>),
}

impl View for ConsoleCommand {
    type V = CommandView;

    open spec fn view(&self) -> CommandView {
        match self {
            ConsoleCommand::Help => CommandView::Help,
            ConsoleCommand::DefeatEnemies => CommandView::DefeatEnemies,
            ConsoleCommand::SetLoop(n) => CommandView::SetLoop(*n),
            ConsoleCommand::FlagList => CommandView::FlagList,
            ConsoleCommand::FlagSet(s) => CommandView::FlagSet(s@),
            ConsoleCommand::FlagClear(s) => CommandView::FlagClear(s@),
            ConsoleCommand::SetCompanion(c) => CommandView::SetCompanion(
                match c {
                    Some(s) => Some(s@),
                    None => None,
                },
            ),
            ConsoleCommand::Unknown(s) => CommandView::Unknown(s@),
        }
    }
}

/// A flag command's name: the rest of the line, trimmed, which must not be empty.
pub open spec fn flag_command(t: Seq<char>, skip: int, set: bool) -> CommandView {
    let name = trim(t.subrange(skip, t.len() as int));
    if name.len() == 0 {
        CommandView::Unknown(t)
    } else if set {
        CommandView::FlagSet(name)
    } else {
        CommandView::FlagClear(name)
    }
}

/// The command a console line stands for, read from the trimmed line:
/// `loop <n>`, `flag set <name>`, `flag clear <name>`,
/// `companion <orin|doss|kaleo|none>`, `help`, `kill`, `flag list`; anything else
/// (a bad number, an empty name, an unknown companion) is `Unknown` with the line.
pub open spec fn spec_parse_command(input: Seq<char>) -> CommandView {
    let t = trim(input);
    if starts_with(t, "loop "@) {
        match spec_parse_u32(trim(t.subrange(5, t.len() as int))) {
            Some(n) => CommandView::SetLoop(n),
            None => CommandView::Unknown(t),
        }
    } else if starts_with(t, "flag set "@) {
        flag_command(t, 9, true)
    } else if starts_with(t, "flag clear "@) {
        flag_command(t, 11, false)
    } else if starts_with(t, "companion "@) {
        let name = trim(t.subrange(10, t.len() as int));
        if name == "none"@ {
            CommandView::SetCompanion(None)
        } else if name == "orin"@ || name == "doss"@ || name == "kaleo"@ {
            CommandView::SetCompanion(Some(name))
        } else {
            CommandView::Unknown(t)
        }
    } else if t == "help"@ {
        CommandView::Help
    } else if t == "kill"@ {
        CommandView::DefeatEnemies
    } else if t == "flag list"@ {
        CommandView::FlagList
    } else {
        CommandView::Unknown(t)
    }
}

/// Whether `v` is exactly the characters of `lit`.
fn is_word(v: &Vec<char>, lit: &str) -> (b: bool)
    ensures
        b == (v@ == lit@),
{
    let w = chars_of(lit);
    chars_eq(v, &w)
}

/// Read a console line as a command.
pub fn parse_command(input: &str) -> (c: ConsoleCommand)
    ensures
        c@ == spec_parse_command(input@),
{
    let trimmed = trim_str(input);
    proof {
        reveal_strlit("loop ");
        reveal_strlit("flag set ");
        reveal_strlit("flag clear ");
        reveal_strlit("companion ");
        reveal_strlit("none");
        reveal_strlit("orin");
        reveal_strlit("doss");
        reveal_strlit("kaleo");
        reveal_strlit("help");
        reveal_strlit("kill");
        reveal_strlit("flag list");
    }
    if let Some(rest) = strip_prefix_str(trimmed, "loop ") {
        return match parse_u32(trim_str(rest)) {
            Some(n) => ConsoleCommand::SetLoop(n),
            None => ConsoleCommand::Unknown(to_string(trimmed)),
        };
    }
    if let Some(rest) = strip_prefix_str(trimmed, "flag set ") {
        let name = trim_str(rest);
        return if name.unicode_len() == 0 {
            ConsoleCommand::Unknown(to_string(trimmed))
        } else {
            ConsoleCommand::FlagSet(to_string(name))
        };
    }
    if let Some(rest) = strip_prefix_str(trimmed, "flag clear ") {
        let name = trim_str(rest);
        return if name.unicode_len() == 0 {
            ConsoleCommand::Unknown(to_string(trimmed))
        } else {
            ConsoleCommand::FlagClear(to_string(name))
        };
    }
    if let Some(rest) = strip_prefix_str(trimmed, "companion ") {
        let name = trim_str(rest);
        let nv = chars_of(name);
        return if is_word(&nv, "none") {
            ConsoleCommand::SetCompanion(None)
        } else if is_word(&nv, "orin") || is_word(&nv, "doss") || is_word(&nv, "kaleo") {
            ConsoleCommand::SetCompanion(Some(to_string(name)))
        } else {
            ConsoleCommand::Unknown(to_string(trimmed))
        };
    }
    let tv = chars_of(trimmed);
    if is_word(&tv, "help") {
        ConsoleCommand::Help
    } else if is_word(&tv, "kill") {
        ConsoleCommand::DefeatEnemies
    } else if is_word(&tv, "flag list") {
        ConsoleCommand::FlagList
    } else {
        ConsoleCommand::Unknown(to_string(trimmed))
    }
}


/// A word with no whitespace at either end is its own trim.
proof fn lemma_trim_of_word(w: Seq<char>)
    requires
        w.len() > 0,
        !is_ws(w[0]),
        !is_ws(w[w.len() - 1]),
    ensures
        trim(w) == w,
{
    assert(skip_ws_from(w, 0) == 0);
    assert(back_ws_from(w, 0, w.len() as int) == w.len());
    assert(w.subrange(0, w.len() as int) =~= w);
}

/// Naming a companion: a line that reads `companion orin`, `companion doss` or
/// `companion kaleo` (whitespace around the line aside) selects exactly that
/// companion, and no line ever selects a companion outside those three.
pub proof fn lemma_companion_names(input: Seq<char>, name: Seq<char>)
    requires
        trim(input) == "companion "@ + name,
        name == "orin"@ || name == "doss"@ || name == "kaleo"@,
    ensures
        spec_parse_command(input) == CommandView::SetCompanion(Some(name)),
        forall|line: Seq<char>, who: Seq<char>|
            spec_parse_command(line) == CommandView::SetCompanion(Some(who)) ==> (who == "orin"@
                || who == "doss"@ || who == "kaleo"@),
{
    reveal_strlit("companion ");
    reveal_strlit("orin");
    reveal_strlit("doss");
    reveal_strlit("kaleo");
    reveal_strlit("none");
    reveal_strlit("loop ");
    reveal_strlit("flag set ");
    reveal_strlit("flag clear ");
    let t = trim(input);
    assert(t.len() == 10 + name.len());
    assert(t[0] == 'c');
    assert(!starts_with(t, "loop "@)) by {
        assert(t.subrange(0, 5)[0] == 'c');
    }
    assert(!starts_with(t, "flag set "@)) by {
        assert(t.subrange(0, 9)[0] == 'c');
    }
    assert(!starts_with(t, "flag clear "@)) by {
        assert(t.subrange(0, 11)[0] == 'c');
    }
    assert(t.subrange(0, 10) =~= "companion "@);
    assert(t.subrange(10, t.len() as int) =~= name);
    lemma_trim_of_word(name);
    assert(name != "none"@) by {
        assert(name[0] != 'n');
    }
}

// ── Running commands ──────────────────────────────────────────────────────────

/// `c` with its hit points at zero when it is a hostile character with health.
pub open spec fn defeated_member(c: Combatant) -> Combatant {
    match c.health {
        Some(h) => if hostile(c) {
            Combatant { health: Some(Health { current: 0, max: h.max }), ..c }
        } else {
            c
        },
        None => c,
    }
}

/// Set every hostile character's hit points to zero.
pub fn defeat_all_enemies(roster: &mut Vec<Combatant>)
    ensures
        final(roster)@ == old(roster)@.map_values(|c: Combatant| defeated_member(c)),
{
    let ghost start = roster@;
    let mut i: usize = 0;
    while i < roster.len()
        invariant
            i <= roster@.len(),
            roster@.len() == start.len(),
            forall|j: int| 0 <= j < start.len() ==> #[trigger] roster@[j] == (if j < i { defeated_member(start[j]) } else { start[j] }),
        decreases roster@.len() - i,
    {
        let c = roster[i];
        if hostile_c(&c) {
            match c.health {
                Some(h) => {
                    roster.set(i, Combatant { health: Some(Health { current: 0, max: h.max }), ..c });
                },
                None => {},
            }
        }
        i = i + 1;
    }
    proof {
        assert(roster@ =~= start.map_values(|c: Combatant| defeated_member(c)));
    }
}

/// The words of `v` joined by single spaces.
pub open spec fn joined(v: Seq<Seq<char>>) -> Seq<char>
    decreases v.len(),
{
    if v.len() == 0 {
        Seq::empty()
    } else if v.len() == 1 {
        v[0]
    } else {
        joined(v.drop_last()) + seq![' '] + v.last()
    }
}

/// The console's help line.
pub open spec fn help_text() -> Seq<char> {
    "Commands: help, kill, loop <1-5>, flag list, flag set <name>, flag clear <name>, companion <orin|doss|kaleo|none>, worldbuilding, worldbuilding exit"@
}

/// `n` clamped to the loops 1–5.
pub open spec fn clamp_loop(n: u32) -> u32 {
    if n < 1 {
        1
    } else if n > 5 {
        5
    } else {
        n
    }
}

/// What running command `cmd` on session `s` and battle roster `roster` gives: the
/// session `t`, the roster `roster2` and the reply `out`. Flag and companion
/// commands work in exploration only.
pub open spec fn spec_execute(
    cmd: CommandView,
    s: GameSession,
    roster: Seq<Combatant>,
    rolled: bool,
    t: GameSession,
    roster2: Seq<Combatant>,
    out: Seq<char>,
) -> bool {
    let not_exploring = s.phase != GamePhase::Exploration;
    match cmd {
        CommandView::Help => t == s && roster2 == roster && out == help_text(),
        CommandView::DefeatEnemies => t == s && roster2 == roster.map_values(|c: Combatant| defeated_member(c))
            && out == "All enemies defeated."@,
        CommandView::SetLoop(n) => {
            &&& spec_goto_loop(s, clamp_loop(n), rolled, t)
            &&& roster2 == roster
            &&& out == "Jumped to loop "@ + decimal(clamp_loop(n) as nat) + "."@
        },
        CommandView::FlagList => {
            let fl = if s.phase is Ended {
                Seq::<Seq<char>>::empty()
            } else {
                s.flags.sorted_flags()
            };
            &&& t == s
            &&& roster2 == roster
            &&& out == (if fl.len() == 0 {
                "No flags set."@
            } else {
                joined(fl)
            })
        },
        CommandView::FlagSet(name) => roster2 == roster && if not_exploring {
            t == s && out == "Not in exploration."@
        } else {
            t == GameSession { flags: t.flags, ..s } && t.flags@ == s.flags@.insert(name) && out == "Flag set: "@ + name
        },
        CommandView::FlagClear(name) => roster2 == roster && if not_exploring {
            t == s && out == "Not in exploration."@
        } else {
            &&& t == GameSession { flags: t.flags, ..s }
            &&& t.flags@ == s.flags@.remove(name)
            &&& out == (if s.flags@.contains(name) {
                "Flag cleared: "@ + name
            } else {
                "Flag not set: "@ + name
            })
        },
        CommandView::SetCompanion(c) => roster2 == roster && if not_exploring {
            t == s && out == "Not in exploration."@
        } else {
            &&& t == GameSession { active_companion: t.active_companion, ..s }
            &&& crate::game::opt_string_view(t.active_companion) == c
            &&& out == match c {
                Some(name) => "Companion set to: "@ + name,
                None => "Companion cleared."@,
            }
        },
        CommandView::Unknown(line) => t == s && roster2 == roster && out == "Unknown command: "@ + line
            + ", use 'help' for a list of commands."@,
    }
}

fn join_flags(v: &Vec<String>) -> (r: String)
    ensures
        r@ == joined(string_views(v@)),
{
    let mut r = String::new();
    let mut i: usize = 0;
    while i < v.len()
        invariant
            i <= v@.len(),
            r@ == joined(string_views(v@).subrange(0, i as int)),
        decreases v@.len() - i,
    {
        let ghost before = r@;
        if i > 0 {
            r.append(" ");
        }
        r.append(v[i].as_str());
        i = i + 1;
        proof {
            let sv = string_views(v@);
            let sub = sv.subrange(0, i as int);
            assert(sub.drop_last() =~= sv.subrange(0, i - 1));
            assert(sub.last() == v@[i - 1]@);
            reveal_strlit(" ");
            if i == 1 {
                assert(r@ =~= joined(sub));
            } else {
                assert(r@ =~= joined(sub));
            }
        }
    }
    proof {
        assert(string_views(v@).subrange(0, i as int) =~= string_views(v@));
    }
    r
}

/// Run a console command on the session and the battle roster, and return the reply.
/// `rolled` says whether the Research Wing rolls an encounter when a loop restarts.
pub fn execute_command(cmd: ConsoleCommand, session: &mut GameSession, roster: &mut Vec<Combatant>, rolled: bool) -> (out: String)
    requires
        old(session).phase == GamePhase::Exploration ==> recruits_fit(old(session).flags@, old(session).party@),
    ensures
        spec_execute(cmd@, *old(session), old(roster)@, rolled, *final(session), final(roster)@, out@),
{
    match cmd {
        ConsoleCommand::Help => to_string(
            "Commands: help, kill, loop <1-5>, flag list, flag set <name>, flag clear <name>, companion <orin|doss|kaleo|none>, worldbuilding, worldbuilding exit",
        ),
        ConsoleCommand::DefeatEnemies => {
            defeat_all_enemies(roster);
            to_string("All enemies defeated.")
        },
        ConsoleCommand::SetLoop(n) => {
            let clamped: u32 = if n < 1 { 1 } else if n > 5 { 5 } else { n };
            session.goto_loop(clamped, rolled);
            let mut out = to_string("Jumped to loop ");
            let d = decimal_string(clamped as usize);
            out.append(d.as_str());
            out.append(".");
            out
        },
        ConsoleCommand::FlagList => {
            let ended = match session.phase {
                GamePhase::Ended(_) => true,
                _ => false,
            };
            if ended || session.flags.flags().len() == 0 {
                to_string("No flags set.")
            } else {
                join_flags(session.flags.flags())
            }
        },
        ConsoleCommand::FlagSet(name) => {
            if session.phase != GamePhase::Exploration {
                return to_string("Not in exploration.");
            }
            session.flags.set_flag(name.as_str());
            let mut out = to_string("Flag set: ");
            out.append(name.as_str());
            out
        },
        ConsoleCommand::FlagClear(name) => {
            if session.phase != GamePhase::Exploration {
                return to_string("Not in exploration.");
            }
            if session.flags.clear_flag(name.as_str()) {
                let mut out = to_string("Flag cleared: ");
                out.append(name.as_str());
                out
            } else {
                let mut out = to_string("Flag not set: ");
                out.append(name.as_str());
                out
            }
        },
        ConsoleCommand::SetCompanion(companion) => {
            if session.phase != GamePhase::Exploration {
                return to_string("Not in exploration.");
            }
            let reply = match &companion {
                Some(name) => {
                    let mut out = to_string("Companion set to: ");
                    out.append(name.as_str());
                    out
                },
                None => to_string("Companion cleared."),
            };
            session.active_companion = companion;
            reply
        },
        ConsoleCommand::Unknown(line) => {
            let mut out = to_string("Unknown command: ");
            out.append(line.as_str());
            out.append(", use 'help' for a list of commands.");
            out
        },
    }
}

} // verus!
