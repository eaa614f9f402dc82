use vstd::prelude::*;
use vstd::string::*;

use crate::text::to_string;
use crate::yarn::{byte_len, spec_wrap_text, wrap_text};

verus! {

// ── Layout of the dialog screen ───────────────────────────────────────────────

/// Width of the dialog frame, in bytes of text.
pub const WIDTH: usize = 58;

/// How many of the latest dialog lines the screen shows as context.
pub const CONTEXT_LINES: usize = 5;

/// What `str::to_uppercase` gives for a text.
pub uninterp spec fn uppercase(s: Seq<char>) -> Seq<char>;

/// `str::to_uppercase` (std): the text in upper case by Unicode's mapping. Its
/// result is named [`uppercase`]; nothing more is stated of it.
#[verifier::external_body]
fn to_upper(s: &str) -> (r: String)
    ensures
        r@ == uppercase(s@),
{
    s.to_uppercase()
}

/// `n` copies of `c`.
pub open spec fn repeated(c: char, n: nat) -> Seq<char> {
    Seq::new(n, |_i: int| c)
}

/// The decimal digits of `n`, most significant first.
pub open spec fn decimal(n: nat) -> Seq<char>
    decreases n,
{
    if n < 10 {
        seq![digit_char(n)]
    } else {
        decimal(n / 10).push(digit_char(n % 10))
    }
}

/// The character of a decimal digit.
pub open spec fn digit_char(d: nat) -> char {
    if d == 0 {
        '0'
    } else if d == 1 {
        '1'
    } else if d == 2 {
        '2'
    } else if d == 3 {
        '3'
    } else if d == 4 {
        '4'
    } else if d == 5 {
        '5'
    } else if d == 6 {
        '6'
    } else if d == 7 {
        '7'
    } else if d == 8 {
        '8'
    } else {
        '9'
    }
}

fn digit_str(d: usize) -> (r: &'static str)
    requires
        d < 10,
    ensures
        r@ == seq![digit_char(d as nat)],
{
    proof {
        reveal_strlit("0");
        reveal_strlit("1");
        reveal_strlit("2");
        reveal_strlit("3");
        reveal_strlit("4");
        reveal_strlit("5");
        reveal_strlit("6");
        reveal_strlit("7");
        reveal_strlit("8");
        reveal_strlit("9");
    }
    if d == 0 {
        "0"
    } else if d == 1 {
        "1"
    } else if d == 2 {
        "2"
    } else if d == 3 {
        "3"
    } else if d == 4 {
        "4"
    } else if d == 5 {
        "5"
    } else if d == 6 {
        "6"
    } else if d == 7 {
        "7"
    } else if d == 8 {
        "8"
    } else {
        "9"
    }
}

/// `n` written in decimal.
pub fn decimal_string(n: usize) -> (r: String)
    ensures
        r@ == decimal(n as nat),
    decreases n,
{
    if n < 10 {
        to_string(digit_str(n))
    } else {
        let mut s = decimal_string(n / 10);
        s.append(digit_str(n % 10));
        proof {
            assert(s@ =~= decimal((n / 10) as nat).push(digit_char((n % 10) as nat)));
        }
        s
    }
}

/// A string of `n` copies of the one-character text `c`.
fn repeat_text(c: &str, n: usize) -> (r: String)
    requires
        c@.len() == 1,
    ensures
        r@ == repeated(c@[0], n as nat),
{
    let mut s = String::new();
    let mut i: usize = 0;
    while i < n
        invariant
            c@.len() == 1,
            i <= n,
            s@ == repeated(c@[0], i as nat),
        decreases n - i,
    {
        s.append(c);
        proof {
            assert(s@ =~= repeated(c@[0], (i + 1) as nat));
        }
        i = i + 1;
    }
    s
}

/// The label of a speaker whose upper-cased name is `upper`: `[UPPER]`.
pub open spec fn label_of(upper: Seq<char>) -> Seq<char> {
    seq!['['] + upper + seq![']']
}

/// Room left for the text after `  [LABEL] ` (none when the label is too wide).
pub open spec fn text_width(label: Seq<char>) -> int {
    if WIDTH >= byte_len(label) + 3 {
        WIDTH - (byte_len(label) + 3)
    } else {
        0
    }
}

/// The screen lines of one dialog line: its text wrapped to the room left after
/// the label, each piece shown as `  [LABEL] piece`.
pub open spec fn speaker_block(upper: Seq<char>, text: Seq<char>) -> Seq<Seq<char>> {
    let label = label_of(upper);
    spec_wrap_text(text, text_width(label)).map_values(
        |w: Seq<char>| seq![' ', ' '] + label + seq![' '] + w,
    )
}

/// The byte length of `s` if it is at most `cap`.
fn byte_len_up_to(s: &str, cap: usize) -> (r: Option<usize>)
    requires
        cap <= usize::MAX - 4,
    ensures
        match r {
            Some(n) => n == byte_len(s@) && n <= cap,
            None => byte_len(s@) > cap,
        },
{
    let v = crate::text::chars_of(s);
    let mut sum: usize = 0;
    let mut i: usize = 0;
    proof {
        assert(v@.take(0) =~= Seq::<char>::empty());
    }
    while i < v.len()
        invariant
            v@ == s@,
            cap <= usize::MAX - 4,
            i <= v@.len(),
            sum == byte_len(v@.take(i as int)),
            sum <= cap,
        decreases v@.len() - i,
    {
        let u = v[i] as u32;
        let w: usize = if u < 0x80 {
            1
        } else if u < 0x800 {
            2
        } else if u < 0x10000 {
            3
        } else {
            4
        };
        proof {
            assert(v@.take(i + 1).drop_last() =~= v@.take(i as int));
        }
        sum = sum + w;
        i = i + 1;
        if sum > cap {
            proof {
                crate::yarn::lemma_byte_len_subrange(v@, 0, i as int);
                assert(v@.subrange(0, i as int) =~= v@.take(i as int));
            }
            return None;
        }
    }
    proof {
        assert(v@.take(v@.len() as int) =~= v@);
    }
    Some(sum)
}

/// Whether the byte length of `s` fits in a `usize`, as it does for any text held
/// in memory.
pub fn text_fits(s: &str) -> (b: bool)
    ensures
        b == (byte_len(s@) <= usize::MAX),
{
    let v = crate::text::chars_of(s);
    let mut sum: usize = 0;
    let mut i: usize = 0;
    proof {
        assert(v@.take(0) =~= Seq::<char>::empty());
    }
    while i < v.len()
        invariant
            v@ == s@,
            i <= v@.len(),
            sum == byte_len(v@.take(i as int)),
        decreases v@.len() - i,
    {
        let u = v[i] as u32;
        let w: usize = if u < 0x80 {
            1
        } else if u < 0x800 {
            2
        } else if u < 0x10000 {
            3
        } else {
            4
        };
        proof {
            assert(v@.take(i + 1).drop_last() =~= v@.take(i as int));
        }
        match sum.checked_add(w) {
            Some(t) => {
                sum = t;
            },
            None => {
                proof {
                    crate::yarn::lemma_byte_len_subrange(v@, 0, i + 1);
                    assert(v@.subrange(0, i + 1) =~= v@.take(i + 1));
                }
                return false;
            },
        }
        i = i + 1;
    }
    proof {
        assert(v@.take(v@.len() as int) =~= v@);
    }
    true
}

/// The screen lines of one dialog line whose speaker, upper-cased, is `upper_speaker`.
pub fn speaker_lines(upper_speaker: &str, text: &str) -> (r: Vec<String>)
    requires
        byte_len(text@) <= usize::MAX,
    ensures
        r.deep_view() == speaker_block(upper_speaker@, text@),
{
    proof {
        reveal_strlit("[");
        reveal_strlit("]");
        reveal_strlit("  ");
        reveal_strlit(" ");
    }
    let mut label = to_string("[");
    label.append(upper_speaker);
    label.append("]");
    let ghost lv = label@;
    proof {
        assert(lv =~= label_of(upper_speaker@));
    }
    let width = match byte_len_up_to(label.as_str(), WIDTH - 3) {
        Some(ll) => WIDTH - (ll + 3),
        None => 0,
    };
    let pieces = wrap_text(text, width);
    let ghost pd = pieces.deep_view();
    let mut out: Vec<String> = Vec::new();
    let mut i: usize = 0;
    while i < pieces.len()
        invariant
            pd == pieces.deep_view(),
            pd == spec_wrap_text(text@, text_width(lv)),
            lv == label@,
            lv == label_of(upper_speaker@),
            i <= pd.len(),
            out.deep_view() == speaker_block(upper_speaker@, text@).take(i as int),
        decreases pd.len() - i,
    {
        let mut line = to_string("  ");
        line.append(label.as_str());
        line.append(" ");
        line.append(pieces[i].as_str());
        let ghost old_dv = out.deep_view();
        proof {
            reveal_strlit("  ");
            reveal_strlit(" ");
            assert(line@ =~= seq![' ', ' '] + lv + seq![' '] + pd[i as int]);
        }
        out.push(line);
        proof {
            assert(out.deep_view() =~= old_dv.push(line@));
            assert(speaker_block(upper_speaker@, text@).take(i + 1) =~= speaker_block(
                upper_speaker@,
                text@,
            ).take(i as int).push(line@));
        }
        i = i + 1;
    }
    proof {
        assert(speaker_block(upper_speaker@, text@).take(pd.len() as int) =~= speaker_block(
            upper_speaker@,
            text@,
        ));
    }
    out
}

/// The lines of all the shown dialog lines, oldest first.
pub open spec fn history_block(shown: Seq<(Seq<char>, Seq<char>)>) -> Seq<Seq<char>>
    decreases shown.len(),
{
    if shown.len() == 0 {
        seq![]
    } else {
        history_block(shown.drop_last()) + speaker_block(
            uppercase(shown.last().0),
            shown.last().1,
        )
    }
}

/// The option lines: `  [n] text`, numbered from 1.
pub open spec fn option_lines(choices: Seq<Seq<char>>) -> Seq<Seq<char>> {
    Seq::new(
        choices.len(),
        |i: int| seq![' ', ' ', '['] + decimal((i + 1) as nat) + seq![']', ' '] + choices[i],
    )
}

/// The title line: the game's name centred in the frame.
pub open spec fn title_line() -> Seq<char> {
    repeated(' ', 17) + "C A R B O N T H R O N E"@ + repeated(' ', 18)
}

/// The whole dialog screen: a framed title, the last [`CONTEXT_LINES`] dialog
/// lines, a rule, the numbered options when there are any, and a footer saying
/// which keys act.
pub open spec fn spec_screen(
    history: Seq<(Seq<char>, Seq<char>)>,
    choices: Seq<Seq<char>>,
    waiting_for_choice: bool,
) -> Seq<Seq<char>> {
    let bar = repeated('=', WIDTH as nat);
    let start = if history.len() >= CONTEXT_LINES {
        history.len() - CONTEXT_LINES
    } else {
        0
    };
    let shown = history.subrange(start, history.len() as int);
    let options = if choices.len() > 0 {
        seq![Seq::<char>::empty()] + option_lines(choices) + seq![Seq::<char>::empty()]
    } else {
        seq![]
    };
    let footer = if waiting_for_choice {
        "  Press 1-"@ + decimal(choices.len()) + " to choose"@
    } else {
        "  [any key] next"@
    };
    seq![bar, title_line(), bar, Seq::<char>::empty()] + history_block(shown) + seq![
        Seq::<char>::empty(),
        seq![' ', ' '] + repeated('-', (WIDTH - 2) as nat),
    ] + options + seq![bar, footer, bar]
}

/// Whether the byte length of every dialog line's text fits in `usize`.
pub open spec fn history_fits(history: Seq<(Seq<char>, Seq<char>)>) -> bool {
    forall|i: int| 0 <= i < history.len() ==> byte_len(#[trigger] history[i].1) <= usize::MAX
}

/// The lines of a full-screen dialog frame showing the recent `history`, and the
/// `choices` as numbered options when there are any.
pub fn render_dialog_screen(
    history: &Vec<(String, String)>,
    choices: &Vec<String>,
    waiting_for_choice: bool,
) -> (r: Vec<String>)
    requires
        history_fits(history.deep_view()),
    ensures
        r.deep_view() == spec_screen(history.deep_view(), choices.deep_view(), waiting_for_choice),
{
    let ghost hd = history.deep_view();
    let ghost cd = choices.deep_view();
    proof {
        reveal_strlit("=");
        reveal_strlit(" ");
        reveal_strlit("-");
        reveal_strlit("C A R B O N T H R O N E");
        reveal_strlit("  Press 1-");
        reveal_strlit(" to choose");
        reveal_strlit("  [any key] next");
        reveal_strlit("  [");
        reveal_strlit("] ");
        reveal_strlit("  ");
    }
    let bar = repeat_text("=", WIDTH);
    let mut title = repeat_text(" ", 17);
    title.append("C A R B O N T H R O N E");
    title.append(repeat_text(" ", 18).as_str());
    let mut out: Vec<String> = Vec::new();
    out.push(bar.clone());
    out.push(title);
    out.push(bar.clone());
    out.push(String::new());
    let ghost head = out.deep_view();
    proof {
        assert(head =~= seq![repeated('=', WIDTH as nat), title_line(), repeated('=', WIDTH as nat), Seq::<char>::empty()]);
    }
    let n = history.len();
    let start = if n >= CONTEXT_LINES {
        n - CONTEXT_LINES
    } else {
        0
    };
    let ghost shown = hd.subrange(start as int, n as int);
    let mut k = start;
    proof {
        assert(shown.take(0) =~= Seq::<(Seq<char>, Seq<char>)>::empty());
        assert(out.deep_view() =~= head + history_block(shown.take(0)));
    }
    while k < n
        invariant
            hd == history.deep_view(),
            n == hd.len(),
            start <= k <= n,
            shown == hd.subrange(start as int, n as int),
            history_fits(hd),
            out.deep_view() == head + history_block(shown.take(k - start)),
        decreases n - k,
    {
        let upper = to_upper(history[k].0.as_str());
        proof {
            assert(hd[k as int] == (history@[k as int].0@, history@[k as int].1@));
            assert(byte_len(hd[k as int].1) <= usize::MAX);
        }
        let block = speaker_lines(upper.as_str(), history[k].1.as_str());
        let ghost before = out.deep_view();
        let mut j: usize = 0;
        while j < block.len()
            invariant
                j <= block@.len(),
                out.deep_view() == before + block.deep_view().take(j as int),
            decreases block@.len() - j,
        {
            let ghost o = out.deep_view();
            let line = block[j].clone();
            out.push(line);
            proof {
                assert(out.deep_view() =~= o.push(block.deep_view()[j as int]));
                assert(block.deep_view().take(j + 1) =~= block.deep_view().take(j as int).push(
                    block.deep_view()[j as int],
                ));
                assert(before + block.deep_view().take(j + 1) =~= (before + block.deep_view().take(
                    j as int,
                )).push(block.deep_view()[j as int]));
            }
            j = j + 1;
        }
        proof {
            assert(block.deep_view().take(block@.len() as int) =~= block.deep_view());
            let sk = shown.take(k + 1 - start);
            assert(sk.drop_last() =~= shown.take(k - start));
            assert(sk.last() == hd[k as int]);
            assert(out.deep_view() =~= head + history_block(sk));
        }
        k = k + 1;
    }
    proof {
        assert(shown.take(n - start) =~= shown);
    }
    let ghost mid = out.deep_view();
    out.push(String::new());
    let mut rule = to_string("  ");
    rule.append(repeat_text("-", WIDTH - 2).as_str());
    out.push(rule);
    proof {
        assert(rule@ =~= seq![' ', ' '] + repeated('-', (WIDTH - 2) as nat));
        assert(out.deep_view() =~= mid + seq![Seq::<char>::empty(), seq![' ', ' '] + repeated('-', (WIDTH - 2) as nat)]);
    }
    let ghost before_opts = out.deep_view();
    if choices.len() > 0 {
        out.push(String::new());
        let mut i: usize = 0;
        while i < choices.len()
            invariant
                cd == choices.deep_view(),
                i <= cd.len(),
                cd.len() > 0,
                out.deep_view() == before_opts + seq![Seq::<char>::empty()] + option_lines(cd).take(i as int),
            decreases cd.len() - i,
        {
            let mut line = to_string("  [");
            line.append(decimal_string(i + 1).as_str());
            line.append("] ");
            line.append(choices[i].as_str());
            let ghost o = out.deep_view();
            proof {
                reveal_strlit("  [");
                reveal_strlit("] ");
                assert(line@ =~= option_lines(cd)[i as int]);
            }
            out.push(line);
            proof {
                assert(out.deep_view() =~= o.push(option_lines(cd)[i as int]));
                assert(option_lines(cd).take(i + 1) =~= option_lines(cd).take(i as int).push(
                    option_lines(cd)[i as int],
                ));
            }
            i = i + 1;
        }
        let ghost o = out.deep_view();
        out.push(String::new());
        proof {
            assert(option_lines(cd).take(cd.len() as int) =~= option_lines(cd));
            assert(out.deep_view() =~= o.push(Seq::<char>::empty()));
            assert(out.deep_view() =~= before_opts + (seq![Seq::<char>::empty()] + option_lines(cd)
                + seq![Seq::<char>::empty()]));
        }
    } else {
        proof {
            assert(out.deep_view() =~= before_opts + Seq::<Seq<char>>::empty());
        }
    }
    let ghost before_footer = out.deep_view();
    let footer = if waiting_for_choice {
        let mut f = to_string("  Press 1-");
        f.append(decimal_string(choices.len()).as_str());
        f.append(" to choose");
        f
    } else {
        to_string("  [any key] next")
    };
    let ghost fv = footer@;
    let ghost bv = bar@;
    let b1 = bar.clone();
    out.push(b1);
    out.push(footer);
    out.push(bar);
    proof {
        let options = if cd.len() > 0 {
            seq![Seq::<char>::empty()] + option_lines(cd) + seq![Seq::<char>::empty()]
        } else {
            seq![]
        };
        let expected_footer = if waiting_for_choice {
            "  Press 1-"@ + decimal(cd.len()) + " to choose"@
        } else {
            "  [any key] next"@
        };
        assert(fv =~= expected_footer);
        assert(bv == repeated('=', WIDTH as nat));
        assert(out.deep_view() =~= before_footer + seq![bv, fv, bv]);
        assert(before_footer == before_opts + options);
        assert(out.deep_view() =~= spec_screen(hd, cd, waiting_for_choice));
    }
    out
}

} // verus!
