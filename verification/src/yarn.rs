use vstd::prelude::*;
use vstd::string::*;

use crate::assoc::{assoc_map, assoc_set, find_key, keys_distinct, lemma_assoc_dom, lemma_assoc_index};
use crate::text::{
    chars_eq, chars_of, contains_char, ends_with, find_from, find_str, lemma_find_from_occurs,
    occurs_at, starts_with, strip_prefix_str, strip_suffix_str, substring_string, to_string, trim,
    trim_str,
};

verus! {

// ── Variable values ───────────────────────────────────────────────────────────

/// A dialog variable's value.
#[derive(Clone, Debug)]
pub enum Val {
    Bool(bool),
    Str(String),
}

/// Truthiness of a value: a boolean as is, a string when non-empty.
pub open spec fn val_truthy(v: Val) -> bool {
    match v {
        Val::Bool(b) => b,
        Val::Str(s) => s@.len() > 0,
    }
}

impl Val {
    /// Truthiness: booleans as they are, strings when non-empty.
    pub fn as_bool(&self) -> (b: bool)
        ensures
            b == val_truthy(*self),
    {
        match self {
            Val::Bool(b) => *b,
            Val::Str(s) => s.as_str().unicode_len() > 0,
        }
    }
}

// ── Command parsing ───────────────────────────────────────────────────────────

/// `s` with prefix `p` and suffix `q` removed, when it has both (the suffix is looked
/// for after the prefix).
pub open spec fn between(s: Seq<char>, p: Seq<char>, q: Seq<char>) -> Option<Seq<char>> {
    if starts_with(s, p) {
        let rest = s.subrange(p.len() as int, s.len() as int);
        if ends_with(rest, q) {
            Some(rest.subrange(0, rest.len() - q.len()))
        } else {
            None
        }
    } else {
        None
    }
}

fn between_str<'a>(s: &'a str, p: &str, q: &str) -> (r: Option<&'a str>)
    ensures
        match r {
            Some(t) => between(s@, p@, q@) == Some(t@),
            None => between(s@, p@, q@) == None::<Seq<char>>,
        },
{
    match strip_prefix_str(s, p) {
        Some(rest) => match strip_suffix_str(rest, q) {
            Some(inner) => Some(inner),
            None => None,
        },
        None => None,
    }
}

/// The target of a `<<jump target>>` command.
pub open spec fn spec_parse_jump(t: Seq<char>) -> Option<Seq<char>> {
    match between(t, "<<jump "@, ">>"@) {
        Some(inner) => Some(trim(inner)),
        None => None,
    }
}

/// The target node of a `<<jump target>>` command line.
pub fn parse_jump(t: &str) -> (r: Option<String>)
    ensures
        match r {
            Some(s) => spec_parse_jump(t@) == Some(s@),
            None => spec_parse_jump(t@) == None::<Seq<char>>,
        },
{
    match between_str(t, "<<jump ", ">>") {
        Some(inner) => Some(to_string(trim_str(inner))),
        None => None,
    }
}

/// `s` without any leading `c`.
pub open spec fn trim_start_char(s: Seq<char>, c: char) -> Seq<char>
    decreases s.len(),
{
    if s.len() > 0 && s[0] == c {
        trim_start_char(s.drop_first(), c)
    } else {
        s
    }
}

/// `s` without any trailing `c`.
pub open spec fn trim_end_char(s: Seq<char>, c: char) -> Seq<char>
    decreases s.len(),
{
    if s.len() > 0 && s.last() == c {
        trim_end_char(s.drop_last(), c)
    } else {
        s
    }
}

/// `s` without any leading or trailing `c`.
pub open spec fn trim_char(s: Seq<char>, c: char) -> Seq<char> {
    trim_end_char(trim_start_char(s, c), c)
}

proof fn lemma_trim_start_char_suffix(s: Seq<char>, c: char)
    ensures
        trim_start_char(s, c).len() <= s.len(),
        trim_start_char(s, c) == s.subrange(s.len() - trim_start_char(s, c).len(), s.len() as int),
    decreases s.len(),
{
    if s.len() > 0 && s[0] == c {
        lemma_trim_start_char_suffix(s.drop_first(), c);
        let t = trim_start_char(s.drop_first(), c);
        assert(s.drop_first().subrange(s.drop_first().len() - t.len(), s.drop_first().len() as int)
            =~= s.subrange(s.len() - t.len(), s.len() as int));
    } else {
        assert(s.subrange(0, s.len() as int) =~= s);
    }
}

proof fn lemma_trim_end_char_prefix(s: Seq<char>, c: char)
    ensures
        trim_end_char(s, c).len() <= s.len(),
        trim_end_char(s, c) == s.subrange(0, trim_end_char(s, c).len() as int),
    decreases s.len(),
{
    if s.len() > 0 && s.last() == c {
        lemma_trim_end_char_prefix(s.drop_last(), c);
        let t = trim_end_char(s.drop_last(), c);
        assert(s.drop_last().subrange(0, t.len() as int) =~= s.subrange(0, t.len() as int));
    } else {
        assert(s.subrange(0, s.len() as int) =~= s);
    }
}

/// `s` without its leading `c` characters.
fn trim_start_char_str(s: &str, c: char) -> (r: &str)
    ensures
        r@ == trim_start_char(s@, c),
{
    let v = chars_of(s);
    let mut i: usize = 0;
    proof {
        assert(v@.subrange(0, v@.len() as int) =~= v@);
    }
    while i < v.len() && v[i] == c
        invariant
            v@ == s@,
            i <= v@.len(),
            trim_start_char(s@, c) == trim_start_char(v@.subrange(i as int, v@.len() as int), c),
        decreases v@.len() - i,
    {
        proof {
            assert(v@.subrange(i as int, v@.len() as int).drop_first() =~= v@.subrange(i + 1, v@.len() as int));
        }
        i = i + 1;
    }
    s.substring_char(i, v.len())
}

/// `s` without its leading and trailing `c` characters.
fn trim_char_str(s: &str, c: char) -> (r: &str)
    ensures
        r@ == trim_char(s@, c),
{
    let t = trim_start_char_str(s, c);
    let v = chars_of(t);
    let mut j: usize = v.len();
    proof {
        assert(v@.subrange(0, v@.len() as int) =~= v@);
    }
    while j > 0 && v[j - 1] == c
        invariant
            v@ == t@,
            j <= v@.len(),
            trim_end_char(t@, c) == trim_end_char(v@.subrange(0, j as int), c),
        decreases j,
    {
        proof {
            assert(v@.subrange(0, j as int).drop_last() =~= v@.subrange(0, j - 1));
        }
        j = j - 1;
    }
    t.substring_char(0, j)
}

/// The mathematical content of a [`Val`].
pub enum ValSpec {
    Bool(bool),
    Str(Seq<char>),
}

/// What a [`Val`] holds.
pub open spec fn val_spec(v: Val) -> ValSpec {
    match v {
        Val::Bool(b) => ValSpec::Bool(b),
        Val::Str(s) => ValSpec::Str(s@),
    }
}

impl DeepView for Val {
    type V = ValSpec;

    open spec fn deep_view(&self) -> ValSpec {
        val_spec(*self)
    }
}

/// Truthiness of a value's content.
pub open spec fn val_spec_truthy(v: ValSpec) -> bool {
    match v {
        ValSpec::Bool(b) => b,
        ValSpec::Str(s) => s.len() > 0,
    }
}

/// The value written on the right of `<<set $var = value>>`: `true`, `false`, a
/// double-quoted string (quotes removed), or anything else, read as `true`.
pub open spec fn set_value(rhs: Seq<char>) -> ValSpec {
    if rhs == "true"@ {
        ValSpec::Bool(true)
    } else if rhs == "false"@ {
        ValSpec::Bool(false)
    } else if rhs.len() > 0 && rhs[0] == '"' && rhs.last() == '"' {
        ValSpec::Str(rhs.subrange(1, rhs.len() - 1))
    } else {
        ValSpec::Bool(true)
    }
}

/// The parts of a `<<set $var = value>>` command: the text inside the brackets
/// split at the first `" = "`.
pub open spec fn set_parts(t: Seq<char>) -> Option<(Seq<char>, Seq<char>)> {
    match between(t, "<<set "@, ">>"@) {
        Some(inner) => match find_from(inner, " = "@, 0) {
            Some(k) => Some(
                (
                    trim_start_char(trim(inner.subrange(0, k)), '$'),
                    trim(inner.subrange(k + 3, inner.len() as int)),
                ),
            ),
            None => None,
        },
        None => None,
    }
}

/// The only `<<set>>` line the parser cannot take: a value that is one lone `"`.
pub open spec fn set_line_breaks_parser(t: Seq<char>) -> bool {
    match set_parts(t) {
        Some((_, rhs)) => rhs == "\""@,
        None => false,
    }
}

/// What `<<set $var = value>>` assigns, if the line is such a command: the variable
/// name (without `$`) and the value.
pub open spec fn spec_parse_set(t: Seq<char>) -> Option<(Seq<char>, ValSpec)> {
    match set_parts(t) {
        Some((var, rhs)) => Some((var, set_value(rhs))),
        None => None,
    }
}

/// Parse a `<<set $var = value>>` command line.
pub fn parse_set(t: &str) -> (r: Option<(String, Val)>)
    requires
        !set_line_breaks_parser(t@),
    ensures
        match r {
            Some((var, val)) => spec_parse_set(t@) == Some((var@, val_spec(val))),
            None => spec_parse_set(t@) == None::<(Seq<char>, ValSpec)>,
        },
{
    let inner = match between_str(t, "<<set ", ">>") {
        Some(inner) => inner,
        None => return None,
    };
    let k = match find_str(inner, " = ") {
        Some(k) => k,
        None => return None,
    };
    proof {
        lemma_find_from_occurs(inner@, " = "@, 0);
        reveal_strlit(" = ");
    }
    let n = inner.unicode_len();
    let lhs = inner.substring_char(0, k);
    let rhs_raw = inner.substring_char(k + 3, n);
    let var = to_string(trim_start_char_str(trim_str(lhs), '$'));
    let rhs = trim_str(rhs_raw);
    let rv = chars_of(rhs);
    proof {
        reveal_strlit("true");
        reveal_strlit("false");
        reveal_strlit("\"");
    }
    let val = if chars_eq(&rv, &chars_of("true")) {
        Val::Bool(true)
    } else if chars_eq(&rv, &chars_of("false")) {
        Val::Bool(false)
    } else if rv.len() > 0 && rv[0] == '"' && rv[rv.len() - 1] == '"' {
        proof {
            if rv@.len() == 1 {
                assert(rv@ =~= "\""@);
            }
        }
        Val::Str(substring_string(rhs, 1, rv.len() - 1))
    } else {
        Val::Bool(true)
    };
    Some((var, val))
}


/// Whether `t` is a `<<set>>` line that the parser cannot take.
pub fn set_line_breaks(t: &str) -> (b: bool)
    ensures
        b == set_line_breaks_parser(t@),
{
    let inner = match between_str(t, "<<set ", ">>") {
        Some(inner) => inner,
        None => return false,
    };
    let k = match find_str(inner, " = ") {
        Some(k) => k,
        None => return false,
    };
    proof {
        lemma_find_from_occurs(inner@, " = "@, 0);
        reveal_strlit(" = ");
        reveal_strlit("\"");
    }
    let n = inner.unicode_len();
    let rhs = trim_str(inner.substring_char(k + 3, n));
    let rv = chars_of(rhs);
    chars_eq(&rv, &chars_of("\""))
}

/// A `speaker: text` dialog line, split into the speaker (a single word, no `<`) and
/// the trimmed text. Commands (`<<`) and choices (`-> `) are not dialog lines.
pub open spec fn spec_parse_dialog(t: Seq<char>) -> Option<(Seq<char>, Seq<char>)> {
    if starts_with(t, "<<"@) || starts_with(t, "-> "@) {
        None
    } else {
        match find_from(t, ":"@, 0) {
            Some(colon) => {
                let speaker = t.subrange(0, colon);
                if speaker.contains(' ') || speaker.contains('<') {
                    None
                } else {
                    Some((speaker, trim(t.subrange(colon + 1, t.len() as int))))
                }
            },
            None => None,
        }
    }
}

/// Parse `"speaker: text"` dialog lines. Returns `None` for commands or lines
/// that don't match the pattern.
pub fn parse_dialog(t: &str) -> (r: Option<(String, String)>)
    ensures
        match r {
            Some((speaker, text)) => spec_parse_dialog(t@) == Some((speaker@, text@)),
            None => spec_parse_dialog(t@) == None::<(Seq<char>, Seq<char>)>,
        },
{
    if crate::text::starts_with_str(t, "<<") || crate::text::starts_with_str(t, "-> ") {
        return None;
    }
    let colon = match find_str(t, ":") {
        Some(c) => c,
        None => return None,
    };
    proof {
        lemma_find_from_occurs(t@, ":"@, 0);
        reveal_strlit(":");
    }
    let n = t.unicode_len();
    let speaker = t.substring_char(0, colon);
    if contains_char(speaker, ' ') || contains_char(speaker, '<') {
        return None;
    }
    let text = trim_str(t.substring_char(colon + 1, n));
    Some((to_string(speaker), to_string(text)))
}


// ── Scripts and nodes ─────────────────────────────────────────────────────────

/// A line without the `\r` of a `\r\n` line break.
pub open spec fn strip_cr(l: Seq<char>) -> Seq<char> {
    if l.len() > 0 && l.last() == '\r' {
        l.drop_last()
    } else {
        l
    }
}

/// The lines of `s[start..]`, scanning from `i` for the next `\n`.
pub open spec fn lines_from(s: Seq<char>, start: int, i: int) -> Seq<Seq<char>>
    decreases s.len() - i,
{
    if i >= s.len() || i < start || start < 0 {
        if 0 <= start < s.len() {
            seq![s.subrange(start, s.len() as int)]
        } else {
            seq![]
        }
    } else if s[i] == '\n' {
        seq![strip_cr(s.subrange(start, i))] + lines_from(s, i + 1, i + 1)
    } else {
        lines_from(s, start, i + 1)
    }
}

/// The lines of a text, as `str::lines` yields them: split at each `\n`, a `\r`
/// just before it dropped, and no empty line after a final line break.
pub open spec fn spec_lines(s: Seq<char>) -> Seq<Seq<char>> {
    lines_from(s, 0, 0)
}

/// The lines of `text`.
pub fn split_lines(text: &str) -> (r: Vec<String>)
    ensures
        r.deep_view() == spec_lines(text@),
{
    let v = chars_of(text);
    let n = v.len();
    let mut out: Vec<String> = Vec::new();
    let mut start: usize = 0;
    let mut i: usize = 0;
    while i < n
        invariant
            n == v@.len(),
            v@ == text@,
            start <= i <= n,
            out.deep_view() + lines_from(text@, start as int, i as int) == spec_lines(text@),
        decreases n - i,
    {
        if v[i] == '\n' {
            let end = if i > start && v[i - 1] == '\r' {
                i - 1
            } else {
                i
            };
            let piece = substring_string(text, start, end);
            proof {
                let sub = text@.subrange(start as int, i as int);
                if i > start && v@[i - 1] == '\r' {
                    assert(sub.drop_last() =~= text@.subrange(start as int, end as int));
                } else {
                    assert(sub =~= text@.subrange(start as int, end as int));
                }
                assert(strip_cr(sub) == piece@);
            }
            let ghost old_dv = out.deep_view();
            out.push(piece);
            proof {
                assert(out.deep_view() =~= old_dv.push(piece@));
                assert(old_dv + (seq![piece@] + lines_from(text@, i + 1, i + 1)) =~= old_dv.push(
                    piece@,
                ) + lines_from(text@, i + 1, i + 1));
            }
            start = i + 1;
        }
        i = i + 1;
    }
    if start < n {
        let piece = substring_string(text, start, n);
        let ghost old_dv = out.deep_view();
        out.push(piece);
        proof {
            assert(out.deep_view() =~= old_dv.push(piece@));
            assert(old_dv + seq![piece@] =~= old_dv.push(piece@));
        }
    } else {
        proof {
            assert(out.deep_view() + seq![] =~= out.deep_view());
        }
    }
    out
}

/// The state of the scan of a script for its nodes.
pub struct NodeScan {
    pub title: Option<Seq<char>>,
    pub body: Seq<Seq<char>>,
    pub in_body: bool,
    pub nodes: Map<Seq<char>, Seq<Seq<char>>>,
}

/// One line of the scan: outside a body, `title: name` names the next node and
/// `---` opens its body; inside, `===` closes it (storing it under its title, if
/// it has one) and any other line is kept as it is.
pub open spec fn node_scan_step(st: NodeScan, line: Seq<char>) -> NodeScan {
    let t = trim(line);
    if !st.in_body {
        if starts_with(t, "title: "@) {
            NodeScan {
                title: Some(trim(t.subrange(7, t.len() as int))),
                body: st.body,
                in_body: st.in_body,
                nodes: st.nodes,
            }
        } else if t == "---"@ {
            NodeScan { title: st.title, body: seq![], in_body: true, nodes: st.nodes }
        } else {
            st
        }
    } else if t == "==="@ {
        NodeScan {
            title: None,
            body: seq![],
            in_body: false,
            nodes: match st.title {
                Some(name) => st.nodes.insert(name, st.body),
                None => st.nodes,
            },
        }
    } else {
        NodeScan { title: st.title, body: st.body.push(line), in_body: st.in_body, nodes: st.nodes }
    }
}

/// The scan after the given lines.
pub open spec fn node_scan(lines: Seq<Seq<char>>) -> NodeScan
    decreases lines.len(),
{
    if lines.len() == 0 {
        NodeScan { title: None, body: seq![], in_body: false, nodes: Map::empty() }
    } else {
        node_scan_step(node_scan(lines.drop_last()), lines.last())
    }
}

/// The nodes of a Yarn script: each title with its body lines.
pub open spec fn spec_parse_nodes(text: Seq<char>) -> Map<Seq<char>, Seq<Seq<char>>> {
    node_scan(spec_lines(text)).nodes
}

/// A copy of a list of lines.
pub fn copy_lines(v: &Vec<String>) -> (r: Vec<String>)
    ensures
        r.deep_view() == v.deep_view(),
{
    let mut out: Vec<String> = Vec::new();
    let mut i: usize = 0;
    while i < v.len()
        invariant
            i <= v@.len(),
            out.deep_view() == v.deep_view().take(i as int),
        decreases v@.len() - i,
    {
        let c = v[i].clone();
        let ghost old_dv = out.deep_view();
        proof {
            assert(c@ == v.deep_view()[i as int]);
        }
        out.push(c);
        proof {
            assert(out.deep_view() =~= old_dv.push(c@));
            assert(v.deep_view().take(i + 1) =~= v.deep_view().take(i as int).push(c@));
        }
        i = i + 1;
    }
    proof {
        assert(v.deep_view().take(v@.len() as int) =~= v.deep_view());
    }
    out
}

/// Split a Yarn source into its nodes: `(title, body lines)` with distinct titles.
pub fn parse_nodes(text: &str) -> (r: Vec<(String, Vec<String>)>)
    ensures
        keys_distinct(r.deep_view()),
        assoc_map(r.deep_view()) == spec_parse_nodes(text@),
{
    let lines = split_lines(text);
    let mut nodes: Vec<(String, Vec<String>)> = Vec::new();
    let mut title: Option<String> = None;
    let mut body: Vec<String> = Vec::new();
    let mut in_body = false;
    let mut k: usize = 0;
    proof {
        assert(lines.deep_view().take(0) =~= Seq::<Seq<char>>::empty());
        assert(assoc_map(nodes.deep_view()) =~= Map::<Seq<char>, Seq<Seq<char>>>::empty());
    }
    while k < lines.len()
        invariant
            k <= lines@.len(),
            lines.deep_view() == spec_lines(text@),
            keys_distinct(nodes.deep_view()),
            ({
                let st = node_scan(lines.deep_view().take(k as int));
                &&& st.nodes == assoc_map(nodes.deep_view())
                &&& st.body == body.deep_view()
                &&& st.in_body == in_body
                &&& st.title == match title {
                    Some(t) => Some(t@),
                    None => None::<Seq<char>>,
                }
            }),
        decreases lines@.len() - k,
    {
        let line = &lines[k];
        let t = trim_str(line.as_str());
        proof {
            reveal_strlit("title: ");
            reveal_strlit("---");
            reveal_strlit("===");
            assert(lines.deep_view().take(k + 1).drop_last() =~= lines.deep_view().take(k as int));
            assert(lines.deep_view()[k as int] == line@);
        }
        if !in_body {
            match strip_prefix_str(t, "title: ") {
                Some(name) => {
                    title = Some(to_string(trim_str(name)));
                },
                None => {
                    let tv = chars_of(t);
                    if is_literal(&tv, "---") {
                        in_body = true;
                        body = Vec::new();
                        proof {
                            assert(body.deep_view() =~= Seq::<Seq<char>>::empty());
                        }
                    }
                },
            }
        } else {
            let tv = chars_of(t);
            if is_literal(&tv, "===") {
                match title {
                    Some(name) => {
                        let b = copy_lines(&body);
                        assoc_set(&mut nodes, name, b);
                    },
                    None => {},
                }
                title = None;
                body = Vec::new();
                in_body = false;
                proof {
                    assert(body.deep_view() =~= Seq::<Seq<char>>::empty());
                }
            } else {
                let ghost old_dv = body.deep_view();
                body.push(line.clone());
                proof {
                    assert(body.deep_view() =~= old_dv.push(line@));
                }
            }
        }
        k = k + 1;
    }
    proof {
        assert(lines.deep_view().take(lines@.len() as int) =~= lines.deep_view());
    }
    nodes
}


// ── Blocks ────────────────────────────────────────────────────────────────────

/// The condition written in a command line `p cond>>`, trimmed.
pub open spec fn cond_of(t: Seq<char>, p: Seq<char>) -> Option<Seq<char>> {
    match between(t, p, ">>"@) {
        Some(c) => Some(trim(c)),
        None => None,
    }
}

fn cond_of_str(t: &str, p: &str) -> (r: Option<String>)
    ensures
        r.deep_view() == cond_of(t@, p@),
{
    match between_str(t, p, ">>") {
        Some(c) => Some(to_string(trim_str(c))),
        None => None,
    }
}

/// The scan of an `<<if>>` block from line `i`: the branches closed so far, the
/// open branch's condition (`None` for `<<else>>`) and body, and the nesting depth.
/// Nested blocks stay whole inside the body of their branch.
pub open spec fn if_scan(
    lines: Seq<Seq<char>>,
    i: int,
    branches: Seq<(Option<Seq<char>>, Seq<Seq<char>>)>,
    cond: Option<Seq<char>>,
    body: Seq<Seq<char>>,
    depth: int,
) -> (Seq<(Option<Seq<char>>, Seq<Seq<char>>)>, int)
    decreases lines.len() - i,
{
    if i < 0 || i >= lines.len() {
        (branches.push((cond, body)), i)
    } else {
        let t = trim(lines[i]);
        if starts_with(t, "<<if "@) {
            if_scan(lines, i + 1, branches, cond, body.push(lines[i]), depth + 1)
        } else if t == "<<endif>>"@ {
            if depth - 1 == 0 {
                (branches.push((cond, body)), i + 1)
            } else {
                if_scan(lines, i + 1, branches, cond, body.push(lines[i]), depth - 1)
            }
        } else if depth == 1 && t == "<<else>>"@ {
            if_scan(lines, i + 1, branches.push((cond, body)), None, seq![], depth)
        } else if depth == 1 && starts_with(t, "<<elseif "@) {
            if_scan(lines, i + 1, branches.push((cond, body)), cond_of(t, "<<elseif "@), seq![], depth)
        } else {
            if_scan(lines, i + 1, branches, cond, body.push(lines[i]), depth)
        }
    }
}

/// The branches of the `<<if>> … <<endif>>` block opened at `if_idx`, each with its
/// condition (`None` for `<<else>>`) and body, and the index after its `<<endif>>`
/// (the end of the lines when it has none).
pub open spec fn spec_split_if_block(lines: Seq<Seq<char>>, if_idx: int) -> (
    Seq<(Option<Seq<char>>, Seq<Seq<char>>)>,
    int,
) {
    if_scan(lines, if_idx + 1, seq![], cond_of(trim(lines[if_idx]), "<<if "@), seq![], 1)
}

/// Split an `<<if>> … <<endif>>` block (starting at `if_idx`) into branches.
pub fn split_if_block(lines: &Vec<String>, if_idx: usize) -> (r: (
    Vec<(Option<String>, Vec<String>)>,
    usize,
))
    requires
        if_idx < lines@.len(),
    ensures
        (r.0.deep_view(), r.1 as int) == spec_split_if_block(lines.deep_view(), if_idx as int),
{
    let ghost ld = lines.deep_view();
    let mut branches: Vec<(Option<String>, Vec<String>)> = Vec::new();
    let first = trim_str(lines[if_idx].as_str());
    let mut cur_cond: Option<String> = cond_of_str(first, "<<if ");
    let mut cur_body: Vec<String> = Vec::new();
    let mut depth: usize = 1;
    let n = lines.len();
    let mut i: usize = if_idx + 1;
    proof {
        assert(ld[if_idx as int] == lines@[if_idx as int]@);
        assert(branches.deep_view() =~= Seq::<(Option<Seq<char>>, Seq<Seq<char>>)>::empty());
        assert(cur_body.deep_view() =~= Seq::<Seq<char>>::empty());
    }
    while i < lines.len()
        invariant
            ld == lines.deep_view(),
            if_idx < i <= ld.len(),
            1 <= depth <= i - if_idx,
            if_scan(ld, i as int, branches.deep_view(), cur_cond.deep_view(), cur_body.deep_view(), depth as int)
                == spec_split_if_block(ld, if_idx as int),
        decreases ld.len() - i,
    {
        let t = trim_str(lines[i].as_str());
        let tv = chars_of(t);
        let ghost bd = branches.deep_view();
        let ghost cd = cur_body.deep_view();
        proof {
            reveal_strlit("<<if ");
            reveal_strlit("<<endif>>");
            reveal_strlit("<<else>>");
            reveal_strlit("<<elseif ");
            assert(ld[i as int] == lines@[i as int]@);
        }
        if crate::text::starts_with_str(t, "<<if ") {
            depth = depth + 1;
            cur_body.push(lines[i].clone());
            proof {
                assert(cur_body.deep_view() =~= cd.push(ld[i as int]));
            }
        } else if is_literal(&tv, "<<endif>>") {
            depth = depth - 1;
            if depth == 0 {
                let ghost cc = cur_cond.deep_view();
                branches.push((cur_cond, cur_body));
                proof {
                    assert(branches.deep_view() =~= bd.push((cc, cd)));
                }
                return (branches, i + 1);
            } else {
                cur_body.push(lines[i].clone());
                proof {
                    assert(cur_body.deep_view() =~= cd.push(ld[i as int]));
                }
            }
        } else if depth == 1 && is_literal(&tv, "<<else>>") {
            let ghost cc = cur_cond.deep_view();
            branches.push((cur_cond, cur_body));
            cur_cond = None;
            cur_body = Vec::new();
            proof {
                assert(branches.deep_view() =~= bd.push((cc, cd)));
                assert(cur_body.deep_view() =~= Seq::<Seq<char>>::empty());
            }
        } else if depth == 1 && crate::text::starts_with_str(t, "<<elseif ") {
            let ghost cc = cur_cond.deep_view();
            branches.push((cur_cond, cur_body));
            cur_cond = cond_of_str(t, "<<elseif ");
            cur_body = Vec::new();
            proof {
                assert(branches.deep_view() =~= bd.push((cc, cd)));
                assert(cur_body.deep_view() =~= Seq::<Seq<char>>::empty());
            }
        } else {
            cur_body.push(lines[i].clone());
            proof {
                assert(cur_body.deep_view() =~= cd.push(ld[i as int]));
            }
        }
        i = i + 1;
    }
    let ghost bd = branches.deep_view();
    let ghost cc = cur_cond.deep_view();
    let ghost cd = cur_body.deep_view();
    branches.push((cur_cond, cur_body));
    proof {
        assert(branches.deep_view() =~= bd.push((cc, cd)));
    }
    (branches, i)
}

/// Whether a line is indented (four spaces or a tab), as the body of a choice is.
pub open spec fn indented(line: Seq<char>) -> bool {
    starts_with(line, "    "@) || starts_with(line, "\t"@)
}

/// The scan of a run of `-> choice` options from line `i`, given the options so far:
/// an indented line after an option joins its body (trimmed), a `-> text` line opens
/// the next option, and any other line ends the run.
pub open spec fn choice_scan(lines: Seq<Seq<char>>, i: int, acc: Seq<(Seq<char>, Seq<Seq<char>>)>) -> (
    Seq<(Seq<char>, Seq<Seq<char>>)>,
    int,
)
    decreases lines.len() - i,
{
    if 0 <= i < lines.len() {
        let t = trim(lines[i]);
        if acc.len() > 0 && indented(lines[i]) {
            choice_scan(lines, i + 1, acc.update(acc.len() - 1, (acc.last().0, acc.last().1.push(t))))
        } else if starts_with(t, "-> "@) {
            choice_scan(lines, i + 1, acc.push((t.subrange(3, t.len() as int), seq![])))
        } else {
            (acc, i)
        }
    } else {
        (acc, i)
    }
}

/// The consecutive `-> choice` options from `start`, each with its body lines, and the
/// index after the last option's body.
pub open spec fn spec_collect_choices(lines: Seq<Seq<char>>, start: int) -> (
    Seq<(Seq<char>, Seq<Seq<char>>)>,
    int,
) {
    choice_scan(lines, start, seq![])
}

/// Collect consecutive `-> choice` options starting at `start`.
pub fn collect_choices(lines: &Vec<String>, start: usize) -> (r: (Vec<(String, Vec<String>)>, usize))
    ensures
        (r.0.deep_view(), r.1 as int) == spec_collect_choices(lines.deep_view(), start as int),
{
    let ghost ld = lines.deep_view();
    let mut choices: Vec<(String, Vec<String>)> = Vec::new();
    let mut i: usize = start;
    proof {
        assert(choices.deep_view() =~= Seq::<(Seq<char>, Seq<Seq<char>>)>::empty());
    }
    while i < lines.len()
        invariant
            ld == lines.deep_view(),
            start <= i,
            choice_scan(ld, i as int, choices.deep_view()) == spec_collect_choices(ld, start as int),
        decreases ld.len() - i,
    {
        let raw = lines[i].as_str();
        let t = trim_str(raw);
        let ghost acc = choices.deep_view();
        proof {
            reveal_strlit("    ");
            reveal_strlit("\t");
            reveal_strlit("-> ");
            assert(ld[i as int] == raw@);
        }
        if choices.len() > 0 && (crate::text::starts_with_str(raw, "    ")
            || crate::text::starts_with_str(raw, "\t")) {
            let last = choices.pop().unwrap();
            let (text, mut body) = last;
            let ghost bd = body.deep_view();
            body.push(to_string(t));
            choices.push((text, body));
            proof {
                assert(body.deep_view() =~= bd.push(trim(ld[i as int])));
                assert(choices.deep_view() =~= acc.update(
                    acc.len() - 1,
                    (acc.last().0, acc.last().1.push(trim(ld[i as int]))),
                ));
            }
        } else {
            match strip_prefix_str(t, "-> ") {
                Some(choice_text) => {
                    let body: Vec<String> = Vec::new();
                    choices.push((to_string(choice_text), body));
                    proof {
                        assert(body.deep_view() =~= Seq::<Seq<char>>::empty());
                        assert(choices.deep_view() =~= acc.push((t@.subrange(3, t@.len() as int), seq![])));
                    }
                },
                None => {
                    return (choices, i);
                },
            }
        }
        i = i + 1;
    }
    (choices, i)
}


// ── Word wrapping ─────────────────────────────────────────────────────────────

/// The number of bytes of a character in UTF-8.
pub open spec fn utf8_width(c: char) -> nat {
    if (c as u32) < 0x80 {
        1
    } else if (c as u32) < 0x800 {
        2
    } else if (c as u32) < 0x10000 {
        3
    } else {
        4
    }
}

/// The length of a text in bytes of UTF-8, which is what `str::len` counts.
pub open spec fn byte_len(s: Seq<char>) -> nat
    decreases s.len(),
{
    if s.len() == 0 {
        0
    } else {
        byte_len(s.drop_last()) + utf8_width(s.last())
    }
}

/// The byte length of a concatenation is the sum of the byte lengths.
pub proof fn lemma_byte_len_concat(a: Seq<char>, b: Seq<char>)
    ensures
        byte_len(a + b) == byte_len(a) + byte_len(b),
    decreases b.len(),
{
    if b.len() == 0 {
        assert(a + b =~= a);
    } else {
        lemma_byte_len_concat(a, b.drop_last());
        assert((a + b).drop_last() =~= a + b.drop_last());
    }
}

/// A part of a text is no longer in bytes than the text.
pub proof fn lemma_byte_len_subrange(s: Seq<char>, a: int, b: int)
    requires
        0 <= a <= b <= s.len(),
    ensures
        byte_len(s.subrange(a, b)) <= byte_len(s),
        byte_len(s.subrange(0, b)) <= byte_len(s),
{
    lemma_byte_len_concat(s.subrange(0, a), s.subrange(a, b));
    lemma_byte_len_concat(s.subrange(0, b), s.subrange(b, s.len() as int));
    assert(s.subrange(0, a) + s.subrange(a, b) =~= s.subrange(0, b));
    assert(s.subrange(0, b) + s.subrange(b, s.len() as int) =~= s);
}

/// The byte length of `s`.
pub fn utf8_len(s: &str) -> (r: usize)
    requires
        byte_len(s@) <= usize::MAX,
    ensures
        r == byte_len(s@),
{
    let v = chars_of(s);
    let mut sum: usize = 0;
    let mut i: usize = 0;
    proof {
        assert(v@.take(0) =~= Seq::<char>::empty());
    }
    while i < v.len()
        invariant
            v@ == s@,
            byte_len(s@) <= usize::MAX,
            i <= v@.len(),
            sum == byte_len(v@.take(i as int)),
        decreases v@.len() - i,
    {
        let u = v[i] as u32;
        let w: usize = if u < 0x80 {
            1
        } else if u < 0x800 {
            2
        } else if u < 0x10000 {
            3
        } else {
            4
        };
        proof {
            assert(v@.take(i + 1).drop_last() =~= v@.take(i as int));
            lemma_byte_len_subrange(v@, 0, i + 1);
            assert(v@.subrange(0, i + 1) =~= v@.take(i + 1));
        }
        sum = sum + w;
        i = i + 1;
    }
    proof {
        assert(v@.take(v@.len() as int) =~= v@);
    }
    sum
}

/// The pieces of `s[start..]` between occurrences of `c`, scanning from `i`.
pub open spec fn split_from(s: Seq<char>, c: char, start: int, i: int) -> Seq<Seq<char>>
    decreases s.len() - i,
{
    if i < start || start < 0 || i >= s.len() {
        seq![s.subrange(start, s.len() as int)]
    } else if s[i] == c {
        seq![s.subrange(start, i)] + split_from(s, c, i + 1, i + 1)
    } else {
        split_from(s, c, start, i + 1)
    }
}

/// The pieces of `s` between occurrences of `c`, empty pieces included, as
/// `str::split` with a character yields them.
pub open spec fn split_on(s: Seq<char>, c: char) -> Seq<Seq<char>> {
    split_from(s, c, 0, 0)
}

/// The pieces of `s` between occurrences of `c`.
pub fn split_char(s: &str, c: char) -> (r: Vec<String>)
    ensures
        r.deep_view() == split_on(s@, c),
        forall|j: int| 0 <= j < r@.len() ==> byte_len(#[trigger] r.deep_view()[j]) <= byte_len(s@),
{
    let v = chars_of(s);
    let n = v.len();
    let mut out: Vec<String> = Vec::new();
    let mut start: usize = 0;
    let mut i: usize = 0;
    while i < n
        invariant
            n == v@.len(),
            v@ == s@,
            start <= i <= n,
            out.deep_view() + split_from(s@, c, start as int, i as int) == split_on(s@, c),
            forall|j: int| 0 <= j < out@.len() ==> byte_len(#[trigger] out.deep_view()[j]) <= byte_len(s@),
        decreases n - i,
    {
        if v[i] == c {
            let piece = substring_string(s, start, i);
            let ghost old_dv = out.deep_view();
            proof {
                lemma_byte_len_subrange(s@, start as int, i as int);
            }
            out.push(piece);
            proof {
                assert(out.deep_view() =~= old_dv.push(piece@));
                assert(old_dv + (seq![piece@] + split_from(s@, c, i + 1, i + 1)) =~= old_dv.push(
                    piece@,
                ) + split_from(s@, c, i + 1, i + 1));
            }
            start = i + 1;
        }
        i = i + 1;
    }
    let piece = substring_string(s, start, n);
    let ghost old_dv = out.deep_view();
    proof {
        lemma_byte_len_subrange(s@, start as int, n as int);
    }
    out.push(piece);
    proof {
        assert(out.deep_view() =~= old_dv.push(piece@));
        assert(old_dv + seq![piece@] =~= old_dv.push(piece@));
    }
    out
}

/// No piece of a split holds the separator.
pub proof fn lemma_split_from_no_sep(s: Seq<char>, c: char, start: int, i: int)
    requires
        0 <= start <= i,
        start <= s.len(),
        forall|j: int| start <= j < i && j < s.len() ==> s[j] != c,
    ensures
        forall|k: int| 0 <= k < split_from(s, c, start, i).len() ==> !(#[trigger] split_from(s, c, start, i)[k]).contains(c),
    decreases s.len() - i,
{
    if i >= s.len() {
        let p = s.subrange(start, s.len() as int);
        assert(split_from(s, c, start, i) == seq![p]);
        assert forall|m: int| 0 <= m < p.len() implies p[m] != c by {
            assert(p[m] == s[start + m]);
        }
        assert(!p.contains(c));
        assert(seq![p][0] == p);
        assert forall|k: int| 0 <= k < split_from(s, c, start, i).len() implies !(#[trigger] split_from(s, c, start, i)[k]).contains(c) by {
            assert(k == 0);
        }
    } else if s[i] == c {
        lemma_split_from_no_sep(s, c, i + 1, i + 1);
        let p = s.subrange(start, i);
        let rest = split_from(s, c, i + 1, i + 1);
        assert forall|m: int| 0 <= m < p.len() implies p[m] != c by {
            assert(p[m] == s[start + m]);
        }
        assert(!p.contains(c));
        assert forall|k: int| 0 <= k < split_from(s, c, start, i).len() implies !(#[trigger] split_from(s, c, start, i)[k]).contains(c) by {
            if k == 0 {
                assert(split_from(s, c, start, i)[k] == p);
            } else {
                assert(split_from(s, c, start, i)[k] == rest[k - 1]);
            }
        }
    } else {
        lemma_split_from_no_sep(s, c, start, i + 1);
        assert(split_from(s, c, start, i) == split_from(s, c, start, i + 1));
    }
}

/// One word of the wrap: it starts the line when the line is empty, joins it after a
/// space when the line stays within `max` bytes, and else starts a new line.
pub open spec fn wrap_step(acc: (Seq<Seq<char>>, Seq<char>), word: Seq<char>, max: int) -> (
    Seq<Seq<char>>,
    Seq<char>,
) {
    let (lines, cur) = acc;
    if cur.len() == 0 {
        (lines, word)
    } else if byte_len(cur) + 1 + byte_len(word) <= max {
        (lines, cur + seq![' '] + word)
    } else {
        (lines.push(cur), word)
    }
}

/// The finished lines and the open line after the given words.
pub open spec fn wrap_words(words: Seq<Seq<char>>, max: int) -> (Seq<Seq<char>>, Seq<char>)
    decreases words.len(),
{
    if words.len() == 0 {
        (seq![], seq![])
    } else {
        wrap_step(wrap_words(words.drop_last(), max), words.last(), max)
    }
}

/// Word-wrapping of a text: the text itself when `max` is 0 or it fits in `max`
/// bytes; else its space-separated words gathered into lines of at most `max` bytes
/// (a longer word standing alone), the last line kept when it is not empty.
pub open spec fn spec_wrap_text(text: Seq<char>, max: int) -> Seq<Seq<char>> {
    if max == 0 || byte_len(text) <= max {
        seq![text]
    } else {
        let (lines, cur) = wrap_words(split_on(text, ' '), max);
        if cur.len() == 0 {
            lines
        } else {
            lines.push(cur)
        }
    }
}

/// A wrapped line either fits in `max` bytes or is one word.
pub open spec fn fits_or_word(line: Seq<char>, max: int) -> bool {
    byte_len(line) <= max || !line.contains(' ')
}

proof fn lemma_wrap_words_fit(words: Seq<Seq<char>>, max: int)
    requires
        forall|k: int| 0 <= k < words.len() ==> !(#[trigger] words[k]).contains(' '),
    ensures
        forall|k: int| 0 <= k < wrap_words(words, max).0.len() ==> fits_or_word(
            #[trigger] wrap_words(words, max).0[k],
            max,
        ),
        fits_or_word(wrap_words(words, max).1, max),
    decreases words.len(),
{
    if words.len() > 0 {
        let prev = words.drop_last();
        assert forall|k: int| 0 <= k < prev.len() implies !(#[trigger] prev[k]).contains(' ') by {
            assert(prev[k] == words[k]);
        }
        lemma_wrap_words_fit(prev, max);
        assert(!words.last().contains(' '));
        let cur = wrap_words(prev, max).1;
        let w = words.last();
        lemma_byte_len_concat(cur + seq![' '], w);
        lemma_byte_len_concat(cur, seq![' ']);
        assert(seq![' '].drop_last() =~= Seq::<char>::empty());
        assert(byte_len(Seq::<char>::empty()) == 0);
        assert(utf8_width(' ') == 1);
        assert(byte_len(seq![' ']) == 1);
    } else {
        assert(!Seq::<char>::empty().contains(' '));
    }
}

/// Wrapping keeps lines within the width: every line of `wrap_text(text, max)` with
/// `max > 0` fits in `max` bytes, unless it is a single word longer than that.
pub proof fn lemma_wrap_lines_fit(text: Seq<char>, max: int)
    requires
        max > 0,
    ensures
        forall|k: int| 0 <= k < spec_wrap_text(text, max).len() ==> fits_or_word(
            #[trigger] spec_wrap_text(text, max)[k],
            max,
        ),
{
    if byte_len(text) > max {
        lemma_split_from_no_sep(text, ' ', 0, 0);
        lemma_wrap_words_fit(split_on(text, ' '), max);
    }
}

/// Very simple word-wrapper: splits on spaces to keep lines under `max_width` bytes.
pub fn wrap_text(text: &str, max_width: usize) -> (r: Vec<String>)
    requires
        byte_len(text@) <= usize::MAX,
    ensures
        r.deep_view() == spec_wrap_text(text@, max_width as int),
{
    let total = utf8_len(text);
    if max_width == 0 || total <= max_width {
        let mut one: Vec<String> = Vec::new();
        one.push(to_string(text));
        proof {
            assert(one.deep_view() =~= seq![text@]);
        }
        return one;
    }
    let words = split_char(text, ' ');
    let ghost wd = words.deep_view();
    let mut lines: Vec<String> = Vec::new();
    let mut current = String::new();
    let mut k: usize = 0;
    proof {
        assert(wd.take(0) =~= Seq::<Seq<char>>::empty());
        assert(lines.deep_view() =~= Seq::<Seq<char>>::empty());
    }
    while k < words.len()
        invariant
            wd == words.deep_view(),
            wd == split_on(text@, ' '),
            forall|j: int| 0 <= j < words@.len() ==> byte_len(#[trigger] wd[j]) <= byte_len(text@),
            byte_len(text@) <= usize::MAX,
            max_width < byte_len(text@),
            k <= words@.len(),
            byte_len(current@) <= byte_len(text@),
            (lines.deep_view(), current@) == wrap_words(wd.take(k as int), max_width as int),
        decreases words@.len() - k,
    {
        let word = &words[k];
        proof {
            assert(wd.take(k + 1).drop_last() =~= wd.take(k as int));
            assert(wd[k as int] == word@);
            assert(byte_len(wd[k as int]) <= byte_len(text@));
        }
        if current.as_str().unicode_len() == 0 {
            current = word.clone();
        } else {
            let cl = utf8_len(current.as_str());
            let wl = utf8_len(word.as_str());
            if cl < max_width && wl <= max_width - 1 - cl {
                let ghost old_cur = current@;
                current.append(" ");
                current.append(word.as_str());
                proof {
                    reveal_strlit(" ");
                    assert(current@ =~= old_cur + seq![' '] + word@);
                    lemma_byte_len_concat(old_cur + seq![' '], word@);
                    lemma_byte_len_concat(old_cur, seq![' ']);
                    assert(seq![' '].drop_last() =~= Seq::<char>::empty());
                    assert(byte_len(Seq::<char>::empty()) == 0);
                    assert(utf8_width(' ') == 1);
                    assert(byte_len(seq![' ']) == 1);
                }
            } else {
                let ghost old_dv = lines.deep_view();
                let ghost old_cur = current@;
                lines.push(current);
                current = word.clone();
                proof {
                    assert(lines.deep_view() =~= old_dv.push(old_cur));
                }
            }
        }
        k = k + 1;
    }
    proof {
        assert(wd.take(words@.len() as int) =~= wd);
    }
    if current.as_str().unicode_len() > 0 {
        let ghost old_dv = lines.deep_view();
        let ghost old_cur = current@;
        lines.push(current);
        proof {
            assert(lines.deep_view() =~= old_dv.push(old_cur));
        }
    }
    lines
}

// ── Expression evaluation ─────────────────────────────────────────────────────

/// The last match of a left-to-right scan for non-overlapping occurrences of `op`
/// in `s` from `start`, given the last match found so far.
pub open spec fn scan_last(s: Seq<char>, op: Seq<char>, start: int, last: Option<int>) -> Option<int>
    decreases s.len() + 1 - start,
{
    if op.len() == 0 || start < 0 {
        last
    } else {
        match find_from(s, op, start) {
            Some(abs) => if abs >= start && abs + op.len() <= s.len() {
                scan_last(s, op, abs + op.len(), Some(abs))
            } else {
                last
            },
            None => last,
        }
    }
}

/// Position of the last of the non-overlapping occurrences of `op` in `s`, scanning
/// left to right.
pub open spec fn spec_rfind_binary_op(s: Seq<char>, op: Seq<char>) -> Option<int> {
    scan_last(s, op, 0, None)
}

pub proof fn lemma_scan_last_occurs(s: Seq<char>, op: Seq<char>, start: int, last: Option<int>)
    requires
        match last {
            Some(l) => occurs_at(s, op, l),
            None => true,
        },
    ensures
        match scan_last(s, op, start, last) {
            Some(l) => occurs_at(s, op, l),
            None => true,
        },
    decreases s.len() + 1 - start,
{
    if op.len() > 0 && start >= 0 {
        lemma_find_from_occurs(s, op, start);
        match find_from(s, op, start) {
            Some(abs) => {
                if abs >= start && abs + op.len() <= s.len() {
                    lemma_scan_last_occurs(s, op, abs + op.len(), Some(abs));
                }
            },
            None => {},
        }
    }
}

/// Find the position (in characters) of `op` in `s`, scanning from the left for
/// non-overlapping occurrences and keeping the last one found.
pub fn rfind_binary_op(s: &str, op: &str) -> (r: Option<usize>)
    requires
        op@.len() > 0,
    ensures
        match r {
            Some(i) => spec_rfind_binary_op(s@, op@) == Some(i as int),
            None => spec_rfind_binary_op(s@, op@) == None::<int>,
        },
{
    let v = chars_of(s);
    let w = chars_of(op);
    let n = v.len();
    let mut last: Option<usize> = None;
    let mut start: usize = 0;
    loop
        invariant
            n == v@.len(),
            v@ == s@,
            w@ == op@,
            w@.len() > 0,
            start <= v@.len(),
            spec_rfind_binary_op(s@, op@) == scan_last(s@, op@, start as int, match last {
                Some(l) => Some(l as int),
                None => None::<int>,
            }),
        decreases v@.len() + 1 - start,
    {
        let found = crate::text::find_from_pub(&v, &w, start);
        match found {
            Some(abs) => {
                proof {
                    lemma_find_from_occurs(v@, w@, start as int);
                }
                last = Some(abs);
                start = abs + w.len();
            },
            None => {
                return last;
            },
        }
    }
}

/// How a variable's value reads in a condition.
pub open spec fn lookup_truthy(vars: Map<Seq<char>, ValSpec>, name: Seq<char>) -> bool {
    vars.dom().contains(name) && val_spec_truthy(vars[name])
}

/// Whether `$var == "value"` holds: a string variable equal to the value, a `true`
/// variable against `true`, or an unset or `false` variable against `false` or nothing.
pub open spec fn equality_holds(vars: Map<Seq<char>, ValSpec>, lhs: Seq<char>, rhs: Seq<char>) -> bool {
    if vars.dom().contains(lhs) {
        match vars[lhs] {
            ValSpec::Str(s) => s == rhs,
            ValSpec::Bool(true) => rhs == "true"@,
            ValSpec::Bool(false) => rhs == "false"@ || rhs.len() == 0,
        }
    } else {
        rhs == "false"@ || rhs.len() == 0
    }
}

/// The value of a Yarn condition: `a and b`, `a or b` (split at the last of the
/// non-overlapping occurrences, `and` binding loosest), `not a`, `$var == "value"`,
/// or a single variable's truthiness.
pub open spec fn spec_eval_expr(expr: Seq<char>, vars: Map<Seq<char>, ValSpec>) -> bool
    decreases expr.len(),
{
    let e = trim(expr);
    proof {
        crate::text::lemma_trim_bounds(expr);
        reveal_strlit(" and ");
        reveal_strlit(" or ");
        reveal_strlit(" == ");
        reveal_strlit("not ");
        lemma_scan_last_occurs(e, " and "@, 0, None);
        lemma_scan_last_occurs(e, " or "@, 0, None);
        lemma_find_from_occurs(e, " == "@, 0);
    }
    match spec_rfind_binary_op(e, " and "@) {
        Some(pos) => spec_eval_expr(e.subrange(0, pos), vars) && spec_eval_expr(
            e.subrange(pos + 5, e.len() as int),
            vars,
        ),
        None => match spec_rfind_binary_op(e, " or "@) {
            Some(pos) => spec_eval_expr(e.subrange(0, pos), vars) || spec_eval_expr(
                e.subrange(pos + 4, e.len() as int),
                vars,
            ),
            None => if starts_with(e, "not "@) {
                let inner = trim(e.subrange(4, e.len() as int));
                proof {
                    crate::text::lemma_trim_bounds(e.subrange(4, e.len() as int));
                }
                !spec_eval_expr(inner, vars)
            } else {
                match find_from(e, " == "@, 0) {
                    Some(eq) => equality_holds(
                        vars,
                        trim_start_char(trim(e.subrange(0, eq)), '$'),
                        trim_char(trim(e.subrange(eq + 4, e.len() as int)), '"'),
                    ),
                    None => lookup_truthy(vars, trim_start_char(e, '$')),
                }
            },
        },
    }
}


// ── Variable tables ───────────────────────────────────────────────────────────

/// Whether `v` is exactly the characters of literal `lit`.
fn is_literal(v: &Vec<char>, lit: &str) -> (b: bool)
    ensures
        b == (v@ == lit@),
{
    let w = chars_of(lit);
    chars_eq(v, &w)
}

/// Evaluate a Yarn condition against the current variables.
pub fn eval_expr(expr: &str, vars: &Vec<(String, Val)>) -> (b: bool)
    requires
        keys_distinct(vars.deep_view()),
    ensures
        b == spec_eval_expr(expr@, assoc_map(vars.deep_view())),
    decreases expr@.len(),
{
    let e = trim_str(expr);
    proof {
        crate::text::lemma_trim_bounds(expr@);
        reveal_strlit(" and ");
        reveal_strlit(" or ");
        reveal_strlit(" == ");
        reveal_strlit("not ");
        lemma_scan_last_occurs(e@, " and "@, 0, None);
        lemma_scan_last_occurs(e@, " or "@, 0, None);
        lemma_find_from_occurs(e@, " == "@, 0);
    }
    let n = e.unicode_len();
    if let Some(pos) = rfind_binary_op(e, " and ") {
        return eval_expr(e.substring_char(0, pos), vars) && eval_expr(e.substring_char(pos + 5, n), vars);
    }
    if let Some(pos) = rfind_binary_op(e, " or ") {
        return eval_expr(e.substring_char(0, pos), vars) || eval_expr(e.substring_char(pos + 4, n), vars);
    }
    if let Some(inner) = strip_prefix_str(e, "not ") {
        let inner_t = trim_str(inner);
        proof {
            crate::text::lemma_trim_bounds(inner@);
        }
        return !eval_expr(inner_t, vars);
    }
    if let Some(eq) = find_str(e, " == ") {
        let lhs_v = chars_of(trim_start_char_str(trim_str(e.substring_char(0, eq)), '$'));
        let rhs_v = chars_of(trim_char_str(trim_str(e.substring_char(eq + 4, n)), '"'));
        return match find_key(vars, &lhs_v) {
            Some(i) => {
                proof {
                    lemma_assoc_index(vars.deep_view(), i as int);
                }
                match &vars[i].1 {
                    Val::Str(s) => {
                        let sv = chars_of(s.as_str());
                        chars_eq(&sv, &rhs_v)
                    },
                    Val::Bool(true) => is_literal(&rhs_v, "true"),
                    Val::Bool(false) => is_literal(&rhs_v, "false") || rhs_v.len() == 0,
                }
            },
            None => {
                proof {
                    lemma_assoc_dom(vars.deep_view(), lhs_v@);
                }
                is_literal(&rhs_v, "false") || rhs_v.len() == 0
            },
        };
    }
    let var_v = chars_of(trim_start_char_str(e, '$'));
    match find_key(vars, &var_v) {
        Some(i) => {
            proof {
                lemma_assoc_index(vars.deep_view(), i as int);
            }
            vars[i].1.as_bool()
        },
        None => {
            proof {
                lemma_assoc_dom(vars.deep_view(), var_v@);
            }
            false
        },
    }
}

} // verus!
