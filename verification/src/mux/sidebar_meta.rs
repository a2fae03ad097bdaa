//! What the sidebar shows of every session: its branch and changes, its processes, and what an agent
//! in it is doing. All of it is read from the output of other programs.

use vstd::prelude::*;
use crate::table::{entry_in_map, ids, key_has_entry, Table};
use crate::text::{
    ascii_lowercase, chars_of, contains, has_char, has_part, has_prefix, join, join_all, joined,
    lines, lines_of, number, parse_number, same_text, split, split_on, split_words, starts_with,
    strip_trailing, text_of, text_opt, texts, to_lower, trim, trimmed, without_trailing, words,
};

verus! {

/// How many lines were added and removed.
#[derive(Clone, Copy, Debug, PartialEq, Eq, Structural, Default)]
pub struct DiffStat {
    pub added: u32,
    pub removed: u32,
}

/// A process and all it has started. The share of a processor is kept as the bits of a float.
#[derive(Clone, Debug, PartialEq, Eq)]
pub struct ProcessStatus {
    pub name: String,
    pub cpu_bits: u32,
    pub mem_bytes: u64,
}

/// What is shown of one session.
#[derive(Clone, Debug, PartialEq, Eq)]
pub struct SidebarSessionMetadata {
    pub branch: Option<String>,
    pub diff: Option<DiffStat>,
    pub attention: bool,
    pub status: Option<String>,
    pub progress: Option<u8>,
    pub process_cpu: Option<String>,
    pub agent_status: Option<String>,
    pub processes: Vec<ProcessStatus>,
}

impl Default for SidebarSessionMetadata {
    fn default() -> (out: Self)
        ensures
            out.branch is None,
            out.diff is None,
            !out.attention,
            out.status is None,
            out.progress is None,
            out.process_cpu is None,
            out.agent_status is None,
            out.processes@ == Seq::<ProcessStatus>::empty(),
    {
        SidebarSessionMetadata {
            branch: None,
            diff: None,
            attention: false,
            status: None,
            progress: None,
            process_cpu: None,
            agent_status: None,
            processes: Vec::new(),
        }
    }
}

impl SidebarSessionMetadata {
    /// Whether there is nothing to show.
    pub open spec fn shows_nothing(&self) -> bool {
        &&& self.branch is None
        &&& self.diff is None
        &&& !self.attention
        &&& self.status is None
        &&& self.progress is None
        &&& self.process_cpu is None
        &&& self.agent_status is None
        &&& self.processes@.len() == 0
    }

    /// Whether there is nothing to show.
    pub fn is_empty(&self) -> (out: bool)
        ensures
            out == self.shows_nothing(),
    {
        self.branch.is_none() && self.diff.is_none() && !self.attention && self.status.is_none()
            && self.progress.is_none() && self.process_cpu.is_none() && self.agent_status.is_none()
            && self.processes.len() == 0
    }
}

/// A number that is too large for its type becomes the largest.
pub open spec fn capped(n: nat, max: nat) -> nat {
    if n <= max {
        n
    } else {
        max
    }
}

/// The two counts at the beginning of a line, where both are numbers.
pub open spec fn line_diff(line: Seq<char>) -> Option<(nat, nat)> {
    let fields = split_on(line, '\t');
    if fields.len() < 2 {
        None
    } else {
        match (number(fields[0], u32::MAX as nat), number(fields[1], u32::MAX as nat)) {
            (Some(added), Some(removed)) => Some((added, removed)),
            _ => None,
        }
    }
}

/// The sums of the counts in lines.
pub open spec fn diff_totals(list: Seq<Seq<char>>) -> (nat, nat)
    decreases list.len(),
{
    if list.len() == 0 {
        (0, 0)
    } else {
        let (added, removed) = diff_totals(list.drop_last());
        match line_diff(list.last()) {
            Some((a, r)) => (added + a, removed + r),
            None => (added, removed),
        }
    }
}

fn read_line_diff(line: &str) -> (out: Option<(u32, u32)>)
    ensures
        match out {
            Some((a, r)) => line_diff(line@) == Some((a as nat, r as nat)),
            None => line_diff(line@) is None,
        },
{
    let fields = split(line, '\t');
    assert(texts(fields@).len() == fields@.len());
    if fields.len() < 2 {
        return None;
    }
    assert(texts(fields@)[0] == fields@[0]@ && texts(fields@)[1] == fields@[1]@);
    match (parse_number(&fields[0], u32::MAX as u64), parse_number(&fields[1], u32::MAX as u64)) {
        (Some(a), Some(r)) => {
            assert(a <= u32::MAX && r <= u32::MAX);
            Some((a as u32, r as u32))
        },
        _ => None,
    }
}

/// Reads the totals of a numeric diff summary. Lines without two numbers, such as those of binary
/// files, do not count. Without any change there is nothing to report.
pub fn parse_git_numstat(output: &str) -> (out: Option<DiffStat>)
    ensures
        ({
            let (added, removed) = diff_totals(lines_of(output@));
            if added > 0 || removed > 0 {
                &&& out matches Some(diff)
                &&& diff.added == capped(added, u32::MAX as nat)
                &&& diff.removed == capped(removed, u32::MAX as nat)
            } else {
                out is None
            }
        }),
{
    let list = lines(output);
    let ghost all = texts(list@);
    let mut added: u32 = 0;
    let mut removed: u32 = 0;
    let mut i: usize = 0;
    assert(all.take(0) =~= Seq::<Seq<char>>::empty());
    while i < list.len()
        invariant
            i <= list@.len(),
            all == texts(list@),
            added == capped(diff_totals(all.take(i as int)).0, u32::MAX as nat),
            removed == capped(diff_totals(all.take(i as int)).1, u32::MAX as nat),
        decreases list@.len() - i,
    {
        proof {
            assert(all.take(i + 1).drop_last() =~= all.take(i as int));
            assert(all.take(i + 1).last() == list@[i as int]@);
        }
        match read_line_diff(&list[i]) {
            Some((a, r)) => {
                added = if added <= u32::MAX - a {
                    added + a
                } else {
                    u32::MAX
                };
                removed = if removed <= u32::MAX - r {
                    removed + r
                } else {
                    u32::MAX
                };
            },
            None => {},
        }
        i = i + 1;
    }
    assert(all.take(i as int) =~= all);
    if added > 0 || removed > 0 {
        Some(DiffStat { added, removed })
    } else {
        None
    }
}

/// The branch that a program reports.
pub fn git_branch(output: &str) -> (out: Option<String>)
    ensures
        text_opt(out) == (if trim(output@).len() > 0 {
            Some(trim(output@))
        } else {
            None
        }),
{
    let branch = trimmed(output);
    if branch.unicode_len() > 0 {
        Some(branch)
    } else {
        None
    }
}

/// The first line of an output, or nothing.
pub open spec fn first_line(output: Seq<char>) -> Seq<char> {
    let list = lines_of(output);
    if list.len() > 0 {
        list[0]
    } else {
        Seq::empty()
    }
}

/// A field of a line, where the line has it.
pub open spec fn field(line: Seq<char>, i: int) -> Option<Seq<char>> {
    let fields = split_on(line, '\t');
    if i < fields.len() {
        Some(fields[i])
    } else {
        None
    }
}

/// Whether a session asks for attention.
pub open spec fn option_attention(line: Seq<char>) -> bool {
    field(line, 0) == Some("1"@)
}

/// The status that a session sets, where it is more than white space.
pub open spec fn option_status(line: Seq<char>) -> Option<Seq<char>> {
    match field(line, 1) {
        Some(text) if trim(text).len() > 0 => Some(trim(text)),
        _ => None,
    }
}

/// The progress that a session sets, up to one hundred.
pub open spec fn option_progress(line: Seq<char>) -> Option<u8> {
    match field(line, 2) {
        Some(text) => match number(text, u8::MAX as nat) {
            Some(n) => Some(capped(n, 100) as u8),
            None => None,
        },
        None => None,
    }
}

/// Reads the options of a session: whether it asks for attention, its status, and its progress.
pub fn parse_tmux_session_options(output: &str) -> (out: Option<SidebarSessionMetadata>)
    ensures
        ({
            let line = first_line(output@);
            let nothing = !option_attention(line) && option_status(line) is None && option_progress(
                line,
            ) is None;
            match out {
                Some(meta) => {
                    &&& !nothing
                    &&& meta.attention == option_attention(line)
                    &&& text_opt(meta.status) == option_status(line)
                    &&& meta.progress == option_progress(line)
                    &&& meta.branch is None
                    &&& meta.diff is None
                    &&& meta.process_cpu is None
                    &&& meta.agent_status is None
                    &&& meta.processes@.len() == 0
                },
                None => nothing,
            }
        }),
{
    let list = lines(output);
    assert(texts(list@).len() == list@.len());
    let line = if list.len() > 0 {
        assert(texts(list@)[0] == list@[0]@);
        list[0].clone()
    } else {
        let none = String::new();
        assert(none@ =~= Seq::<char>::empty());
        none
    };
    let fields = split(&line, '\t');
    let ghost all = texts(fields@);
    assert(all.len() == fields@.len());
    assert(all[0] == fields@[0]@);
    let mut meta = SidebarSessionMetadata::default();
    meta.attention = same_text(&fields[0], "1");
    if fields.len() > 1 {
        assert(all[1] == fields@[1]@);
        let status = trimmed(&fields[1]);
        if status.unicode_len() > 0 {
            meta.status = Some(status);
        }
    }
    if fields.len() > 2 {
        assert(all[2] == fields@[2]@);
        meta.progress = match parse_number(&fields[2], u8::MAX as u64) {
            Some(n) => Some(if n <= 100 { n as u8 } else { 100 }),
            None => None,
        };
    }
    if meta.is_empty() {
        None
    } else {
        Some(meta)
    }
}

/// The last field of a path.
pub open spec fn last_part(path: Seq<char>) -> Seq<char> {
    split_on(path, '/').last()
}

/// The active pane of a session, as a line describes it: the session, the process, and the name of
/// the command without its directory.
pub open spec fn pane_process(line: Seq<char>) -> Option<(Seq<char>, Seq<char>, Seq<char>)> {
    let fields = split_on(line, '\t');
    if fields.len() < 4 || fields[1] != "1"@ || fields[2].len() == 0 || trim(fields[3]).len()
        == 0 {
        None
    } else {
        Some((fields[0], fields[2], last_part(trim(fields[3]))))
    }
}

/// Three texts.
pub open spec fn triple(value: Option<(String, String, String)>) -> Option<
    (Seq<char>, Seq<char>, Seq<char>),
> {
    match value {
        Some((a, b, c)) => Some((a@, b@, c@)),
        None => None,
    }
}

/// Reads the line of a pane. Panes that are not active, or without a process, do not count.
pub fn parse_tmux_active_pane_process(line: &str) -> (out: Option<(String, String, String)>)
    ensures
        triple(out) == pane_process(line@),
{
    let fields = split(line, '\t');
    let ghost all = texts(fields@);
    assert(all.len() == fields@.len());
    if fields.len() < 4 {
        return None;
    }
    assert(all[0] == fields@[0]@ && all[1] == fields@[1]@ && all[2] == fields@[2]@ && all[3]
        == fields@[3]@);
    let command = trimmed(&fields[3]);
    if !same_text(&fields[1], "1") || fields[2].unicode_len() == 0 || command.unicode_len() == 0 {
        return None;
    }
    let parts = split(&command, '/');
    let last = parts.len() - 1;
    assert(texts(parts@).last() == parts@[last as int]@);
    Some((fields[0].clone(), fields[2].clone(), parts[last].clone()))
}

/// How an agent shows what it is doing.
#[derive(Clone, Copy, Debug, PartialEq, Eq, Structural)]
pub enum AgentStyle {
    /// A star before the activity.
    Star,
    /// A bullet and a fixed word at the beginning of a line.
    Bullet,
    /// A hint at the bottom how to interrupt it.
    Hint,
}

/// A command that is an agent.
#[derive(Debug)]
pub struct AgentProgram {
    pub name: String,
    pub style: AgentStyle,
}

/// How a command shows what it is doing, where it is an agent.
pub open spec fn style_of(programs: Seq<AgentProgram>, command: Seq<char>) -> Option<AgentStyle>
    decreases programs.len(),
{
    if programs.len() == 0 {
        None
    } else if programs[0].name@ == command {
        Some(programs[0].style)
    } else {
        style_of(programs.drop_first(), command)
    }
}

/// How a command shows what it is doing, where it is an agent.
pub fn agent_style(programs: &[AgentProgram], command: &str) -> (out: Option<AgentStyle>)
    ensures
        out == style_of(programs@, command@),
{
    let mut i: usize = 0;
    assert(programs@.skip(0) =~= programs@);
    while i < programs.len()
        invariant
            i <= programs@.len(),
            style_of(programs@, command@) == style_of(programs@.skip(i as int), command@),
        decreases programs@.len() - i,
    {
        assert(programs@.skip(i as int)[0] == programs@[i as int]);
        assert(programs@.skip(i as int).drop_first() =~= programs@.skip(i + 1));
        if same_text(&programs[i].name, command) {
            return Some(programs[i].style);
        }
        i = i + 1;
    }
    None
}

/// The active pane of a session in which an agent runs: the session, the pane and the agent.
pub open spec fn agent_target(programs: Seq<AgentProgram>, line: Seq<char>) -> Option<
    (Seq<char>, Seq<char>, Seq<char>),
> {
    let fields = split_on(line, '\t');
    if fields.len() < 4 || fields[1] != "1"@ || fields[2].len() == 0 || style_of(
        programs,
        ascii_lowercase(fields[3]),
    ) is None {
        None
    } else {
        Some((fields[0], fields[2], ascii_lowercase(fields[3])))
    }
}

/// Reads the line of a pane in which an agent may run.
pub fn parse_agent_target(programs: &[AgentProgram], line: &str) -> (out: Option<
    (String, String, String),
>)
    ensures
        triple(out) == agent_target(programs@, line@),
{
    let fields = split(line, '\t');
    let ghost all = texts(fields@);
    assert(all.len() == fields@.len());
    if fields.len() < 4 {
        return None;
    }
    assert(all[0] == fields@[0]@ && all[1] == fields@[1]@ && all[2] == fields@[2]@ && all[3]
        == fields@[3]@);
    let command = to_lower(&fields[3]);
    if !same_text(&fields[1], "1") || fields[2].unicode_len() == 0 {
        return None;
    }
    if agent_style(programs, &command).is_some() {
        Some((fields[0].clone(), fields[2].clone(), command))
    } else {
        None
    }
}

/// The marks that an agent puts before what it is doing.
pub open spec fn is_star(c: char) -> bool {
    c == '\u{00B7}' || c == '\u{2022}' || c == '\u{273B}' || c == '\u{22C6}' || c == '\u{2726}' || c
        == '\u{2727}' || c == '\u{2736}' || c == '\u{2722}' || c == '\u{273D}' || c == '\u{2733}'
}

/// What a line says of an activity: the first word behind the mark, where dots follow.
pub open spec fn star_line(line: Seq<char>) -> Option<Seq<char>> {
    let text = trim(line);
    if text.len() < 2 || !is_star(text[0]) || text[1] != ' ' || !text.skip(2).contains(
        '\u{2026}',
    ) {
        None
    } else {
        let list = words(text.skip(2));
        let word = if list.len() > 0 {
            list[0]
        } else {
            "working"@
        };
        Some(without_trailing(word, '\u{2026}').push('\u{2026}'))
    }
}

/// The activity of the last line that has one.
pub open spec fn star_activity(list: Seq<Seq<char>>) -> Option<Seq<char>>
    decreases list.len(),
{
    if list.len() == 0 {
        None
    } else if star_line(list.last()) is Some {
        star_line(list.last())
    } else {
        star_activity(list.drop_last())
    }
}

fn read_star_line(line: &str) -> (out: Option<String>)
    ensures
        text_opt(out) == star_line(line@),
{
    let text = trimmed(line);
    let chars = chars_of(&text);
    if chars.len() < 2 {
        return None;
    }
    let c = chars[0];
    let star = c == '\u{00B7}' || c == '\u{2022}' || c == '\u{273B}' || c == '\u{22C6}' || c
        == '\u{2726}' || c == '\u{2727}' || c == '\u{2736}' || c == '\u{2722}' || c == '\u{273D}' || c
        == '\u{2733}';
    if !star || chars[1] != ' ' {
        return None;
    }
    let rest = text_of(&chars, 2, chars.len());
    assert(rest@ =~= text@.skip(2));
    if !has_char(&rest, '\u{2026}') {
        return None;
    }
    let list = split_words(&rest);
    assert(texts(list@).len() == list@.len());
    let word = if list.len() > 0 {
        assert(texts(list@)[0] == list@[0]@);
        list[0].clone()
    } else {
        "working".to_owned()
    };
    let mut out = strip_trailing(&word, '\u{2026}');
    out.push('\u{2026}');
    Some(out)
}

/// What an agent is doing, where it marks its activity with a star.
pub fn parse_star_activity(text: &str) -> (out: Option<String>)
    ensures
        text_opt(out) == star_activity(lines_of(text@)),
{
    let list = lines(text);
    let ghost all = texts(list@);
    let mut i: usize = list.len();
    assert(all.take(i as int) =~= all);
    while i > 0
        invariant
            i <= list@.len(),
            all == texts(list@),
            all == lines_of(text@),
            star_activity(all.take(i as int)) == star_activity(all),
        decreases i,
    {
        i = i - 1;
        proof {
            assert(all.take(i + 1).drop_last() =~= all.take(i as int));
            assert(all.take(i + 1).last() == list@[i as int]@);
        }
        let found = read_star_line(&list[i]);
        if found.is_some() {
            return found;
        }
    }
    None
}

/// Whether some line, without the white space around it, begins with a text.
pub open spec fn some_line_begins(list: Seq<Seq<char>>, prefix: Seq<char>) -> bool {
    exists|i: int| 0 <= i < list.len() && starts_with(trim(#[trigger] list[i]), prefix)
}

/// Whether some line holds a text.
pub open spec fn some_line_holds(list: Seq<Seq<char>>, part: Seq<char>) -> bool {
    exists|i: int| 0 <= i < list.len() && contains(#[trigger] list[i], part)
}

/// What an agent reports while it works.
pub open spec fn working() -> Seq<char> {
    "Working\u{2026}"@
}

/// What an agent is doing, where it says so at the beginning of a line.
pub fn parse_codex_activity(text: &str) -> (out: Option<String>)
    ensures
        text_opt(out) == (if some_line_begins(lines_of(text@), "\u{2022} Working"@) {
            Some(working())
        } else {
            None
        }),
{
    let list = lines(text);
    let ghost all = texts(list@);
    let mut i: usize = 0;
    while i < list.len()
        invariant
            i <= list@.len(),
            all == texts(list@),
            all == lines_of(text@),
            forall|j: int|
                0 <= j < i ==> !starts_with(trim(#[trigger] all[j]), "\u{2022} Working"@),
        decreases list@.len() - i,
    {
        assert(all[i as int] == list@[i as int]@);
        let line = trimmed(&list[i]);
        if has_prefix(&line, "\u{2022} Working") {
            return Some("Working\u{2026}".to_owned());
        }
        i = i + 1;
    }
    None
}

/// The last lines, the last one first.
pub open spec fn bottom(list: Seq<Seq<char>>, count: nat) -> Seq<Seq<char>>
    decreases count,
{
    if count == 0 || list.len() == 0 {
        Seq::empty()
    } else {
        seq![list.last()] + bottom(list.drop_last(), (count - 1) as nat)
    }
}

/// Whether the last lines say how to interrupt an agent.
pub open spec fn can_be_interrupted(list: Seq<Seq<char>>) -> bool {
    let text = joined(bottom(list, 10), " "@);
    contains(text, "esc"@) && contains(text, "interrupt"@)
}

/// What an agent is doing, where its last lines say how to interrupt it.
pub fn parse_opencode_activity(text: &str) -> (out: Option<String>)
    ensures
        text_opt(out) == (if can_be_interrupted(lines_of(text@)) {
            Some(working())
        } else {
            None
        }),
{
    let list = lines(text);
    let ghost all = texts(list@);
    let mut last: Vec<String> = Vec::new();
    let mut i: usize = list.len();
    let mut left: u8 = 10;
    proof {
        assert(all.take(i as int) =~= all);
        assert(texts(last@) + bottom(all, 10) =~= bottom(all, 10));
    }
    while i > 0 && left > 0
        invariant
            i <= list@.len(),
            all == texts(list@),
            texts(last@) + bottom(all.take(i as int), left as nat) == bottom(all, 10),
        decreases i,
    {
        let ghost before = last@;
        let ghost rest = all.take(i as int);
        i = i - 1;
        left = left - 1;
        last.push(list[i].clone());
        proof {
            assert(rest.drop_last() =~= all.take(i as int));
            assert(rest.last() == list@[i as int]@);
            assert(texts(last@) =~= texts(before).push(rest.last()));
            let tail = bottom(all.take(i as int), left as nat);
            assert(texts(before) + (seq![rest.last()] + tail) =~= texts(last@) + tail);
        }
    }
    assert(texts(last@) + bottom(all.take(i as int), left as nat) =~= texts(last@));
    let text = join_all(last.as_slice(), " ");
    if has_part(&text, "esc") && has_part(&text, "interrupt") {
        Some("Working\u{2026}".to_owned())
    } else {
        None
    }
}

fn any_line_holds(list: &Vec<String>, part: &str) -> (out: bool)
    ensures
        out == some_line_holds(texts(list@), part@),
{
    let ghost all = texts(list@);
    let mut i: usize = 0;
    while i < list.len()
        invariant
            i <= list@.len(),
            all == texts(list@),
            forall|j: int| 0 <= j < i ==> !contains(#[trigger] all[j], part@),
        decreases list@.len() - i,
    {
        assert(all[i as int] == list@[i as int]@);
        if has_part(&list[i], part) {
            return true;
        }
        i = i + 1;
    }
    false
}

/// Whether an agent waits for an answer.
pub open spec fn asks(style: AgentStyle, text: Seq<char>) -> bool {
    let list = lines_of(text);
    match style {
        AgentStyle::Star => some_line_holds(list, "Enter to select"@) || some_line_holds(
            list,
            "enter to select"@,
        ),
        AgentStyle::Bullet => some_line_holds(list, "to submit answer"@),
        AgentStyle::Hint => {
            let whole = joined(list, Seq::empty());
            contains(whole, "select"@) && contains(whole, "submit"@) && contains(whole, "dismiss"@)
        },
    }
}

/// Whether an agent waits for an answer.
pub fn is_agent_asking(style: AgentStyle, text: &str) -> (out: bool)
    ensures
        out == asks(style, text@),
{
    let list = lines(text);
    match style {
        AgentStyle::Star => any_line_holds(&list, "Enter to select") || any_line_holds(
            &list,
            "enter to select",
        ),
        AgentStyle::Bullet => any_line_holds(&list, "to submit answer"),
        AgentStyle::Hint => {
            let nothing = String::new();
            assert(nothing@ =~= Seq::<char>::empty());
            let whole = join_all(list.as_slice(), &nothing);
            has_part(&whole, "select") && has_part(&whole, "submit") && has_part(&whole, "dismiss")
        },
    }
}

/// What an agent is doing.
pub open spec fn agent_activity(style: AgentStyle, text: Seq<char>) -> Option<Seq<char>> {
    let list = lines_of(text);
    match style {
        AgentStyle::Star => star_activity(list),
        AgentStyle::Bullet => if some_line_begins(list, "\u{2022} Working"@) {
            Some(working())
        } else {
            None
        },
        AgentStyle::Hint => if can_be_interrupted(list) {
            Some(working())
        } else {
            None
        },
    }
}

/// What is shown of an agent: what it is doing, or else that it asks. Of other commands nothing is
/// shown.
pub open spec fn agent_report(programs: Seq<AgentProgram>, agent: Seq<char>, text: Seq<char>) -> Option<
    Seq<char>,
> {
    match style_of(programs, agent) {
        None => None,
        Some(style) => match agent_activity(style, text) {
            Some(activity) => Some(agent + " "@ + activity),
            None => if asks(style, text) {
                Some(agent + " asking"@)
            } else {
                None
            },
        },
    }
}

/// Reads from the screen of an agent what it is doing.
pub fn parse_agent_status(programs: &[AgentProgram], agent: &str, text: &str) -> (out: Option<String>)
    ensures
        text_opt(out) == agent_report(programs@, agent@, text@),
{
    let style = match agent_style(programs, agent) {
        Some(style) => style,
        None => {
            return None;
        },
    };
    let activity = match style {
        AgentStyle::Star => parse_star_activity(text),
        AgentStyle::Bullet => parse_codex_activity(text),
        AgentStyle::Hint => parse_opencode_activity(text),
    };
    match activity {
        Some(activity) => {
            let name = join(agent, " ");
            Some(join(&name, &activity))
        },
        None => {
            if is_agent_asking(style, text) {
                Some(join(agent, " asking"))
            } else {
                None
            }
        },
    }
}

/// The lines that are more than white space.
pub open spec fn shown_lines(output: Seq<char>) -> Seq<Seq<char>> {
    lines_of(output).filter(|line: Seq<char>| trim(line).len() > 0)
}

/// The lines of an output that are more than white space.
pub fn usage_lines_of(output: &str) -> (out: Vec<String>)
    ensures
        texts(out@) == shown_lines(output@),
{
    let list = lines(output);
    let ghost all = texts(list@);
    let ghost keep = |line: Seq<char>| trim(line).len() > 0;
    let mut out: Vec<String> = Vec::new();
    let mut i: usize = 0;
    proof {
        reveal(Seq::filter);
        assert(all.take(0).filter(keep) =~= Seq::<Seq<char>>::empty());
        assert(texts(out@) =~= Seq::<Seq<char>>::empty());
    }
    while i < list.len()
        invariant
            i <= list@.len(),
            all == texts(list@),
            keep == (|line: Seq<char>| trim(line).len() > 0),
            texts(out@) == all.take(i as int).filter(keep),
        decreases list@.len() - i,
    {
        let ghost before = out@;
        proof {
            reveal(Seq::filter);
            assert(all[i as int] == list@[i as int]@);
            assert(all.take(i + 1).drop_last() =~= all.take(i as int));
            assert(all.take(i + 1).last() == all[i as int]);
        }
        let line = trimmed(&list[i]);
        if line.unicode_len() > 0 {
            out.push(list[i].clone());
            assert(texts(out@) =~= texts(before).push(all[i as int]));
        }
        i = i + 1;
    }
    assert(all.take(i as int) =~= all);
    out
}

/// The program that draws the usage: the one that is named, or else the installed one where it is
/// there, or else the one on the search path.
pub fn ct_bin(named: Option<String>, installed: &str, is_installed: bool) -> (out: String)
    ensures
        match named {
            Some(program) => out == program,
            None => out@ == (if is_installed {
                installed@
            } else {
                "ct"@
            }),
        },
{
    match named {
        Some(program) => program,
        None => {
            if is_installed {
                installed.to_owned()
            } else {
                "ct".to_owned()
            }
        },
    }
}

/// A process, as a process table lists it.
#[derive(Debug)]
pub struct ProcSample {
    pub ppid: u32,
    /// The share of a processor, as it is written.
    pub cpu: String,
    pub rss_bytes: u64,
}

/// A process, with its texts as sequences.
pub struct SampleView {
    pub ppid: u32,
    pub cpu: Seq<char>,
    pub rss_bytes: u64,
}

impl View for ProcSample {
    type V = SampleView;

    open spec fn view(&self) -> SampleView {
        SampleView { ppid: self.ppid, cpu: self.cpu@, rss_bytes: self.rss_bytes }
    }
}

/// The process that a line lists: its number, its parent, its share of a processor and its memory,
/// which is listed in units of 1024 bytes.
pub open spec fn sample_line(line: Seq<char>) -> Option<(u32, SampleView)> {
    let list = words(line);
    if list.len() < 4 {
        None
    } else {
        match (
            number(list[0], u32::MAX as nat),
            number(list[1], u32::MAX as nat),
            number(list[3], u64::MAX as nat),
        ) {
            (Some(pid), Some(ppid), Some(rss)) => Some(
                (
                    pid as u32,
                    SampleView {
                        ppid: ppid as u32,
                        cpu: list[2],
                        rss_bytes: capped(rss * 1024, u64::MAX as nat) as u64,
                    },
                ),
            ),
            _ => None,
        }
    }
}

/// The processes that lines list. Where a process is listed twice, the last line counts.
pub open spec fn sample_lines(list: Seq<Seq<char>>) -> Map<u32, SampleView>
    decreases list.len(),
{
    if list.len() == 0 {
        Map::empty()
    } else {
        let before = sample_lines(list.drop_last());
        match sample_line(list.last()) {
            Some((pid, sample)) => before.insert(pid, sample),
            None => before,
        }
    }
}

/// The processes of a table, with their texts as sequences.
pub open spec fn sample_views(samples: Map<u32, ProcSample>) -> Map<u32, SampleView> {
    samples.map_values(|s: ProcSample| s@)
}

fn read_sample_line(line: &str) -> (out: Option<(u32, ProcSample)>)
    ensures
        match out {
            Some((pid, sample)) => sample_line(line@) == Some((pid, sample@)),
            None => sample_line(line@) is None,
        },
{
    let list = split_words(line);
    let ghost all = texts(list@);
    assert(all.len() == list@.len());
    if list.len() < 4 {
        return None;
    }
    assert(all[0] == list@[0]@ && all[1] == list@[1]@ && all[2] == list@[2]@ && all[3]
        == list@[3]@);
    match (
        parse_number(&list[0], u32::MAX as u64),
        parse_number(&list[1], u32::MAX as u64),
        parse_number(&list[3], u64::MAX),
    ) {
        (Some(pid), Some(ppid), Some(rss)) => {
            let rss_bytes: u64 = if rss <= u64::MAX / 1024 {
                rss * 1024
            } else {
                u64::MAX
            };
            Some((pid as u32, ProcSample { ppid: ppid as u32, cpu: list[2].clone(), rss_bytes }))
        },
        _ => None,
    }
}

/// Reads a process table. Lines that list no process do not count.
pub fn build_process_info(output: &str) -> (out: Table<u32, ProcSample>)
    ensures
        out.wf(),
        sample_views(out.map()) == sample_lines(lines_of(output@)),
{
    let list = lines(output);
    let ghost all = texts(list@);
    let mut out: Table<u32, ProcSample> = Table::new();
    let mut i: usize = 0;
    proof {
        assert(all.take(0) =~= Seq::<Seq<char>>::empty());
        assert(sample_views(out.map()) =~= Map::<u32, SampleView>::empty());
    }
    while i < list.len()
        invariant
            i <= list@.len(),
            all == texts(list@),
            out.wf(),
            sample_views(out.map()) == sample_lines(all.take(i as int)),
        decreases list@.len() - i,
    {
        let ghost before = out.map();
        proof {
            assert(all.take(i + 1).drop_last() =~= all.take(i as int));
            assert(all.take(i + 1).last() == list@[i as int]@);
        }
        match read_sample_line(&list[i]) {
            Some((pid, sample)) => {
                out.insert(pid, sample);
                assert(sample_views(out.map()) =~= sample_views(before).insert(pid, sample@));
            },
            None => {},
        }
        i = i + 1;
    }
    assert(all.take(i as int) =~= all);
    out
}

/// Whether a process was started by another, directly or through processes between them. No more
/// than `steps` processes are passed.
pub open spec fn descends(
    samples: Map<u32, ProcSample>,
    pid: u32,
    top: u32,
    steps: nat,
) -> bool
    decreases steps,
{
    steps > 0 && samples.contains_key(pid) && (samples[pid].ppid == top || descends(
        samples,
        samples[pid].ppid,
        top,
        (steps - 1) as nat,
    ))
}

/// Whether a process counts towards another: it is that process, or was started by it. A way up is
/// no longer than the process table.
pub open spec fn counts_for(samples: Map<u32, ProcSample>, pid: u32, top: u32) -> bool {
    pid == top || descends(samples, pid, top, samples.len())
}

/// The entries that count towards a process.
pub open spec fn tree_of(
    entries: Seq<(u32, ProcSample)>,
    samples: Map<u32, ProcSample>,
    top: u32,
) -> Seq<(u32, ProcSample)> {
    entries.filter(|e: (u32, ProcSample)| counts_for(samples, e.0, top))
}

/// The memory of processes.
pub open spec fn memory_of(entries: Seq<(u32, ProcSample)>) -> nat
    decreases entries.len(),
{
    if entries.len() == 0 {
        0
    } else {
        memory_of(entries.drop_last()) + entries.last().1.rss_bytes as nat
    }
}

fn climbs_to(samples: &Table<u32, ProcSample>, pid: u32, top: u32) -> (out: bool)
    requires
        samples.wf(),
    ensures
        out == counts_for(samples.map(), pid, top),
{
    if pid == top {
        return true;
    }
    let mut left: usize = samples.len();
    let mut at: u32 = pid;
    while left > 0
        invariant
            samples.wf(),
            pid != top,
            descends(samples.map(), at, top, left as nat) == descends(
                samples.map(),
                pid,
                top,
                samples.map().len(),
            ),
        decreases left,
    {
        match samples.get(&at) {
            None => {
                return false;
            },
            Some(sample) => {
                if sample.ppid == top {
                    return true;
                }
                at = sample.ppid;
            },
        }
        left = left - 1;
    }
    false
}

/// What a process uses together with all it has started.
#[derive(Debug)]
pub struct SubtreeUsage {
    /// The shares of a processor, as they are written.
    pub cpu: Vec<String>,
    pub mem_bytes: u64,
}

/// The shares of a processor of a list of processes.
pub open spec fn shares_of(entries: Seq<(u32, ProcSample)>) -> Seq<Seq<char>> {
    entries.map_values(|e: (u32, ProcSample)| e.1.cpu@)
}

/// What a process uses together with all it has started.
pub fn subtree_usage(samples: &Table<u32, ProcSample>, pid: u32) -> (out: SubtreeUsage)
    requires
        samples.wf(),
    ensures
        texts(out.cpu@) == shares_of(tree_of(samples.entries@, samples.map(), pid)),
        out.mem_bytes == capped(
            memory_of(tree_of(samples.entries@, samples.map(), pid)),
            u64::MAX as nat,
        ),
{
    let ghost all = samples.entries@;
    let ghost map = samples.map();
    let ghost keep = |e: (u32, ProcSample)| counts_for(map, e.0, pid);
    let mut cpu: Vec<String> = Vec::new();
    let mut mem: u64 = 0;
    let mut i: usize = 0;
    proof {
        reveal(Seq::filter);
        assert(all.take(0).filter(keep) =~= Seq::<(u32, ProcSample)>::empty());
        assert(texts(cpu@) =~= shares_of(Seq::<(u32, ProcSample)>::empty()));
    }
    while i < samples.entries.len()
        invariant
            i <= samples.entries@.len(),
            samples.wf(),
            all == samples.entries@,
            map == samples.map(),
            keep == (|e: (u32, ProcSample)| counts_for(map, e.0, pid)),
            texts(cpu@) == shares_of(all.take(i as int).filter(keep)),
            mem == capped(memory_of(all.take(i as int).filter(keep)), u64::MAX as nat),
        decreases samples.entries@.len() - i,
    {
        let ghost before = cpu@;
        let ghost kept = all.take(i as int).filter(keep);
        proof {
            reveal(Seq::filter);
            assert(all.take(i + 1).drop_last() =~= all.take(i as int));
            assert(all.take(i + 1).last() == all[i as int]);
        }
        let entry = &samples.entries[i];
        if climbs_to(samples, entry.0, pid) {
            proof {
                assert(kept.push(all[i as int]).drop_last() =~= kept);
            }
            cpu.push(entry.1.cpu.clone());
            proof {
                let entry = all[i as int];
                assert(shares_of(kept.push(entry)) =~= shares_of(kept).push(entry.1.cpu@));
                assert(texts(cpu@) =~= texts(before).push(entry.1.cpu@));
            }
            mem = if mem <= u64::MAX - entry.1.rss_bytes {
                mem + entry.1.rss_bytes
            } else {
                u64::MAX
            };
        }
        i = i + 1;
    }
    assert(all.take(i as int) =~= all);
    SubtreeUsage { cpu, mem_bytes: mem }
}

/// What is known of a session before it is put together. The texts are the outputs of the programs
/// that were asked, where they answered.
#[derive(Debug)]
pub struct SessionReport {
    pub id: String,
    pub name: String,
    pub branch: Option<String>,
    pub diff: Option<String>,
    pub options: Option<String>,
}

/// The process in the active pane of a session.
#[derive(Debug)]
pub struct SessionProcess {
    pub session_id: String,
    /// The share of a processor, as it is shown.
    pub cpu: String,
    pub status: ProcessStatus,
}

/// What is shown of a session, with its texts as sequences.
pub struct MetadataView {
    pub branch: Option<Seq<char>>,
    pub diff: Option<DiffStat>,
    pub attention: bool,
    pub status: Option<Seq<char>>,
    pub progress: Option<u8>,
    pub process_cpu: Option<Seq<char>>,
    pub agent_status: Option<Seq<char>>,
    pub processes: Seq<(Seq<char>, u32, u64)>,
}

/// A process, with its name as a sequence.
pub open spec fn status_view(status: ProcessStatus) -> (Seq<char>, u32, u64) {
    (status.name@, status.cpu_bits, status.mem_bytes)
}

impl View for SidebarSessionMetadata {
    type V = MetadataView;

    open spec fn view(&self) -> MetadataView {
        MetadataView {
            branch: text_opt(self.branch),
            diff: self.diff,
            attention: self.attention,
            status: text_opt(self.status),
            progress: self.progress,
            process_cpu: text_opt(self.process_cpu),
            agent_status: text_opt(self.agent_status),
            processes: self.processes@.map_values(|s: ProcessStatus| status_view(s)),
        }
    }
}

/// The branch in an output.
pub open spec fn branch_in(output: Option<Seq<char>>) -> Option<Seq<char>> {
    match output {
        Some(text) if trim(text).len() > 0 => Some(trim(text)),
        _ => None,
    }
}

/// The changes in an output.
pub open spec fn diff_in(output: Option<Seq<char>>) -> Option<DiffStat> {
    match output {
        Some(text) => {
            let (added, removed) = diff_totals(lines_of(text));
            if added > 0 || removed > 0 {
                Some(
                    DiffStat {
                        added: capped(added, u32::MAX as nat) as u32,
                        removed: capped(removed, u32::MAX as nat) as u32,
                    },
                )
            } else {
                None
            }
        },
        None => None,
    }
}

/// The last agent of a session.
pub open spec fn agent_in(agents: Seq<(String, String)>, id: Seq<char>) -> Option<Seq<char>>
    decreases agents.len(),
{
    if agents.len() == 0 {
        None
    } else if agents.last().0@ == id {
        Some(agents.last().1@)
    } else {
        agent_in(agents.drop_last(), id)
    }
}

/// The last process of a session.
pub open spec fn process_in(processes: Seq<SessionProcess>, id: Seq<char>) -> Option<SessionProcess>
    decreases processes.len(),
{
    if processes.len() == 0 {
        None
    } else if processes.last().session_id@ == id {
        Some(processes.last())
    } else {
        process_in(processes.drop_last(), id)
    }
}

/// What is shown of a session.
pub open spec fn metadata_of(
    report: SessionReport,
    agents: Seq<(String, String)>,
    processes: Seq<SessionProcess>,
) -> MetadataView {
    let line = first_line(
        match report.options {
            Some(text) => text@,
            None => Seq::empty(),
        },
    );
    let process = process_in(processes, report.id@);
    MetadataView {
        branch: branch_in(text_opt(report.branch)),
        diff: diff_in(text_opt(report.diff)),
        attention: report.options is Some && option_attention(line),
        status: if report.options is Some {
            option_status(line)
        } else {
            None
        },
        progress: if report.options is Some {
            option_progress(line)
        } else {
            None
        },
        process_cpu: match process {
            Some(p) => Some(p.cpu@),
            None => None,
        },
        agent_status: agent_in(agents, report.id@),
        processes: match process {
            Some(p) => seq![status_view(p.status)],
            None => Seq::empty(),
        },
    }
}

/// Whether there is nothing to show.
pub open spec fn nothing_shown(view: MetadataView) -> bool {
    &&& view.branch is None
    &&& view.diff is None
    &&& !view.attention
    &&& view.status is None
    &&& view.progress is None
    &&& view.process_cpu is None
    &&& view.agent_status is None
    &&& view.processes.len() == 0
}

fn find_agent(agents: &[(String, String)], id: &str) -> (out: Option<String>)
    ensures
        text_opt(out) == agent_in(agents@, id@),
{
    let mut i: usize = agents.len();
    assert(agents@.take(i as int) =~= agents@);
    while i > 0
        invariant
            i <= agents@.len(),
            agent_in(agents@.take(i as int), id@) == agent_in(agents@, id@),
        decreases i,
    {
        i = i - 1;
        proof {
            assert(agents@.take(i + 1).drop_last() =~= agents@.take(i as int));
            assert(agents@.take(i + 1).last() == agents@[i as int]);
        }
        if same_text(&agents[i].0, id) {
            return Some(agents[i].1.clone());
        }
    }
    None
}

fn find_process(processes: &[SessionProcess], id: &str) -> (out: Option<usize>)
    ensures
        match out {
            Some(i) => i < processes@.len() && process_in(processes@, id@) == Some(
                processes@[i as int],
            ),
            None => process_in(processes@, id@) is None,
        },
{
    let mut i: usize = processes.len();
    assert(processes@.take(i as int) =~= processes@);
    while i > 0
        invariant
            i <= processes@.len(),
            process_in(processes@.take(i as int), id@) == process_in(processes@, id@),
        decreases i,
    {
        i = i - 1;
        proof {
            assert(processes@.take(i + 1).drop_last() =~= processes@.take(i as int));
            assert(processes@.take(i + 1).last() == processes@[i as int]);
        }
        if same_text(&processes[i].session_id, id) {
            return Some(i);
        }
    }
    None
}

/// Puts together what is shown of a session.
pub fn session_metadata(
    report: &SessionReport,
    agents: &[(String, String)],
    processes: &[SessionProcess],
) -> (out: SidebarSessionMetadata)
    ensures
        out@ == metadata_of(*report, agents@, processes@),
{
    let mut out = match &report.options {
        Some(text) => match parse_tmux_session_options(text) {
            Some(meta) => meta,
            None => SidebarSessionMetadata::default(),
        },
        None => SidebarSessionMetadata::default(),
    };
    out.branch =
    match &report.branch {
        Some(text) => git_branch(text),
        None => None,
    };
    out.diff =
    match &report.diff {
        Some(text) => parse_git_numstat(text),
        None => None,
    };
    out.agent_status = find_agent(agents, &report.id);
    match find_process(processes, &report.id) {
        Some(i) => {
            let process = &processes[i];
            out.process_cpu = Some(process.cpu.clone());
            let status = ProcessStatus {
                name: process.status.name.clone(),
                cpu_bits: process.status.cpu_bits,
                mem_bytes: process.status.mem_bytes,
            };
            out.processes = vec![status];
            assert(out@.processes =~= seq![status_view(process.status)]);
        },
        None => {
            assert(out@.processes =~= Seq::<(Seq<char>, u32, u64)>::empty());
        },
    }
    out
}

/// What is shown of all sessions.
#[derive(Debug)]
pub struct SidebarMetadata {
    pub sessions: Table<String, SidebarSessionMetadata>,
    pub usage_lines: Vec<String>,
}

/// What is shown of sessions, with the texts as sequences.
pub open spec fn metadata_views(sessions: Map<Seq<char>, SidebarSessionMetadata>) -> Map<
    Seq<char>,
    MetadataView,
> {
    sessions.map_values(|m: SidebarSessionMetadata| m@)
}

/// What is shown of the sessions of a list. Sessions of which nothing is shown are left out.
pub open spec fn collected(
    reports: Seq<SessionReport>,
    agents: Seq<(String, String)>,
    processes: Seq<SessionProcess>,
) -> Map<Seq<char>, MetadataView>
    decreases reports.len(),
{
    if reports.len() == 0 {
        Map::empty()
    } else {
        let before = collected(reports.drop_last(), agents, processes);
        let view = metadata_of(reports.last(), agents, processes);
        if nothing_shown(view) {
            before
        } else {
            before.insert(reports.last().name@, view)
        }
    }
}

impl SidebarMetadata {
    /// Nothing is shown of any session.
    pub fn new() -> (out: Self)
        ensures
            out.sessions.wf(),
            out.sessions.map() == Map::<Seq<char>, SidebarSessionMetadata>::empty(),
            out.usage_lines@.len() == 0,
    {
        SidebarMetadata { sessions: Table::new(), usage_lines: Vec::new() }
    }

    /// What is shown of a session.
    pub fn get(&self, session_name: &str) -> (out: Option<&SidebarSessionMetadata>)
        requires
            self.sessions.wf(),
        ensures
            match out {
                Some(meta) => self.sessions.map().contains_key(session_name@) && *meta
                    == self.sessions.map()[session_name@],
                None => !self.sessions.map().contains_key(session_name@),
            },
    {
        let name = session_name.to_owned();
        self.sessions.get(&name)
    }

    /// Sets what is shown of a session.
    pub fn insert(&mut self, session_name: String, metadata: SidebarSessionMetadata)
        requires
            old(self).sessions.wf(),
        ensures
            final(self).sessions.wf(),
            final(self).sessions.map() == old(self).sessions.map().insert(session_name@, metadata),
            final(self).usage_lines == old(self).usage_lines,
    {
        self.sessions.insert(session_name, metadata);
    }

    /// The lines that are shown below the sessions.
    pub fn usage_lines(&self) -> (out: &[String])
        ensures
            out@ == self.usage_lines@,
    {
        self.usage_lines.as_slice()
    }
}

/// Puts together what is shown of all sessions.
pub fn collect_sidebar_metadata(
    reports: &[SessionReport],
    usage: Option<&str>,
    agents: &[(String, String)],
    processes: &[SessionProcess],
) -> (out: SidebarMetadata)
    ensures
        out.sessions.wf(),
        metadata_views(out.sessions.map()) == collected(reports@, agents@, processes@),
        texts(out.usage_lines@) == match usage {
            Some(text) => shown_lines(text@),
            None => Seq::empty(),
        },
{
    let mut out = SidebarMetadata::new();
    match usage {
        Some(text) => {
            out.usage_lines = usage_lines_of(text);
        },
        None => {
            assert(texts(out.usage_lines@) =~= Seq::<Seq<char>>::empty());
        },
    }
    let ghost shown = out.usage_lines;
    let mut i: usize = 0;
    proof {
        assert(reports@.take(0) =~= Seq::<SessionReport>::empty());
        assert(metadata_views(out.sessions.map()) =~= Map::<Seq<char>, MetadataView>::empty());
    }
    while i < reports.len()
        invariant
            i <= reports@.len(),
            out.sessions.wf(),
            out.usage_lines == shown,
            metadata_views(out.sessions.map()) == collected(
                reports@.take(i as int),
                agents@,
                processes@,
            ),
        decreases reports@.len() - i,
    {
        let ghost before = out.sessions.map();
        proof {
            assert(reports@.take(i + 1).drop_last() =~= reports@.take(i as int));
            assert(reports@.take(i + 1).last() == reports@[i as int]);
        }
        let meta = session_metadata(&reports[i], agents, processes);
        if !meta.is_empty() {
            out.insert(reports[i].name.clone(), meta);
            assert(metadata_views(out.sessions.map()) =~= metadata_views(before).insert(
                reports@[i as int].name@,
                meta@,
            ));
        }
        i = i + 1;
    }
    assert(reports@.take(i as int) =~= reports@);
    out
}

/// Whether every process of a table has a level: above that of its parent, and no higher than there are
/// processes. Tables in which no process is its own ancestor have such levels.
pub open spec fn has_levels(samples: Map<u32, ProcSample>, level: spec_fn(u32) -> nat) -> bool {
    forall|p: u32| #[trigger]
        samples.contains_key(p) ==> level(samples[p].ppid) < level(p) && level(p) <= samples.len()
}

/// The processes that a process has started itself.
pub open spec fn children_of(entries: Seq<(u32, ProcSample)>, top: u32) -> Seq<(u32, ProcSample)> {
    entries.filter(|e: (u32, ProcSample)| e.1.ppid == top)
}

/// The memory of several processes, each with all it has started.
pub open spec fn memory_of_trees(
    entries: Seq<(u32, ProcSample)>,
    samples: Map<u32, ProcSample>,
    tops: Seq<(u32, ProcSample)>,
) -> nat
    decreases tops.len(),
{
    if tops.len() == 0 {
        0
    } else {
        memory_of_trees(entries, samples, tops.drop_last()) + memory_of(
            tree_of(entries, samples, tops.last().0),
        )
    }
}

/// How many of the processes a process counts towards.
spec fn hits(samples: Map<u32, ProcSample>, tops: Seq<(u32, ProcSample)>, pid: u32) -> nat
    decreases tops.len(),
{
    if tops.len() == 0 {
        0
    } else {
        hits(samples, tops.drop_last(), pid) + (if counts_for(samples, pid, tops.last().0) {
            1nat
        } else {
            0nat
        })
    }
}

proof fn steps_do_not_matter(
    samples: Map<u32, ProcSample>,
    level: spec_fn(u32) -> nat,
    pid: u32,
    top: u32,
    a: nat,
    b: nat,
)
    requires
        has_levels(samples, level),
        a >= level(pid),
        b >= level(pid),
    ensures
        descends(samples, pid, top, a) == descends(samples, pid, top, b),
    decreases level(pid),
{
    if samples.contains_key(pid) {
        let parent = samples[pid].ppid;
        assert(level(parent) < level(pid));
        steps_do_not_matter(samples, level, parent, top, (a - 1) as nat, (b - 1) as nat);
    }
}

/// A process descends from another where its parent is the other, or descends from it.
proof fn descent_by_parent(
    samples: Map<u32, ProcSample>,
    level: spec_fn(u32) -> nat,
    pid: u32,
    top: u32,
)
    requires
        has_levels(samples, level),
        samples.contains_key(pid),
    ensures
        descends(samples, pid, top, samples.len()) == (samples[pid].ppid == top || descends(
            samples,
            samples[pid].ppid,
            top,
            samples.len(),
        )),
{
    let n = samples.len();
    let parent = samples[pid].ppid;
    assert(level(parent) < level(pid) && level(pid) <= n);
    steps_do_not_matter(samples, level, parent, top, (n - 1) as nat, n);
}

proof fn ancestors_are_lower(
    samples: Map<u32, ProcSample>,
    level: spec_fn(u32) -> nat,
    pid: u32,
    top: u32,
)
    requires
        has_levels(samples, level),
        descends(samples, pid, top, samples.len()),
    ensures
        level(top) < level(pid),
        samples.contains_key(pid),
    decreases level(pid),
{
    descent_by_parent(samples, level, pid, top);
    let parent = samples[pid].ppid;
    assert(level(parent) < level(pid));
    if parent != top {
        ancestors_are_lower(samples, level, parent, top);
    }
}

/// A process counts towards at most one of the children of another.
proof fn one_child_counts(
    samples: Map<u32, ProcSample>,
    level: spec_fn(u32) -> nat,
    pid: u32,
    top: u32,
    a: u32,
    b: u32,
)
    requires
        has_levels(samples, level),
        samples.contains_key(a) && samples[a].ppid == top,
        samples.contains_key(b) && samples[b].ppid == top,
        counts_for(samples, pid, a),
        counts_for(samples, pid, b),
    ensures
        a == b,
    decreases level(pid),
{
    assert(level(top) < level(a) && level(top) < level(b));
    if pid == a && pid != b {
        descent_by_parent(samples, level, a, b);
        if top != b {
            ancestors_are_lower(samples, level, top, b);
        }
    } else if pid == b && pid != a {
        descent_by_parent(samples, level, b, a);
        if top != a {
            ancestors_are_lower(samples, level, top, a);
        }
    } else if pid != a && pid != b {
        ancestors_are_lower(samples, level, pid, a);
        descent_by_parent(samples, level, pid, a);
        descent_by_parent(samples, level, pid, b);
        assert(level(samples[pid].ppid) < level(pid));
        one_child_counts(samples, level, samples[pid].ppid, top, a, b);
    }
}

/// The child through which a process descends from another.
proof fn child_on_the_way(
    samples: Map<u32, ProcSample>,
    level: spec_fn(u32) -> nat,
    pid: u32,
    top: u32,
) -> (child: u32)
    requires
        has_levels(samples, level),
        descends(samples, pid, top, samples.len()),
    ensures
        samples.contains_key(child),
        samples[child].ppid == top,
        counts_for(samples, pid, child),
    decreases level(pid),
{
    ancestors_are_lower(samples, level, pid, top);
    descent_by_parent(samples, level, pid, top);
    let parent = samples[pid].ppid;
    assert(level(parent) < level(pid));
    if parent == top {
        pid
    } else {
        let child = child_on_the_way(samples, level, parent, top);
        descent_by_parent(samples, level, pid, child);
        child
    }
}

proof fn child_counts_for_top(
    samples: Map<u32, ProcSample>,
    level: spec_fn(u32) -> nat,
    pid: u32,
    top: u32,
    child: u32,
)
    requires
        has_levels(samples, level),
        samples.contains_key(child) && samples[child].ppid == top,
        counts_for(samples, pid, child),
    ensures
        descends(samples, pid, top, samples.len()),
    decreases level(pid),
{
    if pid == child {
        descent_by_parent(samples, level, pid, top);
    } else {
        ancestors_are_lower(samples, level, pid, child);
        descent_by_parent(samples, level, pid, child);
        descent_by_parent(samples, level, pid, top);
        assert(level(samples[pid].ppid) < level(pid));
        child_counts_for_top(samples, level, samples[pid].ppid, top, child);
    }
}

/// Whether a list holds children of a process, each once.
spec fn are_children(
    samples: Map<u32, ProcSample>,
    tops: Seq<(u32, ProcSample)>,
    top: u32,
) -> bool {
    &&& forall|i: int|
        0 <= i < tops.len() ==> samples.contains_key((#[trigger] tops[i]).0)
            && samples[tops[i].0].ppid == top
    &&& forall|i: int, j: int| 0 <= i < j < tops.len() ==> (#[trigger] tops[i]).0 != (
    #[trigger] tops[j]).0
}

proof fn hits_at_most_one(
    samples: Map<u32, ProcSample>,
    level: spec_fn(u32) -> nat,
    tops: Seq<(u32, ProcSample)>,
    pid: u32,
    top: u32,
)
    requires
        has_levels(samples, level),
        are_children(samples, tops, top),
    ensures
        hits(samples, tops, pid) == (if exists|i: int|
            0 <= i < tops.len() && counts_for(samples, pid, (#[trigger] tops[i]).0) {
            1nat
        } else {
            0nat
        }),
    decreases tops.len(),
{
    if tops.len() > 0 {
        let before = tops.drop_last();
        let last = tops[tops.len() - 1];
        assert forall|i: int| 0 <= i < before.len() implies samples.contains_key(
            (#[trigger] before[i]).0,
        ) && samples[before[i].0].ppid == top by {
            assert(before[i] == tops[i]);
        }
        assert forall|i: int, j: int| 0 <= i < j < before.len() implies (#[trigger] before[i]).0 != (
        #[trigger] before[j]).0 by {
            assert(before[i] == tops[i] && before[j] == tops[j]);
        }
        hits_at_most_one(samples, level, before, pid, top);
        if exists|i: int|
            0 <= i < before.len() && counts_for(samples, pid, (#[trigger] before[i]).0) {
            let i = choose|i: int|
                0 <= i < before.len() && counts_for(samples, pid, (#[trigger] before[i]).0);
            assert(tops[i] == before[i]);
            if counts_for(samples, pid, last.0) {
                one_child_counts(samples, level, pid, top, tops[i].0, last.0);
            }
        }
        if exists|i: int|
            0 <= i < tops.len() && counts_for(samples, pid, (#[trigger] tops[i]).0) {
            let i = choose|i: int|
                0 <= i < tops.len() && counts_for(samples, pid, (#[trigger] tops[i]).0);
            if i < before.len() {
                assert(before[i] == tops[i]);
            }
        }
    }
}

proof fn filter_push(
    entries: Seq<(u32, ProcSample)>,
    entry: (u32, ProcSample),
    keep: spec_fn((u32, ProcSample)) -> bool,
)
    ensures
        memory_of(entries.push(entry).filter(keep)) == memory_of(entries.filter(keep)) + (if keep(
            entry,
        ) {
            entry.1.rss_bytes as nat
        } else {
            0nat
        }),
{
    reveal(Seq::filter);
    assert(entries.push(entry).drop_last() =~= entries);
    if keep(entry) {
        let kept = entries.filter(keep);
        assert(kept.push(entry).drop_last() =~= kept);
    }
}

proof fn trees_push(
    samples: Map<u32, ProcSample>,
    entries: Seq<(u32, ProcSample)>,
    entry: (u32, ProcSample),
    tops: Seq<(u32, ProcSample)>,
)
    ensures
        memory_of_trees(entries.push(entry), samples, tops) == memory_of_trees(
            entries,
            samples,
            tops,
        ) + hits(samples, tops, entry.0) * entry.1.rss_bytes,
    decreases tops.len(),
{
    if tops.len() > 0 {
        let before = tops.drop_last();
        let top = tops.last().0;
        trees_push(samples, entries, entry, before);
        filter_push(entries, entry, |e: (u32, ProcSample)| counts_for(samples, e.0, top));
        let h = hits(samples, before, entry.0);
        let r = entry.1.rss_bytes as nat;
        assert((h + 1) * r == h * r + r) by (nonlinear_arith);
    } else {
        assert(0 * (entry.1.rss_bytes as nat) == 0);
    }
}

proof fn empty_trees(samples: Map<u32, ProcSample>, tops: Seq<(u32, ProcSample)>)
    ensures
        memory_of_trees(Seq::empty(), samples, tops) == 0,
    decreases tops.len(),
{
    if tops.len() > 0 {
        empty_trees(samples, tops.drop_last());
        reveal(Seq::filter);
        assert(tree_of(Seq::empty(), samples, tops.last().0) =~= Seq::<(u32, ProcSample)>::empty());
    }
}

/// Tells the entry of a process from others.
spec fn entry_of(top: u32) -> spec_fn((u32, ProcSample)) -> bool {
    |e: (u32, ProcSample)| e.0 == top
}

/// The memory of the process itself, where it is listed.
spec fn own_memory(entries: Seq<(u32, ProcSample)>, top: u32) -> nat {
    memory_of(entries.filter(entry_of(top)))
}

proof fn usage_of_prefix(
    samples: Map<u32, ProcSample>,
    level: spec_fn(u32) -> nat,
    entries: Seq<(u32, ProcSample)>,
    tops: Seq<(u32, ProcSample)>,
    top: u32,
)
    requires
        has_levels(samples, level),
        are_children(samples, tops, top),
        forall|c: u32|
            samples.contains_key(c) && samples[c].ppid == top ==> exists|i: int|
                0 <= i < tops.len() && (#[trigger] tops[i]).0 == c,
    ensures
        memory_of(tree_of(entries, samples, top)) == own_memory(entries, top) + memory_of_trees(
            entries,
            samples,
            tops,
        ),
    decreases entries.len(),
{
    if entries.len() == 0 {
        assert(entries =~= Seq::<(u32, ProcSample)>::empty());
        empty_trees(samples, tops);
        reveal(Seq::filter);
        assert(tree_of(entries, samples, top) =~= Seq::<(u32, ProcSample)>::empty());
        assert(entries.filter(entry_of(top)) =~= Seq::<(u32, ProcSample)>::empty());
    } else {
        let before = entries.drop_last();
        let last = entries.last();
        assert(entries =~= before.push(last));
        usage_of_prefix(samples, level, before, tops, top);
        filter_push(before, last, |e: (u32, ProcSample)| counts_for(samples, e.0, top));
        filter_push(before, last, entry_of(top));
        trees_push(samples, before, last, tops);
        hits_at_most_one(samples, level, tops, last.0, top);
        let n = samples.len();
        if descends(samples, last.0, top, n) {
            ancestors_are_lower(samples, level, last.0, top);
            let child = child_on_the_way(samples, level, last.0, top);
            let i = choose|i: int| 0 <= i < tops.len() && (#[trigger] tops[i]).0 == child;
            assert(counts_for(samples, last.0, tops[i].0));
        }
        if exists|i: int|
            0 <= i < tops.len() && counts_for(samples, last.0, (#[trigger] tops[i]).0) {
            let i = choose|i: int|
                0 <= i < tops.len() && counts_for(samples, last.0, (#[trigger] tops[i]).0);
            child_counts_for_top(samples, level, last.0, top, tops[i].0);
            ancestors_are_lower(samples, level, last.0, top);
        }
        let h = hits(samples, tops, last.0);
        let r = last.1.rss_bytes as nat;
        assert(h * r == (if h == 1 {
            r
        } else {
            0nat
        })) by (nonlinear_arith)
            requires
                h == 0 || h == 1,
        ;
        assert(own_memory(entries, top) == own_memory(before, top) + (if last.0 == top {
            r
        } else {
            0nat
        }));
    }
}

/// What a process uses is what it uses itself, and what each process that it has started uses.
pub proof fn usage_adds_up(
    samples: Table<u32, ProcSample>,
    level: spec_fn(u32) -> nat,
    top: u32,
)
    requires
        samples.wf(),
        has_levels(samples.map(), level),
    ensures
        memory_of(tree_of(samples.entries@, samples.map(), top)) == (if samples.map().contains_key(
            top,
        ) {
            samples.map()[top].rss_bytes as nat
        } else {
            0nat
        }) + memory_of_trees(
            samples.entries@,
            samples.map(),
            children_of(samples.entries@, top),
        ),
{
    let entries = samples.entries@;
    let map = samples.map();
    let tops = children_of(entries, top);
    let keep = |e: (u32, ProcSample)| e.1.ppid == top;
    assert forall|i: int| 0 <= i < tops.len() implies map.contains_key((#[trigger] tops[i]).0)
        && map[tops[i].0].ppid == top by {
        entries.lemma_filter_pred(keep, i);
        assert(tops.contains(tops[i]));
        entries.lemma_filter_contains_rev(keep, tops[i]);
        let k = choose|k: int| 0 <= k < entries.len() && entries[k] == tops[i];
        entry_in_map(entries, k);
    }
    filtered_keys_once(entries, keep);
    assert forall|i: int, j: int| 0 <= i < j < tops.len() implies (#[trigger] tops[i]).0 != (
    #[trigger] tops[j]).0 by {
        assert(ids(tops)[i] == tops[i].0 && ids(tops)[j] == tops[j].0);
    }
    assert forall|c: u32| map.contains_key(c) && map[c].ppid == top implies exists|i: int|
        0 <= i < tops.len() && (#[trigger] tops[i]).0 == c by {
        let k = key_has_entry(entries, c);
        entries.lemma_filter_contains(keep, k);
        let i = choose|i: int| 0 <= i < tops.len() && tops[i] == entries[k];
        assert(tops[i].0 == c);
    }
    usage_of_prefix(map, level, entries, tops, top);
    own_memory_is(entries, top);
    if map.contains_key(top) {
        let k = key_has_entry(entries, top);
        assert(ids(entries)[k] == top);
    } else if ids(entries).contains(top) {
        let k = choose|k: int| 0 <= k < ids(entries).len() && ids(entries)[k] == top;
        entry_in_map(entries, k);
    }
}

proof fn filtered_keys_once(
    entries: Seq<(u32, ProcSample)>,
    keep: spec_fn((u32, ProcSample)) -> bool,
)
    requires
        ids(entries).no_duplicates(),
    ensures
        ids(entries.filter(keep)).no_duplicates(),
    decreases entries.len(),
{
    reveal(Seq::filter);
    if entries.len() > 0 {
        let before = entries.drop_last();
        let last = entries.last();
        assert(ids(before) =~= ids(entries).drop_last());
        assert(ids(before).no_duplicates());
        filtered_keys_once(before, keep);
        let kept = before.filter(keep);
        if keep(last) {
            assert(ids(kept.push(last)) =~= ids(kept).push(last.0));
            if ids(kept).contains(last.0) {
                let k = choose|k: int| 0 <= k < ids(kept).len() && ids(kept)[k] == last.0;
                assert(kept.contains(kept[k]));
                before.lemma_filter_contains_rev(keep, kept[k]);
                let m = choose|m: int| 0 <= m < before.len() && before[m] == kept[k];
                assert(ids(entries)[m] == last.0);
                assert(ids(entries)[entries.len() - 1] == last.0);
            }
        }
    } else {
        assert(entries.filter(keep) =~= Seq::<(u32, ProcSample)>::empty());
    }
}

proof fn own_memory_is(entries: Seq<(u32, ProcSample)>, top: u32)
    requires
        ids(entries).no_duplicates(),
    ensures
        !ids(entries).contains(top) ==> own_memory(entries, top) == 0,
        forall|k: int|
            0 <= k < entries.len() && (#[trigger] entries[k]).0 == top ==> own_memory(entries, top)
                == entries[k].1.rss_bytes,
    decreases entries.len(),
{
    let keep = entry_of(top);
    if entries.len() == 0 {
        reveal(Seq::filter);
        assert(entries.filter(keep) =~= Seq::<(u32, ProcSample)>::empty());
    } else {
        let before = entries.drop_last();
        let last = entries.last();
        assert(entries =~= before.push(last));
        assert(ids(before) =~= ids(entries).drop_last());
        assert(ids(before).no_duplicates());
        own_memory_is(before, top);
        filter_push(before, last, keep);
        assert(own_memory(entries, top) == own_memory(before, top) + (if last.0 == top {
            last.1.rss_bytes as nat
        } else {
            0nat
        }));
        assert(ids(entries)[entries.len() - 1] == last.0);
        if last.0 == top {
            if ids(before).contains(top) {
                let j = choose|j: int| 0 <= j < ids(before).len() && ids(before)[j] == top;
                assert(ids(entries)[j] == top);
            }
            assert forall|k: int| 0 <= k < entries.len() && (#[trigger] entries[k]).0 == top implies k
                == entries.len() - 1 by {
                assert(ids(entries)[k] == top);
            }
        } else {
            assert forall|k: int|
                0 <= k < entries.len() && (#[trigger] entries[k]).0 == top implies own_memory(
                entries,
                top,
            ) == entries[k].1.rss_bytes by {
                assert(before[k] == entries[k]);
            }
            if !ids(entries).contains(top) {
                if ids(before).contains(top) {
                    let j = choose|j: int| 0 <= j < ids(before).len() && ids(before)[j] == top;
                    assert(ids(entries)[j] == top);
                }
            }
        }
    }
}

}
