//! What the sidebar reads in the output of other programs is what they wrote.

use vstd::prelude::*;
use crate::mux::sidebar_meta::{
    agent_activity, agent_in, agent_report, agent_target, asks, bottom, branch_in,
    collected, counts_for, diff_in, diff_totals, first_line, is_star, last_part, line_diff,
    memory_of, metadata_of, nothing_shown, option_attention, option_progress, option_status, pane_process,
    process_in, sample_line, sample_lines, shares_of, shown_lines, star_activity, star_line, style_of,
    tree_of,
    AgentProgram, AgentStyle, ProcSample, SampleView, SessionProcess, SessionReport,
};
use crate::path::split_of_joined;
use crate::text::{
    ascii_lowercase, contains, decimal, decimal_reads_back, is_space, joined, lines_end_at_line_feeds,
    lines_of, number, numbers_are_digits, parts_end_at_separators, split_on, starts_with, text_opt,
    trim, trimming_takes_the_white_space, without_trailing, words, words_end_at_white_space,
};

verus! {

proof fn digits_are_not(n: nat, c: char)
    requires
        !('0' <= c && c <= '9'),
    ensures
        !decimal(n).contains(c),
{
    decimal_reads_back(n, n);
    if decimal(n).contains(c) {
        let i = choose|i: int| 0 <= i < decimal(n).len() && decimal(n)[i] == c;
        assert('0' <= decimal(n)[i] && decimal(n)[i] <= '9');
    }
}

/// Texts with a tab between each two of them.
pub open spec fn tabbed(fields: Seq<Seq<char>>) -> Seq<char>
    decreases fields.len(),
{
    if fields.len() == 0 {
        Seq::empty()
    } else if fields.len() == 1 {
        fields[0]
    } else {
        fields[0] + seq!['\t'] + tabbed(fields.drop_first())
    }
}

/// The fields of a line are the texts that were put between its tabs.
pub proof fn fields_stand_between_tabs(fields: Seq<Seq<char>>)
    requires
        fields.len() > 0,
        forall|i: int| 0 <= i < fields.len() ==> !(#[trigger] fields[i]).contains('\t'),
    ensures
        split_on(tabbed(fields), '\t') == fields,
    decreases fields.len(),
{
    let rest = fields.drop_first();
    assert(!fields[0].contains('\t'));
    if fields.len() == 1 {
        parts_end_at_separators(fields[0], Seq::empty(), '\t');
        assert(fields =~= seq![fields[0]]);
    } else {
        assert forall|i: int| 0 <= i < rest.len() implies !(#[trigger] rest[i]).contains('\t') by {
            assert(!fields[i + 1].contains('\t'));
        }
        fields_stand_between_tabs(rest);
        parts_end_at_separators(fields[0], tabbed(rest), '\t');
        assert(seq![fields[0]] + rest =~= fields);
    }
}

/// A line of a summary of changes tells how many lines were added and, after them, how many were
/// removed. A line that tells no numbers counts for nothing.
pub proof fn changes_are_counted(added: u32, removed: u32, file: Seq<char>, mark: Seq<char>)
    requires
        !file.contains('\t'),
        mark.len() > 0,
        !mark.contains('\t'),
        mark[0] != '+',
        !('0' <= mark[0] && mark[0] <= '9'),
    ensures
        line_diff(tabbed(seq![decimal(added as nat), decimal(removed as nat), file])) == Some(
            (added as nat, removed as nat),
        ),
        line_diff(tabbed(seq![mark, decimal(removed as nat), file])) is None,
        line_diff(tabbed(seq![decimal(added as nat), mark, file])) is None,
        line_diff(file) is None,
{
    let a = decimal(added as nat);
    let r = decimal(removed as nat);
    digits_are_not(added as nat, '\t');
    digits_are_not(removed as nat, '\t');
    decimal_reads_back(added as nat, u32::MAX as nat);
    decimal_reads_back(removed as nat, u32::MAX as nat);
    numbers_are_digits(mark, u32::MAX as nat, 0);
    fields_stand_between_tabs(seq![a, r, file]);
    fields_stand_between_tabs(seq![mark, r, file]);
    fields_stand_between_tabs(seq![a, mark, file]);
    fields_stand_between_tabs(seq![file]);
}

/// Changes add up over the lines of a summary, and those that are added are not mixed with those that are
/// removed.
pub proof fn changes_add_up(first: Seq<Seq<char>>, second: Seq<Seq<char>>, line: Seq<char>)
    ensures
        diff_totals(first + second).0 == diff_totals(first).0 + diff_totals(second).0,
        diff_totals(first + second).1 == diff_totals(first).1 + diff_totals(second).1,
        line_diff(line) matches Some(counts) ==> diff_totals(seq![line]) == counts,
        line_diff(line) is None ==> diff_totals(seq![line]) == (0nat, 0nat),
    decreases second.len(),
{
    assert(seq![line].drop_last() =~= Seq::<Seq<char>>::empty());
    assert(diff_totals(Seq::<Seq<char>>::empty()) == (0nat, 0nat));
    if second.len() > 0 {
        let all = first + second;
        assert(all.last() == second.last());
        assert(all.drop_last() =~= first + second.drop_last());
        changes_add_up(first, second.drop_last(), line);
    } else {
        assert(first + second =~= first);
    }
}

/// The changes that are shown are the totals of all lines, as far as they can be counted, and none are
/// shown where there are none.
pub proof fn changes_are_shown(text: Seq<char>)
    ensures
        diff_in(None) is None,
        ({
            let totals = diff_totals(lines_of(text));
            let shown = diff_in(Some(text));
            &&& shown is None <==> totals.0 == 0 && totals.1 == 0
            &&& totals.0 <= u32::MAX ==> (shown matches Some(d) ==> d.added == totals.0)
            &&& totals.1 <= u32::MAX ==> (shown matches Some(d) ==> d.removed == totals.1)
            &&& totals.0 > u32::MAX ==> (shown matches Some(d) && d.added == u32::MAX)
            &&& totals.1 > u32::MAX ==> (shown matches Some(d) && d.removed == u32::MAX)
        }),
{
}

/// The options of a session are, in this order, whether it asks for attention, its status and its
/// progress in percent.
pub proof fn options_are_read(attention: Seq<char>, status: Seq<char>, progress: Seq<char>, n: u8)
    requires
        !attention.contains('\t'),
        !status.contains('\t'),
        !progress.contains('\t'),
    ensures
        ({
            let line = tabbed(seq![attention, status, progress]);
            &&& option_attention(line) <==> attention == "1"@
            &&& trim(status).len() > 0 ==> option_status(line) == Some(trim(status))
            &&& trim(status).len() == 0 ==> option_status(line) is None
            &&& number(progress, 255) is None ==> option_progress(line) is None
            &&& progress == decimal(n as nat) ==> option_progress(line) == Some(
                if n <= 100 {
                    n
                } else {
                    100u8
                },
            )
        }),
{
    decimal_reads_back(n as nat, 255);
    fields_stand_between_tabs(seq![attention, status, progress]);
}

/// The process of a session is the one in its active pane: by its number, and by the last part of the
/// path of its program. A pane that is not active tells nothing.
pub proof fn pane_process_is_read(
    session: Seq<char>,
    active: Seq<char>,
    pid: Seq<char>,
    directory: Seq<char>,
    name: Seq<char>,
)
    requires
        !session.contains('\t'),
        !active.contains('\t'),
        !pid.contains('\t'),
        !directory.contains('\t'),
        !directory.contains('/'),
        directory.len() > 0,
        !is_space(directory[0]),
        name.len() > 0,
        !name.contains('\t'),
        !name.contains('/'),
        !is_space(name.last()),
        !is_space(name[0]),
    ensures
        active == "1"@ && pid.len() > 0 ==> pane_process(
            tabbed(seq![session, active, pid, directory + seq!['/'] + name]),
        ) == Some((session, pid, name)),
        active == "1"@ && pid.len() > 0 ==> pane_process(tabbed(seq![session, active, pid, name]))
            == Some((session, pid, name)),
        active != "1"@ || pid.len() == 0 ==> pane_process(
            tabbed(seq![session, active, pid, name]),
        ) is None,
{
    let path = directory + seq!['/'] + name;
    let none = Seq::<char>::empty();
    assert(!path.contains('\t')) by {
        if path.contains('\t') {
            let i = choose|i: int| 0 <= i < path.len() && path[i] == '\t';
            if i < directory.len() {
                assert(directory[i] == '\t');
            } else if i > directory.len() {
                assert(name[i - directory.len() - 1] == '\t');
            }
        }
    }
    fields_stand_between_tabs(seq![session, active, pid, path]);
    fields_stand_between_tabs(seq![session, active, pid, name]);
    trimming_takes_the_white_space(none, path, none);
    trimming_takes_the_white_space(none, name, none);
    assert(none + path + none =~= path);
    assert(none + name + none =~= name);
    assert(path.last() == name.last());
    last_part_is_read(directory, name);
}

/// The last part of a path is what follows its last slash.
pub proof fn last_part_is_read(directory: Seq<char>, name: Seq<char>)
    requires
        !name.contains('/'),
    ensures
        last_part(directory + seq!['/'] + name) == name,
        last_part(name) == name,
{
    let path = directory + seq!['/'] + name;
    assert(path =~= directory.push('/') + name);
    split_of_joined(directory, name, '/');
    parts_end_at_separators(name, Seq::empty(), '/');
    assert((split_on(directory, '/') + seq![name]).last() == name);
}

/// An agent is known by the name of its program, in whatever case it is written, where it runs in the
/// active pane.
pub proof fn agents_are_known_by_name(
    programs: Seq<AgentProgram>,
    session: Seq<char>,
    active: Seq<char>,
    pane: Seq<char>,
    command: Seq<char>,
)
    requires
        !session.contains('\t'),
        !active.contains('\t'),
        !pane.contains('\t'),
        !command.contains('\t'),
    ensures
        ({
            let line = tabbed(seq![session, active, pane, command]);
            let agent = exists|i: int|
                0 <= i < programs.len() && (#[trigger] programs[i]).name@ == ascii_lowercase(
                    command,
                );
            &&& active == "1"@ && pane.len() > 0 && agent ==> agent_target(programs, line) == Some(
                (session, pane, ascii_lowercase(command)),
            )
            &&& active != "1"@ || pane.len() == 0 || !agent ==> agent_target(programs, line) is None
        }),
{
    fields_stand_between_tabs(seq![session, active, pane, command]);
    let name = ascii_lowercase(command);
    if exists|i: int| 0 <= i < programs.len() && (#[trigger] programs[i]).name@ == name {
        let i = choose|i: int| 0 <= i < programs.len() && (#[trigger] programs[i]).name@ == name;
        named_programs_have_a_style(programs, name, i);
    } else {
        style_is_of_the_name(programs, name, 0);
    }
}

/// The style of an agent is that of the first program with its name.
pub proof fn style_is_of_the_name(programs: Seq<AgentProgram>, name: Seq<char>, i: int)
    ensures
        0 <= i < programs.len() && programs[i].name@ == name && (forall|j: int|
            0 <= j < i ==> (#[trigger] programs[j]).name@ != name) ==> style_of(programs, name)
            == Some(programs[i].style),
        (forall|j: int| 0 <= j < programs.len() ==> (#[trigger] programs[j]).name@ != name)
            ==> style_of(programs, name) is None,
    decreases programs.len(),
{
    if programs.len() > 0 {
        let rest = programs.drop_first();
        style_is_of_the_name(rest, name, i - 1);
        assert forall|j: int| 0 <= j < rest.len() implies #[trigger] rest[j] == programs[j + 1] by {}
        if 0 < i < programs.len() && (forall|j: int|
            0 <= j < i ==> (#[trigger] programs[j]).name@ != name) {
            assert(programs[0].name@ != name);
            assert(rest[i - 1] == programs[i]);
        }
        if forall|j: int| 0 <= j < programs.len() ==> (#[trigger] programs[j]).name@ != name {
            assert(programs[0].name@ != name);
        }
    }
}

proof fn named_programs_have_a_style(programs: Seq<AgentProgram>, name: Seq<char>, i: int)
    requires
        0 <= i < programs.len(),
        programs[i].name@ == name,
    ensures
        style_of(programs, name) is Some,
    decreases programs.len(),
{
    if programs[0].name@ != name {
        assert(programs.drop_first()[i - 1] == programs[i]);
        named_programs_have_a_style(programs.drop_first(), name, i - 1);
    }
}

/// An activity stands after a star: it is the first word there, with an ellipsis, and the line has to
/// hold one.
pub proof fn starred_activity_is_read(star: char, word: Seq<char>, rest: Seq<char>, before: Seq<char>)
    requires
        is_star(star),
        word.len() > 0,
        forall|i: int| 0 <= i < word.len() ==> !is_space(#[trigger] word[i]),
        word.last() != '\u{2026}',
        rest.len() > 0 ==> is_space(rest[0]) && !is_space(rest.last()),
        forall|i: int| 0 <= i < before.len() ==> is_space(#[trigger] before[i]),
    ensures
        star_line(before + (seq![star, ' '] + word.push('\u{2026}') + rest)) == Some(
            word.push('\u{2026}'),
        ),
        !word.contains('\u{2026}') && !rest.contains('\u{2026}') ==> star_line(
            before + (seq![star, ' '] + word + rest),
        ) is None,
{
    let none = Seq::<char>::empty();
    let shown = word.push('\u{2026}');
    let text = seq![star, ' '] + shown + rest;
    let plain = seq![star, ' '] + word + rest;
    assert(!is_space(star));
    assert(!is_space('\u{2026}'));
    assert(!is_space(word[word.len() - 1]));
    assert(text[0] == star && text[1] == ' ');
    assert(plain[0] == star && plain[1] == ' ');
    assert(text.last() == if rest.len() > 0 { rest.last() } else { '\u{2026}' });
    assert(plain.last() == if rest.len() > 0 { rest.last() } else { word.last() });
    trimming_takes_the_white_space(before, text, none);
    trimming_takes_the_white_space(before, plain, none);
    assert(before + text + none =~= before + text);
    assert(before + plain + none =~= before + plain);
    let tail = text.skip(2);
    assert(tail =~= none + shown + rest);
    assert(tail[word.len() as int] == '\u{2026}');
    assert forall|i: int| 0 <= i < shown.len() implies !is_space(#[trigger] shown[i]) by {
        if i < word.len() {
            assert(!is_space(word[i]));
        }
    }
    words_end_at_white_space(none, shown, rest);
    assert(words(tail)[0] == shown);
    assert(shown.drop_last() =~= word);
    assert(without_trailing(shown, '\u{2026}') == without_trailing(word, '\u{2026}'));
    assert(without_trailing(word, '\u{2026}') == word);
    if !word.contains('\u{2026}') && !rest.contains('\u{2026}') {
        let other = plain.skip(2);
        if other.contains('\u{2026}') {
            let i = choose|i: int| 0 <= i < other.len() && other[i] == '\u{2026}';
            if i < word.len() {
                assert(word[i] == '\u{2026}');
            } else {
                assert(rest[i - word.len()] == '\u{2026}');
            }
        }
    }
}

/// Of several activities the last counts.
pub proof fn last_activity_counts(lines: Seq<Seq<char>>, i: int)
    ensures
        0 <= i < lines.len() && star_line(lines[i]) is Some && (forall|j: int|
            i < j < lines.len() ==> star_line(#[trigger] lines[j]) is None) ==> star_activity(lines)
            == star_line(lines[i]),
        (forall|j: int| 0 <= j < lines.len() ==> star_line(#[trigger] lines[j]) is None)
            ==> star_activity(lines) is None,
    decreases lines.len(),
{
    if lines.len() > 0 {
        let rest = lines.drop_last();
        let n = lines.len() - 1;
        last_activity_counts(rest, i);
        assert(lines.last() == lines[n]);
        assert forall|j: int| 0 <= j < rest.len() implies #[trigger] rest[j] == lines[j] by {}
        if 0 <= i < n && (forall|j: int| i < j < lines.len() ==> star_line(#[trigger] lines[j])
            is None) {
            assert(star_line(lines[n]) is None);
            assert(rest[i] == lines[i]);
        }
        if forall|j: int| 0 <= j < lines.len() ==> star_line(#[trigger] lines[j]) is None {
            assert(star_line(lines[n]) is None);
        }
    }
}

/// An agent of each style works, or asks, where its screen says so in the words of that style.
pub proof fn agents_say_what_they_do(text: Seq<char>)
    ensures
        ({
            let lines = lines_of(text);
            &&& agent_activity(AgentStyle::Star, text) == star_activity(lines)
            &&& agent_activity(AgentStyle::Bullet, text) == if exists|i: int|
                0 <= i < lines.len() && starts_with(
                    trim(#[trigger] lines[i]),
                    "\u{2022} Working"@,
                ) {
                Some("Working\u{2026}"@)
            } else {
                None
            }
            &&& asks(AgentStyle::Star, text) <==> exists|i: int|
                0 <= i < lines.len() && (contains(#[trigger] lines[i], "Enter to select"@)
                    || contains(lines[i], "enter to select"@))
            &&& asks(AgentStyle::Bullet, text) <==> exists|i: int|
                0 <= i < lines.len() && contains(#[trigger] lines[i], "to submit answer"@)
            &&& asks(AgentStyle::Hint, text) <==> {
                let whole = joined(lines, Seq::empty());
                contains(whole, "select"@) && contains(whole, "submit"@) && contains(
                    whole,
                    "dismiss"@,
                )
            }
        }),
{
    let lines = lines_of(text);
    assert(asks(AgentStyle::Star, text) <==> exists|i: int|
        0 <= i < lines.len() && (contains(#[trigger] lines[i], "Enter to select"@) || contains(
            lines[i],
            "enter to select"@,
        ))) by {
        if asks(AgentStyle::Star, text) {
            if exists|i: int|
                0 <= i < lines.len() && contains(#[trigger] lines[i], "Enter to select"@) {
                let i = choose|i: int|
                    0 <= i < lines.len() && contains(#[trigger] lines[i], "Enter to select"@);
                assert(contains(lines[i], "Enter to select"@));
            } else {
                let i = choose|i: int|
                    0 <= i < lines.len() && contains(#[trigger] lines[i], "enter to select"@);
                assert(contains(lines[i], "enter to select"@));
            }
        }
    }
}

/// The bottom of a screen is its last lines, from the last one up.
pub proof fn bottom_is_the_last_lines(lines: Seq<Seq<char>>, count: nat)
    ensures
        bottom(lines, count).len() == if count <= lines.len() {
            count
        } else {
            lines.len()
        },
        forall|i: int|
            0 <= i < bottom(lines, count).len() ==> #[trigger] bottom(lines, count)[i]
                == lines[lines.len() - 1 - i],
    decreases count,
{
    if count > 0 && lines.len() > 0 {
        let rest = lines.drop_last();
        let less = (count - 1) as nat;
        bottom_is_the_last_lines(rest, less);
        assert forall|i: int| 0 <= i < bottom(lines, count).len() implies #[trigger] bottom(
            lines,
            count,
        )[i] == lines[lines.len() - 1 - i] by {
            if i > 0 {
                assert(bottom(lines, count)[i] == bottom(rest, less)[i - 1]);
            }
        }
    }
}

/// An agent that gives hints works where its last ten lines tell how to interrupt it.
pub proof fn hints_are_at_the_bottom(text: Seq<char>)
    ensures
        ({
            let hints = joined(bottom(lines_of(text), 10), " "@);
            agent_activity(AgentStyle::Hint, text) == if contains(hints, "esc"@) && contains(
                hints,
                "interrupt"@,
            ) {
                Some("Working\u{2026}"@)
            } else {
                None
            }
        }),
{
}

/// What is told of an agent begins with its name: it works as it says, or else it asks, or else nothing is
/// told. Nothing is told of what is no agent.
pub proof fn reports_name_the_agent(programs: Seq<AgentProgram>, agent: Seq<char>, text: Seq<char>)
    ensures
        style_of(programs, agent) is None ==> agent_report(programs, agent, text) is None,
        style_of(programs, agent) matches Some(style) ==> match agent_report(programs, agent, text) {
            Some(report) => match agent_activity(style, text) {
                Some(activity) => report == agent + " "@ + activity,
                None => asks(style, text) && report == agent + " asking"@,
            },
            None => agent_activity(style, text) is None && !asks(style, text),
        },
{
}

/// A line of a list of processes tells the process, its parent, its share of a processor and, in units of
/// 1024 bytes, its memory.
pub proof fn samples_are_read(pid: u32, ppid: u32, cpu: Seq<char>, rss: u64)
    requires
        cpu.len() > 0,
        forall|i: int| 0 <= i < cpu.len() ==> !is_space(#[trigger] cpu[i]),
        rss * 1024 <= u64::MAX,
    ensures
        sample_line(
            seq![' '] + decimal(pid as nat) + (seq![' '] + decimal(ppid as nat) + (seq![' '] + cpu + (
            seq![' '] + decimal(rss as nat) + Seq::<char>::empty()))),
        ) == Some((pid, SampleView { ppid, cpu, rss_bytes: (rss * 1024) as u64 })),
{
    let none = Seq::<char>::empty();
    let blank = seq![' '];
    let a = decimal(pid as nat);
    let b = decimal(ppid as nat);
    let d = decimal(rss as nat);
    decimal_reads_back(pid as nat, u32::MAX as nat);
    decimal_reads_back(ppid as nat, u32::MAX as nat);
    decimal_reads_back(rss as nat, u64::MAX as nat);
    digits_are_unspaced(pid as nat);
    digits_are_unspaced(ppid as nat);
    digits_are_unspaced(rss as nat);
    let r3 = blank + d + none;
    let r2 = blank + cpu + r3;
    let r1 = blank + b + r2;
    assert(is_space(blank[0]));
    assert(r3[0] == ' ');
    assert(r2[0] == ' ');
    assert(r1[0] == ' ');
    words_end_at_white_space(blank, d, none);
    words_end_at_white_space(blank, cpu, r3);
    words_end_at_white_space(blank, b, r2);
    words_end_at_white_space(blank, a, r1);
    assert(words(none) =~= Seq::<Seq<char>>::empty());
    let list = words(blank + a + r1);
    assert(list =~= seq![a, b, cpu, d]);
}

proof fn digits_are_unspaced(n: nat)
    ensures
        decimal(n).len() > 0,
        forall|i: int| 0 <= i < decimal(n).len() ==> !is_space(#[trigger] decimal(n)[i]),
{
    decimal_reads_back(n, n);
    assert(decimal(n).len() > 0) by {
        if n == 0 {
            reveal_strlit("0");
        } else {
            crate::text::decimal_text_is_digits(n);
        }
    }
    assert forall|i: int| 0 <= i < decimal(n).len() implies !is_space(#[trigger] decimal(n)[i]) by {
        assert('0' <= decimal(n)[i] && decimal(n)[i] <= '9');
    }
}

/// Of the samples of a process the last counts.
pub proof fn last_sample_counts(lines: Seq<Seq<char>>, pid: u32, sample: SampleView, i: int)
    ensures
        0 <= i < lines.len() && sample_line(lines[i]) == Some((pid, sample)) && (forall|j: int|
            i < j < lines.len() ==> !(sample_line(#[trigger] lines[j]) matches Some(s) && s.0
                == pid)) ==> sample_lines(lines).contains_key(pid) && sample_lines(lines)[pid]
            == sample,
        (forall|j: int|
            0 <= j < lines.len() ==> !(sample_line(#[trigger] lines[j]) matches Some(s) && s.0
                == pid)) ==> !sample_lines(lines).contains_key(pid),
    decreases lines.len(),
{
    if lines.len() > 0 {
        let rest = lines.drop_last();
        let n = lines.len() - 1;
        last_sample_counts(rest, pid, sample, i);
        assert(lines.last() == lines[n]);
        assert forall|j: int| 0 <= j < rest.len() implies #[trigger] rest[j] == lines[j] by {}
        if 0 <= i < n && (forall|j: int|
            i < j < lines.len() ==> !(sample_line(#[trigger] lines[j]) matches Some(s) && s.0
                == pid)) {
            assert(!(sample_line(lines[n]) matches Some(s) && s.0 == pid));
            assert(rest[i] == lines[i]);
        }
        if forall|j: int|
            0 <= j < lines.len() ==> !(sample_line(#[trigger] lines[j]) matches Some(s) && s.0
                == pid) {
            assert(!(sample_line(lines[n]) matches Some(s) && s.0 == pid));
        }
    }
}

/// A process counts for itself and for its parent, and for no other unless its parent does.
pub proof fn children_count_for_their_parents(samples: Map<u32, ProcSample>, pid: u32, top: u32)
    requires
        samples.dom().finite(),
    ensures
        counts_for(samples, top, top),
        samples.contains_key(pid) && samples[pid].ppid == top ==> counts_for(samples, pid, top),
        counts_for(samples, pid, top) && pid != top ==> samples.contains_key(pid),
{
    if samples.contains_key(pid) {
        assert(samples.dom().contains(pid));
        assert(samples.len() > 0) by {
            if samples.dom().len() == 0 {
                samples.dom().lemma_len0_is_empty();
            }
        }
    }
}

/// The branch is the output without the white space around it, and there is none where that is all.
pub proof fn branch_is_trimmed(text: Seq<char>)
    ensures
        branch_in(None) is None,
        branch_in(Some(text)) is None <==> trim(text).len() == 0,
        branch_in(Some(text)) matches Some(branch) ==> branch == trim(text),
{
}

/// What is told of an agent in a session is what was told last of that session.
pub proof fn last_word_on_an_agent(agents: Seq<(String, String)>, id: Seq<char>, i: int)
    ensures
        0 <= i < agents.len() && agents[i].0@ == id && (forall|j: int|
            i < j < agents.len() ==> (#[trigger] agents[j]).0@ != id) ==> agent_in(agents, id)
            == Some(agents[i].1@),
        (forall|j: int| 0 <= j < agents.len() ==> (#[trigger] agents[j]).0@ != id) ==> agent_in(
            agents,
            id,
        ) is None,
    decreases agents.len(),
{
    if agents.len() > 0 {
        let rest = agents.drop_last();
        let n = agents.len() - 1;
        last_word_on_an_agent(rest, id, i);
        assert(agents.last() == agents[n]);
        assert forall|j: int| 0 <= j < rest.len() implies #[trigger] rest[j] == agents[j] by {}
        if 0 <= i < n && (forall|j: int| i < j < agents.len() ==> (#[trigger] agents[j]).0@ != id) {
            assert(agents[n].0@ != id);
            assert(rest[i] == agents[i]);
        }
        if forall|j: int| 0 <= j < agents.len() ==> (#[trigger] agents[j]).0@ != id {
            assert(agents[n].0@ != id);
        }
    }
}

/// The process of a session is the one that was found last in it.
pub proof fn last_process_counts(processes: Seq<SessionProcess>, id: Seq<char>, i: int)
    ensures
        0 <= i < processes.len() && processes[i].session_id@ == id && (forall|j: int|
            i < j < processes.len() ==> (#[trigger] processes[j]).session_id@ != id) ==> process_in(
            processes,
            id,
        ) == Some(processes[i]),
        (forall|j: int| 0 <= j < processes.len() ==> (#[trigger] processes[j]).session_id@ != id)
            ==> process_in(processes, id) is None,
    decreases processes.len(),
{
    if processes.len() > 0 {
        let rest = processes.drop_last();
        let n = processes.len() - 1;
        last_process_counts(rest, id, i);
        assert(processes.last() == processes[n]);
        assert forall|j: int| 0 <= j < rest.len() implies #[trigger] rest[j] == processes[j] by {}
        if 0 <= i < n && (forall|j: int|
            i < j < processes.len() ==> (#[trigger] processes[j]).session_id@ != id) {
            assert(processes[n].session_id@ != id);
            assert(rest[i] == processes[i]);
        }
        if forall|j: int| 0 <= j < processes.len() ==> (#[trigger] processes[j]).session_id@ != id {
            assert(processes[n].session_id@ != id);
        }
    }
}

/// Each part of what is shown of a session comes from its own source, and is empty where that told
/// nothing.
pub proof fn shown_from_its_sources(
    report: SessionReport,
    agents: Seq<(String, String)>,
    processes: Seq<SessionProcess>,
    line: Seq<char>,
)
    requires
        line == (match report.options {
            Some(text) => first_line(text@),
            None => first_line(Seq::empty()),
        }),
    ensures
        ({
            let shown = metadata_of(report, agents, processes);
            let process = process_in(processes, report.id@);
            &&& shown.branch == branch_in(text_opt(report.branch))
            &&& shown.diff == diff_in(text_opt(report.diff))
            &&& shown.agent_status == agent_in(agents, report.id@)
            &&& report.options is Some ==> shown.attention == option_attention(line) && shown.status
                == option_status(line) && shown.progress == option_progress(line)
            &&& report.options is None ==> !shown.attention && shown.status is None
                && shown.progress is None
            &&& process is None ==> shown.process_cpu is None && shown.processes.len() == 0
            &&& process matches Some(p) ==> {
                &&& shown.process_cpu == Some(p.cpu@)
                &&& shown.processes.len() == 1
                &&& shown.processes[0].0 == p.status.name@
                &&& shown.processes[0].1 == p.status.cpu_bits
                &&& shown.processes[0].2 == p.status.mem_bytes
            }
            &&& nothing_shown(shown) <==> shown.branch is None && shown.diff is None
                && !shown.attention && shown.status is None && shown.progress is None
                && shown.process_cpu is None && shown.agent_status is None
                && shown.processes.len() == 0
        }),
{
}

/// The first line of an output is what stands before its first line feed.
pub proof fn first_line_is_read(line: Seq<char>, rest: Seq<char>)
    requires
        line.len() > 0,
        !line.contains('\n'),
        line.last() != '\r',
    ensures
        first_line(line + "\n"@ + rest) == line,
        first_line(line) == line,
        first_line(Seq::empty()) == Seq::<char>::empty(),
{
    lines_end_at_line_feeds(line, rest);
}

/// A session that was reported once is collected exactly where there is something to show of it, as it
/// is shown.
pub proof fn sessions_are_collected(
    reports: Seq<SessionReport>,
    agents: Seq<(String, String)>,
    processes: Seq<SessionProcess>,
    i: int,
)
    requires
        0 <= i < reports.len(),
        forall|j: int|
            0 <= j < reports.len() && j != i ==> (#[trigger] reports[j]).name@ != reports[i].name@,
    ensures
        ({
            let all = collected(reports, agents, processes);
            let shown = metadata_of(reports[i], agents, processes);
            let name = reports[i].name@;
            &&& all.contains_key(name) <==> !nothing_shown(shown)
            &&& all.contains_key(name) ==> all[name] == shown
        }),
    decreases reports.len(),
{
    let rest = reports.drop_last();
    let n = reports.len() - 1;
    assert(reports.last() == reports[n]);
    if i < n {
        assert forall|j: int| 0 <= j < rest.len() && j != i implies (#[trigger] rest[j]).name@
            != rest[i].name@ by {
            assert(rest[j] == reports[j]);
        }
        sessions_are_collected(rest, agents, processes, i);
        assert(reports[n].name@ != reports[i].name@);
    } else {
        assert forall|j: int| 0 <= j < rest.len() implies (#[trigger] rest[j]).name@
            != reports[i].name@ by {
            assert(rest[j] == reports[j]);
        }
        unreported_are_not_collected(rest, agents, processes, reports[i].name@);
    }
}

/// A session that was not reported is not collected.
pub proof fn unreported_are_not_collected(
    reports: Seq<SessionReport>,
    agents: Seq<(String, String)>,
    processes: Seq<SessionProcess>,
    name: Seq<char>,
)
    requires
        forall|j: int| 0 <= j < reports.len() ==> (#[trigger] reports[j]).name@ != name,
    ensures
        !collected(reports, agents, processes).contains_key(name),
    decreases reports.len(),
{
    if reports.len() > 0 {
        let rest = reports.drop_last();
        assert forall|j: int| 0 <= j < rest.len() implies (#[trigger] rest[j]).name@ != name by {
            assert(rest[j] == reports[j]);
        }
        unreported_are_not_collected(rest, agents, processes, name);
        assert(reports[reports.len() - 1].name@ != name);
    }
}

/// The lines of a screen that count are those that are not blank.
pub proof fn blank_lines_are_passed(output: Seq<char>, line: Seq<char>)
    ensures
        shown_lines(output).contains(line) <==> lines_of(output).contains(line) && trim(line).len()
            > 0,
{
    let keep = |line: Seq<char>| trim(line).len() > 0;
    let list = lines_of(output);
    broadcast use {
        Seq::lemma_filter_pred,
        Seq::lemma_filter_contains,
        Seq::lemma_filter_contains_rev,
    };

    let kept = list.filter(keep);
    if kept.contains(line) {
        let i = choose|i: int| 0 <= i < kept.len() && kept[i] == line;
        assert(keep(kept[i]));
    }
    if list.contains(line) && keep(line) {
        let i = choose|i: int| 0 <= i < list.len() && list[i] == line;
        assert(keep(list[i]));
    }
}

/// The stars before an activity are the ten signs that agents draw; letters, digits and blanks are none.
pub proof fn stars_are_signs(c: char)
    ensures
        c == '\u{00B7}' || c == '\u{2022}' || c == '\u{273B}' || c == '\u{22C6}' || c == '\u{2726}' || c
            == '\u{2727}' || c == '\u{2736}' || c == '\u{2722}' || c == '\u{273D}' || c
            == '\u{2733}' <==> is_star(c),
        ' ' <= c && c <= '~' ==> !is_star(c),
{
}

/// The memory of processes is the sum of what each of them has.
pub proof fn memory_is_the_sum(
    first: Seq<(u32, ProcSample)>,
    second: Seq<(u32, ProcSample)>,
    entry: (u32, ProcSample),
)
    ensures
        memory_of(seq![entry]) == entry.1.rss_bytes,
        memory_of(first + second) == memory_of(first) + memory_of(second),
    decreases second.len(),
{
    let none = Seq::<(u32, ProcSample)>::empty();
    assert(seq![entry].drop_last() =~= none);
    assert(memory_of(none) == 0);
    if second.len() > 0 {
        let all = first + second;
        assert(all.last() == second.last());
        assert(all.drop_last() =~= first + second.drop_last());
        memory_is_the_sum(first, second.drop_last(), entry);
    } else {
        assert(first + second =~= first);
    }
}

/// The share of a processor that is told of processes is that of each of them, in their order.
pub proof fn shares_are_in_order(entries: Seq<(u32, ProcSample)>, i: int)
    requires
        0 <= i < entries.len(),
    ensures
        shares_of(entries).len() == entries.len(),
        shares_of(entries)[i] == entries[i].1.cpu@,
{
}

/// A process and all it has started are those that count for it.
pub proof fn trees_hold_what_counts(
    entries: Seq<(u32, ProcSample)>,
    samples: Map<u32, ProcSample>,
    top: u32,
    entry: (u32, ProcSample),
)
    ensures
        tree_of(entries, samples, top).contains(entry) <==> entries.contains(entry) && counts_for(
            samples,
            entry.0,
            top,
        ),
{
    let keep = |e: (u32, ProcSample)| counts_for(samples, e.0, top);
    broadcast use {
        Seq::lemma_filter_pred,
        Seq::lemma_filter_contains,
        Seq::lemma_filter_contains_rev,
    };

    let kept = entries.filter(keep);
    if kept.contains(entry) {
        let i = choose|i: int| 0 <= i < kept.len() && kept[i] == entry;
        assert(keep(kept[i]));
    }
    if entries.contains(entry) && keep(entry) {
        let i = choose|i: int| 0 <= i < entries.len() && entries[i] == entry;
        assert(keep(entries[i]));
    }
}

}
