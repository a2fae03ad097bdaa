//! Commands from the command line: how their arguments are read, and how their outcome is reported.

use vstd::prelude::*;
use crate::extensions::command::{target_id, CommandTarget, ResourceKind, TargetId};
use crate::extensions::json::{text_field, Json};
use crate::outside::{item_views, json_list_reading, read_json_list, JsonItem, JsonItemView};
use crate::text::{
    chars_of, decimal, decimal_reads_back, decimal_text, has_char, has_prefix, join, join_all, joined, number,
    parse_number, same_text, starts_with, text_of, text_opt, texts,
};

verus! {

pub const EXIT_USAGE: u8 = 2;
pub const EXIT_TRANSPORT: u8 = 4;
pub const EXIT_CONFIRMATION: u8 = 5;
pub const EXIT_DENIED: u8 = 6;
pub const EXIT_UNAVAILABLE: u8 = 7;
pub const EXIT_STALE_TARGET: u8 = 8;
pub const EXIT_COMMAND_FAILED: u8 = 9;

/// A failure, with the exit code that it gives.
#[derive(Debug)]
pub struct CliFailure {
    pub code: u8,
    pub message: String,
}

/// What kind of value an argument takes.
#[derive(Clone, Copy, Debug, PartialEq, Eq, Structural)]
pub enum ArgumentType {
    Text,
    Integer,
    Number,
}

/// An argument of a command.
#[derive(Debug)]
pub struct CliArgument {
    pub name: String,
    pub value_type: ArgumentType,
    pub choices: Vec<String>,
}

/// A command, as far as the command line needs it.
#[derive(Debug)]
pub struct CliDescriptor {
    pub id: String,
    pub title: String,
    pub description: String,
    pub arguments: Vec<CliArgument>,
    pub target: Option<ResourceKind>,
    pub destructive: bool,
}

/// A text with one character in place of another.
pub open spec fn replaced(s: Seq<char>, from: char, to: char) -> Seq<char> {
    s.map_values(
        |c: char|
            if c == from {
                to
            } else {
                c
            },
    )
}

/// A text with one character in place of another.
pub fn replace_char(s: &str, from: char, to: char) -> (out: String)
    ensures
        out@ == replaced(s@, from, to),
{
    let chars = chars_of(s);
    let mut out = String::new();
    let mut i: usize = 0;
    assert(out@ =~= replaced(s@.take(0), from, to));
    while i < chars.len()
        invariant
            i <= chars@.len(),
            chars@ == s@,
            out@ == replaced(s@.take(i as int), from, to),
        decreases chars@.len() - i,
    {
        let ghost before = out@;
        let c = chars[i];
        let shown = if c == from {
            to
        } else {
            c
        };
        out.push(shown);
        assert(replaced(s@.take(i + 1), from, to) =~= before.push(shown));
        i = i + 1;
    }
    assert(s@.take(i as int) =~= s@);
    out
}

/// The name of a command: on the command line its words are joined by dashes.
pub fn command_name(path: &str) -> (out: String)
    ensures
        out@ == replaced(path@, '-', '_'),
{
    replace_char(path, '-', '_')
}

/// What stands behind the last separator.
pub open spec fn behind_last(s: Seq<char>, sep: char) -> Seq<char>
    decreases s.len(),
{
    if s.len() == 0 || s.last() == sep {
        Seq::empty()
    } else {
        behind_last(s.drop_last(), sep).push(s.last())
    }
}

/// Position of the last separator, or -1 where there is none.
pub open spec fn last_at(s: Seq<char>, sep: char) -> int
    decreases s.len(),
{
    if s.len() == 0 {
        -1
    } else if s.last() == sep {
        s.len() - 1
    } else {
        last_at(s.drop_last(), sep)
    }
}

proof fn behind_last_is(s: Seq<char>, sep: char)
    ensures
        -1 <= last_at(s, sep) < s.len(),
        behind_last(s, sep) == s.skip(last_at(s, sep) + 1),
    decreases s.len(),
{
    if s.len() > 0 && s.last() != sep {
        behind_last_is(s.drop_last(), sep);
        assert(behind_last(s, sep) =~= s.skip(last_at(s, sep) + 1));
    } else {
        assert(behind_last(s, sep) =~= s.skip(last_at(s, sep) + 1));
    }
}

fn find_last(chars: &Vec<char>, sep: char) -> (out: Option<usize>)
    ensures
        match out {
            Some(i) => i < chars@.len() && i == last_at(chars@, sep),
            None => last_at(chars@, sep) == -1,
        },
{
    let mut i: usize = chars.len();
    assert(chars@.take(i as int) =~= chars@);
    while i > 0
        invariant
            i <= chars@.len(),
            last_at(chars@, sep) == last_at(chars@.take(i as int), sep),
        decreases i,
    {
        assert(chars@.take(i as int).drop_last() =~= chars@.take(i - 1));
        assert(chars@.take(i as int).last() == chars@[i - 1]);
        if chars[i - 1] == sep {
            return Some(i - 1);
        }
        i = i - 1;
    }
    None
}

/// The error code of a request with parameters that do not fit.
pub const INVALID_PARAMS: i64 = -32602;

/// The name to ask for once more where a command is not known: what stands behind the last dot.
pub open spec fn other_name(name: Seq<char>, error: Option<i64>) -> Option<Seq<char>> {
    if error == Some(INVALID_PARAMS) && name.contains('.') {
        Some(behind_last(name, '.'))
    } else {
        None
    }
}

/// The name to ask for once more where a command is not known.
pub fn fallback_name(name: &str, error: Option<i64>) -> (out: Option<String>)
    ensures
        text_opt(out) == other_name(name@, error),
{
    let unknown = match error {
        Some(code) => code == INVALID_PARAMS,
        None => false,
    };
    if !unknown || !has_char(name, '.') {
        return None;
    }
    let chars = chars_of(name);
    let from: usize = match find_last(&chars, '.') {
        Some(i) => i + 1,
        None => 0,
    };
    proof {
        behind_last_is(name@, '.');
    }
    let out = text_of(&chars, from, chars.len());
    assert(out@ =~= name@.skip(from as int));
    Some(out)
}

/// Whether the arguments ask for help.
pub fn asks_for_help(raw: &[String]) -> (out: bool)
    ensures
        out == (texts(raw@).contains("--help"@) || texts(raw@).contains("-h"@)),
{
    let ghost all = texts(raw@);
    let mut i: usize = 0;
    while i < raw.len()
        invariant
            i <= raw@.len(),
            all == texts(raw@),
            forall|j: int| 0 <= j < i ==> all[j] != "--help"@ && all[j] != "-h"@,
        decreases raw@.len() - i,
    {
        assert(all[i as int] == raw@[i as int]@);
        if same_text(&raw[i], "--help") {
            assert(all.contains("--help"@));
            return true;
        }
        if same_text(&raw[i], "-h") {
            assert(all.contains("-h"@));
            return true;
        }
        i = i + 1;
    }
    false
}

/// The exit code that an error code gives.
pub open spec fn rpc_exit(code: i64) -> u8 {
    if code == -32700 || -32602 <= code <= -32600 {
        EXIT_USAGE
    } else if code == -32006 {
        EXIT_DENIED
    } else {
        EXIT_TRANSPORT
    }
}

/// A whole number in decimal digits.
pub open spec fn signed_decimal(n: int) -> Seq<char> {
    if n < 0 {
        "-"@ + decimal((-n) as nat)
    } else {
        decimal(n as nat)
    }
}

/// The failure that an error in an answer gives.
pub fn rpc_failure(code: i64, message: &str) -> (out: CliFailure)
    ensures
        out.code == rpc_exit(code),
        out.message@ == message@ + " ("@ + signed_decimal(code as int) + ")"@,
{
    let exit = if code == -32700 || (-32602 <= code && code <= -32600) {
        EXIT_USAGE
    } else if code == -32006 {
        EXIT_DENIED
    } else {
        EXIT_TRANSPORT
    };
    let digits = if code >= 0 {
        decimal_text(code as u64)
    } else {
        let above = -(code + 1);
        let size: u64 = above as u64 + 1;
        let text = decimal_text(size);
        join("-", &text)
    };
    let start = join(message, " (");
    let middle = join(&start, &digits);
    CliFailure { code: exit, message: join(&middle, ")") }
}

/// The failure that a broken connection gives.
pub fn transport_failure(message: String) -> (out: CliFailure)
    ensures
        out == (CliFailure { code: EXIT_TRANSPORT, message }),
{
    CliFailure { code: EXIT_TRANSPORT, message }
}

/// What became of a command.
#[derive(Debug)]
pub enum InvokeOutcome {
    Success,
    Unsupported { message: String },
    Unavailable { message: String },
    Denied { message: String },
    StaleTarget { message: String },
    ConfirmationRequired,
    Failed { message: String },
}

/// The exit code and the message that an outcome gives; none for success.
pub open spec fn outcome_exit(outcome: Option<InvokeOutcome>) -> Option<(u8, Seq<char>)> {
    match outcome {
        None => None,
        Some(InvokeOutcome::Success) => None,
        Some(InvokeOutcome::Unsupported { message }) => Some((EXIT_UNAVAILABLE, message@)),
        Some(InvokeOutcome::Unavailable { message }) => Some((EXIT_UNAVAILABLE, message@)),
        Some(InvokeOutcome::Denied { message }) => Some((EXIT_DENIED, message@)),
        Some(InvokeOutcome::StaleTarget { message }) => Some((EXIT_STALE_TARGET, message@)),
        Some(InvokeOutcome::ConfirmationRequired) => Some(
            (EXIT_CONFIRMATION, "command requires confirmation"@),
        ),
        Some(InvokeOutcome::Failed { message }) => Some((EXIT_COMMAND_FAILED, message@)),
    }
}

/// The failure that an outcome gives.
pub fn command_response(outcome: Option<InvokeOutcome>) -> (out: Result<(), CliFailure>)
    ensures
        match outcome_exit(outcome) {
            None => out is Ok,
            Some((code, message)) => out matches Err(failure) && failure.code == code
                && failure.message@ == message,
        },
{
    match outcome {
        None => Ok(()),
        Some(InvokeOutcome::Success) => Ok(()),
        Some(InvokeOutcome::Unsupported { message }) => Err(
            CliFailure { code: EXIT_UNAVAILABLE, message },
        ),
        Some(InvokeOutcome::Unavailable { message }) => Err(
            CliFailure { code: EXIT_UNAVAILABLE, message },
        ),
        Some(InvokeOutcome::Denied { message }) => Err(CliFailure { code: EXIT_DENIED, message }),
        Some(InvokeOutcome::StaleTarget { message }) => Err(
            CliFailure { code: EXIT_STALE_TARGET, message },
        ),
        Some(InvokeOutcome::ConfirmationRequired) => Err(
            CliFailure {
                code: EXIT_CONFIRMATION,
                message: "command requires confirmation".to_owned(),
            },
        ),
        Some(InvokeOutcome::Failed { message }) => Err(
            CliFailure { code: EXIT_COMMAND_FAILED, message },
        ),
    }
}

/// Whether a command is to be invoked once more, with the confirmation that it asked for.
pub fn confirms(confirm: bool, outcome: Option<&InvokeOutcome>) -> (out: bool)
    ensures
        out == (confirm && outcome is Some && *outcome.unwrap() is ConfirmationRequired),
{
    match outcome {
        Some(InvokeOutcome::ConfirmationRequired) => confirm,
        _ => false,
    }
}

/// A line of an answer: a text, or a value that is printed in full.
#[derive(Debug)]
pub enum ResponseLine {
    Text(String),
    /// The value at this position of the list.
    Item(usize),
    /// The whole value.
    Whole,
}

/// A line of an answer, with its text as a sequence.
pub enum ResponseLineView {
    Text(Seq<char>),
    Item(int),
    Whole,
}

impl View for ResponseLine {
    type V = ResponseLineView;

    open spec fn view(&self) -> ResponseLineView {
        match *self {
            ResponseLine::Text(text) => ResponseLineView::Text(text@),
            ResponseLine::Item(i) => ResponseLineView::Item(i as int),
            ResponseLine::Whole => ResponseLineView::Whole,
        }
    }
}

/// The line of one value of a list: its identifier, or else the value in full.
pub open spec fn item_line(items: Seq<Json>, i: int) -> ResponseLineView {
    match text_field(items[i], "id"@) {
        Some(id) => ResponseLineView::Text(id),
        None => ResponseLineView::Item(i),
    }
}

/// The lines that are printed for an answer: one for each value of a list, none for nothing, and else
/// the whole value.
pub fn response_lines(result: &Json) -> (out: Vec<ResponseLine>)
    ensures
        match *result {
            Json::Null => out@.len() == 0,
            Json::Array(items) => out@.len() == items@.len() && forall|i: int|
                0 <= i < out@.len() ==> (#[trigger] out@[i])@ == item_line(items@, i),
            _ => out@.len() == 1 && out@[0]@ == ResponseLineView::Whole,
        },
{
    match result {
        Json::Null => Vec::new(),
        Json::Array(items) => {
            let mut out: Vec<ResponseLine> = Vec::new();
            let mut i: usize = 0;
            while i < items.len()
                invariant
                    i <= items@.len(),
                    out@.len() == i,
                    forall|k: int| 0 <= k < i ==> (#[trigger] out@[k])@ == item_line(items@, k),
                decreases items@.len() - i,
            {
                match items[i].get_text("id") {
                    Some(id) => out.push(ResponseLine::Text(id.to_owned())),
                    None => out.push(ResponseLine::Item(i)),
                }
                i = i + 1;
            }
            out
        },
        _ => vec![ResponseLine::Whole],
    }
}

/// The argument that a JSON value stands for: a string or a number.
pub open spec fn argument_of(item: JsonItemView) -> Option<Seq<char>> {
    match item {
        JsonItemView::Text(text) => Some(text),
        JsonItemView::Number(text) => Some(text),
        _ => None,
    }
}

/// The arguments that JSON values stand for; none where one of them is neither a string nor a number.
pub open spec fn arguments_of(items: Seq<JsonItemView>) -> Option<Seq<Seq<char>>>
    decreases items.len(),
{
    if items.len() == 0 {
        Some(Seq::empty())
    } else {
        match (arguments_of(items.drop_last()), argument_of(items.last())) {
            (Some(list), Some(text)) => Some(list.push(text)),
            _ => None,
        }
    }
}

/// What a JSON list that is read as arguments gives: the arguments, or what is wrong with it.
pub open spec fn arguments_in(reading: Result<Seq<JsonItemView>, Seq<char>>) -> Result<
    Seq<Seq<char>>,
    Seq<char>,
> {
    match reading {
        Err(message) => Err(message),
        Ok(items) => match arguments_of(items) {
            Some(list) => Ok(list),
            None => Err("command arguments must be strings or numbers"@),
        },
    }
}

/// The argument that a JSON value stands for.
pub fn json_argument(item: JsonItem) -> (out: Result<String, &'static str>)
    ensures
        match argument_of(item@) {
            Some(text) => out matches Ok(argument) && argument@ == text,
            None => out matches Err(message) && message@
                == "command arguments must be strings or numbers"@,
        },
{
    match item {
        JsonItem::Text(text) => Ok(text),
        JsonItem::Number(text) => Ok(text),
        _ => Err("command arguments must be strings or numbers"),
    }
}

/// The arguments that JSON values stand for.
pub fn json_arguments(items: Vec<JsonItem>) -> (out: Result<Vec<String>, &'static str>)
    ensures
        match arguments_of(item_views(items@)) {
            Some(list) => out matches Ok(arguments) && texts(arguments@) == list,
            None => out matches Err(message) && message@
                == "command arguments must be strings or numbers"@,
        },
{
    let ghost all = item_views(items@);
    let mut queue = items;
    let ghost mut done: int = 0;
    let mut out: Vec<String> = Vec::new();
    proof {
        assert(all.take(0) =~= Seq::<JsonItemView>::empty());
        assert(texts(out@) =~= Seq::<Seq<char>>::empty());
        assert(all.skip(0) =~= all);
    }
    while queue.len() > 0
        invariant
            0 <= done <= all.len(),
            all == item_views(items@),
            item_views(queue@) == all.skip(done),
            arguments_of(all.take(done)) == Some(texts(out@)),
        decreases queue@.len(),
    {
        let ghost before = out@;
        let ghost left = queue@;
        let item = queue.remove(0);
        proof {
            assert(item_views(left).len() == left.len());
            assert(item_views(left)[0] == item@);
            assert(all.skip(done)[0] == all[done]);
            assert(all.take(done + 1).drop_last() =~= all.take(done));
            assert(all.take(done + 1).last() == all[done]);
            assert(item_views(queue@) =~= all.skip(done + 1)) by {
                assert(item_views(queue@) =~= item_views(left).drop_first());
                assert(all.skip(done).drop_first() =~= all.skip(done + 1));
            }
        }
        match json_argument(item) {
            Ok(text) => {
                out.push(text);
                assert(texts(out@) =~= texts(before).push(text@));
            },
            Err(message) => {
                proof {
                    arguments_stay_wrong(all, done + 1);
                }
                return Err(message);
            },
        }
        proof {
            done = done + 1;
        }
    }
    assert(all.skip(done).len() == 0);
    assert(all.take(done) =~= all);
    Ok(out)
}

proof fn arguments_stay_wrong(items: Seq<JsonItemView>, n: int)
    requires
        0 <= n <= items.len(),
        arguments_of(items.take(n)) is None,
    ensures
        arguments_of(items) is None,
    decreases items.len() - n,
{
    if n < items.len() {
        assert(items.take(n + 1).drop_last() =~= items.take(n));
        arguments_stay_wrong(items, n + 1);
    } else {
        assert(items.take(n) =~= items);
    }
}

/// `s` without the pairs of dashes in front.
pub open spec fn without_dashes(s: Seq<char>) -> Seq<char>
    decreases s.len(),
{
    if s.len() >= 2 && s[0] == '-' && s[1] == '-' {
        without_dashes(s.skip(2))
    } else {
        s
    }
}

fn strip_dashes(s: &str) -> (out: String)
    ensures
        out@ == without_dashes(s@),
{
    let chars = chars_of(s);
    let count = chars.len();
    let mut from: usize = 0;
    assert(chars@.skip(0) =~= s@);
    while count - from >= 2 && chars[from] == '-' && chars[from + 1] == '-'
        invariant
            from <= count,
            count == chars@.len(),
            without_dashes(s@) == without_dashes(chars@.skip(from as int)),
        decreases count - from,
    {
        assert(chars@.skip(from as int).skip(2) =~= chars@.skip(from + 2));
        from = from + 2;
    }
    let out = text_of(&chars, from, count);
    assert(out@ =~= chars@.skip(from as int));
    out
}

/// What a text behind `--target` stands for, or what is wrong with it: a handle and a generation, with
/// the last `@` between them.
pub open spec fn target_in(kind: Option<ResourceKind>, value: Seq<char>) -> Result<
    TargetId,
    Seq<char>,
> {
    let at = last_at(value, '@');
    if at < 0 {
        Err("--target requires HANDLE@GENERATION"@)
    } else {
        match kind {
            None => Err("command does not accept a target"@),
            Some(k) => match number(value.skip(at + 1), u64::MAX as nat) {
                None => Err("invalid target generation"@),
                Some(n) => Ok((k, value.take(at), n as u64)),
            },
        }
    }
}

fn read_target(kind: Option<ResourceKind>, value: &str) -> (out: Result<CommandTarget, &'static str>)
    ensures
        match target_in(kind, value@) {
            Ok(id) => out matches Ok(target) && target.id() == id,
            Err(message) => out matches Err(m) && m@ == message,
        },
{
    let chars = chars_of(value);
    let count = chars.len();
    match find_last(&chars, '@') {
        None => Err("--target requires HANDLE@GENERATION"),
        Some(at) => match kind {
            None => Err("command does not accept a target"),
            Some(kind) => {
                let handle = text_of(&chars, 0, at);
                let digits = text_of(&chars, at + 1, count);
                assert(handle@ =~= value@.take(at as int));
                assert(digits@ =~= value@.skip(at + 1));
                match parse_number(&digits, u64::MAX) {
                    None => Err("invalid target generation"),
                    Some(generation) => Ok(CommandTarget { kind, handle, generation }),
                }
            },
        },
    }
}

/// Arguments that were read so far.
pub struct ParsedView {
    pub arguments: Seq<Seq<char>>,
    pub target: Option<TargetId>,
    pub confirmed: bool,
}

/// What became of reading arguments.
pub enum ParseView {
    /// The next text from the standard input is needed.
    NeedsInput,
    Failed(Seq<char>),
    Done(ParsedView),
}

/// How a command is written on the command line when it got the wrong number of arguments.
pub open spec fn count_message(descriptor: CliDescriptor, got: nat) -> Seq<char> {
    "command "@ + descriptor.id@ + " expects "@ + decimal(descriptor.arguments@.len()) +
    " argument(s), got "@ + decimal(got)
}

/// What arguments mean for a command, once some were read. An option names the argument that comes
/// next, and its value follows it. What is no option is a value. `--stdin-json` takes a JSON list of
/// arguments from the standard input.
pub open spec fn parse_rest(
    descriptor: CliDescriptor,
    raw: Seq<Seq<char>>,
    inputs: Seq<Seq<char>>,
    read: ParsedView,
) -> ParseView
    decreases raw.len(),
{
    let n = read.arguments.len();
    if raw.len() == 0 {
        if n != descriptor.arguments@.len() {
            ParseView::Failed(count_message(descriptor, n))
        } else {
            ParseView::Done(read)
        }
    } else if raw[0] == "--yes"@ {
        parse_rest(descriptor, raw.skip(1), inputs, ParsedView { confirmed: true, ..read })
    } else if raw[0] == "--target"@ {
        if raw.len() < 2 {
            ParseView::Failed("--target requires HANDLE@GENERATION"@)
        } else {
            match target_in(descriptor.target, raw[1]) {
                Err(message) => ParseView::Failed(message),
                Ok(id) => parse_rest(
                    descriptor,
                    raw.skip(2),
                    inputs,
                    ParsedView { target: Some(id), ..read },
                ),
            }
        }
    } else if raw[0] == "--stdin-json"@ {
        if inputs.len() == 0 {
            ParseView::NeedsInput
        } else {
            match arguments_in(json_list_reading(inputs[0])) {
                Err(message) => ParseView::Failed(message),
                Ok(list) => parse_rest(
                    descriptor,
                    raw.skip(1),
                    inputs.skip(1),
                    ParsedView { arguments: read.arguments + list, ..read },
                ),
            }
        }
    } else if starts_with(raw[0], "--"@) {
        if n >= descriptor.arguments@.len() {
            ParseView::Failed("too many command arguments"@)
        } else {
            let expected = replaced(descriptor.arguments@[n as int].name@, '_', '-');
            if expected != without_dashes(raw[0]) {
                ParseView::Failed("expected --"@ + expected + ", got "@ + raw[0])
            } else if raw.len() < 2 {
                ParseView::Failed(raw[0] + " requires a value"@)
            } else {
                parse_rest(
                    descriptor,
                    raw.skip(2),
                    inputs,
                    ParsedView { arguments: read.arguments.push(raw[1]), ..read },
                )
            }
        }
    } else {
        parse_rest(
            descriptor,
            raw.skip(1),
            inputs,
            ParsedView { arguments: read.arguments.push(raw[0]), ..read },
        )
    }
}

/// What arguments mean for a command.
pub open spec fn parse(
    descriptor: CliDescriptor,
    raw: Seq<Seq<char>>,
    inputs: Seq<Seq<char>>,
) -> ParseView {
    parse_rest(
        descriptor,
        raw,
        inputs,
        ParsedView { arguments: Seq::empty(), target: None, confirmed: false },
    )
}

/// Arguments of a command.
#[derive(Debug)]
pub struct DynamicArguments {
    pub arguments: Vec<String>,
    pub target: Option<CommandTarget>,
    pub confirmed: bool,
}

impl DynamicArguments {
    pub open spec fn parsed(&self) -> ParsedView {
        ParsedView {
            arguments: texts(self.arguments@),
            target: target_id(self.target),
            confirmed: self.confirmed,
        }
    }
}

/// What became of reading arguments.
#[derive(Debug)]
pub enum ParseOutcome {
    /// The next text from the standard input is needed.
    NeedsInput,
    Failed(String),
    Done(DynamicArguments),
}

impl View for ParseOutcome {
    type V = ParseView;

    open spec fn view(&self) -> ParseView {
        match *self {
            ParseOutcome::NeedsInput => ParseView::NeedsInput,
            ParseOutcome::Failed(message) => ParseView::Failed(message@),
            ParseOutcome::Done(arguments) => ParseView::Done(arguments.parsed()),
        }
    }
}

fn count_error(descriptor: &CliDescriptor, got: usize) -> (out: String)
    ensures
        out@ == count_message(*descriptor, got as nat),
{
    let mut out = join("command ", &descriptor.id);
    out.append(" expects ");
    let wanted = decimal_text(descriptor.arguments.len() as u64);
    out.append(&wanted);
    out.append(" argument(s), got ");
    let count = decimal_text(got as u64);
    out.append(&count);
    out
}

fn append_all(list: &mut Vec<String>, more: Vec<String>)
    ensures
        texts(final(list)@) == texts(old(list)@) + texts(more@),
{
    let ghost before = list@;
    let ghost added = more@;
    let mut more = more;
    list.append(&mut more);
    assert(texts(list@) =~= texts(before) + texts(added));
}

/// Reads the arguments of a command. `inputs` holds the texts that were taken from the standard input
/// so far.
pub fn parse_dynamic_arguments(
    descriptor: &CliDescriptor,
    raw: &[String],
    inputs: &[String],
) -> (out: ParseOutcome)
    ensures
        out@ == parse(*descriptor, texts(raw@), texts(inputs@)),
{
    let ghost all = texts(raw@);
    let ghost given = texts(inputs@);
    let count = raw.len();
    let mut read = DynamicArguments { arguments: Vec::new(), target: None, confirmed: false };
    let mut at: usize = 0;
    let mut used: usize = 0;
    proof {
        assert(all.skip(0) =~= all);
        assert(given.skip(0) =~= given);
        assert(read.parsed().arguments =~= Seq::<Seq<char>>::empty());
    }
    while at < count
        invariant
            at <= count,
            count == raw@.len(),
            used <= inputs@.len(),
            all == texts(raw@),
            given == texts(inputs@),
            parse(*descriptor, all, given) == parse_rest(
                *descriptor,
                all.skip(at as int),
                given.skip(used as int),
                read.parsed(),
            ),
        decreases count - at,
    {
        let ghost rest = all.skip(at as int);
        let ghost left = given.skip(used as int);
        let ghost before = read.parsed();
        proof {
            assert(rest[0] == raw@[at as int]@);
            assert(rest.skip(1) =~= all.skip(at + 1));
            if at + 1 < count {
                assert(rest[1] == raw@[at + 1]@);
                assert(rest.skip(2) =~= all.skip(at + 2));
            }
        }
        let word = &raw[at];
        if same_text(word, "--yes") {
            read.confirmed = true;
            at = at + 1;
        } else if same_text(word, "--target") {
            if count - at < 2 {
                return ParseOutcome::Failed("--target requires HANDLE@GENERATION".to_owned());
            }
            match read_target(descriptor.target, &raw[at + 1]) {
                Err(message) => {
                    return ParseOutcome::Failed(message.to_owned());
                },
                Ok(target) => {
                    read.target = Some(target);
                },
            }
            at = at + 2;
        } else if same_text(word, "--stdin-json") {
            if used >= inputs.len() {
                return ParseOutcome::NeedsInput;
            }
            proof {
                assert(left[0] == inputs@[used as int]@);
                assert(left.skip(1) =~= given.skip(used + 1));
            }
            match read_json_list(&inputs[used]) {
                Err(message) => {
                    return ParseOutcome::Failed(message);
                },
                Ok(items) => match json_arguments(items) {
                    Err(message) => {
                        return ParseOutcome::Failed(message.to_owned());
                    },
                    Ok(list) => {
                        append_all(&mut read.arguments, list);
                    },
                },
            }
            used = used + 1;
            at = at + 1;
        } else if has_prefix(word, "--") {
            let n = read.arguments.len();
            assert(before.arguments.len() == n);
            if n >= descriptor.arguments.len() {
                return ParseOutcome::Failed("too many command arguments".to_owned());
            }
            let expected = replace_char(&descriptor.arguments[n].name, '_', '-');
            let name = strip_dashes(word);
            if !same_text(&expected, &name) {
                let mut message = join("expected --", &expected);
                message.append(", got ");
                message.append(word);
                return ParseOutcome::Failed(message);
            }
            if count - at < 2 {
                return ParseOutcome::Failed(join(word, " requires a value"));
            }
            let ghost listed = read.arguments@;
            read.arguments.push(raw[at + 1].clone());
            assert(texts(read.arguments@) =~= texts(listed).push(raw@[at + 1]@));
            at = at + 2;
        } else {
            let ghost listed = read.arguments@;
            read.arguments.push(word.clone());
            assert(texts(read.arguments@) =~= texts(listed).push(word@));
            at = at + 1;
        }
    }
    assert(all.skip(at as int).len() == 0);
    let got = read.arguments.len();
    assert(read.parsed().arguments.len() == got);
    if got != descriptor.arguments.len() {
        return ParseOutcome::Failed(count_error(descriptor, got));
    }
    ParseOutcome::Done(read)
}

/// The name of a kind of value.
pub open spec fn type_label(value_type: ArgumentType) -> Seq<char> {
    match value_type {
        ArgumentType::Text => "STRING"@,
        ArgumentType::Integer => "INTEGER"@,
        ArgumentType::Number => "NUMBER"@,
    }
}

/// The line of help for an argument.
pub open spec fn argument_help(argument: CliArgument) -> Seq<char> {
    let name = "  --"@ + replaced(argument.name@, '_', '-');
    if argument.choices@.len() == 0 {
        name + " "@ + type_label(argument.value_type)
    } else {
        name + " <"@ + joined(texts(argument.choices@), "|"@) + ">"@
    }
}

/// The lines of help for arguments.
pub open spec fn arguments_help(arguments: Seq<CliArgument>) -> Seq<Seq<char>> {
    arguments.map_values(|a: CliArgument| argument_help(a))
}

/// The lines of help for a command.
pub open spec fn help(path: Seq<char>, descriptor: CliDescriptor) -> Seq<Seq<char>> {
    let lines = seq![path + " \u{2014} "@ + descriptor.title@, descriptor.description@]
        + arguments_help(descriptor.arguments@);
    let lines = if descriptor.target is Some {
        lines.push("  --target HANDLE@GENERATION"@)
    } else {
        lines
    };
    if descriptor.destructive {
        lines.push("  --yes"@)
    } else {
        lines
    }
}

fn argument_line(argument: &CliArgument) -> (out: String)
    ensures
        out@ == argument_help(*argument),
{
    let name = replace_char(&argument.name, '_', '-');
    let mut out = join("  --", &name);
    if argument.choices.len() == 0 {
        out.append(" ");
        let label = match argument.value_type {
            ArgumentType::Text => "STRING",
            ArgumentType::Integer => "INTEGER",
            ArgumentType::Number => "NUMBER",
        };
        out.append(label);
    } else {
        out.append(" <");
        let choices = join_all(argument.choices.as_slice(), "|");
        out.append(&choices);
        out.append(">");
    }
    out
}

/// The lines of help for a command.
pub fn dynamic_help(path: &str, descriptor: &CliDescriptor) -> (out: Vec<String>)
    ensures
        texts(out@) == help(path@, *descriptor),
{
    let start = join(path, " \u{2014} ");
    let title = join(&start, &descriptor.title);
    let mut out = vec![title, descriptor.description.clone()];
    let ghost head = seq![path@ + " \u{2014} "@ + descriptor.title@, descriptor.description@];
    let ghost all = arguments_help(descriptor.arguments@);
    let mut i: usize = 0;
    assert(texts(out@) =~= head + all.take(0));
    while i < descriptor.arguments.len()
        invariant
            i <= descriptor.arguments@.len(),
            all == arguments_help(descriptor.arguments@),
            texts(out@) == head + all.take(i as int),
        decreases descriptor.arguments@.len() - i,
    {
        let ghost before = out@;
        let line = argument_line(&descriptor.arguments[i]);
        out.push(line);
        proof {
            assert(texts(out@) =~= texts(before).push(all[i as int]));
            assert(all.take(i + 1) =~= all.take(i as int).push(all[i as int]));
            assert(texts(out@) =~= head + all.take(i + 1));
        }
        i = i + 1;
    }
    assert(all.take(i as int) =~= all);
    if descriptor.target.is_some() {
        let ghost before = out@;
        out.push("  --target HANDLE@GENERATION".to_owned());
        assert(texts(out@) =~= texts(before).push("  --target HANDLE@GENERATION"@));
    }
    if descriptor.destructive {
        let ghost before = out@;
        out.push("  --yes".to_owned());
        assert(texts(out@) =~= texts(before).push("  --yes"@));
    }
    out
}

/// No failure leaves with the exit code of success.
pub proof fn failures_are_seen(code: i64, outcome: Option<InvokeOutcome>)
    ensures
        rpc_exit(code) != 0,
        outcome_exit(outcome) matches Some((exit, _)) ==> exit != 0,
        outcome_exit(outcome) is None <==> outcome is None || outcome.unwrap() is Success,
{
}

/// A command fails with an exit code that tells how: a wrong request, a denial, or no answer.
pub proof fn requests_exit_by_cause(code: i64)
    ensures
        code == -32700 || code == -32600 || code == -32601 || code == -32602 ==> rpc_exit(code) == 2,
        code == -32006 ==> rpc_exit(code) == 6,
        code != -32700 && code != -32600 && code != -32601 && code != -32602 && code != -32006
            ==> rpc_exit(code) == 4,
{
}

/// An outcome other than success ends with its message and an exit code of its own kind.
pub proof fn outcomes_exit_by_kind(outcome: InvokeOutcome)
    ensures
        outcome is Success ==> outcome_exit(Some(outcome)) is None,
        outcome matches InvokeOutcome::Unsupported { message } ==> outcome_exit(Some(outcome))
            == Some((7u8, message@)),
        outcome matches InvokeOutcome::Unavailable { message } ==> outcome_exit(Some(outcome))
            == Some((7u8, message@)),
        outcome matches InvokeOutcome::Denied { message } ==> outcome_exit(Some(outcome)) == Some(
            (6u8, message@),
        ),
        outcome matches InvokeOutcome::StaleTarget { message } ==> outcome_exit(Some(outcome))
            == Some((8u8, message@)),
        outcome is ConfirmationRequired ==> outcome_exit(Some(outcome)) == Some(
            (5u8, "command requires confirmation"@),
        ),
        outcome matches InvokeOutcome::Failed { message } ==> outcome_exit(Some(outcome)) == Some(
            (9u8, message@),
        ),
{
}

proof fn last_is_at(before: Seq<char>, sep: char, after: Seq<char>)
    requires
        !after.contains(sep),
    ensures
        last_at(before + seq![sep] + after, sep) == before.len(),
        behind_last(before + seq![sep] + after, sep) == after,
    decreases after.len(),
{
    let all = before + seq![sep] + after;
    if after.len() > 0 {
        let rest = after.drop_last();
        assert(after.contains(after.last()));
        assert(all.last() == after.last());
        assert(all.drop_last() =~= before + seq![sep] + rest);
        assert(!rest.contains(sep)) by {
            if rest.contains(sep) {
                let i = choose|i: int| 0 <= i < rest.len() && rest[i] == sep;
                assert(after[i] == sep);
            }
        }
        last_is_at(before, sep, rest);
        assert(rest.push(after.last()) =~= after);
    } else {
        assert(all.last() == sep);
        assert(after =~= Seq::<char>::empty());
    }
}

/// A command with a dotted name that is not known is tried again by what follows the last dot, and in no
/// other case.
pub proof fn dotted_names_are_tried_again(before: Seq<char>, after: Seq<char>, error: Option<i64>)
    requires
        !after.contains('.'),
    ensures
        other_name(before + seq!['.'] + after, Some(-32602i64)) == Some(after),
        other_name(after, error) is None,
        error != Some(-32602i64) ==> other_name(before + seq!['.'] + after, error) is None,
{
    let name = before + seq!['.'] + after;
    last_is_at(before, '.', after);
    assert(name[before.len() as int] == '.');
}

/// A target is written as its handle, an at sign and its generation, and is of the kind that the command
/// takes.
pub proof fn targets_are_read(kind: ResourceKind, handle: Seq<char>, generation: u64)
    ensures
        target_in(Some(kind), handle + seq!['@'] + decimal(generation as nat)) == Ok::<
            TargetId,
            Seq<char>,
        >((kind, handle, generation)),
        target_in(None, handle) is Err,
        !handle.contains('@') ==> target_in(Some(kind), handle) is Err,
{
    let digits = decimal(generation as nat);
    decimal_reads_back(generation as nat, u64::MAX as nat);
    assert(!digits.contains('@')) by {
        if digits.contains('@') {
            let i = choose|i: int| 0 <= i < digits.len() && digits[i] == '@';
            assert('0' <= digits[i] && digits[i] <= '9');
        }
    }
    last_is_at(handle, '@', digits);
    let value = handle + seq!['@'] + digits;
    assert(value.skip(handle.len() as int + 1) =~= digits);
    assert(value.take(handle.len() as int) =~= handle);
    if !handle.contains('@') {
        last_is_nowhere(handle, '@');
    }
}

proof fn last_is_nowhere(s: Seq<char>, sep: char)
    requires
        !s.contains(sep),
    ensures
        last_at(s, sep) == -1,
    decreases s.len(),
{
    if s.len() > 0 {
        let rest = s.drop_last();
        assert(s.contains(s.last()));
        assert(!rest.contains(sep)) by {
            if rest.contains(sep) {
                let i = choose|i: int| 0 <= i < rest.len() && rest[i] == sep;
                assert(s[i] == sep);
            }
        }
        last_is_nowhere(rest, sep);
    }
}

/// The values of a list are arguments exactly where all of them are strings or numbers, and then in their
/// order and as they are written.
pub proof fn listed_arguments_are_scalars(items: Seq<JsonItemView>)
    ensures
        match arguments_of(items) {
            Some(list) => {
                &&& list.len() == items.len()
                &&& forall|i: int|
                    0 <= i < items.len() ==> #[trigger] items[i] == JsonItemView::Text(list[i])
                        || items[i] == JsonItemView::Number(list[i])
            },
            None => exists|i: int|
                0 <= i < items.len() && !(#[trigger] items[i] is Text) && !(items[i] is Number),
        },
    decreases items.len(),
{
    if items.len() > 0 {
        let rest = items.drop_last();
        let n = items.len() - 1;
        listed_arguments_are_scalars(rest);
        assert(items.last() == items[n]);
        match arguments_of(items) {
            Some(list) => {
                let before = arguments_of(rest)->Some_0;
                assert forall|i: int| 0 <= i < items.len() implies #[trigger] items[i]
                    == JsonItemView::Text(list[i]) || items[i] == JsonItemView::Number(
                    list[i],
                ) by {
                    if i < n {
                        assert(rest[i] == items[i]);
                        assert(list[i] == before[i]);
                    }
                }
            },
            None => {
                if arguments_of(rest) is None {
                    let i = choose|i: int|
                        0 <= i < rest.len() && !(#[trigger] rest[i] is Text) && !(rest[i]
                            is Number);
                    assert(items[i] == rest[i]);
                }
            },
        }
    }
}

/// What is read of a command line has as many arguments as the command takes.
pub proof fn commands_get_their_arguments(
    descriptor: CliDescriptor,
    raw: Seq<Seq<char>>,
    inputs: Seq<Seq<char>>,
    read: ParsedView,
)
    ensures
        parse_rest(descriptor, raw, inputs, read) matches ParseView::Done(done)
            ==> done.arguments.len() == descriptor.arguments@.len() && done.arguments.len()
            >= read.arguments.len() && done.arguments.take(read.arguments.len() as int)
            == read.arguments && (read.confirmed ==> done.confirmed) && (read.target is Some
            ==> done.target is Some),
    decreases raw.len(),
{
    let n = read.arguments.len() as int;
    if raw.len() == 0 {
        assert(read.arguments.take(n) =~= read.arguments);
    } else if raw[0] == "--yes"@ {
        commands_get_their_arguments(
            descriptor,
            raw.skip(1),
            inputs,
            ParsedView { confirmed: true, ..read },
        );
    } else if raw[0] == "--target"@ {
        if raw.len() >= 2 && target_in(descriptor.target, raw[1]) is Ok {
            let id = target_in(descriptor.target, raw[1])->Ok_0;
            commands_get_their_arguments(
                descriptor,
                raw.skip(2),
                inputs,
                ParsedView { target: Some(id), ..read },
            );
        }
    } else if raw[0] == "--stdin-json"@ {
        if inputs.len() > 0 && arguments_in(json_list_reading(inputs[0])) is Ok {
            let list = arguments_in(json_list_reading(inputs[0]))->Ok_0;
            let next = ParsedView { arguments: read.arguments + list, ..read };
            commands_get_their_arguments(descriptor, raw.skip(1), inputs.skip(1), next);
            assert(next.arguments.take(n) =~= read.arguments);
            same_beginning(descriptor, raw.skip(1), inputs.skip(1), next, read.arguments);
        }
    } else if starts_with(raw[0], "--"@) {
        if raw.len() >= 2 {
            let next = ParsedView { arguments: read.arguments.push(raw[1]), ..read };
            commands_get_their_arguments(descriptor, raw.skip(2), inputs, next);
            assert(next.arguments.take(n) =~= read.arguments);
            same_beginning(descriptor, raw.skip(2), inputs, next, read.arguments);
        }
    } else {
        let next = ParsedView { arguments: read.arguments.push(raw[0]), ..read };
        commands_get_their_arguments(descriptor, raw.skip(1), inputs, next);
        assert(next.arguments.take(n) =~= read.arguments);
        same_beginning(descriptor, raw.skip(1), inputs, next, read.arguments);
    }
}

proof fn same_beginning(
    descriptor: CliDescriptor,
    raw: Seq<Seq<char>>,
    inputs: Seq<Seq<char>>,
    next: ParsedView,
    first: Seq<Seq<char>>,
)
    requires
        first.len() <= next.arguments.len(),
        next.arguments.take(first.len() as int) == first,
    ensures
        parse_rest(descriptor, raw, inputs, next) matches ParseView::Done(done) ==> (
        done.arguments.len() >= next.arguments.len() && done.arguments.take(
            next.arguments.len() as int,
        ) == next.arguments ==> done.arguments.take(first.len() as int) == first),
{
    if parse_rest(descriptor, raw, inputs, next) is Done {
        let done = parse_rest(descriptor, raw, inputs, next)->Done_0;
        let m = next.arguments.len() as int;
        let n = first.len() as int;
        if done.arguments.len() >= m && done.arguments.take(m) == next.arguments {
            assert(done.arguments.take(n) =~= done.arguments.take(m).take(n));
        }
    }
}

proof fn plain_are_taken(
    descriptor: CliDescriptor,
    raw: Seq<Seq<char>>,
    inputs: Seq<Seq<char>>,
    read: ParsedView,
)
    requires
        forall|i: int| 0 <= i < raw.len() ==> !starts_with(#[trigger] raw[i], "--"@),
    ensures
        ({
            let all = read.arguments + raw;
            parse_rest(descriptor, raw, inputs, read) == if all.len()
                == descriptor.arguments@.len() {
                ParseView::Done(ParsedView { arguments: all, ..read })
            } else {
                ParseView::Failed(count_message(descriptor, all.len()))
            }
        }),
    decreases raw.len(),
{
    if raw.len() == 0 {
        assert(read.arguments + raw =~= read.arguments);
    } else {
        reveal_strlit("--");
        reveal_strlit("--yes");
        reveal_strlit("--target");
        reveal_strlit("--stdin-json");
        assert("--yes"@.take(2) =~= "--"@);
        assert("--target"@.take(2) =~= "--"@);
        assert("--stdin-json"@.take(2) =~= "--"@);
        assert(!starts_with(raw[0], "--"@));
        let rest = raw.skip(1);
        let next = ParsedView { arguments: read.arguments.push(raw[0]), ..read };
        assert forall|i: int| 0 <= i < rest.len() implies !starts_with(#[trigger] rest[i], "--"@) by {
            assert(rest[i] == raw[i + 1]);
        }
        plain_are_taken(descriptor, rest, inputs, next);
        assert(next.arguments + rest =~= read.arguments + raw);
    }
}

/// A command line without options gives the arguments as they stand, where there are as many as the
/// command takes; with another number of them it is refused.
pub proof fn plain_arguments_are_taken(
    descriptor: CliDescriptor,
    raw: Seq<Seq<char>>,
    inputs: Seq<Seq<char>>,
)
    requires
        forall|i: int| 0 <= i < raw.len() ==> !starts_with(#[trigger] raw[i], "--"@),
    ensures
        raw.len() == descriptor.arguments@.len() ==> parse(descriptor, raw, inputs)
            == ParseView::Done(ParsedView { arguments: raw, target: None, confirmed: false }),
        raw.len() != descriptor.arguments@.len() ==> parse(descriptor, raw, inputs)
            == ParseView::Failed(
            "command "@ + descriptor.id@ + " expects "@ + decimal(descriptor.arguments@.len())
                + " argument(s), got "@ + decimal(raw.len()),
        ),
{
    let read = ParsedView { arguments: Seq::empty(), target: None, confirmed: false };
    plain_are_taken(descriptor, raw, inputs, read);
    assert(read.arguments + raw =~= raw);
}

/// What was read, confirmed or with another target where none was given.
pub open spec fn with_choices(result: ParseView, target: Option<TargetId>, confirmed: bool) -> ParseView {
    match result {
        ParseView::Done(done) => ParseView::Done(
            ParsedView {
                arguments: done.arguments,
                target: match done.target {
                    Some(own) => Some(own),
                    None => target,
                },
                confirmed: done.confirmed || confirmed,
            },
        ),
        _ => result,
    }
}

proof fn choices_are_kept(
    descriptor: CliDescriptor,
    raw: Seq<Seq<char>>,
    inputs: Seq<Seq<char>>,
    read: ParsedView,
    target: Option<TargetId>,
    confirmed: bool,
)
    requires
        read.target is None || target is None,
    ensures
        parse_rest(
            descriptor,
            raw,
            inputs,
            ParsedView {
                arguments: read.arguments,
                target: if read.target is Some {
                    read.target
                } else {
                    target
                },
                confirmed: read.confirmed || confirmed,
            },
        ) == with_choices(parse_rest(descriptor, raw, inputs, read), target, confirmed),
    decreases raw.len(),
{
    let other = ParsedView {
        arguments: read.arguments,
        target: if read.target is Some {
            read.target
        } else {
            target
        },
        confirmed: read.confirmed || confirmed,
    };
    if raw.len() == 0 {
    } else if raw[0] == "--yes"@ {
        choices_are_kept(
            descriptor,
            raw.skip(1),
            inputs,
            ParsedView { confirmed: true, ..read },
            target,
            confirmed,
        );
        assert((ParsedView { confirmed: true, ..other }).confirmed);
    } else if raw[0] == "--target"@ {
        if raw.len() >= 2 && target_in(descriptor.target, raw[1]) is Ok {
            let id = target_in(descriptor.target, raw[1])->Ok_0;
            let next = ParsedView { target: Some(id), ..read };
            choices_are_kept(descriptor, raw.skip(2), inputs, next, None, confirmed);
            commands_get_their_arguments(descriptor, raw.skip(2), inputs, next);
        }
    } else if raw[0] == "--stdin-json"@ {
        if inputs.len() > 0 && arguments_in(json_list_reading(inputs[0])) is Ok {
            let list = arguments_in(json_list_reading(inputs[0]))->Ok_0;
            choices_are_kept(
                descriptor,
                raw.skip(1),
                inputs.skip(1),
                ParsedView { arguments: read.arguments + list, ..read },
                target,
                confirmed,
            );
        }
    } else if starts_with(raw[0], "--"@) {
        if raw.len() >= 2 {
            choices_are_kept(
                descriptor,
                raw.skip(2),
                inputs,
                ParsedView { arguments: read.arguments.push(raw[1]), ..read },
                target,
                confirmed,
            );
        }
    } else {
        choices_are_kept(
            descriptor,
            raw.skip(1),
            inputs,
            ParsedView { arguments: read.arguments.push(raw[0]), ..read },
            target,
            confirmed,
        );
    }
}

/// A command line that begins with `--yes` is read as without it, and confirms the command. One that begins
/// with a target is read as without it, and the command gets that target where none follows.
pub proof fn options_add_to_the_command(
    descriptor: CliDescriptor,
    raw: Seq<Seq<char>>,
    inputs: Seq<Seq<char>>,
    handle: Seq<char>,
    generation: u64,
)
    ensures
        parse(descriptor, seq!["--yes"@] + raw, inputs) == with_choices(
            parse(descriptor, raw, inputs),
            None,
            true,
        ),
        descriptor.target matches Some(kind) ==> parse(
            descriptor,
            seq!["--target"@, handle + seq!['@'] + decimal(generation as nat)] + raw,
            inputs,
        ) == with_choices(
            parse(descriptor, raw, inputs),
            Some((kind, handle, generation)),
            false,
        ),
        descriptor.target is None ==> parse(
            descriptor,
            seq!["--target"@, handle] + raw,
            inputs,
        ) is Failed,
{
    reveal_strlit("--yes");
    reveal_strlit("--target");
    assert("--yes"@.len() == 5);
    assert("--target"@.len() == 8);
    let read = ParsedView { arguments: Seq::empty(), target: None, confirmed: false };
    let yes = seq!["--yes"@] + raw;
    assert(yes.skip(1) =~= raw);
    assert(yes[0] == "--yes"@);
    choices_are_kept(descriptor, raw, inputs, read, None, true);
    let value = handle + seq!['@'] + decimal(generation as nat);
    let aimed = seq!["--target"@, value] + raw;
    assert(aimed.skip(2) =~= raw);
    assert(aimed[0] == "--target"@ && aimed[1] == value);
    let plain = seq!["--target"@, handle] + raw;
    assert(plain[0] == "--target"@ && plain[1] == handle);
    if descriptor.target is Some {
        targets_are_read(descriptor.target->Some_0, handle, generation);
        choices_are_kept(
            descriptor,
            raw,
            inputs,
            read,
            Some((descriptor.target->Some_0, handle, generation)),
            false,
        );
    }
}

/// An argument can be given under its name, written with hyphens; it is then what it would be without the
/// name. Under another name it is refused.
pub proof fn named_arguments_are_taken(
    descriptor: CliDescriptor,
    name: Seq<char>,
    value: Seq<char>,
    raw: Seq<Seq<char>>,
    inputs: Seq<Seq<char>>,
    read: ParsedView,
)
    requires
        read.arguments.len() < descriptor.arguments@.len(),
        !starts_with(value, "--"@),
        name.len() > 0,
        name[0] != '-',
        "--"@ + name != "--yes"@,
        "--"@ + name != "--target"@,
        "--"@ + name != "--stdin-json"@,
    ensures
        ({
            let expected = descriptor.arguments@[read.arguments.len() as int].name@;
            let named = parse_rest(
                descriptor,
                seq!["--"@ + name, value] + raw,
                inputs,
                read,
            );
            let same = name.len() == expected.len() && forall|i: int|
                0 <= i < name.len() ==> #[trigger] name[i] == if expected[i] == '_' {
                    '-'
                } else {
                    expected[i]
                };
            &&& same ==> named == parse_rest(descriptor, seq![value] + raw, inputs, read)
            &&& !same ==> named is Failed
        }),
{
    reveal_strlit("--");
    reveal_strlit("--yes");
    reveal_strlit("--target");
    reveal_strlit("--stdin-json");
    assert("--yes"@.take(2) =~= "--"@);
    assert("--target"@.take(2) =~= "--"@);
    assert("--stdin-json"@.take(2) =~= "--"@);
    let option = "--"@ + name;
    let line = seq![option, value] + raw;
    let plain = seq![value] + raw;
    assert(line[0] == option && line[1] == value && plain[0] == value);
    assert(line.skip(2) =~= raw);
    assert(plain.skip(1) =~= raw);
    assert(option.take(2) =~= "--"@);
    assert(option[0] == '-' && option[1] == '-');
    assert(option.skip(2) =~= name);
    assert(without_dashes(option) == without_dashes(name));
    assert(without_dashes(name) == name);
    let expected = descriptor.arguments@[read.arguments.len() as int].name@;
    let shown = replaced(expected, '_', '-');
    if shown == name {
        assert forall|i: int| 0 <= i < name.len() implies #[trigger] name[i] == if expected[i]
            == '_' {
            '-'
        } else {
            expected[i]
        } by {
            assert(shown[i] == name[i]);
        }
    }
    if name.len() == expected.len() && forall|i: int|
        0 <= i < name.len() ==> #[trigger] name[i] == if expected[i] == '_' {
            '-'
        } else {
            expected[i]
        } {
        assert(shown =~= name);
    }
}

/// Help shows the title, the description, a line for each argument in order, and an option for a target and
/// for a confirmation where the command takes them.
pub proof fn help_shows_the_command(path: Seq<char>, descriptor: CliDescriptor, i: int)
    ensures
        ({
            let lines = help(path, descriptor);
            let n = descriptor.arguments@.len();
            &&& lines.len() == 2 + n + (if descriptor.target is Some {
                1nat
            } else {
                0nat
            }) + (if descriptor.destructive {
                1nat
            } else {
                0nat
            })
            &&& lines[0] == path + " \u{2014} "@ + descriptor.title@
            &&& lines[1] == descriptor.description@
            &&& 0 <= i < n ==> lines[2 + i] == argument_help(descriptor.arguments@[i])
            &&& descriptor.target is Some ==> lines[2 + n as int] == "  --target HANDLE@GENERATION"@
            &&& descriptor.destructive ==> lines.last() == "  --yes"@
        }),
{
    let first = seq![path + " \u{2014} "@ + descriptor.title@, descriptor.description@];
    let shown = arguments_help(descriptor.arguments@);
    let lines = first + shown;
    assert(lines.len() == 2 + descriptor.arguments@.len());
    if 0 <= i < descriptor.arguments@.len() {
        assert(lines[2 + i] == shown[i]);
    }
}

/// The line of an argument shows its name, written with hyphens, and what it takes: one of its choices, or
/// a value of its type.
pub proof fn help_shows_what_is_taken(argument: CliArgument)
    ensures
        argument.choices@.len() == 0 ==> argument_help(argument) == "  --"@ + replaced(
            argument.name@,
            '_',
            '-',
        ) + " "@ + match argument.value_type {
            ArgumentType::Text => "STRING"@,
            ArgumentType::Integer => "INTEGER"@,
            ArgumentType::Number => "NUMBER"@,
        },
        argument.choices@.len() > 0 ==> argument_help(argument) == "  --"@ + replaced(
            argument.name@,
            '_',
            '-',
        ) + " <"@ + joined(texts(argument.choices@), "|"@) + ">"@,
{
}

/// An item of a list is shown by its id where it has one.
pub proof fn items_are_shown_by_id(items: Seq<Json>, i: int)
    ensures
        text_field(items[i], "id"@) matches Some(id) ==> item_line(items, i)
            == ResponseLineView::Text(id),
        text_field(items[i], "id"@) is None ==> item_line(items, i) == ResponseLineView::Item(i),
{
}

}
