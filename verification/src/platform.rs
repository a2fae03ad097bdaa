//! What differs from one desktop to another: notifications, the clipboard, the frame of the window.

use vstd::prelude::*;
use crate::text::{
    chars_of, decimal, decimal_is_injective, decimal_text, decimal_text_is_digits, find_char_is,
    join, texts,
};

verus! {

/// The desktops that are told apart.
#[derive(Clone, Copy, Debug, PartialEq, Eq, Structural)]
pub enum Platform {
    Macos,
    Linux,
    Other,
}

/// A program that is started on the desktop.
#[derive(Debug)]
pub struct DesktopCommand {
    pub program: &'static str,
    pub args: Vec<String>,
}

/// A character inside a quoted text of a script.
pub open spec fn escaped_char(c: char) -> Seq<char> {
    if c == '\\' || c == '"' {
        seq!['\\', c]
    } else {
        seq![c]
    }
}

/// The inside of a quoted text of a script.
pub open spec fn escaped(s: Seq<char>) -> Seq<char>
    decreases s.len(),
{
    if s.len() == 0 {
        Seq::empty()
    } else {
        escaped(s.drop_last()) + escaped_char(s.last())
    }
}

/// A text as a script quotes it.
pub open spec fn quoted(s: Seq<char>) -> Seq<char> {
    seq!['"'] + escaped(s) + seq!['"']
}

/// Quotes a text for a script: quotes and backslashes in it get a backslash.
pub fn osascript_quote(value: &str) -> (out: String)
    ensures
        out@ == quoted(value@),
{
    let chars = chars_of(value);
    let mut out = String::new();
    out.push('"');
    let mut i: usize = 0;
    assert(value@.take(0) =~= Seq::<char>::empty());
    assert(out@ =~= seq!['"'] + escaped(value@.take(0)));
    while i < chars.len()
        invariant
            i <= chars@.len(),
            chars@ == value@,
            out@ == seq!['"'] + escaped(value@.take(i as int)),
        decreases chars@.len() - i,
    {
        let ghost before = out@;
        let c = chars[i];
        if c == '\\' || c == '"' {
            out.push('\\');
        }
        out.push(c);
        proof {
            assert(value@.take(i + 1).drop_last() =~= value@.take(i as int));
            assert(value@.take(i + 1).last() == c);
            assert(out@ =~= before + escaped_char(c));
            assert(out@ =~= seq!['"'] + escaped(value@.take(i + 1)));
        }
        i = i + 1;
    }
    assert(value@.take(i as int) =~= value@);
    out.push('"');
    assert(out@ =~= quoted(value@));
    out
}

/// The script that shows a notification.
pub open spec fn notification_script(title: Seq<char>, body: Seq<char>) -> Seq<char> {
    "display notification "@ + quoted(body) + " with title "@ + quoted(title)
}

/// The program that shows a notification, where the desktop has one.
pub fn show_desktop_notification(platform: Platform, title: &str, body: &str) -> (out: Option<
    DesktopCommand,
>)
    ensures
        match platform {
            Platform::Macos => out matches Some(command) && command.program@ == "osascript"@
                && texts(command.args@) == seq!["-e"@, notification_script(title@, body@)],
            Platform::Linux => out matches Some(command) && command.program@ == "notify-send"@
                && texts(command.args@) == seq![title@, body@],
            Platform::Other => out is None,
        },
{
    match platform {
        Platform::Macos => {
            let mut script = join("display notification ", &osascript_quote(body));
            script.append(" with title ");
            let shown = osascript_quote(title);
            script.append(&shown);
            let args = vec!["-e".to_owned(), script];
            assert(texts(args@) =~= seq!["-e"@, notification_script(title@, body@)]);
            Some(DesktopCommand { program: "osascript", args })
        },
        Platform::Linux => {
            let args = vec![title.to_owned(), body.to_owned()];
            assert(texts(args@) =~= seq![title@, body@]);
            Some(DesktopCommand { program: "notify-send", args })
        },
        Platform::Other => None,
    }
}

/// The keys that open a tab.
pub fn new_tab_shortcut_trigger(platform: Platform) -> (out: &'static str)
    ensures
        out@ == (if platform == Platform::Macos {
            "cmd+t"@
        } else {
            "ctrl+shift+t"@
        }),
{
    match platform {
        Platform::Macos => "cmd+t",
        _ => "ctrl+shift+t",
    }
}

/// What the clipboard holds as text.
#[derive(Debug)]
pub enum ClipboardText {
    Text(String),
    /// Nothing that can be had as text.
    NotAvailable,
    Failed(String),
}

/// What is pasted.
#[derive(Debug)]
pub enum ClipboardStep {
    Paste(String),
    /// The clipboard is to be asked for an image.
    ReadImage,
    Failed(String),
}

/// What is pasted: the paths of copied files, or else a text, or else an image.
pub fn read_clipboard_text(paths: Option<String>, text: ClipboardText) -> (out: ClipboardStep)
    ensures
        out == (match paths {
            Some(list) => ClipboardStep::Paste(list),
            None => match text {
                ClipboardText::Text(t) => if t@.len() > 0 {
                    ClipboardStep::Paste(t)
                } else {
                    ClipboardStep::ReadImage
                },
                ClipboardText::NotAvailable => ClipboardStep::ReadImage,
                ClipboardText::Failed(error) => ClipboardStep::Failed(error),
            },
        }),
{
    match paths {
        Some(list) => ClipboardStep::Paste(list),
        None => match text {
            ClipboardText::Text(t) => {
                if t.unicode_len() > 0 {
                    ClipboardStep::Paste(t)
                } else {
                    ClipboardStep::ReadImage
                }
            },
            ClipboardText::NotAvailable => ClipboardStep::ReadImage,
            ClipboardText::Failed(error) => ClipboardStep::Failed(error),
        },
    }
}

/// The size of an image, where it can be written to a file; else what is wrong with it.
pub fn image_size(width: usize, height: usize) -> (out: Result<(u32, u32), &'static str>)
    ensures
        match out {
            Ok((w, h)) => w == width && h == height,
            Err(message) => if width > u32::MAX {
                message@ == "clipboard image width"@
            } else {
                height > u32::MAX && message@ == "clipboard image height"@
            },
        },
        width <= u32::MAX && height <= u32::MAX ==> out is Ok,
{
    if width > u32::MAX as usize {
        Err("clipboard image width")
    } else if height > u32::MAX as usize {
        Err("clipboard image height")
    } else {
        Ok((width as u32, height as u32))
    }
}

/// The name of the file that a pasted image is written to.
pub open spec fn image_name(process: u32, paste: u32) -> Seq<char> {
    "bootty-clipboard-"@ + decimal(process as nat) + "-"@ + decimal(paste as nat) + ".png"@
}

/// The name of the file that a pasted image is written to.
pub fn clipboard_image_name(process: u32, paste: u32) -> (out: String)
    ensures
        out@ == image_name(process, paste),
{
    let mut out = join("bootty-clipboard-", &decimal_text(process as u64));
    out.append("-");
    let count = decimal_text(paste as u64);
    out.append(&count);
    out.append(".png");
    out
}

/// Two pastes never go to the same file: the process tells the writers apart, and the count tells
/// the pastes of one writer apart.
pub proof fn pastes_are_apart(process: u32, paste: u32, other_process: u32, other_paste: u32)
    requires
        image_name(process, paste) == image_name(other_process, other_paste),
    ensures
        process == other_process,
        paste == other_paste,
{
    let head = "bootty-clipboard-"@;
    let dash = "-"@;
    let tail = ".png"@;
    reveal_strlit("-");
    let p = decimal(process as nat);
    let q = decimal(other_process as nat);
    let a = decimal(paste as nat);
    let b = decimal(other_paste as nat);
    let left = p + dash + a + tail;
    let right = q + dash + b + tail;
    assert(image_name(process, paste) =~= head + left);
    assert(image_name(other_process, other_paste) =~= head + right);
    assert(left =~= (head + left).skip(head.len() as int));
    assert(right =~= (head + right).skip(head.len() as int));
    assert(left == right);
    decimal_text_is_digits(process as nat);
    decimal_text_is_digits(other_process as nat);
    assert forall|j: int| 0 <= j < p.len() implies #[trigger] left[j] != '-' by {
        assert(left[j] == p[j]);
    }
    assert forall|j: int| 0 <= j < q.len() implies #[trigger] right[j] != '-' by {
        assert(right[j] == q[j]);
    }
    assert(left[p.len() as int] == '-');
    assert(right[q.len() as int] == '-');
    find_char_is(left, '-', p.len() as int);
    find_char_is(right, '-', q.len() as int);
    assert(p =~= left.take(p.len() as int));
    assert(q =~= right.take(q.len() as int));
    let rest = left.skip(p.len() as int + 1);
    assert(rest =~= a + tail);
    assert(rest =~= b + tail);
    assert(a =~= rest.take(rest.len() - tail.len()));
    assert(b =~= rest.take(rest.len() - tail.len()));
    decimal_is_injective(process as nat, other_process as nat);
    decimal_is_injective(paste as nat, other_paste as nat);
}

/// How the title bar of a window looks.
#[derive(Clone, Copy, Debug, PartialEq, Eq, Structural)]
pub enum MacosTitlebarStyle {
    Native,
    Transparent,
    Hidden,
}

/// What is set of the frame of a window; what is left out stays as the desktop has it.
#[derive(Clone, Copy, Debug, PartialEq, Eq, Structural)]
pub struct WindowFrame {
    pub title_shown: Option<bool>,
    pub titlebar_shown: Option<bool>,
    pub titlebar_buttons_shown: Option<bool>,
    pub fullsize_content_view: Option<bool>,
}

/// The frame that a style of title bar asks for.
pub fn window_frame(style: MacosTitlebarStyle) -> (out: WindowFrame)
    ensures
        out == (match style {
            MacosTitlebarStyle::Native => WindowFrame {
                title_shown: None,
                titlebar_shown: None,
                titlebar_buttons_shown: None,
                fullsize_content_view: None,
            },
            MacosTitlebarStyle::Transparent => WindowFrame {
                title_shown: Some(false),
                titlebar_shown: Some(false),
                titlebar_buttons_shown: None,
                fullsize_content_view: Some(true),
            },
            MacosTitlebarStyle::Hidden => WindowFrame {
                title_shown: Some(false),
                titlebar_shown: Some(false),
                titlebar_buttons_shown: Some(false),
                fullsize_content_view: Some(true),
            },
        }),
{
    match style {
        MacosTitlebarStyle::Native => WindowFrame {
            title_shown: None,
            titlebar_shown: None,
            titlebar_buttons_shown: None,
            fullsize_content_view: None,
        },
        MacosTitlebarStyle::Transparent => WindowFrame {
            title_shown: Some(false),
            titlebar_shown: Some(false),
            titlebar_buttons_shown: None,
            fullsize_content_view: Some(true),
        },
        MacosTitlebarStyle::Hidden => WindowFrame {
            title_shown: Some(false),
            titlebar_shown: Some(false),
            titlebar_buttons_shown: Some(false),
            fullsize_content_view: Some(true),
        },
    }
}

/// Whether the menu bar is hidden: the window fills the screen without the desktop's own full screen,
/// and is to hide the menu bar there.
pub fn hides_menu_bar(non_native_fullscreen: bool, hides_there: bool) -> (out: bool)
    ensures
        out == (non_native_fullscreen && hides_there),
{
    non_native_fullscreen && hides_there
}

/// Whether a window starts maximized: it fills the screen, and nothing else sees to that.
pub fn starts_maximized(
    non_native_fullscreen: bool,
    hides_there: bool,
    desktop_sets_frame: bool,
) -> (out: bool)
    ensures
        out == (non_native_fullscreen && !(hides_there && desktop_sets_frame)),
{
    non_native_fullscreen && !(hides_menu_bar(non_native_fullscreen, hides_there)
        && desktop_sets_frame)
}

/// Text is escaped character by character: a quote and a backslash get a backslash before them, and all
/// else stays.
pub proof fn quotes_are_escaped(a: Seq<char>, b: Seq<char>, c: char)
    ensures
        escaped(a + b) == escaped(a) + escaped(b),
        c == '"' || c == '\\' ==> escaped(seq![c]) == seq!['\\', c],
        c != '"' && c != '\\' ==> escaped(seq![c]) == seq![c],
    decreases b.len(),
{
    assert(seq![c].drop_last() =~= Seq::<char>::empty());
    assert(escaped(Seq::<char>::empty()) =~= Seq::<char>::empty());
    assert(escaped(seq![c]) =~= escaped_char(c));
    if b.len() > 0 {
        let all = a + b;
        assert(all.last() == b.last());
        assert(all.drop_last() =~= a + b.drop_last());
        quotes_are_escaped(a, b.drop_last(), c);
        assert(escaped(all) =~= escaped(a) + escaped(b));
    } else {
        assert(a + b =~= a);
        assert(escaped(a) + escaped(b) =~= escaped(a));
    }
}

proof fn plain_text_stays(s: Seq<char>)
    requires
        !s.contains('"'),
        !s.contains('\\'),
    ensures
        escaped(s) == s,
    decreases s.len(),
{
    if s.len() > 0 {
        let rest = s.drop_last();
        assert(s.contains(s.last()));
        assert forall|i: int| 0 <= i < rest.len() implies rest[i] != '"' && rest[i] != '\\' by {
            assert(s.contains(s[i]));
        }
        plain_text_stays(rest);
        assert(escaped(s) =~= s);
    }
}

/// A notification shows its body and, over it, its title.
pub proof fn notification_shows_its_text(title: Seq<char>, body: Seq<char>)
    requires
        !title.contains('"'),
        !title.contains('\\'),
        !body.contains('"'),
        !body.contains('\\'),
    ensures
        notification_script(title, body) == "display notification \""@ + body + "\" with title \""@
            + title + "\""@,
{
    plain_text_stays(title);
    plain_text_stays(body);
    reveal_strlit("display notification \"");
    reveal_strlit("display notification ");
    reveal_strlit("\" with title \"");
    reveal_strlit(" with title ");
    reveal_strlit("\"");
    assert("display notification \""@ =~= "display notification "@ + seq!['"']);
    assert("\" with title \""@ =~= seq!['"'] + " with title "@ + seq!['"']);
    assert("\""@ =~= seq!['"']);
    assert(notification_script(title, body) =~= "display notification \""@ + body
        + "\" with title \""@ + title + "\""@);
}

/// A pasted image has a name of its own, made of the process and the number of the paste.
pub proof fn pasted_images_are_numbered(process: u32, paste: u32)
    ensures
        image_name(process, paste) == "bootty-clipboard-"@ + decimal(process as nat) + "-"@
            + decimal(paste as nat) + ".png"@,
{
}

}
