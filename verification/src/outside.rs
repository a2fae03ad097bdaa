//! The calls that leave this crate.
//!
//! Each function here makes one call whose result is believed, not proved. Its documentation says
//! what is believed.

use vstd::prelude::*;
use vstd::utf8::{decode_utf8, valid_utf8};
use crate::text::hex_number;

verus! {

/// What `String::from_utf8_lossy` makes of bytes.
pub uninterp spec fn utf8_lossy(bytes: Seq<u8>) -> Seq<char>;

/// `String::from_utf8_lossy`: valid UTF-8 is decoded, and what is not valid is replaced. The
/// replacement is a function of the bytes; what it is exactly is left unsaid.
#[verifier::external_body]
pub(crate) fn decode_lossy(bytes: &[u8]) -> (out: String)
    ensures
        out@ == utf8_lossy(bytes@),
        valid_utf8(bytes@) ==> out@ == decode_utf8(bytes@),
{
    String::from_utf8_lossy(bytes).into_owned()
}

/// What `serde_json` makes of a text: the value in compact form, or the message of the error.
pub uninterp spec fn json_reading(text: Seq<char>) -> Result<Seq<char>, Seq<char>>;

/// `serde_json::from_str` into a `serde_json::Value`, which is handed out in its compact text form
/// (`Value`'s `Display`). The result is a function of the text alone; which texts are JSON is left
/// unsaid.
#[verifier::external_body]
pub(crate) fn read_json(text: &str) -> (out: Result<String, String>)
    ensures
        match out {
            Ok(compact) => json_reading(text@) == Ok::<Seq<char>, Seq<char>>(compact@),
            Err(message) => json_reading(text@) == Err::<Seq<char>, Seq<char>>(message@),
        },
{
    match serde_json::from_str::<serde_json::Value>(text) {
        Ok(value) => Ok(value.to_string()),
        Err(error) => Err(error.to_string()),
    }
}

/// What `serde_json` makes of bytes: the value in compact form, or the message of the error.
pub uninterp spec fn json_reading_bytes(bytes: Seq<u8>) -> Result<Seq<char>, Seq<char>>;

/// `serde_json::from_slice` into a `serde_json::Value`, which is handed out in its compact text form
/// (`Value`'s `Display`). The result is a function of the bytes alone; which bytes are JSON is left
/// unsaid.
#[verifier::external_body]
pub(crate) fn read_json_bytes(bytes: &[u8]) -> (out: Result<String, String>)
    ensures
        match out {
            Ok(compact) => json_reading_bytes(bytes@) == Ok::<Seq<char>, Seq<char>>(compact@),
            Err(message) => json_reading_bytes(bytes@) == Err::<Seq<char>, Seq<char>>(message@),
        },
{
    match serde_json::from_slice::<serde_json::Value>(bytes) {
        Ok(value) => Ok(value.to_string()),
        Err(error) => Err(error.to_string()),
    }
}

/// The message with which Luau refuses to compile a source under a name; `None` where it compiles.
pub uninterp spec fn luau_refusal(source: Seq<char>, name: Seq<char>) -> Option<Seq<char>>;

/// `mlua`: compiles a chunk of text under a name in a fresh Luau state, without running it
/// (`Lua::load`, `Chunk::set_name`, `Chunk::set_mode`, `Chunk::into_function`). A source that begins
/// like compiled code is refused and not looked into. Whether a source compiles, and the message of
/// the error where it does not, are functions of the source and the name; which sources compile is
/// left unsaid.
#[verifier::external_body]
pub(crate) fn compile_luau(source: &str, name: &str) -> (out: Result<(), String>)
    ensures
        match out {
            Ok(_) => luau_refusal(source@, name@) is None,
            Err(message) => luau_refusal(source@, name@) == Some(message@),
        },
{
    let text = mlua::chunk::ChunkMode::Text;
    match mlua::Lua::new().load(source).set_name(name).set_mode(text).into_function() {
        Ok(_) => Ok(()),
        Err(error) => Err(error.to_string()),
    }
}

/// The number that std's default hasher gives a text.
pub uninterp spec fn text_hash(text: Seq<char>) -> u64;

/// `BuildHasher::hash_one` of a `str`, with std's default hasher. All of them have the same keys, and
/// a text is fed to them as its bytes and one more, so the number is a function of the text. Which
/// number it is, is left unsaid: std leaves the algorithm open from release to release.
#[verifier::external_body]
pub(crate) fn hash_text(text: &str) -> (out: u64)
    ensures
        out == text_hash(text@),
{
    let keys = std::hash::BuildHasherDefault::<std::hash::DefaultHasher>::default();
    std::hash::BuildHasher::hash_one(&keys, text)
}

/// The message with which `String::from_utf8` refuses bytes.
pub uninterp spec fn utf8_refusal(bytes: Seq<u8>) -> Seq<char>;

/// `String::from_utf8`: valid UTF-8 is decoded, and anything else is refused. The message
/// (`FromUtf8Error`'s `Display`) is a function of the bytes; what it says is left unsaid.
#[verifier::external_body]
pub(crate) fn decode_exact(bytes: Vec<u8>) -> (out: Result<String, String>)
    ensures
        match out {
            Ok(text) => valid_utf8(bytes@) && text@ == decode_utf8(bytes@),
            Err(message) => !valid_utf8(bytes@) && message@ == utf8_refusal(bytes@),
        },
{
    String::from_utf8(bytes).map_err(|error| error.to_string())
}

/// The message with which `usize::from_str_radix` refuses a text that is to be hexadecimal.
pub uninterp spec fn hexadecimal_refusal(text: Seq<char>) -> Seq<char>;

/// `usize::from_str_radix` with radix 16: reads at least one hexadecimal digit, in either case, with
/// at most one `+` before, and refuses everything else and numbers that do not fit. The message
/// (`ParseIntError`'s `Display`) is a function of the text; what it says is left unsaid.
#[verifier::external_body]
pub(crate) fn read_hexadecimal(text: &str) -> (out: Result<usize, String>)
    ensures
        match out {
            Ok(n) => hex_number(text@, usize::MAX as nat) == Some(n as nat),
            Err(message) => hex_number(text@, usize::MAX as nat) is None && message@
                == hexadecimal_refusal(text@),
        },
{
    usize::from_str_radix(text, 16).map_err(|error| error.to_string())
}

/// What `serde_json` makes of a text that is to be a truth value, or the message of the error.
pub uninterp spec fn json_bool_reading(text: Seq<char>) -> Result<bool, Seq<char>>;

/// `serde_json::from_str` into a `bool`. The result is a function of the text alone; which texts
/// give which value is left unsaid.
#[verifier::external_body]
pub(crate) fn read_json_bool(text: &str) -> (out: Result<bool, String>)
    ensures
        match out {
            Ok(value) => json_bool_reading(text@) == Ok::<bool, Seq<char>>(value),
            Err(message) => json_bool_reading(text@) == Err::<bool, Seq<char>>(message@),
        },
{
    serde_json::from_str::<bool>(text).map_err(|error| error.to_string())
}

/// What `serde_json` makes of a text that is to be a string, or the message of the error.
pub uninterp spec fn json_text_reading(text: Seq<char>) -> Result<Seq<char>, Seq<char>>;

/// `serde_json::from_str` into a `String`. The result is a function of the text alone; which texts
/// are strings, and of what, is left unsaid.
#[verifier::external_body]
pub(crate) fn read_json_text(text: &str) -> (out: Result<String, String>)
    ensures
        match out {
            Ok(value) => json_text_reading(text@) == Ok::<Seq<char>, Seq<char>>(value@),
            Err(message) => json_text_reading(text@) == Err::<Seq<char>, Seq<char>>(message@),
        },
{
    serde_json::from_str::<String>(text).map_err(|error| error.to_string())
}

/// One value of a JSON list: its kind, and its text where it is a string or a number.
#[derive(Debug)]
pub enum JsonItem {
    Null,
    Bool,
    Number(String),
    Text(String),
    Array,
    Object,
}

/// One value of a JSON list, with its text as a sequence.
pub enum JsonItemView {
    Null,
    Bool,
    Number(Seq<char>),
    Text(Seq<char>),
    Array,
    Object,
}

impl View for JsonItem {
    type V = JsonItemView;

    open spec fn view(&self) -> JsonItemView {
        match *self {
            JsonItem::Null => JsonItemView::Null,
            JsonItem::Bool => JsonItemView::Bool,
            JsonItem::Number(text) => JsonItemView::Number(text@),
            JsonItem::Text(text) => JsonItemView::Text(text@),
            JsonItem::Array => JsonItemView::Array,
            JsonItem::Object => JsonItemView::Object,
        }
    }
}

/// The values of a list, with their texts as sequences.
pub open spec fn item_views(items: Seq<JsonItem>) -> Seq<JsonItemView> {
    items.map_values(|item: JsonItem| item@)
}

/// What `serde_json` makes of a text that is to be a list of values, or the message of the error.
pub uninterp spec fn json_list_reading(text: Seq<char>) -> Result<Seq<JsonItemView>, Seq<char>>;

/// `serde_json::from_str` into a list of `serde_json::Value`, each handed out by its kind, with the
/// text of a string or a number (`Number`'s `Display`). The result is a function of the text alone;
/// which texts are lists, and of what, is left unsaid.
#[verifier::external_body]
pub(crate) fn read_json_list(text: &str) -> (out: Result<Vec<JsonItem>, String>)
    ensures
        match out {
            Ok(items) => json_list_reading(text@) == Ok::<Seq<JsonItemView>, Seq<char>>(
                item_views(items@),
            ),
            Err(message) => json_list_reading(text@) == Err::<Seq<JsonItemView>, Seq<char>>(message@),
        },
{
    let convert = |value| match value {
        serde_json::Value::Null => JsonItem::Null,
        serde_json::Value::Bool(_) => JsonItem::Bool,
        serde_json::Value::Number(number) => JsonItem::Number(number.to_string()),
        serde_json::Value::String(text) => JsonItem::Text(text),
        serde_json::Value::Array(_) => JsonItem::Array,
        serde_json::Value::Object(_) => JsonItem::Object,
    };
    match serde_json::from_str::<Vec<serde_json::Value>>(text) {
        Ok(values) => Ok(values.into_iter().map(convert).collect()),
        Err(error) => Err(error.to_string()),
    }
}

}
