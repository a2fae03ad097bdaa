//! Identifiers of packages, scopes, storage records and metadata namespaces.

use vstd::prelude::*;
use vstd::utf8::encode_utf8;
use super::error::ExtensionError;
use crate::text::{
    chars_of, decimal, decimal_is_injective, decimal_text, find_char, find_char_bounds, find_char_is,
    has_char, join, same_text, split, split_on, texts,
};

verus! {

/// A valid package identifier.
#[derive(Clone, Debug, PartialEq, Eq, PartialOrd, Ord)]
pub struct ExtensionPackageId(pub String);

/// One generation of a package: every reload makes the next.
#[derive(Clone, Debug, PartialEq, Eq, PartialOrd, Ord)]
pub struct ExtensionGeneration {
    pub extension_id: String,
    pub generation: u64,
}

/// The characters that may stand in a part of a package identifier.
pub open spec fn is_id_char(c: char) -> bool {
    ('a' <= c && c <= 'z') || ('A' <= c && c <= 'Z') || ('0' <= c && c <= '9') || c == '_' || c
        == '-'
}

/// A part of a package identifier: letters, digits, `_` and `-`, at least one.
pub open spec fn is_id_part(s: Seq<char>) -> bool {
    s.len() > 0 && forall|i: int| 0 <= i < s.len() ==> is_id_char(#[trigger] s[i])
}

/// A package identifier: parts with dots between them, of at most 128 bytes.
pub open spec fn is_package_id(s: Seq<char>) -> bool {
    &&& s.len() > 0
    &&& encode_utf8(s).len() <= 128
    &&& forall|i: int| 0 <= i < split_on(s, '.').len() ==> is_id_part(#[trigger] split_on(s, '.')[i])
}

fn id_part(part: &str) -> (out: bool)
    ensures
        out == is_id_part(part@),
{
    let chars = chars_of(part);
    let mut i: usize = 0;
    while i < chars.len()
        invariant
            i <= chars@.len(),
            chars@ == part@,
            forall|j: int| 0 <= j < i ==> is_id_char(#[trigger] part@[j]),
        decreases chars@.len() - i,
    {
        let c = chars[i];
        if !(('a' <= c && c <= 'z') || ('A' <= c && c <= 'Z') || ('0' <= c && c <= '9') || c == '_'
            || c == '-') {
            assert(!is_id_char(part@[i as int]));
            return false;
        }
        i = i + 1;
    }
    chars.len() > 0
}

impl ExtensionPackageId {
    /// Checks a package identifier.
    pub fn new(value: &str) -> (out: Result<Self, ExtensionError>)
        ensures
            out is Ok <==> is_package_id(value@),
            out matches Ok(id) ==> id.0@ == value@,
            out matches Err(e) ==> e.is(
                "invalid_extension_id"@,
                "invalid extension package id"@,
            ),
    {
        let invalid = ExtensionError::new("invalid_extension_id", "invalid extension package id");
        if value.is_empty() || value.as_bytes().len() > 128 {
            return Err(invalid);
        }
        let parts = split(value, '.');
        let mut i: usize = 0;
        while i < parts.len()
            invariant
                i <= parts@.len(),
                value@.len() > 0,
                encode_utf8(value@).len() <= 128,
                texts(parts@) == split_on(value@, '.'),
                invalid.is("invalid_extension_id"@, "invalid extension package id"@),
                forall|j: int| 0 <= j < i ==> is_id_part(#[trigger] split_on(value@, '.')[j]),
            decreases parts@.len() - i,
        {
            assert(texts(parts@)[i as int] == parts@[i as int]@);
            if !id_part(&parts[i]) {
                return Err(invalid);
            }
            i = i + 1;
        }
        assert(texts(parts@).len() == parts@.len());
        Ok(ExtensionPackageId(value.to_owned()))
    }

    /// The identifier's text.
    pub fn as_ref(&self) -> (out: &str)
        ensures
            out@ == self.0@,
    {
        &self.0
    }
}

/// The scope that the resources of one generation stand under.
pub open spec fn scope_text(id: Seq<char>, generation: u64) -> Seq<char> {
    "extension:"@ + id + ":"@ + decimal(generation as nat)
}

/// The scope of a generation.
pub fn extension_scope(id: &str, generation: u64) -> (out: String)
    ensures
        out@ == scope_text(id@, generation),
{
    let head = join("extension:", id);
    let middle = join(&head, ":");
    let number = decimal_text(generation);
    join(&middle, &number)
}

/// A name that is one plain path component: no separators, neither `.` nor `..`, at most 128 bytes.
pub open spec fn is_storage_component(s: Seq<char>) -> bool {
    &&& s.len() > 0
    &&& encode_utf8(s).len() <= 128
    &&& !s.contains('/')
    &&& !s.contains('\\')
    &&& s != "."@
    &&& s != ".."@
}

/// Checks a storage namespace.
pub fn validate_storage_component(component: &str) -> (out: Result<(), ExtensionError>)
    ensures
        out is Ok <==> is_storage_component(component@),
        out matches Err(e) ==> e.is(
            "invalid_storage_namespace"@,
            "storage namespace must be a single normal path component"@,
        ),
{
    if component.is_empty() || component.as_bytes().len() > 128 || has_char(component, '/')
        || has_char(component, '\\') || same_text(component, ".") || same_text(component, "..") {
        return Err(
            ExtensionError::new(
                "invalid_storage_namespace",
                "storage namespace must be a single normal path component",
            ),
        );
    }
    Ok(())
}

/// Checks a storage key.
pub fn validate_storage_key(key: &str) -> (out: Result<(), ExtensionError>)
    ensures
        out is Ok <==> is_storage_component(key@),
        out matches Err(e) ==> e.is(
            "invalid_storage_key"@,
            "storage key must be a single normal path component"@,
        ),
{
    match validate_storage_component(key) {
        Ok(()) => Ok(()),
        Err(_) => Err(
            ExtensionError::new(
                "invalid_storage_key",
                "storage key must be a single normal path component",
            ),
        ),
    }
}

/// A metadata namespace as a package may write it.
pub open spec fn is_metadata_namespace(s: Seq<char>) -> bool {
    &&& s.len() > 0
    &&& encode_utf8(s).len() <= 96
    &&& !s.contains('/')
    &&& !s.contains('\\')
    &&& s != "."@
    &&& s != ".."@
}

/// The namespace under which the host keeps a package's metadata.
pub open spec fn metadata_namespace_text(id: Seq<char>, namespace: Seq<char>) -> Seq<char> {
    id + ":"@ + namespace
}

/// The namespace under which the host keeps a package's metadata. `name_limit` is the longest name,
/// in bytes, that the host accepts.
pub fn namespaced_metadata_namespace(id: &str, namespace: &str, name_limit: usize) -> (out: Result<
    String,
    ExtensionError,
>)
    ensures
        out is Ok <==> is_metadata_namespace(namespace@) && encode_utf8(
            metadata_namespace_text(id@, namespace@),
        ).len() <= name_limit,
        out matches Ok(full) ==> full@ == metadata_namespace_text(id@, namespace@),
        !is_metadata_namespace(namespace@) ==> (out matches Err(e) && e.is(
            "invalid_metadata"@,
            "metadata namespace is invalid"@,
        )),
        is_metadata_namespace(namespace@) ==> (out matches Err(e) ==> e.is(
            "invalid_metadata"@,
            "metadata namespace is too long"@,
        )),
{
    if namespace.is_empty() || namespace.as_bytes().len() > 96 || has_char(namespace, '/')
        || has_char(namespace, '\\') || same_text(namespace, ".") || same_text(namespace, "..") {
        return Err(ExtensionError::new("invalid_metadata", "metadata namespace is invalid"));
    }
    let head = join(id, ":");
    let full = join(&head, namespace);
    if full.as_str().as_bytes().len() > name_limit {
        return Err(ExtensionError::new("invalid_metadata", "metadata namespace is too long"));
    }
    Ok(full)
}

/// Every character of a text stands in one of its parts, or is a separator.
proof fn chars_stand_in_parts(s: Seq<char>, sep: char, c: char)
    requires
        c != sep,
        s.contains(c),
    ensures
        exists|i: int| 0 <= i < split_on(s, sep).len() && (#[trigger] split_on(s, sep)[i]).contains(c),
    decreases s.len(),
{
    find_char_bounds(s, sep);
    let at = find_char(s, sep);
    let parts = split_on(s, sep);
    let k = choose|k: int| 0 <= k < s.len() && s[k] == c;
    if at >= s.len() {
        assert(parts[0] == s);
    } else if k < at {
        assert(parts[0] == s.take(at));
        assert(s.take(at)[k] == c);
    } else {
        let rest = s.skip(at + 1);
        assert(s[at] == sep);
        assert(rest[k - at - 1] == c);
        chars_stand_in_parts(rest, sep, c);
        let i = choose|i: int|
            0 <= i < split_on(rest, sep).len() && (#[trigger] split_on(rest, sep)[i]).contains(c);
        assert(parts[i + 1] == split_on(rest, sep)[i]);
    }
}

proof fn package_ids_hold_no_colon(id: Seq<char>)
    requires
        is_package_id(id),
    ensures
        !id.contains(':'),
{
    if id.contains(':') {
        chars_stand_in_parts(id, '.', ':');
        let parts = split_on(id, '.');
        let i = choose|i: int| 0 <= i < parts.len() && (#[trigger] parts[i]).contains(':');
        let k = choose|k: int| 0 <= k < parts[i].len() && parts[i][k] == ':';
        assert(is_id_part(parts[i]));
        assert(is_id_char(parts[i][k]));
    }
}

proof fn split_at_colon(a: Seq<char>, b: Seq<char>, x: Seq<char>, y: Seq<char>)
    requires
        a + ":"@ + b == x + ":"@ + y,
        !a.contains(':'),
        !x.contains(':'),
    ensures
        a == x,
        b == y,
{
    reveal_strlit(":");
    let left = a + ":"@ + b;
    let right = x + ":"@ + y;
    assert forall|j: int| 0 <= j < a.len() implies #[trigger] left[j] != ':' by {
        assert(left[j] == a[j]);
        assert(a.contains(a[j]));
    }
    assert forall|j: int| 0 <= j < x.len() implies #[trigger] right[j] != ':' by {
        assert(right[j] == x[j]);
        assert(x.contains(x[j]));
    }
    assert(left[a.len() as int] == ':');
    assert(right[x.len() as int] == ':');
    find_char_is(left, ':', a.len() as int);
    find_char_is(right, ':', x.len() as int);
    assert(a =~= left.take(a.len() as int));
    assert(x =~= right.take(x.len() as int));
    assert(b =~= left.skip(a.len() as int + 1));
    assert(y =~= right.skip(x.len() as int + 1));
}

/// No two generations share a scope.
pub proof fn scopes_are_apart(id: Seq<char>, generation: u64, other: Seq<char>, later: u64)
    requires
        is_package_id(id),
        is_package_id(other),
        scope_text(id, generation) == scope_text(other, later),
    ensures
        id == other,
        generation == later,
{
    package_ids_hold_no_colon(id);
    package_ids_hold_no_colon(other);
    let head = "extension:"@;
    let left = id + ":"@ + decimal(generation as nat);
    let right = other + ":"@ + decimal(later as nat);
    assert(scope_text(id, generation) =~= head + left);
    assert(scope_text(other, later) =~= head + right);
    assert(left =~= (head + left).skip(head.len() as int));
    assert(right =~= (head + right).skip(head.len() as int));
    split_at_colon(id, decimal(generation as nat), other, decimal(later as nat));
    decimal_is_injective(generation as nat, later as nat);
}

/// No two packages share a metadata namespace, and no two namespaces of a package are kept as one.
pub proof fn namespaces_are_apart(
    id: Seq<char>,
    namespace: Seq<char>,
    other: Seq<char>,
    other_namespace: Seq<char>,
)
    requires
        is_package_id(id),
        is_package_id(other),
        metadata_namespace_text(id, namespace) == metadata_namespace_text(other, other_namespace),
    ensures
        id == other,
        namespace == other_namespace,
{
    package_ids_hold_no_colon(id);
    package_ids_hold_no_colon(other);
    split_at_colon(id, namespace, other, other_namespace);
}

/// The name of a package is made of letters, digits, dots, hyphens and underscores, does not begin or
/// end with a dot, and is at most 128 bytes long. Every such name without a dot is one.
pub proof fn package_ids_are_plain(id: Seq<char>)
    ensures
        is_package_id(id) ==> {
            &&& 0 < id.len()
            &&& encode_utf8(id).len() <= 128
            &&& forall|i: int|
                0 <= i < id.len() ==> {
                    let c = #[trigger] id[i];
                    c == '.' || c == '-' || c == '_' || ('a' <= c && c <= 'z') || ('A' <= c && c
                        <= 'Z') || ('0' <= c && c <= '9')
                }
            &&& id[0] != '.'
        },
        id.len() > 0 && encode_utf8(id).len() <= 128 && (forall|i: int|
            0 <= i < id.len() ==> {
                let c = #[trigger] id[i];
                c == '-' || c == '_' || ('a' <= c && c <= 'z') || ('A' <= c && c <= 'Z') || ('0'
                    <= c && c <= '9')
            }) ==> is_package_id(id),
{
    let parts = split_on(id, '.');
    find_char_bounds(id, '.');
    if is_package_id(id) {
        assert forall|i: int| 0 <= i < id.len() implies {
            let c = #[trigger] id[i];
            c == '.' || c == '-' || c == '_' || ('a' <= c && c <= 'z') || ('A' <= c && c <= 'Z')
                || ('0' <= c && c <= '9')
        } by {
            let c = id[i];
            if c != '.' {
                assert(id.contains(c));
                chars_stand_in_parts(id, '.', c);
                let p = choose|p: int| 0 <= p < parts.len() && (#[trigger] parts[p]).contains(c);
                let k = choose|k: int| 0 <= k < parts[p].len() && parts[p][k] == c;
                assert(is_id_part(parts[p]));
                assert(is_id_char(parts[p][k]));
            }
        }
        if id[0] == '.' {
            assert(find_char(id, '.') == 0);
            assert(parts[0] =~= id.take(0));
            assert(is_id_part(parts[0]));
        }
    }
    if id.len() > 0 && encode_utf8(id).len() <= 128 && (forall|i: int|
        0 <= i < id.len() ==> {
            let c = #[trigger] id[i];
            c == '-' || c == '_' || ('a' <= c && c <= 'z') || ('A' <= c && c <= 'Z') || ('0' <= c
                && c <= '9')
        }) {
        if find_char(id, '.') < id.len() {
            assert(id[find_char(id, '.')] == '.');
        }
        assert(parts =~= seq![id]);
        assert forall|i: int| 0 <= i < parts.len() implies is_id_part(#[trigger] parts[i]) by {
            assert(parts[i] == id);
        }
    }
}

/// The name of a stored value leads nowhere else: it is one name, neither this directory nor the one
/// above. Every other name of at most 128 bytes that holds no slash is one.
pub proof fn storage_keys_lead_nowhere(key: Seq<char>)
    ensures
        is_storage_component(key) <==> key.len() > 0 && encode_utf8(key).len() <= 128 && (forall|
            i: int,
        |
            0 <= i < key.len() ==> #[trigger] key[i] != '/' && key[i] != '\\') && key != "."@ && key
            != ".."@,
        is_metadata_namespace(key) <==> key.len() > 0 && encode_utf8(key).len() <= 96 && (forall|
            i: int,
        |
            0 <= i < key.len() ==> #[trigger] key[i] != '/' && key[i] != '\\') && key != "."@ && key
            != ".."@,
{
    if key.contains('/') {
        let i = choose|i: int| 0 <= i < key.len() && key[i] == '/';
        assert(key[i] == '/');
    }
    if key.contains('\\') {
        let i = choose|i: int| 0 <= i < key.len() && key[i] == '\\';
        assert(key[i] == '\\');
    }
    assert forall|i: int| 0 <= i < key.len() implies key.contains(#[trigger] key[i]) by {}
}

}
