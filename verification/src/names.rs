//! Rules on file names: which names are hidden, which may be used as one path
//! component, and which media type a file is sent with.

use crate::text::{eq_ignore_ascii_case, has_double_dot, has_suffix, range_equals, range_equals_ignore_case, to_chars};
use vstd::prelude::*;

verus! {

/// A name is hidden when it starts with a dot.
pub open spec fn is_hidden(name: Seq<char>) -> bool {
    name.len() > 0 && name[0] == '.'
}

/// A name can stand for exactly one path component: it is not empty, holds no
/// `/` and no `..`.
pub open spec fn is_safe_component(name: Seq<char>) -> bool {
    &&& name.len() > 0
    &&& !name.contains('/')
    &&& !has_double_dot(name)
}

/// Where the extension of `name` starts: behind its last dot, or at 0 where it
/// has none.
pub open spec fn extension_start(name: Seq<char>) -> int
    decreases name.len(),
{
    if name.len() == 0 {
        0
    } else if name.last() == '.' {
        name.len() as int
    } else {
        extension_start(name.drop_last())
    }
}

/// What follows the last dot of `name`; all of `name` where it has no dot.
pub open spec fn extension(name: Seq<char>) -> Seq<char> {
    name.subrange(extension_start(name), name.len() as int)
}

/// The media type that a file called `name` is uploaded with. It goes by the
/// extension alone, whatever the case of its letters.
pub open spec fn mime_type(name: Seq<char>) -> Seq<char> {
    let ext = extension(name);
    if eq_ignore_ascii_case(ext, "md"@) {
        "text/markdown"@
    } else if eq_ignore_ascii_case(ext, "url"@) || eq_ignore_ascii_case(ext, "txt"@) {
        "text/plain"@
    } else if eq_ignore_ascii_case(ext, "json"@) {
        "application/json"@
    } else if eq_ignore_ascii_case(ext, "toml"@) {
        "application/toml"@
    } else if eq_ignore_ascii_case(ext, "pdf"@) {
        "application/pdf"@
    } else if eq_ignore_ascii_case(ext, "png"@) {
        "image/png"@
    } else if eq_ignore_ascii_case(ext, "jpg"@) || eq_ignore_ascii_case(ext, "jpeg"@) {
        "image/jpeg"@
    } else if eq_ignore_ascii_case(ext, "gif"@) {
        "image/gif"@
    } else if eq_ignore_ascii_case(ext, "webp"@) {
        "image/webp"@
    } else if eq_ignore_ascii_case(ext, "svg"@) {
        "image/svg+xml"@
    } else if eq_ignore_ascii_case(ext, "html"@) || eq_ignore_ascii_case(ext, "htm"@) {
        "text/html"@
    } else {
        "application/octet-stream"@
    }
}

proof fn lemma_extension_start(name: Seq<char>, i: int)
    requires
        0 <= i <= name.len(),
        i == 0 || name[i - 1] == '.',
        forall|k: int| i <= k < name.len() ==> #[trigger] name[k] != '.',
    ensures
        extension_start(name) == i,
    decreases name.len() - i,
{
    if i < name.len() {
        let t = name.drop_last();
        assert(name.last() == name[name.len() - 1]);
        lemma_extension_start(t, i);
    }
}

/// Whether `name` starts with a dot.
pub fn is_hidden_name(name: &str) -> (r: bool)
    ensures
        r == is_hidden(name@),
{
    !name.is_empty() && name.get_char(0) == '.'
}

/// Whether `name` ends with `suffix`.
pub fn ends_with(name: &str, suffix: &str) -> (r: bool)
    ensures
        r == has_suffix(name@, suffix@),
{
    let chars = to_chars(name);
    let n = chars.len();
    let m = suffix.unicode_len();
    if m > n {
        return false;
    }
    range_equals(&chars, n - m, n, suffix)
}

/// Whether `name` may be used as one path component.
pub fn is_safe_path_component(name: &str) -> (r: bool)
    ensures
        r == is_safe_component(name@),
{
    let chars = to_chars(name);
    if chars.len() == 0 {
        return false;
    }
    let mut i: usize = 0;
    while i < chars.len()
        invariant
            i <= chars.len(),
            chars@ == name@,
            forall|k: int| 0 <= k < i ==> #[trigger] chars@[k] != '/',
            forall|k: int| 0 <= k && k + 1 < i ==> !(#[trigger] chars@[k] == '.' && chars@[k + 1] == '.'),
        decreases chars.len() - i,
    {
        if chars[i] == '/' {
            return false;
        }
        if chars[i] == '.' && i > 0 && chars[i - 1] == '.' {
            assert(chars@[i - 1] == '.' && chars@[i - 1 + 1] == '.');
            return false;
        }
        i += 1;
    }
    true
}

/// The media type for `filename`, chosen by its extension.
pub fn mime_type_for(filename: &str) -> (mime: String)
    ensures
        mime@ == mime_type(filename@),
{
    let chars = to_chars(filename);
    let n = chars.len();
    let mut i: usize = n;
    while i > 0 && chars[i - 1] != '.'
        invariant
            i <= n == chars.len(),
            forall|k: int| i <= k < n ==> #[trigger] chars@[k] != '.',
        decreases i,
    {
        i -= 1;
    }
    proof {
        lemma_extension_start(chars@, i as int);
    }
    let mime = if range_equals_ignore_case(&chars, i, n, "md") {
        "text/markdown"
    } else if range_equals_ignore_case(&chars, i, n, "url") || range_equals_ignore_case(
        &chars,
        i,
        n,
        "txt",
    ) {
        "text/plain"
    } else if range_equals_ignore_case(&chars, i, n, "json") {
        "application/json"
    } else if range_equals_ignore_case(&chars, i, n, "toml") {
        "application/toml"
    } else if range_equals_ignore_case(&chars, i, n, "pdf") {
        "application/pdf"
    } else if range_equals_ignore_case(&chars, i, n, "png") {
        "image/png"
    } else if range_equals_ignore_case(&chars, i, n, "jpg") || range_equals_ignore_case(
        &chars,
        i,
        n,
        "jpeg",
    ) {
        "image/jpeg"
    } else if range_equals_ignore_case(&chars, i, n, "gif") {
        "image/gif"
    } else if range_equals_ignore_case(&chars, i, n, "webp") {
        "image/webp"
    } else if range_equals_ignore_case(&chars, i, n, "svg") {
        "image/svg+xml"
    } else if range_equals_ignore_case(&chars, i, n, "html") || range_equals_ignore_case(
        &chars,
        i,
        n,
        "htm",
    ) {
        "text/html"
    } else {
        "application/octet-stream"
    };
    mime.to_owned()
}

} // verus!
