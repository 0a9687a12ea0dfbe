//! Paths are carried as text. The operations that depend on how the
//! platform splits a path into components are left to `std::path` and
//! called through the trusted items below.

use vstd::prelude::*;
use crate::text::{string_of, chars_of};

verus! {

/// What `Path::join` gives for `base` joined with `rest`.
pub uninterp spec fn joined_path(base: Seq<char>, rest: Seq<char>) -> Seq<char>;

/// What `Path::parent` gives for `path`.
pub uninterp spec fn parent_path(path: Seq<char>) -> Option<Seq<char>>;

/// What `Path::file_name` gives for `path`.
pub uninterp spec fn file_name_of(path: Seq<char>) -> Option<Seq<char>>;

/// What `Path::strip_prefix` gives for `path` relative to `base`.
pub uninterp spec fn relative_path(path: Seq<char>, base: Seq<char>) -> Option<Seq<char>>;

/// What `Path::is_absolute` says of `path`.
pub uninterp spec fn is_absolute_path(path: Seq<char>) -> bool;

/// What `==` on two `Path`s says (it compares their components).
pub uninterp spec fn paths_equal(a: Seq<char>, b: Seq<char>) -> bool;

/// Trusted: `Path::join`. The contract names the result and states what
/// its documentation says for an absolute `rest`: it replaces `base`. How a
/// relative `rest` is attached (the separator) is not stated. A path that
/// is valid UTF-8 stays so, so the lossy conversion back loses nothing.
#[verifier::external_body]
pub(crate) fn path_join(base: &str, rest: &str) -> (r: String)
    ensures
        r@ == joined_path(base@, rest@),
        is_absolute_path(rest@) ==> r@ == rest@,
{
    std::path::Path::new(base).join(rest).to_string_lossy().into_owned()
}

/// Trusted: `Path::parent`, named as `parent_path`; as its documentation
/// says, the empty path has none.
#[verifier::external_body]
pub(crate) fn path_parent(path: &str) -> (r: Option<String>)
    ensures
        path@.len() == 0 ==> r is None,
        r matches Some(p) ==> parent_path(path@) == Some(p@),
        r is None ==> parent_path(path@) is None,
{
    std::path::Path::new(path).parent().map(|p| p.to_string_lossy().into_owned())
}

/// Trusted: `Path::file_name`, named as `file_name_of`.
#[verifier::external_body]
pub(crate) fn path_file_name(path: &str) -> (r: Option<String>)
    ensures
        r matches Some(n) ==> file_name_of(path@) == Some(n@),
        r is None ==> file_name_of(path@) is None,
{
    std::path::Path::new(path).file_name().map(|n| n.to_string_lossy().into_owned())
}

/// Trusted: `Path::strip_prefix`, named as `relative_path`; its error
/// becomes `None`. As its documentation promises, the path it returns,
/// joined onto `base`, yields `path` again (equal as paths).
#[verifier::external_body]
pub(crate) fn path_strip_prefix(path: &str, base: &str) -> (r: Option<String>)
    ensures
        r matches Some(p) ==> relative_path(path@, base@) == Some(p@),
        r is None ==> relative_path(path@, base@) is None,
        r matches Some(p) ==> paths_equal(joined_path(base@, p@), path@),
{
    match std::path::Path::new(path).strip_prefix(base) {
        Ok(rest) => Some(rest.to_string_lossy().into_owned()),
        Err(_) => None,
    }
}

/// Trusted: `Path::is_absolute`, named as `is_absolute_path`.
#[verifier::external_body]
pub(crate) fn path_is_absolute(path: &str) -> (r: bool)
    ensures
        r == is_absolute_path(path@),
{
    std::path::Path::new(path).is_absolute()
}

/// Trusted: `==` on `Path`. Besides naming the result, it states that a
/// path equals itself, which `Path`'s `Eq` implementation promises.
#[verifier::external_body]
pub(crate) fn same_path(a: &str, b: &str) -> (r: bool)
    ensures
        r == paths_equal(a@, b@),
        a@ == b@ ==> r,
{
    std::path::Path::new(a) == std::path::Path::new(b)
}

/// A path that is just the home directory.
pub open spec fn home_marker() -> Seq<char> {
    seq!['~']
}

/// The start of a path below the home directory.
pub open spec fn home_prefix() -> Seq<char> {
    seq!['~', '/']
}

/// Where a typed path leads: `~` is the home directory, `~/rest` is `rest`
/// below it, an absolute path stands as it is, and anything else is taken
/// relative to `base`.
pub open spec fn resolved_path(raw: Seq<char>, base: Seq<char>, home: Option<Seq<char>>) -> Seq<
    char,
> {
    if raw == home_marker() {
        match home {
            Some(h) => h,
            None => raw,
        }
    } else if raw.len() >= 2 && raw.take(2) == home_prefix() && home is Some {
        joined_path(home->0, raw.skip(2))
    } else if is_absolute_path(raw) {
        raw
    } else {
        joined_path(base, raw)
    }
}

/// Resolves a path the user typed against the directory being browsed and
/// the home directory.
pub fn resolve_path(raw: &str, base: &str, home: Option<&str>) -> (r: String)
    ensures
        r@ == resolved_path(raw@, base@, match home {
            Some(h) => Some(h@),
            None => None,
        }),
{
    let chars = chars_of(raw);
    let n = chars.len();
    if n == 1 && chars[0] == '~' {
        assert(raw@ =~= home_marker());
        return match home {
            Some(h) => string_of(&chars_of(h)),
            None => string_of(&chars),
        };
    }
    assert(raw@ != home_marker()) by {
        if raw@ == home_marker() {
            assert(chars@[0] == '~');
        }
    }
    if n >= 2 && chars[0] == '~' && chars[1] == '/' {
        if let Some(h) = home {
            assert(raw@.take(2) =~= home_prefix());
            let mut rest: Vec<char> = Vec::new();
            let mut i: usize = 2;
            while i < n
                invariant
                    2 <= i <= n,
                    n == chars@.len(),
                    rest@ == chars@.subrange(2, i as int),
                decreases n - i,
            {
                rest.push(chars[i]);
                assert(chars@.subrange(2, i + 1) =~= chars@.subrange(2, i as int).push(
                    chars@[i as int],
                ));
                i = i + 1;
            }
            assert(rest@ =~= raw@.skip(2));
            let rest = string_of(&rest);
            return path_join(h, rest.as_str());
        }
    }
    assert(!(raw@.len() >= 2 && raw@.take(2) == home_prefix() && home is Some)) by {
        if raw@.len() >= 2 && raw@.take(2) == home_prefix() && home is Some {
            assert(raw@.take(2)[0] == chars@[0]);
            assert(raw@.take(2)[1] == chars@[1]);
        }
    }
    if path_is_absolute(raw) {
        string_of(&chars)
    } else {
        path_join(base, raw)
    }
}

/// How a path is shown in the header: relative to the root as `./rest`
/// (or `.` for the root itself), else relative to home as `~/rest`, else
/// as it is.
pub open spec fn shown_path(path: Seq<char>, base: Seq<char>, home: Option<Seq<char>>) -> Seq<
    char,
> {
    match relative_path(path, base) {
        Some(rel) => if rel.len() == 0 {
            seq!['.']
        } else {
            seq!['.', '/'] + rel
        },
        None => match home {
            Some(h) => match relative_path(path, h) {
                Some(rel) => seq!['~', '/'] + rel,
                None => path,
            },
            None => path,
        },
    }
}

fn prefixed(a: char, b: char, rest: &str) -> (r: String)
    ensures
        r@ == seq![a, b] + rest@,
{
    let mut v: Vec<char> = Vec::new();
    v.push(a);
    v.push(b);
    let chars = chars_of(rest);
    let mut i: usize = 0;
    while i < chars.len()
        invariant
            i <= chars@.len(),
            v@ == seq![a, b] + chars@.take(i as int),
        decreases chars@.len() - i,
    {
        v.push(chars[i]);
        assert(chars@.take(i + 1) =~= chars@.take(i as int).push(chars@[i as int]));
        assert(v@ =~= seq![a, b] + chars@.take(i + 1));
        i = i + 1;
    }
    assert(chars@.take(i as int) =~= rest@);
    string_of(&v)
}

/// The path as the header shows it. A path shown below the home
/// directory (as `~/rest`) resolves back to the same path.
pub fn display_path(path: &str, base: &str, home: Option<&str>) -> (r: String)
    ensures
        r@ == shown_path(path@, base@, match home {
            Some(h) => Some(h@),
            None => None,
        }),
        home matches Some(h) ==> (relative_path(path@, base@) is None && relative_path(path@, h@)
            is Some ==> paths_equal(resolved_path(r@, base@, Some(h@)), path@)),
{
    if let Some(rel) = path_strip_prefix(path, base) {
        if rel.as_str().as_bytes().len() == 0 {
            let mut dot = String::new();
            crate::text::push_char(&mut dot, '.');
            assert(dot@ =~= seq!['.']);
            return dot;
        }
        assert(rel@.len() != 0) by {
            broadcast use vstd::utf8::encode_utf8_valid_utf8;
            if rel@.len() == 0 {
                assert(vstd::utf8::encode_utf8(rel@) =~= Seq::<u8>::empty());
            }
        }
        return prefixed('.', '/', rel.as_str());
    }
    if let Some(h) = home {
        if let Some(rel) = path_strip_prefix(path, h) {
            let shown = prefixed('~', '/', rel.as_str());
            assert(shown@ != home_marker()) by {
                assert(shown@.len() >= 2);
            }
            assert(shown@.take(2) =~= home_prefix());
            assert(shown@.skip(2) =~= rel@);
            return shown;
        }
    }
    string_of(&chars_of(path))
}

/// The last component of a path, or the whole path when it has none.
pub open spec fn short_name(path: Seq<char>) -> Seq<char> {
    match file_name_of(path) {
        Some(name) => name,
        None => path,
    }
}

/// The short name the file browser shows in its title.
pub fn shorten_name(path: &str) -> (r: String)
    ensures
        r@ == short_name(path@),
{
    match path_file_name(path) {
        Some(name) => name,
        None => string_of(&chars_of(path)),
    }
}

/// The name of a browser entry: the last component of its path, or `?`
/// when the path has none.
pub open spec fn entry_name_of(path: Seq<char>) -> Seq<char> {
    match file_name_of(path) {
        Some(name) => name,
        None => seq!['?'],
    }
}

/// The name the file browser shows for an entry.
pub fn entry_name(path: &str) -> (r: String)
    ensures
        r@ == entry_name_of(path@),
{
    match path_file_name(path) {
        Some(name) => name,
        None => {
            let mut unknown = String::new();
            crate::text::push_char(&mut unknown, '?');
            assert(unknown@ =~= seq!['?']);
            unknown
        },
    }
}

} // verus!
