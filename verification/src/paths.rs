//! File paths, as text.
use crate::text::{after_last, begins_with, ends_with, law_found_parts_are_there, lemma_after_last};
use vstd::prelude::*;

verus! {

/// Whether `path` is in, or begins like, the verbatim form of Windows (`\\?\C:\x`).
pub open spec fn is_verbatim(path: Seq<char>) -> bool {
    begins_with(path, seq!['\\', '\\', '?'])
}

/// Whether `part` is relative to a directory on every system: it begins with no
/// separator and holds no colon.
pub open spec fn is_relative(part: Seq<char>) -> bool {
    &&& !part.contains(':')
    &&& part.len() > 0 ==> part[0] != '/' && part[0] != '\\'
}

/// Whether `joined` is `part` behind `base`, with one separator between them. None is
/// written where `base` is empty or ends with a slash, which separates on every
/// system. A backslash or the colon of a drive at its end may separate already.
pub open spec fn adjoined(joined: Seq<char>, base: Seq<char>, part: Seq<char>) -> bool {
    if base.len() == 0 || base.last() == '/' {
        joined == base + part
    } else {
        ||| joined == base.push('/') + part
        ||| joined == base.push('\\') + part && base.last() != '\\'
        ||| joined == base + part && (base.last() == '\\' || base.last() == ':')
    }
}

/// Whether `c` separates the components of a path on some system.
pub open spec fn is_separator(c: char) -> bool {
    c == '/' || c == '\\'
}

/// Whether `base` begins with neither a drive nor a share on any system: it holds no
/// colon and does not begin with two separators.
pub open spec fn is_prefixless(base: Seq<char>) -> bool {
    &&& !base.contains(':')
    &&& !(base.len() >= 2 && is_separator(base[0]) && is_separator(base[1]))
}

/// Whether `name` is the name of a file on every system.
pub open spec fn is_file_name(name: Seq<char>) -> bool {
    &&& name.len() > 0
    &&& !name.contains('/')
    &&& !name.contains('\\')
    &&& !name.contains(':')
    &&& name != seq!['.']
    &&& name != seq!['.', '.']
}

/// Whether `joined` can be what joining the non-relative `part` to `base` gives: `part`
/// alone; or, on a system with drives, `part` behind the drive or the share of `base`;
/// or, on a system to which `part` is relative after all, `part` behind `base`. A
/// slash begins an absolute path, before which nothing but a drive or a share stays.
pub open spec fn supersedes(base: Seq<char>, part: Seq<char>, joined: Seq<char>) -> bool {
    ||| joined == part
    ||| is_separator(part[0]) && !is_prefixless(base) && exists|k: int|
        0 <= k <= base.len() && joined == #[trigger] base.take(k) + part
    ||| part[0] != '/' && adjoined(joined, base, part)
}

/// Whether `joined` can be what joining `part` to `base` gives. A relative `part` is
/// appended; any other takes the place of `base`, as far as its system has it. In the
/// verbatim form `base` is joined component by component, and of the result it is said
/// only that it ends with the file that `part` names.
pub open spec fn joins_to(base: Seq<char>, part: Seq<char>, joined: Seq<char>) -> bool {
    if is_verbatim(base) {
        is_relative(part) && is_file_name(after_last(part, '/')) ==> ends_with(
            joined,
            after_last(part, '/'),
        )
    } else {
        &&& ends_with(joined, part)
        &&& if is_relative(part) {
            adjoined(joined, base, part)
        } else {
            supersedes(base, part, joined)
        }
    }
}

/// `std::path::Path::join`, the result as text. A relative `part` is appended to
/// `base` with the system's separator, which is not written twice. An absolute `part`
/// takes the place of `base`. On Windows, one with a root but without a drive takes the
/// place of all but the drive or the share of `base`, one with a drive takes the place
/// of all, and a `base` in the verbatim form is normalized; how much of such a `base`
/// stays is left open here.
#[verifier::external_body]
pub(crate) fn path_join(base: &str, part: &str) -> (joined: String)
    ensures
        joins_to(base@, part@, joined@),
{
    std::path::Path::new(base).join(part).display().to_string()
}

/// `std::path::Path::is_absolute`. Which paths are absolute depends on the system.
/// On Unix they begin with a slash, and on Windows with a separator or a drive
/// letter and a colon: none is relative on every system.
#[verifier::external_body]
pub(crate) fn path_is_absolute(path: &str) -> (r: bool)
    ensures
        r ==> !is_relative(path@),
{
    std::path::Path::new(path).is_absolute()
}

/// Whether `resolved` can be what `path` stands for in the directory `base`: `path`
/// itself, if some system takes it for absolute, or what joining it to `base` gives.
/// It ends with `path` either way.
pub open spec fn resolves_to(base: Seq<char>, path: Seq<char>, resolved: Seq<char>) -> bool {
    &&& (!is_relative(path) && resolved == path) || joins_to(base, path, resolved)
    &&& !is_verbatim(base) ==> ends_with(resolved, path)
}

/// What a path stands for in a directory: the path itself where it is absolute, else
/// `joined`, its place in there.
pub fn resolved_path(path: &str, absolute: bool, joined: &str) -> (resolved: String)
    ensures
        resolved@ == if absolute {
            path@
        } else {
            joined@
        },
{
    if absolute {
        path.to_string()
    } else {
        joined.to_string()
    }
}

/// `path` itself where it is absolute, else its place in the directory `base`.
pub(crate) fn resolve_against(base: &str, path: &str) -> (resolved: String)
    ensures
        resolves_to(base@, path@, resolved@),
{
    let resolved = resolved_path(path, path_is_absolute(path), path_join(base, path).as_str());
    assert(path@.skip(0) =~= path@);
    resolved
}

/// A path that begins with a slash is absolute, and is kept as it is, wherever the
/// directory begins with neither a drive nor a share. A path that is relative on every
/// system is put behind the directory.
pub proof fn law_absolute_kept_relative_adjoined(
    base: Seq<char>,
    path: Seq<char>,
    resolved: Seq<char>,
)
    requires
        !is_verbatim(base),
        resolves_to(base, path, resolved),
    ensures
        path.len() > 0 && path[0] == '/' && is_prefixless(base) ==> resolved == path,
        is_relative(path) ==> adjoined(resolved, base, path),
{
}

/// What is adjoined is the base and the part with at most one separator between them: none
/// behind an empty base or a slash, and one behind anything but a backslash or a colon.
pub proof fn law_adjoined(joined: Seq<char>, base: Seq<char>, part: Seq<char>)
    requires
        adjoined(joined, base, part),
    ensures
        joined == base + part || joined == base.push('/') + part || joined == base.push('\\')
            + part,
        base.len() == 0 || base.last() == '/' ==> joined == base + part,
        base.len() > 0 && base.last() != '/' && base.last() != '\\' && base.last() != ':' ==> joined
            == base.push('/') + part || joined == base.push('\\') + part,
        base.len() > 0 && base.last() == '\\' ==> joined == base + part || joined == base.push('/')
            + part,
{
}

/// A path that begins with no separator and holds no colon is relative; a directory with no
/// colon that does not begin with two separators has neither a drive nor a share; and only
/// what begins with `\\?` is verbatim.
pub proof fn law_kinds_of_paths(path: Seq<char>)
    ensures
        (forall|i: int| 0 <= i < path.len() ==> #[trigger] path[i] != ':') && (path.len() > 0
            ==> path[0] != '/' && path[0] != '\\') ==> is_relative(path),
        (forall|i: int| 0 <= i < path.len() ==> #[trigger] path[i] != ':') && !(path.len() >= 2 && (
        path[0] == '/' || path[0] == '\\') && (path[1] == '/' || path[1] == '\\'))
            ==> is_prefixless(path),
        is_verbatim(path) ==> path.len() >= 3 && path[0] == '\\' && path[1] == '\\' && path[2]
            == '?',
{
    if is_verbatim(path) {
        let mark = seq!['\\', '\\', '?'];
        assert(path.take(3) == mark);
        assert(path.take(3)[0] == mark[0]);
        assert(path.take(3)[1] == mark[1]);
        assert(path.take(3)[2] == mark[2]);
    }
}

/// A part that is joined to a directory is put behind it if it is relative, and takes its
/// place if it begins with a slash and the directory begins with neither a drive nor a
/// share.
pub proof fn law_joined_path(base: Seq<char>, part: Seq<char>, joined: Seq<char>)
    requires
        joins_to(base, part, joined),
        !is_verbatim(base),
    ensures
        is_relative(part) ==> adjoined(joined, base, part),
        part.len() > 0 && part[0] == '/' && is_prefixless(base) ==> joined == part,
        exists|front: Seq<char>| joined == #[trigger] (front + part),
{
    law_found_parts_are_there(joined, part);
}

/// The name of a file holds no separator and no colon, and is neither empty nor `.` nor
/// `..`.
pub proof fn law_file_names(name: Seq<char>)
    ensures
        is_file_name(name) <==> name.len() > 0 && (forall|i: int|
            0 <= i < name.len() ==> #[trigger] name[i] != '/' && name[i] != '\\' && name[i] != ':')
            && !(name.len() == 1 && name[0] == '.') && !(name.len() == 2 && name[0] == '.'
            && name[1] == '.'),
{
    if name.len() == 1 && name[0] == '.' {
        assert(name =~= seq!['.']);
    }
    if name.len() == 2 && name[0] == '.' && name[1] == '.' {
        assert(name =~= seq!['.', '.']);
    }
}

/// A part that is not relative is kept whole: nothing stands before it but what the
/// directory begins with, or all of the directory, set off from it.
pub proof fn law_superseding_path(base: Seq<char>, part: Seq<char>, joined: Seq<char>) -> (kept:
    int)
    requires
        joins_to(base, part, joined),
        !is_verbatim(base),
        !is_relative(part),
    ensures
        0 <= kept <= base.len(),
        joined == base.take(kept) + part || (part[0] != '/' && adjoined(joined, base, part)),
        is_prefixless(base) && part[0] == '/' ==> kept == 0,
{
    assert(base.take(0) + part =~= part);
    if joined != part && is_separator(part[0]) && !is_prefixless(base) && exists|k: int|
        0 <= k <= base.len() && joined == #[trigger] base.take(k) + part {
        choose|k: int| 0 <= k <= base.len() && joined == #[trigger] base.take(k) + part
    } else {
        0
    }
}

/// In a directory in the verbatim form too, a relative path leads to the file it names.
pub proof fn law_joined_in_verbatim(
    base: Seq<char>,
    folder: Seq<char>,
    name: Seq<char>,
    joined: Seq<char>,
)
    requires
        is_verbatim(base),
        is_file_name(name),
        is_relative(folder.push('/') + name) && joins_to(base, folder.push('/') + name, joined)
            || is_relative(name) && joins_to(base, name, joined),
    ensures
        exists|front: Seq<char>| joined == #[trigger] (front + name),
{
    lemma_after_last(folder, name, '/');
    law_found_parts_are_there(joined, name);
}

} // verus!
