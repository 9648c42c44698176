//! Directories and file names of paths whose components are separated by `/`.

use crate::text::same;
use vstd::prelude::*;

verus! {

/// `path` without separators and `.` components at its end. A lone `/` or `.` is kept.
pub open spec fn trimmed(path: Seq<char>) -> Seq<char>
    decreases path.len(),
{
    if path.len() >= 2 && (path.last() == '/' || (path.last() == '.' && path[path.len() - 2]
        == '/')) {
        trimmed(path.drop_last())
    } else {
        path
    }
}

/// Where what follows the last separator of `path` begins.
pub open spec fn base_start(path: Seq<char>) -> nat
    decreases path.len(),
{
    if path.len() == 0 || path.last() == '/' {
        path.len()
    } else {
        base_start(path.drop_last())
    }
}

/// Whether nothing but the root, or nothing at all, is left of `path`.
pub open spec fn has_no_component(path: Seq<char>) -> bool {
    trimmed(path).len() == 0 || trimmed(path) == seq!['/']
}

/// `path` without its last component, where it has one.
pub open spec fn parent_of(path: Seq<char>) -> Option<Seq<char>> {
    if has_no_component(path) {
        None
    } else {
        Some(trimmed(trimmed(path).take(base_start(trimmed(path)) as int)))
    }
}

/// The last component of `path`, where that is the name of a file or a directory.
pub open spec fn file_name_of(path: Seq<char>) -> Option<Seq<char>> {
    let base = trimmed(path).skip(base_start(trimmed(path)) as int);
    if has_no_component(path) || base == "."@ || base == ".."@ {
        None
    } else {
        Some(base)
    }
}

/// `path` extended by `name`.
pub open spec fn joined(path: Seq<char>, name: Seq<char>) -> Seq<char> {
    if name.len() > 0 && name[0] == '/' {
        name
    } else if path.len() > 0 && path.last() != '/' {
        path + "/"@ + name
    } else {
        path + name
    }
}

/// `path` with its file name, where it has one, replaced by `name`.
pub open spec fn renamed(path: Seq<char>, name: Seq<char>) -> Seq<char> {
    match (file_name_of(path), parent_of(path)) {
        (Some(_), Some(directory)) => joined(directory, name),
        _ => joined(path, name),
    }
}

/// Trimming keeps the first character.
pub proof fn lemma_trimmed_keeps_start(path: Seq<char>)
    requires
        path.len() > 0,
    ensures
        trimmed(path).len() > 0,
        trimmed(path)[0] == path[0],
    decreases path.len(),
{
    if path.len() >= 2 {
        lemma_trimmed_keeps_start(path.drop_last());
    }
}

/// Trimming keeps a beginning that is not to be trimmed itself.
pub proof fn lemma_trimmed_keeps_prefix(prefix: Seq<char>, rest: Seq<char>)
    requires
        trimmed(prefix) == prefix,
    ensures
        prefix.is_prefix_of(trimmed(prefix + rest)),
    decreases rest.len(),
{
    if rest.len() == 0 {
        assert(prefix + rest == prefix);
    } else {
        assert((prefix + rest).drop_last() == prefix + rest.drop_last());
        lemma_trimmed_keeps_prefix(prefix, rest.drop_last());
    }
}

/// The last component of a path begins behind each of its separators.
pub proof fn lemma_base_is_behind_separators(path: Seq<char>, i: int)
    requires
        0 <= i < path.len(),
        path[i] == '/',
    ensures
        i < base_start(path) <= path.len(),
    decreases path.len(),
{
    if path.last() != '/' {
        lemma_base_is_behind_separators(path.drop_last(), i);
    }
}

/// `path` without separators and `.` components at its end.
fn trim<'a>(path: &'a str) -> (r: &'a str)
    ensures
        r@ == trimmed(path@),
    decreases path@.len(),
{
    let n: usize = path.unicode_len();
    if n >= 2 {
        let last = path.get_char(n - 1);
        if last == '/' || (last == '.' && path.get_char(n - 2) == '/') {
            let rest = path.substring_char(0, n - 1);
            assert(rest@ == path@.drop_last());
            return trim(rest);
        }
    }
    path
}

/// Where what follows the last separator of `path` begins.
fn find_base(path: &str) -> (r: usize)
    ensures
        r == base_start(path@),
        r <= path@.len(),
{
    let n: usize = path.unicode_len();
    let mut i: usize = n;
    assert(path@.take(n as int) == path@);
    while i > 0
        invariant
            i <= n,
            n == path@.len(),
            base_start(path@.take(i as int)) == base_start(path@),
        decreases i,
    {
        assert(path@.take(i as int).drop_last() == path@.take(i - 1));
        assert(path@.take(i as int).last() == path@[i - 1]);
        if path.get_char(i - 1) == '/' {
            return i;
        }
        i = i - 1;
    }
    0
}

/// The directory that holds what `path` names: `path` without its last component.
pub fn parent(path: &str) -> (r: Option<String>)
    ensures
        match r {
            Some(directory) => parent_of(path@) == Some(directory@),
            None => parent_of(path@) is None,
        },
{
    let whole = trim(path);
    proof {
        reveal_strlit("/");
        assert("/"@ =~= seq!['/']);
    }
    if whole.unicode_len() == 0 || same(whole, "/") {
        return None;
    }
    let base: usize = find_base(whole);
    let directory = whole.substring_char(0, base);
    assert(directory@ == whole@.take(base as int));
    Some(trim(directory).to_owned())
}

/// Whether the last component of `path` is the name of a file or a directory.
fn has_file_name(path: &str) -> (r: bool)
    ensures
        r == file_name_of(path@) is Some,
{
    let whole = trim(path);
    proof {
        reveal_strlit("/");
        assert("/"@ =~= seq!['/']);
    }
    if whole.unicode_len() == 0 || same(whole, "/") {
        return false;
    }
    let n: usize = whole.unicode_len();
    let base = whole.substring_char(find_base(whole), n);
    assert(base@ == whole@.skip(base_start(whole@) as int));
    !same(base, ".") && !same(base, "..")
}

/// `path` extended by `name`. A name that begins with a separator replaces the path.
fn join(path: &str, name: &str) -> (r: String)
    ensures
        r@ == joined(path@, name@),
{
    if name.unicode_len() > 0 && name.get_char(0) == '/' {
        return name.to_owned();
    }
    let n: usize = path.unicode_len();
    let mut r: String = path.to_owned();
    if n > 0 && path.get_char(n - 1) != '/' {
        r.append("/");
    }
    r.append(name);
    r
}

/// `path` with its file name replaced by `name`.
pub fn with_file_name(path: &str, name: &str) -> (r: String)
    ensures
        r@ == renamed(path@, name@),
{
    if has_file_name(path) {
        match parent(path) {
            Some(directory) => join(directory.as_str(), name),
            None => join(path, name),
        }
    } else {
        join(path, name)
    }
}

/// A path that consists of a directory and a plain name lies in that directory, and renaming it
/// keeps the directory.
pub proof fn law_file_lies_in_its_directory(
    directory: Seq<char>,
    name: Seq<char>,
    new_name: Seq<char>,
)
    requires
        directory.len() > 0,
        trimmed(directory) == directory,
        directory.last() != '/',
        name.len() > 0,
        !name.contains('/'),
        name != "."@,
        name != ".."@,
    ensures
        parent_of(directory + "/"@ + name) == Some(directory),
        file_name_of(directory + "/"@ + name) == Some(name),
        !new_name.contains('/') ==> renamed(directory + "/"@ + name, new_name) == directory + "/"@
            + new_name,
{
    reveal_strlit("/");
    let path = directory + "/"@ + name;
    assert(path.last() == name.last() && name.contains(name.last()));
    if path.last() == '.' && path[path.len() - 2] == '/' {
        if name.len() > 1 {
            assert(name[name.len() - 2] == '/');
            assert(name.contains('/'));
        } else {
            reveal_strlit(".");
            assert(name =~= "."@);
        }
    }
    assert(trimmed(path) == path);
    assert(path.len() >= 3);
    lemma_base_of_name(directory + "/"@, name);
    assert(path.take(directory.len() as int + 1) == directory + "/"@);
    assert((directory + "/"@).drop_last() == directory);
    assert(path.skip(directory.len() as int + 1) == name);
}

/// The last component of a directory followed by a plain name is the name.
proof fn lemma_base_of_name(directory: Seq<char>, name: Seq<char>)
    requires
        directory.len() > 0,
        directory.last() == '/',
        !name.contains('/'),
    ensures
        base_start(directory + name) == directory.len(),
    decreases name.len(),
{
    if name.len() == 0 {
        assert(directory + name == directory);
    } else {
        let path = directory + name;
        assert(path.last() == name.last() && name.contains(name.last()));
        assert(path.drop_last() == directory + name.drop_last());
        assert(!name.drop_last().contains('/')) by {
            assert forall|i: int| 0 <= i < name.len() - 1 implies name.drop_last()[i] != '/' by {
                assert(name.contains(name[i]));
            }
        }
        lemma_base_of_name(directory, name.drop_last());
    }
}

/// Separators and `.` components at the end of a path do not count, and nothing else is left out.
pub proof fn law_endings_do_not_count(path: Seq<char>)
    ensures
        path.len() > 0 ==> trimmed(path + seq!['/']) == trimmed(path),
        path.len() > 0 ==> trimmed(path + seq!['/', '.']) == trimmed(path),
        trimmed(seq!['/', '.']) == seq!['/'],
        path.len() < 2 ==> trimmed(path) == path,
        path.len() >= 2 && path.last() != '/' && !(path.last() == '.' && path[path.len() - 2]
            == '/') ==> trimmed(path) == path,
{
    let slash = path + seq!['/'];
    let dot = path + seq!['/', '.'];
    if path.len() > 0 {
        assert(slash.drop_last() == path);
        assert(dot.drop_last() == slash);
        assert(dot[dot.len() - 2] == '/');
    }
    assert(seq!['/', '.'].drop_last() == seq!['/']);
    assert(trimmed(seq!['/']) == seq!['/']);
    assert(trimmed(seq!['/', '.']) == trimmed(seq!['/', '.'].drop_last()));
}

/// The directory and the name of a path that ends in a component behind a separator: the directory is
/// what stands in front of the separator, and the component is the name, unless it is `..`.
pub proof fn law_paths_end_in_a_component(directory: Seq<char>, name: Seq<char>)
    requires
        name.len() > 0,
        !name.contains('/'),
        name != seq!['.'],
    ensures
        parent_of(directory + seq!['/'] + name) == Some(trimmed(directory + seq!['/'])),
        file_name_of(directory + seq!['/'] + name) == (if name == seq!['.', '.'] {
            None
        } else {
            Some(name)
        }),
{
    let above = directory + seq!['/'];
    let path = above + name;
    assert(path.last() == name.last() && name.contains(name.last()));
    if path.last() == '.' && path[path.len() - 2] == '/' {
        if name.len() > 1 {
            assert(name[name.len() - 2] == '/');
            assert(name.contains('/'));
        } else {
            assert(name =~= seq!['.']);
        }
    }
    assert(trimmed(path) == path);
    lemma_base_of_name(above, name);
    assert(path.take(above.len() as int) == above);
    assert(path.skip(above.len() as int) == name);
    reveal_strlit(".");
    reveal_strlit("..");
    assert("."@ =~= seq!['.']);
    assert(".."@ =~= seq!['.', '.']);
}

/// The directory and the name of a path without separators: the directory is empty, and all of the
/// path is the name, unless it is `.` or `..`.
pub proof fn law_paths_may_be_a_name(name: Seq<char>)
    requires
        name.len() > 0,
        !name.contains('/'),
    ensures
        parent_of(name) == Some(Seq::<char>::empty()),
        file_name_of(name) == (if name == seq!['.'] || name == seq!['.', '.'] {
            None
        } else {
            Some(name)
        }),
{
    assert forall|i: int| 0 <= i < name.len() implies name[i] != '/' by {
        assert(name.contains(name[i]));
    }
    assert(trimmed(name) == name);
    lemma_base_without_separators(name);
    assert(name.take(0) == Seq::<char>::empty());
    assert(name.skip(0) == name);
    reveal_strlit(".");
    reveal_strlit("..");
    assert("."@ =~= seq!['.']);
    assert(".."@ =~= seq!['.', '.']);
}

/// Without separators the last component is the whole path.
proof fn lemma_base_without_separators(path: Seq<char>)
    requires
        forall|i: int| 0 <= i < path.len() ==> #[trigger] path[i] != '/',
    ensures
        base_start(path) == 0,
    decreases path.len(),
{
    if path.len() > 0 {
        assert(path[path.len() - 1] != '/');
        assert forall|i: int| 0 <= i < path.drop_last().len() implies #[trigger] path.drop_last()[i]
            != '/' by {
            assert(path[i] != '/');
        }
        lemma_base_without_separators(path.drop_last());
    }
}

/// What ends do not count has no say in the directory and the name, and neither the empty path nor
/// the root has either of them.
pub proof fn law_directory_is_that_of_the_trimmed_path(path: Seq<char>)
    ensures
        parent_of(path) == parent_of(trimmed(path)),
        file_name_of(path) == file_name_of(trimmed(path)),
        parent_of(Seq::empty()) is None,
        parent_of(seq!['/']) is None,
        file_name_of(Seq::empty()) is None,
        file_name_of(seq!['/']) is None,
{
    lemma_trimmed_twice(path);
}

/// A trimmed path is not trimmed any further.
proof fn lemma_trimmed_twice(path: Seq<char>)
    ensures
        trimmed(trimmed(path)) == trimmed(path),
    decreases path.len(),
{
    if path.len() >= 2 {
        lemma_trimmed_twice(path.drop_last());
    }
}

/// A name is put behind a directory with one separator between them; a name that begins with a
/// separator replaces the directory. A path is renamed within its directory, and a path without a
/// name is extended.
pub proof fn law_names_are_put_behind_directories(path: Seq<char>, name: Seq<char>)
    ensures
        name.len() > 0 && name[0] == '/' ==> joined(path, name) == name,
        name.len() == 0 || name[0] != '/' ==> {
            &&& path.len() == 0 ==> joined(path, name) == name
            &&& path.len() > 0 && path.last() == '/' ==> joined(path, name) == path + name
            &&& path.len() > 0 && path.last() != '/' ==> joined(path, name) == path + seq!['/']
                + name
        },
        file_name_of(path) is Some ==> parent_of(path) is Some && renamed(path, name) == joined(
            parent_of(path)->0,
            name,
        ),
        file_name_of(path) is None ==> renamed(path, name) == joined(path, name),
{
    reveal_strlit("/");
    assert("/"@ =~= seq!['/']);
    assert(path.len() == 0 ==> path + name =~= name);
}

} // verus!
