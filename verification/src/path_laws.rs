//! What the components of a path are, and what is made of them.

use crate::paths;
use crate::resolver;
use vstd::prelude::*;

verus! {

/// A text without slashes is one component, or none where it is empty.
pub proof fn text_without_slashes_is_one_component(s: Seq<char>)
    requires
        !s.contains('/'),
    ensures
        s.len() > 0 ==> paths::path_components(s) == seq![s],
        s.len() == 0 ==> paths::path_components(s) == Seq::<Seq<char>>::empty(),
{
    paths::one_piece(s, '/');
    assert(!paths::is_absolute(s)) by {
        if paths::is_absolute(s) {
            assert(s.contains(s[0]));
        }
    }
    let list = seq![s];
    assert(list.drop_last() =~= Seq::empty());
    assert(paths::counted(list.drop_last()) =~= Seq::empty());
    if s.len() > 0 {
        assert(paths::counted(list) =~= seq![s]);
        assert(Seq::<Seq<char>>::empty() + seq![s] =~= seq![s]);
        assert(paths::path_components(s) =~= seq![s]);
    } else {
        assert(paths::path_components(s) =~= Seq::empty());
    }
}

/// What follows a slash adds its component to those before; so doubled slashes, slashes at the end
/// and dots between slashes make no difference.
pub proof fn slash_divides_components(a: Seq<char>, b: Seq<char>)
    requires
        a.len() > 0,
        !b.contains('/'),
    ensures
        b.len() == 0 || b == "."@ ==> paths::path_components(a + "/"@ + b)
            == paths::path_components(a),
        b.len() > 0 && b != "."@ ==> paths::path_components(a + "/"@ + b) == paths::path_components(
            a,
        ) + seq![b],
{
    reveal_strlit("/");
    reveal_strlit(".");
    assert("."@ =~= seq!['.']);
    let s = a + "/"@ + b;
    assert(s =~= a.push('/') + b);
    paths::one_more_piece(a, b, '/');
    let all = paths::pieces(a, '/');
    pieces_are_some(a, '/');
    assert(all.push(b).drop_last() =~= all);
    assert(s[0] == a[0]);
    let added = if b.len() == 0 || b == seq!['.'] {
        Seq::empty()
    } else {
        seq![b]
    };
    assert(paths::counted(all.push(b)) =~= paths::counted(all) + added);
    assert(paths::path_components(s) =~= paths::path_components(a) + added);
    assert(paths::path_components(a) + Seq::empty() =~= paths::path_components(a));
}

proof fn pieces_are_some(s: Seq<char>, sep: char)
    ensures
        paths::pieces(s, sep).len() > 0,
    decreases s.len(),
{
    if s.len() > 0 {
        pieces_are_some(s.drop_last(), sep);
    }
}

/// A slash at the start is the root.
pub proof fn slash_at_the_start_is_the_root(b: Seq<char>)
    requires
        !b.contains('/'),
    ensures
        b.len() == 0 || b == "."@ ==> paths::path_components("/"@ + b) == seq!["/"@],
        b.len() > 0 && b != "."@ ==> paths::path_components("/"@ + b) == seq!["/"@, b],
{
    reveal_strlit("/");
    reveal_strlit(".");
    assert("."@ =~= seq!['.']);
    assert("/"@ =~= seq!['/']);
    let none = Seq::<char>::empty();
    let s = "/"@ + b;
    assert(s =~= none.push('/') + b);
    paths::one_more_piece(none, b, '/');
    let all = paths::pieces(none, '/');
    assert(all.push(b).drop_last() =~= all);
    assert(all =~= seq![none]);
    assert(seq![none].drop_last() =~= Seq::empty());
    assert(paths::counted(seq![none].drop_last()) =~= Seq::empty());
    assert(paths::counted(all) =~= Seq::empty());
    let added = if b.len() == 0 || b == seq!['.'] {
        Seq::empty()
    } else {
        seq![b]
    };
    assert(paths::counted(all.push(b)) =~= added);
    assert(paths::path_components(s) =~= seq!["/"@] + added);
    assert(seq!["/"@] + Seq::empty() =~= seq!["/"@]);
    assert(seq!["/"@] + seq![b] =~= seq!["/"@, b]);
}

/// Two texts spell the same path exactly where their components are the same.
pub proof fn same_paths_have_the_same_components(a: Seq<char>, b: Seq<char>)
    ensures
        paths::same_path(a, b) == (paths::path_components(a) =~= paths::path_components(b)),
{
}

/// The name of a file is the last component of its path, unless that is the root or made of dots;
/// and it is what the file is called, or else the whole path is.
pub proof fn last_component_is_the_name(path: Seq<char>)
    ensures
        ({
            let all = paths::path_components(path);
            let named = all.len() > 0 && all.last() != "/"@ && all.last() != "."@ && all.last()
                != ".."@;
            &&& named ==> paths::path_file_name(path) == Some(all.last())
            &&& !named ==> paths::path_file_name(path) is None
            &&& named ==> paths::path_label(path) == all.last()
            &&& !named ==> paths::path_label(path) == path
        }),
{
    reveal_strlit("/");
    reveal_strlit(".");
    reveal_strlit("..");
    assert("/"@ =~= seq!['/']);
    assert("."@ =~= seq!['.']);
    assert(".."@ =~= seq!['.', '.']);
}

/// A file in a directory is called by its name, whatever the directory.
pub proof fn file_is_called_by_its_name(dir: Seq<char>, name: Seq<char>)
    requires
        name.len() > 0,
        !name.contains('/'),
        name != "."@,
        name != ".."@,
    ensures
        paths::path_label(paths::joined(dir, name)) == name,
{
    reveal_strlit(".");
    reveal_strlit("..");
    assert("."@ =~= seq!['.']);
    assert(".."@ =~= seq!['.', '.']);
    paths::join_adds_a_component(dir, name);
    assert(name.contains(name[0]));
    assert(name != seq!['/']);
}

/// A name goes behind a directory with one slash between; an absolute one stands for itself.
pub proof fn one_slash_joins(dir: Seq<char>, name: Seq<char>)
    ensures
        name.len() > 0 && name[0] == '/' ==> paths::joined(dir, name) == name,
        dir.len() == 0 ==> paths::joined(dir, name) == name,
        !(name.len() > 0 && name[0] == '/') && dir.len() > 0 && dir.last() == '/'
            ==> paths::joined(dir, name) == dir + name,
        !(name.len() > 0 && name[0] == '/') && dir.len() > 0 && dir.last() != '/'
            ==> paths::joined(dir, name) == dir + "/"@ + name,
{
    reveal_strlit("/");
    assert(dir.push('/') + name =~= dir + "/"@ + name);
}

/// The extension of a name is what stands behind its last dot, unless that is the first character,
/// and the stem is what stands before; without a dot the name is its stem.
pub proof fn last_dot_divides_a_name(stem: Seq<char>, extension: Seq<char>)
    requires
        stem.len() > 0,
        !extension.contains('.'),
    ensures
        paths::name_stem(stem + "."@ + extension) == stem,
        paths::name_extension(stem + "."@ + extension) == Some(extension),
{
    reveal_strlit(".");
    let name = stem + "."@ + extension;
    last_dot_is_at(stem, extension);
    assert(name.take(stem.len() as int) =~= stem);
    assert(name.skip(stem.len() as int + 1) =~= extension);
}

proof fn last_dot_is_at(stem: Seq<char>, extension: Seq<char>)
    requires
        !extension.contains('.'),
    ensures
        paths::last_dot(stem + "."@ + extension) == stem.len(),
    decreases extension.len(),
{
    reveal_strlit(".");
    let name = stem + "."@ + extension;
    if extension.len() > 0 {
        let front = extension.drop_last();
        assert(extension.contains(extension.last()));
        assert forall|i: int| 0 <= i < front.len() implies front[i] != '.' by {
            assert(extension.contains(extension[i]));
        }
        last_dot_is_at(stem, front);
        assert(name.drop_last() =~= stem + "."@ + front);
    }
}

/// A name without a dot behind its first character has no extension.
pub proof fn name_without_dots_is_its_stem(name: Seq<char>)
    requires
        forall|i: int| 0 < i < name.len() ==> #[trigger] name[i] != '.',
    ensures
        paths::name_stem(name) == name,
        paths::name_extension(name) is None,
{
    no_dot_behind(name);
}

proof fn no_dot_behind(name: Seq<char>)
    requires
        forall|i: int| 0 < i < name.len() ==> #[trigger] name[i] != '.',
    ensures
        paths::last_dot(name) <= 0,
    decreases name.len(),
{
    if name.len() > 1 {
        let front = name.drop_last();
        assert forall|i: int| 0 < i < front.len() implies #[trigger] front[i] != '.' by {
            assert(front[i] == name[i]);
        }
        assert(name[name.len() - 1] != '.');
        no_dot_behind(front);
    } else if name.len() == 1 {
        if name.last() != '.' {
            assert(name.drop_last() =~= Seq::empty());
            assert(paths::last_dot(name.drop_last()) == -1);
        }
    }
}

/// The directory of a path is where the path begins, and the file in it is the path again; a path
/// without components, or the root, is in no directory.
pub proof fn parent_and_name_make_up_the_path(path: Seq<char>)
    ensures
        ({
            let all = paths::path_components(path);
            &&& paths::path_parent(path) is Some == (all.len() > 0 && all.last() != "/"@)
            &&& paths::path_parent(path) is Some ==> {
                let dir = paths::path_parent(path)->0;
                &&& dir.is_prefix_of(path)
                &&& paths::path_components(dir) == all.drop_last()
                &&& forall|n: int|
                    0 <= n < dir.len() ==> paths::path_components(#[trigger] path.take(n))
                        != all.drop_last()
            }
        }),
{
    reveal_strlit("/");
    assert("/"@ =~= seq!['/']);
    let all = paths::path_components(path);
    if all.len() > 0 && all.last() != seq!['/'] {
        paths::parent_drops_last_component(path);
        shortest_is_first(path, all.drop_last(), 0);
    }
}

proof fn shortest_is_first(s: Seq<char>, target: Seq<Seq<char>>, n: int)
    requires
        0 <= n,
        paths::shortest_prefix(s, target, n) is Some,
    ensures
        ({
            let found = paths::shortest_prefix(s, target, n)->0;
            &&& n <= found.len() <= s.len()
            &&& found == s.take(found.len() as int)
            &&& found.is_prefix_of(s)
            &&& forall|k: int|
                n <= k < found.len() ==> paths::path_components(#[trigger] s.take(k)) != target
        }),
    decreases s.len() + 1 - n,
{
    if n <= s.len() && paths::path_components(s.take(n)) == target {
        assert(s.take(n) =~= s.subrange(0, n));
    } else {
        assert(n + 1 <= s.len() + 1);
        shortest_is_first(s, target, n + 1);
    }
}

/// Of paths that are listed more than once the first spelling stays, in its place.
pub proof fn first_spelling_stays(list: Seq<Seq<char>>, next: Seq<char>)
    ensures
        resolver::distinct_paths(Seq::empty()) == Seq::<Seq<char>>::empty(),
        (exists|i: int| 0 <= i < list.len() && paths::same_path(#[trigger] list[i], next))
            ==> resolver::distinct_paths(list + seq![next]) == resolver::distinct_paths(list),
        !(exists|i: int| 0 <= i < list.len() && paths::same_path(#[trigger] list[i], next))
            ==> resolver::distinct_paths(list + seq![next]) == resolver::distinct_paths(list)
            + seq![next],
{
    let all = list + seq![next];
    assert(all.drop_last() =~= list);
    assert(all.last() == next);
    assert(resolver::distinct_paths(list).push(next) =~= resolver::distinct_paths(list) + seq![
        next,
    ]);
}

} // verus!
