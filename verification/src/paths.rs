//! Slash-separated paths as text.
//!
//! A path's identity is its list of components: repeated slashes, trailing slashes and every `.`
//! but a leading one leave no trace in it.

use crate::text;
use vstd::prelude::*;

verus! {

/// The stretches of `s` between the occurrences of `sep`.
pub open spec fn pieces(s: Seq<char>, sep: char) -> Seq<Seq<char>>
    decreases s.len(),
{
    if s.len() == 0 {
        seq![Seq::<char>::empty()]
    } else {
        let front = pieces(s.drop_last(), sep);
        if s.last() == sep {
            front.push(Seq::<char>::empty())
        } else {
            front.drop_last().push(front.last().push(s.last()))
        }
    }
}

/// The stretches of `s` between the occurrences of `sep`.
pub fn split(s: &[char], sep: char) -> (res: Vec<Vec<char>>)
    ensures
        text::char_lists(res@) == pieces(s@, sep),
        res@.len() > 0,
{
    let mut done: Vec<Vec<char>> = Vec::new();
    let mut current: Vec<char> = Vec::new();
    let mut i: usize = 0;
    assert(s@.take(0) =~= Seq::<char>::empty());
    assert(pieces(s@.take(0), sep) =~= text::char_lists(done@).push(current@));
    while i < s.len()
        invariant
            i <= s@.len(),
            pieces(s@.take(i as int), sep) == text::char_lists(done@).push(current@),
        decreases s@.len() - i,
    {
        let c: char = s[i];
        let ghost front = pieces(s@.take(i as int), sep);
        proof {
            assert(s@.take(i + 1).drop_last() =~= s@.take(i as int));
            assert(s@.take(i + 1).last() == c);
            assert(front.drop_last() =~= text::char_lists(done@));
            assert(front.last() == current@);
        }
        if c == sep {
            let ghost old_done = text::char_lists(done@);
            let ghost piece = current@;
            done.push(current);
            current = Vec::new();
            assert(text::char_lists(done@) =~= old_done.push(piece));
        } else {
            current.push(c);
        }
        i = i + 1;
    }
    assert(s@.take(i as int) =~= s@);
    let ghost old_done = text::char_lists(done@);
    let ghost piece = current@;
    done.push(current);
    assert(text::char_lists(done@) =~= old_done.push(piece));
    done
}

/// A piece at position `i` counts as a component unless it is empty or a `.` that is not leading.
pub open spec fn counts(i: int, piece: Seq<char>) -> bool {
    piece.len() > 0 && (i == 0 || piece != seq!['.'])
}

/// The pieces that count, in order.
pub open spec fn counted(pieces: Seq<Seq<char>>) -> Seq<Seq<char>>
    decreases pieces.len(),
{
    if pieces.len() == 0 {
        seq![]
    } else {
        let front = counted(pieces.drop_last());
        if counts(pieces.len() - 1, pieces.last()) {
            front.push(pieces.last())
        } else {
            front
        }
    }
}

/// The path starts at the root.
pub open spec fn is_absolute(s: Seq<char>) -> bool {
    s.len() > 0 && s[0] == '/'
}

/// The components of a path: the root as `/`, a leading `.`, each `..` and each name.
pub open spec fn path_components(s: Seq<char>) -> Seq<Seq<char>> {
    (if is_absolute(s) {
        seq![seq!['/']]
    } else {
        seq![]
    }) + counted(pieces(s, '/'))
}

/// The components of a path.
pub fn components(s: &str) -> (res: Vec<Vec<char>>)
    ensures
        text::char_lists(res@) == path_components(s@),
{
    let chars: Vec<char> = text::chars_of(s);
    components_of(chars.as_slice())
}

/// The components of a path that is given by its characters.
pub fn components_of(chars: &[char]) -> (res: Vec<Vec<char>>)
    ensures
        text::char_lists(res@) == path_components(chars@),
{
    let split: Vec<Vec<char>> = split(chars, '/');
    let mut res: Vec<Vec<char>> = Vec::new();
    if chars.len() > 0 && chars[0] == '/' {
        let mut root: Vec<char> = Vec::new();
        root.push('/');
        assert(root@ =~= seq!['/']);
        res.push(root);
        assert(text::char_lists(res@) =~= seq![seq!['/']]);
    } else {
        assert(text::char_lists(res@) =~= seq![]);
    }
    let ghost start = text::char_lists(res@);
    let ghost all = text::char_lists(split@);
    let mut i: usize = 0;
    assert(counted(all.take(0)) =~= seq![]);
    while i < split.len()
        invariant
            i <= split@.len(),
            all == text::char_lists(split@),
            text::char_lists(res@) == start + counted(all.take(i as int)),
        decreases split@.len() - i,
    {
        let piece: Vec<char> = text::subvec(split[i].as_slice(), 0, split[i].len());
        proof {
            assert(all[i as int] =~= piece@);
            assert(all.take(i + 1).drop_last() =~= all.take(i as int));
            assert(piece@.len() == 1 && piece@[0] == '.' ==> piece@ =~= seq!['.']);
        }
        let dot: bool = piece.len() == 1 && piece[0] == '.';
        if piece.len() > 0 && (i == 0 || !dot) {
            let ghost before = text::char_lists(res@);
            let ghost added = piece@;
            res.push(piece);
            assert(text::char_lists(res@) =~= before.push(added));
        }
        i = i + 1;
    }
    assert(all.take(i as int) =~= all);
    res
}

/// The two texts name the same path.
pub open spec fn same_path(a: Seq<char>, b: Seq<char>) -> bool {
    path_components(a) == path_components(b)
}

/// Whether the two texts name the same path.
pub fn is_same_path(a: &str, b: &str) -> (res: bool)
    ensures
        res == same_path(a@, b@),
{
    let x: Vec<Vec<char>> = components(a);
    let y: Vec<Vec<char>> = components(b);
    same_components(&x, &y)
}

/// Whether the two lists of components are the same.
pub fn same_components(a: &Vec<Vec<char>>, b: &Vec<Vec<char>>) -> (res: bool)
    ensures
        res == (text::char_lists(a@) == text::char_lists(b@)),
{
    let ghost av = text::char_lists(a@);
    let ghost bv = text::char_lists(b@);
    if a.len() != b.len() {
        assert(av.len() != bv.len());
        return false;
    }
    let mut i: usize = 0;
    while i < a.len()
        invariant
            av == text::char_lists(a@),
            bv == text::char_lists(b@),
            a@.len() == b@.len(),
            i <= a@.len(),
            forall|j: int| 0 <= j < i ==> av[j] == bv[j],
        decreases a@.len() - i,
    {
        proof {
            assert(av[i as int] == a@[i as int]@);
            assert(bv[i as int] == b@[i as int]@);
        }
        if !text::same_chars(a[i].as_slice(), b[i].as_slice()) {
            return false;
        }
        i = i + 1;
    }
    assert(av =~= bv);
    true
}

/// A component that names a file or directory.
pub open spec fn is_name(component: Seq<char>) -> bool {
    component != seq!['/'] && component != seq!['.'] && component != seq!['.', '.']
}

/// The last component of a path, where that is a name.
pub open spec fn path_file_name(s: Seq<char>) -> Option<Seq<char>> {
    let all = path_components(s);
    if all.len() > 0 && is_name(all.last()) {
        Some(all.last())
    } else {
        None
    }
}

/// The last component of a path, where that is a name.
pub fn file_name(s: &str) -> (res: Option<Vec<char>>)
    ensures
        match res {
            Some(name) => path_file_name(s@) == Some(name@),
            None => path_file_name(s@) is None,
        },
{
    let mut all: Vec<Vec<char>> = components(s);
    let ghost before = text::char_lists(all@);
    match all.pop() {
        None => None,
        Some(last) => {
            proof {
                assert(before.last() == last@);
                assert(last@.len() == 1 ==> last@ =~= seq![last@[0]]);
                assert(last@.len() == 2 ==> last@ =~= seq![last@[0], last@[1]]);
            }
            if last.len() == 1 && (last[0] == '/' || last[0] == '.') {
                None
            } else if last.len() == 2 && last[0] == '.' && last[1] == '.' {
                None
            } else {
                proof {
                    assert(seq!['/'][0] == '/' && seq!['.'][0] == '.');
                    assert(seq!['.', '.'][0] == '.' && seq!['.', '.'][1] == '.');
                }
                Some(last)
            }
        },
    }
}

/// How a path is shown as the source of a line: its file name, or all of it where it has none.
pub open spec fn path_label(s: Seq<char>) -> Seq<char> {
    match path_file_name(s) {
        Some(name) => name,
        None => s,
    }
}

/// How a path is shown as the source of a line.
pub fn label(s: &str) -> (res: String)
    ensures
        res@ == path_label(s@),
{
    match file_name(s) {
        Some(name) => text::text_of(name.as_slice()),
        None => s.to_owned(),
    }
}

/// The position of the last `.` in a name, or -1.
pub open spec fn last_dot(name: Seq<char>) -> int
    decreases name.len(),
{
    if name.len() == 0 {
        -1
    } else if name.last() == '.' {
        name.len() - 1
    } else {
        last_dot(name.drop_last())
    }
}

/// A file name without its extension. A name that only starts with a dot has no extension.
pub open spec fn name_stem(name: Seq<char>) -> Seq<char> {
    if last_dot(name) > 0 {
        name.take(last_dot(name))
    } else {
        name
    }
}

/// What follows the last dot of a file name, unless that dot is its first character.
pub open spec fn name_extension(name: Seq<char>) -> Option<Seq<char>> {
    if last_dot(name) > 0 {
        Some(name.skip(last_dot(name) + 1))
    } else {
        None
    }
}

/// A file name as its stem and its extension.
pub fn split_extension(name: &[char]) -> (res: (Vec<char>, Option<Vec<char>>))
    ensures
        res.0@ == name_stem(name@),
        match res.1 {
            Some(extension) => name_extension(name@) == Some(extension@),
            None => name_extension(name@) is None,
        },
{
    let mut i: usize = name.len();
    assert(name@.take(i as int) =~= name@);
    while i > 1
        invariant
            i <= name@.len(),
            last_dot(name@) == last_dot(name@.take(i as int)),
        decreases i,
    {
        if name[i - 1] == '.' {
            let stem: Vec<char> = text::subvec(name, 0, i - 1);
            let extension: Vec<char> = text::subvec(name, i, name.len());
            assert(stem@ =~= name@.take(i - 1));
            assert(extension@ =~= name@.skip(i as int));
            return (stem, Some(extension));
        }
        assert(name@.take(i as int).drop_last() =~= name@.take(i - 1));
        i = i - 1;
    }
    let stem: Vec<char> = text::subvec(name, 0, name.len());
    proof {
        assert(stem@ =~= name@);
        assert(name@.take(0) =~= Seq::<char>::empty());
        if i == 1 {
            assert(last_dot(name@.take(1).drop_last()) == -1);
        }
    }
    (stem, None)
}

/// The shortest prefix of `s`, from `n` characters on, that has the components `target`.
pub open spec fn shortest_prefix(s: Seq<char>, target: Seq<Seq<char>>, n: int) -> Option<Seq<char>>
    decreases s.len() + 1 - n,
{
    if n < 0 || n > s.len() {
        None
    } else if path_components(s.take(n)) == target {
        Some(s.take(n))
    } else {
        shortest_prefix(s, target, n + 1)
    }
}

/// A path without its last component: its shortest prefix that names what is left. The root and
/// the empty path have no parent.
pub open spec fn path_parent(s: Seq<char>) -> Option<Seq<char>> {
    let all = path_components(s);
    if all.len() == 0 || all.last() == seq!['/'] {
        None
    } else {
        shortest_prefix(s, all.drop_last(), 0)
    }
}

/// A path without its last component.
pub fn parent(s: &str) -> (res: Option<String>)
    ensures
        match res {
            Some(dir) => path_parent(s@) == Some(dir@),
            None => path_parent(s@) is None,
        },
{
    let chars: Vec<char> = text::chars_of(s);
    let mut rest: Vec<Vec<char>> = components_of(chars.as_slice());
    let ghost before = text::char_lists(rest@);
    match rest.pop() {
        None => None,
        Some(last) => {
            proof {
                assert(before.last() == last@);
                assert(last@.len() == 1 ==> last@ =~= seq![last@[0]]);
                assert(seq!['/'][0] == '/');
                assert(text::char_lists(rest@) =~= before.drop_last());
            }
            if last.len() == 1 && last[0] == '/' {
                return None;
            }
            let mut n: usize = 0;
            while n < chars.len()
                invariant
                    chars@ == s@,
                    n <= chars@.len(),
                    path_parent(s@) == shortest_prefix(s@, text::char_lists(rest@), n as int),
                decreases chars@.len() - n,
            {
                let prefix: Vec<char> = text::subvec(chars.as_slice(), 0, n);
                assert(prefix@ =~= s@.take(n as int));
                let found: Vec<Vec<char>> = components_of(prefix.as_slice());
                if same_components(&found, &rest) {
                    return Some(text::text_of(prefix.as_slice()));
                }
                n = n + 1;
            }
            proof {
                assert(s@.take(n as int) =~= s@);
                assert(before.len() != text::char_lists(rest@).len());
                assert(shortest_prefix(s@, text::char_lists(rest@), n + 1) is None);
            }
            None
        },
    }
}

/// The path of `name` in the directory `dir`.
pub open spec fn joined(dir: Seq<char>, name: Seq<char>) -> Seq<char> {
    if is_absolute(name) || dir.len() == 0 {
        name
    } else if dir.last() == '/' {
        dir + name
    } else {
        dir.push('/') + name
    }
}

/// The path of `name` in the directory `dir`.
pub fn join(dir: &str, name: &str) -> (res: String)
    ensures
        res@ == joined(dir@, name@),
{
    let dir_chars: Vec<char> = text::chars_of(dir);
    let name_chars: Vec<char> = text::chars_of(name);
    if dir_chars.len() == 0 || (name_chars.len() > 0 && name_chars[0] == '/') {
        return name.to_owned();
    }
    let mut res: String = dir.to_owned();
    if dir_chars[dir_chars.len() - 1] != '/' {
        res.push('/');
    }
    res.append(name);
    res
}

proof fn last_piece(s: Seq<char>, sep: char)
    ensures
        pieces(s, sep).len() > 0,
        pieces(s, sep).last().len() <= s.len(),
        pieces(s, sep).last() == s.skip(s.len() - pieces(s, sep).last().len()),
        !pieces(s, sep).last().contains(sep),
        pieces(s.take(s.len() - pieces(s, sep).last().len()), sep) == pieces(
            s,
            sep,
        ).drop_last().push(Seq::<char>::empty()),
    decreases s.len(),
{
    let all = pieces(s, sep);
    if s.len() == 0 {
        assert(s.skip(0) =~= s);
        assert(s.take(0) =~= s);
        assert(all.drop_last().push(Seq::<char>::empty()) =~= all);
    } else {
        let front = s.drop_last();
        last_piece(front, sep);
        let before = pieces(front, sep);
        if s.last() == sep {
            assert(s.take(s.len() as int) =~= s);
            assert(all.drop_last().push(Seq::<char>::empty()) =~= all);
            assert(s.skip(s.len() as int) =~= Seq::<char>::empty());
        } else {
            let piece = before.last();
            assert(all.drop_last() =~= before.drop_last());
            assert(s.take(s.len() - piece.len() - 1) =~= front.take(front.len() - piece.len()));
            assert(s.skip(s.len() - piece.len() - 1) =~= front.skip(
                front.len() - piece.len(),
            ).push(s.last()));
            assert forall|c: char| piece.push(s.last()).contains(c) implies piece.contains(c) || c
                == s.last() by {
                let i = choose|i: int|
                    0 <= i < piece.push(s.last()).len() && piece.push(s.last())[i] == c;
                if i < piece.len() {
                    assert(piece[i] == c);
                }
            }
        }
    }
}

proof fn prefix_without_last_component(s: Seq<char>) -> (n: int)
    requires
        path_components(s).len() > 0,
        path_components(s).last() != seq!['/'],
    ensures
        0 <= n <= s.len(),
        path_components(s.take(n)) == path_components(s).drop_last(),
    decreases s.len(),
{
    let all = pieces(s, '/');
    last_piece(s, '/');
    let piece = all.last();
    let cut = s.len() - piece.len();
    let t = s.take(cut);
    if is_absolute(s) && cut == 0 {
        assert(piece[0] == s[0]);
    }
    assert(is_absolute(t) == is_absolute(s));
    if counts(all.len() - 1, piece) {
        assert(pieces(t, '/').drop_last() =~= all.drop_last());
        assert(path_components(t) =~= path_components(s).drop_last());
        cut
    } else {
        if cut == 0 {
            assert(t =~= Seq::<char>::empty());
            assert(pieces(t, '/').len() == 1);
            assert(all.drop_last() =~= seq![]);
            assert(counted(all.drop_last()) =~= seq![]);
            assert(path_components(s) =~= seq![]);
        }
        let u = t.drop_last();
        if t.last() != '/' {
            let front = pieces(u, '/');
            assert(pieces(t, '/').last() == front.last().push(t.last()));
            assert(pieces(t, '/').last().len() == 0);
        }
        assert(pieces(t, '/').drop_last() =~= all.drop_last());
        assert(pieces(t, '/').drop_last() =~= pieces(u, '/'));
        assert(pieces(u, '/') =~= all.drop_last());
        if u.len() == 0 {
            assert(counted(pieces(u, '/').drop_last()) =~= seq![]);
            assert(counted(pieces(u, '/')) =~= seq![]);
            assert(path_components(s) =~= seq![seq!['/']]);
        }
        assert(path_components(u) =~= path_components(s));
        let n = prefix_without_last_component(u);
        assert(u.take(n) =~= s.take(n));
        n
    }
}

proof fn shortest_prefix_found(s: Seq<char>, target: Seq<Seq<char>>, from: int, n: int)
    requires
        0 <= from <= n <= s.len(),
        path_components(s.take(n)) == target,
    ensures
        shortest_prefix(s, target, from) is Some,
        path_components(shortest_prefix(s, target, from)->0) == target,
    decreases n - from,
{
    if path_components(s.take(from)) != target {
        shortest_prefix_found(s, target, from + 1, n);
    }
}

/// A path with a component other than the root has a parent, and the parent's components are the
/// path's without the last.
pub proof fn parent_drops_last_component(s: Seq<char>)
    requires
        path_components(s).len() > 0,
        path_components(s).last() != seq!['/'],
    ensures
        path_parent(s) is Some,
        path_components(path_parent(s)->0) == path_components(s).drop_last(),
{
    let n = prefix_without_last_component(s);
    shortest_prefix_found(s, path_components(s).drop_last(), 0, n);
}

/// Text without the separator is one piece.
pub proof fn one_piece(s: Seq<char>, sep: char)
    requires
        !s.contains(sep),
    ensures
        pieces(s, sep) == seq![s],
    decreases s.len(),
{
    if s.len() > 0 {
        let front = s.drop_last();
        assert forall|i: int| 0 <= i < front.len() implies front[i] != sep by {
            assert(s[i] == front[i]);
        }
        one_piece(front, sep);
        assert(s.last() != sep);
        assert(front.push(s.last()) =~= s);
        assert(pieces(s, sep) =~= seq![s]);
    } else {
        assert(s =~= seq![]);
        assert(pieces(s, sep) =~= seq![s]);
    }
}

/// What follows the last separator is the last piece.
pub proof fn one_more_piece(a: Seq<char>, b: Seq<char>, sep: char)
    requires
        !b.contains(sep),
    ensures
        pieces(a.push(sep) + b, sep) == pieces(a, sep).push(b),
    decreases b.len(),
{
    let s = a.push(sep) + b;
    if b.len() > 0 {
        let front = b.drop_last();
        assert forall|i: int| 0 <= i < front.len() implies front[i] != sep by {
            assert(b[i] == front[i]);
        }
        one_more_piece(a, front, sep);
        assert(s.drop_last() =~= a.push(sep) + front);
        assert(b.last() != sep);
        assert(front.push(b.last()) =~= b);
        assert(pieces(s, sep) =~= pieces(a, sep).push(b));
    } else {
        assert(s =~= a.push(sep));
        assert(s.drop_last() =~= a);
        assert(b =~= seq![]);
        assert(pieces(s, sep) =~= pieces(a, sep).push(b));
    }
}

/// Every character but the separators stands in a piece.
pub proof fn pieces_hold_the_rest(s: Seq<char>, sep: char, k: int) -> (i: int)
    requires
        0 <= k < s.len(),
        s[k] != sep,
    ensures
        0 <= i < pieces(s, sep).len(),
        pieces(s, sep)[i].contains(s[k]),
    decreases s.len(),
{
    let front = s.drop_last();
    let before = pieces(front, sep);
    let all = pieces(s, sep);
    last_piece(front, sep);
    if k == s.len() - 1 {
        let piece = all[all.len() - 1];
        assert(piece[piece.len() - 1] == s[k]);
        all.len() - 1
    } else {
        let i = pieces_hold_the_rest(front, sep, k);
        if s.last() != sep && i == before.len() - 1 {
            let j = choose|j: int| 0 <= j < before[i].len() && before[i][j] == s[k];
            assert(all[i] == before[i].push(s.last()));
            assert(all[i][j] == s[k]);
        } else {
            assert(all[i] == before[i]);
        }
        i
    }
}

proof fn pieces_hold_no_separator(s: Seq<char>, sep: char, i: int)
    requires
        0 <= i < pieces(s, sep).len(),
    ensures
        !pieces(s, sep)[i].contains(sep),
        forall|c: char| pieces(s, sep)[i].contains(c) ==> s.contains(c),
    decreases s.len(),
{
    if s.len() > 0 {
        let front = s.drop_last();
        let before = pieces(front, sep);
        let piece = pieces(s, sep)[i];
        last_piece(front, sep);
        assert forall|c: char| front.contains(c) implies s.contains(c) by {
            let k = choose|k: int| 0 <= k < front.len() && front[k] == c;
            assert(s[k] == c);
        }
        if i < before.len() {
            pieces_hold_no_separator(front, sep, i);
            if s.last() != sep && i == before.len() - 1 {
                assert(piece == before[i].push(s.last()));
                assert forall|c: char| piece.contains(c) implies s.contains(c) && c != sep by {
                    let k = choose|k: int| 0 <= k < piece.len() && piece[k] == c;
                    if k < before[i].len() {
                        assert(before[i][k] == c);
                        assert(before[i].contains(c));
                    } else {
                        assert(s[s.len() - 1] == c);
                    }
                }
            } else {
                assert(piece == before[i]);
            }
        }
    }
}

proof fn counted_pieces_are_pieces(all: Seq<Seq<char>>, i: int) -> (j: int)
    requires
        0 <= i < counted(all).len(),
    ensures
        0 <= j < all.len(),
        all[j] == counted(all)[i],
        all[j].len() > 0,
    decreases all.len(),
{
    let front = counted(all.drop_last());
    if i < front.len() {
        counted_pieces_are_pieces(all.drop_last(), i)
    } else {
        all.len() - 1
    }
}

/// A component is the root, or it is not empty and holds no slash; and its characters are some of
/// the path's.
pub proof fn components_are_made_of_the_path(s: Seq<char>, i: int)
    requires
        0 <= i < path_components(s).len(),
    ensures
        path_components(s)[i].len() > 0,
        path_components(s)[i] == seq!['/'] || !path_components(s)[i].contains('/'),
        forall|c: char| path_components(s)[i].contains(c) ==> s.contains(c),
{
    let all = pieces(s, '/');
    let root: int = if is_absolute(s) {
        1
    } else {
        0
    };
    if i < root {
        assert forall|c: char| path_components(s)[i].contains(c) implies s.contains(c) by {
            assert(s[0] == '/');
        }
    } else {
        let j = counted_pieces_are_pieces(all, i - root);
        pieces_hold_no_separator(s, '/', j);
    }
}

/// Joining a name to a directory adds one component.
pub proof fn join_adds_a_component(dir: Seq<char>, name: Seq<char>)
    requires
        name.len() > 0,
        !name.contains('/'),
        name != seq!['.'],
    ensures
        path_components(joined(dir, name)) == path_components(dir).push(name),
{
    let path = joined(dir, name);
    assert(name[0] != '/');
    if dir.len() == 0 {
        one_piece(name, '/');
        assert(seq![name].drop_last() =~= seq![]);
        assert(counted(seq![name].drop_last()) =~= seq![]);
        assert(pieces(dir, '/') =~= seq![Seq::<char>::empty()]);
        assert(pieces(dir, '/').drop_last() =~= seq![]);
        assert(counted(pieces(dir, '/').drop_last()) =~= seq![]);
        assert(path_components(path) =~= path_components(dir).push(name));
    } else if dir.last() == '/' {
        let front = dir.drop_last();
        let before = pieces(front, '/');
        last_piece(front, '/');
        one_more_piece(front, name, '/');
        assert(front.push('/') =~= dir);
        assert(pieces(path, '/').drop_last() =~= before);
        assert(pieces(dir, '/').drop_last() =~= before);
        assert(is_absolute(path) == is_absolute(dir));
        assert(path_components(path) =~= path_components(dir).push(name));
    } else {
        last_piece(dir, '/');
        one_more_piece(dir, name, '/');
        assert(pieces(path, '/').drop_last() =~= pieces(dir, '/'));
        assert(is_absolute(path) == is_absolute(dir));
        assert(path_components(path) =~= path_components(dir).push(name));
    }
}

} // verus!
