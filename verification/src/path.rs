//! Unix path operations of std (`PathBuf::push`, `Path::file_name`,
//! `Path::extension`) on paths held as strings.

use vstd::prelude::*;
use crate::text::{
    Separator, close_piece, has_no_separator, is_separator, split_fold, split_pieces, split_str,
    string_views, str_eq, to_chars,
};

verus! {

/// `PathBuf::push` on Unix: an absolute component replaces the path;
/// otherwise a separator is put between them unless the path is empty or
/// already ends with one.
pub open spec fn join_path(base: Seq<char>, comp: Seq<char>) -> Seq<char> {
    if comp.len() > 0 && comp[0] == '/' {
        comp
    } else if base.len() == 0 || base.last() == '/' {
        base + comp
    } else {
        base + seq!['/'] + comp
    }
}

/// Appends a component to a path.
pub fn path_join(base: &str, comp: &str) -> (r: String)
    ensures
        r@ == join_path(base@, comp@),
{
    let b = to_chars(base);
    let c = to_chars(comp);
    if c.len() > 0 && c[0] == '/' {
        return String::from_str(comp);
    }
    let mut r = String::from_str(base);
    if b.len() > 0 && b[b.len() - 1] != '/' {
        r.append("/");
        proof {
            reveal_strlit("/");
        }
    }
    r.append(comp);
    r
}

/// A component that names something (not empty and not `.`).
pub open spec fn is_named_component(c: Seq<char>) -> bool {
    c.len() > 0 && c != seq!['.']
}

/// The components of a path that name something, in order; repeated
/// separators and `.` components are not among them.
pub open spec fn path_components(p: Seq<char>) -> Seq<Seq<char>> {
    split_pieces(p, Separator::Char('/'), true).filter(|c: Seq<char>| is_named_component(c))
}

/// `Path::file_name`: the last component, unless there is none or it is `..`.
pub open spec fn file_name(p: Seq<char>) -> Option<Seq<char>> {
    let cs = path_components(p);
    if cs.len() == 0 || cs.last() == seq!['.', '.'] {
        None
    } else {
        Some(cs.last())
    }
}

proof fn lemma_split_without_separator(
    t: Seq<char>,
    sep: Separator,
    keep: bool,
    done: Seq<Seq<char>>,
    cur: Seq<char>,
)
    requires
        has_no_separator(t, sep),
    ensures
        split_fold(t, sep, keep, done, cur) == close_piece(done, cur + t, keep),
    decreases t.len(),
{
    if t.len() == 0 {
        assert(cur + t =~= cur);
    } else {
        assert(!is_separator(sep, t[0]));
        let t2 = t.drop_first();
        assert forall|i: int| 0 <= i < t2.len() implies !is_separator(sep, #[trigger] t2[i]) by {
            assert(t2[i] == t[i + 1]);
        }
        lemma_split_without_separator(t2, sep, keep, done, cur.push(t[0]));
        assert(cur.push(t[0]) + t2 =~= cur + t);
    }
}

proof fn lemma_split_last_piece(s: Seq<char>, t: Seq<char>, done: Seq<Seq<char>>, cur: Seq<char>)
    requires
        has_no_separator(t, Separator::Char('/')),
    ensures
        split_fold(s + seq!['/'] + t, Separator::Char('/'), true, done, cur).len() > 0,
        split_fold(s + seq!['/'] + t, Separator::Char('/'), true, done, cur).last() == t,
    decreases s.len(),
{
    let sep = Separator::Char('/');
    let whole = s + seq!['/'] + t;
    if s.len() == 0 {
        assert(whole[0] == '/');
        assert(whole.drop_first() =~= t);
        lemma_split_without_separator(t, sep, true, done.push(cur), seq![]);
        assert(seq![] + t =~= t);
    } else {
        assert(whole[0] == s[0]);
        assert(whole.drop_first() =~= s.drop_first() + seq!['/'] + t);
        if s[0] == '/' {
            lemma_split_last_piece(s.drop_first(), t, done.push(cur), seq![]);
        } else {
            lemma_split_last_piece(s.drop_first(), t, done, cur.push(s[0]));
        }
    }
}

/// A name that can stand as the last component of a path: not empty, not
/// `.` or `..`, and without `/`.
pub open spec fn is_plain_name(name: Seq<char>) -> bool {
    &&& is_named_component(name)
    &&& name != seq!['.', '.']
    &&& has_no_separator(name, Separator::Char('/'))
}

/// Pushing a plain name onto any path gives a path whose file name is that
/// name.
pub proof fn lemma_file_name_of_join(base: Seq<char>, name: Seq<char>)
    requires
        is_plain_name(name),
    ensures
        file_name(join_path(base, name)) == Some(name),
{
    let sep = Separator::Char('/');
    let p = join_path(base, name);
    let pred = |c: Seq<char>| is_named_component(c);
    assert(name[0] != '/') by {
        assert(!is_separator(sep, name[0]));
    }
    let pieces = split_pieces(p, sep, true);
    if base.len() == 0 {
        assert(p =~= name);
        lemma_split_without_separator(name, sep, true, seq![], seq![]);
        assert(seq![] + name =~= name);
    } else if base.last() == '/' {
        assert(p =~= base.drop_last() + seq!['/'] + name);
        lemma_split_last_piece(base.drop_last(), name, seq![], seq![]);
    } else {
        lemma_split_last_piece(base, name, seq![], seq![]);
    }
    assert(pieces.len() > 0 && pieces.last() == name);
    assert(pieces =~= pieces.drop_last().push(name));
    pieces.drop_last().lemma_filter_push(name, pred);
    assert(path_components(p) == pieces.drop_last().filter(pred).push(name));
}

/// The last component of a path, if it names a file or directory.
pub fn path_file_name(p: &str) -> (r: Option<String>)
    ensures
        r matches Some(n) ==> file_name(p@) == Some(n@),
        r is None ==> file_name(p@) is None,
{
    let pieces = split_str(p, Separator::Char('/'), true);
    let ghost views = string_views(pieces@);
    let ghost pred = |c: Seq<char>| is_named_component(c);
    let mut last: Option<String> = None;
    let mut count: usize = 0;
    let mut i: usize = 0;
    while i < pieces.len()
        invariant
            i <= pieces.len(),
            views == string_views(pieces@),
            views == split_pieces(p@, Separator::Char('/'), true),
            pred == (|c: Seq<char>| is_named_component(c)),
            count == views.take(i as int).filter(pred).len(),
            count == 0 <==> last is None,
            last matches Some(l) ==> l@ == views.take(i as int).filter(pred).last(),
        decreases pieces.len() - i,
    {
        let ghost before = views.take(i as int);
        assert(views.take(i + 1) =~= before.push(views[i as int]));
        proof {
            before.lemma_filter_push(views[i as int], pred);
        }
        let piece = &pieces[i];
        let pc = to_chars(piece.as_str());
        let named = pc.len() > 0 && !(pc.len() == 1 && pc[0] == '.');
        assert(named == is_named_component(views[i as int])) by {
            if pc.len() == 1 {
                assert(pc@ =~= seq![pc@[0]]);
            }
        }
        if named {
            last = Some(piece.clone());
            count = count + 1;
        }
        i = i + 1;
    }
    assert(views.take(i as int) =~= views);
    match last {
        Some(l) => {
            let lc = to_chars(l.as_str());
            if lc.len() == 2 && lc[0] == '.' && lc[1] == '.' {
                assert(lc@ =~= seq!['.', '.']);
                None
            } else {
                assert(lc@ != seq!['.', '.']);
                Some(l)
            }
        },
        None => None,
    }
}

/// The index of the last occurrence of `c` in `s`, or -1.
pub open spec fn last_index_of(s: Seq<char>, c: char) -> int
    decreases s.len(),
{
    if s.len() == 0 {
        -1
    } else if s.last() == c {
        s.len() - 1
    } else {
        last_index_of(s.drop_last(), c)
    }
}

/// `Path::extension` of a file name: the text after the last `.`, when
/// something comes before that dot and the name is not `..`.
pub open spec fn extension(name: Seq<char>) -> Option<Seq<char>> {
    let i = last_index_of(name, '.');
    if name == seq!['.', '.'] || i <= 0 {
        None
    } else {
        Some(name.skip(i + 1))
    }
}

proof fn lemma_last_index_of_bounds(s: Seq<char>, c: char)
    ensures
        -1 <= last_index_of(s, c) < s.len(),
        last_index_of(s, c) >= 0 ==> s[last_index_of(s, c)] == c,
    decreases s.len(),
{
    if s.len() > 0 && s.last() != c {
        lemma_last_index_of_bounds(s.drop_last(), c);
    }
}

/// The extension of a file name.
pub fn name_extension(name: &str) -> (r: Option<String>)
    ensures
        r matches Some(e) ==> extension(name@) == Some(e@),
        r is None ==> extension(name@) is None,
{
    let cs = to_chars(name);
    let n = cs.len();
    if n == 2 && cs[0] == '.' && cs[1] == '.' {
        assert(cs@ =~= seq!['.', '.']);
        return None;
    }
    let mut j: usize = n;
    assert(cs@.take(n as int) =~= cs@);
    while j > 0
        invariant
            j <= n,
            n == cs@.len(),
            last_index_of(cs@, '.') == last_index_of(cs@.take(j as int), '.'),
        ensures
            j == 0 || cs@[j - 1] == '.',
            last_index_of(cs@, '.') == last_index_of(cs@.take(j as int), '.'),
        decreases j,
    {
        assert(cs@.take(j as int).drop_last() =~= cs@.take(j - 1));
        if cs[j - 1] == '.' {
            break;
        }
        j = j - 1;
    }
    proof {
        lemma_last_index_of_bounds(cs@, '.');
    }
    if j <= 1 {
        assert(last_index_of(cs@.take(j as int), '.') <= 0) by {
            if j == 0 {
                assert(cs@.take(0).len() == 0);
            } else {
                assert(cs@.take(1).last() == cs@[0]);
            }
        }
        return None;
    }
    assert(last_index_of(cs@, '.') == j - 1);
    assert(cs@ != seq!['.', '.']) by {
        if n == 2 {
            assert(cs@[0] != '.' || cs@[1] != '.');
        }
    }
    let rest = name.substring_char(j, n);
    Some(String::from_str(rest))
}

/// The extension of the file that a path names.
pub open spec fn path_extension(p: Seq<char>) -> Option<Seq<char>> {
    match file_name(p) {
        Some(n) => extension(n),
        None => None,
    }
}

/// Whether the path names a file with the given extension.
pub fn has_extension(p: &str, ext: &str) -> (r: bool)
    ensures
        r == (path_extension(p@) == Some(ext@)),
{
    match path_file_name(p) {
        Some(n) => match name_extension(n.as_str()) {
            Some(e) => str_eq(e.as_str(), ext),
            None => false,
        },
        None => false,
    }
}

} // verus!
