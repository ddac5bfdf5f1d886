//! Character-level string helpers with exact specifications: conversion
//! between strings and characters, white space, substring search,
//! splitting, and the trusted case folding of std.

use vstd::prelude::*;

verus! {

/// The views of a sequence of strings.
pub open spec fn string_views(v: Seq<String>) -> Seq<Seq<char>> {
    v.map_values(|x: String| x@)
}

/// The characters of a string, in order.
pub fn to_chars(s: &str) -> (r: Vec<char>)
    ensures
        r@ == s@,
{
    let mut r: Vec<char> = Vec::new();
    for c in it: s.chars()
        invariant
            r@ == it.seq().take(it.index() as int),
    {
        r.push(c);
        assert(r@ =~= it.seq().take(it.index() + 1));
    }
    assert(r@ =~= s@);
    r
}

/// `String::push`: appends one character at the end of the string.
#[verifier::external_body]
fn push_char(s: &mut String, c: char)
    ensures
        final(s)@ == old(s)@.push(c),
{
    s.push(c);
}

/// The string made of the given characters.
pub fn from_chars(v: &Vec<char>) -> (r: String)
    ensures
        r@ == v@,
{
    let mut r = String::new();
    let mut i: usize = 0;
    while i < v.len()
        invariant
            i <= v.len(),
            r@ == v@.subrange(0, i as int),
        decreases v.len() - i,
    {
        push_char(&mut r, v[i]);
        i = i + 1;
        assert(r@ =~= v@.subrange(0, i as int));
    }
    assert(r@ =~= v@);
    r
}

/// Equality of two string slices by their characters.
pub fn str_eq(a: &str, b: &str) -> (r: bool)
    ensures
        r == (a@ == b@),
{
    let x = to_chars(a);
    let y = to_chars(b);
    chars_eq(&x, &y)
}

/// Equality of two character vectors.
pub fn chars_eq(a: &Vec<char>, b: &Vec<char>) -> (r: bool)
    ensures
        r == (a@ == b@),
{
    if a.len() != b.len() {
        return false;
    }
    let mut i: usize = 0;
    while i < a.len()
        invariant
            a.len() == b.len(),
            i <= a.len(),
            forall|j: int| 0 <= j < i ==> a@[j] == b@[j],
        decreases a.len() - i,
    {
        if a[i] != b[i] {
            return false;
        }
        i = i + 1;
    }
    assert(a@ =~= b@);
    true
}

/// The `White_Space` property of the Unicode character database, which is
/// what `char::is_whitespace` tests.
pub open spec fn is_white_space(c: char) -> bool {
    ||| ('\u{9}' <= c && c <= '\u{d}')
    ||| c == ' '
    ||| c == '\u{85}'
    ||| c == '\u{a0}'
    ||| c == '\u{1680}'
    ||| ('\u{2000}' <= c && c <= '\u{200a}')
    ||| c == '\u{2028}'
    ||| c == '\u{2029}'
    ||| c == '\u{202f}'
    ||| c == '\u{205f}'
    ||| c == '\u{3000}'
}

/// Whether a character is white space.
pub fn char_is_white_space(c: char) -> (r: bool)
    ensures
        r == is_white_space(c),
{
    ('\u{9}' <= c && c <= '\u{d}') || c == ' ' || c == '\u{85}' || c == '\u{a0}' || c
        == '\u{1680}' || ('\u{2000}' <= c && c <= '\u{200a}') || c == '\u{2028}' || c
        == '\u{2029}' || c == '\u{202f}' || c == '\u{205f}' || c == '\u{3000}'
}

/// `needle` occurs in `haystack` as a contiguous run of characters
/// (the empty needle occurs in every string).
pub open spec fn contains_sub(haystack: Seq<char>, needle: Seq<char>) -> bool {
    exists|i: int|
        0 <= i <= haystack.len() - needle.len() && #[trigger] haystack.subrange(
            i,
            i + needle.len(),
        ) == needle
}

/// Whether `needle` occurs at position `at` of `haystack`.
fn occurs_at(haystack: &Vec<char>, needle: &Vec<char>, at: usize) -> (r: bool)
    requires
        at + needle@.len() <= haystack@.len(),
    ensures
        r == (haystack@.subrange(at as int, at + needle@.len()) == needle@),
{
    let hl = haystack.len();
    let mut j: usize = 0;
    while j < needle.len()
        invariant
            hl == haystack@.len(),
            at + needle@.len() <= haystack@.len(),
            j <= needle.len(),
            forall|k: int| 0 <= k < j ==> haystack@[at + k] == needle@[k],
        decreases needle.len() - j,
    {
        if haystack[at + j] != needle[j] {
            assert(haystack@.subrange(at as int, at + needle@.len())[j as int] != needle@[j as int]);
            return false;
        }
        j = j + 1;
    }
    assert(haystack@.subrange(at as int, at + needle@.len()) =~= needle@);
    true
}

/// Substring search over characters.
pub fn contains_chars(haystack: &Vec<char>, needle: &Vec<char>) -> (r: bool)
    ensures
        r == contains_sub(haystack@, needle@),
{
    if needle.len() > haystack.len() {
        return false;
    }
    let last = haystack.len() - needle.len();
    let mut i: usize = 0;
    loop
        invariant
            i <= last,
            last == haystack@.len() - needle@.len(),
            forall|k: int|
                0 <= k < i ==> #[trigger] haystack@.subrange(k, k + needle@.len()) != needle@,
        decreases last - i,
    {
        if occurs_at(haystack, needle, i) {
            return true;
        }
        if i == last {
            return false;
        }
        i = i + 1;
    }
}

/// How a string is cut into pieces.
#[derive(Clone, Copy)]
pub enum Separator {
    /// Any white-space character separates pieces.
    WhiteSpace,
    /// The given character separates pieces.
    Char(char),
}

/// Whether `c` separates pieces under `sep`.
pub open spec fn is_separator(sep: Separator, c: char) -> bool {
    match sep {
        Separator::WhiteSpace => is_white_space(c),
        Separator::Char(x) => c == x,
    }
}

fn char_is_separator(sep: Separator, c: char) -> (r: bool)
    ensures
        r == is_separator(sep, c),
{
    match sep {
        Separator::WhiteSpace => char_is_white_space(c),
        Separator::Char(x) => c == x,
    }
}

/// Ends the current piece: it is kept when empty pieces are kept or when it
/// is not empty.
pub open spec fn close_piece(done: Seq<Seq<char>>, cur: Seq<char>, keep_empty: bool) -> Seq<
    Seq<char>,
> {
    if keep_empty || cur.len() > 0 {
        done.push(cur)
    } else {
        done
    }
}

/// Reads `s` from left to right, with the pieces `done` already ended and
/// the piece `cur` still open.
pub open spec fn split_fold(
    s: Seq<char>,
    sep: Separator,
    keep_empty: bool,
    done: Seq<Seq<char>>,
    cur: Seq<char>,
) -> Seq<Seq<char>>
    decreases s.len(),
{
    if s.len() == 0 {
        close_piece(done, cur, keep_empty)
    } else if is_separator(sep, s[0]) {
        split_fold(s.drop_first(), sep, keep_empty, close_piece(done, cur, keep_empty), seq![])
    } else {
        split_fold(s.drop_first(), sep, keep_empty, done, cur.push(s[0]))
    }
}

/// The pieces of `s` between separators, in order. With `keep_empty` this
/// is `str::split` by a character; without, empty pieces are left out, as
/// `str::split_whitespace` does.
pub open spec fn split_pieces(s: Seq<char>, sep: Separator, keep_empty: bool) -> Seq<Seq<char>> {
    split_fold(s, sep, keep_empty, seq![], seq![])
}

/// The words of `s`: maximal runs of characters that are not white space.
pub open spec fn words(s: Seq<char>) -> Seq<Seq<char>> {
    split_pieces(s, Separator::WhiteSpace, false)
}

/// No character of `w` is a separator.
pub open spec fn has_no_separator(w: Seq<char>, sep: Separator) -> bool {
    forall|i: int| 0 <= i < w.len() ==> !is_separator(sep, #[trigger] w[i])
}

/// A piece is well formed: it holds no separator, and is not empty unless
/// empty pieces are kept.
pub open spec fn clean_piece(w: Seq<char>, sep: Separator, keep_empty: bool) -> bool {
    has_no_separator(w, sep) && (keep_empty || w.len() > 0)
}

proof fn lemma_split_fold_clean(
    s: Seq<char>,
    sep: Separator,
    keep_empty: bool,
    done: Seq<Seq<char>>,
    cur: Seq<char>,
)
    requires
        forall|j: int| 0 <= j < done.len() ==> clean_piece(#[trigger] done[j], sep, keep_empty),
        has_no_separator(cur, sep),
    ensures
        forall|j: int|
            0 <= j < split_fold(s, sep, keep_empty, done, cur).len() ==> clean_piece(
                #[trigger] split_fold(s, sep, keep_empty, done, cur)[j],
                sep,
                keep_empty,
            ),
    decreases s.len(),
{
    let closed = close_piece(done, cur, keep_empty);
    assert forall|j: int| 0 <= j < closed.len() implies clean_piece(
        #[trigger] closed[j],
        sep,
        keep_empty,
    ) by {
        if j < done.len() {
            assert(closed[j] == done[j]);
        }
    }
    if s.len() == 0 {
        assert(split_fold(s, sep, keep_empty, done, cur) == closed);
    } else {
        if is_separator(sep, s[0]) {
            assert(split_fold(s, sep, keep_empty, done, cur) == split_fold(
                s.drop_first(),
                sep,
                keep_empty,
                closed,
                seq![],
            ));
            lemma_split_fold_clean(s.drop_first(), sep, keep_empty, closed, seq![]);
        } else {
            let c2 = cur.push(s[0]);
            assert forall|i: int| 0 <= i < c2.len() implies !is_separator(sep, #[trigger] c2[i]) by {
                if i < cur.len() {
                    assert(c2[i] == cur[i]);
                }
            }
            assert(split_fold(s, sep, keep_empty, done, cur) == split_fold(
                s.drop_first(),
                sep,
                keep_empty,
                done,
                c2,
            ));
            lemma_split_fold_clean(s.drop_first(), sep, keep_empty, done, c2);
        }
    }
}

/// Every piece of a split holds no separator, and is not empty unless empty
/// pieces are kept. In particular every word is a non-empty run of
/// characters that are not white space.
pub proof fn lemma_split_pieces_clean(s: Seq<char>, sep: Separator, keep_empty: bool)
    ensures
        forall|j: int|
            0 <= j < split_pieces(s, sep, keep_empty).len() ==> clean_piece(
                #[trigger] split_pieces(s, sep, keep_empty)[j],
                sep,
                keep_empty,
            ),
{
    lemma_split_fold_clean(s, sep, keep_empty, seq![], seq![]);
}

/// White space alone holds no word: reading it only ends the open piece.
pub proof fn lemma_split_all_separators(
    s: Seq<char>,
    sep: Separator,
    done: Seq<Seq<char>>,
)
    requires
        forall|i: int| 0 <= i < s.len() ==> is_separator(sep, #[trigger] s[i]),
    ensures
        split_fold(s, sep, false, done, seq![]) == done,
    decreases s.len(),
{
    if s.len() > 0 {
        let t = s.drop_first();
        assert forall|i: int| 0 <= i < t.len() implies is_separator(sep, #[trigger] t[i]) by {
            assert(t[i] == s[i + 1]);
        }
        assert(close_piece(done, seq![], false) == done);
        lemma_split_all_separators(t, sep, done);
    }
}

/// A string of spaces only has no words.
pub proof fn lemma_words_of_spaces(s: Seq<char>)
    requires
        forall|i: int| 0 <= i < s.len() ==> s[i] == ' ',
    ensures
        words(s) == Seq::<Seq<char>>::empty(),
{
    assert forall|i: int| 0 <= i < s.len() implies is_separator(
        Separator::WhiteSpace,
        #[trigger] s[i],
    ) by {
        assert(s[i] == ' ');
    }
    lemma_split_all_separators(s, Separator::WhiteSpace, seq![]);
}

/// Cuts a string into pieces.
pub fn split_str(s: &str, sep: Separator, keep_empty: bool) -> (r: Vec<String>)
    ensures
        string_views(r@) == split_pieces(s@, sep, keep_empty),
{
    let cs = to_chars(s);
    let mut done: Vec<String> = Vec::new();
    let mut cur = String::new();
    let mut i: usize = 0;
    assert(cs@.skip(0) =~= s@);
    assert(string_views(done@) =~= Seq::<Seq<char>>::empty());
    assert(cur@ =~= Seq::<char>::empty());
    while i < cs.len()
        invariant
            i <= cs.len(),
            cs@ == s@,
            split_fold(cs@.skip(i as int), sep, keep_empty, string_views(done@), cur@)
                == split_pieces(s@, sep, keep_empty),
        decreases cs.len() - i,
    {
        let c = cs[i];
        let ghost rest = cs@.skip(i as int);
        let ghost before = string_views(done@);
        assert(rest[0] == c);
        assert(rest.drop_first() =~= cs@.skip(i + 1));
        if char_is_separator(sep, c) {
            let ghost closed = close_piece(before, cur@, keep_empty);
            if keep_empty || cur.unicode_len() > 0 {
                done.push(cur);
                assert(string_views(done@) =~= closed);
            } else {
                assert(string_views(done@) =~= closed);
            }
            cur = String::new();
            assert(cur@ =~= Seq::<char>::empty());
        } else {
            push_char(&mut cur, c);
        }
        i = i + 1;
    }
    let ghost before = string_views(done@);
    assert(cs@.skip(i as int).len() == 0);
    if keep_empty || cur.unicode_len() > 0 {
        done.push(cur);
        assert(string_views(done@) =~= close_piece(before, cur@, keep_empty));
    }
    done
}

/// A split with empty pieces kept has at least one more piece than those
/// already ended.
pub proof fn lemma_split_keep_len(
    s: Seq<char>,
    sep: Separator,
    done: Seq<Seq<char>>,
    cur: Seq<char>,
)
    ensures
        split_fold(s, sep, true, done, cur).len() >= done.len() + 1,
    decreases s.len(),
{
    if s.len() > 0 {
        if is_separator(sep, s[0]) {
            lemma_split_keep_len(s.drop_first(), sep, done.push(cur), seq![]);
        } else {
            lemma_split_keep_len(s.drop_first(), sep, done, cur.push(s[0]));
        }
    }
}

/// The first piece of `str::split` by a character (`split(c).next()`):
/// the text before the first occurrence of `c`, or all of it.
pub open spec fn first_piece(s: Seq<char>, c: char) -> Seq<char> {
    split_pieces(s, Separator::Char(c), true)[0]
}

/// The text before the first occurrence of `c`.
pub fn first_piece_of(s: &str, c: char) -> (r: String)
    ensures
        r@ == first_piece(s@, c),
{
    let pieces = split_str(s, Separator::Char(c), true);
    proof {
        lemma_split_keep_len(s@, Separator::Char(c), seq![], seq![]);
    }
    let first = pieces[0].clone();
    assert(string_views(pieces@)[0] == pieces@[0]@);
    first
}

/// The result of `str::to_lowercase`: the `Lowercase` mapping of the Unicode
/// character database, where a character may map to several, and a capital
/// sigma maps by std's context rule for the end of a word.
pub uninterp spec fn spec_to_lowercase(s: Seq<char>) -> Seq<char>;

/// A character with code below 128.
pub open spec fn is_ascii_char(c: char) -> bool {
    (c as u32) < 128
}

/// The lowercase of an ASCII character: `A`..`Z` become `a`..`z`, every other
/// character is unchanged.
pub open spec fn ascii_lower(c: char) -> char {
    if 'A' <= c && c <= 'Z' {
        ((c as u32) + 32) as char
    } else {
        c
    }
}

/// `str::to_lowercase` of std. Claimed: the result is the named lowercase
/// mapping of the argument; the empty string maps to the empty string; and,
/// as std documents for ASCII, an ASCII string maps character by character,
/// `A`..`Z` to `a`..`z` and every other character to itself. What the
/// mapping does to other characters is not stated.
#[verifier::external_body]
pub(crate) fn to_lowercase(s: &str) -> (r: String)
    ensures
        r@ == spec_to_lowercase(s@),
        s@.len() == 0 ==> r@.len() == 0,
        (forall|i: int| 0 <= i < s@.len() ==> is_ascii_char(#[trigger] s@[i])) ==> {
            &&& r@.len() == s@.len()
            &&& forall|i: int| 0 <= i < s@.len() ==> r@[i] == ascii_lower(#[trigger] s@[i])
        },
{
    s.to_lowercase()
}

/// The pieces joined in order, with `sep` between two neighbours
/// (`[&str]::join`).
pub open spec fn join_with(parts: Seq<Seq<char>>, sep: Seq<char>) -> Seq<char>
    decreases parts.len(),
{
    if parts.len() == 0 {
        seq![]
    } else if parts.len() == 1 {
        parts[0]
    } else {
        join_with(parts.drop_last(), sep) + sep + parts.last()
    }
}

/// Joins strings with a separator.
pub fn join_strings(parts: &Vec<String>, sep: &str) -> (r: String)
    ensures
        r@ == join_with(string_views(parts@), sep@),
{
    let mut r = String::new();
    let mut i: usize = 0;
    while i < parts.len()
        invariant
            i <= parts.len(),
            r@ == join_with(string_views(parts@.take(i as int)), sep@),
        decreases parts.len() - i,
    {
        let ghost prev = string_views(parts@.take(i as int));
        assert(string_views(parts@.take(i + 1)).drop_last() =~= prev);
        assert(string_views(parts@.take(i + 1)).last() == parts@[i as int]@);
        if i > 0 {
            r.append(sep);
        } else {
            assert(prev.len() == 0);
        }
        r.append(parts[i].as_str());
        i = i + 1;
    }
    assert(parts@.take(i as int) =~= parts@);
    r
}

/// The byte order mark, which `Ini::load_from_file` drops from the start of
/// a file.
pub open spec fn without_bom(s: Seq<char>) -> Seq<char> {
    if s.len() > 0 && s[0] == '\u{feff}' {
        s.drop_first()
    } else {
        s
    }
}

/// Drops a leading byte order mark.
pub fn strip_bom(s: &str) -> (r: String)
    ensures
        r@ == without_bom(s@),
{
    let cs = to_chars(s);
    if cs.len() > 0 && cs[0] == '\u{feff}' {
        let rest = s.substring_char(1, cs.len());
        String::from_str(rest)
    } else {
        String::from_str(s)
    }
}

} // verus!
