//! Paths as texts, on the platforms that write them differently.

use vstd::prelude::*;
use vstd::slice::slice_subrange;
use vstd::string::*;

use crate::text::{
    chars_of, joined, joined_parts_are_split, lemma_parts_are_free, lemma_parts_hold,
    lemma_position, lemma_split_last, replace_char, replaced, slices, split, split_at_char,
    string_of, text_view, texts,
};

verus! {

/// A family of systems that write paths alike.
#[derive(Debug, Clone, Copy, PartialEq, Eq, Structural)]
pub enum Platform {
    /// `/` stands between the pieces of a path.
    Unix,
    /// `/` and `\` stand between the pieces of a path, and it may begin with a
    /// drive or the name of another machine.
    Windows,
}

/// Tells whether a character stands between the pieces of a path.
pub open spec fn is_sep(os: Platform, c: char) -> bool {
    c == '/' || os == Platform::Windows && c == '\\'
}

/// Tells whether the character stands between the pieces of a path.
pub fn separates(os: Platform, c: char) -> (r: bool)
    ensures
        r == is_sep(os, c),
{
    match os {
        Platform::Unix => c == '/',
        Platform::Windows => c == '/' || c == '\\',
    }
}

/// What is written between the pieces of a path.
pub open spec fn separator(os: Platform) -> char {
    match os {
        Platform::Unix => '/',
        Platform::Windows => '\\',
    }
}

/// What is written between the pieces of a path.
pub fn main_separator(os: Platform) -> (r: char)
    ensures
        r == separator(os),
{
    match os {
        Platform::Unix => '/',
        Platform::Windows => '\\',
    }
}

// ---------------------------------------------------------------------------
// What a path on Windows begins with
// ---------------------------------------------------------------------------

/// What a path on Windows may begin with.
#[derive(Debug, Clone, Copy, PartialEq, Eq, Structural)]
pub enum Prefix {
    /// A drive, as `C:`.
    Drive,
    /// A share or a device, as `\\server\share` or `\\.\COM1`. It stands at its
    /// root.
    Place,
    /// `\\?\` and what follows it: the rest is taken as it is written.
    Verbatim,
}

/// Where the next separator stands in a path on Windows, from the position `i`
/// on, or the length of the path. In a verbatim path only `\` is one.
pub open spec fn next_sep(s: Seq<char>, i: int, verbatim: bool) -> int
    decreases s.len() - i,
{
    if i >= s.len() {
        s.len() as int
    } else if s[i] == '\\' || s[i] == '/' && !verbatim {
        i
    } else {
        next_sep(s, i + 1, verbatim)
    }
}

fn find_sep(s: &[char], i: usize, verbatim: bool) -> (r: usize)
    requires
        i <= s@.len(),
    ensures
        r == next_sep(s@, i as int, verbatim),
        i <= r <= s@.len(),
{
    let mut k: usize = i;
    while k < s.len() && s[k] != '\\' && (verbatim || s[k] != '/')
        invariant
            i <= k <= s@.len(),
            next_sep(s@, k as int, verbatim) == next_sep(s@, i as int, verbatim),
        decreases s@.len() - k,
    {
        k += 1;
    }
    k
}

/// Tells whether a letter of a drive and a colon stand at a position.
pub open spec fn drive_at(s: Seq<char>, i: int) -> bool {
    &&& i + 1 < s.len()
    &&& 'a' <= s[i] <= 'z' || 'A' <= s[i] <= 'Z'
    &&& s[i + 1] == ':'
}

fn has_drive_at(s: &[char], i: usize) -> (r: bool)
    requires
        i <= s@.len(),
    ensures
        r == drive_at(s@, i as int),
{
    if s.len() - i < 2 {
        return false;
    }
    let c = s[i];
    ('a' <= c && c <= 'z' || 'A' <= c && c <= 'Z') && s[i + 1] == ':'
}

/// Tells whether a path on Windows begins with `\\?\`.
pub open spec fn begins_verbatim(s: Seq<char>) -> bool {
    s.len() >= 4 && s[0] == '\\' && s[1] == '\\' && s[2] == '?' && s[3] == '\\'
}

/// Where what a verbatim path begins with ends.
pub open spec fn verbatim_end(s: Seq<char>) -> int {
    if s.len() >= 8 && s[4] == 'U' && s[5] == 'N' && s[6] == 'C' && is_sep(
        Platform::Windows,
        s[7],
    ) {
        let server = next_sep(s, 8, true);
        let share = next_sep(s, server + 1, true);
        if share > server + 1 {
            share
        } else {
            server
        }
    } else if drive_at(s, 4) && (s.len() == 6 || is_sep(Platform::Windows, s[6])) {
        6
    } else {
        next_sep(s, 4, true)
    }
}

/// What a path on Windows begins with, and where that ends.
pub open spec fn windows_prefix(s: Seq<char>) -> Option<(int, Prefix)> {
    if s.len() >= 2 && is_sep(Platform::Windows, s[0]) && is_sep(Platform::Windows, s[1]) {
        if begins_verbatim(s) {
            Some((verbatim_end(s), Prefix::Verbatim))
        } else if s.len() >= 4 && s[2] == '.' && is_sep(Platform::Windows, s[3]) {
            Some((next_sep(s, 4, false), Prefix::Place))
        } else {
            let server = next_sep(s, 2, false);
            let share = next_sep(s, server + 1, false);
            if server > 2 && share > server + 1 {
                Some((share, Prefix::Place))
            } else {
                None
            }
        }
    } else if drive_at(s, 0) {
        Some((2, Prefix::Drive))
    } else {
        None
    }
}

fn find_verbatim_end(s: &[char]) -> (r: usize)
    requires
        begins_verbatim(s@),
    ensures
        r == verbatim_end(s@),
        r <= s@.len(),
{
    if s.len() >= 8 && s[4] == 'U' && s[5] == 'N' && s[6] == 'C' && separates(
        Platform::Windows,
        s[7],
    ) {
        let server: usize = find_sep(s, 8, true);
        if server == s.len() {
            return server;
        }
        let share: usize = find_sep(s, server + 1, true);
        if share > server + 1 {
            share
        } else {
            server
        }
    } else if has_drive_at(s, 4) && (s.len() == 6 || separates(Platform::Windows, s[6])) {
        6
    } else {
        find_sep(s, 4, true)
    }
}

fn find_prefix(s: &[char]) -> (r: Option<(usize, Prefix)>)
    ensures
        match r {
            Some(p) => windows_prefix(s@) == Some((p.0 as int, p.1)) && p.0 <= s@.len(),
            None => windows_prefix(s@) is None,
        },
{
    if s.len() >= 2 && separates(Platform::Windows, s[0]) && separates(Platform::Windows, s[1]) {
        if s.len() >= 4 && s[0] == '\\' && s[1] == '\\' && s[2] == '?' && s[3] == '\\' {
            return Some((find_verbatim_end(s), Prefix::Verbatim));
        }
        if s.len() >= 4 && s[2] == '.' && separates(Platform::Windows, s[3]) {
            return Some((find_sep(s, 4, false), Prefix::Place));
        }
        let server: usize = find_sep(s, 2, false);
        if server == s.len() {
            return None;
        }
        let share: usize = find_sep(s, server + 1, false);
        if server > 2 && share > server + 1 {
            Some((share, Prefix::Place))
        } else {
            None
        }
    } else if has_drive_at(s, 0) {
        Some((2, Prefix::Drive))
    } else {
        None
    }
}

/// What a path begins with, and where that ends.
pub open spec fn prefix(os: Platform, s: Seq<char>) -> Option<(int, Prefix)> {
    match os {
        Platform::Unix => None,
        Platform::Windows => windows_prefix(s),
    }
}

/// How long that is with which a path begins.
pub open spec fn prefix_len(os: Platform, s: Seq<char>) -> int {
    match prefix(os, s) {
        Some(p) => p.0,
        None => 0,
    }
}

/// Tells whether a path is taken as it is written.
pub open spec fn is_verbatim(os: Platform, s: Seq<char>) -> bool {
    prefix(os, s) matches Some(p) && p.1 == Prefix::Verbatim
}

/// Tells whether a path is a drive and nothing else.
pub open spec fn is_bare_drive(os: Platform, s: Seq<char>) -> bool {
    os == Platform::Windows && drive_at(s, 0) && s.len() == 2
}

/// Tells whether a separator follows what a path begins with.
pub open spec fn root_written(os: Platform, s: Seq<char>) -> bool {
    prefix_len(os, s) < s.len() && is_sep(os, s[prefix_len(os, s)])
}

/// Tells whether a path begins at the root of what it begins with.
pub open spec fn has_root(os: Platform, s: Seq<char>) -> bool {
    root_written(os, s) || (prefix(os, s) matches Some(p) && p.1 != Prefix::Drive)
}

/// Tells whether a path means the same from everywhere.
pub open spec fn is_absolute(os: Platform, s: Seq<char>) -> bool {
    has_root(os, s) && (os == Platform::Windows ==> prefix(os, s) is Some)
}

// ---------------------------------------------------------------------------
// The pieces of a path
// ---------------------------------------------------------------------------

/// Tells whether a part of a path is a piece of it: it is neither empty nor the
/// place itself, which counts in a verbatim path.
pub open spec fn counts(p: Seq<char>, verbatim: bool) -> bool {
    p.len() > 0 && (verbatim || p != seq!['.'])
}

/// The parts of a text between the occurrences of a character that count.
pub open spec fn counted(s: Seq<char>, c: char, verbatim: bool) -> Seq<Seq<char>> {
    split(s, c).filter(|p: Seq<char>| counts(p, verbatim))
}

/// What follows the root of a verbatim path.
pub open spec fn verbatim_body(s: Seq<char>) -> Seq<char> {
    if root_written(Platform::Windows, s) {
        s.skip(prefix_len(Platform::Windows, s) + 1)
    } else {
        s.skip(prefix_len(Platform::Windows, s))
    }
}

/// The pieces of a path. A piece that is the place itself counts only in a
/// verbatim path, which only `\` parts.
pub open spec fn pieces(os: Platform, s: Seq<char>) -> Seq<Seq<char>> {
    match os {
        Platform::Unix => counted(s, '/', false),
        Platform::Windows => if is_verbatim(os, s) {
            counted(verbatim_body(s), '\\', true)
        } else {
            counted(replaced(s.skip(prefix_len(os, s)), '\\', '/'), '/', false)
        },
    }
}

fn split_counted(s: &[char], c: char, verbatim: bool) -> (r: Vec<String>)
    ensures
        texts(r@) == counted(s@, c, verbatim),
{
    let parts = split_at_char(s, c);
    let ghost all = split(s@, c);
    let ghost keep = |p: Seq<char>| counts(p, verbatim);
    let mut out: Vec<String> = Vec::new();
    let mut i: usize = 0;
    proof {
        reveal(Seq::filter);
        assert(all.take(0).filter(keep) =~= Seq::<Seq<char>>::empty());
        assert(texts(out@) =~= Seq::<Seq<char>>::empty());
    }
    while i < parts.len()
        invariant
            i <= parts@.len(),
            all == slices(parts@),
            keep == (|p: Seq<char>| counts(p, verbatim)),
            texts(out@) == all.take(i as int).filter(keep),
        decreases parts@.len() - i,
    {
        let ghost before = out@;
        let p = parts[i];
        proof {
            reveal(Seq::filter);
            assert(all.take(i + 1).drop_last() =~= all.take(i as int));
            assert(all.take(i + 1).last() == p@);
            if p@.len() == 1 && p@[0] == '.' {
                assert(p@ =~= seq!['.']);
            }
        }
        if p.len() > 0 && (verbatim || !(p.len() == 1 && p[0] == '.')) {
            let t = string_of(p);
            out.push(t);
            assert(texts(out@) =~= texts(before).push(p@));
        }
        i += 1;
    }
    assert(all.take(i as int) =~= all);
    out
}

/// The pieces of the path.
pub fn split_pieces(os: Platform, s: &[char]) -> (r: Vec<String>)
    ensures
        texts(r@) == pieces(os, s@),
{
    match os {
        Platform::Unix => split_counted(s, '/', false),
        Platform::Windows => {
            let (n, verbatim): (usize, bool) = match find_prefix(s) {
                Some((n, k)) => (n, k == Prefix::Verbatim),
                None => (0, false),
            };
            let rest = slice_subrange(s, n, s.len());
            assert(rest@ =~= s@.skip(n as int));
            if verbatim && rest.len() > 0 && separates(os, rest[0]) {
                let body = slice_subrange(rest, 1, rest.len());
                assert(body@ =~= s@.skip(n + 1));
                split_counted(body, '\\', true)
            } else if verbatim {
                split_counted(rest, '\\', true)
            } else {
                let flat = replace_char(rest, '\\', '/');
                split_counted(flat.as_slice(), '/', false)
            }
        },
    }
}

// ---------------------------------------------------------------------------
// Joining
// ---------------------------------------------------------------------------

/// Tells whether a piece is the name of something: neither the place itself nor
/// the place above.
pub open spec fn is_name(p: Seq<char>) -> bool {
    p != seq!['.'] && p != seq!['.', '.']
}

fn names_it(p: &str) -> (r: bool)
    ensures
        r == is_name(p@),
{
    let c = chars_of(p);
    proof {
        if c@.len() == 1 && c@[0] == '.' {
            assert(c@ =~= seq!['.']);
        }
        if c@.len() == 2 && c@[0] == '.' && c@[1] == '.' {
            assert(c@ =~= seq!['.', '.']);
        }
    }
    !(c.len() == 1 && c[0] == '.') && !(c.len() == 2 && c[0] == '.' && c[1] == '.')
}

/// The pieces that are reached from some pieces by a way: a piece that leads up
/// takes a name away.
pub open spec fn reached(from: Seq<Seq<char>>, way: Seq<Seq<char>>) -> Seq<Seq<char>>
    decreases way.len(),
{
    if way.len() == 0 {
        from
    } else {
        let at = reached(from, way.drop_last());
        if way.last() != seq!['.', '.'] {
            at.push(way.last())
        } else if at.len() > 0 && is_name(at.last()) {
            at.drop_last()
        } else {
            at
        }
    }
}

/// A path taken from a verbatim base.
pub open spec fn verbatim_join(base: Seq<char>, path: Seq<char>) -> Seq<char> {
    let os = Platform::Windows;
    let rooted = root_written(os, path);
    let from = if rooted {
        Seq::empty()
    } else {
        pieces(os, base)
    };
    let all = reached(from, pieces(os, path));
    base.take(prefix_len(os, base)) + (if rooted || root_written(os, base) || all.len() > 0 {
        seq!['\\']
    } else {
        seq![]
    }) + joined(all, "\\"@)
}

/// A path taken from a base. One that begins with a drive or the like, or on
/// Unix at the root, stands by itself; on Windows one that begins at the root is
/// taken from the root of the base.
pub open spec fn join(os: Platform, base: Seq<char>, path: Seq<char>) -> Seq<char> {
    if prefix(os, path) is Some {
        path
    } else if is_verbatim(os, base) && path.len() > 0 {
        verbatim_join(base, path)
    } else if path.len() > 0 && is_sep(os, path[0]) {
        base.take(prefix_len(os, base)) + path
    } else if base.len() == 0 || is_sep(os, base.last()) || is_bare_drive(os, base) {
        base + path
    } else {
        base.push(separator(os)) + path
    }
}

fn join_verbatim(base: &str, path: &str, n: usize) -> (r: String)
    requires
        is_verbatim(Platform::Windows, base@),
        prefix(Platform::Windows, path@) is None,
        n == prefix_len(Platform::Windows, base@),
        n <= base@.len(),
    ensures
        r@ == verbatim_join(base@, path@),
{
    let os = Platform::Windows;
    let b = chars_of(base);
    let p = chars_of(path);
    let rooted = p.len() > 0 && separates(os, p[0]);
    let mut all: Vec<String> = if rooted {
        Vec::new()
    } else {
        split_pieces(os, b.as_slice())
    };
    let ghost from = texts(all@);
    let way = split_pieces(os, p.as_slice());
    let ghost steps = texts(way@);
    assert(rooted ==> from =~= Seq::empty());
    let mut i: usize = 0;
    assert(steps.take(0) =~= Seq::empty());
    while i < way.len()
        invariant
            i <= way@.len(),
            steps == texts(way@),
            texts(all@) == reached(from, steps.take(i as int)),
        decreases way@.len() - i,
    {
        let ghost at = texts(all@);
        assert(steps.take(i + 1).drop_last() =~= steps.take(i as int));
        assert(steps.take(i + 1).last() == way@[i as int]@);
        let step = way[i].as_str();
        let c = chars_of(step);
        assert(step@ == steps[i as int]);
        if c.len() == 2 && c[0] == '.' && c[1] == '.' {
            assert(step@ =~= seq!['.', '.']);
            if all.len() > 0 && names_it(all[all.len() - 1].as_str()) {
                assert(at.last() == all@.last()@);
                all.pop();
                assert(texts(all@) =~= at.drop_last());
            } else if all.len() > 0 {
                assert(at.last() == all@.last()@);
            }
        } else {
            all.push(way[i].clone());
            assert(texts(all@) =~= at.push(step@));
        }
        i += 1;
    }
    assert(steps.take(i as int) =~= steps);
    let start = slice_subrange(b.as_slice(), 0, n);
    assert(start@ =~= base@.take(n as int));
    let mut out = string_of(start);
    if rooted || n < b.len() && separates(os, b[n]) || all.len() > 0 {
        out.push('\\');
    } else {
        assert(out@ =~= start@ + Seq::<char>::empty());
    }
    let rest = join_texts(&all, "\\");
    out.append(rest.as_str());
    out
}

/// The texts with a separator between them.
fn join_texts(parts: &Vec<String>, sep: &str) -> (r: String)
    ensures
        r@ == joined(texts(parts@), sep@),
{
    let mut out = String::new();
    let ghost all = texts(parts@);
    let mut i: usize = 0;
    assert(out@ =~= Seq::<char>::empty());
    while i < parts.len()
        invariant
            i <= parts@.len(),
            all == texts(parts@),
            out@ == joined(all.take(i as int), sep@),
        decreases parts@.len() - i,
    {
        if i > 0 {
            out.append(sep);
        }
        out.append(parts[i].as_str());
        proof {
            let t = all.take(i + 1);
            assert(t.drop_last() =~= all.take(i as int));
            assert(t.last() == all[i as int]);
            if i == 0 {
                assert(out@ =~= all[0]);
            }
        }
        i += 1;
    }
    assert(all.take(i as int) =~= all);
    out
}

/// The path taken from a base.
pub fn join_path(os: Platform, base: &str, path: &str) -> (r: String)
    ensures
        r@ == join(os, base@, path@),
{
    let b = chars_of(base);
    let p = chars_of(path);
    let mut n: usize = 0;
    let mut bare = false;
    match os {
        Platform::Unix => {},
        Platform::Windows => {
            if find_prefix(p.as_slice()).is_some() {
                return path.to_owned();
            }
            match find_prefix(b.as_slice()) {
                Some((len, kind)) => {
                    if kind == Prefix::Verbatim && p.len() > 0 {
                        return join_verbatim(base, path, len);
                    }
                    n = len;
                    bare = kind == Prefix::Drive && len == b.len();
                },
                None => {},
            }
        },
    }
    if p.len() > 0 && separates(os, p[0]) {
        let start = slice_subrange(b.as_slice(), 0, n);
        assert(start@ =~= base@.take(n as int));
        let mut out = string_of(start);
        out.append(path);
        return out;
    }
    let mut out = base.to_owned();
    if b.len() > 0 && !separates(os, b[b.len() - 1]) && !bare {
        out.push(main_separator(os));
        assert(out@ =~= base@.push(separator(os)));
    }
    out.append(path);
    out
}

/// A path to which pieces are joined one after the other.
pub open spec fn extended(os: Platform, start: Seq<char>, ps: Seq<Seq<char>>) -> Seq<char>
    decreases ps.len(),
{
    if ps.len() == 0 {
        start
    } else {
        join(os, extended(os, start, ps.drop_last()), ps.last())
    }
}

/// What a path begins with, and the root where it begins there.
pub open spec fn start_of(os: Platform, s: Seq<char>) -> Seq<char> {
    let front = s.take(prefix_len(os, s));
    if root_written(os, s) || (prefix(os, s) matches Some(p) && p.1 == Prefix::Place) {
        join(os, front, "/"@)
    } else {
        front
    }
}

/// What the path begins with, and the root where it begins there.
pub fn find_start(os: Platform, s: &[char]) -> (r: String)
    ensures
        r@ == start_of(os, s@),
{
    let mut n: usize = 0;
    let mut place = false;
    match os {
        Platform::Unix => {},
        Platform::Windows => match find_prefix(s) {
            Some((len, kind)) => {
                n = len;
                place = kind == Prefix::Place;
            },
            None => {},
        },
    }
    let front = slice_subrange(s, 0, n);
    assert(front@ =~= s@.take(n as int));
    let text = string_of(front);
    if place || n < s.len() && separates(os, s[n]) {
        join_path(os, text.as_str(), "/")
    } else {
        text
    }
}

/// The names among the pieces of a path.
pub open spec fn names_in(os: Platform, s: Seq<char>) -> Seq<Seq<char>> {
    pieces(os, s).filter(|p: Seq<char>| is_name(p))
}

/// Joins to a path the names among the pieces of another.
pub fn extend_by_names(os: Platform, start: String, s: &[char]) -> (r: String)
    ensures
        r@ == extended(os, start@, names_in(os, s@)),
{
    let all = split_pieces(os, s);
    let ghost told = pieces(os, s@);
    let ghost keep = |p: Seq<char>| is_name(p);
    let mut out = start;
    let mut i: usize = 0;
    proof {
        reveal(Seq::filter);
        assert(told.take(0).filter(keep) =~= Seq::<Seq<char>>::empty());
    }
    while i < all.len()
        invariant
            i <= all@.len(),
            told == texts(all@),
            keep == (|p: Seq<char>| is_name(p)),
            out@ == extended(os, start@, told.take(i as int).filter(keep)),
        decreases all@.len() - i,
    {
        let p = all[i].as_str();
        let ghost before = told.take(i as int).filter(keep);
        proof {
            reveal(Seq::filter);
            assert(told.take(i + 1).drop_last() =~= told.take(i as int));
            assert(told.take(i + 1).last() == p@);
        }
        if names_it(p) {
            out = join_path(os, out.as_str(), p);
            proof {
                let after = told.take(i + 1).filter(keep);
                assert(after =~= before.push(p@));
                assert(after.drop_last() =~= before);
            }
        }
        i += 1;
    }
    assert(told.take(i as int) =~= told);
    out
}

// ---------------------------------------------------------------------------
// Names and extensions
// ---------------------------------------------------------------------------

/// What a path names last, unless that is the place itself or the place above.
pub open spec fn file_name(os: Platform, s: Seq<char>) -> Option<Seq<char>> {
    let p = pieces(os, s);
    if p.len() > 0 && is_name(p.last()) {
        Some(p.last())
    } else {
        None
    }
}

/// What the path names last, unless that is the place itself or the place above.
pub fn file_name_of(os: Platform, s: &str) -> (r: Option<String>)
    ensures
        text_view(r) == file_name(os, s@),
{
    let chars = chars_of(s);
    let mut p = split_pieces(os, chars.as_slice());
    let ghost all = texts(p@);
    match p.pop() {
        Some(last) => {
            assert(all.last() == last@);
            if names_it(last.as_str()) {
                Some(last)
            } else {
                None
            }
        },
        None => None,
    }
}

/// Where the last dot of a name stands, from the position `i` down, or -1.
pub open spec fn last_dot(s: Seq<char>, i: int) -> int
    decreases i + 1,
{
    if i < 0 || i >= s.len() {
        -1
    } else if s[i] == '.' {
        i
    } else {
        last_dot(s, i - 1)
    }
}

/// The last dot stands within the name.
pub proof fn lemma_last_dot(s: Seq<char>, i: int)
    ensures
        -1 <= last_dot(s, i) < s.len() || last_dot(s, i) == -1,
    decreases i + 1,
{
    if 0 <= i < s.len() && s[i] != '.' {
        lemma_last_dot(s, i - 1);
    }
}

/// The extension of a name: what follows its last dot, when something stands
/// before that dot.
pub open spec fn name_extension(name: Seq<char>) -> Option<Seq<char>> {
    let d = last_dot(name, name.len() - 1);
    if d <= 0 {
        None
    } else {
        Some(name.skip(d + 1))
    }
}

/// The name without its extension.
pub open spec fn name_stem(name: Seq<char>) -> Seq<char> {
    let d = last_dot(name, name.len() - 1);
    if d <= 0 {
        name
    } else {
        name.take(d)
    }
}

/// The name without its extension, and the extension.
pub fn split_name(name: &[char]) -> (r: (&[char], Option<&[char]>))
    ensures
        r.0@ == name_stem(name@),
        match r.1 {
            Some(e) => name_extension(name@) == Some(e@),
            None => name_extension(name@) is None,
        },
{
    let mut i: usize = name.len();
    while i > 0
        invariant
            i <= name@.len(),
            last_dot(name@, name@.len() - 1) == last_dot(name@, i - 1),
        decreases i,
    {
        if name[i - 1] == '.' {
            if i == 1 {
                return (name, None);
            }
            let stem = slice_subrange(name, 0, i - 1);
            let ext = slice_subrange(name, i, name.len());
            assert(stem@ =~= name@.take(i - 1));
            assert(ext@ =~= name@.skip(i as int));
            return (stem, Some(ext));
        }
        i -= 1;
    }
    (name, None)
}

/// The extension of what a path names last.
pub open spec fn extension(os: Platform, s: Seq<char>) -> Option<Seq<char>> {
    match file_name(os, s) {
        Some(n) => name_extension(n),
        None => None,
    }
}

/// The extension of what the path names last.
pub fn extension_of(os: Platform, s: &str) -> (r: Option<String>)
    ensures
        text_view(r) == extension(os, s@),
{
    match file_name_of(os, s) {
        Some(n) => {
            let chars = chars_of(n.as_str());
            let (_, ext) = split_name(chars.as_slice());
            match ext {
                Some(e) => Some(string_of(e)),
                None => None,
            }
        },
        None => None,
    }
}

/// Where a file with data of the user is kept: below the directory for data of
/// this machine, else below the one for data, else here.
pub fn data_file(
    os: Platform,
    local: &Option<String>,
    shared: &Option<String>,
    name: &str,
) -> (r: String)
    ensures
        r@ == join(
            os,
            join(
                os,
                match *local {
                    Some(d) => d@,
                    None => match *shared {
                        Some(d) => d@,
                        None => "."@,
                    },
                },
                "noide"@,
            ),
            name@,
        ),
{
    let base = match local {
        Some(d) => d.clone(),
        None => match shared {
            Some(d) => d.clone(),
            None => ".".to_owned(),
        },
    };
    let dir = join_path(os, base.as_str(), "noide");
    join_path(os, dir.as_str(), name)
}

// ---------------------------------------------------------------------------
// Search paths
// ---------------------------------------------------------------------------

/// The parts of a search path on Windows, when a part has begun: `;` parts it
/// but between quotation marks, which are left out.
pub open spec fn quoted_parts(s: Seq<char>, quoted: bool, part: Seq<char>) -> Seq<Seq<char>>
    decreases s.len(),
{
    if s.len() == 0 {
        seq![part]
    } else if s[0] == '"' {
        quoted_parts(s.skip(1), !quoted, part)
    } else if s[0] == ';' && !quoted {
        seq![part] + quoted_parts(s.skip(1), false, seq![])
    } else {
        quoted_parts(s.skip(1), quoted, part.push(s[0]))
    }
}

/// The directories in a search path.
pub open spec fn search_parts(os: Platform, s: Seq<char>) -> Seq<Seq<char>> {
    match os {
        Platform::Unix => split(s, ':'),
        Platform::Windows => quoted_parts(s, false, seq![]),
    }
}

/// The directories in a search path.
pub fn split_search_path(os: Platform, s: &str) -> (r: Vec<String>)
    ensures
        texts(r@) == search_parts(os, s@),
{
    let chars = chars_of(s);
    let mut out: Vec<String> = Vec::new();
    assert(texts(out@) =~= seq![]);
    match os {
        Platform::Unix => {
            let parts = split_at_char(chars.as_slice(), ':');
            let ghost all = split(s@, ':');
            let mut i: usize = 0;
            assert(all.take(0) =~= seq![]);
            while i < parts.len()
                invariant
                    i <= parts@.len(),
                    all == slices(parts@),
                    texts(out@) == all.take(i as int),
                decreases parts@.len() - i,
            {
                let ghost before = texts(out@);
                let d = string_of(parts[i]);
                out.push(d);
                assert(texts(out@) =~= before.push(d@));
                assert(all.take(i + 1) =~= before.push(all[i as int]));
                i += 1;
            }
            assert(all.take(i as int) =~= all);
        },
        Platform::Windows => {
            let mut part = String::new();
            let mut quoted = false;
            let mut i: usize = 0;
            let ghost all = quoted_parts(s@, false, seq![]);
            assert(s@.skip(0) =~= s@);
            assert(part@ =~= seq![]);
            assert(texts(out@) + all =~= all);
            while i < chars.len()
                invariant
                    i <= chars@.len(),
                    chars@ == s@,
                    texts(out@) + quoted_parts(s@.skip(i as int), quoted, part@) == all,
                decreases chars@.len() - i,
            {
                let ghost rest = s@.skip(i as int);
                assert(rest.skip(1) =~= s@.skip(i + 1));
                let c = chars[i];
                assert(rest[0] == c);
                if c == '"' {
                    quoted = !quoted;
                } else if c == ';' && !quoted {
                    let ghost before = texts(out@);
                    let ghost told = part@;
                    out.push(part);
                    part = String::new();
                    assert(part@ =~= seq![]);
                    assert(texts(out@) =~= before.push(told));
                    let ghost more = quoted_parts(s@.skip(i + 1), false, seq![]);
                    assert(before + (seq![told] + more) =~= before.push(told) + more);
                } else {
                    part.push(c);
                }
                i += 1;
            }
            assert(s@.skip(i as int) =~= seq![]);
            let ghost before = texts(out@);
            let ghost told = part@;
            out.push(part);
            assert(texts(out@) =~= before + seq![told]);
        },
    }
    out
}

// ---------------------------------------------------------------------------
// Facts about paths
// ---------------------------------------------------------------------------

/// Tells whether a piece holds no separator.
pub open spec fn is_free(os: Platform, p: Seq<char>) -> bool {
    forall|k: int| 0 <= k < p.len() ==> !is_sep(os, #[trigger] p[k])
}

/// Tells whether a piece can be joined to any path and adds itself: it is not
/// empty, holds no separator and begins with no drive.
pub open spec fn is_plain(os: Platform, p: Seq<char>) -> bool {
    p.len() > 0 && is_free(os, p) && prefix(os, p) is None
}

/// Tells whether all pieces are plain.
pub open spec fn all_plain(os: Platform, ps: Seq<Seq<char>>) -> bool {
    forall|i: int| 0 <= i < ps.len() ==> is_plain(os, #[trigger] ps[i])
}

/// Every piece of a path counts and holds no separator, unless the path is
/// verbatim and holds a `/`.
pub proof fn lemma_pieces(os: Platform, s: Seq<char>)
    requires
        is_verbatim(os, s) ==> !s.contains('/'),
    ensures
        forall|i: int|
            0 <= i < pieces(os, s).len() ==> counts(
                #[trigger] pieces(os, s)[i],
                is_verbatim(os, s),
            ) && is_free(os, pieces(os, s)[i]),
{
    let verbatim = is_verbatim(os, s);
    let t = match os {
        Platform::Unix => s,
        Platform::Windows => if verbatim {
            verbatim_body(s)
        } else {
            replaced(s.skip(prefix_len(os, s)), '\\', '/')
        },
    };
    let (c, other) = if verbatim {
        ('\\', '/')
    } else {
        ('/', '\\')
    };
    let all = split(t, c);
    let keep = |p: Seq<char>| counts(p, verbatim);
    let ps = pieces(os, s);
    lemma_parts_are_free(t, c);
    lemma_prefix_len(os, s);
    if os == Platform::Windows {
        if verbatim {
            assert forall|k: int| 0 <= k < t.len() implies #[trigger] t[k] != '/' by {
                assert(s.contains(s[s.len() - t.len() + k]));
            }
        }
        assert(!t.contains(other));
        lemma_parts_hold(t, c, other);
    }
    assert forall|i: int| 0 <= i < ps.len() implies counts(#[trigger] ps[i], verbatim) && is_free(
        os,
        ps[i],
    ) by {
        all.lemma_filter_pred(keep, i);
        all.lemma_filter_contains_rev(keep, ps[i]);
        let k = choose|k: int| 0 <= k < all.len() && all[k] == ps[i];
        assert(!all[k].contains(c));
        assert forall|j: int| 0 <= j < ps[i].len() implies !is_sep(os, #[trigger] ps[i][j]) by {
            assert(ps[i].contains(ps[i][j]));
        }
    }
}

/// The parts that count of a text that was put together from such parts are these
/// parts.
proof fn lemma_counted_joined(ps: Seq<Seq<char>>)
    requires
        forall|i: int|
            0 <= i < ps.len() ==> counts(#[trigger] ps[i], false) && !ps[i].contains('/'),
    ensures
        counted(joined(ps, "/"@), '/', false) == ps,
    decreases ps.len(),
{
    reveal_strlit("/");
    reveal(Seq::filter);
    let keep = |p: Seq<char>| counts(p, false);
    let s = joined(ps, "/"@);
    if ps.len() == 0 {
        assert(split(s, '/') =~= seq![s]);
        assert(seq![s].drop_last() =~= Seq::<Seq<char>>::empty());
        assert(seq![s].drop_last().filter(keep) =~= Seq::<Seq<char>>::empty());
        assert(!keep(seq![s].last()));
        assert(counted(s, '/', false) =~= ps);
    } else if ps.len() == 1 {
        lemma_position(s, '/');
        assert(split(s, '/') =~= seq![s]);
        assert(seq![s].drop_last() =~= Seq::<Seq<char>>::empty());
        assert(seq![s].drop_last().filter(keep) =~= Seq::<Seq<char>>::empty());
        assert(keep(seq![s].last()));
        assert(counted(s, '/', false) =~= ps);
    } else {
        let front = ps.drop_last();
        let a = joined(front, "/"@);
        lemma_counted_joined(front);
        assert("/"@ =~= seq!['/']);
        assert(s =~= a.push('/') + ps.last());
        lemma_split_last(a, ps.last(), '/');
        assert(split(a, '/').push(ps.last()).drop_last() =~= split(a, '/'));
        assert(keep(ps.last()));
        assert(counted(s, '/', false) =~= ps);
    }
}

/// A `/` at the beginning adds no part that counts.
proof fn lemma_counted_rooted(s: Seq<char>)
    ensures
        counted(seq!['/'] + s, '/', false) == counted(s, '/', false),
{
    reveal(Seq::filter);
    let keep = |p: Seq<char>| counts(p, false);
    let t = seq!['/'] + s;
    assert(t[0] == '/');
    assert(t.take(0) =~= Seq::<char>::empty());
    assert(t.skip(1) =~= s);
    let first = seq![Seq::<char>::empty()];
    assert(split(t, '/') == first + split(s, '/'));
    Seq::filter_distributes_over_add(first, split(s, '/'), keep);
    assert(first.drop_last() =~= Seq::<Seq<char>>::empty());
    assert(first.drop_last().filter(keep) =~= Seq::<Seq<char>>::empty());
    assert(!keep(first.last()));
    assert(first.filter(keep) =~= Seq::<Seq<char>>::empty());
    assert(counted(t, '/', false) =~= counted(s, '/', false));
}

/// Pieces without separators are the same whatever stands between them.
proof fn lemma_joined_flat(ps: Seq<Seq<char>>)
    requires
        forall|i: int| 0 <= i < ps.len() ==> is_free(Platform::Windows, #[trigger] ps[i]),
    ensures
        replaced(joined(ps, seq!['\\']), '\\', '/') == joined(ps, "/"@),
    decreases ps.len(),
{
    reveal_strlit("/");
    assert("/"@ =~= seq!['/']);
    let flat = replaced(joined(ps, seq!['\\']), '\\', '/');
    if ps.len() == 1 {
        assert(flat =~= ps[0]);
    } else if ps.len() > 1 {
        let front = ps.drop_last();
        lemma_joined_flat(front);
        let a = joined(front, seq!['\\']);
        assert(flat =~= replaced(a, '\\', '/') + seq!['/'] + ps.last());
    } else {
        assert(flat =~= joined(ps, "/"@));
    }
}

/// A path to which plain pieces can be joined as they are.
pub open spec fn is_start(os: Platform, s: Seq<char>) -> bool {
    &&& s.len() == 0 || s.last() == '/' || is_bare_drive(os, s)
    &&& !is_verbatim(os, s)
}

/// Joining plain pieces writes them one after the other.
proof fn lemma_extended(os: Platform, start: Seq<char>, ps: Seq<Seq<char>>)
    requires
        is_start(os, start),
        all_plain(os, ps),
    ensures
        extended(os, start, ps) == start + joined(ps, seq![separator(os)]),
        !is_verbatim(os, extended(os, start, ps)),
        ps.len() > 0 ==> {
            let e = extended(os, start, ps);
            &&& e.len() > start.len()
            &&& !is_sep(os, e[start.len() as int])
            &&& !is_sep(os, e.last())
            &&& start.len() == 0 ==> !(os == Platform::Windows && drive_at(e, 0))
        },
    decreases ps.len(),
{
    let sep = seq![separator(os)];
    if ps.len() == 0 {
        assert(start + joined(ps, sep) =~= start);
    } else {
        let front = ps.drop_last();
        let last = ps.last();
        assert(is_plain(os, ps[ps.len() - 1]));
        assert forall|i: int| 0 <= i < front.len() implies is_plain(os, #[trigger] front[i]) by {
            assert(front[i] == ps[i]);
        }
        lemma_extended(os, start, front);
        let before = extended(os, start, front);
        let e = extended(os, start, ps);
        assert(!is_sep(os, last[0]));
        assert(!is_sep(os, last[last.len() - 1]));
        if front.len() == 0 {
            assert(before =~= start);
            assert(e =~= start + last);
            assert(joined(ps, sep) =~= last);
        } else {
            assert(!is_bare_drive(os, before));
            assert(e =~= before + sep + last);
            assert(e =~= start + joined(ps, sep));
            assert(e[start.len() as int] == before[start.len() as int]);
        }
        assert(e.last() == last.last());
        assert(!is_verbatim(os, e));
    }
}

proof fn lemma_next_sep(s: Seq<char>, i: int, verbatim: bool)
    requires
        0 <= i <= s.len(),
    ensures
        i <= next_sep(s, i, verbatim) <= s.len(),
        forall|k: int|
            i <= k < next_sep(s, i, verbatim) ==> s[k] != '\\' && (verbatim || s[k] != '/'),
        next_sep(s, i, verbatim) < s.len() ==> ({
            let c = s[next_sep(s, i, verbatim)];
            c == '\\' || c == '/' && !verbatim
        }),
    decreases s.len() - i,
{
    if i < s.len() && !(s[i] == '\\' || s[i] == '/' && !verbatim) {
        lemma_next_sep(s, i + 1, verbatim);
    }
}

proof fn lemma_next_sep_is(s: Seq<char>, i: int, r: int)
    requires
        0 <= i <= r <= s.len(),
        forall|k: int| i <= k < r ==> !is_sep(Platform::Windows, #[trigger] s[k]),
        r < s.len() ==> is_sep(Platform::Windows, s[r]),
    ensures
        next_sep(s, i, false) == r,
    decreases r - i,
{
    if i < r {
        assert(!is_sep(Platform::Windows, s[i]));
        lemma_next_sep_is(s, i + 1, r);
    }
}

/// A share or a device is there as well in a path that goes on behind it.
proof fn lemma_place_stays(s: Seq<char>, t: Seq<char>)
    requires
        windows_prefix(s) matches Some(p) && p.1 == Prefix::Place && 0 <= p.0 <= t.len()
            && t.take(p.0) == s.take(p.0) && (p.0 < t.len() ==> is_sep(
            Platform::Windows,
            t[p.0],
        )),
    ensures
        windows_prefix(t) == windows_prefix(s),
        4 <= prefix_len(Platform::Windows, s) <= s.len(),
{
    let n = windows_prefix(s)->Some_0.0;
    let w = Platform::Windows;
    let server = next_sep(s, 2, false);
    lemma_next_sep(s, 2, false);
    if s.len() >= 4 && s[2] == '.' && is_sep(w, s[3]) {
        lemma_next_sep(s, 4, false);
    } else {
        lemma_next_sep(s, server + 1, false);
    }
    assert forall|k: int| 0 <= k < n implies #[trigger] t[k] == s[k] by {
        assert(t.take(n)[k] == s.take(n)[k]);
    }
    if s[2] == '.' && is_sep(w, s[3]) {
        lemma_next_sep_is(t, 4, n);
    } else {
        lemma_next_sep_is(t, 2, server);
        lemma_next_sep_is(t, server + 1, n);
    }
}

/// What a path begins with lies within it.
proof fn lemma_prefix_len(os: Platform, s: Seq<char>)
    ensures
        0 <= prefix_len(os, s) <= s.len(),
{
    if os == Platform::Windows && s.len() >= 2 {
        let server = next_sep(s, 2, false);
        lemma_next_sep(s, 2, false);
        if s.len() >= 4 {
            lemma_next_sep(s, 4, false);
            lemma_next_sep(s, 4, true);
        }
        if server < s.len() {
            lemma_next_sep(s, server + 1, false);
        }
        if s.len() >= 8 {
            let other = next_sep(s, 8, true);
            lemma_next_sep(s, 8, true);
            if other < s.len() {
                lemma_next_sep(s, other + 1, true);
            }
        }
    }
}

/// Tells whether a path begins at a root that is written where its start is.
spec fn starts_at_root(os: Platform, s: Seq<char>) -> bool {
    root_written(os, s) || (prefix(os, s) matches Some(p) && p.1 == Prefix::Place)
}

/// The start of a path is what it begins with, and a `/` for the root.
proof fn lemma_start_of(os: Platform, s: Seq<char>)
    requires
        !is_verbatim(os, s),
    ensures
        start_of(os, s) == (if starts_at_root(os, s) {
            s.take(prefix_len(os, s)).push('/')
        } else {
            s.take(prefix_len(os, s))
        }),
        is_start(os, start_of(os, s)),
{
    reveal_strlit("/");
    assert("/"@ =~= seq!['/']);
    lemma_prefix_len(os, s);
    let n = prefix_len(os, s);
    let front = s.take(n);
    let start = start_of(os, s);
    if prefix(os, s) matches Some(p) && p.1 == Prefix::Place {
        assert(front.take(n) =~= s.take(n));
        lemma_place_stays(s, front);
        assert(front.take(n) =~= front);
        assert(start =~= front.push('/'));
        assert(start.take(n) =~= s.take(n));
        lemma_place_stays(s, start);
    } else if starts_at_root(os, s) {
        assert(prefix_len(os, front) == n);
        assert(front.take(n) =~= front);
        assert(start =~= front.push('/'));
    }
}

/// A path that goes on behind its start with what is no separator begins as the
/// start does.
proof fn lemma_begins_alike(os: Platform, s: Seq<char>, e: Seq<char>)
    requires
        !is_verbatim(os, s),
        e.len() >= start_of(os, s).len(),
        e.take(start_of(os, s).len() as int) == start_of(os, s),
        e.len() > start_of(os, s).len() ==> !is_sep(os, e[start_of(os, s).len() as int]),
        start_of(os, s).len() == 0 && os == Platform::Windows ==> !drive_at(e, 0),
    ensures
        prefix(os, e) == prefix(os, s),
        root_written(os, e) == starts_at_root(os, s),
{
    lemma_prefix_len(os, s);
    lemma_start_of(os, s);
    let n = prefix_len(os, s);
    let start = start_of(os, s);
    assert forall|k: int| 0 <= k < start.len() implies #[trigger] e[k] == start[k] by {
        assert(e.take(start.len() as int)[k] == e[k]);
    }
    if prefix(os, s) matches Some(p) && p.1 == Prefix::Place {
        assert(e.take(n) =~= s.take(n));
        lemma_place_stays(s, e);
    }
}

/// A path that is put together from the start and the plain names of another
/// starts where that one does, and these names are all its pieces.
pub proof fn lemma_put_together(os: Platform, s: Seq<char>)
    requires
        !is_verbatim(os, s),
        all_plain(os, names_in(os, s)),
    ensures
        ({
            let e = extended(os, start_of(os, s), names_in(os, s));
            &&& pieces(os, e) == names_in(os, s)
            &&& names_in(os, e) == names_in(os, s)
            &&& start_of(os, e) == start_of(os, s)
            &&& is_absolute(os, e) == is_absolute(os, s)
            &&& !is_verbatim(os, e)
        }),
{
    let ps = names_in(os, s);
    let start = start_of(os, s);
    let e = extended(os, start, ps);
    let rest = joined(ps, seq![separator(os)]);
    lemma_prefix_len(os, s);
    lemma_start_of(os, s);
    lemma_extended(os, start, ps);
    assert(e.take(start.len() as int) =~= start);
    lemma_begins_alike(os, s, e);
    lemma_start_of(os, e);
    let n = prefix_len(os, s);
    assert(e.take(n) =~= s.take(n));
    lemma_names_are_kept(os, s);
    assert(e.skip(n) =~= if starts_at_root(os, s) {
        seq!['/'] + rest
    } else {
        rest
    });
    lemma_written_pieces(os, e, n, starts_at_root(os, s), ps);
}

/// The pieces of a path that holds, behind what it begins with, pieces written
/// one after the other.
proof fn lemma_written_pieces(
    os: Platform,
    e: Seq<char>,
    n: int,
    rooted: bool,
    ps: Seq<Seq<char>>,
)
    requires
        !is_verbatim(os, e),
        n == prefix_len(os, e),
        0 <= n <= e.len(),
        e.skip(n) == (if rooted {
            seq!['/'] + joined(ps, seq![separator(os)])
        } else {
            joined(ps, seq![separator(os)])
        }),
        forall|i: int|
            0 <= i < ps.len() ==> counts(#[trigger] ps[i], false) && is_free(os, ps[i]),
    ensures
        pieces(os, e) == ps,
{
    let rest = joined(ps, seq![separator(os)]);
    assert forall|i: int| 0 <= i < ps.len() implies !(#[trigger] ps[i]).contains('/') by {
        if ps[i].contains('/') {
            let j = choose|j: int| 0 <= j < ps[i].len() && ps[i][j] == '/';
            assert(is_sep(os, ps[i][j]));
        }
    }
    lemma_counted_joined(ps);
    match os {
        Platform::Unix => {
            reveal_strlit("/");
            assert("/"@ =~= seq!['/']);
            assert(e =~= e.skip(n));
            lemma_counted_rooted(rest);
        },
        Platform::Windows => {
            lemma_joined_flat(ps);
            let flat = replaced(rest, '\\', '/');
            lemma_counted_rooted(flat);
            assert(replaced(e.skip(n), '\\', '/') =~= if rooted {
                seq!['/'] + flat
            } else {
                flat
            });
        },
    }
}

/// The names among the pieces of a path count, hold no separator and are all
/// names, unless the path is verbatim and holds a `/`.
pub proof fn lemma_names_are_kept(os: Platform, s: Seq<char>)
    requires
        is_verbatim(os, s) ==> !s.contains('/'),
    ensures
        forall|i: int|
            0 <= i < names_in(os, s).len() ==> counts(#[trigger] names_in(os, s)[i], false)
                && is_name(names_in(os, s)[i]) && is_free(os, names_in(os, s)[i]),
        names_in(os, s).filter(|p: Seq<char>| is_name(p)) == names_in(os, s),
{
    let keep = |p: Seq<char>| is_name(p);
    let all = pieces(os, s);
    let ps = names_in(os, s);
    lemma_pieces(os, s);
    assert forall|i: int| 0 <= i < ps.len() implies counts(#[trigger] ps[i], false) && keep(ps[i])
        && is_free(os, ps[i]) by {
        all.lemma_filter_pred(keep, i);
        all.lemma_filter_contains_rev(keep, ps[i]);
        let k = choose|k: int| 0 <= k < all.len() && all[k] == ps[i];
        assert(is_free(os, all[k]));
    }
    lemma_all_kept(ps, keep);
}

/// A path that is put together from plain names alone is taken from the place
/// where it is used, and these names are its pieces.
pub proof fn lemma_names_lead_down(os: Platform, ps: Seq<Seq<char>>)
    requires
        all_plain(os, ps),
        forall|i: int| 0 <= i < ps.len() ==> is_name(#[trigger] ps[i]),
    ensures
        ({
            let e = extended(os, Seq::empty(), ps);
            &&& prefix(os, e) is None
            &&& !has_root(os, e)
            &&& pieces(os, e) == ps
        }),
{
    let e = extended(os, Seq::empty(), ps);
    let none = Seq::<char>::empty();
    assert(start_of(os, none) =~= none);
    lemma_extended(os, none, ps);
    assert(e.take(0) =~= none);
    lemma_begins_alike(os, none, e);
    assert forall|i: int| 0 <= i < ps.len() implies counts(#[trigger] ps[i], false) && is_free(
        os,
        ps[i],
    ) by {
        assert(is_plain(os, ps[i]) && is_name(ps[i]));
    }
    assert(e.skip(0) =~= joined(ps, seq![separator(os)]));
    lemma_written_pieces(os, e, 0, false, ps);
}

/// Plain names that are put together stand one after the other.
pub proof fn lemma_extended_names(os: Platform, ps: Seq<Seq<char>>)
    requires
        all_plain(os, ps),
    ensures
        extended(os, Seq::empty(), ps) == joined(ps, seq![separator(os)]),
{
    lemma_extended(os, Seq::empty(), ps);
    assert(Seq::<char>::empty() + joined(ps, seq![separator(os)]) =~= joined(
        ps,
        seq![separator(os)],
    ));
}

/// Where the paths of what a directory holds begin.
pub open spec fn front_of(os: Platform, dir: Seq<char>) -> Seq<char> {
    if is_sep(os, dir.last()) || is_bare_drive(os, dir) {
        dir
    } else {
        dir.push(separator(os))
    }
}

/// What lies below a directory that is given by an absolute path has one too.
pub proof fn lemma_absolute_below(os: Platform, dir: Seq<char>, path: Seq<char>)
    requires
        is_absolute(os, dir),
        path.len() >= front_of(os, dir).len(),
        path.take(front_of(os, dir).len() as int) == front_of(os, dir),
    ensures
        is_absolute(os, path),
{
    let f = front_of(os, dir);
    assert forall|k: int| 0 <= k < dir.len() implies #[trigger] path[k] == dir[k] by {
        assert(path.take(f.len() as int)[k] == path[k]);
    }
    if os == Platform::Windows && !is_verbatim(os, dir) && !drive_at(dir, 0) {
        let server = next_sep(dir, 2, false);
        lemma_next_sep(dir, 2, false);
        if !(dir.len() >= 4 && dir[2] == '.' && is_sep(os, dir[3])) {
            lemma_next_sep(dir, server + 1, false);
            lemma_next_sep_is(path, 2, server);
            lemma_next_sep(path, server + 1, false);
        }
    }
}

proof fn lemma_all_kept(ps: Seq<Seq<char>>, keep: spec_fn(Seq<char>) -> bool)
    requires
        forall|i: int| 0 <= i < ps.len() ==> keep(#[trigger] ps[i]),
    ensures
        ps.filter(keep) == ps,
    decreases ps.len(),
{
    reveal(Seq::filter);
    if ps.len() > 0 {
        lemma_all_kept(ps.drop_last(), keep);
        assert(keep(ps[ps.len() - 1]));
        assert(ps.filter(keep) =~= ps);
    }
}

/// A path that begins at the root, or with a drive on Windows, stands by itself wherever it is
/// taken from; there one that begins at the root of no drive is taken from the drive of the
/// base.
pub proof fn absolute_paths_stand_by_themselves(base: Seq<char>, path: Seq<char>, drive: char)
    requires
        'a' <= drive <= 'z' || 'A' <= drive <= 'Z',
    ensures
        path.len() > 0 && path[0] == '/' ==> join(Platform::Unix, base, path) == path,
        drive_at(path, 0) ==> join(Platform::Windows, base, path) == path,
        path.len() > 0 && path[0] == '\\' && prefix(Platform::Windows, path) is None ==> join(
            Platform::Windows,
            seq![drive, ':', '\\'] + base,
            path,
        ) == seq![drive, ':'] + path,
{
    if path.len() > 0 && path[0] == '/' {
        assert(base.take(0) + path =~= path);
    }
    let b = seq![drive, ':', '\\'] + base;
    assert(b[0] == drive && b[1] == ':');
    assert(b.take(2) =~= seq![drive, ':']);
}

/// Any other path goes on where its base ends, with one separator of the system between them.
pub proof fn relative_paths_go_on_from_their_base(os: Platform, base: Seq<char>, path: Seq<char>)
    requires
        prefix(os, path) is None,
        path.len() > 0,
        !is_sep(os, path[0]),
        !is_verbatim(os, base),
        !is_bare_drive(os, base),
    ensures
        base.len() == 0 ==> join(os, base, path) == path,
        base.len() > 0 && is_sep(os, base.last()) ==> join(os, base, path) == base + path,
        base.len() > 0 && !is_sep(os, base.last()) ==> join(os, base, path) == base + seq![
            if os == Platform::Windows {
                '\\'
            } else {
                '/'
            },
        ] + path,
{
    if base.len() == 0 {
        assert(base + path =~= path);
    } else if !is_sep(os, base.last()) {
        assert(base.push(separator(os)) =~= base + seq![separator(os)]);
    }
}

/// On Unix a path means the same from everywhere just where it begins with a slash, and on
/// Windows one with a drive just where a separator follows the drive.
pub proof fn absolute_paths_begin_at_a_root(s: Seq<char>)
    ensures
        is_absolute(Platform::Unix, s) <==> s.len() > 0 && s[0] == '/',
        drive_at(s, 0) ==> (is_absolute(Platform::Windows, s) <==> s.len() > 2 && (s[2] == '/'
            || s[2] == '\\')),
        s.len() > 0 && !drive_at(s, 0) && s[0] != '/' && s[0] != '\\' ==> !is_absolute(
            Platform::Windows,
            s,
        ),
{
}

/// What a path names last is what follows its last separator, so long as that is a name.
pub proof fn file_names_follow_the_last_separator(
    os: Platform,
    front: Seq<char>,
    dir: Seq<char>,
    name: Seq<char>,
)
    requires
        !is_verbatim(os, front + dir.push(separator(os)) + name),
        prefix_len(os, front + dir.push(separator(os)) + name) == front.len(),
        is_free(os, name),
        name.len() > 0,
        is_name(name),
    ensures
        file_name(os, front + dir.push(separator(os)) + name) == Some(name),
{
    reveal(Seq::filter);
    let path = front + dir.push(separator(os)) + name;
    let rest = dir.push(separator(os)) + name;
    let keep = |p: Seq<char>| counts(p, false);
    assert(path.skip(front.len() as int) =~= rest);
    let (d, t) = match os {
        Platform::Unix => (dir, rest),
        Platform::Windows => (replaced(dir, '\\', '/'), replaced(rest, '\\', '/')),
    };
    if os == Platform::Unix {
        assert(front =~= Seq::<char>::empty());
        assert(path =~= rest);
    }
    assert(t =~= d.push('/') + name) by {
        assert forall|i: int| 0 <= i < name.len() implies #[trigger] name[i] != '/' && (os
            == Platform::Windows ==> name[i] != '\\') by {
            assert(!is_sep(os, name[i]));
        }
    }
    if name.contains('/') {
        let i = choose|i: int| 0 <= i < name.len() && name[i] == '/';
        assert(is_sep(os, name[i]));
    }
    lemma_split_last(d, name, '/');
    let all = split(t, '/');
    assert(all.drop_last() =~= split(d, '/'));
    assert(all.last() == name);
    assert(keep(name));
    assert(all.filter(keep).last() == name);
    assert(pieces(os, path) == all.filter(keep));
}

/// A path without a separator names itself, unless it is the place itself or the place above,
/// which are no names.
pub proof fn names_name_themselves(os: Platform, name: Seq<char>)
    requires
        is_plain(os, name),
    ensures
        is_name(name) ==> file_name(os, name) == Some(name),
        !is_name(name) ==> file_name(os, name) is None,
{
    reveal(Seq::filter);
    let keep = |p: Seq<char>| counts(p, false);
    let t = match os {
        Platform::Unix => name,
        Platform::Windows => replaced(name.skip(0), '\\', '/'),
    };
    assert(t =~= name) by {
        assert forall|i: int| 0 <= i < name.len() implies #[trigger] name[i] != '/' && (os
            == Platform::Windows ==> name[i] != '\\') by {
            assert(!is_sep(os, name[i]));
        }
    }
    if name.contains('/') {
        let i = choose|i: int| 0 <= i < name.len() && name[i] == '/';
        assert(is_sep(os, name[i]));
    }
    lemma_position(name, '/');
    let all = split(name, '/');
    assert(all =~= seq![name]);
    assert(all.drop_last() =~= Seq::<Seq<char>>::empty());
    assert(all.drop_last().filter(keep) =~= Seq::<Seq<char>>::empty());
    assert(pieces(os, name) == all.filter(keep));
}

/// The extension of a name is what follows its last dot, where something stands before that;
/// the stem is what stands before it. A name without such a dot is all stem.
pub proof fn extensions_follow_the_last_dot(stem: Seq<char>, ext: Seq<char>)
    requires
        !ext.contains('.'),
    ensures
        stem.len() > 0 ==> name_extension(stem.push('.') + ext) == Some(ext),
        stem.len() > 0 ==> name_stem(stem.push('.') + ext) == stem,
        name_extension(ext) is None,
        name_stem(ext) == ext,
        name_extension(seq!['.'] + ext) is None,
        name_stem(seq!['.'] + ext) == seq!['.'] + ext,
{
    let name = stem.push('.') + ext;
    let hidden = seq!['.'] + ext;
    assert forall|i: int| 0 <= i < ext.len() implies #[trigger] ext[i] != '.' by {}
    lemma_last_dot_at(name, name.len() - 1, stem.len() as int);
    assert(name.skip(stem.len() as int + 1) =~= ext);
    assert(name.take(stem.len() as int) =~= stem);
    lemma_last_dot_at(hidden, hidden.len() - 1, 0);
    lemma_no_dot(ext, ext.len() - 1);
}

proof fn lemma_last_dot_at(s: Seq<char>, i: int, at: int)
    requires
        0 <= at <= i < s.len(),
        s[at] == '.',
        forall|k: int| at < k <= i ==> s[k] != '.',
    ensures
        last_dot(s, i) == at,
    decreases i,
{
    if i > at {
        lemma_last_dot_at(s, i - 1, at);
    }
}

proof fn lemma_no_dot(s: Seq<char>, i: int)
    requires
        -1 <= i < s.len(),
        forall|k: int| 0 <= k <= i ==> s[k] != '.',
    ensures
        last_dot(s, i) == -1,
    decreases i + 1,
{
    if i >= 0 {
        lemma_no_dot(s, i - 1);
    }
}

/// A search path lists its directories in their order, with a colon between them on Unix and a
/// semicolon on Windows, where quotation marks may stand around one.
pub proof fn search_paths_list_their_directories(dirs: Seq<Seq<char>>)
    requires
        dirs.len() > 0,
    ensures
        (forall|i: int| 0 <= i < dirs.len() ==> !(#[trigger] dirs[i]).contains(':'))
            ==> search_parts(Platform::Unix, joined(dirs, seq![':'])) == dirs,
        (forall|i: int|
            0 <= i < dirs.len() ==> !(#[trigger] dirs[i]).contains(';') && !dirs[i].contains('"'))
            ==> search_parts(Platform::Windows, joined(dirs, seq![';'])) == dirs,
        !dirs[0].contains('"') ==> search_parts(
            Platform::Windows,
            seq!['"'] + dirs[0] + seq!['"'],
        ) == seq![dirs[0]],
{
    if forall|i: int| 0 <= i < dirs.len() ==> !(#[trigger] dirs[i]).contains(':') {
        joined_parts_are_split(dirs, ':');
    }
    if forall|i: int|
        0 <= i < dirs.len() ==> !(#[trigger] dirs[i]).contains(';') && !dirs[i].contains('"') {
        lemma_listed(dirs);
    }
    if !dirs[0].contains('"') {
        let s = seq!['"'] + dirs[0] + seq!['"'];
        assert(s[0] == '"');
        assert(s.skip(1) =~= dirs[0] + seq!['"']);
        assert forall|i: int| 0 <= i < dirs[0].len() implies #[trigger] dirs[0][i] != '"' by {}
        lemma_part(dirs[0], seq!['"'], true, Seq::empty());
        assert(Seq::<char>::empty() + dirs[0] =~= dirs[0]);
        let end = seq!['"'];
        assert(end.skip(1) =~= Seq::<char>::empty());
        reveal_with_fuel(quoted_parts, 3);
    }
}

/// The characters of a part are gathered in their order.
proof fn lemma_part(s: Seq<char>, rest: Seq<char>, quoted: bool, part: Seq<char>)
    requires
        forall|i: int| 0 <= i < s.len() ==> #[trigger] s[i] != '"' && (quoted || s[i] != ';'),
    ensures
        quoted_parts(s + rest, quoted, part) == quoted_parts(rest, quoted, part + s),
    decreases s.len(),
{
    if s.len() > 0 {
        assert(s[0] != '"' && (quoted || s[0] != ';'));
        let t = s.skip(1);
        assert((s + rest).skip(1) =~= t + rest);
        assert forall|i: int| 0 <= i < t.len() implies #[trigger] t[i] != '"' && (quoted || t[i]
            != ';') by {
            assert(s[i + 1] == t[i]);
        }
        lemma_part(t, rest, quoted, part.push(s[0]));
        assert(part.push(s[0]) + t =~= part + s);
    } else {
        assert(s + rest =~= rest);
        assert(part + s =~= part);
    }
}

proof fn lemma_listed(dirs: Seq<Seq<char>>)
    requires
        dirs.len() > 0,
        forall|i: int|
            0 <= i < dirs.len() ==> !(#[trigger] dirs[i]).contains(';') && !dirs[i].contains('"'),
    ensures
        quoted_parts(joined(dirs, seq![';']), false, Seq::empty()) == dirs,
{
    lemma_listed_before(dirs, Seq::empty());
    assert(joined(dirs, seq![';']) + Seq::<char>::empty() =~= joined(dirs, seq![';']));
    assert(dirs.drop_last() + quoted_parts(Seq::empty(), false, dirs.last()) =~= dirs);
}

/// Directories that are listed before something else come first.
proof fn lemma_listed_before(dirs: Seq<Seq<char>>, rest: Seq<char>)
    requires
        dirs.len() > 0,
        forall|i: int|
            0 <= i < dirs.len() ==> !(#[trigger] dirs[i]).contains(';') && !dirs[i].contains('"'),
    ensures
        quoted_parts(joined(dirs, seq![';']) + rest, false, Seq::empty()) == dirs.drop_last()
            + quoted_parts(rest, false, dirs.last()),
    decreases dirs.len(),
{
    let last = dirs.last();
    assert(!dirs[dirs.len() - 1].contains(';') && !last.contains('"'));
    assert forall|i: int| 0 <= i < last.len() implies #[trigger] last[i] != '"' && last[i]
        != ';' by {}
    if dirs.len() == 1 {
        lemma_part(last, rest, false, Seq::empty());
        assert(Seq::<char>::empty() + last =~= last);
        assert(dirs.drop_last() + quoted_parts(rest, false, last) =~= quoted_parts(
            rest,
            false,
            last,
        ));
    } else {
        let front = dirs.drop_last();
        let more = seq![';'] + last + rest;
        assert forall|i: int| 0 <= i < front.len() implies !(#[trigger] front[i]).contains(';')
            && !front[i].contains('"') by {
            assert(front[i] == dirs[i]);
        }
        lemma_listed_before(front, more);
        assert(joined(dirs, seq![';']) + rest =~= joined(front, seq![';']) + more);
        assert(more[0] == ';');
        assert(more.skip(1) =~= last + rest);
        lemma_part(last, rest, false, Seq::empty());
        assert(Seq::<char>::empty() + last =~= last);
        assert(quoted_parts(more, false, front.last()) == seq![front.last()] + quoted_parts(
            rest,
            false,
            last,
        ));
        assert(front.drop_last() + (seq![front.last()] + quoted_parts(rest, false, last))
            =~= front + quoted_parts(rest, false, last));
    }
}

/// A way of names leads down by them, and a piece that leads up takes back the name before it.
pub proof fn ways_lead_down_and_up(from: Seq<Seq<char>>, way: Seq<Seq<char>>, name: Seq<char>)
    requires
        is_name(name),
    ensures
        reached(from, way.push(name)) == reached(from, way).push(name),
        reached(from, way.push(name).push(seq!['.', '.'])) == reached(from, way),
        reached(from, Seq::empty()) == from,
{
    let one = way.push(name);
    let two = one.push(seq!['.', '.']);
    assert(one.drop_last() =~= way);
    assert(two.drop_last() =~= one);
    assert(reached(from, one) == reached(from, way).push(name));
    assert(reached(from, way).push(name).drop_last() =~= reached(from, way));
}

/// A path on Windows may begin with the name of another machine and what is shared there, which
/// then count as its root.
pub proof fn shares_are_the_beginning(server: Seq<char>, share: Seq<char>, rest: Seq<char>)
    requires
        server.len() > 0,
        share.len() > 0,
        is_free(Platform::Windows, server),
        is_free(Platform::Windows, share),
        server != seq!['?'],
        server != seq!['.'],
        rest.len() == 0 || is_sep(Platform::Windows, rest[0]),
    ensures
        ({
            let s = seq!['\\', '\\'] + server + seq!['\\'] + share + rest;
            &&& prefix_len(Platform::Windows, s) == 3 + server.len() + share.len()
            &&& is_absolute(Platform::Windows, s)
            &&& !is_verbatim(Platform::Windows, s)
        }),
{
    let w = Platform::Windows;
    let s = seq!['\\', '\\'] + server + seq!['\\'] + share + rest;
    let a = 2 + server.len() as int;
    let b = a + 1 + share.len();
    assert(s[a] == '\\');
    assert forall|k: int| 2 <= k < a implies !is_sep(w, #[trigger] s[k]) by {
        assert(s[k] == server[k - 2]);
    }
    assert forall|k: int| a + 1 <= k < b implies !is_sep(w, #[trigger] s[k]) by {
        assert(s[k] == share[k - a - 1]);
    }
    if b < s.len() {
        assert(s[b] == rest[0]);
    }
    lemma_next_sep_is(s, 2, a);
    lemma_next_sep_is(s, a + 1, b);
    if server.len() == 1 {
        assert(server =~= seq![server[0]]);
        assert(s[2] == server[0]);
    } else {
        assert(!is_sep(w, s[3]));
    }
}

/// A path that begins with `\\?\` is taken as it is written: what follows is a drive or another
/// place, and only a backslash parts its pieces.
pub proof fn verbatim_paths_are_taken_as_written(drive: char, rest: Seq<char>)
    requires
        'a' <= drive <= 'z' || 'A' <= drive <= 'Z',
        rest.len() == 0 || is_sep(Platform::Windows, rest[0]),
    ensures
        ({
            let s = seq!['\\', '\\', '?', '\\', drive, ':'] + rest;
            &&& is_verbatim(Platform::Windows, s)
            &&& prefix_len(Platform::Windows, s) == 6
            &&& is_absolute(Platform::Windows, s)
        }),
{
    let s = seq!['\\', '\\', '?', '\\', drive, ':'] + rest;
    assert(s[4] == drive && s[5] == ':');
    if s.len() > 6 {
        assert(s[6] == rest[0]);
    }
}

} // verus!
