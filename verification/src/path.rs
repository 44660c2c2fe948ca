//! Paths as texts: their names, the directory that holds a file, and the rule-file suffix.
//!
//! A path is a run of names separated by `/`. Empty names and the name `.` stand for nothing
//! and are passed over.

use vstd::prelude::*;
use vstd::seq_lib::*;
use crate::order::texts;
use crate::text::{chars_of, pieces, slice_chars, split, split_ranges, string_of};

verus! {

/// Whether a piece between two separators is a name: not empty and not `.`.
pub open spec fn is_name(piece: Seq<char>) -> bool {
    piece.len() > 0 && piece != seq!['.']
}

/// [`is_name`] as a predicate.
pub open spec fn name_filter() -> spec_fn(Seq<char>) -> bool {
    |piece: Seq<char>| is_name(piece)
}

/// The names that a path is made of, in order.
pub open spec fn names(path: Seq<char>) -> Seq<Seq<char>> {
    split(path, '/').filter(name_filter())
}

/// The category of a file: the name of the directory that holds it. Empty where the path
/// names no such directory, or names it as `..`.
pub open spec fn category_of(path: Seq<char>) -> Seq<char> {
    let n = names(path);
    if n.len() >= 2 && n[n.len() - 2] != seq!['.', '.'] {
        n[n.len() - 2]
    } else {
        Seq::empty()
    }
}

/// Whether the last name of the path ends with `.rules` and has something before it.
pub open spec fn is_rule_file(path: Seq<char>) -> bool {
    let n = names(path);
    n.len() >= 1 && n.last().len() >= 7 && n.last().subrange(n.last().len() - 6, n.last().len() as int)
        == seq!['.', 'r', 'u', 'l', 'e', 's']
}

/// The key by which paths are ordered: the pieces between the separators, compared one by one.
pub open spec fn path_key(path: Seq<char>) -> Seq<Seq<char>> {
    split(path, '/')
}

/// The bounds of each name of the path held in `chars`.
pub fn name_ranges(chars: &Vec<char>) -> (out: Vec<(usize, usize)>)
    ensures
        pieces(chars@, out@) == names(chars@),
        forall|i: int| 0 <= i < out.len() ==> (#[trigger] out[i]).0 <= out[i].1 <= chars.len(),
{
    let parts = split_ranges(chars, 0, chars.len(), '/');
    assert(chars@.subrange(0, chars.len() as int) =~= chars@);
    let ghost all = pieces(chars@, parts@);
    let mut out: Vec<(usize, usize)> = Vec::new();
    let mut i: usize = 0;
    assert(all.take(0).filter(name_filter()) =~= pieces(chars@, out@));
    while i < parts.len()
        invariant
            i <= parts.len(),
            all == pieces(chars@, parts@),
            forall|k: int| 0 <= k < parts.len() ==> (#[trigger] parts[k]).0 <= parts[k].1 <= chars.len(),
            forall|k: int| 0 <= k < out.len() ==> (#[trigger] out[k]).0 <= out[k].1 <= chars.len(),
            pieces(chars@, out@) == all.take(i as int).filter(name_filter()),
        decreases parts.len() - i,
    {
        let (a, b) = parts[i];
        let ghost piece = all[i as int];
        proof {
            assert(all.take(i + 1).drop_last() =~= all.take(i as int));
            assert(all.take(i + 1).last() == piece);
            assert(piece == chars@.subrange(a as int, b as int));
            if b - a == 1 {
                assert(piece =~= seq![chars[a as int]]);
                assert(seq!['.'][0] == '.');
            }
            let next = all.take(i + 1);
            reveal(Seq::filter);
            assert(name_filter()(piece) == is_name(piece));
            assert(next.filter(name_filter()) == if is_name(piece) {
                next.drop_last().filter(name_filter()).push(piece)
            } else {
                next.drop_last().filter(name_filter())
            });
        }
        if b > a && !(b - a == 1 && chars[a] == '.') {
            let ghost before = pieces(chars@, out@);
            out.push((a, b));
            assert(pieces(chars@, out@) =~= before.push(piece));
        }
        i = i + 1;
    }
    assert(all.take(parts.len() as int) =~= all);
    out
}

/// The category of the file at `path`: see [`category_of`].
pub fn category(path: &str) -> (out: String)
    ensures
        out@ == category_of(path@),
{
    let chars = chars_of(path);
    let found = name_ranges(&chars);
    if found.len() < 2 {
        return String::new();
    }
    let (a, b) = found[found.len() - 2];
    let ghost name = names(path@)[found.len() - 2];
    assert(name == chars@.subrange(a as int, b as int));
    if b - a == 2 && chars[a] == '.' && chars[a + 1] == '.' {
        assert(name =~= seq!['.', '.']);
        return String::new();
    }
    proof {
        if name == seq!['.', '.'] {
            assert(name.len() == 2);
            assert(name[0] == '.' && name[1] == '.');
        }
    }
    string_of(&chars, a, b)
}

/// Whether `path` names a rule file: see [`is_rule_file`].
pub fn has_rules_extension(path: &str) -> (r: bool)
    ensures
        r == is_rule_file(path@),
{
    let chars = chars_of(path);
    let found = name_ranges(&chars);
    if found.len() < 1 {
        return false;
    }
    let (a, b) = found[found.len() - 1];
    let ghost name = names(path@).last();
    assert(name == chars@.subrange(a as int, b as int));
    if b - a < 7 {
        return false;
    }
    let ghost tail = name.subrange(name.len() - 6, name.len() as int);
    let ghost suffix = seq!['.', 'r', 'u', 'l', 'e', 's'];
    proof {
        assert(tail.len() == 6);
        assert(forall|k: int| 0 <= k < 6 ==> tail[k] == chars[b - 6 + k]);
        assert(suffix[0] == '.' && suffix[1] == 'r' && suffix[2] == 'u' && suffix[3] == 'l'
            && suffix[4] == 'e' && suffix[5] == 's');
    }
    let r = chars[b - 6] == '.' && chars[b - 5] == 'r' && chars[b - 4] == 'u' && chars[b - 3] == 'l'
        && chars[b - 2] == 'e' && chars[b - 1] == 's';
    proof {
        if r {
            assert(tail =~= suffix);
        } else {
            assert(tail[0] == chars[b - 6] && tail[1] == chars[b - 5] && tail[2] == chars[b - 4]
                && tail[3] == chars[b - 3] && tail[4] == chars[b - 2] && tail[5] == chars[b - 1]);
        }
    }
    r
}


/// The key by which `path` is ordered: see [`path_key`].
pub fn path_key_of(path: &str) -> (out: Vec<Vec<char>>)
    ensures
        texts(out@) == path_key(path@),
{
    let chars = chars_of(path);
    let parts = split_ranges(&chars, 0, chars.len(), '/');
    assert(chars@.subrange(0, chars.len() as int) =~= chars@);
    let mut out: Vec<Vec<char>> = Vec::new();
    let mut i: usize = 0;
    while i < parts.len()
        invariant
            i <= parts.len(),
            out.len() == i,
            forall|k: int| 0 <= k < parts.len() ==> (#[trigger] parts[k]).0 <= parts[k].1 <= chars.len(),
            forall|k: int| 0 <= k < i ==> (#[trigger] out[k])@ == pieces(chars@, parts@)[k],
        decreases parts.len() - i,
    {
        let (a, b) = parts[i];
        out.push(slice_chars(&chars, a, b));
        i = i + 1;
    }
    assert(texts(out@) =~= pieces(chars@, parts@));
    out
}


/// The path of `name` inside the directory `base`: the two with one `/` between them, unless
/// `base` is empty or ends with one already.
pub open spec fn joined_path(base: Seq<char>, name: Seq<char>) -> Seq<char> {
    if base.len() == 0 || base.last() == '/' {
        base + name
    } else {
        base + "/"@ + name
    }
}

/// The path of `name` inside the directory `base`: see [`joined_path`].
pub fn join_path(base: &str, name: &str) -> (out: String)
    ensures
        out@ == joined_path(base@, name@),
{
    let n = base.unicode_len();
    let mut out = base.to_owned();
    if n > 0 && base.get_char(n - 1) != '/' {
        out.append("/");
    }
    out.append(name);
    assert(out@ =~= joined_path(base@, name@));
    out
}

} // verus!
