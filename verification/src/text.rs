//! Character-level helpers on strings.

use vstd::prelude::*;

verus! {

/// The characters of `s`, in order.
pub fn chars_of(s: &str) -> (out: Vec<char>)
    ensures
        out@ == s@,
{
    let mut out: Vec<char> = Vec::new();
    for c in it: s.chars()
        invariant
            it.seq() == s@,
            out@ == it.seq().take(it.index() as int),
    {
        out.push(c);
        assert(out@ =~= it.seq().take(it.index() + 1));
    }
    assert(s@.take(s@.len() as int) =~= s@);
    out
}

/// Whether `c` is Unicode white space.
pub open spec fn is_space(c: char) -> bool {
    let n = c as u32;
    ||| 9 <= n <= 13
    ||| n == 0x20
    ||| n == 0x85
    ||| n == 0xA0
    ||| n == 0x1680
    ||| 0x2000 <= n <= 0x200A
    ||| n == 0x2028
    ||| n == 0x2029
    ||| n == 0x202F
    ||| n == 0x205F
    ||| n == 0x3000
}

/// Decides [`is_space`].
pub fn is_whitespace(c: char) -> (r: bool)
    ensures
        r == is_space(c),
{
    let n: u32 = c as u32;
    (9 <= n && n <= 13) || n == 0x20 || n == 0x85 || n == 0xA0 || n == 0x1680 || (0x2000 <= n
        && n <= 0x200A) || n == 0x2028 || n == 0x2029 || n == 0x202F || n == 0x205F || n == 0x3000
}

/// Appends `c` to `s` with `String::push`. Believed, not proved: the text is the one before
/// with `c` behind it.
#[verifier::external_body]
pub(crate) fn push_char(s: &mut String, c: char)
    ensures
        final(s)@ == old(s)@.push(c),
{
    s.push(c);
}

/// The text that holds the characters `chars[from..to]`.
pub fn string_of(chars: &Vec<char>, from: usize, to: usize) -> (out: String)
    requires
        from <= to <= chars.len(),
    ensures
        out@ == chars@.subrange(from as int, to as int),
{
    let mut out = String::new();
    let mut i: usize = from;
    while i < to
        invariant
            from <= i <= to <= chars.len(),
            out@ == chars@.subrange(from as int, i as int),
        decreases to - i,
    {
        push_char(&mut out, chars[i]);
        i = i + 1;
        assert(out@ =~= chars@.subrange(from as int, i as int));
    }
    out
}

/// A copy of `chars[from..to]`.
pub fn slice_chars(chars: &Vec<char>, from: usize, to: usize) -> (out: Vec<char>)
    requires
        from <= to <= chars.len(),
    ensures
        out@ == chars@.subrange(from as int, to as int),
{
    let mut out: Vec<char> = Vec::new();
    let mut i: usize = from;
    while i < to
        invariant
            from <= i <= to <= chars.len(),
            out@ == chars@.subrange(from as int, i as int),
        decreases to - i,
    {
        out.push(chars[i]);
        i = i + 1;
        assert(out@ =~= chars@.subrange(from as int, i as int));
    }
    out
}

/// `s` without its leading white space.
pub open spec fn trim_start(s: Seq<char>) -> Seq<char>
    decreases s.len(),
{
    if s.len() > 0 && is_space(s[0]) {
        trim_start(s.drop_first())
    } else {
        s
    }
}

/// `s` without its trailing white space.
pub open spec fn trim_end(s: Seq<char>) -> Seq<char>
    decreases s.len(),
{
    if s.len() > 0 && is_space(s.last()) {
        trim_end(s.drop_last())
    } else {
        s
    }
}

/// `s` without leading and trailing white space.
pub open spec fn trimmed(s: Seq<char>) -> Seq<char> {
    trim_end(trim_start(s))
}

/// The bounds of `chars[from..to]` once white space is trimmed from both ends.
pub fn trim_range(chars: &Vec<char>, from: usize, to: usize) -> (r: (usize, usize))
    requires
        from <= to <= chars.len(),
    ensures
        from <= r.0 <= r.1 <= to,
        chars@.subrange(r.0 as int, r.1 as int) == trimmed(chars@.subrange(from as int, to as int)),
{
    let ghost whole = chars@.subrange(from as int, to as int);
    let mut a: usize = from;
    while a < to && is_whitespace(chars[a])
        invariant
            from <= a <= to <= chars.len(),
            trim_start(whole) == trim_start(chars@.subrange(a as int, to as int)),
        decreases to - a,
    {
        assert(chars@.subrange(a as int, to as int).drop_first() =~= chars@.subrange(
            a as int + 1,
            to as int,
        ));
        a = a + 1;
    }
    assert(trim_start(whole) == chars@.subrange(a as int, to as int));
    let mut b: usize = to;
    while a < b && is_whitespace(chars[b - 1])
        invariant
            a <= b <= to <= chars.len(),
            trimmed(whole) == trim_end(chars@.subrange(a as int, b as int)),
        decreases b - a,
    {
        assert(chars@.subrange(a as int, b as int).drop_last() =~= chars@.subrange(
            a as int,
            b as int - 1,
        ));
        b = b - 1;
    }
    (a, b)
}


/// The index of the first `sep` in `s`, or the length of `s` if it holds none.
pub open spec fn first_index(s: Seq<char>, sep: char) -> int
    decreases s.len(),
{
    if s.len() == 0 || s[0] == sep {
        0
    } else {
        1 + first_index(s.drop_first(), sep)
    }
}

/// The pieces of `s` between occurrences of `sep`: one more piece than there are separators.
pub open spec fn split(s: Seq<char>, sep: char) -> Seq<Seq<char>>
    decreases s.len(),
{
    let i = first_index(s, sep);
    if 0 <= i < s.len() {
        seq![s.subrange(0, i)] + split(s.subrange(i + 1, s.len() as int), sep)
    } else {
        seq![s]
    }
}

/// The slices of `s` that the index pairs in `ranges` delimit.
pub open spec fn pieces(s: Seq<char>, ranges: Seq<(usize, usize)>) -> Seq<Seq<char>> {
    Seq::new(ranges.len(), |i: int| s.subrange(ranges[i].0 as int, ranges[i].1 as int))
}

proof fn lemma_first_index(s: Seq<char>, sep: char, k: int)
    requires
        0 <= k <= s.len(),
        forall|j: int| 0 <= j < k ==> s[j] != sep,
        k == s.len() || s[k] == sep,
    ensures
        first_index(s, sep) == k,
    decreases k,
{
    if k > 0 {
        lemma_first_index(s.drop_first(), sep, k - 1);
    }
}

/// Splits `chars[from..to]` at every `sep`, giving the bounds of each piece.
pub fn split_ranges(chars: &Vec<char>, from: usize, to: usize, sep: char) -> (out: Vec<
    (usize, usize),
>)
    requires
        from <= to <= chars.len(),
    ensures
        pieces(chars@, out@) == split(chars@.subrange(from as int, to as int), sep),
        forall|i: int| 0 <= i < out.len() ==> from <= (#[trigger] out[i]).0 <= out[i].1 <= to,
{
    let mut out: Vec<(usize, usize)> = Vec::new();
    let mut start: usize = from;
    let mut i: usize = from;
    while i < to
        invariant
            from <= start <= i <= to <= chars.len(),
            forall|j: int| start <= j < i ==> chars[j] != sep,
            forall|k: int| 0 <= k < out.len() ==> from <= (#[trigger] out[k]).0 <= out[k].1 <= to,
            split(chars@.subrange(from as int, to as int), sep) == pieces(chars@, out@) + split(
                chars@.subrange(start as int, to as int),
                sep,
            ),
        decreases to - i,
    {
        if chars[i] == sep {
            proof {
                let rest = chars@.subrange(start as int, to as int);
                lemma_first_index(rest, sep, i - start);
                assert(rest.subrange(0, i - start) =~= chars@.subrange(start as int, i as int));
                assert(rest.subrange(i - start + 1, rest.len() as int) =~= chars@.subrange(
                    i as int + 1,
                    to as int,
                ));
                assert(pieces(chars@, out@.push((start, i))) =~= pieces(chars@, out@)
                    + seq![chars@.subrange(start as int, i as int)]);
            }
            out.push((start, i));
            start = i + 1;
        }
        i = i + 1;
    }
    proof {
        let rest = chars@.subrange(start as int, to as int);
        lemma_first_index(rest, sep, to - start);
        assert(pieces(chars@, out@.push((start, to))) =~= pieces(chars@, out@) + seq![rest]);
    }
    out.push((start, to));
    out
}


/// `needle` occurs in `hay` as a run of consecutive characters.
pub open spec fn contains(hay: Seq<char>, needle: Seq<char>) -> bool {
    exists|i: int| occurs_at(hay, needle, i)
}

/// `needle` occurs in `hay` at index `i`.
pub open spec fn occurs_at(hay: Seq<char>, needle: Seq<char>, i: int) -> bool {
    0 <= i && i + needle.len() <= hay.len() && hay.subrange(i, i + needle.len()) == needle
}

/// Whether `needle` occurs in `hay` at index `i`.
pub fn matches_at(hay: &Vec<char>, needle: &Vec<char>, i: usize) -> (r: bool)
    requires
        i + needle.len() <= hay.len(),
    ensures
        r == occurs_at(hay@, needle@, i as int),
{
    let mut j: usize = 0;
    while j < needle.len()
        invariant
            j <= needle.len(),
            i + needle.len() <= hay.len(),
            forall|k: int| 0 <= k < j ==> hay[i + k] == needle[k],
        decreases needle.len() - j,
    {
        if hay[i + j] != needle[j] {
            assert(hay@.subrange(i as int, i + needle.len())[j as int] == hay[i + j]);
            return false;
        }
        j = j + 1;
    }
    assert(hay@.subrange(i as int, i + needle.len()) =~= needle@);
    true
}

/// Whether `needle` occurs in `hay`.
pub fn contains_chars(hay: &Vec<char>, needle: &Vec<char>) -> (r: bool)
    ensures
        r == contains(hay@, needle@),
{
    if needle.len() > hay.len() {
        return false;
    }
    let last: usize = hay.len() - needle.len();
    let mut i: usize = 0;
    while i < last
        invariant
            last == hay.len() - needle.len(),
            i <= last,
            forall|k: int| 0 <= k < i ==> !occurs_at(hay@, needle@, k),
        decreases last - i,
    {
        if matches_at(hay, needle, i) {
            return true;
        }
        i = i + 1;
    }
    matches_at(hay, needle, last)
}

/// `c` with an ASCII upper-case letter turned into its lower-case form.
pub open spec fn ascii_lower(c: char) -> int {
    if 'A' as int <= c as int <= 'Z' as int {
        c as int + 32
    } else {
        c as int
    }
}

/// The two texts are equal once ASCII letters are taken without their case.
pub open spec fn eq_ignoring_ascii_case(a: Seq<char>, b: Seq<char>) -> bool {
    &&& a.len() == b.len()
    &&& forall|i: int| 0 <= i < a.len() ==> ascii_lower(#[trigger] a[i]) == ascii_lower(b[i])
}

fn ascii_lower_code(c: char) -> (n: u32)
    ensures
        n == ascii_lower(c),
{
    let n: u32 = c as u32;
    if 65 <= n && n <= 90 {
        n + 32
    } else {
        n
    }
}

/// Decides [`eq_ignoring_ascii_case`].
pub fn same_ignoring_ascii_case(a: &Vec<char>, b: &Vec<char>) -> (r: bool)
    ensures
        r == eq_ignoring_ascii_case(a@, b@),
{
    if a.len() != b.len() {
        return false;
    }
    let mut i: usize = 0;
    while i < a.len()
        invariant
            a.len() == b.len(),
            i <= a.len(),
            forall|k: int| 0 <= k < i ==> ascii_lower(#[trigger] a[k]) == ascii_lower(b[k]),
        decreases a.len() - i,
    {
        if ascii_lower_code(a[i]) != ascii_lower_code(b[i]) {
            return false;
        }
        i = i + 1;
    }
    true
}

/// What `str::to_lowercase` makes of a text: its lower-case form by the Unicode rules.
pub uninterp spec fn lowercase(s: Seq<char>) -> Seq<char>;

/// The lower-case form of `s`, by `str::to_lowercase`. Believed, not proved: the result is the
/// text that [`lowercase`] names, which depends on the characters of `s` alone.
#[verifier::external_body]
pub(crate) fn to_lowercase(s: &str) -> (out: String)
    ensures
        out@ == lowercase(s@),
{
    s.to_lowercase()
}

/// The characters of the lower-case form of `s`.
pub fn lowercase_chars(s: &str) -> (out: Vec<char>)
    ensures
        out@ == lowercase(s@),
{
    let lower = to_lowercase(s);
    chars_of(lower.as_str())
}


/// `s` without one carriage return at its end, if it has one there.
pub open spec fn strip_cr(s: Seq<char>) -> Seq<char> {
    if s.len() > 0 && s.last() == '\r' {
        s.drop_last()
    } else {
        s
    }
}

/// The lines of `s`. A line ends at a line feed, or at a carriage return directly followed by
/// one; neither belongs to the line. What follows the last line feed is a line of its own
/// unless it is empty.
pub open spec fn lines(s: Seq<char>) -> Seq<Seq<char>> {
    let parts = split(s, '\n');
    let n = if parts.last().len() == 0 {
        parts.len() - 1
    } else {
        parts.len() as int
    };
    Seq::new(
        n as nat,
        |i: int|
            if i < parts.len() - 1 {
                strip_cr(parts[i])
            } else {
                parts[i]
            },
    )
}

/// A split has at least one piece.
proof fn lemma_split_nonempty(s: Seq<char>, sep: char)
    ensures
        split(s, sep).len() >= 1,
    decreases s.len(),
{
    let i = first_index(s, sep);
    if 0 <= i < s.len() {
        lemma_split_nonempty(s.subrange(i + 1, s.len() as int), sep);
    }
}

/// The bounds of each line of `chars`.
pub fn line_ranges(chars: &Vec<char>) -> (out: Vec<(usize, usize)>)
    ensures
        pieces(chars@, out@) == lines(chars@),
        forall|i: int| 0 <= i < out.len() ==> (#[trigger] out[i]).0 <= out[i].1 <= chars.len(),
{
    let parts = split_ranges(chars, 0, chars.len(), '\n');
    proof {
        assert(chars@.subrange(0, chars.len() as int) =~= chars@);
        lemma_split_nonempty(chars@, '\n');
    }
    let ghost whole = pieces(chars@, parts@);
    assert(whole.len() == parts.len());
    let mut out: Vec<(usize, usize)> = Vec::new();
    let mut i: usize = 0;
    while i + 1 < parts.len()
        invariant
            parts.len() >= 1,
            i + 1 <= parts.len(),
            out.len() == i,
            whole == pieces(chars@, parts@),
            forall|k: int| 0 <= k < parts.len() ==> (#[trigger] parts[k]).0 <= parts[k].1 <= chars.len(),
            forall|k: int| 0 <= k < out.len() ==> (#[trigger] out[k]).0 <= out[k].1 <= chars.len(),
            forall|k: int|
                0 <= k < i ==> chars@.subrange((#[trigger] out[k]).0 as int, out[k].1 as int)
                    == strip_cr(whole[k]),
        decreases parts.len() - i,
    {
        let (a, b) = parts[i];
        assert(whole[i as int] == chars@.subrange(a as int, b as int));
        if a < b && chars[b - 1] == '\r' {
            assert(chars@.subrange(a as int, b as int).drop_last() =~= chars@.subrange(
                a as int,
                b - 1,
            ));
            out.push((a, b - 1));
        } else {
            out.push((a, b));
        }
        i = i + 1;
    }
    let (a, b) = parts[i];
    assert(whole[i as int] == chars@.subrange(a as int, b as int));
    if a < b {
        out.push((a, b));
    }
    assert(pieces(chars@, out@) =~= lines(chars@));
    out
}

/// The texts of `parts` with `sep` between each two.
pub open spec fn join(parts: Seq<Seq<char>>, sep: Seq<char>) -> Seq<char>
    decreases parts.len(),
{
    if parts.len() == 0 {
        Seq::empty()
    } else if parts.len() == 1 {
        parts[0]
    } else {
        join(parts.drop_last(), sep) + sep + parts.last()
    }
}

/// The texts of `parts`, with a line feed between each two.
pub open spec fn join_lines(parts: Seq<Seq<char>>) -> Seq<char> {
    join(parts, "\n"@)
}

/// The texts that a vector of strings holds.
pub open spec fn string_views(v: Seq<String>) -> Seq<Seq<char>> {
    Seq::new(v.len(), |i: int| v[i]@)
}

/// Joins `parts` with `sep` between each two.
pub fn join_strings(parts: &Vec<String>, sep: &str) -> (out: String)
    ensures
        out@ == join(string_views(parts@), sep@),
{
    let mut out = String::new();
    let ghost texts = string_views(parts@);
    let mut i: usize = 0;
    while i < parts.len()
        invariant
            i <= parts.len(),
            texts == string_views(parts@),
            out@ == join(texts.take(i as int), sep@),
        decreases parts.len() - i,
    {
        proof {
            assert(texts.take(i + 1).drop_last() =~= texts.take(i as int));
        }
        if i > 0 {
            out.append(sep);
        }
        out.append(parts[i].as_str());
        i = i + 1;
    }
    assert(texts.take(parts.len() as int) =~= texts);
    out
}

/// Joins `parts` with a line feed between each two.
pub fn join_with_newlines(parts: &Vec<String>) -> (out: String)
    ensures
        out@ == join_lines(string_views(parts@)),
{
    join_strings(parts, "\n")
}

/// Whether the two texts are the same.
pub fn same_chars(a: &Vec<char>, b: &Vec<char>) -> (r: bool)
    ensures
        r == (a@ == b@),
{
    if a.len() != b.len() {
        return false;
    }
    let mut i: usize = 0;
    while i < a.len()
        invariant
            a.len() == b.len(),
            i <= a.len(),
            forall|k: int| 0 <= k < i ==> a[k] == b[k],
        decreases a.len() - i,
    {
        if a[i] != b[i] {
            return false;
        }
        i = i + 1;
    }
    assert(a@ =~= b@);
    true
}

} // verus!
