//! Character-level text helpers: conversions between `str`/`String` and
//! character vectors, substring search, trimming, ASCII case folding and
//! decimal rendering, each with a specification over `Seq<char>`.

use vstd::prelude::*;

verus! {

// ---------------------------------------------------------------------------
// Specifications
// ---------------------------------------------------------------------------

/// `needle` occurs in `s` starting at position `i`.
pub open spec fn occurs_at(s: Seq<char>, needle: Seq<char>, i: int) -> bool {
    0 <= i && i + needle.len() <= s.len() && s.subrange(i, i + needle.len()) == needle
}

/// `i` is the position of the first occurrence of `needle` in `s`.
pub open spec fn first_at(s: Seq<char>, needle: Seq<char>, i: int) -> bool {
    &&& occurs_at(s, needle, i)
    &&& forall|j: int| 0 <= j < i ==> !occurs_at(s, needle, j)
}

/// `needle` occurs somewhere in `s`.
pub open spec fn contains_seq(s: Seq<char>, needle: Seq<char>) -> bool {
    exists|i: int| occurs_at(s, needle, i)
}

/// The position of the first occurrence of `needle` in `s`, if any.
pub open spec fn find_seq(s: Seq<char>, needle: Seq<char>) -> Option<int> {
    if exists|i: int| first_at(s, needle, i) {
        Some(choose|i: int| first_at(s, needle, i))
    } else {
        None
    }
}

/// The position of the last occurrence of the character `c` in `s`, if any.
pub open spec fn rfind_char(s: Seq<char>, c: char) -> Option<int>
    decreases s.len(),
{
    if s.len() == 0 {
        None
    } else if s.last() == c {
        Some(s.len() - 1)
    } else {
        rfind_char(s.drop_last(), c)
    }
}

/// `p` is a prefix of `s`.
pub open spec fn has_prefix(s: Seq<char>, p: Seq<char>) -> bool {
    p.len() <= s.len() && s.subrange(0, p.len() as int) == p
}

/// `p` is a suffix of `s`.
pub open spec fn has_suffix(s: Seq<char>, p: Seq<char>) -> bool {
    p.len() <= s.len() && s.subrange(s.len() - p.len(), s.len() as int) == p
}

/// Characters with the Unicode `White_Space` property (what `char::is_whitespace`
/// and `str::trim` use).
pub open spec fn is_unicode_space(c: char) -> bool {
    ||| ('\u{9}' <= c && c <= '\u{d}')
    ||| c == ' '
    ||| c == '\u{85}'
    ||| c == '\u{a0}'
    ||| c == '\u{1680}'
    ||| ('\u{2000}' <= c && c <= '\u{200a}')
    ||| c == '\u{2028}'
    ||| c == '\u{2029}'
    ||| c == '\u{202f}'
    ||| c == '\u{205f}'
    ||| c == '\u{3000}'
}

/// `s` without its leading white space.
pub open spec fn trim_start(s: Seq<char>) -> Seq<char>
    decreases s.len(),
{
    if s.len() > 0 && is_unicode_space(s[0]) {
        trim_start(s.drop_first())
    } else {
        s
    }
}

/// `s` without its trailing white space.
pub open spec fn trim_end(s: Seq<char>) -> Seq<char>
    decreases s.len(),
{
    if s.len() > 0 && is_unicode_space(s.last()) {
        trim_end(s.drop_last())
    } else {
        s
    }
}

/// `s` without leading and trailing white space, as `str::trim` gives it.
pub open spec fn trim(s: Seq<char>) -> Seq<char> {
    trim_end(trim_start(s))
}

/// ASCII lower-case of one character; other characters are unchanged.
pub open spec fn ascii_lower(c: char) -> char {
    if 'A' <= c && c <= 'Z' {
        ((c as u32) + 32) as char
    } else {
        c
    }
}

/// ASCII lower-case of a whole text.
pub open spec fn ascii_lower_seq(s: Seq<char>) -> Seq<char> {
    s.map_values(|c: char| ascii_lower(c))
}

/// Equality up to ASCII case, as `str::eq_ignore_ascii_case` gives it.
pub open spec fn eq_ignore_ascii_case(a: Seq<char>, b: Seq<char>) -> bool {
    ascii_lower_seq(a) == ascii_lower_seq(b)
}

/// The decimal digit for `d < 10`.
pub open spec fn digit_char(d: nat) -> char {
    ((d + 48) as u32) as char
}

/// The decimal rendering of `n` (no sign, no leading zeros, "0" for zero).
pub open spec fn decimal(n: nat) -> Seq<char>
    decreases n,
{
    if n < 10 {
        seq![digit_char(n)]
    } else {
        decimal(n / 10).push(digit_char(n % 10))
    }
}

/// `n` copies of the space character.
pub open spec fn spaces(n: nat) -> Seq<char> {
    Seq::new(n, |i: int| ' ')
}

/// `s` padded on the right with spaces to at least `width` characters,
/// as the format specification `{:<width}` does.
pub open spec fn pad_right(s: Seq<char>, width: nat) -> Seq<char> {
    if s.len() < width {
        s + spaces((width - s.len()) as nat)
    } else {
        s
    }
}

// ---------------------------------------------------------------------------
// Lemmas
// ---------------------------------------------------------------------------

/// The first occurrence is unique, so `find_seq` names it.
pub proof fn lemma_find_seq_is_first(s: Seq<char>, needle: Seq<char>, i: int)
    requires
        first_at(s, needle, i),
    ensures
        find_seq(s, needle) == Some(i),
{
    let k = choose|k: int| first_at(s, needle, k);
    assert(first_at(s, needle, k));
    if k < i {
        assert(!occurs_at(s, needle, k));
    }
    if i < k {
        assert(!occurs_at(s, needle, i));
    }
}

/// Without any occurrence `find_seq` is `None`.
pub proof fn lemma_find_seq_none(s: Seq<char>, needle: Seq<char>)
    requires
        forall|j: int| !occurs_at(s, needle, j),
    ensures
        find_seq(s, needle) is None,
        !contains_seq(s, needle),
{
}

/// A found position is an occurrence, and nothing earlier is.
pub proof fn lemma_find_seq_some(s: Seq<char>, needle: Seq<char>)
    requires
        find_seq(s, needle) is Some,
    ensures
        first_at(s, needle, find_seq(s, needle)->0),
{
}

/// Where `needle` occurs at all, `find_seq` finds a first occurrence.
pub proof fn lemma_find_seq_found(s: Seq<char>, needle: Seq<char>, i: int)
    requires
        occurs_at(s, needle, i),
    ensures
        find_seq(s, needle) is Some,
    decreases i,
{
    if forall|j: int| 0 <= j < i ==> !occurs_at(s, needle, j) {
        assert(first_at(s, needle, i));
    } else {
        let j = choose|j: int| 0 <= j < i && occurs_at(s, needle, j);
        lemma_find_seq_found(s, needle, j);
    }
}

// ---------------------------------------------------------------------------
// Executable helpers
// ---------------------------------------------------------------------------

/// Appends one character to a `String` (calls `String::push`).
#[verifier::external_body]
pub(crate) fn push_char(s: &mut String, c: char)
    ensures
        final(s)@ == old(s)@.push(c),
{
    s.push(c);
}

/// The characters of `s`, in order.
pub fn chars_of(s: &str) -> (r: Vec<char>)
    ensures
        r@ == s@,
{
    let mut r: Vec<char> = Vec::new();
    for c in it: s.chars()
        invariant
            it.seq() == s@,
            r@ == it.seq().take(it.index() as int),
    {
        r.push(c);
    }
    r
}

/// Appends the characters `cs[from..to]` to `out`.
pub fn append_range(out: &mut String, cs: &Vec<char>, from: usize, to: usize)
    requires
        from <= to <= cs@.len(),
    ensures
        final(out)@ == old(out)@ + cs@.subrange(from as int, to as int),
{
    let mut i = from;
    while i < to
        invariant
            from <= i <= to <= cs@.len(),
            out@ == old(out)@ + cs@.subrange(from as int, i as int),
        decreases to - i,
    {
        push_char(out, cs[i]);
        i = i + 1;
        assert(cs@.subrange(from as int, i as int) =~= cs@.subrange(from as int, i - 1).push(
            cs@[i - 1],
        ));
    }
}

/// A `String` holding exactly the characters `cs[from..to]`.
pub fn string_from_range(cs: &Vec<char>, from: usize, to: usize) -> (r: String)
    requires
        from <= to <= cs@.len(),
    ensures
        r@ == cs@.subrange(from as int, to as int),
{
    let mut r = String::new();
    append_range(&mut r, cs, from, to);
    r
}

/// A `String` holding exactly the characters `cs`.
pub fn string_from_chars(cs: &Vec<char>) -> (r: String)
    ensures
        r@ == cs@,
{
    let r = string_from_range(cs, 0, cs.len());
    assert(cs@.subrange(0, cs@.len() as int) =~= cs@);
    r
}

/// A fresh `String` with the contents of `s`.
pub fn owned(s: &str) -> (r: String)
    ensures
        r@ == s@,
{
    let cs = chars_of(s);
    string_from_chars(&cs)
}

/// Appends `s` to `out`.
pub fn append_str(out: &mut String, s: &str)
    ensures
        final(out)@ == old(out)@ + s@,
{
    let cs = chars_of(s);
    append_range(out, &cs, 0, cs.len());
    assert(cs@.subrange(0, cs@.len() as int) =~= cs@);
}

/// Character-wise equality of two vectors.
pub fn chars_eq(a: &Vec<char>, b: &Vec<char>) -> (r: bool)
    ensures
        r == (a@ == b@),
{
    if a.len() != b.len() {
        return false;
    }
    let mut i: usize = 0;
    while i < a.len()
        invariant
            a@.len() == b@.len(),
            0 <= i <= a@.len(),
            forall|j: int| 0 <= j < i ==> a@[j] == b@[j],
        decreases a@.len() - i,
    {
        if a[i] != b[i] {
            return false;
        }
        i = i + 1;
    }
    assert(a@ =~= b@);
    true
}

/// Equality of two texts.
pub fn str_eq(a: &str, b: &str) -> (r: bool)
    ensures
        r == (a@ == b@),
{
    let x = chars_of(a);
    let y = chars_of(b);
    chars_eq(&x, &y)
}

/// Whether `needle` occurs in `s` at position `i`.
pub fn occurs_at_exec(s: &Vec<char>, needle: &Vec<char>, i: usize) -> (r: bool)
    ensures
        r == occurs_at(s@, needle@, i as int),
{
    if i > s.len() || needle.len() > s.len() - i {
        return false;
    }
    let n = needle.len();
    let m = s.len();
    let mut k: usize = 0;
    while k < n
        invariant
            n == needle@.len(),
            m == s@.len(),
            i <= m,
            i + n <= m,
            i + needle@.len() <= s@.len(),
            0 <= k <= needle@.len(),
            forall|j: int| 0 <= j < k ==> s@[i + j] == needle@[j],
        decreases needle@.len() - k,
    {
        if s[i + k] != needle[k] {
            assert(s@.subrange(i as int, i + needle@.len())[k as int] != needle@[k as int]);
            return false;
        }
        k = k + 1;
    }
    assert(s@.subrange(i as int, i + needle@.len()) =~= needle@);
    true
}

/// The first position at or after `from` where `needle` occurs in `s`.
pub fn find_from(s: &Vec<char>, needle: &Vec<char>, from: usize) -> (r: Option<usize>)
    requires
        from <= s@.len(),
    ensures
        match r {
            Some(i) => from <= i && occurs_at(s@, needle@, i as int) && forall|j: int|
                from <= j < i ==> !occurs_at(s@, needle@, j),
            None => forall|j: int| from <= j ==> !occurs_at(s@, needle@, j),
        },
{
    let mut i = from;
    loop
        invariant
            from <= i <= s@.len(),
            forall|j: int| from <= j < i ==> !occurs_at(s@, needle@, j),
        decreases s@.len() - i,
    {
        if occurs_at_exec(s, needle, i) {
            return Some(i);
        }
        if i >= s.len() {
            assert forall|j: int| from <= j implies !occurs_at(s@, needle@, j) by {
                if j > i {
                    assert(j + needle@.len() > s@.len());
                }
            }
            return None;
        }
        i = i + 1;
    }
}

/// Whether `needle` occurs anywhere in `s`.
pub fn contains_exec(s: &Vec<char>, needle: &Vec<char>) -> (r: bool)
    ensures
        r == contains_seq(s@, needle@),
{
    match find_from(s, needle, 0) {
        Some(i) => true,
        None => false,
    }
}

/// Whether `s` starts with `p`.
pub fn has_prefix_exec(s: &Vec<char>, p: &Vec<char>) -> (r: bool)
    ensures
        r == has_prefix(s@, p@),
{
    occurs_at_exec(s, p, 0)
}

/// Whether `s` contains the character `c`.
pub fn contains_char(s: &Vec<char>, c: char) -> (r: bool)
    ensures
        r == s@.contains(c),
{
    let mut i: usize = 0;
    while i < s.len()
        invariant
            0 <= i <= s@.len(),
            forall|j: int| 0 <= j < i ==> s@[j] != c,
        decreases s@.len() - i,
    {
        if s[i] == c {
            assert(s@[i as int] == c);
            return true;
        }
        i = i + 1;
    }
    false
}

/// The position of the last `c` in `s`, if any.
pub fn rfind_char_exec(s: &Vec<char>, c: char) -> (r: Option<usize>)
    ensures
        r == match rfind_char(s@, c) {
            Some(i) => Some(i as usize),
            None => None::<usize>,
        },
        r matches Some(i) ==> i < s@.len(),
{
    let mut n = s.len();
    assert(s@.subrange(0, s@.len() as int) =~= s@);
    while n > 0
        invariant
            n <= s@.len(),
            rfind_char(s@, c) == rfind_char(s@.subrange(0, n as int), c),
        decreases n,
    {
        let ghost t = s@.subrange(0, n as int);
        if s[n - 1] == c {
            return Some(n - 1);
        }
        assert(t.drop_last() =~= s@.subrange(0, n - 1));
        n = n - 1;
    }
    assert(s@.subrange(0, 0) =~= Seq::<char>::empty());
    None
}

/// `rfind_char` finds an occurrence of `c` in range.
pub proof fn lemma_rfind_char(s: Seq<char>, c: char)
    ensures
        rfind_char(s, c) matches Some(i) ==> 0 <= i < s.len() && s[i] == c,
    decreases s.len(),
{
    if s.len() > 0 && s.last() != c {
        lemma_rfind_char(s.drop_last(), c);
    }
}

/// Whether `c` has the Unicode `White_Space` property.
pub fn is_space_exec(c: char) -> (r: bool)
    ensures
        r == is_unicode_space(c),
{
    ('\u{9}' <= c && c <= '\u{d}') || c == ' ' || c == '\u{85}' || c == '\u{a0}' || c
        == '\u{1680}' || ('\u{2000}' <= c && c <= '\u{200a}') || c == '\u{2028}' || c
        == '\u{2029}' || c == '\u{202f}' || c == '\u{205f}' || c == '\u{3000}'
}

/// Dropping leading white space from a suffix of `s`.
proof fn lemma_trim_start_skip(s: Seq<char>, i: int)
    requires
        0 <= i < s.len(),
        is_unicode_space(s[i]),
    ensures
        trim_start(s.skip(i)) == trim_start(s.skip(i + 1)),
{
    assert(s.skip(i).drop_first() =~= s.skip(i + 1));
}

/// Dropping trailing white space from a prefix of `s`.
proof fn lemma_trim_end_take(s: Seq<char>, n: int)
    requires
        0 < n <= s.len(),
        is_unicode_space(s[n - 1]),
    ensures
        trim_end(s.take(n)) == trim_end(s.take(n - 1)),
{
    assert(s.take(n).drop_last() =~= s.take(n - 1));
}

/// The number of leading white-space characters of `cs`.
fn leading_space_count(cs: &Vec<char>) -> (start: usize)
    ensures
        start <= cs@.len(),
        trim_start(cs@) == cs@.skip(start as int),
        trim_start(cs@.skip(start as int)) == cs@.skip(start as int),
{
    let mut start: usize = 0;
    assert(cs@.skip(0) =~= cs@);
    while start < cs.len() && is_space_exec(cs[start])
        invariant
            0 <= start <= cs@.len(),
            trim_start(cs@) == trim_start(cs@.skip(start as int)),
        decreases cs@.len() - start,
    {
        proof {
            lemma_trim_start_skip(cs@, start as int);
        }
        start = start + 1;
    }
    assert(start < cs@.len() ==> cs@.skip(start as int)[0] == cs@[start as int]);
    start
}

/// The end of `cs[..to]` once its trailing white space is dropped, not going below `from`.
fn trailing_space_end(cs: &Vec<char>, from: usize) -> (end: usize)
    requires
        from <= cs@.len(),
        trim_start(cs@.skip(from as int)) == cs@.skip(from as int),
    ensures
        from <= end <= cs@.len(),
        trim_end(cs@.skip(from as int)) == cs@.subrange(from as int, end as int),
{
    let ghost rest = cs@.skip(from as int);
    let mut end: usize = cs.len();
    assert(rest.take((cs@.len() - from) as int) =~= rest);
    while end > from && is_space_exec(cs[end - 1])
        invariant
            from <= end <= cs@.len(),
            rest == cs@.skip(from as int),
            trim_end(rest) == trim_end(rest.take(end - from)),
        decreases end - from,
    {
        proof {
            lemma_trim_end_take(rest, end - from);
        }
        end = end - 1;
    }
    assert(rest.take(end - from) =~= cs@.subrange(from as int, end as int));
    end
}

/// The bounds `[start, end)` of `trim(cs)` inside `cs`.
pub fn trim_bounds(cs: &Vec<char>) -> (r: (usize, usize))
    ensures
        r.0 <= r.1 <= cs@.len(),
        cs@.subrange(r.0 as int, r.1 as int) == trim(cs@),
{
    let start = leading_space_count(cs);
    let end = trailing_space_end(cs, start);
    (start, end)
}

/// `trim(cs)` as a new character vector.
pub fn trim_chars(cs: &Vec<char>) -> (r: Vec<char>)
    ensures
        r@ == trim(cs@),
{
    let (a, b) = trim_bounds(cs);
    let mut r: Vec<char> = Vec::new();
    let mut i = a;
    while i < b
        invariant
            a <= i <= b <= cs@.len(),
            r@ == cs@.subrange(a as int, i as int),
        decreases b - i,
    {
        r.push(cs[i]);
        i = i + 1;
        assert(r@ =~= cs@.subrange(a as int, i as int));
    }
    r
}

/// ASCII lower-case of one character.
pub fn ascii_lower_exec(c: char) -> (r: char)
    ensures
        r == ascii_lower(c),
{
    if 'A' <= c && c <= 'Z' {
        let b: u8 = c as u8;
        let l: u8 = b + 32;
        l as char
    } else {
        c
    }
}

/// ASCII lower-case of a whole text.
pub fn ascii_lower_chars(cs: &Vec<char>) -> (r: Vec<char>)
    ensures
        r@ == ascii_lower_seq(cs@),
{
    let mut r: Vec<char> = Vec::new();
    let mut i: usize = 0;
    while i < cs.len()
        invariant
            0 <= i <= cs@.len(),
            r@ == ascii_lower_seq(cs@.take(i as int)),
        decreases cs@.len() - i,
    {
        let l = ascii_lower_exec(cs[i]);
        r.push(l);
        i = i + 1;
        assert(r@ =~= ascii_lower_seq(cs@.take(i as int)));
    }
    assert(cs@.take(cs@.len() as int) =~= cs@);
    r
}

/// Appends the decimal rendering of `n` to `out`.
pub fn append_decimal(out: &mut String, n: usize)
    ensures
        final(out)@ == old(out)@ + decimal(n as nat),
    decreases n,
{
    if n >= 10 {
        append_decimal(out, n / 10);
        let d: u8 = (n % 10) as u8;
        push_char(out, (d + 48) as char);
        proof {
            assert(decimal(n as nat) == decimal((n / 10) as nat).push(digit_char((n % 10) as nat)));
        }
    } else {
        let d: u8 = n as u8;
        push_char(out, (d + 48) as char);
        assert(decimal(n as nat) =~= seq![digit_char(n as nat)]);
    }
}

/// Appends `s` padded on the right to `width` characters.
pub fn append_padded(out: &mut String, s: &str, width: usize)
    ensures
        final(out)@ == old(out)@ + pad_right(s@, width as nat),
{
    let cs = chars_of(s);
    append_range(out, &cs, 0, cs.len());
    assert(cs@.subrange(0, cs@.len() as int) =~= cs@);
    let ghost base = out@;
    let mut k = cs.len();
    while k < width
        invariant
            cs@.len() <= k <= width || (k == cs@.len() && k >= width),
            out@ == base + spaces((k - cs@.len()) as nat),
        decreases width - k,
    {
        push_char(out, ' ');
        k = k + 1;
        assert(out@ =~= base + spaces((k - cs@.len()) as nat));
    }
    if cs.len() >= width {
        assert(spaces(0) =~= Seq::<char>::empty());
    }
}

/// Occurrences in a suffix are occurrences in the whole, shifted.
pub proof fn lemma_occurs_skip(s: Seq<char>, needle: Seq<char>, pos: int, j: int)
    requires
        0 <= pos <= s.len(),
        0 <= j,
    ensures
        occurs_at(s.skip(pos), needle, j) == occurs_at(s, needle, j + pos),
{
    if 0 <= j && j + needle.len() <= s.len() - pos {
        assert(s.skip(pos).subrange(j, j + needle.len()) =~= s.subrange(j + pos, j + pos + needle.len()));
    }
}

/// The first position at or after `pos` where `needle` occurs in `s`,
/// stated as the first occurrence in the suffix `s[pos..]`.
pub fn find_in(s: &Vec<char>, needle: &Vec<char>, pos: usize) -> (r: Option<usize>)
    requires
        pos <= s@.len(),
    ensures
        r == match find_seq(s@.skip(pos as int), needle@) {
            Some(k) => Some((k + pos) as usize),
            None => None::<usize>,
        },
        r matches Some(i) ==> pos <= i && occurs_at(s@, needle@, i as int),
{
    let ghost rest = s@.skip(pos as int);
    match find_from(s, needle, pos) {
        Some(i) => {
            proof {
                lemma_occurs_skip(s@, needle@, pos as int, i - pos);
                assert forall|j: int| 0 <= j < i - pos implies !occurs_at(rest, needle@, j) by {
                    lemma_occurs_skip(s@, needle@, pos as int, j);
                }
                lemma_find_seq_is_first(rest, needle@, i - pos);
            }
            Some(i)
        },
        None => {
            proof {
                assert forall|j: int| !occurs_at(rest, needle@, j) by {
                    if j >= 0 {
                        lemma_occurs_skip(s@, needle@, pos as int, j);
                    }
                }
                lemma_find_seq_none(rest, needle@);
            }
            None
        },
    }
}

} // verus!
