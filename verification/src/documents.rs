//! From the raw text of a manifest file to the texts of its YAML documents:
//! recognising a Kubernetes manifest, quoting bare template values, and
//! splitting on "---".

use vstd::prelude::*;
use crate::text::{
    append_range, append_str, chars_of, contains_exec, contains_seq, find_in, find_seq,
    first_at, has_prefix, occurs_at, occurs_at_exec, string_from_range, trim, trim_bounds,
    lemma_find_seq_some, lemma_find_seq_is_first, lemma_find_seq_none, lemma_find_seq_found,
};

verus! {

// ---------------------------------------------------------------------------
// Specification
// ---------------------------------------------------------------------------

/// The text looks like a Kubernetes manifest: it mentions both "apiVersion:"
/// and "kind:".
pub open spec fn looks_like_manifest(raw: Seq<char>) -> bool {
    contains_seq(raw, "apiVersion:"@) && contains_seq(raw, "kind:"@)
}

/// The number of leading spaces and tabs of `s`.
pub open spec fn blank_prefix_len(s: Seq<char>) -> nat
    decreases s.len(),
{
    if s.len() > 0 && (s[0] == ' ' || s[0] == '\t') {
        1 + blank_prefix_len(s.drop_first())
    } else {
        0
    }
}

/// The text that replaces a bare template value.
pub open spec fn jinja_placeholder() -> Seq<char> {
    "\"__jinja__\""@
}

#[verifier::opaque]
/// `text` with every bare template value after a colon replaced by
/// `"__jinja__"`: after each ':' and the spaces and tabs that follow it, a
/// `{{ ... }}` up to the first "}}" is replaced; all other text is kept.
pub open spec fn neutralize(text: Seq<char>) -> Seq<char>
    decreases text.len(),
{
    if text.len() == 0 {
        Seq::empty()
    } else {
        match find_seq(text, seq![':']) {
            None => text,
            Some(idx) => {
                proof {
                    lemma_find_seq_some(text, seq![':']);
                }
                let after = text.skip(idx + 1);
                let ws = blank_prefix_len(after);
                let value = after.skip(ws as int);
                let head = text.take(idx) + seq![':'] + after.take(ws as int);
                let inner = value.skip(2);
                if has_prefix(value, seq!['{', '{']) && find_seq(inner, seq!['}', '}']) is Some {
                    let end = find_seq(inner, seq!['}', '}'])->0;
                    proof {
                        lemma_find_seq_some(inner, seq!['}', '}']);
                        lemma_blank_prefix_len_bound(after);
                    }
                    head + jinja_placeholder() + neutralize(inner.skip(end + 2))
                } else {
                    proof {
                        lemma_blank_prefix_len_bound(after);
                    }
                    head + neutralize(value)
                }
            },
        }
    }
}

/// The pieces of `s` between occurrences of "---", as `str::split` gives them.
pub open spec fn split_dashes(s: Seq<char>) -> Seq<Seq<char>>
    decreases s.len(),
{
    match find_seq(s, seq!['-', '-', '-']) {
        None => seq![s],
        Some(i) => {
            proof {
                lemma_find_seq_some(s, seq!['-', '-', '-']);
            }
            seq![s.take(i)] + split_dashes(s.skip(i + 3))
        },
    }
}

/// The trimmed pieces that are not empty, in order.
pub open spec fn nonempty_trimmed(pieces: Seq<Seq<char>>) -> Seq<Seq<char>>
    decreases pieces.len(),
{
    if pieces.len() == 0 {
        Seq::empty()
    } else {
        nonempty_trimmed(pieces.drop_last()) + if trim(pieces.last()).len() > 0 {
            seq![trim(pieces.last())]
        } else {
            Seq::empty()
        }
    }
}

/// The YAML documents of a manifest file: none unless the text looks like a
/// manifest; otherwise the non-empty trimmed pieces of the neutralized text
/// between "---" separators.
pub open spec fn manifest_documents(raw: Seq<char>) -> Seq<Seq<char>> {
    if looks_like_manifest(raw) {
        nonempty_trimmed(split_dashes(neutralize(raw)))
    } else {
        Seq::empty()
    }
}

/// The character-sequence views of a vector of strings.
pub open spec fn string_views(s: Seq<String>) -> Seq<Seq<char>> {
    s.map_values(|x: String| x@)
}

// ---------------------------------------------------------------------------
// Lemmas
// ---------------------------------------------------------------------------

/// The blank prefix fits in the text.
pub proof fn lemma_blank_prefix_len_bound(s: Seq<char>)
    ensures
        blank_prefix_len(s) <= s.len(),
    decreases s.len(),
{
    if s.len() > 0 && (s[0] == ' ' || s[0] == '\t') {
        lemma_blank_prefix_len_bound(s.drop_first());
    }
}

/// `neutralize` of a text without a colon.
pub proof fn lemma_neutralize_no_colon(text: Seq<char>)
    requires
        find_seq(text, seq![':']) is None,
    ensures
        neutralize(text) == text,
{
    reveal(neutralize);
}

/// `neutralize` of the empty text.
pub proof fn lemma_neutralize_empty(text: Seq<char>)
    requires
        text.len() == 0,
    ensures
        neutralize(text) == text,
{
    reveal(neutralize);
    assert(text =~= Seq::<char>::empty());
}

/// `neutralize` of a text whose first colon is at `idx`.
pub proof fn lemma_neutralize_colon(text: Seq<char>, idx: int)
    requires
        first_at(text, seq![':'], idx),
    ensures
        ({
            let after = text.skip(idx + 1);
            let ws = blank_prefix_len(after);
            let value = after.skip(ws as int);
            let head = text.take(idx) + seq![':'] + after.take(ws as int);
            let inner = value.skip(2);
            neutralize(text) == if has_prefix(value, seq!['{', '{']) && find_seq(
                inner,
                seq!['}', '}'],
            ) is Some {
                head + jinja_placeholder() + neutralize(
                    inner.skip(find_seq(inner, seq!['}', '}'])->0 + 2),
                )
            } else {
                head + neutralize(value)
            }
        }),
{
    reveal(neutralize);
    lemma_find_seq_is_first(text, seq![':'], idx);
}

/// A text without "{{" is left unchanged.
proof fn lemma_identity_without_open(text: Seq<char>)
    requires
        !contains_seq(text, seq!['{', '{']),
    ensures
        neutralize(text) == text,
    decreases text.len(),
{
    if text.len() == 0 {
        lemma_neutralize_empty(text);
    } else {
        match find_seq(text, seq![':']) {
            None => {
                lemma_neutralize_no_colon(text);
            },
            Some(idx) => {
                lemma_find_seq_some(text, seq![':']);
                lemma_neutralize_colon(text, idx);
                let after = text.skip(idx + 1);
                let ws = blank_prefix_len(after);
                lemma_blank_prefix_len_bound(after);
                let value = after.skip(ws as int);
                let start = idx + 1 + ws;
                assert(value =~= text.skip(start));
                if has_prefix(value, seq!['{', '{']) {
                    assert(text.subrange(start, start + 2) =~= value.subrange(0, 2));
                    assert(occurs_at(text, seq!['{', '{'], start));
                }
                assert(!contains_seq(value, seq!['{', '{'])) by {
                    if contains_seq(value, seq!['{', '{']) {
                        let j = choose|j: int| occurs_at(value, seq!['{', '{'], j);
                        assert(text.subrange(start + j, start + j + 2) =~= value.subrange(j, j + 2));
                        assert(occurs_at(text, seq!['{', '{'], start + j));
                    }
                }
                lemma_identity_without_open(value);
                assert(text.take(idx) + seq![':'] + after.take(ws as int) + value =~= text) by {
                    assert(text[idx] == ':') by {
                        assert(text.subrange(idx, idx + 1) == seq![':']);
                        assert(text.subrange(idx, idx + 1)[0] == text[idx]);
                    }
                }
            },
        }
    }
}

/// A one-character pattern occurs exactly where that character stands.
proof fn lemma_occurs_char(t: Seq<char>, c: char, j: int)
    ensures
        occurs_at(t, seq![c], j) <==> (0 <= j < t.len() && t[j] == c),
{
    if 0 <= j < t.len() {
        assert(t.subrange(j, j + 1)[0] == t[j]);
        if t[j] == c {
            assert(t.subrange(j, j + 1) =~= seq![c]);
        }
    }
}

/// The text holds no colon.
pub open spec fn colon_free(s: Seq<char>) -> bool {
    forall|j: int| 0 <= j < s.len() ==> s[j] != ':'
}

/// A colon-free text has no first colon.
proof fn lemma_colon_free_find(s: Seq<char>)
    requires
        colon_free(s),
    ensures
        find_seq(s, seq![':']) is None,
{
    assert forall|j: int| !occurs_at(s, seq![':'], j) by {
        lemma_occurs_char(s, ':', j);
    }
    lemma_find_seq_none(s, seq![':']);
}

/// A text without a first colon is colon-free.
proof fn lemma_find_none_colon_free(s: Seq<char>)
    requires
        find_seq(s, seq![':']) is None,
    ensures
        colon_free(s),
{
    assert forall|j: int| 0 <= j < s.len() implies s[j] != ':' by {
        lemma_occurs_char(s, ':', j);
        if s[j] == ':' {
            lemma_find_seq_found(s, seq![':'], j);
        }
    }
}

/// The blank prefix is followed by a character that is not blank, and after
/// it any text that does not start with a blank adds nothing to it.
proof fn lemma_blank_prefix_stop(s: Seq<char>, u: Seq<char>)
    requires
        u.len() == 0 || !(u[0] == ' ' || u[0] == '\t'),
    ensures
        blank_prefix_len(s) < s.len() ==> !(s[blank_prefix_len(s) as int] == ' ' || s[blank_prefix_len(
            s,
        ) as int] == '\t'),
        blank_prefix_len(s.take(blank_prefix_len(s) as int) + u) == blank_prefix_len(s),
    decreases s.len(),
{
    lemma_blank_prefix_len_bound(s);
    let n = blank_prefix_len(s) as int;
    if s.len() > 0 && (s[0] == ' ' || s[0] == '\t') {
        let r = s.drop_first();
        lemma_blank_prefix_stop(r, u);
        assert((s.take(n) + u).drop_first() =~= r.take(n - 1) + u);
        assert((s.take(n) + u)[0] == s[0]);
        assert(n < s.len() ==> s[n] == r[n - 1]);
    } else {
        assert(s.take(0) + u =~= u);
    }
}

/// A text whose first colon is at `idx` begins, up to and including that
/// colon, as its neutralized form does.
proof fn lemma_neutralize_keeps_head(t: Seq<char>, idx: int)
    requires
        first_at(t, seq![':'], idx),
    ensures
        neutralize(t).len() > idx,
        neutralize(t).take(idx + 1) == t.take(idx + 1),
{
    lemma_neutralize_colon(t, idx);
    lemma_occurs_char(t, ':', idx);
    let after = t.skip(idx + 1);
    let ws = blank_prefix_len(after);
    let head = t.take(idx) + seq![':'] + after.take(ws as int);
    lemma_blank_prefix_len_bound(after);
    assert(head.take(idx + 1) =~= t.take(idx + 1));
    let value = after.skip(ws as int);
    let inner = value.skip(2);
    if has_prefix(value, seq!['{', '{']) && find_seq(inner, seq!['}', '}']) is Some {
        let rest = inner.skip(find_seq(inner, seq!['}', '}'])->0 + 2);
        assert((head + jinja_placeholder() + neutralize(rest)).take(idx + 1) =~= head.take(idx + 1));
    } else {
        assert((head + neutralize(value)).take(idx + 1) =~= head.take(idx + 1));
    }
}

/// A neutralized text starts with the character its text starts with.
proof fn lemma_neutralize_first(t: Seq<char>)
    ensures
        neutralize(t).len() == 0 <==> t.len() == 0,
        t.len() > 0 ==> neutralize(t)[0] == t[0],
{
    if t.len() == 0 {
        lemma_neutralize_empty(t);
    } else {
        match find_seq(t, seq![':']) {
            None => lemma_neutralize_no_colon(t),
            Some(idx) => {
                lemma_find_seq_some(t, seq![':']);
                lemma_neutralize_keeps_head(t, idx);
                assert(neutralize(t).take(idx + 1)[0] == t.take(idx + 1)[0]);
            },
        }
    }
}

/// A text that does not start with "{{" does not after neutralizing either.
proof fn lemma_neutralize_no_open_prefix(t: Seq<char>)
    requires
        !has_prefix(t, seq!['{', '{']),
    ensures
        !has_prefix(neutralize(t), seq!['{', '{']),
{
    match find_seq(t, seq![':']) {
        None => {
            if t.len() == 0 {
                lemma_neutralize_empty(t);
            } else {
                lemma_neutralize_no_colon(t);
            }
        },
        Some(idx) => {
            lemma_find_seq_some(t, seq![':']);
            lemma_neutralize_keeps_head(t, idx);
            lemma_occurs_char(t, ':', idx);
            let n = neutralize(t);
            if has_prefix(n, seq!['{', '{']) {
                assert(n.subrange(0, 2)[0] == '{' && n.subrange(0, 2)[1] == '{');
                assert(n[0] == n.take(idx + 1)[0]);
                assert(t[0] == t.take(idx + 1)[0]);
                if idx == 0 {
                    assert(false);
                } else {
                    assert(n[1] == n.take(idx + 1)[1]);
                    assert(t[1] == t.take(idx + 1)[1]);
                    assert(t.subrange(0, 2) =~= seq!['{', '{']);
                }
            }
        },
    }
}

/// In a text that starts with colon-free `s`, the first colon is that of `u`
/// moved along by `s`.
proof fn lemma_first_colon_shift(s: Seq<char>, u: Seq<char>, k: int)
    requires
        colon_free(s),
        first_at(u, seq![':'], k),
    ensures
        first_at(s + u, seq![':'], s.len() + k),
{
    let t = s + u;
    lemma_occurs_char(u, ':', k);
    lemma_occurs_char(t, ':', s.len() + k);
    assert forall|j: int| 0 <= j < s.len() + k implies !occurs_at(t, seq![':'], j) by {
        lemma_occurs_char(t, ':', j);
        if j >= s.len() {
            lemma_occurs_char(u, ':', j - s.len());
        }
    }
}

/// A colon-free prefix passes through `neutralize` unchanged.
proof fn lemma_neutralize_plain_prefix(s: Seq<char>, u: Seq<char>)
    requires
        colon_free(s),
    ensures
        neutralize(s + u) == s + neutralize(u),
{
    let t = s + u;
    match find_seq(u, seq![':']) {
        None => {
            lemma_find_none_colon_free(u);
            assert(colon_free(t));
            lemma_colon_free_find(t);
            if t.len() == 0 {
                lemma_neutralize_empty(t);
            } else {
                lemma_neutralize_no_colon(t);
            }
            if u.len() == 0 {
                lemma_neutralize_empty(u);
            } else {
                lemma_neutralize_no_colon(u);
            }
            assert(t =~= s + u);
        },
        Some(k) => {
            lemma_find_seq_some(u, seq![':']);
            let i = s.len() + k;
            lemma_first_colon_shift(s, u, k);
            lemma_neutralize_colon(t, i);
            lemma_neutralize_colon(u, k);
            assert(t.skip(i + 1) =~= u.skip(k + 1));
            assert(t.take(i) =~= s + u.take(k));
            let after = u.skip(k + 1);
            let ws = blank_prefix_len(after);
            let value = after.skip(ws as int);
            let inner = value.skip(2);
            let hu = u.take(k) + seq![':'] + after.take(ws as int);
            assert(t.take(i) + seq![':'] + after.take(ws as int) =~= s + hu);
            if has_prefix(value, seq!['{', '{']) && find_seq(inner, seq!['}', '}']) is Some {
                let rest = inner.skip(find_seq(inner, seq!['}', '}'])->0 + 2);
                assert(s + hu + jinja_placeholder() + neutralize(rest) =~= s + (hu + jinja_placeholder()
                    + neutralize(rest)));
            } else {
                assert(s + hu + neutralize(value) =~= s + (hu + neutralize(value)));
            }
        },
    }
}

/// A text without "}}" is left unchanged.
proof fn lemma_identity_without_close(text: Seq<char>)
    requires
        !contains_seq(text, seq!['}', '}']),
    ensures
        neutralize(text) == text,
    decreases text.len(),
{
    if text.len() == 0 {
        lemma_neutralize_empty(text);
    } else {
        match find_seq(text, seq![':']) {
            None => {
                lemma_neutralize_no_colon(text);
            },
            Some(idx) => {
                lemma_find_seq_some(text, seq![':']);
                lemma_neutralize_colon(text, idx);
                lemma_occurs_char(text, ':', idx);
                let after = text.skip(idx + 1);
                let ws = blank_prefix_len(after);
                lemma_blank_prefix_len_bound(after);
                let value = after.skip(ws as int);
                let start = idx + 1 + ws;
                assert(value =~= text.skip(start));
                let inner = value.skip(2);
                if has_prefix(value, seq!['{', '{']) && find_seq(inner, seq!['}', '}']) is Some {
                    lemma_find_seq_some(inner, seq!['}', '}']);
                    let e = find_seq(inner, seq!['}', '}'])->0;
                    assert(text.subrange(start + 2 + e, start + 2 + e + 2) =~= inner.subrange(e, e + 2));
                    assert(occurs_at(text, seq!['}', '}'], start + 2 + e));
                }
                assert(!contains_seq(value, seq!['}', '}'])) by {
                    if contains_seq(value, seq!['}', '}']) {
                        let j = choose|j: int| occurs_at(value, seq!['}', '}'], j);
                        assert(text.subrange(start + j, start + j + 2) =~= value.subrange(j, j + 2));
                        assert(occurs_at(text, seq!['}', '}'], start + j));
                    }
                }
                lemma_identity_without_close(value);
                assert(text.take(idx) + seq![':'] + after.take(ws as int) + value =~= text);
            },
        }
    }
}

/// A text is left unchanged when it holds no "{{", no "}}" or no colon.
pub proof fn law_neutralize_identity(text: Seq<char>)
    requires
        !contains_seq(text, seq!['{', '{']) || !contains_seq(text, seq!['}', '}']) || !contains_seq(
            text,
            seq![':'],
        ),
    ensures
        neutralize(text) == text,
{
    if !contains_seq(text, seq!['{', '{']) {
        lemma_identity_without_open(text);
    } else if !contains_seq(text, seq![':']) {
        lemma_find_seq_none(text, seq![':']);
        lemma_neutralize_no_colon(text);
    } else {
        lemma_identity_without_close(text);
    }
}

/// The placeholder starts with a double quote and holds no colon.
proof fn lemma_placeholder()
    ensures
        jinja_placeholder().len() > 0,
        jinja_placeholder()[0] == '"',
        colon_free(jinja_placeholder()),
{
    reveal_strlit("\"__jinja__\"");
    assert(jinja_placeholder() =~= seq!['"', '_', '_', 'j', 'i', 'n', 'j', 'a', '_', '_', '"']);
}

/// Neutralizing twice gives what neutralizing once gives.
pub proof fn law_neutralize_idempotent(t: Seq<char>)
    ensures
        neutralize(neutralize(t)) == neutralize(t),
    decreases t.len(),
{
    if t.len() == 0 {
        lemma_neutralize_empty(t);
    } else {
        match find_seq(t, seq![':']) {
            None => {
                lemma_neutralize_no_colon(t);
            },
            Some(idx) => {
                lemma_find_seq_some(t, seq![':']);
                lemma_neutralize_colon(t, idx);
                lemma_neutralize_keeps_head(t, idx);
                let out = neutralize(t);
                let after = t.skip(idx + 1);
                let ws = blank_prefix_len(after);
                lemma_blank_prefix_len_bound(after);
                let blanks = after.take(ws as int);
                let value = after.skip(ws as int);
                let head = t.take(idx) + seq![':'] + blanks;
                let inner = value.skip(2);
                assert(first_at(out, seq![':'], idx)) by {
                    lemma_occurs_char(t, ':', idx);
                    lemma_occurs_char(out, ':', idx);
                    assert(out[idx] == out.take(idx + 1)[idx]);
                    assert forall|j: int| 0 <= j < idx implies !occurs_at(out, seq![':'], j) by {
                        lemma_occurs_char(t, ':', j);
                        lemma_occurs_char(out, ':', j);
                        assert(out[j] == out.take(idx + 1)[j]);
                        assert(t[j] == t.take(idx + 1)[j]);
                    }
                }
                lemma_neutralize_colon(out, idx);
                if has_prefix(value, seq!['{', '{']) && find_seq(inner, seq!['}', '}']) is Some {
                    let rest = inner.skip(find_seq(inner, seq!['}', '}'])->0 + 2);
                    let y = neutralize(rest);
                    let v2 = jinja_placeholder() + y;
                    lemma_placeholder();
                    assert(out =~= head + v2);
                    assert(out.skip(idx + 1) =~= blanks + v2);
                    assert(out.take(idx) =~= t.take(idx));
                    lemma_blank_prefix_stop(after, v2);
                    assert((blanks + v2).skip(ws as int) =~= v2);
                    assert(v2[0] == '"');
                    lemma_neutralize_plain_prefix(jinja_placeholder(), y);
                    law_neutralize_idempotent(rest);
                    assert(head + neutralize(v2) =~= out);
                } else {
                    let x = neutralize(value);
                    assert(out =~= head + x);
                    assert(out.skip(idx + 1) =~= blanks + x);
                    assert(out.take(idx) =~= t.take(idx));
                    lemma_neutralize_first(value);
                    lemma_blank_prefix_stop(after, Seq::<char>::empty());
                    assert(value.len() > 0 ==> value[0] == after[ws as int]);
                    lemma_blank_prefix_stop(after, x);
                    assert((blanks + x).skip(ws as int) =~= x);
                    if has_prefix(value, seq!['{', '{']) {
                        assert(value[0] == value.subrange(0, 2)[0]);
                        assert(value[1] == value.subrange(0, 2)[1]);
                        assert(!contains_seq(value, seq!['}', '}'])) by {
                            if contains_seq(value, seq!['}', '}']) {
                                let j = choose|j: int| occurs_at(value, seq!['}', '}'], j);
                                assert(value.subrange(j, j + 2)[0] == value[j]);
                                assert(value.subrange(j, j + 2)[1] == value[j + 1]);
                                assert(inner.subrange(j - 2, j) =~= value.subrange(j, j + 2));
                                assert(occurs_at(inner, seq!['}', '}'], j - 2));
                                lemma_find_seq_found(inner, seq!['}', '}'], j - 2);
                            }
                        }
                        law_neutralize_identity(value);
                    } else {
                        lemma_neutralize_no_open_prefix(value);
                    }
                    law_neutralize_idempotent(value);
                }
            },
        }
    }
}

/// Pieces joined back together with "---" between them.
pub open spec fn joined_with_dashes(pieces: Seq<Seq<char>>) -> Seq<char>
    decreases pieces.len(),
{
    if pieces.len() == 0 {
        Seq::empty()
    } else if pieces.len() == 1 {
        pieces[0]
    } else {
        pieces[0] + seq!['-', '-', '-'] + joined_with_dashes(pieces.drop_first())
    }
}

/// Splitting on "---" loses nothing: there is at least one piece, no piece
/// holds "---", and joining the pieces with "---" gives the text back.
pub proof fn law_split_dashes_rejoins(s: Seq<char>)
    ensures
        split_dashes(s).len() >= 1,
        forall|k: int|
            0 <= k < split_dashes(s).len() ==> !contains_seq(#[trigger] split_dashes(s)[k], seq!['-', '-', '-']),
        joined_with_dashes(split_dashes(s)) == s,
    decreases s.len(),
{
    let sep = seq!['-', '-', '-'];
    match find_seq(s, sep) {
        None => {
            if contains_seq(s, sep) {
                let j = choose|j: int| occurs_at(s, sep, j);
                lemma_find_seq_found(s, sep, j);
            }
            assert(split_dashes(s) =~= seq![s]);
        },
        Some(i) => {
            lemma_find_seq_some(s, sep);
            let rest = s.skip(i + 3);
            law_split_dashes_rejoins(rest);
            let pieces = split_dashes(s);
            let tail = split_dashes(rest);
            assert(pieces == seq![s.take(i)] + tail);
            assert(pieces.drop_first() =~= tail);
            assert(pieces[0] == s.take(i));
            assert(!contains_seq(s.take(i), sep)) by {
                if contains_seq(s.take(i), sep) {
                    let j = choose|j: int| occurs_at(s.take(i), sep, j);
                    assert(s.subrange(j, j + 3) =~= s.take(i).subrange(j, j + 3));
                    assert(occurs_at(s, sep, j));
                }
            }
            assert forall|k: int| 0 <= k < pieces.len() implies !contains_seq(#[trigger] pieces[k], sep) by {
                if k > 0 {
                    assert(pieces[k] == tail[k - 1]);
                }
            }
            assert(s.subrange(i, i + 3) == sep);
            assert(s.take(i) + sep + rest =~= s);
        },
    }
}

// ---------------------------------------------------------------------------
// Executable functions
// ---------------------------------------------------------------------------

/// Whether the text mentions both "apiVersion:" and "kind:".
pub fn looks_like_k8s_manifest(raw: &str) -> (r: bool)
    ensures
        r == looks_like_manifest(raw@),
{
    let cs = chars_of(raw);
    let api = chars_of("apiVersion:");
    let kind = chars_of("kind:");
    contains_exec(&cs, &api) && contains_exec(&cs, &kind)
}

/// The end of the spaces and tabs that start at `pos`.
fn skip_blanks(cs: &Vec<char>, pos: usize) -> (r: usize)
    requires
        pos <= cs@.len(),
    ensures
        r == pos + blank_prefix_len(cs@.skip(pos as int)),
        r <= cs@.len(),
{
    let mut k = pos;
    proof {
        lemma_blank_prefix_len_bound(cs@.skip(pos as int));
    }
    while k < cs.len() && (cs[k] == ' ' || cs[k] == '\t')
        invariant
            pos <= k <= cs@.len(),
            blank_prefix_len(cs@.skip(pos as int)) == (k - pos) + blank_prefix_len(
                cs@.skip(k as int),
            ),
        decreases cs@.len() - k,
    {
        assert(cs@.skip(k as int).drop_first() =~= cs@.skip(k + 1));
        k = k + 1;
    }
    k
}

/// One step of `neutralize_jinja_values`: handles the text from `pos` up to
/// and including the value after the next colon, and returns where to go on.
fn neutralize_step(cs: &Vec<char>, out: &mut String, pos: usize) -> (next: usize)
    requires
        pos < cs@.len(),
    ensures
        pos < next <= cs@.len(),
        final(out)@ + neutralize(cs@.skip(next as int)) == old(out)@ + neutralize(
            cs@.skip(pos as int),
        ),
{
    let colon: Vec<char> = vec![':'];
    let open: Vec<char> = vec!['{', '{'];
    let close: Vec<char> = vec!['}', '}'];
    assert(colon@ =~= seq![':']);
    assert(open@ =~= seq!['{', '{']);
    assert(close@ =~= seq!['}', '}']);
    let ghost text = cs@.skip(pos as int);
    let ghost out0 = out@;
    let n = cs.len();
    assert(n == cs@.len());
    match find_in(cs, &colon, pos) {
        None => {
            append_range(out, cs, pos, cs.len());
            assert(cs@.subrange(pos as int, cs@.len() as int) =~= text);
            proof {
                lemma_neutralize_empty(cs@.skip(cs@.len() as int));
                lemma_neutralize_no_colon(text);
            }
            cs.len()
        },
        Some(i) => {
            let ghost idx = i - pos;
            proof {
                lemma_find_seq_some(text, seq![':']);
                lemma_neutralize_colon(text, idx);
            }
            let ghost after = text.skip(idx + 1);
            assert(after =~= cs@.skip(i + 1));
            append_range(out, cs, pos, i + 1);
            let vstart = skip_blanks(cs, i + 1);
            append_range(out, cs, i + 1, vstart);
            let ghost ws = blank_prefix_len(after);
            let ghost value = after.skip(ws as int);
            let ghost head = text.take(idx) + seq![':'] + after.take(ws as int);
            assert(value =~= cs@.skip(vstart as int));
            assert(head =~= cs@.subrange(pos as int, i + 1) + cs@.subrange(i + 1, vstart as int))
                by {
                assert(cs@[i as int] == ':') by {
                    assert(cs@.subrange(i as int, i + 1) == seq![':']);
                    assert(cs@.subrange(i as int, i + 1)[0] == cs@[i as int]);
                }
            }
            assert(out@ == out0 + head);
            let ghost inner = value.skip(2);
            if occurs_at_exec(cs, &open, vstart) {
                assert(has_prefix(value, seq!['{', '{'])) by {
                    assert(value.subrange(0, 2) =~= cs@.subrange(vstart as int, vstart + 2));
                }
                assert(inner =~= cs@.skip(vstart + 2));
                match find_in(cs, &close, vstart + 2) {
                    Some(j) => {
                        append_str(out, "\"__jinja__\"");
                        let ghost end = j - (vstart + 2);
                        assert(inner.skip(end + 2) =~= cs@.skip(j + 2));
                        assert(neutralize(text) == head + jinja_placeholder() + neutralize(
                            inner.skip(end + 2),
                        ));
                        return j + 2;
                    },
                    None => {
                        assert(neutralize(text) == head + neutralize(value));
                    },
                }
            } else {
                assert(!has_prefix(value, seq!['{', '{'])) by {
                    if has_prefix(value, seq!['{', '{']) {
                        assert(value.subrange(0, 2) =~= cs@.subrange(vstart as int, vstart + 2));
                    }
                }
                assert(neutralize(text) == head + neutralize(value));
            }
            vstart
        },
    }
}

/// Replaces bare template values after a colon, `key: {{ var }}`, by the
/// quoted placeholder `key: "__jinja__"`, so that templates still parse as
/// YAML; every other character is kept.
pub fn neutralize_jinja_values(raw: &str) -> (r: String)
    ensures
        r@ == neutralize(raw@),
{
    let cs = chars_of(raw);
    let mut out = String::new();
    let mut pos: usize = 0;
    assert(cs@.skip(0) =~= cs@);
    while pos < cs.len()
        invariant
            pos <= cs@.len(),
            out@ + neutralize(cs@.skip(pos as int)) == neutralize(raw@),
            cs@ == raw@,
        decreases cs@.len() - pos,
    {
        pos = neutralize_step(&cs, &mut out, pos);
    }
    proof {
        lemma_neutralize_empty(cs@.skip(pos as int));
    }
    assert(out@ =~= neutralize(raw@));
    out
}

/// The piece `cs[from..to]` trimmed, as a `String`.
fn trimmed_piece(cs: &Vec<char>, from: usize, to: usize) -> (r: String)
    requires
        from <= to <= cs@.len(),
    ensures
        r@ == trim(cs@.subrange(from as int, to as int)),
{
    let mut piece: Vec<char> = Vec::new();
    let mut k = from;
    while k < to
        invariant
            from <= k <= to <= cs@.len(),
            piece@ == cs@.subrange(from as int, k as int),
        decreases to - k,
    {
        piece.push(cs[k]);
        k = k + 1;
        assert(piece@ =~= cs@.subrange(from as int, k as int));
    }
    let (a, b) = trim_bounds(&piece);
    string_from_range(&piece, a, b)
}

/// Adds the trimmed piece to `docs` when it is not empty.
fn push_nonempty(docs: &mut Vec<String>, piece: String, done: Ghost<Seq<Seq<char>>>, raw_piece: Ghost<Seq<char>>)
    requires
        string_views(old(docs)@) == nonempty_trimmed(done@),
        piece@ == trim(raw_piece@),
    ensures
        string_views(final(docs)@) == nonempty_trimmed(done@.push(raw_piece@)),
{
    assert(done@.push(raw_piece@).drop_last() =~= done@);
    let n = chars_of(piece.as_str()).len();
    if n > 0 {
        let ghost before = docs@;
        docs.push(piece);
        assert(string_views(docs@) =~= string_views(before).push(piece@));
        assert(nonempty_trimmed(done@.push(raw_piece@)) =~= nonempty_trimmed(done@) + seq![
            trim(raw_piece@),
        ]);
    } else {
        assert(nonempty_trimmed(done@.push(raw_piece@)) =~= nonempty_trimmed(done@));
    }
}

/// `split_dashes` of a text with "---" first at `i`.
proof fn lemma_split_dashes_found(s: Seq<char>, i: int)
    requires
        find_seq(s, seq!['-', '-', '-']) == Some(i),
    ensures
        split_dashes(s) == seq![s.take(i)] + split_dashes(s.skip(i + 3)),
{
}

/// `split_dashes` of a text without "---".
proof fn lemma_split_dashes_none(s: Seq<char>)
    requires
        find_seq(s, seq!['-', '-', '-']) is None,
    ensures
        split_dashes(s) == seq![s],
{
}

/// The YAML documents of a manifest file's text: none unless the text
/// looks like a Kubernetes manifest; otherwise, after bare template values
/// are quoted, the pieces between "---" separators, trimmed, without the
/// empty ones.
pub fn split_documents(raw: &str) -> (r: Vec<String>)
    ensures
        string_views(r@) == manifest_documents(raw@),
{
    let mut docs: Vec<String> = Vec::new();
    if !looks_like_k8s_manifest(raw) {
        assert(string_views(docs@) =~= Seq::<Seq<char>>::empty());
        return docs;
    }
    let text = neutralize_jinja_values(raw);
    let cs = chars_of(text.as_str());
    let dashes: Vec<char> = vec!['-', '-', '-'];
    assert(dashes@ =~= seq!['-', '-', '-']);
    let ghost mut done: Seq<Seq<char>> = Seq::empty();
    let mut pos: usize = 0;
    assert(cs@.skip(0) =~= cs@);
    assert(done + split_dashes(cs@.skip(0)) =~= split_dashes(cs@));
    assert(string_views(docs@) =~= nonempty_trimmed(done));
    loop
        invariant
            pos <= cs@.len(),
            dashes@ == seq!['-', '-', '-'],
            cs@ == neutralize(raw@),
            looks_like_manifest(raw@),
            done + split_dashes(cs@.skip(pos as int)) == split_dashes(cs@),
            string_views(docs@) == nonempty_trimmed(done),
        decreases cs@.len() - pos,
    {
        let ghost rest = cs@.skip(pos as int);
        let n = cs.len();
        match find_in(&cs, &dashes, pos) {
            Some(j) => {
                proof {
                    lemma_split_dashes_found(rest, j - pos);
                }
                let piece = trimmed_piece(&cs, pos, j);
                assert(rest.take(j - pos) =~= cs@.subrange(pos as int, j as int));
                push_nonempty(&mut docs, piece, Ghost(done), Ghost(rest.take(j - pos)));
                proof {
                    assert(rest.skip(j - pos + 3) =~= cs@.skip(j + 3));
                    assert(done.push(rest.take(j - pos)) + split_dashes(cs@.skip(j + 3)) =~= done
                        + split_dashes(rest));
                    done = done.push(rest.take(j - pos));
                }
                pos = j + 3;
            },
            None => {
                proof {
                    lemma_split_dashes_none(rest);
                }
                let piece = trimmed_piece(&cs, pos, n);
                assert(rest =~= cs@.subrange(pos as int, n as int));
                push_nonempty(&mut docs, piece, Ghost(done), Ghost(rest));
                assert(done.push(rest) =~= done + split_dashes(rest));
                return docs;
            },
        }
    }
}

} // verus!
