//! Ordering findings for a report: by severity rank, then file, then
//! resource, keeping the scan order among findings with equal keys.

use vstd::prelude::*;
use crate::models::{Finding, FindingView, Severity, severity_rank, views, lemma_views_push};
use crate::text::chars_of;

verus! {

// ---------------------------------------------------------------------------
// Specification
// ---------------------------------------------------------------------------

/// Lexicographic order on texts by character code, which is the byte order
/// of their UTF-8 encodings and so the order of `str`.
pub open spec fn lex_lt(a: Seq<char>, b: Seq<char>) -> bool
    decreases a.len(),
{
    if a.len() == 0 {
        b.len() > 0
    } else if b.len() == 0 {
        false
    } else if a[0] != b[0] {
        (a[0] as u32) < (b[0] as u32)
    } else {
        lex_lt(a.drop_first(), b.drop_first())
    }
}

/// `x` comes strictly before `y`: lower severity rank, then file, then resource.
pub open spec fn key_lt(x: FindingView, y: FindingView) -> bool {
    ||| severity_rank(x.severity) < severity_rank(y.severity)
    ||| (severity_rank(x.severity) == severity_rank(y.severity) && lex_lt(x.file, y.file))
    ||| (severity_rank(x.severity) == severity_rank(y.severity) && x.file == y.file && lex_lt(
        x.resource,
        y.resource,
    ))
}

/// `x` and `y` have the same sort key.
pub open spec fn key_eq(x: FindingView, y: FindingView) -> bool {
    &&& severity_rank(x.severity) == severity_rank(y.severity)
    &&& x.file == y.file
    &&& x.resource == y.resource
}

/// `out` is `input` rearranged by the index map `p`, sorted by key, with
/// findings of equal key in their input order.
pub open spec fn stable_arrangement(input: Seq<FindingView>, out: Seq<FindingView>, p: Seq<int>) -> bool {
    &&& out.len() == input.len()
    &&& p.len() == input.len()
    &&& forall|i: int| 0 <= i < p.len() ==> 0 <= #[trigger] p[i] < input.len()
    &&& forall|i: int| 0 <= i < p.len() ==> out[i] == input[#[trigger] p[i]]
    &&& forall|i: int, j: int| 0 <= i < p.len() && 0 <= j < p.len() && i != j ==> #[trigger] p[i]
        != #[trigger] p[j]
    &&& forall|i: int, j: int| 0 <= i < j < out.len() ==> !key_lt(#[trigger] out[j], #[trigger] out[i])
    &&& forall|i: int, j: int|
        0 <= i < j < out.len() && key_eq(#[trigger] out[i], #[trigger] out[j]) ==> p[i] < p[j]
}

/// `out` is the stable sort of `input` by key.
pub open spec fn is_stable_sort(input: Seq<FindingView>, out: Seq<FindingView>) -> bool {
    exists|p: Seq<int>| stable_arrangement(input, out, p)
}

/// The findings of all files, file after file.
pub open spec fn flatten(files: Seq<Vec<Finding>>) -> Seq<FindingView>
    decreases files.len(),
{
    if files.len() == 0 {
        Seq::empty()
    } else {
        flatten(files.drop_last()) + views(files.last()@)
    }
}

// ---------------------------------------------------------------------------
// Lemmas on the order
// ---------------------------------------------------------------------------

/// No text is before itself.
pub proof fn lemma_lex_irreflexive(a: Seq<char>)
    ensures
        !lex_lt(a, a),
    decreases a.len(),
{
    if a.len() > 0 {
        lemma_lex_irreflexive(a.drop_first());
    }
}

/// The text order is transitive.
pub proof fn lemma_lex_transitive(a: Seq<char>, b: Seq<char>, c: Seq<char>)
    requires
        lex_lt(a, b),
        lex_lt(b, c),
    ensures
        lex_lt(a, c),
    decreases a.len(),
{
    if a.len() > 0 && b.len() > 0 && c.len() > 0 {
        if a[0] == b[0] && b[0] == c[0] {
            lemma_lex_transitive(a.drop_first(), b.drop_first(), c.drop_first());
        }
    }
}

/// Of two different texts one is before the other, and never both.
pub proof fn lemma_lex_total(a: Seq<char>, b: Seq<char>)
    ensures
        a != b ==> lex_lt(a, b) || lex_lt(b, a),
        !(lex_lt(a, b) && lex_lt(b, a)),
    decreases a.len(),
{
    if a.len() > 0 && b.len() > 0 {
        lemma_lex_total(a.drop_first(), b.drop_first());
        if a[0] != b[0] {
            vstd::utf8::char_u32_cast(a[0], a[0] as u32);
            vstd::utf8::char_u32_cast(b[0], b[0] as u32);
        }
        if a[0] == b[0] && a.drop_first() == b.drop_first() {
            assert(a =~= seq![a[0]] + a.drop_first());
            assert(b =~= seq![b[0]] + b.drop_first());
        }
    } else if a.len() == 0 && b.len() == 0 {
        assert(a =~= b);
    }
}

/// The key order is a strict order, and keys are either equal or ordered.
pub proof fn lemma_key_order(x: FindingView, y: FindingView, z: FindingView)
    ensures
        !key_lt(x, x),
        key_lt(x, y) ==> !key_lt(y, x),
        key_lt(x, y) ==> !key_eq(x, y),
        key_lt(x, y) || key_lt(y, x) || key_eq(x, y),
        key_lt(x, y) && key_lt(y, z) ==> key_lt(x, z),
        key_lt(x, y) && key_eq(y, z) ==> key_lt(x, z),
{
    lemma_lex_irreflexive(x.file);
    lemma_lex_irreflexive(x.resource);
    lemma_lex_total(x.file, y.file);
    lemma_lex_total(x.resource, y.resource);
    if lex_lt(x.file, y.file) && lex_lt(y.file, z.file) {
        lemma_lex_transitive(x.file, y.file, z.file);
    }
    if lex_lt(x.resource, y.resource) && lex_lt(y.resource, z.resource) {
        lemma_lex_transitive(x.resource, y.resource, z.resource);
    }
}

// ---------------------------------------------------------------------------
// Executable sort
// ---------------------------------------------------------------------------

/// Whether text `a` is before text `b`.
fn lex_less(a: &Vec<char>, b: &Vec<char>) -> (r: bool)
    ensures
        r == lex_lt(a@, b@),
{
    let mut i: usize = 0;
    assert(a@.skip(0) =~= a@);
    assert(b@.skip(0) =~= b@);
    while i < a.len() && i < b.len() && a[i] == b[i]
        invariant
            0 <= i <= a@.len(),
            i <= b@.len(),
            lex_lt(a@, b@) == lex_lt(a@.skip(i as int), b@.skip(i as int)),
        decreases a@.len() - i,
    {
        assert(a@.skip(i as int).drop_first() =~= a@.skip(i + 1));
        assert(b@.skip(i as int).drop_first() =~= b@.skip(i + 1));
        i = i + 1;
    }
    if i == a.len() {
        i < b.len()
    } else if i == b.len() {
        false
    } else {
        let x: u32 = a[i] as u32;
        let y: u32 = b[i] as u32;
        assert(a@.skip(i as int)[0] == a@[i as int]);
        assert(b@.skip(i as int)[0] == b@[i as int]);
        x < y
    }
}

/// Whether finding `x` sorts strictly before finding `y`.
fn key_less(x: &Finding, y: &Finding) -> (r: bool)
    ensures
        r == key_lt(x@, y@),
{
    let rx = x.severity.rank();
    let ry = y.severity.rank();
    if rx != ry {
        return rx < ry;
    }
    let xf = chars_of(x.file.as_str());
    let yf = chars_of(y.file.as_str());
    if lex_less(&xf, &yf) {
        return true;
    }
    let xr = chars_of(x.resource.as_str());
    let yr = chars_of(y.resource.as_str());
    proof {
        lemma_lex_total(xf@, yf@);
    }
    if lex_less(&yf, &xf) {
        return false;
    }
    lex_less(&xr, &yr)
}

/// The position after every finding of `out` that `x` does not sort before.
fn insert_position(out: &Vec<Finding>, x: &Finding) -> (k: usize)
    requires
        forall|i: int, j: int|
            0 <= i < j < out@.len() ==> !key_lt(#[trigger] out@[j]@, #[trigger] out@[i]@),
    ensures
        k <= out@.len(),
        forall|m: int| 0 <= m < k ==> !key_lt(x@, #[trigger] out@[m]@),
        forall|m: int| k <= m < out@.len() ==> key_lt(x@, #[trigger] out@[m]@),
{
    let mut k: usize = 0;
    while k < out.len()
        invariant
            0 <= k <= out@.len(),
            forall|m: int| 0 <= m < k ==> !key_lt(x@, #[trigger] out@[m]@),
            forall|i: int, j: int|
                0 <= i < j < out@.len() ==> !key_lt(#[trigger] out@[j]@, #[trigger] out@[i]@),
        decreases out@.len() - k,
    {
        if key_less(x, &out[k]) {
            assert forall|m: int| k <= m < out@.len() implies key_lt(x@, #[trigger] out@[m]@) by {
                if m > k {
                    lemma_key_order(x@, out@[k as int]@, out@[m]@);
                    lemma_key_order(out@[k as int]@, out@[m]@, x@);
                }
            }
            return k;
        }
        k = k + 1;
    }
    k
}

/// All findings, file after file, as fresh copies.
fn flatten_exec(files: &Vec<Vec<Finding>>) -> (r: Vec<Finding>)
    ensures
        views(r@) == flatten(files@),
{
    let mut r: Vec<Finding> = Vec::new();
    let mut i: usize = 0;
    assert(files@.take(0) =~= Seq::<Vec<Finding>>::empty());
    assert(views(r@) =~= Seq::<FindingView>::empty());
    while i < files.len()
        invariant
            0 <= i <= files@.len(),
            views(r@) == flatten(files@.take(i as int)),
        decreases files@.len() - i,
    {
        let ghost next = files@.take(i + 1);
        assert(next.drop_last() =~= files@.take(i as int));
        assert(next.last() == files@[i as int]);
        let ghost base = views(r@);
        let mut k: usize = 0;
        assert(views(files@[i as int]@.take(0)) =~= Seq::<FindingView>::empty());
        while k < files[i].len()
            invariant
                0 <= i < files@.len(),
                0 <= k <= files@[i as int]@.len(),
                views(r@) == base + views(files@[i as int]@.take(k as int)),
            decreases files@[i as int]@.len() - k,
        {
            let f = files[i][k].duplicate();
            proof {
                lemma_views_push(r@, f);
            }
            r.push(f);
            k = k + 1;
            assert(views(r@) =~= base + views(files@[i as int]@.take(k as int)));
        }
        assert(files@[i as int]@.take(files@[i as int]@.len() as int) =~= files@[i as int]@);
        i = i + 1;
    }
    assert(files@.take(files@.len() as int) =~= files@);
    r
}

/// The stable sort of `v` by severity rank, file and resource.
pub fn sort_findings(v: &Vec<Finding>) -> (r: Vec<Finding>)
    ensures
        is_stable_sort(views(v@), views(r@)),
{
    let ghost input = views(v@);
    let mut out: Vec<Finding> = Vec::new();
    let ghost mut p: Seq<int> = Seq::empty();
    let mut i: usize = 0;
    while i < v.len()
        invariant
            0 <= i <= v@.len(),
            input == views(v@),
            out@.len() == i,
            p.len() == i,
            forall|a: int| 0 <= a < i ==> 0 <= #[trigger] p[a] < i,
            forall|a: int| 0 <= a < i ==> out@[a]@ == input[#[trigger] p[a]],
            forall|a: int, b: int| 0 <= a < i && 0 <= b < i && a != b ==> #[trigger] p[a]
                != #[trigger] p[b],
            forall|a: int, b: int|
                0 <= a < b < out@.len() ==> !key_lt(#[trigger] out@[b]@, #[trigger] out@[a]@),
            forall|a: int, b: int|
                0 <= a < b < out@.len() && key_eq(#[trigger] out@[a]@, #[trigger] out@[b]@) ==> p[a]
                    < p[b],
        decreases v@.len() - i,
    {
        let x = v[i].duplicate();
        let k = insert_position(&out, &x);
        let ghost old_out = out@;
        let ghost old_p = p;
        let ghost xv = x@;
        assert(xv == input[i as int]);
        out.insert(k, x);
        proof {
            p = p.insert(k as int, i as int);
            assert(forall|a: int| 0 <= a < k ==> out@[a] == old_out[a]);
            assert(out@[k as int]@ == xv);
            assert(forall|a: int| k < a <= i ==> out@[a] == old_out[a - 1]);
            assert(forall|a: int| 0 <= a < k ==> p[a] == old_p[a]);
            assert(p[k as int] == i);
            assert(forall|a: int| k < a <= i ==> p[a] == old_p[a - 1]);
            assert forall|a: int, b: int|
                0 <= a < b < out@.len() implies !key_lt(#[trigger] out@[b]@, #[trigger] out@[a]@) by {
                if b == k {
                    assert(!key_lt(xv, old_out[a]@));
                    lemma_key_order(xv, old_out[a]@, xv);
                    lemma_key_order(old_out[a]@, xv, xv);
                } else if a == k {
                    assert(key_lt(xv, old_out[b - 1]@));
                    lemma_key_order(xv, old_out[b - 1]@, xv);
                } else {
                    let a2 = if a < k {
                        a
                    } else {
                        a - 1
                    };
                    let b2 = if b < k {
                        b
                    } else {
                        b - 1
                    };
                    assert(out@[a] == old_out[a2]);
                    assert(out@[b] == old_out[b2]);
                    assert(a2 < b2);
                }
            }
            assert forall|a: int, b: int|
                0 <= a < b < out@.len() && key_eq(#[trigger] out@[a]@, #[trigger] out@[b]@) implies p[a]
                < p[b] by {
                if b == k {
                    assert(0 <= old_p[a] < i);
                } else if a == k {
                    assert(key_lt(xv, old_out[b - 1]@));
                    lemma_key_order(xv, old_out[b - 1]@, xv);
                } else {
                    let a2 = if a < k {
                        a
                    } else {
                        a - 1
                    };
                    let b2 = if b < k {
                        b
                    } else {
                        b - 1
                    };
                    assert(out@[a] == old_out[a2]);
                    assert(out@[b] == old_out[b2]);
                    assert(p[a] == old_p[a2]);
                    assert(p[b] == old_p[b2]);
                    assert(a2 < b2);
                }
            }
            assert forall|a: int| 0 <= a < i + 1 implies out@[a]@ == input[#[trigger] p[a]] by {
                if a < k {
                } else if a == k {
                } else {
                    assert(out@[a] == old_out[a - 1]);
                }
            }
            assert forall|a: int, b: int| 0 <= a < i + 1 && 0 <= b < i + 1 && a != b implies #[trigger] p[a]
                != #[trigger] p[b] by {
                if a != k && b != k {
                    let a2 = if a < k {
                        a
                    } else {
                        a - 1
                    };
                    let b2 = if b < k {
                        b
                    } else {
                        b - 1
                    };
                    assert(p[a] == old_p[a2]);
                    assert(p[b] == old_p[b2]);
                } else if a == k {
                    assert(0 <= old_p[if b < k { b } else { b - 1 }] < i);
                } else {
                    assert(0 <= old_p[if a < k { a } else { a - 1 }] < i);
                }
            }
            assert forall|a: int| 0 <= a < i + 1 implies 0 <= #[trigger] p[a] < i + 1 by {
                if a != k {
                    assert(0 <= old_p[if a < k { a } else { a - 1 }] < i);
                }
            }
        }
        i = i + 1;
    }
    proof {
        assert(views(out@).len() == input.len());
        assert forall|a: int| 0 <= a < p.len() implies views(out@)[a] == input[#[trigger] p[a]] by {
            assert(views(out@)[a] == out@[a]@);
        }
        assert forall|a: int, b: int| 0 <= a < b < views(out@).len() implies !key_lt(
            #[trigger] views(out@)[b],
            #[trigger] views(out@)[a],
        ) by {
            assert(views(out@)[a] == out@[a]@);
            assert(views(out@)[b] == out@[b]@);
        }
        assert forall|a: int, b: int|
            0 <= a < b < views(out@).len() && key_eq(
                #[trigger] views(out@)[a],
                #[trigger] views(out@)[b],
            ) implies p[a] < p[b] by {
            assert(views(out@)[a] == out@[a]@);
            assert(views(out@)[b] == out@[b]@);
        }
        assert(stable_arrangement(input, views(out@), p));
    }
    out
}

/// The findings of all scanned files, in report order.
///
/// The findings of the files, taken file after file, are sorted by severity
/// (most serious first), then by file, then by resource; findings with the
/// same severity, file and resource keep the order in which they were found.
pub fn scan_path(file_findings: Vec<Vec<Finding>>) -> (r: Vec<Finding>)
    ensures
        is_stable_sort(flatten(file_findings@), views(r@)),
{
    let all = flatten_exec(&file_findings);
    sort_findings(&all)
}

// ---------------------------------------------------------------------------
// Laws
// ---------------------------------------------------------------------------

/// In a sorted report the more serious findings come first: critical before
/// high before medium before low, so a later finding is never more serious
/// than an earlier one; among findings of one severity, files come in text
/// order.
pub proof fn law_sorted_most_serious_first(input: Seq<FindingView>, out: Seq<FindingView>)
    requires
        is_stable_sort(input, out),
    ensures
        forall|i: int, j: int|
            0 <= i < j < out.len() && #[trigger] out[j].severity == Severity::Critical ==> #[trigger] out[i].severity
                == Severity::Critical,
        forall|i: int, j: int|
            0 <= i < j < out.len() && #[trigger] out[j].severity == Severity::High ==> (#[trigger] out[i].severity
                == Severity::Critical || out[i].severity == Severity::High),
        forall|i: int, j: int|
            0 <= i < j < out.len() && #[trigger] out[j].severity == Severity::Medium ==> #[trigger] out[i].severity
                != Severity::Low,
        forall|i: int, j: int|
            0 <= i < j < out.len() && #[trigger] out[i].severity == #[trigger] out[j].severity ==> !lex_lt(
                out[j].file,
                out[i].file,
            ),
{
    let p = choose|p: Seq<int>| stable_arrangement(input, out, p);
    assert forall|i: int, j: int| 0 <= i < j < out.len() implies !key_lt(#[trigger] out[j], #[trigger] out[i]) by {
    }
}

} // verus!
