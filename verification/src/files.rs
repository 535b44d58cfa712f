//! Which files are manifests, and the order in which they are scanned.

use vstd::prelude::*;
use crate::text::{ascii_lower_chars, ascii_lower_seq, chars_of, has_suffix, occurs_at_exec};

verus! {

/// A file name that names a manifest: it ends, in any ASCII case, with
/// ".yaml", ".yml" or ".yaml.j2".
pub open spec fn manifest_file_name(name: Seq<char>) -> bool {
    let lower = ascii_lower_seq(name);
    has_suffix(lower, ".yaml"@) || has_suffix(lower, ".yml"@) || has_suffix(lower, ".yaml.j2"@)
}

/// Whether `s` ends with `p`.
fn has_suffix_exec(s: &Vec<char>, p: &str) -> (r: bool)
    ensures
        r == has_suffix(s@, p@),
{
    let pc = chars_of(p);
    if pc.len() > s.len() {
        return false;
    }
    let r = occurs_at_exec(s, &pc, s.len() - pc.len());
    r
}

/// Whether a file name names a manifest (see `manifest_file_name`).
pub fn is_manifest_file_name(name: &str) -> (r: bool)
    ensures
        r == manifest_file_name(name@),
{
    let cs = chars_of(name);
    let lower = ascii_lower_chars(&cs);
    has_suffix_exec(&lower, ".yaml") || has_suffix_exec(&lower, ".yml") || has_suffix_exec(
        &lower,
        ".yaml.j2",
    )
}


/// Lower-casing a joined text lower-cases each part.
proof fn lemma_lower_concat(a: Seq<char>, b: Seq<char>)
    ensures
        ascii_lower_seq(a + b) == ascii_lower_seq(a) + ascii_lower_seq(b),
{
    assert(ascii_lower_seq(a + b) =~= ascii_lower_seq(a) + ascii_lower_seq(b));
}

/// Any file name ending in ".yaml", ".yml" or ".yaml.j2" names a manifest,
/// and one ending in ".json" does not.
pub proof fn law_manifest_file_names(stem: Seq<char>)
    ensures
        manifest_file_name(stem + ".yaml"@),
        manifest_file_name(stem + ".yml"@),
        manifest_file_name(stem + ".yaml.j2"@),
        !manifest_file_name(stem + ".json"@),
{
    reveal_strlit(".yaml");
    reveal_strlit(".yml");
    reveal_strlit(".yaml.j2");
    reveal_strlit(".json");
    let l = ascii_lower_seq(stem);
    lemma_lower_concat(stem, ".yaml"@);
    assert(ascii_lower_seq(".yaml"@) =~= ".yaml"@);
    let a = l + ".yaml"@;
    assert(a.subrange(a.len() - 5, a.len() as int) =~= ".yaml"@);
    lemma_lower_concat(stem, ".yml"@);
    assert(ascii_lower_seq(".yml"@) =~= ".yml"@);
    let b = l + ".yml"@;
    assert(b.subrange(b.len() - 4, b.len() as int) =~= ".yml"@);
    lemma_lower_concat(stem, ".yaml.j2"@);
    assert(ascii_lower_seq(".yaml.j2"@) =~= ".yaml.j2"@);
    let c = l + ".yaml.j2"@;
    assert(c.subrange(c.len() - 8, c.len() as int) =~= ".yaml.j2"@);
    lemma_lower_concat(stem, ".json"@);
    assert(ascii_lower_seq(".json"@) =~= ".json"@);
    let d = l + ".json"@;
    assert(d.last() == 'n');
    if has_suffix(d, ".yaml"@) {
        assert(d.subrange(d.len() - 5, d.len() as int)[4] == d.last());
    }
    if has_suffix(d, ".yml"@) {
        assert(d.subrange(d.len() - 4, d.len() as int)[3] == d.last());
    }
    if has_suffix(d, ".yaml.j2"@) {
        assert(d.subrange(d.len() - 8, d.len() as int)[7] == d.last());
    }
}

// ---------------------------------------------------------------------------
// Path order
// ---------------------------------------------------------------------------

/// One component of a path. `kind` orders the components as paths order
/// them (0 prefix, 1 root, 2 current directory, 3 parent directory, 4 a
/// name), `bytes` is the component's text in the platform encoding.
pub struct PathPart {
    pub kind: u8,
    pub bytes: Vec<u8>,
}

/// The content of a path component.
pub open spec fn part_view(p: PathPart) -> (u8, Seq<u8>) {
    (p.kind, p.bytes@)
}

/// The content of a path, component by component.
pub open spec fn path_view(parts: Vec<PathPart>) -> Seq<(u8, Seq<u8>)> {
    parts@.map_values(|p: PathPart| part_view(p))
}

/// Lexicographic order on byte strings.
pub open spec fn bytes_lt(a: Seq<u8>, b: Seq<u8>) -> bool
    decreases a.len(),
{
    if a.len() == 0 {
        b.len() > 0
    } else if b.len() == 0 {
        false
    } else if a[0] != b[0] {
        a[0] < b[0]
    } else {
        bytes_lt(a.drop_first(), b.drop_first())
    }
}

/// Order on components: by kind, then by text.
pub open spec fn part_lt(x: (u8, Seq<u8>), y: (u8, Seq<u8>)) -> bool {
    x.0 < y.0 || (x.0 == y.0 && bytes_lt(x.1, y.1))
}

/// Order on paths: component by component, a path before its extensions.
pub open spec fn path_lt(a: Seq<(u8, Seq<u8>)>, b: Seq<(u8, Seq<u8>)>) -> bool
    decreases a.len(),
{
    if a.len() == 0 {
        b.len() > 0
    } else if b.len() == 0 {
        false
    } else if a[0] != b[0] {
        part_lt(a[0], b[0])
    } else {
        path_lt(a.drop_first(), b.drop_first())
    }
}

proof fn lemma_bytes_order(a: Seq<u8>, b: Seq<u8>, c: Seq<u8>)
    ensures
        !bytes_lt(a, a),
        a != b ==> bytes_lt(a, b) || bytes_lt(b, a),
        !(bytes_lt(a, b) && bytes_lt(b, a)),
        bytes_lt(a, b) && bytes_lt(b, c) ==> bytes_lt(a, c),
    decreases a.len(),
{
    if a.len() > 0 && b.len() > 0 && c.len() > 0 {
        lemma_bytes_order(a.drop_first(), b.drop_first(), c.drop_first());
    } else if a.len() > 0 && b.len() > 0 {
        lemma_bytes_order(a.drop_first(), b.drop_first(), b.drop_first());
    } else if a.len() > 0 {
        lemma_bytes_order(a.drop_first(), a.drop_first(), a.drop_first());
    }
    if a.len() > 0 && b.len() > 0 && a[0] == b[0] && a.drop_first() == b.drop_first() {
        assert(a =~= seq![a[0]] + a.drop_first());
        assert(b =~= seq![b[0]] + b.drop_first());
    }
    if a.len() == 0 && b.len() == 0 {
        assert(a =~= b);
    }
}

proof fn lemma_part_order(x: (u8, Seq<u8>), y: (u8, Seq<u8>), z: (u8, Seq<u8>))
    ensures
        !part_lt(x, x),
        x != y ==> part_lt(x, y) || part_lt(y, x),
        !(part_lt(x, y) && part_lt(y, x)),
        part_lt(x, y) && part_lt(y, z) ==> part_lt(x, z),
{
    lemma_bytes_order(x.1, y.1, z.1);
    lemma_bytes_order(x.1, x.1, x.1);
}

/// The path order is a strict total order.
pub proof fn lemma_path_order(a: Seq<(u8, Seq<u8>)>, b: Seq<(u8, Seq<u8>)>, c: Seq<(u8, Seq<u8>)>)
    ensures
        !path_lt(a, a),
        a != b ==> path_lt(a, b) || path_lt(b, a),
        !(path_lt(a, b) && path_lt(b, a)),
        path_lt(a, b) && path_lt(b, c) ==> path_lt(a, c),
    decreases a.len(),
{
    if a.len() > 0 {
        lemma_part_order(a[0], a[0], a[0]);
    }
    if a.len() > 0 && b.len() > 0 && c.len() > 0 {
        lemma_path_order(a.drop_first(), b.drop_first(), c.drop_first());
        lemma_part_order(a[0], b[0], c[0]);
    } else if a.len() > 0 && b.len() > 0 {
        lemma_path_order(a.drop_first(), b.drop_first(), b.drop_first());
        lemma_part_order(a[0], b[0], b[0]);
    } else if a.len() > 0 {
        lemma_path_order(a.drop_first(), a.drop_first(), a.drop_first());
    }
    if a.len() > 0 && b.len() > 0 && a[0] == b[0] && a.drop_first() == b.drop_first() {
        assert(a =~= seq![a[0]] + a.drop_first());
        assert(b =~= seq![b[0]] + b.drop_first());
    }
    if a.len() == 0 && b.len() == 0 {
        assert(a =~= b);
    }
}

/// Whether byte string `a` is before `b`.
fn bytes_less(a: &Vec<u8>, b: &Vec<u8>) -> (r: bool)
    ensures
        r == bytes_lt(a@, b@),
{
    let mut i: usize = 0;
    assert(a@.skip(0) =~= a@);
    assert(b@.skip(0) =~= b@);
    while i < a.len() && i < b.len() && a[i] == b[i]
        invariant
            0 <= i <= a@.len(),
            i <= b@.len(),
            bytes_lt(a@, b@) == bytes_lt(a@.skip(i as int), b@.skip(i as int)),
        decreases a@.len() - i,
    {
        assert(a@.skip(i as int).drop_first() =~= a@.skip(i + 1));
        assert(b@.skip(i as int).drop_first() =~= b@.skip(i + 1));
        i = i + 1;
    }
    if i == a.len() {
        i < b.len()
    } else if i == b.len() {
        false
    } else {
        assert(a@.skip(i as int)[0] == a@[i as int]);
        assert(b@.skip(i as int)[0] == b@[i as int]);
        a[i] < b[i]
    }
}

/// Whether two byte strings are equal.
fn bytes_equal(a: &Vec<u8>, b: &Vec<u8>) -> (r: bool)
    ensures
        r == (a@ == b@),
{
    if a.len() != b.len() {
        return false;
    }
    let mut i: usize = 0;
    while i < a.len()
        invariant
            a@.len() == b@.len(),
            0 <= i <= a@.len(),
            forall|j: int| 0 <= j < i ==> a@[j] == b@[j],
        decreases a@.len() - i,
    {
        if a[i] != b[i] {
            return false;
        }
        i = i + 1;
    }
    assert(a@ =~= b@);
    true
}

/// Compares two paths: -1 when `a` is before `b`, 0 when they are equal, 1 after.
fn path_compare(a: &Vec<PathPart>, b: &Vec<PathPart>) -> (r: i8)
    ensures
        r == -1 <==> path_lt(path_view(*a), path_view(*b)),
        r == 0 <==> path_view(*a) == path_view(*b),
        r == 1 <==> path_lt(path_view(*b), path_view(*a)),
{
    let ghost pa = path_view(*a);
    let ghost pb = path_view(*b);
    let mut i: usize = 0;
    assert(pa.skip(0) =~= pa);
    assert(pb.skip(0) =~= pb);
    loop
        invariant
            0 <= i <= a@.len(),
            i <= b@.len(),
            pa == path_view(*a),
            pb == path_view(*b),
            forall|j: int| 0 <= j < i ==> pa[j] == pb[j],
            path_lt(pa, pb) == path_lt(pa.skip(i as int), pb.skip(i as int)),
            path_lt(pb, pa) == path_lt(pb.skip(i as int), pa.skip(i as int)),
        decreases a@.len() - i,
    {
        if i == a.len() || i == b.len() {
            proof {
                lemma_path_order(pa, pb, pa);
            }
            if i == a.len() && i == b.len() {
                assert(pa =~= pb);
                return 0;
            } else if i == a.len() {
                return -1;
            } else {
                return 1;
            }
        }
        let x = &a[i];
        let y = &b[i];
        assert(pa[i as int] == part_view(*x));
        assert(pb[i as int] == part_view(*y));
        assert(pa.skip(i as int)[0] == pa[i as int]);
        assert(pb.skip(i as int)[0] == pb[i as int]);
        if x.kind != y.kind || !bytes_equal(&x.bytes, &y.bytes) {
            proof {
                lemma_path_order(pa, pb, pa);
                lemma_part_order(part_view(*x), part_view(*y), part_view(*x));
            }
            if x.kind < y.kind || (x.kind == y.kind && bytes_less(&x.bytes, &y.bytes)) {
                return -1;
            } else {
                return 1;
            }
        }
        assert(pa.skip(i as int).drop_first() =~= pa.skip(i + 1));
        assert(pb.skip(i as int).drop_first() =~= pb.skip(i + 1));
        i = i + 1;
    }
}

/// The first position in `out` whose path is not before the path of `i`.
fn insertion_point(out: &Vec<usize>, paths: &Vec<Vec<PathPart>>, i: usize) -> (k: usize)
    requires
        i < paths@.len(),
        forall|j: int| 0 <= j < out@.len() ==> #[trigger] out@[j] < paths@.len(),
    ensures
        k <= out@.len(),
        forall|m: int|
            0 <= m < k ==> path_lt(
                path_view(paths@[#[trigger] out@[m] as int]),
                path_view(paths@[i as int]),
            ),
        k < out@.len() ==> !path_lt(
            path_view(paths@[out@[k as int] as int]),
            path_view(paths@[i as int]),
        ),
{
    let mut k: usize = 0;
    while k < out.len() && path_compare(&paths[out[k]], &paths[i]) == -1
        invariant
            0 <= k <= out@.len(),
            i < paths@.len(),
            forall|j: int| 0 <= j < out@.len() ==> #[trigger] out@[j] < paths@.len(),
            forall|m: int|
                0 <= m < k ==> path_lt(
                    path_view(paths@[#[trigger] out@[m] as int]),
                    path_view(paths@[i as int]),
                ),
        decreases out@.len() - k,
    {
        k = k + 1;
    }
    k
}

/// The manifest files among candidate files, in path order without
/// repeated paths, as indices into the candidates.
///
/// `names[i]` is the file name of candidate `i` and `paths[i]` its path.
/// Every index returned names a manifest file; the paths of the indices
/// returned are strictly increasing; every manifest candidate has its path
/// among them.
pub fn select_manifest_files(names: &Vec<String>, paths: &Vec<Vec<PathPart>>) -> (r: Vec<usize>)
    requires
        names@.len() == paths@.len(),
    ensures
        forall|j: int|
            0 <= j < r@.len() ==> #[trigger] r@[j] < names@.len() && manifest_file_name(
                names@[r@[j] as int]@,
            ),
        forall|j: int, k: int|
            0 <= j < k < r@.len() ==> path_lt(
                path_view(paths@[#[trigger] r@[j] as int]),
                path_view(paths@[#[trigger] r@[k] as int]),
            ),
        forall|i: int|
            0 <= i < names@.len() && manifest_file_name(#[trigger] names@[i]@) ==> exists|j: int|
                0 <= j < r@.len() && path_view(paths@[#[trigger] r@[j] as int]) == path_view(
                    paths@[i],
                ),
{
    let mut out: Vec<usize> = Vec::new();
    let mut i: usize = 0;
    while i < names.len()
        invariant
            0 <= i <= names@.len(),
            names@.len() == paths@.len(),
            forall|j: int|
                0 <= j < out@.len() ==> #[trigger] out@[j] < names@.len() && manifest_file_name(
                    names@[out@[j] as int]@,
                ),
            forall|j: int, k: int|
                0 <= j < k < out@.len() ==> path_lt(
                    path_view(paths@[#[trigger] out@[j] as int]),
                    path_view(paths@[#[trigger] out@[k] as int]),
                ),
            forall|m: int|
                0 <= m < i && manifest_file_name(#[trigger] names@[m]@) ==> exists|j: int|
                    0 <= j < out@.len() && path_view(paths@[#[trigger] out@[j] as int])
                        == path_view(paths@[m]),
        decreases names@.len() - i,
    {
        if is_manifest_file_name(names[i].as_str()) {
            let ghost key = path_view(paths@[i as int]);
            let k = insertion_point(&out, paths, i);
            let dup = k < out.len() && path_compare(&paths[out[k]], &paths[i]) == 0;
            if !dup {
                let ghost old_out = out@;
                proof {
                    assert forall|m: int| k <= m < old_out.len() implies path_lt(
                        key,
                        path_view(paths@[#[trigger] old_out[m] as int]),
                    ) by {
                        let pk = path_view(paths@[old_out[k as int] as int]);
                        let pm = path_view(paths@[old_out[m] as int]);
                        lemma_path_order(pk, key, pk);
                        if m > k {
                            assert(path_lt(pk, pm));
                            lemma_path_order(key, pk, pm);
                        }
                    }
                }
                out.insert(k, i);
                proof {
                    assert(forall|a: int| 0 <= a < k ==> out@[a] == old_out[a]);
                    assert(out@[k as int] == i);
                    assert(forall|a: int| k < a < out@.len() ==> out@[a] == old_out[a - 1]);
                    assert forall|a: int, b: int| 0 <= a < b < out@.len() implies path_lt(
                        path_view(paths@[#[trigger] out@[a] as int]),
                        path_view(paths@[#[trigger] out@[b] as int]),
                    ) by {
                        if a == k {
                            assert(out@[b] == old_out[b - 1]);
                        } else if b == k {
                            assert(out@[a] == old_out[a]);
                        } else {
                            let a2 = if a < k { a } else { a - 1 };
                            let b2 = if b < k { b } else { b - 1 };
                            assert(out@[a] == old_out[a2]);
                            assert(out@[b] == old_out[b2]);
                            assert(a2 < b2);
                        }
                    }
                    assert forall|j: int| 0 <= j < out@.len() implies #[trigger] out@[j] < names@.len()
                        && manifest_file_name(names@[out@[j] as int]@) by {
                        if j < k {
                            assert(out@[j] == old_out[j]);
                        } else if j > k {
                            assert(out@[j] == old_out[j - 1]);
                        }
                    }
                    assert forall|m: int|
                        0 <= m < i + 1 && manifest_file_name(#[trigger] names@[m]@) implies exists|j: int|
                        0 <= j < out@.len() && path_view(paths@[#[trigger] out@[j] as int])
                            == path_view(paths@[m]) by {
                        if m == i {
                            assert(path_view(paths@[out@[k as int] as int]) == path_view(paths@[m]));
                        } else {
                            let j0 = choose|j: int|
                                0 <= j < old_out.len() && path_view(paths@[#[trigger] old_out[j] as int])
                                    == path_view(paths@[m]);
                            if j0 < k {
                                assert(out@[j0] == old_out[j0]);
                                assert(path_view(paths@[out@[j0] as int]) == path_view(paths@[m]));
                            } else {
                                assert(out@[j0 + 1] == old_out[j0]);
                                assert(path_view(paths@[out@[j0 + 1] as int]) == path_view(
                                    paths@[m],
                                ));
                            }
                        }
                    }
                }
            } else {
                proof {
                    assert(path_view(paths@[out@[k as int] as int]) == path_view(paths@[i as int]));
                }
            }
        }
        i = i + 1;
    }
    out
}
} // verus!
