//! Unix paths as raw bytes: their components, their equality and parents as
//! `std::path::Path` defines them, and the "distance" between two paths that
//! the scanner uses to judge how scattered a process's writes are.
use vstd::prelude::*;

verus! {

/// The byte `/`.
pub const SEPARATOR: u8 = 0x2f;

/// The byte `.`.
pub const DOT: u8 = 0x2e;

/// A path as `std::path::Path` compares it on Unix: whether it starts at the
/// root, and its components (a leading `.` of a relative path stands as the
/// component `.`).
pub struct PathView {
    pub absolute: bool,
    pub components: Seq<Seq<u8>>,
}

/// The component a segment between separators contributes: none for an empty
/// segment, none for `.` unless it is the first segment, else the segment.
pub open spec fn kept_segment(seg: Seq<u8>, first: bool) -> Seq<Seq<u8>> {
    if seg.len() == 0 || (!first && seg == seq![DOT]) {
        Seq::empty()
    } else {
        seq![seg]
    }
}

/// The components of `s[start..]`, where the segment being read began at
/// `start`, the scan has reached `idx`, and `first` tells whether that
/// segment is the first one of the path.
pub open spec fn components_from(s: Seq<u8>, start: nat, idx: nat, first: bool) -> Seq<Seq<u8>>
    decreases s.len() - idx,
{
    if idx >= s.len() {
        kept_segment(s.subrange(start as int, s.len() as int), first)
    } else if s[idx as int] == SEPARATOR {
        kept_segment(s.subrange(start as int, idx as int), first) + components_from(
            s,
            idx + 1,
            idx + 1,
            false,
        )
    } else {
        components_from(s, start, idx + 1, first)
    }
}

/// The components of the path `s`.
pub open spec fn components(s: Seq<u8>) -> Seq<Seq<u8>> {
    components_from(s, 0, 0, true)
}

/// The path `s` as `Path` compares it.
pub open spec fn path_view(s: Seq<u8>) -> PathView {
    PathView { absolute: s.len() > 0 && s[0] == SEPARATOR, components: components(s) }
}

/// `Path::parent`: the path without its last component, if it has one.
pub open spec fn parent(p: PathView) -> Option<PathView> {
    if p.components.len() > 0 {
        Some(PathView { absolute: p.absolute, components: p.components.drop_last() })
    } else {
        None
    }
}

/// How close two paths are to each other.
#[derive(Clone, Copy, PartialEq, Eq, Debug, Structural)]
pub enum Distance {
    Zero,
    SameDir,
    NeigbourDirs,
    Far,
}

/// The inputs on which `distance` returns: equal paths, or two paths that
/// both have a parent and whose parents are not two different roots (`/`
/// beside the empty relative path), whose parents would be compared again.
pub open spec fn distance_defined(p1: PathView, p2: PathView) -> bool {
    p1 == p2 || {
        &&& p1.components.len() > 0
        &&& p2.components.len() > 0
        &&& !(p1.components.len() == 1 && p2.components.len() == 1 && p1.absolute
            != p2.absolute)
    }
}

/// The distance between two paths: `Zero` for the same path, `SameDir` for
/// the same parent, `NeigbourDirs` when the parents share a parent or one
/// parent is the other's parent, else `Far`.
pub open spec fn spec_distance(p1: PathView, p2: PathView) -> Distance {
    if p1 == p2 {
        Distance::Zero
    } else {
        let q1 = parent(p1).unwrap();
        let q2 = parent(p2).unwrap();
        if q1 == q2 {
            Distance::SameDir
        } else {
            match (parent(q1), parent(q2)) {
                (Some(g1), Some(g2)) => if g1 == g2 {
                    Distance::NeigbourDirs
                } else {
                    Distance::Far
                },
                (Some(g1), None) => if g1 == q2 {
                    Distance::NeigbourDirs
                } else {
                    Distance::Far
                },
                (None, Some(g2)) => if q1 == g2 {
                    Distance::NeigbourDirs
                } else {
                    Distance::Far
                },
                (None, None) => Distance::Far,
            }
        }
    }
}

/// The byte strings held by a vector of byte vectors.
pub open spec fn byte_strings(v: Seq<Vec<u8>>) -> Seq<Seq<u8>> {
    v.map_values(|x: Vec<u8>| x@)
}

/// A copy of `s[start..end]`.
fn copy_range(s: &[u8], start: usize, end: usize) -> (r: Vec<u8>)
    requires
        start <= end <= s@.len(),
    ensures
        r@ == s@.subrange(start as int, end as int),
{
    let mut r: Vec<u8> = Vec::new();
    let mut i = start;
    while i < end
        invariant
            start <= i <= end <= s@.len(),
            r@ == s@.subrange(start as int, i as int),
        decreases end - i,
    {
        r.push(s[i]);
        i = i + 1;
        proof {
            assert(r@ =~= s@.subrange(start as int, i as int));
        }
    }
    r
}

fn is_single_dot(s: &[u8], start: usize, end: usize) -> (b: bool)
    requires
        start <= end <= s@.len(),
    ensures
        b == (s@.subrange(start as int, end as int) == seq![DOT]),
{
    if end - start == 1 && s[start] == DOT {
        assert(s@.subrange(start as int, end as int) =~= seq![DOT]);
        true
    } else {
        assert(seq![DOT].len() == 1);
        if end - start == 1 {
            assert(s@.subrange(start as int, end as int)[0] == s@[start as int]);
        }
        false
    }
}

/// The components of the path whose bytes are `s`, as `Path::components`
/// yields them on Unix (the root itself is not among them).
pub fn path_components(s: &[u8]) -> (c: Vec<Vec<u8>>)
    ensures
        byte_strings(c@) == components(s@),
{
    let len = s.len();
    let mut comps: Vec<Vec<u8>> = Vec::new();
    let mut start: usize = 0;
    let mut first = true;
    let mut i: usize = 0;
    while i < len
        invariant
            len == s@.len(),
            start <= i <= len,
            components(s@) == byte_strings(comps@) + components_from(
                s@,
                start as nat,
                i as nat,
                first,
            ),
        decreases len - i,
    {
        if s[i] == SEPARATOR {
            let ghost before = byte_strings(comps@);
            let seg_is_dot = is_single_dot(s, start, i);
            if i > start && (first || !seg_is_dot) {
                let seg = copy_range(s, start, i);
                comps.push(seg);
                proof {
                    assert(byte_strings(comps@) =~= before + kept_segment(
                        s@.subrange(start as int, i as int),
                        first,
                    ));
                }
            } else {
                proof {
                    assert(kept_segment(s@.subrange(start as int, i as int), first) =~= Seq::<
                        Seq<u8>,
                    >::empty());
                    assert(byte_strings(comps@) =~= before + kept_segment(
                        s@.subrange(start as int, i as int),
                        first,
                    ));
                }
            }
            first = false;
            start = i + 1;
        }
        i = i + 1;
    }
    let ghost before = byte_strings(comps@);
    let seg_is_dot = is_single_dot(s, start, len);
    if len > start && (first || !seg_is_dot) {
        let seg = copy_range(s, start, len);
        comps.push(seg);
        proof {
            assert(byte_strings(comps@) =~= before + kept_segment(
                s@.subrange(start as int, len as int),
                first,
            ));
        }
    } else {
        proof {
            assert(kept_segment(s@.subrange(start as int, len as int), first) =~= Seq::<
                Seq<u8>,
            >::empty());
            assert(byte_strings(comps@) =~= before + kept_segment(
                s@.subrange(start as int, len as int),
                first,
            ));
        }
    }
    comps
}

/// Whether two byte strings are equal.
pub fn bytes_eq(a: &[u8], b: &[u8]) -> (r: bool)
    ensures
        r == (a@ == b@),
{
    if a.len() != b.len() {
        return false;
    }
    let mut i: usize = 0;
    while i < a.len()
        invariant
            a@.len() == b@.len(),
            i <= a@.len(),
            forall|j: int| 0 <= j < i ==> a@[j] == b@[j],
        decreases a@.len() - i,
    {
        if a[i] != b[i] {
            return false;
        }
        i = i + 1;
    }
    assert(a@ =~= b@);
    true
}

/// Whether the first `na` components of `a` are the first `nb` of `b`.
fn prefixes_eq(a: &Vec<Vec<u8>>, na: usize, b: &Vec<Vec<u8>>, nb: usize) -> (r: bool)
    requires
        na <= a@.len(),
        nb <= b@.len(),
    ensures
        r == (byte_strings(a@).take(na as int) == byte_strings(b@).take(nb as int)),
{
    let ghost sa = byte_strings(a@).take(na as int);
    let ghost sb = byte_strings(b@).take(nb as int);
    if na != nb {
        assert(sa.len() != sb.len());
        return false;
    }
    let mut i: usize = 0;
    while i < na
        invariant
            na == nb,
            na <= a@.len(),
            nb <= b@.len(),
            i <= na,
            sa == byte_strings(a@).take(na as int),
            sb == byte_strings(b@).take(nb as int),
            forall|j: int| 0 <= j < i ==> sa[j] == sb[j],
        decreases na - i,
    {
        if !bytes_eq(a[i].as_slice(), b[i].as_slice()) {
            assert(sa[i as int] != sb[i as int]);
            return false;
        }
        i = i + 1;
    }
    assert(sa =~= sb);
    true
}

/// A path broken into components, with its rootedness.
struct SplitPath {
    absolute: bool,
    comps: Vec<Vec<u8>>,
}

impl SplitPath {
    spec fn view_len(&self, n: nat) -> PathView {
        PathView { absolute: self.absolute, components: byte_strings(self.comps@).take(n as int) }
    }
}

fn split(s: &[u8]) -> (p: SplitPath)
    ensures
        p.view_len(p.comps@.len()) == path_view(s@),
{
    let absolute = s.len() > 0 && s[0] == SEPARATOR;
    let comps = path_components(s);
    let p = SplitPath { absolute, comps };
    assert(byte_strings(p.comps@).take(p.comps@.len() as int) =~= byte_strings(p.comps@));
    p
}

/// Whether the first `na` components of `a` and the first `nb` of `b` name the same path.
fn same_prefix_path(a: &SplitPath, na: usize, b: &SplitPath, nb: usize) -> (r: bool)
    requires
        na <= a.comps@.len(),
        nb <= b.comps@.len(),
    ensures
        r == (a.view_len(na as nat) == b.view_len(nb as nat)),
{
    a.absolute == b.absolute && prefixes_eq(&a.comps, na, &b.comps, nb)
}

/// Whether two paths are equal as `Path` compares them (component by component).
pub fn same_path(a: &[u8], b: &[u8]) -> (r: bool)
    ensures
        r == (path_view(a@) == path_view(b@)),
{
    let pa = split(a);
    let pb = split(b);
    same_prefix_path(&pa, pa.comps.len(), &pb, pb.comps.len())
}

/// Whether `distance` can be called on these paths.
pub fn distance_is_defined(path1: &[u8], path2: &[u8]) -> (r: bool)
    ensures
        r == distance_defined(path_view(path1@), path_view(path2@)),
{
    let p1 = split(path1);
    let p2 = split(path2);
    let n1 = p1.comps.len();
    let n2 = p2.comps.len();
    same_prefix_path(&p1, n1, &p2, n2) || (n1 > 0 && n2 > 0 && !(n1 == 1 && n2 == 1
        && p1.absolute != p2.absolute))
}

/// Find "distance" between two paths.
pub fn distance(path1: &[u8], path2: &[u8]) -> (d: Distance)
    requires
        distance_defined(path_view(path1@), path_view(path2@)),
    ensures
        d == spec_distance(path_view(path1@), path_view(path2@)),
{
    let p1 = split(path1);
    let p2 = split(path2);
    let n1 = p1.comps.len();
    let n2 = p2.comps.len();
    let ghost v1 = path_view(path1@);
    let ghost v2 = path_view(path2@);
    if same_prefix_path(&p1, n1, &p2, n2) {
        return Distance::Zero;
    }
    proof {
        assert(parent(v1).unwrap() == p1.view_len((n1 - 1) as nat)) by {
            assert(byte_strings(p1.comps@).take(n1 as int).drop_last() =~= byte_strings(
                p1.comps@,
            ).take(n1 - 1));
        }
        assert(parent(v2).unwrap() == p2.view_len((n2 - 1) as nat)) by {
            assert(byte_strings(p2.comps@).take(n2 as int).drop_last() =~= byte_strings(
                p2.comps@,
            ).take(n2 - 1));
        }
        if n1 >= 2 {
            assert(byte_strings(p1.comps@).take(n1 - 1).drop_last() =~= byte_strings(
                p1.comps@,
            ).take(n1 - 2));
        }
        if n2 >= 2 {
            assert(byte_strings(p2.comps@).take(n2 - 1).drop_last() =~= byte_strings(
                p2.comps@,
            ).take(n2 - 2));
        }
    }
    if same_prefix_path(&p1, n1 - 1, &p2, n2 - 1) {
        return Distance::SameDir;
    }
    if n1 >= 2 {
        if n2 >= 2 {
            if same_prefix_path(&p1, n1 - 2, &p2, n2 - 2) {
                return Distance::NeigbourDirs;
            }
        } else {
            if same_prefix_path(&p1, n1 - 2, &p2, n2 - 1) {
                return Distance::NeigbourDirs;
            }
        }
    } else {
        assert(n2 >= 2) by {
            if n2 < 2 {
                assert(byte_strings(p1.comps@).take(0) =~= byte_strings(p2.comps@).take(0));
            }
        }
        if same_prefix_path(&p1, n1 - 1, &p2, n2 - 2) {
            return Distance::NeigbourDirs;
        }
    }
    Distance::Far
}

/// The distance does not depend on the order of the two paths.
pub proof fn lemma_distance_symmetric(p1: PathView, p2: PathView)
    requires
        distance_defined(p1, p2),
    ensures
        distance_defined(p2, p1),
        spec_distance(p1, p2) == spec_distance(p2, p1),
{
}

/// Two paths are at distance `Zero` exactly when they are the same path.
pub proof fn lemma_distance_zero_iff_same(p1: PathView, p2: PathView)
    requires
        distance_defined(p1, p2),
    ensures
        (spec_distance(p1, p2) == Distance::Zero) <==> p1 == p2,
{
}

/// The distance by the components of the two paths, for paths that both
/// have a parent: the same path is `Zero`; different paths with the same
/// parent (same components but the last) are `SameDir`; otherwise they are
/// `NeigbourDirs` when their parents share a parent, or when one parent is
/// the root-less top and equals the other's parent; and `Far` in every other
/// case, whatever the number of components.
pub proof fn lemma_distance_by_components(p1: PathView, p2: PathView)
    requires
        p1.components.len() > 0,
        p2.components.len() > 0,
    ensures
        ({
            let c1 = p1.components;
            let c2 = p2.components;
            let same_root = p1.absolute == p2.absolute;
            spec_distance(p1, p2) == if p1 == p2 {
                Distance::Zero
            } else if same_root && c1.drop_last() == c2.drop_last() {
                Distance::SameDir
            } else if same_root && ((c1.len() >= 2 && c2.len() >= 2 && c1.drop_last().drop_last()
                == c2.drop_last().drop_last()) || (c1.len() >= 2 && c2.len() == 1
                && c1.drop_last().drop_last() == c2.drop_last()) || (c1.len() == 1 && c2.len()
                >= 2 && c1.drop_last() == c2.drop_last().drop_last())) {
                Distance::NeigbourDirs
            } else {
                Distance::Far
            }
        }),
{
    let c1 = p1.components;
    let c2 = p2.components;
    let q1 = parent(p1).unwrap();
    let q2 = parent(p2).unwrap();
    assert(q1.components == c1.drop_last());
    assert(q2.components == c2.drop_last());
    if c1.len() >= 2 {
        assert(parent(q1).unwrap().components == c1.drop_last().drop_last());
    }
    if c2.len() >= 2 {
        assert(parent(q2).unwrap().components == c2.drop_last().drop_last());
    }
}

} // verus!
