//! Paths with `/` between their components: the name at the end, its extension, and
//! whether a path lies below a folder.

use crate::text::{chars_of, same};
use vstd::prelude::*;
use vstd::string::*;

verus! {

/// Where the last component of `p` starts: behind its last `/`.
pub open spec fn last_start(p: Seq<char>) -> int
    decreases p.len(),
{
    if p.len() == 0 || p.last() == '/' {
        p.len() as int
    } else {
        last_start(p.drop_last())
    }
}

/// The start of the last component lies within the path.
pub proof fn lemma_last_start(p: Seq<char>)
    ensures
        0 <= last_start(p) <= p.len(),
        last_start(p) > 0 ==> p[last_start(p) - 1] == '/',
        forall|i: int| last_start(p) <= i < p.len() ==> p[i] != '/',
    decreases p.len(),
{
    if p.len() > 0 && p.last() != '/' {
        lemma_last_start(p.drop_last());
        let k = last_start(p);
        assert forall|i: int| k <= i < p.len() implies p[i] != '/' by {
            if i < p.len() - 1 {
                assert(p.drop_last()[i] == p[i]);
            }
        }
    }
}

/// The name that a path ends in. Empty components and `.` are passed over; a path that
/// ends in `..` has no name.
pub open spec fn base_name(p: Seq<char>) -> Option<Seq<char>>
    decreases p.len(),
{
    proof {
        lemma_last_start(p);
    }
    let k = last_start(p);
    let part = p.skip(k);
    if part.len() == 0 || part == "."@ {
        if 0 < k <= p.len() {
            base_name(p.take(k - 1))
        } else {
            None
        }
    } else if part == ".."@ {
        None
    } else {
        Some(part)
    }
}

/// The name that the path `p` ends in.
pub fn file_name(p: &str) -> (r: Option<String>)
    ensures
        match r {
            Some(n) => base_name(p@) == Some(n@),
            None => base_name(p@) is None,
        },
{
    let v = chars_of(p);
    let mut end: usize = v.len();
    assert(p@.take(end as int) =~= p@);
    loop
        invariant
            v@ == p@,
            end <= v@.len(),
            base_name(p@) == base_name(p@.take(end as int)),
        decreases end,
    {
        let ghost q = p@.take(end as int);
        let mut k: usize = end;
        assert(q.take(k as int) =~= q);
        while k > 0 && v[k - 1] != '/'
            invariant
                v@ == p@,
                k <= end <= v@.len(),
                q == p@.take(end as int),
                last_start(q) == last_start(q.take(k as int)),
            decreases k,
        {
            assert(q.take(k as int).drop_last() =~= q.take(k - 1));
            assert(q.take(k as int).last() == v@[k - 1]);
            k = k - 1;
        }
        assert(k > 0 ==> q.take(k as int).last() == v@[k - 1]);
        assert(last_start(q) == k);
        let part = p.substring_char(k, end);
        assert(part@ =~= q.skip(k as int));
        if part.is_empty() || same(part, ".") {
            if k == 0 {
                return None;
            }
            assert(q.take(k - 1) =~= p@.take(k - 1));
            end = k - 1;
        } else if same(part, "..") {
            return None;
        } else {
            return Some(part.to_owned());
        }
    }
}

/// Where the last `.` of `n` stands, or -1.
pub open spec fn last_dot(n: Seq<char>) -> int
    decreases n.len(),
{
    if n.len() == 0 {
        -1
    } else if n.last() == '.' {
        n.len() - 1
    } else {
        last_dot(n.drop_last())
    }
}

/// A `.` stands where the last one is said to stand.
pub proof fn lemma_last_dot(n: Seq<char>)
    ensures
        -1 <= last_dot(n) < n.len(),
        last_dot(n) >= 0 ==> n[last_dot(n)] == '.',
    decreases n.len(),
{
    if n.len() > 0 && n.last() != '.' {
        lemma_last_dot(n.drop_last());
    }
}

/// What follows the last `.` of the name, unless that `.` begins the name.
pub open spec fn name_extension(n: Seq<char>) -> Option<Seq<char>> {
    if last_dot(n) > 0 {
        Some(n.skip(last_dot(n) + 1))
    } else {
        None
    }
}

/// The extension of the name that the path ends in.
pub open spec fn path_extension(p: Seq<char>) -> Option<Seq<char>> {
    match base_name(p) {
        Some(n) => name_extension(n),
        None => None,
    }
}

/// The extension of the name that the path `p` ends in.
pub fn extension(p: &str) -> (r: Option<String>)
    ensures
        match r {
            Some(e) => path_extension(p@) == Some(e@),
            None => path_extension(p@) is None,
        },
{
    let name = match file_name(p) {
        Some(n) => n,
        None => {
            return None;
        },
    };
    let v = chars_of(name.as_str());
    let mut k: usize = v.len();
    assert(name@.take(k as int) =~= name@);
    while k > 0 && v[k - 1] != '.'
        invariant
            v@ == name@,
            k <= v@.len(),
            last_dot(name@) == last_dot(name@.take(k as int)),
        decreases k,
    {
        assert(name@.take(k as int).drop_last() =~= name@.take(k - 1));
        assert(name@.take(k as int).last() == v@[k - 1]);
        k = k - 1;
    }
    assert(k > 0 ==> name@.take(k as int).last() == v@[k - 1]);
    assert(last_dot(name@) == k - 1);
    if k > 1 {
        let e = name.as_str().substring_char(k, v.len());
        assert(e@ =~= name@.skip(k as int));
        Some(e.to_owned())
    } else {
        None
    }
}

/// A path cut at each `/`: the finished pieces, and the piece behind the last `/`.
pub open spec fn cut_path(p: Seq<u8>) -> (Seq<Seq<u8>>, Seq<u8>)
    decreases p.len(),
{
    if p.len() == 0 {
        (Seq::empty(), Seq::empty())
    } else {
        let (done, open) = cut_path(p.drop_last());
        if p.last() == 0x2F {
            (done.push(open), Seq::empty())
        } else {
            (done, open.push(p.last()))
        }
    }
}

/// All pieces of a path.
pub open spec fn pieces(p: Seq<u8>) -> Seq<Seq<u8>> {
    cut_path(p).0.push(cut_path(p).1)
}

/// A piece that names a component: not empty, not `.`.
pub open spec fn is_component(piece: Seq<u8>) -> bool {
    piece.len() > 0 && piece != seq![0x2Eu8]
}

/// What a path starts at: the root, the current folder when it says so, or nothing.
pub open spec fn path_anchor(p: Seq<u8>) -> Seq<Seq<u8>> {
    if p.len() > 0 && p[0] == 0x2F {
        seq![seq![0x2Fu8]]
    } else if pieces(p)[0] == seq![0x2Eu8] {
        seq![seq![0x2Eu8]]
    } else {
        Seq::empty()
    }
}

/// The components of a path, its anchor first.
pub open spec fn components(p: Seq<u8>) -> Seq<Seq<u8>> {
    path_anchor(p) + pieces(p).filter(|x: Seq<u8>| is_component(x))
}

/// `p` is the folder `root` or lies below it: its components begin with those of `root`.
pub open spec fn lies_within(p: Seq<u8>, root: Seq<u8>) -> bool {
    components(root).is_prefix_of(components(p))
}

/// The views of some byte strings.
pub open spec fn byte_views(v: Seq<Vec<u8>>) -> Seq<Seq<u8>> {
    v.map_values(|x: Vec<u8>| x@)
}

/// Whether the two byte strings are the same.
fn same_bytes(a: &[u8], b: &[u8]) -> (r: bool)
    ensures
        r == (a@ == b@),
{
    if a.len() != b.len() {
        return false;
    }
    for i in 0..a.len()
        invariant
            a@.len() == b@.len(),
            forall|j: int| 0 <= j < i ==> a@[j] == b@[j],
    {
        if a[i] != b[i] {
            return false;
        }
    }
    assert(a@ =~= b@);
    true
}

/// All pieces of `p`.
fn cut(p: &[u8]) -> (r: Vec<Vec<u8>>)
    ensures
        byte_views(r@) == pieces(p@),
{
    let mut done: Vec<Vec<u8>> = Vec::new();
    let mut open: Vec<u8> = Vec::new();
    assert(byte_views(done@) =~= Seq::<Seq<u8>>::empty());
    for i in 0..p.len()
        invariant
            (byte_views(done@), open@) == cut_path(p@.take(i as int)),
    {
        let ghost before = done@;
        assert(p@.take(i + 1).drop_last() =~= p@.take(i as int));
        let b = p[i];
        if b == 0x2F {
            let ghost piece = open@;
            done.push(open);
            open = Vec::new();
            assert(byte_views(done@) =~= byte_views(before).push(piece));
            assert(open@ =~= Seq::<u8>::empty());
        } else {
            open.push(b);
        }
    }
    assert(p@.take(p@.len() as int) =~= p@);
    let ghost before = done@;
    let ghost piece = open@;
    done.push(open);
    assert(byte_views(done@) =~= byte_views(before).push(piece));
    done
}

/// The components of `p`.
fn component_list(p: &[u8]) -> (r: Vec<Vec<u8>>)
    ensures
        byte_views(r@) == components(p@),
{
    let all = cut(p);
    let mut r: Vec<Vec<u8>> = Vec::new();
    assert(byte_views(r@) =~= Seq::<Seq<u8>>::empty());
    assert(byte_views(all@).len() == all@.len());
    assert(byte_views(all@)[0] == all@[0]@);
    let dot: [u8; 1] = [0x2E];
    assert(dot@ =~= seq![0x2Eu8]);
    if p.len() > 0 && p[0] == 0x2F {
        let mut root: Vec<u8> = Vec::new();
        root.push(0x2F);
        assert(root@ =~= seq![0x2Fu8]);
        r.push(root);
        assert(byte_views(r@) =~= seq![seq![0x2Fu8]]);
    } else if same_bytes(all[0].as_slice(), &dot) {
        let mut here: Vec<u8> = Vec::new();
        here.push(0x2E);
        assert(here@ =~= seq![0x2Eu8]);
        r.push(here);
        assert(byte_views(r@) =~= seq![seq![0x2Eu8]]);
    }
    let ghost anchor = path_anchor(p@);
    let ghost named = |x: Seq<u8>| is_component(x);
    assert(byte_views(r@) == anchor);
    assert(byte_views(all@).take(0).filter(named) =~= Seq::<Seq<u8>>::empty()) by {
        reveal(Seq::filter);
    }
    assert(anchor + byte_views(all@).take(0).filter(named) =~= anchor);
    for i in 0..all.len()
        invariant
            dot@ == seq![0x2Eu8],
            named == |x: Seq<u8>| is_component(x),
            byte_views(r@) == anchor + byte_views(all@).take(i as int).filter(named),
    {
        let ghost before = r@;
        let ghost head = byte_views(all@).take(i as int);
        let piece = &all[i];
        assert(byte_views(all@)[i as int] == piece@);
        assert(byte_views(all@).take(i + 1) =~= head.push(piece@));
        assert(head.push(piece@).filter(named) == if named(piece@) {
            head.filter(named).push(piece@)
        } else {
            head.filter(named)
        }) by {
            reveal(Seq::filter);
            assert(head.push(piece@).drop_last() =~= head);
        }
        if piece.len() > 0 && !same_bytes(piece.as_slice(), &dot) {
            let copy = piece.clone();
            assert(copy@ =~= piece@);
            r.push(copy);
            assert(byte_views(r@) =~= byte_views(before).push(piece@));
            assert((anchor + head.filter(named)).push(piece@) =~= anchor + head.filter(named).push(
                piece@,
            ));
        }
    }
    assert(byte_views(all@).take(all@.len() as int) =~= byte_views(all@));
    r
}

/// Whether `p` is the folder `root` or lies below it.
pub fn is_within(p: &[u8], root: &[u8]) -> (r: bool)
    ensures
        r == lies_within(p@, root@),
{
    let a = component_list(p);
    let b = component_list(root);
    assert(byte_views(a@).len() == a@.len());
    assert(byte_views(b@).len() == b@.len());
    if b.len() > a.len() {
        return false;
    }
    for i in 0..b.len()
        invariant
            byte_views(a@) == components(p@),
            byte_views(b@) == components(root@),
            b@.len() <= a@.len(),
            forall|j: int| 0 <= j < i ==> byte_views(b@)[j] == byte_views(a@)[j],
    {
        if !same_bytes(b[i].as_slice(), a[i].as_slice()) {
            assert(byte_views(b@)[i as int] == b@[i as int]@);
            assert(byte_views(a@)[i as int] == a@[i as int]@);
            assert(components(p@).subrange(0, b@.len() as int)[i as int] != components(root@)[i as int]);
            return false;
        }
        assert(byte_views(b@)[i as int] == b@[i as int]@);
        assert(byte_views(a@)[i as int] == a@[i as int]@);
    }
    assert(components(p@).subrange(0, b@.len() as int) =~= components(root@));
    true
}

/// Lying within is transitive: what lies below a folder lies below every folder above it.
pub proof fn law_within_is_transitive(p: Seq<u8>, q: Seq<u8>, r: Seq<u8>)
    requires
        lies_within(p, q),
        lies_within(q, r),
    ensures
        lies_within(p, r),
{
    let a = components(p);
    let b = components(q);
    let c = components(r);
    assert(b =~= a.subrange(0, b.len() as int));
    assert(c =~= b.subrange(0, c.len() as int));
    assert(c =~= a.subrange(0, c.len() as int));
}

} // verus!
