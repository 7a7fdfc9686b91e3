use vstd::prelude::*;
use crate::geom::FaceCorner;
use crate::geom::Mesh;
use crate::geom::MeshModel;
use crate::geom::Normal;
use crate::geom::OptIndex;
use crate::geom::Position;
use crate::geom::StorageMode;
use crate::geom::TexCoord;
use crate::geom::Text2;
use crate::geom::Text3;
use crate::geom::Triangle;
use crate::geom::copy_normal;
use crate::geom::copy_position;
use crate::geom::copy_tex;
use crate::geom::normal_views;
use crate::geom::position_views;
use crate::geom::tex_views;

verus! {

// ---------------------------------------------------------------------------
// Deduplication: the output vertices are the distinct corner triples in
// order of first occurrence, and each corner is replaced by the index of
// its triple in that list.
// ---------------------------------------------------------------------------

/// The distinct corner triples of `cs`, in order of first occurrence.
pub open spec fn distinct_corners(cs: Seq<FaceCorner>) -> Seq<FaceCorner>
    decreases cs.len(),
{
    if cs.len() == 0 {
        seq![]
    } else {
        let d = distinct_corners(cs.drop_last());
        if d.contains(cs.last()) {
            d
        } else {
            d.push(cs.last())
        }
    }
}

/// First index of `c` in `d`, or `d.len()` when `d` does not hold it.
pub open spec fn pos_in(d: Seq<FaceCorner>, c: FaceCorner) -> int
    decreases d.len(),
{
    if d.len() == 0 {
        0
    } else if d[0] == c {
        0
    } else {
        1 + pos_in(d.drop_first(), c)
    }
}

/// The output vertex index of every corner of `cs`.
pub open spec fn corner_ids(cs: Seq<FaceCorner>) -> Seq<int> {
    Seq::new(cs.len(), |k: int| pos_in(distinct_corners(cs), cs[k]))
}

pub proof fn lemma_pos_in_basic(d: Seq<FaceCorner>, c: FaceCorner)
    ensures
        d.contains(c) ==> 0 <= pos_in(d, c) < d.len() && d[pos_in(d, c)] == c && (forall|j: int|
            0 <= j < pos_in(d, c) ==> d[j] != c),
        !d.contains(c) ==> pos_in(d, c) == d.len(),
    decreases d.len(),
{
    if d.len() > 0 && d[0] != c {
        let r = d.drop_first();
        lemma_pos_in_basic(r, c);
        assert(forall|j: int| 0 <= j < r.len() ==> r[j] == d[j + 1]);
        if d.contains(c) {
            let w = choose|w: int| 0 <= w < d.len() && d[w] == c;
            assert(r[w - 1] == c);
            assert(r.contains(c));
            assert(d[pos_in(d, c)] == r[pos_in(r, c)]);
            assert(forall|j: int| 1 <= j < pos_in(d, c) ==> d[j] == r[j - 1]);
        } else {
            assert(!r.contains(c)) by {
                if r.contains(c) {
                    let w = choose|w: int| 0 <= w < r.len() && r[w] == c;
                    assert(d[w + 1] == c);
                }
            }
        }
    }
}

pub proof fn lemma_pos_in_push(d: Seq<FaceCorner>, c: FaceCorner, x: FaceCorner)
    ensures
        d.contains(c) ==> pos_in(d.push(x), c) == pos_in(d, c),
        !d.contains(c) && x == c ==> pos_in(d.push(x), c) == d.len(),
        !d.contains(c) && x != c ==> pos_in(d.push(x), c) == d.len() + 1,
    decreases d.len(),
{
    if d.len() == 0 {
        assert(d.push(x)[0] == x);
        assert(d.push(x).drop_first() =~= Seq::<FaceCorner>::empty());
        assert(pos_in(Seq::<FaceCorner>::empty(), c) == 0);
        if x != c {
            assert(pos_in(d.push(x), c) == 1 + pos_in(d.push(x).drop_first(), c));
        }
    } else {
        assert(d.push(x)[0] == d[0]);
        if d[0] == c {
            assert(d.contains(c));
        } else {
            let r = d.drop_first();
            assert(d.push(x).drop_first() =~= r.push(x));
            lemma_pos_in_push(r, c, x);
            assert(pos_in(d.push(x), c) == 1 + pos_in(r.push(x), c));
            assert(pos_in(d, c) == 1 + pos_in(r, c));
            assert(forall|j: int| 0 <= j < r.len() ==> r[j] == d[j + 1]);
            if d.contains(c) {
                let w = choose|w: int| 0 <= w < d.len() && d[w] == c;
                assert(r[w - 1] == c);
                assert(r.contains(c));
            } else {
                assert(!r.contains(c)) by {
                    if r.contains(c) {
                        let w = choose|w: int| 0 <= w < r.len() && r[w] == c;
                        assert(d[w + 1] == c);
                    }
                }
            }
        }
    }
}

/// One parsing step of the distinct list.
pub proof fn lemma_distinct_take_step(cs: Seq<FaceCorner>, i: int)
    requires
        0 <= i < cs.len(),
    ensures
        distinct_corners(cs.take(i + 1)) == if distinct_corners(cs.take(i)).contains(cs[i]) {
            distinct_corners(cs.take(i))
        } else {
            distinct_corners(cs.take(i)).push(cs[i])
        },
{
    assert(cs.take(i + 1).drop_last() =~= cs.take(i));
    assert(cs.take(i + 1).last() == cs[i]);
}

/// Every corner's triple occurs in the distinct list, and the distinct list
/// holds nothing else.
pub proof fn lemma_distinct_contains(cs: Seq<FaceCorner>)
    ensures
        forall|c: FaceCorner| distinct_corners(cs).contains(c) <==> cs.contains(c),
        distinct_corners(cs).no_duplicates(),
        distinct_corners(cs).len() <= cs.len(),
    decreases cs.len(),
{
    if cs.len() > 0 {
        lemma_distinct_contains(cs.drop_last());
        let p = cs.drop_last();
        let d = distinct_corners(cs);
        let pd = distinct_corners(p);
        assert forall|c: FaceCorner| cs.contains(c) implies d.contains(c) by {
            let w = choose|w: int| 0 <= w < cs.len() && cs[w] == c;
            if w < cs.len() - 1 {
                assert(p[w] == c);
                assert(p.contains(c));
                assert(pd.contains(c));
                if d == pd.push(cs.last()) {
                    let w2 = choose|w2: int| 0 <= w2 < pd.len() && pd[w2] == c;
                    assert(d[w2] == c);
                }
            } else {
                if !pd.contains(cs.last()) {
                    assert(d[d.len() - 1] == cs.last());
                }
            }
        }
        assert forall|c: FaceCorner| d.contains(c) implies cs.contains(c) by {
            if pd.contains(c) {
                assert(p.contains(c));
                let w = choose|w: int| 0 <= w < p.len() && p[w] == c;
                assert(cs[w] == c);
            } else {
                assert(c == cs.last());
                assert(cs[cs.len() - 1] == c);
            }
        }
        assert(d.no_duplicates()) by {
            if !pd.contains(cs.last()) {
                assert(forall|j: int| 0 <= j < pd.len() ==> d[j] == pd[j]);
            }
        }
    }
}

// ---------------------------------------------------------------------------
// Laws of the deduplication.
// ---------------------------------------------------------------------------

/// Law: two corners with identical (position, texture, normal) index triples
/// always map to the same output vertex index.
pub proof fn lemma_dedup_idempotent(cs: Seq<FaceCorner>, i: int, j: int)
    requires
        0 <= i < cs.len(),
        0 <= j < cs.len(),
        cs[i] == cs[j],
    ensures
        corner_ids(cs)[i] == corner_ids(cs)[j],
{
}

/// Law: the output vertex count equals the count of distinct corner triples
/// observed in the input.
pub proof fn lemma_vertex_count_distinct(cs: Seq<FaceCorner>)
    ensures
        distinct_corners(cs).len() == cs.to_set().len(),
{
    lemma_distinct_contains(cs);
    let d = distinct_corners(cs);
    assert(d.to_set() =~= cs.to_set()) by {
        assert(forall|c: FaceCorner| d.to_set().contains(c) <==> d.contains(c));
        assert(forall|c: FaceCorner| cs.to_set().contains(c) <==> cs.contains(c));
    }
    d.unique_seq_to_set();
}

/// Law: every output vertex index assigned to a corner is strictly below the
/// output vertex count.
pub proof fn lemma_ids_in_range(cs: Seq<FaceCorner>)
    ensures
        forall|k: int|
            0 <= k < cs.len() ==> 0 <= #[trigger] corner_ids(cs)[k] < distinct_corners(cs).len(),
{
    lemma_distinct_contains(cs);
    assert forall|k: int|
        0 <= k < cs.len() implies 0 <= #[trigger] corner_ids(cs)[k] < distinct_corners(
        cs,
    ).len() by {
        assert(cs.contains(cs[k]));
        lemma_pos_in_basic(distinct_corners(cs), cs[k]);
    }
}

// ---------------------------------------------------------------------------
// The reformatting pass itself.
// ---------------------------------------------------------------------------

/// Mathematical result of [`reformat`]: the deduplicated vertex arrays, one
/// triangle per three corners, and the requested storage mode.
pub open spec fn reformat_model(
    ps: Seq<Text3>,
    ns: Option<Seq<Text3>>,
    ts: Option<Seq<Text2>>,
    cs: Seq<FaceCorner>,
    shared: bool,
) -> MeshModel {
    let d = distinct_corners(cs);
    let ids = corner_ids(cs);
    MeshModel {
        positions: d.map_values(|c: FaceCorner| ps[c.position as int]),
        triangles: Seq::new(
            (cs.len() as int / 3) as nat,
            |t: int|
                Triangle {
                    a: ids[3 * t] as usize,
                    b: ids[3 * t + 1] as usize,
                    c: ids[3 * t + 2] as usize,
                },
        ),
        normals: match ns {
            Some(n) => Some(d.map_values(|c: FaceCorner| n[c.normal.val()])),
            None => None,
        },
        tex_coords: match ts {
            Some(u) => Some(d.map_values(|c: FaceCorner| u[c.tex.val()])),
            None => None,
        },
        storage: if shared {
            StorageMode::Shared
        } else {
            StorageMode::Exclusive
        },
    }
}

/// Law: with a corner count that is a multiple of three, every corner lands
/// in exactly one triangle: three index entries per triangle, none dropped.
pub proof fn lemma_triangle_count(
    ps: Seq<Text3>,
    ns: Option<Seq<Text3>>,
    ts: Option<Seq<Text2>>,
    cs: Seq<FaceCorner>,
    shared: bool,
)
    requires
        cs.len() % 3 == 0,
    ensures
        reformat_model(ps, ns, ts, cs, shared).triangles.len() * 3 == cs.len(),
{
}

/// Law: every index stored in an output triangle is strictly below the
/// output vertex count.
pub proof fn lemma_triangles_in_range(
    ps: Seq<Text3>,
    ns: Option<Seq<Text3>>,
    ts: Option<Seq<Text2>>,
    cs: Seq<FaceCorner>,
    shared: bool,
)
    requires
        cs.len() % 3 == 0,
    ensures
        ({
            let m = reformat_model(ps, ns, ts, cs, shared);
            forall|t: int|
                0 <= t < m.triangles.len() ==> (#[trigger] m.triangles[t]).a < m.positions.len()
                    && m.triangles[t].b < m.positions.len() && m.triangles[t].c
                    < m.positions.len()
        }),
{
    lemma_ids_in_range(cs);
    let m = reformat_model(ps, ns, ts, cs, shared);
    assert forall|t: int|
        0 <= t < m.triangles.len() implies (#[trigger] m.triangles[t]).a < m.positions.len()
        && m.triangles[t].b < m.positions.len() && m.triangles[t].c < m.positions.len() by {
        assert(0 <= 3 * t && 3 * t + 2 < cs.len());
    }
}

/// Finds the first entry of `lookup` holding the triple `c`.
fn find_corner(lookup: &Vec<(FaceCorner, usize)>, c: FaceCorner) -> (r: Option<usize>)
    ensures
        match r {
            Some(ix) => ix < lookup@.len() && lookup@[ix as int].0 == c && (forall|j: int|
                0 <= j < ix ==> (#[trigger] lookup@[j]).0 != c),
            None => forall|j: int| 0 <= j < lookup@.len() ==> (#[trigger] lookup@[j]).0 != c,
        },
{
    let mut j: usize = 0;
    while j < lookup.len()
        invariant
            0 <= j <= lookup@.len(),
            forall|k: int| 0 <= k < j ==> (#[trigger] lookup@[k]).0 != c,
        decreases lookup@.len() - j,
    {
        if lookup[j].0 == c {
            return Some(j);
        }
        j = j + 1;
    }
    None
}

/// Rebuilds the four parsed collections into a mesh: corners deduplicated by
/// their full index triple in order of first occurrence, one vertex per
/// distinct triple, one triangle per three corners.
#[verifier::loop_isolation(false)]
pub fn reformat(
    coords: Vec<Position>,
    normals: Option<Vec<Normal>>,
    uvs: Option<Vec<TexCoord>>,
    corners: Vec<FaceCorner>,
    shared: bool,
) -> (m: Mesh)
    requires
        corners@.len() % 3 == 0,
        forall|i: int|
            0 <= i < corners@.len() ==> (#[trigger] corners@[i]).position < coords@.len(),
        normals is Some ==> forall|i: int|
            0 <= i < corners@.len() ==> (#[trigger] corners@[i]).normal is Index
                && corners@[i].normal.val() < normals.unwrap()@.len(),
        uvs is Some ==> forall|i: int|
            0 <= i < corners@.len() ==> (#[trigger] corners@[i]).tex is Index
                && corners@[i].tex.val() < uvs.unwrap()@.len(),
    ensures
        m@ == reformat_model(
            position_views(coords@),
            match normals {
                Some(ns) => Some(normal_views(ns@)),
                None => None,
            },
            match uvs {
                Some(us) => Some(tex_views(us@)),
                None => None,
            },
            corners@,
            shared,
        ),
{
    let ghost ps = position_views(coords@);
    let ghost gns: Option<Seq<Text3>> = match normals {
        Some(ref ns) => Some(normal_views(ns@)),
        None => None,
    };
    let ghost gts: Option<Seq<Text2>> = match uvs {
        Some(ref us) => Some(tex_views(us@)),
        None => None,
    };
    let ghost cs = corners@;
    let has_n = normals.is_some();
    let has_u = uvs.is_some();
    let nvec: Vec<Normal> = match normals {
        Some(v) => v,
        None => Vec::new(),
    };
    let uvec: Vec<TexCoord> = match uvs {
        Some(v) => v,
        None => Vec::new(),
    };
    let mut lookup: Vec<(FaceCorner, usize)> = Vec::new();
    let mut ids: Vec<usize> = Vec::new();
    let mut resc: Vec<Position> = Vec::new();
    let mut resn: Vec<Normal> = Vec::new();
    let mut resu: Vec<TexCoord> = Vec::new();
    let mut i: usize = 0;
    while i < corners.len()
        invariant
            0 <= i <= cs.len(),
            lookup@.len() == distinct_corners(cs.take(i as int)).len(),
            forall|j: int|
                0 <= j < lookup@.len() ==> (#[trigger] lookup@[j]).0 == distinct_corners(
                    cs.take(i as int),
                )[j] && lookup@[j].1 == j,
            resc@.len() == lookup@.len(),
            forall|j: int|
                0 <= j < resc@.len() ==> (#[trigger] resc@[j])@ == ps[distinct_corners(
                    cs.take(i as int),
                )[j].position as int],
            has_n ==> resn@.len() == lookup@.len(),
            has_n ==> forall|j: int|
                0 <= j < resn@.len() ==> (#[trigger] resn@[j])@ == gns.unwrap()[distinct_corners(
                    cs.take(i as int),
                )[j].normal.val()],
            has_u ==> resu@.len() == lookup@.len(),
            has_u ==> forall|j: int|
                0 <= j < resu@.len() ==> (#[trigger] resu@[j])@ == gts.unwrap()[distinct_corners(
                    cs.take(i as int),
                )[j].tex.val()],
            ids@.len() == i,
            forall|k: int|
                0 <= k < i ==> #[trigger] ids@[k] as int == pos_in(
                    distinct_corners(cs.take(i as int)),
                    cs[k],
                ) && ids@[k] < lookup@.len(),
        decreases cs.len() - i,
    {
        let c = corners[i];
        let ghost d0 = distinct_corners(cs.take(i as int));
        let ghost d1 = distinct_corners(cs.take(i + 1));
        proof {
            lemma_distinct_take_step(cs, i as int);
        }
        let found = find_corner(&lookup, c);
        match found {
            Some(ix) => {
                proof {
                    assert(d0[ix as int] == c);
                    assert(d0.contains(c));
                    assert(d1 == d0);
                    lemma_pos_in_basic(d0, c);
                    assert(pos_in(d0, c) == ix as int) by {
                        let p = pos_in(d0, c);
                        if p < ix as int {
                            assert(lookup@[p].0 == c);
                        }
                    }
                }
                ids.push(ix);
            },
            None => {
                proof {
                    assert(!d0.contains(c)) by {
                        if d0.contains(c) {
                            let w = choose|w: int| 0 <= w < d0.len() && d0[w] == c;
                            assert(lookup@[w].0 == c);
                        }
                    }
                    assert(d1 == d0.push(c));
                    assert(d1[d0.len() as int] == c);
                    lemma_pos_in_push(d0, c, c);
                }
                let ix = resc.len();
                resc.push(copy_position(&coords[c.position as usize]));
                if has_n {
                    match c.normal {
                        OptIndex::Index(t) => {
                            resn.push(copy_normal(&nvec[t as usize]));
                        },
                        OptIndex::Absent => {
                            proof {
                                assert(false);
                            }
                        },
                    }
                }
                if has_u {
                    match c.tex {
                        OptIndex::Index(t) => {
                            resu.push(copy_tex(&uvec[t as usize]));
                        },
                        OptIndex::Absent => {
                            proof {
                                assert(false);
                            }
                        },
                    }
                }
                ids.push(ix);
                lookup.push((c, ix));
            },
        }
        proof {
            // ids assigned earlier keep their value: the distinct list only
            // grows at the end
            assert forall|k: int|
                0 <= k < i + 1 implies #[trigger] ids@[k] as int == pos_in(d1, cs[k])
                && ids@[k] < lookup@.len() by {
                if k < i {
                    lemma_pos_in_push(d0, cs[k], c);
                    lemma_pos_in_basic(d0, cs[k]);
                    if !d0.contains(cs[k]) {
                        assert(cs.take(i as int)[k] == cs[k]);
                        assert(cs.take(i as int).contains(cs[k]));
                        lemma_distinct_contains(cs.take(i as int));
                    }
                } else {
                    if d1 == d0 {
                        lemma_pos_in_basic(d0, c);
                    }
                }
            }
            assert(cs.take(i + 1)[i as int] == cs[i as int]);
        }
        i = i + 1;
    }
    proof {
        assert(cs.take(cs.len() as int) =~= cs);
    }
    let ghost model = reformat_model(ps, gns, gts, cs, shared);
    let ghost d = distinct_corners(cs);
    // one triangle per three corners
    let n_tri = ids.len() / 3;
    let mut tris: Vec<Triangle> = Vec::new();
    let mut t: usize = 0;
    proof {
        lemma_ids_in_range(cs);
    }
    while t < n_tri
        invariant
            0 <= t <= n_tri,
            tris@.len() == t,
            forall|k: int| 0 <= k < t ==> #[trigger] tris@[k] == model.triangles[k],
        decreases n_tri - t,
    {
        let tri = Triangle { a: ids[3 * t], b: ids[3 * t + 1], c: ids[3 * t + 2] };
        proof {
            assert(corner_ids(cs)[3 * t] == pos_in(d, cs[3 * t]));
            assert(corner_ids(cs)[3 * t + 1] == pos_in(d, cs[3 * t + 1]));
            assert(corner_ids(cs)[3 * t + 2] == pos_in(d, cs[3 * t + 2]));
            assert(model.triangles[t as int] == tri);
        }
        tris.push(tri);
        t = t + 1;
    }
    let m = Mesh {
        positions: resc,
        triangles: tris,
        normals: if has_n {
            Some(resn)
        } else {
            None
        },
        tex_coords: if has_u {
            Some(resu)
        } else {
            None
        },
        storage: if shared {
            StorageMode::Shared
        } else {
            StorageMode::Exclusive
        },
    };
    proof {
        assert(position_views(resc@) =~= model.positions);
        assert(m@.triangles =~= model.triangles);
        if has_n {
            assert(normal_views(resn@) =~= model.normals.unwrap());
        }
        if has_u {
            assert(tex_views(resu@) =~= model.tex_coords.unwrap());
        }
        assert(m@ =~= model);
    }
    m
}

} // verus!
