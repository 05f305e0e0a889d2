use vstd::prelude::*;
use crate::bytes::push_all;
use crate::text::{split_bytes, split_on};

verus! {

/// The two fields of a coordinate text `x,y`: the text before the first
/// comma and the text up to the next one (more fields are ignored); `None`
/// when there is no comma.
pub open spec fn coord_fields(p: Seq<u8>) -> Option<(Seq<u8>, Seq<u8>)> {
    let f = split_on(p, 44);
    if f.len() >= 2 {
        Some((f[0], f[1]))
    } else {
        None
    }
}

/// The coordinate fields of every point of a ring, points separated by
/// `;`; `None` when one of them has no comma.
pub open spec fn ring_fields(r: Seq<u8>) -> Option<Seq<(Seq<u8>, Seq<u8>)>> {
    let pts = split_on(r, 59);
    if forall|j: int| 0 <= j < pts.len() ==> (#[trigger] coord_fields(pts[j])) is Some {
        Some(pts.map_values(|p: Seq<u8>| coord_fields(p)->0))
    } else {
        None
    }
}

/// The coordinate fields of every ring of a polyline, rings separated by
/// `|`; `None` when one point of one ring has no comma.
pub open spec fn polyline_fields(s: Seq<u8>) -> Option<Seq<Seq<(Seq<u8>, Seq<u8>)>>> {
    let rings = split_on(s, 124);
    if forall|i: int| 0 <= i < rings.len() ==> (#[trigger] ring_fields(rings[i])) is Some {
        Some(rings.map_values(|r: Seq<u8>| ring_fields(r)->0))
    } else {
        None
    }
}

/// How many times the byte `b` occurs in `s`.
pub open spec fn count_byte(s: Seq<u8>, b: u8) -> nat
    decreases s.len(),
{
    if s.len() == 0 {
        0
    } else {
        count_byte(s.drop_last(), b) + if s.last() == b { 1nat } else { 0nat }
    }
}

/// Splitting at a separator gives one piece more than there are
/// separators.
pub proof fn lemma_split_count(s: Seq<u8>, sep: u8)
    ensures
        split_on(s, sep).len() == count_byte(s, sep) + 1,
    decreases s.len(),
{
    if s.len() > 0 {
        lemma_split_count(s.drop_last(), sep);
    }
}

/// A ring's fields have exactly one entry per `;`-separated point text (one
/// more than the ring's `;` count), and entry `j` is the coordinate fields
/// of point text `j`.
pub proof fn lemma_ring_fields_per_point(r: Seq<u8>)
    requires
        ring_fields(r) is Some,
    ensures
        ring_fields(r)->0.len() == count_byte(r, 59) + 1,
        forall|j: int| 0 <= j < ring_fields(r)->0.len() ==> coord_fields(#[trigger] split_on(r, 59)[j]) == Some(
            ring_fields(r)->0[j],
        ),
{
    lemma_split_count(r, 59);
}

/// A polyline's fields have exactly one ring per `|`-separated ring text
/// (one more than the polyline's `|` count), and ring `i` is the fields of
/// ring text `i`.
pub proof fn lemma_polyline_fields_per_ring(s: Seq<u8>)
    requires
        polyline_fields(s) is Some,
    ensures
        polyline_fields(s)->0.len() == count_byte(s, 124) + 1,
        forall|i: int| 0 <= i < polyline_fields(s)->0.len() ==> ring_fields(#[trigger] split_on(s, 124)[i]) == Some(
            polyline_fields(s)->0[i],
        ),
{
    lemma_split_count(s, 124);
}

/// A pair of texts as byte sequences.
pub open spec fn field_pair(c: (Vec<u8>, Vec<u8>)) -> (Seq<u8>, Seq<u8>) {
    (c.0@, c.1@)
}

/// The fields of one ring as byte sequences.
pub open spec fn ring_view(r: Vec<(Vec<u8>, Vec<u8>)>) -> Seq<(Seq<u8>, Seq<u8>)> {
    r@.map_values(|c: (Vec<u8>, Vec<u8>)| field_pair(c))
}

fn copy_bytes(b: &[u8]) -> (v: Vec<u8>)
    ensures
        v@ == b@,
{
    let mut v: Vec<u8> = Vec::new();
    push_all(&mut v, b);
    v
}

/// The two fields of a coordinate text such as `110.43,19.97` (see
/// `coord_fields`).
pub fn split_coord(s: &[u8]) -> (r: Option<(Vec<u8>, Vec<u8>)>)
    ensures
        match r {
            Some(c) => coord_fields(s@) == Some(field_pair(c)),
            None => coord_fields(s@) is None,
        },
{
    let f = split_bytes(s, 44);
    assert(f@.len() == split_on(s@, 44).len());
    if f.len() >= 2 {
        let x = copy_bytes(f[0].as_slice());
        let y = copy_bytes(f[1].as_slice());
        assert(split_on(s@, 44)[0] == f@[0]@);
        assert(split_on(s@, 44)[1] == f@[1]@);
        Some((x, y))
    } else {
        None
    }
}

/// The coordinate fields of each point of a ring (see `ring_fields`).
pub fn split_ring(r: &[u8]) -> (out: Option<Vec<(Vec<u8>, Vec<u8>)>>)
    ensures
        match out {
            Some(v) => ring_fields(r@) == Some(ring_view(v)),
            None => ring_fields(r@) is None,
        },
        out matches Some(v) ==> v@.len() == split_on(r@, 59).len(),
        out matches Some(v) ==> forall|j: int| 0 <= j < v@.len() ==> coord_fields(split_on(r@, 59)[j]) == Some(
            #[trigger] field_pair(v@[j]),
        ),
{
    let pts = split_bytes(r, 59);
    let ghost spts = split_on(r@, 59);
    assert(pts@.len() == spts.len());
    let mut out: Vec<(Vec<u8>, Vec<u8>)> = Vec::new();
    let mut j: usize = 0;
    while j < pts.len()
        invariant
            spts == split_on(r@, 59),
            pts@.map_values(|p: Vec<u8>| p@) == spts,
            pts@.len() == spts.len(),
            j <= pts@.len(),
            out@.len() == j,
            forall|k: int| 0 <= k < j ==> (#[trigger] coord_fields(spts[k])) is Some,
            forall|k: int| 0 <= k < j ==> coord_fields(spts[k])->0 == #[trigger] field_pair(out@[k]),
        decreases pts@.len() - j,
    {
        assert(pts@[j as int]@ == spts[j as int]);
        match split_coord(pts[j].as_slice()) {
            Some(c) => {
                out.push(c);
            },
            None => {
                return None;
            },
        }
        j = j + 1;
    }
    assert(ring_view(out) =~= spts.map_values(|p: Seq<u8>| coord_fields(p)->0));
    Some(out)
}

/// The coordinate fields of each point of each ring of a polyline such as
/// `x1,y1;x2,y2|x3,y3` (see `polyline_fields`).
pub fn split_polyline(s: &[u8]) -> (out: Option<Vec<Vec<(Vec<u8>, Vec<u8>)>>>)
    ensures
        match out {
            Some(v) => polyline_fields(s@) == Some(v@.map_values(|r: Vec<(Vec<u8>, Vec<u8>)>| ring_view(r))),
            None => polyline_fields(s@) is None,
        },
        out matches Some(v) ==> v@.len() == split_on(s@, 124).len(),
        out matches Some(v) ==> forall|i: int| 0 <= i < v@.len() ==> ring_fields(split_on(s@, 124)[i]) == Some(
            #[trigger] ring_view(v@[i]),
        ),
{
    let rings = split_bytes(s, 124);
    let ghost srings = split_on(s@, 124);
    assert(rings@.len() == srings.len());
    let mut out: Vec<Vec<(Vec<u8>, Vec<u8>)>> = Vec::new();
    let mut i: usize = 0;
    while i < rings.len()
        invariant
            srings == split_on(s@, 124),
            rings@.map_values(|p: Vec<u8>| p@) == srings,
            rings@.len() == srings.len(),
            i <= rings@.len(),
            out@.len() == i,
            forall|k: int| 0 <= k < i ==> (#[trigger] ring_fields(srings[k])) is Some,
            forall|k: int| 0 <= k < i ==> ring_fields(srings[k])->0 == #[trigger] ring_view(out@[k]),
        decreases rings@.len() - i,
    {
        assert(rings@[i as int]@ == srings[i as int]);
        match split_ring(rings[i].as_slice()) {
            Some(r) => {
                out.push(r);
            },
            None => {
                return None;
            },
        }
        i = i + 1;
    }
    assert(out@.map_values(|r: Vec<(Vec<u8>, Vec<u8>)>| ring_view(r)) =~= srings.map_values(
        |r: Seq<u8>| ring_fields(r)->0,
    ));
    Some(out)
}

} // verus!
