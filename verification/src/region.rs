use vstd::prelude::*;
use vstd::utf8::{encode_utf8, decode_utf8, valid_utf8, encode_utf8_valid_utf8, encode_utf8_decode_utf8};
use crate::bytes::{le_bytes, read_le, zeros, lemma_le_read, push_le, push_all, read_le_at};

verus! {

/// A coordinate as stored in a region record: the IEEE-754 bit patterns of
/// its `f32` longitude (`x`) and latitude (`y`).
#[derive(Clone, Copy, PartialEq, Eq, Debug)]
pub struct Coord {
    pub x: u32,
    pub y: u32,
}

/// An administrative region as kept in the region database.
///
/// Each polygon is given by its exterior ring; the record format keeps no
/// interior rings.
#[derive(PartialEq, Debug)]
pub struct Region {
    pub code: u32,
    pub parent_code: u32,
    pub level: u32,
    pub center: Coord,
    pub name: String,
    pub polygons: Vec<Vec<Coord>>,
}

/// The mathematical value of a region.
pub struct RegionModel {
    pub code: u32,
    pub parent_code: u32,
    pub level: u32,
    pub center: Coord,
    pub name: Seq<char>,
    pub polygons: Seq<Seq<Coord>>,
}

impl View for Region {
    type V = RegionModel;

    open spec fn view(&self) -> RegionModel {
        RegionModel {
            code: self.code,
            parent_code: self.parent_code,
            level: self.level,
            center: self.center,
            name: self.name@,
            polygons: self.polygons@.map_values(|p: Vec<Coord>| p@),
        }
    }
}

/* ---- the record format ---- */

/// Bytes of a run of coordinates: `x` then `y` of each, little-endian.
pub open spec fn coords_bytes(cs: Seq<Coord>) -> Seq<u8>
    decreases cs.len(),
{
    if cs.len() == 0 {
        seq![]
    } else {
        le_bytes(cs[0].x) + (le_bytes(cs[0].y) + coords_bytes(cs.drop_first()))
    }
}

/// Bytes of a list of rings: for each ring its point count, then its points.
pub open spec fn rings_bytes(ps: Seq<Seq<Coord>>) -> Seq<u8>
    decreases ps.len(),
{
    if ps.len() == 0 {
        seq![]
    } else {
        le_bytes(ps[0].len() as u32) + (coords_bytes(ps[0]) + rings_bytes(ps.drop_first()))
    }
}

/// Size in bytes of the rings part of a record.
pub open spec fn rings_size(ps: Seq<Seq<Coord>>) -> nat
    decreases ps.len(),
{
    if ps.len() == 0 {
        0
    } else {
        4 + 8 * ps[0].len() + rings_size(ps.drop_first())
    }
}

/// `n` rounded up to a multiple of four.
pub open spec fn padded_len(n: nat) -> nat {
    ((n + 3) / 4 * 4) as nat
}

/// Size in bytes of the record of `m`: six header words, the name length,
/// the name padded to whole words, the polygon count and the rings.
pub open spec fn record_size(m: RegionModel) -> nat {
    28 + padded_len(encode_utf8(m.name).len()) + 4 + rings_size(m.polygons)
}

/// The name part of a record: UTF-8 bytes, zero-padded to whole words.
pub open spec fn name_bytes(name: Seq<char>) -> Seq<u8> {
    let nb = encode_utf8(name);
    nb + zeros((padded_len(nb.len()) - nb.len()) as nat)
}

/// The record of `m`. Word fields are little-endian; the first word is the
/// record size; counts and lengths are stored as `u32`.
#[verifier::opaque]
pub open spec fn encode_region(m: RegionModel) -> Seq<u8> {
    le_bytes(record_size(m) as u32) + (le_bytes(m.code) + (le_bytes(m.parent_code) + (le_bytes(
        m.level,
    ) + (le_bytes(m.center.x) + (le_bytes(m.center.y) + (le_bytes(
        encode_utf8(m.name).len() as u32,
    ) + (name_bytes(m.name) + (le_bytes(m.polygons.len() as u32) + rings_bytes(m.polygons)))))))))
}

/// Reads `n` coordinates from the front of `s`.
pub open spec fn decode_coords(s: Seq<u8>, n: nat) -> Seq<Coord>
    decreases n,
{
    if n == 0 {
        seq![]
    } else {
        seq![Coord { x: read_le(s), y: read_le(s.skip(4)) }] + decode_coords(
            s.skip(8),
            (n - 1) as nat,
        )
    }
}

/// Reads `count` rings from the front of `s`; `None` when `s` is too short.
pub open spec fn decode_rings(s: Seq<u8>, count: nat) -> Option<Seq<Seq<Coord>>>
    decreases count,
{
    if count == 0 {
        Some(seq![])
    } else if s.len() < 4 {
        None
    } else {
        let n = read_le(s) as nat;
        let t = s.skip(4);
        if t.len() < 8 * n {
            None
        } else {
            match decode_rings(t.skip((8 * n) as int), (count - 1) as nat) {
                Some(rest) => Some(seq![decode_coords(t, n)] + rest),
                None => None,
            }
        }
    }
}

/// Reads a region record from the front of `s`. The size word and the
/// padding bytes are not checked; `None` when `s` is too short or the name
/// is not UTF-8.
#[verifier::opaque]
pub open spec fn decode_region(s: Seq<u8>) -> Option<RegionModel> {
    if s.len() < 28 {
        None
    } else {
        let nlen = read_le(s.skip(24)) as nat;
        let t = s.skip(28);
        if t.len() < padded_len(nlen) + 4 {
            None
        } else if !valid_utf8(t.take(nlen as int)) {
            None
        } else {
            let u = t.skip(padded_len(nlen) as int);
            match decode_rings(u.skip(4), read_le(u) as nat) {
                Some(ps) => Some(
                    RegionModel {
                        code: read_le(s.skip(4)),
                        parent_code: read_le(s.skip(8)),
                        level: read_le(s.skip(12)),
                        center: Coord { x: read_le(s.skip(16)), y: read_le(s.skip(20)) },
                        name: decode_utf8(t.take(nlen as int)),
                        polygons: ps,
                    },
                ),
                None => None,
            }
        }
    }
}



/* ---- executable record functions ---- */

/// `Some(acc + rest)` when the rest is there.
pub open spec fn prepend_rings(
    acc: Seq<Seq<Coord>>,
    r: Option<Seq<Seq<Coord>>>,
) -> Option<Seq<Seq<Coord>>> {
    match r {
        Some(rest) => Some(acc + rest),
        None => None,
    }
}

pub open spec fn rings_view(v: Seq<Vec<Coord>>) -> Seq<Seq<Coord>> {
    v.map_values(|p: Vec<Coord>| p@)
}

impl Region {
    /// Size in bytes of this region's record.
    pub fn total_bytes(&self) -> (r: usize)
        requires
            record_size(self@) <= usize::MAX,
        ensures
            r == record_size(self@),
    {
        let nlen = self.name.as_str().len();
        proof {
            lemma_padded_len(nlen as nat);
            lemma_rings_nonneg(self@.polygons);
        }
        let mut total: usize = 28 + (nlen + 3) / 4 * 4 + 4;
        let ghost ps = self@.polygons;
        let mut k: usize = 0;
        assert(ps.skip(0) =~= ps);
        while k < self.polygons.len()
            invariant
                ps == rings_view(self.polygons@),
                k <= self.polygons@.len(),
                total + rings_size(ps.skip(k as int)) == record_size(self@),
                record_size(self@) <= usize::MAX,
            decreases self.polygons@.len() - k,
        {
            let len = self.polygons[k].len();
            assert(ps.skip(k as int).drop_first() =~= ps.skip(k + 1));
            assert(ps.skip(k as int)[0] == ps[k as int]);
            proof {
                lemma_rings_nonneg(ps.skip(k + 1));
            }
            total = total + 4 + len * 8;
            k = k + 1;
        }
        assert(ps.skip(k as int) =~= Seq::<Seq<Coord>>::empty());
        total
    }

    /// Size in bytes of this region's record, or `None` when it does not fit
    /// in `usize` (`total_bytes` and `to_bytes` need it to).
    pub fn checked_total_bytes(&self) -> (r: Option<usize>)
        ensures
            match r {
                Some(n) => n == record_size(self@),
                None => record_size(self@) > usize::MAX,
            },
    {
        let nlen = self.name.as_str().as_bytes().len();
        proof {
            lemma_padded_len(nlen as nat);
            lemma_rings_nonneg(self@.polygons);
        }
        let mut total: u128 = 28 + ((nlen as u128) + 3) / 4 * 4 + 4;
        assert(total == 28 + padded_len(nlen as nat) + 4);
        let ghost ps = self@.polygons;
        assert(ps.skip(0) =~= ps);
        if total > usize::MAX as u128 {
            return None;
        }
        let mut k: usize = 0;
        while k < self.polygons.len()
            invariant
                ps == rings_view(self.polygons@),
                k <= self.polygons@.len(),
                total <= usize::MAX,
                total + rings_size(ps.skip(k as int)) == record_size(self@),
            decreases self.polygons@.len() - k,
        {
            let len = self.polygons[k].len();
            assert(ps.skip(k as int).drop_first() =~= ps.skip(k + 1));
            assert(ps.skip(k as int)[0] == ps[k as int]);
            total = total + 4 + (len as u128) * 8;
            k = k + 1;
            if total > usize::MAX as u128 {
                return None;
            }
        }
        assert(ps.skip(k as int) =~= Seq::<Seq<Coord>>::empty());
        Some(total as usize)
    }

    /// Writes this region's record (see `encode_region`).
    #[verifier::spinoff_prover]
    #[verifier::rlimit(30)]
    pub fn to_bytes(&self) -> (out: Vec<u8>)
        requires
            record_size(self@) <= usize::MAX,
        ensures
            out@ == encode_region(self@),
            out@.len() == record_size(self@),
            out@.len() <= u32::MAX ==> read_le(out@) == out@.len(),
    {
        let total = self.total_bytes();
        let mut out: Vec<u8> = Vec::with_capacity(total);
        let name = self.name.as_str().as_bytes();
        let nlen = name.len();
        proof {
            lemma_padded_len(nlen as nat);
        }
        push_le(&mut out, total as u32);
        push_le(&mut out, self.code);
        push_le(&mut out, self.parent_code);
        push_le(&mut out, self.level);
        push_le(&mut out, self.center.x);
        push_le(&mut out, self.center.y);
        push_le(&mut out, nlen as u32);
        push_all(&mut out, name);
        let pad = (nlen + 3) / 4 * 4 - nlen;
        let ghost before_pad = out@;
        let mut z: usize = 0;
        while z < pad
            invariant
                z <= pad,
                out@ == before_pad + zeros(z as nat),
            decreases pad - z,
        {
            out.push(0u8);
            z = z + 1;
            assert(out@ =~= before_pad + zeros(z as nat));
        }
        push_le(&mut out, self.polygons.len() as u32);
        let ghost ps = self@.polygons;
        let ghost head = out@;
        proof {
            reveal(encode_region);
            assert(head + rings_bytes(ps) =~= encode_region(self@));
            assert(ps.skip(0) =~= ps);
        }
        let mut k: usize = 0;
        while k < self.polygons.len()
            invariant
                ps == rings_view(self.polygons@),
                k <= self.polygons@.len(),
                out@ + rings_bytes(ps.skip(k as int)) == head + rings_bytes(ps),
            decreases self.polygons@.len() - k,
        {
            let ring = &self.polygons[k];
            let ghost cs = ring@;
            assert(ps.skip(k as int)[0] == cs);
            assert(ps.skip(k as int).drop_first() =~= ps.skip(k + 1));
            let ghost after = rings_bytes(ps.skip(k + 1));
            push_le(&mut out, ring.len() as u32);
            let ghost ring_start = out@;
            let mut j: usize = 0;
            assert(cs.skip(0) =~= cs);
            while j < ring.len()
                invariant
                    cs == ring@,
                    j <= cs.len(),
                    out@ + coords_bytes(cs.skip(j as int)) == ring_start + coords_bytes(cs),
                decreases cs.len() - j,
            {
                let c = ring[j];
                assert(cs.skip(j as int)[0] == c);
                assert(cs.skip(j as int).drop_first() =~= cs.skip(j + 1));
                push_le(&mut out, c.x);
                push_le(&mut out, c.y);
                j = j + 1;
                assert(out@ + coords_bytes(cs.skip(j as int)) =~= ring_start + coords_bytes(cs));
            }
            assert(cs.skip(j as int) =~= Seq::<Coord>::empty());
            assert(out@ =~= ring_start + coords_bytes(cs));
            k = k + 1;
            assert(out@ + rings_bytes(ps.skip(k as int)) =~= head + rings_bytes(ps));
        }
        assert(ps.skip(k as int) =~= Seq::<Seq<Coord>>::empty());
        assert(out@ =~= head + rings_bytes(ps));
        assert(out@.len() == record_size(self@) && (out@.len() <= u32::MAX ==> read_le(out@) == out@.len())) by {
            lemma_size_word(self@);
        }
        out
    }
}


impl Region {
    /// Reads a region record from the front of `input`; `None` exactly when
    /// `decode_region` finds no record there.
    #[verifier::rlimit(30)]
    #[verifier::spinoff_prover]
    pub fn try_from_bytes(input: &[u8]) -> (r: Option<Region>)
        ensures
            match r {
                Some(region) => decode_region(input@) == Some(region@),
                None => decode_region(input@) is None,
            },
    {
        reveal(decode_region);
        let len = input.len();
        if len < 28 {
            return None;
        }
        let code = read_le_at(input, 4);
        let parent_code = read_le_at(input, 8);
        let level = read_le_at(input, 12);
        let cx = read_le_at(input, 16);
        let cy = read_le_at(input, 20);
        let nlen32 = read_le_at(input, 24);
        let ghost s = input@;
        let ghost t = s.skip(28);
        proof {
            lemma_padded_len(nlen32 as nat);
        }
        let pad64: u64 = (nlen32 as u64 + 3) / 4 * 4;
        if ((len - 28) as u64) < pad64 + 4 {
            return None;
        }
        let nlen = nlen32 as usize;
        let pad = pad64 as usize;
        let mut name_vec: Vec<u8> = Vec::new();
        let mut j: usize = 0;
        while j < nlen
            invariant
                j <= nlen,
                28 + nlen <= len,
                len == s.len(),
                s == input@,
                name_vec@ == s.subrange(28, 28 + j),
            decreases nlen - j,
        {
            name_vec.push(input[28 + j]);
            j = j + 1;
            assert(name_vec@ =~= s.subrange(28, 28 + j));
        }
        assert(name_vec@ =~= t.take(nlen as int));
        let name = match String::from_utf8(name_vec) {
            Ok(v) => v,
            Err(_) => {
                return None;
            },
        };
        let u = 28 + pad;
        let np = read_le_at(input, u);
        assert(s.skip(u as int) =~= t.skip(pad as int));
        let ghost start = s.skip(u + 4);
        assert(t.skip(pad as int).skip(4) =~= start);
        let mut polygons: Vec<Vec<Coord>> = Vec::new();
        let mut i: usize = u + 4;
        let mut k: u32 = 0;
        assert(rings_view(polygons@) =~= Seq::<Seq<Coord>>::empty());
        proof {
            match decode_rings(start, np as nat) {
                Some(all) => {
                    assert(Seq::<Seq<Coord>>::empty() + all =~= all);
                },
                None => {},
            }
            assert(s.skip(i as int) == start);
            assert(decode_region(s) == match decode_rings(start, np as nat) {
                Some(ps) => Some(
                    RegionModel {
                        code,
                        parent_code,
                        level,
                        center: Coord { x: cx, y: cy },
                        name: name@,
                        polygons: ps,
                    },
                ),
                None => None,
            });
        }
        while k < np
            invariant
                s == input@,
                len == s.len(),
                i <= len,
                k <= np,
                decode_rings(start, np as nat) == prepend_rings(
                    rings_view(polygons@),
                    decode_rings(s.skip(i as int), (np - k) as nat),
                ),
                decode_region(s) == match decode_rings(start, np as nat) {
                    Some(ps) => Some(
                        RegionModel {
                            code,
                            parent_code,
                            level,
                            center: Coord { x: cx, y: cy },
                            name: name@,
                            polygons: ps,
                        },
                    ),
                    None => None,
                },
            decreases np - k,
        {
            if len - i < 4 {
                assert(decode_rings(s.skip(i as int), (np - k) as nat) is None);
                return None;
            }
            let n = read_le_at(input, i);
            if ((len - i - 4) as u64) < 8 * (n as u64) {
                assert(s.skip(i as int).skip(4) =~= s.skip(i + 4));
                assert(decode_rings(s.skip(i as int), (np - k) as nat) is None);
                return None;
            }
            let ghost rest_s = s.skip(i as int);
            assert(rest_s.skip(4) =~= s.skip(i + 4));
            let ghost cstart = s.skip(i + 4);
            let mut coords: Vec<Coord> = Vec::new();
            let mut jj: u32 = 0;
            let mut at: usize = i + 4;
            assert(cstart.skip(0) =~= cstart);
            assert(Seq::<Coord>::empty() + decode_coords(cstart, n as nat) =~= decode_coords(cstart, n as nat));
            while jj < n
                invariant
                    s == input@,
                    len == s.len(),
                    i + 4 + 8 * (n as int) <= len,
                    jj <= n,
                    at == i + 4 + 8 * jj,
                    coords@ + decode_coords(s.skip(at as int), (n - jj) as nat) == decode_coords(
                        cstart,
                        n as nat,
                    ),
                decreases n - jj,
            {
                let x = read_le_at(input, at);
                let y = read_le_at(input, at + 4);
                let ghost here = s.skip(at as int);
                assert(here.skip(4) =~= s.skip(at + 4));
                assert(here.skip(8) =~= s.skip(at + 8));
                coords.push(Coord { x, y });
                jj = jj + 1;
                at = at + 8;
                assert(coords@ + decode_coords(s.skip(at as int), (n - jj) as nat) =~= decode_coords(
                    cstart,
                    n as nat,
                ));
            }
            assert(decode_coords(s.skip(at as int), 0) =~= Seq::<Coord>::empty());
            assert(coords@ =~= decode_coords(cstart, n as nat));
            assert(rest_s.skip(4).skip((8 * n) as int) =~= s.skip(at as int));
            let ghost before = rings_view(polygons@);
            polygons.push(coords);
            assert(rings_view(polygons@) =~= before.push(decode_coords(cstart, n as nat)));
            i = at;
            k = k + 1;
            proof {
                match decode_rings(s.skip(i as int), (np - k) as nat) {
                    Some(rest) => {
                        assert(before + (seq![decode_coords(cstart, n as nat)] + rest) =~= rings_view(
                            polygons@,
                        ) + rest);
                    },
                    None => {},
                }
            }
        }
        Some(
            Region {
                code,
                parent_code,
                level,
                center: Coord { x: cx, y: cy },
                name,
                polygons,
            },
        )
    }

    /// Reads the record of a region written by `to_bytes`.
    pub fn from_bytes(input: Vec<u8>) -> (r: Region)
        requires
            decode_region(input@) is Some,
        ensures
            decode_region(input@) == Some(r@),
    {
        match Region::try_from_bytes(input.as_slice()) {
            Some(r) => r,
            None => {
                assert(false);
                Region::try_from_bytes(input.as_slice()).unwrap()
            },
        }
    }
}

proof fn lemma_rings_nonneg(ps: Seq<Seq<Coord>>)
    ensures
        ps.len() > 0 ==> rings_size(ps) >= 4 + 8 * ps[0].len(),
{
}


/* ---- region lookup results ---- */

/// What a coordinate lookup answers: the innermost region's code, the names
/// from the outermost region inwards (joined and listed), and the innermost
/// region's centre.
#[derive(Debug)]
pub struct RegionInfo {
    pub code: u32,
    pub name: String,
    pub names: Vec<String>,
    pub center: Coord,
}

/// The names of `rs`, joined in order.
pub open spec fn joined(names: Seq<Seq<char>>) -> Seq<char>
    decreases names.len(),
{
    if names.len() == 0 {
        seq![]
    } else {
        joined(names.drop_last()) + names.last()
    }
}

/// The joined names are all the names, in order, one after another: the
/// same text as concatenating them from the first onwards.
pub proof fn lemma_joined_is_concatenation(names: Seq<Seq<char>>)
    ensures
        joined(names) == names.flatten(),
{
    lemma_joined_flatten_alt(names);
    names.lemma_flatten_and_flatten_alt_are_equivalent();
}

proof fn lemma_joined_flatten_alt(names: Seq<Seq<char>>)
    ensures
        joined(names) == names.flatten_alt(),
    decreases names.len(),
{
    if names.len() > 0 {
        lemma_joined_flatten_alt(names.drop_last());
    }
}

/// The names of a chain of regions.
pub open spec fn region_names(rs: Seq<Region>) -> Seq<Seq<char>> {
    rs.map_values(|r: Region| r.name@)
}

/// Whether a region code names a top-level region (the last four decimal
/// digits are zero); those regions are the entry points of a lookup.
pub fn is_top_level(code: u32) -> (b: bool)
    ensures
        b == (code % 10000 == 0),
{
    code % 10000 == 0
}

/// Summarises the chain of regions that contain a coordinate, outermost
/// first. There is an answer exactly when the chain is not empty and its
/// innermost region has a non-zero code.
pub fn resolve_region(regions: &Vec<Region>) -> (r: Option<RegionInfo>)
    ensures
        r is Some <==> regions@.len() > 0 && regions@.last().code != 0,
        r matches Some(info) ==> {
            &&& info.code == regions@.last().code
            &&& info.center == regions@.last().center
            &&& info.name@ == joined(region_names(regions@))
            &&& info.name@ == region_names(regions@).flatten()
            &&& info.names@.map_values(|n: String| n@) == region_names(regions@)
        },
{
    let mut code: u32 = 0;
    let mut name = String::new();
    let mut names: Vec<String> = Vec::new();
    let mut i: usize = 0;
    while i < regions.len()
        invariant
            i <= regions@.len(),
            i > 0 ==> code == regions@[i - 1].code,
            i == 0 ==> code == 0,
            name@ == joined(region_names(regions@).take(i as int)),
            names@.map_values(|n: String| n@) == region_names(regions@).take(i as int),
        decreases regions@.len() - i,
    {
        let item = &regions[i];
        code = item.code;
        name.append(item.name.as_str());
        names.push(item.name.clone());
        let ghost ns = region_names(regions@);
        assert(ns.take(i + 1).drop_last() =~= ns.take(i as int));
        i = i + 1;
        assert(names@.map_values(|n: String| n@) =~= ns.take(i as int));
    }
    assert(region_names(regions@).take(i as int) =~= region_names(regions@));
    proof {
        lemma_joined_is_concatenation(region_names(regions@));
    }
    if code == 0 {
        None
    } else {
        let center = regions[regions.len() - 1].center;
        Some(RegionInfo { code, name, names, center })
    }
}

/// One step down the region tree during a lookup. `pcode` is the code of
/// the region found last and `found` the code of the region, among those
/// whose parent is `pcode`, that holds the coordinate (it joins the chain
/// either way). The lookup goes on below `found`, unless there is none or it
/// is `pcode` itself (a region that is its own parent ends the chain).
pub fn next_parent(pcode: u32, found: Option<u32>) -> (r: Option<u32>)
    ensures
        r == (match found {
            Some(c) => if c != pcode { Some(c) } else { None },
            None => None,
        }),
{
    match found {
        Some(c) => if c == pcode { None } else { Some(c) },
        None => None,
    }
}

/* ---- reading back what was written ---- */

/// Whether every ring's point count fits the `u32` count word.
pub open spec fn rings_fit(ps: Seq<Seq<Coord>>) -> bool {
    forall|i: int| 0 <= i < ps.len() ==> #[trigger] ps[i].len() <= u32::MAX
}

/// Whether every count that a record stores in a `u32` word fits there:
/// the name's byte length, the number of rings and each ring's point count.
pub open spec fn counts_fit(m: RegionModel) -> bool {
    &&& encode_utf8(m.name).len() <= u32::MAX
    &&& m.polygons.len() <= u32::MAX
    &&& rings_fit(m.polygons)
}

/// Reading back a run of written coordinates gives the same coordinates,
/// bit for bit, and stops exactly after them.
pub proof fn lemma_coords_roundtrip(cs: Seq<Coord>, rest: Seq<u8>)
    ensures
        coords_bytes(cs).len() == 8 * cs.len(),
        decode_coords(coords_bytes(cs) + rest, cs.len()) == cs,
        (coords_bytes(cs) + rest).skip((8 * cs.len()) as int) == rest,
    decreases cs.len(),
{
    if cs.len() == 0 {
        assert((coords_bytes(cs) + rest) =~= rest);
        assert(decode_coords(coords_bytes(cs) + rest, 0) =~= cs);
    } else {
        let tail = coords_bytes(cs.drop_first());
        lemma_coords_roundtrip(cs.drop_first(), rest);
        let s = coords_bytes(cs) + rest;
        assert(s =~= le_bytes(cs[0].x) + (le_bytes(cs[0].y) + (tail + rest)));
        lemma_le_read(cs[0].x, le_bytes(cs[0].y) + (tail + rest));
        lemma_le_read(cs[0].y, tail + rest);
        assert(s.skip(4) =~= le_bytes(cs[0].y) + (tail + rest));
        assert(s.skip(8) =~= tail + rest);
        assert(s.skip(4).skip(4) =~= s.skip(8));
        assert(s.skip((8 * cs.len()) as int) =~= (tail + rest).skip((8 * cs.drop_first().len()) as int));
        assert(decode_coords(s, cs.len()) =~= seq![cs[0]] + cs.drop_first());
        assert(seq![cs[0]] + cs.drop_first() =~= cs);
    }
}

/// Reading back one written ring (its point count, then its points) gives
/// the count and the same points, and stops exactly after the ring's
/// `1 + 2 * count` words.
pub proof fn lemma_ring_roundtrip(p: Seq<Coord>, rest: Seq<u8>)
    requires
        p.len() <= u32::MAX,
    ensures
        read_le(le_bytes(p.len() as u32) + (coords_bytes(p) + rest)) as nat == p.len(),
        decode_coords((le_bytes(p.len() as u32) + (coords_bytes(p) + rest)).skip(4), p.len()) == p,
        (le_bytes(p.len() as u32) + (coords_bytes(p) + rest)).skip((4 + 8 * p.len()) as int) == rest,
{
    let s = le_bytes(p.len() as u32) + (coords_bytes(p) + rest);
    lemma_le_read(p.len() as u32, coords_bytes(p) + rest);
    lemma_coords_roundtrip(p, rest);
    assert(s.skip(4).skip((8 * p.len()) as int) =~= s.skip((4 + 8 * p.len()) as int));
}

/// Reading back a list of written rings gives the same rings, for rings
/// whose point counts fit the `u32` count word.
#[verifier::rlimit(40)]
pub proof fn lemma_rings_roundtrip(ps: Seq<Seq<Coord>>, rest: Seq<u8>)
    requires
        rings_fit(ps),
    ensures
        rings_bytes(ps).len() == rings_size(ps),
        decode_rings(rings_bytes(ps) + rest, ps.len()) == Some(ps),
    decreases ps.len(),
{
    if ps.len() == 0 {
        assert((rings_bytes(ps) + rest) =~= rest);
        assert(seq![] =~= ps);
    } else {
        let p = ps[0];
        let tail = rings_bytes(ps.drop_first());
        assert(rings_fit(ps.drop_first())) by {
            assert forall|i: int| 0 <= i < ps.drop_first().len() implies #[trigger] ps.drop_first()[i].len() <= u32::MAX by {
                assert(ps.drop_first()[i] == ps[i + 1]);
            }
        }
        assert(p.len() <= u32::MAX);
        lemma_rings_roundtrip(ps.drop_first(), rest);
        lemma_coords_roundtrip(p, tail + rest);
        let s = rings_bytes(ps) + rest;
        assert(s =~= le_bytes(p.len() as u32) + (coords_bytes(p) + (tail + rest)));
        lemma_le_read(p.len() as u32, coords_bytes(p) + (tail + rest));
        assert(read_le(s) as nat == p.len());
        let t = s.skip(4);
        assert(t =~= coords_bytes(p) + (tail + rest));
        assert(decode_rings(s, ps.len()) == Some(seq![p] + ps.drop_first()));
        assert(seq![p] + ps.drop_first() =~= ps);
    }
}

proof fn lemma_utf8_len_bound(name: Seq<char>)
    ensures
        valid_utf8(encode_utf8(name)),
        decode_utf8(encode_utf8(name)) == name,
{
    encode_utf8_valid_utf8(name);
    encode_utf8_decode_utf8(name);
}

proof fn lemma_skip_word(v: u32, rest: Seq<u8>, s: Seq<u8>, k: int)
    requires
        0 <= k,
        k + 4 <= s.len(),
        s.skip(k) == le_bytes(v) + rest,
    ensures
        read_le(s.skip(k)) == v,
        s.skip(k + 4) == rest,
{
    lemma_le_read(v, rest);
    assert(s.skip(k).skip(4) =~= s.skip(k + 4));
}

proof fn lemma_header_words(m: RegionModel, nm: Seq<u8>)
    requires
        nm == name_bytes(m.name) + (le_bytes(m.polygons.len() as u32) + rings_bytes(m.polygons)),
    ensures
        encode_region(m).len() == 28 + nm.len(),
        read_le(encode_region(m).skip(4)) == m.code,
        read_le(encode_region(m).skip(8)) == m.parent_code,
        read_le(encode_region(m).skip(12)) == m.level,
        read_le(encode_region(m).skip(16)) == m.center.x,
        read_le(encode_region(m).skip(20)) == m.center.y,
        read_le(encode_region(m).skip(24)) == encode_utf8(m.name).len() as u32,
        encode_region(m).skip(28) == nm,
{
    let w6 = le_bytes(encode_utf8(m.name).len() as u32) + nm;
    let w5 = le_bytes(m.center.y) + w6;
    let w4 = le_bytes(m.center.x) + w5;
    let w3 = le_bytes(m.level) + w4;
    let w2 = le_bytes(m.parent_code) + w3;
    let w1 = le_bytes(m.code) + w2;
    let s = le_bytes(record_size(m) as u32) + w1;
    assert(s == encode_region(m)) by {
        reveal(encode_region);
    }
    assert(s.len() == 28 + nm.len());
    assert(s.skip(0) =~= s);
    lemma_skip_word(record_size(m) as u32, w1, s, 0);
    lemma_skip_word(m.code, w2, s, 4);
    lemma_skip_word(m.parent_code, w3, s, 8);
    lemma_skip_word(m.level, w4, s, 12);
    lemma_skip_word(m.center.x, w5, s, 16);
    lemma_skip_word(m.center.y, w6, s, 20);
    lemma_skip_word(encode_utf8(m.name).len() as u32, nm, s, 24);
}

proof fn lemma_decode_parts(s: Seq<u8>, m: RegionModel, nlen: nat)
    requires
        s.len() >= 28,
        read_le(s.skip(4)) == m.code,
        read_le(s.skip(8)) == m.parent_code,
        read_le(s.skip(12)) == m.level,
        read_le(s.skip(16)) == m.center.x,
        read_le(s.skip(20)) == m.center.y,
        read_le(s.skip(24)) as nat == nlen,
        s.skip(28).len() >= padded_len(nlen) + 4,
        valid_utf8(s.skip(28).take(nlen as int)),
        decode_utf8(s.skip(28).take(nlen as int)) == m.name,
        decode_rings(
            s.skip(28).skip(padded_len(nlen) as int).skip(4),
            read_le(s.skip(28).skip(padded_len(nlen) as int)) as nat,
        ) == Some(m.polygons),
    ensures
        decode_region(s) == Some(m),
{
    reveal(decode_region);
}

proof fn lemma_padded_len(n: nat)
    ensures
        n <= padded_len(n) < n + 4,
        padded_len(n) % 4 == 0,
{
    assert(n <= (n + 3) / 4 * 4 < n + 4 && ((n + 3) / 4 * 4) % 4 == 0) by (nonlinear_arith);
}

/// Reading a record back gives the region that was written, for every
/// region whose stored counts fit their `u32` words (the size word is not
/// read back, so the record itself may be of any size).
pub proof fn lemma_record_roundtrip(m: RegionModel)
    requires
        counts_fit(m),
    ensures
        decode_region(encode_region(m)) == Some(m),
        encode_region(m).len() == record_size(m),
        encode_region(m).len() % 4 == 0,
{
    let nb = encode_utf8(m.name);
    let nlen = nb.len();
    let pad = padded_len(nlen);
    lemma_padded_len(nlen);
    lemma_utf8_len_bound(m.name);
    lemma_rings_roundtrip(m.polygons, seq![]);
    lemma_rings_size_words(m.polygons);
    let rings = rings_bytes(m.polygons);
    assert(rings + seq![] =~= rings);
    let np = le_bytes(m.polygons.len() as u32) + rings;
    let nm = name_bytes(m.name) + np;
    lemma_header_words(m, nm);
    let s = encode_region(m);
    assert(read_le(s.skip(24)) as nat == nlen);
    assert(name_bytes(m.name).len() == pad);
    assert(s.skip(28).take(nlen as int) =~= nb);
    assert(s.skip(28).skip(pad as int) =~= np);
    lemma_le_read(m.polygons.len() as u32, rings);
    assert(read_le(np) as nat == m.polygons.len());
    assert(np.skip(4) =~= rings);
    lemma_decode_parts(s, m, nlen);
}

/// The bytes of a list of rings are as many as `rings_size` counts.
pub proof fn lemma_rings_bytes_len(ps: Seq<Seq<Coord>>)
    ensures
        rings_bytes(ps).len() == rings_size(ps),
    decreases ps.len(),
{
    if ps.len() > 0 {
        lemma_rings_bytes_len(ps.drop_first());
        lemma_coords_roundtrip(ps[0], seq![]);
    }
}

/// A written record is `record_size` bytes long, and its first word holds
/// that length whenever the length fits the `u32` word.
pub proof fn lemma_size_word(m: RegionModel)
    ensures
        encode_region(m).len() == record_size(m),
        encode_region(m).len() <= u32::MAX ==> read_le(encode_region(m)) == encode_region(m).len(),
{
    let nb = encode_utf8(m.name);
    lemma_padded_len(nb.len());
    lemma_rings_bytes_len(m.polygons);
    let rings = rings_bytes(m.polygons);
    let np = le_bytes(m.polygons.len() as u32) + rings;
    let nm = name_bytes(m.name) + np;
    lemma_header_words(m, nm);
    let w1 = encode_region(m).skip(4);
    assert(encode_region(m) =~= le_bytes(record_size(m) as u32) + w1) by {
        reveal(encode_region);
    }
    lemma_le_read(record_size(m) as u32, w1);
}

proof fn lemma_rings_size_words(ps: Seq<Seq<Coord>>)
    ensures
        rings_size(ps) % 4 == 0,
    decreases ps.len(),
{
    if ps.len() > 0 {
        lemma_rings_size_words(ps.drop_first());
    }
}

} // verus!
