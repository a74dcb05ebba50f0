//! The sweep-and-prune proximity index, and small per-blob bookkeeping.
//!
//! Markers are kept as a sequence sorted ascending by `x`; a windowed query
//! runs two three-way binary searches over it to find the maximal
//! contiguous run of markers whose `x` lies within the query's limit, and a
//! separate accumulation pass sums the coordinate deltas of the markers of
//! a window that pass an exact squared-distance check.

use vstd::prelude::*;
use vstd::seq_lib::to_multiset_update;

verus! {

/// A marker position. Coordinates are integer world units; only `x` orders
/// the proximity index, while both feed exact distance checks.
#[derive(Clone, Copy, PartialEq, Eq, Structural, Debug)]
pub struct MarkerPoint {
    pub x: i32,
    pub y: i32,
}

/// The proximity index's one invariant: markers ascend by `x`.
pub open spec fn sorted_by_x(s: Seq<MarkerPoint>) -> bool {
    forall|i: int, j: int| 0 <= i <= j < s.len() ==> s[i].x <= s[j].x
}

/// Sort markers ascending by `x`, in place. Ties keep no particular
/// order; order among equal-`x` markers carries no meaning. The sorted
/// vector holds exactly the markers that came in.
pub fn sort_markers(v: &mut Vec<MarkerPoint>)
    ensures
        sorted_by_x(final(v)@),
        final(v)@.to_multiset() == old(v)@.to_multiset(),
{
    broadcast use to_multiset_update;
    broadcast use vstd::seq_lib::group_to_multiset_ensures;

    let n: usize = v.len();
    let mut i: usize = 1;
    while i < n
        invariant
            n == v@.len(),
            1 <= i || n == 0,
            forall|p: int, q: int| 0 <= p <= q < i ==> v@[p].x <= v@[q].x,
            v@.to_multiset() == old(v)@.to_multiset(),
        decreases n - i,
    {
        let mut j: usize = i;
        while j > 0 && v[j - 1].x > v[j].x
            invariant
                j <= i < n == v@.len(),
                forall|p: int, q: int| 0 <= p <= q <= i && q != j ==> v@[p].x <= v@[q].x,
                forall|p: int| j < p <= i ==> v@[j as int].x <= v@[p].x,
                v@.to_multiset() == old(v)@.to_multiset(),
            decreases j,
        {
            let a = v[j - 1];
            let b = v[j];
            proof {
                broadcast use vstd::seq_lib::group_to_multiset_ensures;

                let s = v@;
                let s1 = s.update(j - 1, b);
                let s2 = s1.update(j as int, a);
                to_multiset_update(s, j - 1, b);
                to_multiset_update(s1, j as int, a);
                assert(s1[j as int] == b);
                assert(s.contains(a) && s.contains(b));
                assert(s2.to_multiset() =~= s.to_multiset());
            }
            v[j - 1] = b;
            v[j] = a;
            j = j - 1;
        }
        i = i + 1;
    }
}

/// Marker `i` lies within the window of half-width `lim2` around `qx`.
pub open spec fn in_win(s: Seq<MarkerPoint>, qx: int, lim2: int, i: int) -> bool {
    -lim2 <= s[i].x - qx <= lim2
}

/// Index `i` is the right edge of the window: within it, and either the
/// last marker or followed by one outside it.
pub open spec fn right_edge(s: Seq<MarkerPoint>, qx: int, lim2: int, i: int) -> bool {
    in_win(s, qx, lim2, i) && (i == s.len() - 1 || !in_win(s, qx, lim2, i + 1))
}

/// Index `i` is the left edge of the window: within it, and either the
/// first marker or preceded by one outside it.
pub open spec fn left_edge(s: Seq<MarkerPoint>, qx: int, lim2: int, i: int) -> bool {
    in_win(s, qx, lim2, i) && (i == 0 || !in_win(s, qx, lim2, i - 1))
}

/// On a sorted sequence the window is contiguous: an index between two
/// in-window indices is itself in the window.
proof fn lemma_window_contiguous(s: Seq<MarkerPoint>, qx: int, lim2: int, i: int, j: int, k: int)
    requires
        sorted_by_x(s),
        0 <= i <= j <= k < s.len(),
        in_win(s, qx, lim2, i),
        in_win(s, qx, lim2, k),
    ensures
        in_win(s, qx, lim2, j),
{
    assert(s[i].x <= s[j].x);
    assert(s[j].x <= s[k].x);
}

/// Rightward of any in-window index stands a right edge.
proof fn lemma_right_edge_exists(s: Seq<MarkerPoint>, qx: int, lim2: int, i: int)
    requires
        0 <= i < s.len(),
        in_win(s, qx, lim2, i),
    ensures
        exists|j: int| i <= j < s.len() && right_edge(s, qx, lim2, j),
    decreases s.len() - i,
{
    if i == s.len() - 1 || !in_win(s, qx, lim2, i + 1) {
        assert(right_edge(s, qx, lim2, i));
    } else {
        lemma_right_edge_exists(s, qx, lim2, i + 1);
    }
}

/// Leftward of any in-window index stands a left edge.
proof fn lemma_left_edge_exists(s: Seq<MarkerPoint>, qx: int, lim2: int, i: int)
    requires
        0 <= i < s.len(),
        in_win(s, qx, lim2, i),
    ensures
        exists|j: int| 0 <= j <= i && left_edge(s, qx, lim2, j),
    decreases i,
{
    if i == 0 || !in_win(s, qx, lim2, i - 1) {
        assert(left_edge(s, qx, lim2, i));
    } else {
        lemma_left_edge_exists(s, qx, lim2, i - 1);
    }
}

/// Which window edge a binary search is after.
#[derive(Clone, Copy, PartialEq, Eq, Structural, Debug)]
enum Edge {
    Right,
    Left,
}

/// The three-way probe of the window search: `0` when `cur` is the sought
/// edge, `1` to continue right, `-1` to continue left. The edge condition
/// reads the probed marker's neighbour, not only its ordering against the
/// query, which is why the search is not a plain lower bound.
fn accept(cur: usize, c: &Vec<MarkerPoint>, blob_x: i32, lim2: i64, edge: Edge) -> (dir: i8)
    requires
        cur < c@.len(),
        lim2 >= 0,
    ensures
        dir == 0 || dir == 1 || dir == -1,
        edge == Edge::Right ==> {
            &&& (dir == 0 <==> right_edge(c@, blob_x as int, lim2 as int, cur as int))
            &&& (dir == 1 <==> (in_win(c@, blob_x as int, lim2 as int, cur as int)
                    && cur + 1 < c@.len() && in_win(c@, blob_x as int, lim2 as int, cur + 1))
                || (!in_win(c@, blob_x as int, lim2 as int, cur as int)
                    && c@[cur as int].x < blob_x))
            &&& (dir == -1 <==> !in_win(c@, blob_x as int, lim2 as int, cur as int)
                && blob_x <= c@[cur as int].x)
        },
        edge == Edge::Left ==> {
            &&& (dir == 0 <==> left_edge(c@, blob_x as int, lim2 as int, cur as int))
            &&& (dir == -1 <==> (in_win(c@, blob_x as int, lim2 as int, cur as int)
                    && cur > 0 && in_win(c@, blob_x as int, lim2 as int, cur - 1))
                || (!in_win(c@, blob_x as int, lim2 as int, cur as int)
                    && blob_x <= c@[cur as int].x))
            &&& (dir == 1 <==> !in_win(c@, blob_x as int, lim2 as int, cur as int)
                && c@[cur as int].x < blob_x)
        },
{
    let d: i64 = (blob_x as i64) - (c[cur].x as i64);
    let ad: i64 = if d < 0 { -d } else { d };
    let within: bool = ad <= lim2;
    match edge {
        Edge::Right => {
            if within {
                let last = cur == c.len() - 1;
                if last {
                    return 0;
                }
                let dn: i64 = (blob_x as i64) - (c[cur + 1].x as i64);
                let adn: i64 = if dn < 0 { -dn } else { dn };
                if adn > lim2 {
                    0
                } else {
                    1
                }
            } else if blob_x > c[cur].x {
                1
            } else {
                -1
            }
        }
        Edge::Left => {
            if within {
                if cur == 0 {
                    return 0;
                }
                let dp: i64 = (blob_x as i64) - (c[cur - 1].x as i64);
                let adp: i64 = if dp < 0 { -dp } else { dp };
                if adp > lim2 {
                    0
                } else {
                    -1
                }
            } else if blob_x > c[cur].x {
                1
            } else {
                -1
            }
        }
    }
}

/// The recursive three-way binary search for a window edge over the index
/// range `l ..= r` of a sorted marker sequence. When every edge of the
/// sought kind lies inside `l ..= r`, the search finds one exactly when
/// the window is non-empty; a `false` result means no such edge — and so
/// no in-window marker — exists anywhere.
fn bin_search(l: usize, r: usize, c: &Vec<MarkerPoint>, blob_x: i32, lim2: i64, edge: Edge)
    -> (res: (usize, bool))
    requires
        c@.len() >= 1,
        r < c@.len(),
        lim2 >= 0,
        sorted_by_x(c@),
        edge == Edge::Right ==> forall|i: int| 0 <= i < c@.len()
            && right_edge(c@, blob_x as int, lim2 as int, i) ==> l <= i <= r,
        edge == Edge::Left ==> forall|i: int| 0 <= i < c@.len()
            && left_edge(c@, blob_x as int, lim2 as int, i) ==> l <= i <= r,
    ensures
        res.1 ==> res.0 < c@.len(),
        res.1 && edge == Edge::Right ==> right_edge(c@, blob_x as int, lim2 as int, res.0 as int),
        res.1 && edge == Edge::Left ==> left_edge(c@, blob_x as int, lim2 as int, res.0 as int),
        !res.1 && edge == Edge::Right ==> forall|i: int| 0 <= i < c@.len()
            ==> !right_edge(c@, blob_x as int, lim2 as int, i),
        !res.1 && edge == Edge::Left ==> forall|i: int| 0 <= i < c@.len()
            ==> !left_edge(c@, blob_x as int, lim2 as int, i),
    decreases r + 1 - l,
{
    let ghost s = c@;
    let ghost qx = blob_x as int;
    let ghost lim = lim2 as int;
    if r >= l {
        let mid = l + (r - l) / 2;
        let dir = accept(mid, c, blob_x, lim2, edge);
        if dir == 0 {
            return (mid, true);
        }
        if dir == 1 {
            if mid == c.len() - 1 {
                // The probe is the last marker and lies left of the query,
                // outside the window; everything before it sits further
                // left still, so no marker is within the window at all.
                proof {
                    assert forall|i: int| 0 <= i < s.len() implies !in_win(s, qx, lim, i) by {
                        assert(s[i].x <= s[mid as int].x);
                    }
                }
                return (mid, false);
            }
            proof {
                if in_win(s, qx, lim, mid as int) {
                    // The probe and its successor are both within the
                    // window, so every edge lies strictly right of it.
                    assert forall|i: int| 0 <= i < s.len()
                        && (edge == Edge::Right ==> right_edge(s, qx, lim, i))
                        && (edge == Edge::Left ==> left_edge(s, qx, lim, i))
                        implies mid + 1 <= i <= r
                    by {
                        if edge == Edge::Right && i <= mid {
                            assert(in_win(s, qx, lim, mid + 1));
                            lemma_window_contiguous(s, qx, lim, i, i + 1, mid + 1);
                        }
                    }
                } else {
                    // The probe lies left of the query and outside the
                    // window; so does everything at or before it.
                    assert forall|i: int| 0 <= i <= mid implies !in_win(s, qx, lim, i) by {
                        assert(s[i].x <= s[mid as int].x);
                    }
                }
            }
            return bin_search(mid + 1, r, c, blob_x, lim2, edge);
        }
        if mid == 0 {
            // The probe is the first marker and lies at or right of the
            // query, outside the window; so does everything after it.
            proof {
                assert forall|i: int| 0 <= i < s.len() implies !in_win(s, qx, lim, i) by {
                    assert(s[0].x <= s[i].x);
                }
            }
            return (mid, false);
        }
        proof {
            if in_win(s, qx, lim, mid as int) {
                // A leftward step with the probe within the window only
                // happens in the left-edge search, with the predecessor
                // within the window too: every left edge lies strictly
                // left of the probe.
                assert forall|i: int| 0 <= i < s.len()
                    && (edge == Edge::Right ==> right_edge(s, qx, lim, i))
                    && (edge == Edge::Left ==> left_edge(s, qx, lim, i))
                    implies l <= i <= mid - 1
                by {
                    if edge == Edge::Left && i >= mid {
                        if i > mid {
                            assert(in_win(s, qx, lim, mid - 1));
                            lemma_window_contiguous(s, qx, lim, mid - 1, i - 1, i);
                        }
                    }
                }
            } else {
                // The probe lies at or right of the query and outside the
                // window; so does everything at or after it.
                assert forall|i: int| mid <= i < s.len() implies !in_win(s, qx, lim, i) by {
                    assert(s[mid as int].x <= s[i].x);
                }
            }
        }
        return bin_search(l, mid - 1, c, blob_x, lim2, edge);
    }
    (0, false)
}

/// The windowed proximity query. `limit` is squared before it bounds the
/// markers' `x` distance from `blob_x`, which keeps the pruning consistent
/// with callers' squared-distance checks; the window it finds is the
/// maximal contiguous run of markers with `|x - blob_x| <= limit*limit`.
/// With fewer than two markers the query unconditionally reports no
/// window, an accepted simplification that under-counts the case of one
/// in-range marker. The returned bounds are both inclusive edges of the
/// run; the established consuming convention iterates from `l` up to and
/// excluding `r` (see [`sense_window`]).
pub fn find_window(blob_x: i32, limit: i32, c: &Vec<MarkerPoint>) -> (res: (usize, usize, bool))
    requires
        sorted_by_x(c@),
    ensures
        ({
            let lim = (limit as int) * (limit as int);
            &&& res.2 == (c@.len() >= 2 && exists|i: int| 0 <= i < c@.len()
                    && in_win(c@, blob_x as int, lim, i))
            &&& !res.2 ==> res.0 == 0 && res.1 == 0
            &&& res.2 ==> res.0 <= res.1 < c@.len()
            &&& res.2 ==> forall|i: int| 0 <= i < c@.len()
                    ==> (in_win(c@, blob_x as int, lim, i) <==> res.0 <= i <= res.1)
        }),
{
    let ghost s = c@;
    let ghost qx = blob_x as int;
    let c_len = c.len();
    if c_len < 2 {
        return (0, 0, false);
    }
    proof {
        assert((limit as i64) * (limit as i64) >= 0) by (nonlinear_arith);
        assert(-0x8000_0000 <= limit as i64 <= 0x7fff_ffff ==>
            (limit as i64) * (limit as i64) <= 0x4000_0000_0000_0000) by (nonlinear_arith);
    }
    let lim2: i64 = (limit as i64) * (limit as i64);
    let ghost lim = lim2 as int;

    let (r, exists_r) = bin_search(0, c_len - 1, c, blob_x, lim2, Edge::Right);
    if !exists_r {
        proof {
            if exists|i: int| 0 <= i < s.len() && in_win(s, qx, lim, i) {
                let i = choose|i: int| 0 <= i < s.len() && in_win(s, qx, lim, i);
                lemma_right_edge_exists(s, qx, lim, i);
            }
        }
        return (0, 0, false);
    }
    proof {
        // Every left edge lies at or before the found right edge.
        assert forall|i: int| 0 <= i < s.len() && left_edge(s, qx, lim, i) implies
            0 <= i <= r
        by {
            if i > r {
                assert(in_win(s, qx, lim, r as int));
                lemma_window_contiguous(s, qx, lim, r as int, r + 1, i);
            }
        }
    }
    let (l, found_l) = bin_search(0, r, c, blob_x, lim2, Edge::Left);
    proof {
        // The right edge is within the window, so a left edge exists and
        // the left search cannot have missed it.
        lemma_left_edge_exists(s, qx, lim, r as int);
        assert(found_l);
        assert forall|i: int| 0 <= i < s.len() implies
            (in_win(s, qx, lim, i) <==> l <= i <= r)
        by {
            if in_win(s, qx, lim, i) {
                if i < l {
                    lemma_window_contiguous(s, qx, lim, i, l - 1, l as int);
                }
                if i > r {
                    lemma_window_contiguous(s, qx, lim, r as int, r + 1, i);
                }
            }
            if l <= i <= r {
                lemma_window_contiguous(s, qx, lim, l as int, i, r as int);
            }
        }
    }
    (l, r, true)
}

/// Squared distance in the plane between the query point and a marker.
pub open spec fn dist2(p: MarkerPoint, qx: int, qy: int) -> int {
    (qx - p.x) * (qx - p.x) + (qy - p.y) * (qy - p.y)
}

/// Sum of `qx - x` over the markers at indices `l .. n` whose squared
/// distance from the query point is below `thresh2`.
pub open spec fn sense_sum_x(s: Seq<MarkerPoint>, qx: int, qy: int, thresh2: int, l: int, n: int)
    -> int
    decreases n - l,
{
    if n <= l {
        0
    } else {
        sense_sum_x(s, qx, qy, thresh2, l, n - 1)
            + if dist2(s[n - 1], qx, qy) < thresh2 {
                qx - s[n - 1].x
            } else {
                0
            }
    }
}

/// Sum of `qy - y` over the markers at indices `l .. n` whose squared
/// distance from the query point is below `thresh2`.
pub open spec fn sense_sum_y(s: Seq<MarkerPoint>, qx: int, qy: int, thresh2: int, l: int, n: int)
    -> int
    decreases n - l,
{
    if n <= l {
        0
    } else {
        sense_sum_y(s, qx, qy, thresh2, l, n - 1)
            + if dist2(s[n - 1], qx, qy) < thresh2 {
                qy - s[n - 1].y
            } else {
                0
            }
    }
}

/// Accumulate the sensor sums of one window: for each marker from `l` up
/// to and excluding `r`, when its exact squared distance from the blob is
/// below `thresh2`, add the blob-to-marker coordinate deltas into the two
/// sums. Excluding `r` — the window's own right edge — is the established
/// consuming convention and is kept deliberately.
pub fn sense_window(c: &Vec<MarkerPoint>, l: usize, r: usize, blob_x: i32, blob_y: i32,
    thresh2: i64) -> (sums: (i128, i128))
    requires
        l <= r <= c@.len(),
    ensures
        sums.0 == sense_sum_x(c@, blob_x as int, blob_y as int, thresh2 as int, l as int,
            r as int),
        sums.1 == sense_sum_y(c@, blob_x as int, blob_y as int, thresh2 as int, l as int,
            r as int),
{
    let mut sx: i128 = 0;
    let mut sy: i128 = 0;
    let mut k: usize = l;
    while k < r
        invariant
            l <= k <= r <= c@.len(),
            sx == sense_sum_x(c@, blob_x as int, blob_y as int, thresh2 as int, l as int,
                k as int),
            sy == sense_sum_y(c@, blob_x as int, blob_y as int, thresh2 as int, l as int,
                k as int),
            -((k - l) as int) * 0x1_0000_0000 <= sx <= ((k - l) as int) * 0x1_0000_0000,
            -((k - l) as int) * 0x1_0000_0000 <= sy <= ((k - l) as int) * 0x1_0000_0000,
        decreases r - k,
    {
        let dx: i64 = (blob_x as i64) - (c[k].x as i64);
        let dy: i64 = (blob_y as i64) - (c[k].y as i64);
        proof {
            assert(-0x1_0000_0000 < dx < 0x1_0000_0000
                ==> 0 <= (dx as i128) * (dx as i128) < 0x1_0000_0000_0000_0000)
                by (nonlinear_arith);
            assert(-0x1_0000_0000 < dy < 0x1_0000_0000
                ==> 0 <= (dy as i128) * (dy as i128) < 0x1_0000_0000_0000_0000)
                by (nonlinear_arith);
            assert(((k + 1 - l) as int) * 0x1_0000_0000
                == ((k - l) as int) * 0x1_0000_0000 + 0x1_0000_0000) by (nonlinear_arith);
        }
        let d2: i128 = (dx as i128) * (dx as i128) + (dy as i128) * (dy as i128);
        if d2 < thresh2 as i128 {
            sx = sx + (dx as i128);
            sy = sy + (dy as i128);
        }
        k = k + 1;
    }
    (sx, sy)
}

/// The sprite colour a genome paints its blob with: the red channel reads
/// bits `120..128`, green bits `112..120`, and blue bits `106..114` — blue
/// deliberately overlaps green's field; the palette is established and
/// kept as it is.
pub fn blob_color(gene: u128) -> (rgb: (u8, u8, u8))
    ensures
        rgb.0 as u128 == (gene >> 120) & 0xff,
        rgb.1 as u128 == (gene >> 112) & 0xff,
        rgb.2 as u128 == (gene >> 106) & 0xff,
{
    proof {
        assert((gene & (255u128 << 120)) >> 120 == (gene >> 120) & 0xff
            && (gene & (255u128 << 112)) >> 112 == (gene >> 112) & 0xff
            && (gene & (255u128 << 106)) >> 106 == (gene >> 106) & 0xff
            && (gene >> 120) & 0xff < 256
            && (gene >> 112) & 0xff < 256
            && (gene >> 106) & 0xff < 256) by (bit_vector);
    }
    let r = ((gene & (255u128 << 120)) >> 120) as u8;
    let g = ((gene & (255u128 << 112)) >> 112) as u8;
    let b = ((gene & (255u128 << 106)) >> 106) as u8;
    (r, g, b)
}

/// The most advanced lineage seen so far: the genome of the
/// highest-generation blob observed, with its generation count.
#[derive(Clone, Copy, PartialEq, Eq, Debug)]
pub struct OldestBlob(pub (u128, u16));

impl OldestBlob {
    /// Record one observation: adopt this genome and generation exactly
    /// when the generation is strictly higher than the recorded one. The
    /// result says whether the record changed, so the caller can log the
    /// newly leading genome.
    pub fn observe(&mut self, gene: u128, generation: u16) -> (updated: bool)
        ensures
            updated == (generation > old(self).0.1),
            updated ==> final(self).0.0 == gene && final(self).0.1 == generation,
            !updated ==> *final(self) == *old(self),
    {
        if generation > self.0.1 {
            self.0 = (gene, generation);
            true
        } else {
            false
        }
    }
}

impl Default for OldestBlob {
    /// The empty record: genome zero at generation zero, displaced by the
    /// first observation of a positive generation.
    fn default() -> (r: OldestBlob)
        ensures
            r.0.0 == 0 && r.0.1 == 0,
    {
        OldestBlob((0u128, 0u16))
    }
}

} // verus!

