//! Read-only availability search: find a run of consecutive free seats.
//!
//! Zones are ranked by ascending occupancy (ties broken by venue order)
//! and scanned in that order; inside a zone the first sufficient run of
//! free seats in row-major order is returned at once. A run never spans
//! more than one row.

use vstd::prelude::*;
use crate::inventory::{
    lemma_grid_occupied_bounds, norm_den, norm_num, occ_less, occ_lt, parse_category,
    spec_parse_category, Category, Grid, Seat, SeatState, Venue, Zone,
};

verus! {

/// Seats [s, s+n) of the row are all free.
pub open spec fn run_free(row: Seq<Seat>, s: int, n: int) -> bool {
    forall|k: int| s <= k < s + n ==> (#[trigger] row[k]).state == SeatState::Free
}

/// The row holds a run of n consecutive free seats.
pub open spec fn row_has_run(row: Seq<Seat>, n: int) -> bool {
    exists|s: int| 0 <= s && s + n <= row.len() && run_free(row, s, n)
}

/// Some row of the grid holds a run of n consecutive free seats.
pub open spec fn grid_has_run(g: Seq<Seq<Seat>>, n: int) -> bool {
    exists|r: int| 0 <= r < g.len() && row_has_run(g[r], n)
}

/// (row, start) is the first window of n free seats in row-major order:
/// no earlier row holds a run, and no earlier window of this row is free.
pub open spec fn first_fit_at(g: Seq<Seq<Seat>>, n: int, row: int, start: int) -> bool {
    &&& 0 <= row < g.len()
    &&& 0 <= start && start + n <= g[row].len()
    &&& run_free(g[row], start, n)
    &&& forall|r2: int| 0 <= r2 < row ==> !row_has_run(#[trigger] g[r2], n)
    &&& forall|s2: int|
        0 <= s2 < start ==> !(s2 + n <= g[row].len() && run_free(g[row], s2, n))
}

/// First-fit scan of one grid.
pub fn find_run_in_grid(g: &Grid, n: usize) -> (res: Option<(usize, usize)>)
    requires
        n >= 1,
    ensures
        match res {
            Some(p) => first_fit_at(g@, n as int, p.0 as int, p.1 as int),
            None => !grid_has_run(g@, n as int),
        },
{
    let mut r: usize = 0;
    while r < g.height()
        invariant
            r <= g@.len(),
            n >= 1,
            forall|r2: int| 0 <= r2 < r ==> !row_has_run(#[trigger] g@[r2], n as int),
        decreases g@.len() - r,
    {
        let len = g.row_len(r);
        let mut count: usize = 0;
        let mut c: usize = 0;
        while c < len
            invariant
                r < g@.len(),
                len == g@[r as int].len(),
                n >= 1,
                c <= len,
                count <= c,
                count < n,
                run_free(g@[r as int], c - count, count as int),
                c - count == 0 || g@[r as int][c - count - 1].state != SeatState::Free,
                forall|s2: int|
                    0 <= s2 && s2 + n <= c ==> !run_free(g@[r as int], s2, n as int),
                forall|r2: int| 0 <= r2 < r ==> !row_has_run(#[trigger] g@[r2], n as int),
            decreases len - c,
        {
            if g.get(r, c) == SeatState::Free {
                count = count + 1;
                if count == n {
                    let start = c + 1 - n;
                    proof {
                        let rowv = g@[r as int];
                        assert(run_free(rowv, start as int, n as int));
                        assert forall|s2: int| 0 <= s2 < start implies !(s2 + n <= rowv.len()
                            && run_free(rowv, s2, n as int)) by {
                            assert(s2 + n <= c);
                        }
                    }
                    return Some((r, start));
                }
                proof {
                    assert(run_free(g@[r as int], c + 1 - count, count as int));
                    assert forall|s2: int| 0 <= s2 && s2 + n <= c + 1 implies !run_free(
                        g@[r as int],
                        s2,
                        n as int,
                    ) by {
                        if s2 + n == c + 1 {
                            // the window would reach past the free suffix,
                            // across the blocked seat before it
                            let blocked = c - count;
                            assert(s2 <= blocked < s2 + n);
                            assert(g@[r as int][blocked].state != SeatState::Free);
                        }
                    }
                }
            } else {
                count = 0;
                proof {
                    assert forall|s2: int| 0 <= s2 && s2 + n <= c + 1 implies !run_free(
                        g@[r as int],
                        s2,
                        n as int,
                    ) by {
                        if s2 + n == c + 1 {
                            assert(s2 <= c < s2 + n);
                            assert(g@[r as int][c as int].state != SeatState::Free);
                        }
                    }
                }
            }
            c = c + 1;
        }
        proof {
            assert(!row_has_run(g@[r as int], n as int));
        }
        r = r + 1;
    }
    None
}

/// Exact occupancy-ratio comparison of two zones.
pub open spec fn zone_occ_lt(a: Zone, b: Zone) -> bool {
    occ_lt(a.spec_occupied(), a.spec_total(), b.spec_occupied(), b.spec_total())
}

/// The zone the search scans first among the first m zones: the one with
/// the lowest occupancy that holds a qualifying run, earliest zone first
/// on ties.
pub open spec fn best_zone_upto(zones: Seq<Zone>, c: Category, n: int, m: int) -> Option<int>
    decreases m,
{
    if m <= 0 {
        None
    } else {
        let prev = best_zone_upto(zones, c, n, m - 1);
        let cur = m - 1;
        if !grid_has_run(zones[cur].spec_grid(c), n) {
            prev
        } else {
            match prev {
                None => Some(cur),
                Some(b) => if zone_occ_lt(zones[cur], zones[b]) {
                    Some(cur)
                } else {
                    Some(b)
                },
            }
        }
    }
}

/// The zone the search returns from, if any.
pub open spec fn best_zone(zones: Seq<Zone>, c: Category, n: int) -> Option<int> {
    best_zone_upto(zones, c, n, zones.len() as int)
}

/// From a < b and not c < b (as occupancy ratios) follows a < c.
proof fn lemma_occ_lt_step(
    ao: int,
    at: int,
    bo: int,
    bt: int,
    co: int,
    ct: int,
)
    requires
        ao >= 0,
        at >= 0,
        bo >= 0,
        bt >= 0,
        co >= 0,
        ct >= 0,
        occ_lt(ao, at, bo, bt),
        !occ_lt(co, ct, bo, bt),
    ensures
        occ_lt(ao, at, co, ct),
{
    let na = norm_num(ao, at);
    let da = norm_den(ao, at);
    let nb = norm_num(bo, bt);
    let db = norm_den(bo, bt);
    let nc = norm_num(co, ct);
    let dc = norm_den(co, ct);
    assert(na * dc < nc * da) by (nonlinear_arith)
        requires
            da > 0,
            db > 0,
            dc > 0,
            na * db < nb * da,
            nc * db >= nb * dc,
    ;
}

/// What `best_zone_upto` selects: a zone with a qualifying run that no
/// other qualifying zone strictly undercuts in occupancy, and that every
/// earlier qualifying zone strictly exceeds.
pub proof fn lemma_best_zone_upto(zones: Seq<Zone>, c: Category, n: int, m: int)
    requires
        0 <= m <= zones.len(),
    ensures
        match best_zone_upto(zones, c, n, m) {
            None => forall|j: int| 0 <= j < m ==> !grid_has_run(#[trigger] zones[j].spec_grid(c), n),
            Some(b) => {
                &&& 0 <= b < m
                &&& grid_has_run(zones[b].spec_grid(c), n)
                &&& forall|j: int|
                    0 <= j < m && grid_has_run(#[trigger] zones[j].spec_grid(c), n)
                        ==> !zone_occ_lt(zones[j], zones[b])
                &&& forall|j: int|
                    0 <= j < b && grid_has_run(#[trigger] zones[j].spec_grid(c), n)
                        ==> zone_occ_lt(zones[b], zones[j])
            },
        },
    decreases m,
{
    if m > 0 {
        lemma_best_zone_upto(zones, c, n, m - 1);
        let prev = best_zone_upto(zones, c, n, m - 1);
        let cur = m - 1;
        let curz = zones[cur];
        lemma_grid_occupied_bounds(curz.vip@);
        lemma_grid_occupied_bounds(curz.regular@);
        lemma_grid_occupied_bounds(curz.sol@);
        lemma_grid_occupied_bounds(curz.platea@);
        if grid_has_run(curz.spec_grid(c), n) {
            match prev {
                None => {},
                Some(b) => {
                    let bz = zones[b];
                    lemma_grid_occupied_bounds(bz.vip@);
                    lemma_grid_occupied_bounds(bz.regular@);
                    lemma_grid_occupied_bounds(bz.sol@);
                    lemma_grid_occupied_bounds(bz.platea@);
                    if zone_occ_lt(curz, bz) {
                        // cur strictly undercuts the previous best, hence
                        // every earlier qualifying zone as well
                        assert forall|j: int|
                            0 <= j < cur && grid_has_run(#[trigger] zones[j].spec_grid(c), n)
                        implies zone_occ_lt(curz, zones[j]) by {
                            let jz = zones[j];
                            lemma_grid_occupied_bounds(jz.vip@);
                            lemma_grid_occupied_bounds(jz.regular@);
                            lemma_grid_occupied_bounds(jz.sol@);
                            lemma_grid_occupied_bounds(jz.platea@);
                            lemma_occ_lt_step(
                                curz.spec_occupied(),
                                curz.spec_total(),
                                bz.spec_occupied(),
                                bz.spec_total(),
                                jz.spec_occupied(),
                                jz.spec_total(),
                            );
                        }
                    }
                },
            }
        }
    }
}

/// The result of a successful availability search.
#[derive(Debug)]
pub struct FoundSeats {
    pub zone: String,
    pub category: Category,
    pub seats: Vec<(usize, usize)>,
}

/// The returned seats match the first fit of the chosen zone.
pub open spec fn found_matches(v: Venue, cat: Category, n: int, zi: int, f: FoundSeats) -> bool {
    &&& f.category == cat
    &&& f.zone@ == v.zones@[zi].name@
    &&& f.seats@.len() == n
    &&& n > 0
    &&& first_fit_at(v.zones@[zi].spec_grid(cat), n, f.seats@[0].0 as int, f.seats@[0].1 as int)
    &&& forall|k: int|
        0 <= k < n ==> (#[trigger] f.seats@[k]).0 == f.seats@[0].0 && f.seats@[k].1 == f.seats@[0].1
            + k
}

/// First-fit search over the venue: zones in ascending occupancy order
/// (stable on ties), rows and columns in order within a zone.
pub fn find_consecutive(v: &Venue, category: &str, count: usize) -> (res: Option<FoundSeats>)
    requires
        forall|z: int|
            0 <= z < v.zones@.len() ==> (#[trigger] v.zones@[z].spec_total()) <= usize::MAX,
    ensures
        match spec_parse_category(category@) {
            None => res is None,
            Some(cat) => {
                if count == 0 {
                    res is None
                } else {
                    match best_zone(v.zones@, cat, count as int) {
                        None => res is None,
                        Some(zi) => res matches Some(f) && found_matches(
                            *v,
                            cat,
                            count as int,
                            zi,
                            f,
                        ),
                    }
                }
            },
        },
{
    let cat = match parse_category(category) {
        None => {
            return None;
        },
        Some(c) => c,
    };
    if count == 0 {
        return None;
    }
    let mut best: Option<usize> = None;
    let mut bo: usize = 0;
    let mut bt: usize = 0;
    let mut brow: usize = 0;
    let mut bstart: usize = 0;
    let mut zi: usize = 0;
    while zi < v.zones.len()
        invariant
            zi <= v.zones@.len(),
            count >= 1,
            forall|z: int|
                0 <= z < v.zones@.len() ==> (#[trigger] v.zones@[z].spec_total()) <= usize::MAX,
            match best {
                None => best_zone_upto(v.zones@, cat, count as int, zi as int) is None,
                Some(b) => {
                    &&& best_zone_upto(v.zones@, cat, count as int, zi as int) == Some(b as int)
                    &&& b < zi
                    &&& bo == v.zones@[b as int].spec_occupied()
                    &&& bt == v.zones@[b as int].spec_total()
                    &&& first_fit_at(
                        v.zones@[b as int].spec_grid(cat),
                        count as int,
                        brow as int,
                        bstart as int,
                    )
                },
            },
        decreases v.zones@.len() - zi,
    {
        match find_run_in_grid(v.zones[zi].grid(cat), count) {
            None => {
                proof {
                    assert(!grid_has_run(v.zones@[zi as int].spec_grid(cat), count as int));
                }
            },
            Some(p) => {
                proof {
                    assert(run_free(
                        v.zones@[zi as int].spec_grid(cat)[p.0 as int],
                        p.1 as int,
                        count as int,
                    ));
                    assert(row_has_run(
                        v.zones@[zi as int].spec_grid(cat)[p.0 as int],
                        count as int,
                    ));
                    assert(grid_has_run(v.zones@[zi as int].spec_grid(cat), count as int));
                }
                let (o, t) = v.occupancy(zi);
                let take = match best {
                    None => true,
                    Some(_) => occ_less(o, t, bo, bt),
                };
                if take {
                    best = Some(zi);
                    bo = o;
                    bt = t;
                    brow = p.0;
                    bstart = p.1;
                }
            },
        }
        zi = zi + 1;
    }
    match best {
        None => None,
        Some(b) => {
            let g = v.zones[b].grid(cat);
            let rl = g.row_len(brow);
            let mut seats: Vec<(usize, usize)> = Vec::new();
            let mut k: usize = 0;
            while k < count
                invariant
                    k <= count,
                    seats@.len() == k,
                    bstart + count <= rl <= usize::MAX,
                    forall|j: int|
                        0 <= j < k ==> (#[trigger] seats@[j]).0 == brow && seats@[j].1 == bstart
                            + j,
                decreases count - k,
            {
                seats.push((brow, bstart + k));
                k = k + 1;
            }
            Some(FoundSeats { zone: v.zones[b].name.clone(), category: cat, seats })
        },
    }
}

/// Search contiguity (law): a first-fit window lies inside a single row,
/// and every seat of it is free.
pub proof fn lemma_search_contiguity(g: Seq<Seq<Seat>>, n: int, row: int, start: int)
    requires
        first_fit_at(g, n, row, start),
    ensures
        forall|k: int| start <= k < start + n ==> (#[trigger] g[row][k]).state == SeatState::Free,
{
}

/// Occupancy ordering (law): no zone holding a qualifying run is strictly
/// less occupied than the zone the search settles on, and every earlier
/// zone holding one is strictly more occupied.
pub proof fn lemma_search_prefers_less_occupied(
    zones: Seq<Zone>,
    c: Category,
    n: int,
    zi: int,
    j: int,
)
    requires
        best_zone(zones, c, n) == Some(zi),
        0 <= j < zones.len(),
        grid_has_run(zones[j].spec_grid(c), n),
    ensures
        !zone_occ_lt(zones[j], zones[zi]),
        j < zi ==> zone_occ_lt(zones[zi], zones[j]),
{
    lemma_best_zone_upto(zones, c, n, zones.len() as int);
}

} // verus!
