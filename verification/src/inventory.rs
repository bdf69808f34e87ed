//! The seat inventory: seat states, categories, grids, zones and the venue.
//!
//! The venue topology (zones, categories, grid dimensions) is fixed at
//! creation; only the per-seat state mutates afterwards. Occupancy of a
//! zone is kept as an exact pair (occupied, total) so that zones can be
//! ranked without floating point.

use vstd::prelude::*;
use vstd::string::StringExecFns;

verus! {

/// The lifecycle state of a single seat.
///
/// `AdminHeld` and `UserHeld` are pre-seeded, manually set states outside
/// the lease flow; they behave as permanently unavailable for search and
/// holds. `LeasedPending` marks a seat claimed by an active lease.
#[derive(Clone, Copy, PartialEq, Eq, Structural, Debug)]
pub enum SeatState {
    Free,
    AdminHeld,
    UserHeld,
    Sold,
    LeasedPending,
}

/// One cell of a grid.
#[derive(Clone, Copy, PartialEq, Eq, Structural, Debug)]
pub struct Seat {
    pub state: SeatState,
}

/// The closed set of seating categories.
#[derive(Clone, Copy, PartialEq, Eq, Structural, Debug)]
pub enum Category {
    Vip,
    Regular,
    Sol,
    Platea,
}

/// How an external category name maps into the closed set.
pub open spec fn spec_parse_category(s: Seq<char>) -> Option<Category> {
    if s == "VIP"@ {
        Some(Category::Vip)
    } else if s == "Regular"@ {
        Some(Category::Regular)
    } else if s == "Sol"@ {
        Some(Category::Sol)
    } else if s == "Platea"@ {
        Some(Category::Platea)
    } else {
        None
    }
}

/// String equality helper: vstd specifies `==` on `String`, so `&str`
/// comparison goes through owned copies.
fn str_eq(a: &str, b: &str) -> (r: bool)
    ensures
        r == (a@ == b@),
{
    let sa = String::from_str(a);
    let sb = String::from_str(b);
    sa == sb
}

/// Parses a category name at the boundary; unknown names are rejected.
pub fn parse_category(name: &str) -> (r: Option<Category>)
    ensures
        r == spec_parse_category(name@),
{
    if str_eq(name, "VIP") {
        Some(Category::Vip)
    } else if str_eq(name, "Regular") {
        Some(Category::Regular)
    } else if str_eq(name, "Sol") {
        Some(Category::Sol)
    } else if str_eq(name, "Platea") {
        Some(Category::Platea)
    } else {
        None
    }
}

/// Number of occupied (non-free) seats in one row.
pub open spec fn occupied_in_row(row: Seq<Seat>) -> int
    decreases row.len(),
{
    if row.len() == 0 {
        0
    } else {
        occupied_in_row(row.drop_last()) + (if row.last().state == SeatState::Free {
            0int
        } else {
            1int
        })
    }
}

/// Number of occupied (non-free) seats in a grid.
pub open spec fn occupied_in_grid(g: Seq<Seq<Seat>>) -> int
    decreases g.len(),
{
    if g.len() == 0 {
        0
    } else {
        occupied_in_grid(g.drop_last()) + occupied_in_row(g.last())
    }
}

/// Total number of seats in a grid.
pub open spec fn seats_in_grid(g: Seq<Seq<Seat>>) -> int
    decreases g.len(),
{
    if g.len() == 0 {
        0
    } else {
        seats_in_grid(g.drop_last()) + g.last().len()
    }
}

pub proof fn lemma_row_occupied_bounds(row: Seq<Seat>)
    ensures
        0 <= occupied_in_row(row) <= row.len(),
    decreases row.len(),
{
    if row.len() > 0 {
        lemma_row_occupied_bounds(row.drop_last());
    }
}

pub proof fn lemma_grid_occupied_bounds(g: Seq<Seq<Seat>>)
    ensures
        0 <= occupied_in_grid(g) <= seats_in_grid(g),
    decreases g.len(),
{
    if g.len() > 0 {
        lemma_grid_occupied_bounds(g.drop_last());
        lemma_row_occupied_bounds(g.last());
    }
}

/// The seat total of a prefix never exceeds the total of the whole grid.
pub proof fn lemma_grid_seats_prefix_le(g: Seq<Seq<Seat>>, i: int)
    requires
        0 <= i <= g.len(),
    ensures
        seats_in_grid(g.subrange(0, i)) <= seats_in_grid(g),
    decreases g.len() - i,
{
    if i == g.len() {
        assert(g.subrange(0, i) =~= g);
    } else {
        lemma_grid_seats_prefix_le(g, i + 1);
        let p = g.subrange(0, i + 1);
        assert(p.drop_last() =~= g.subrange(0, i));
    }
}

/// Grids of equal shape hold equally many seats.
pub proof fn lemma_seats_in_grid_same_shape(a: Seq<Seq<Seat>>, b: Seq<Seq<Seat>>)
    requires
        a.len() == b.len(),
        forall|r: int| 0 <= r < a.len() ==> a[r].len() == b[r].len(),
    ensures
        seats_in_grid(a) == seats_in_grid(b),
    decreases a.len(),
{
    if a.len() > 0 {
        lemma_seats_in_grid_same_shape(a.drop_last(), b.drop_last());
    }
}

/// A grid whose rows all have length l holds rows * l seats.
pub proof fn lemma_seats_in_grid_uniform(g: Seq<Seq<Seat>>, l: int)
    requires
        forall|r: int| 0 <= r < g.len() ==> g[r].len() == l,
    ensures
        seats_in_grid(g) == g.len() * l,
    decreases g.len(),
{
    if g.len() > 0 {
        lemma_seats_in_grid_uniform(g.drop_last(), l);
        assert(seats_in_grid(g) == (g.len() - 1) * l + l);
        assert((g.len() - 1) * l + l == g.len() * l) by (nonlinear_arith);
    }
}

/// A fixed block of seats, addressed by row and column.
#[derive(Debug)]
pub struct Grid {
    pub rows: Vec<Vec<Seat>>,
}

impl View for Grid {
    type V = Seq<Seq<Seat>>;

    open spec fn view(&self) -> Seq<Seq<Seat>> {
        Seq::new(self.rows@.len(), |i: int| self.rows@[i]@)
    }
}

impl Grid {
    /// Whether (r, c) addresses a seat of this grid.
    pub open spec fn spec_in_range(self, r: int, c: int) -> bool {
        0 <= r < self@.len() && 0 <= c < self@[r].len()
    }

    /// The state of the seat at (r, c).
    pub open spec fn seat_at(self, r: int, c: int) -> SeatState {
        self@[r][c].state
    }

    /// A grid of `rows` rows with `cols` free seats each.
    pub fn new_free(rows: usize, cols: usize) -> (g: Grid)
        ensures
            g@.len() == rows,
            forall|r: int| 0 <= r < rows ==> g@[r].len() == cols,
            forall|r: int, c: int|
                0 <= r < rows && 0 <= c < cols ==> (#[trigger] g@[r][c]) == (Seat {
                    state: SeatState::Free,
                }),
    {
        let mut rs: Vec<Vec<Seat>> = Vec::new();
        let mut i: usize = 0;
        while i < rows
            invariant
                i <= rows,
                rs@.len() == i,
                forall|r: int| 0 <= r < i ==> rs@[r]@.len() == cols,
                forall|r: int, c: int|
                    0 <= r < i && 0 <= c < cols ==> rs@[r]@[c].state == SeatState::Free,
            decreases rows - i,
        {
            let mut row: Vec<Seat> = Vec::new();
            let mut j: usize = 0;
            while j < cols
                invariant
                    j <= cols,
                    row@.len() == j,
                    forall|c: int| 0 <= c < j ==> row@[c].state == SeatState::Free,
                decreases cols - j,
            {
                row.push(Seat { state: SeatState::Free });
                j = j + 1;
            }
            rs.push(row);
            i = i + 1;
        }
        Grid { rows: rs }
    }

    pub fn height(&self) -> (n: usize)
        ensures
            n == self@.len(),
    {
        self.rows.len()
    }

    pub fn row_len(&self, r: usize) -> (n: usize)
        requires
            r < self@.len(),
        ensures
            n == self@[r as int].len(),
    {
        self.rows[r].len()
    }

    pub fn in_range(&self, r: usize, c: usize) -> (b: bool)
        ensures
            b == self.spec_in_range(r as int, c as int),
    {
        r < self.rows.len() && c < self.rows[r].len()
    }

    pub fn get(&self, r: usize, c: usize) -> (s: SeatState)
        requires
            self.spec_in_range(r as int, c as int),
        ensures
            s == self.seat_at(r as int, c as int),
    {
        self.rows[r][c].state
    }

    /// Sets the seat at (r, c), leaving every other seat unchanged.
    pub fn set(&mut self, r: usize, c: usize, st: SeatState)
        requires
            old(self).spec_in_range(r as int, c as int),
        ensures
            final(self)@ == old(self)@.update(
                r as int,
                old(self)@[r as int].update(c as int, (Seat { state: st })),
            ),
            final(self)@.len() == old(self)@.len(),
            forall|i: int|
                0 <= i < old(self)@.len() ==> final(self)@[i].len() == old(self)@[i].len(),
            forall|i: int, j: int|
                0 <= i < old(self)@.len() && 0 <= j < old(self)@[i].len() ==> final(self)@[i][j]
                    == (if i == r && j == c {
                    (Seat { state: st })
                } else {
                    old(self)@[i][j]
                }),
    {
        self.rows[r][c] = Seat { state: st };
        proof {
            assert(self@ =~~= old(self)@.update(
                r as int,
                old(self)@[r as int].update(c as int, (Seat { state: st })),
            ));
        }
    }

    /// Sets the seat if the coordinate is in range, and does nothing
    /// otherwise; used only while seeding the initial layout.
    pub fn seed(&mut self, r: usize, c: usize, st: SeatState)
        ensures
            final(self)@ == (if old(self).spec_in_range(r as int, c as int) {
                old(self)@.update(
                    r as int,
                    old(self)@[r as int].update(c as int, (Seat { state: st })),
                )
            } else {
                old(self)@
            }),
            final(self)@.len() == old(self)@.len(),
            forall|i: int|
                0 <= i < old(self)@.len() ==> final(self)@[i].len() == old(self)@[i].len(),
            forall|i: int, j: int|
                0 <= i < old(self)@.len() && 0 <= j < old(self)@[i].len() ==> final(self)@[i][j]
                    == (if i == r && j == c && old(self).spec_in_range(r as int, c as int) {
                    (Seat { state: st })
                } else {
                    old(self)@[i][j]
                }),
    {
        if r < self.rows.len() && c < self.rows[r].len() {
            self.set(r, c, st);
        }
    }

    /// A deep copy with the same seat states.
    pub fn duplicate(&self) -> (g: Grid)
        ensures
            g@ == self@,
    {
        let mut rs: Vec<Vec<Seat>> = Vec::new();
        let mut i: usize = 0;
        while i < self.rows.len()
            invariant
                i <= self.rows@.len(),
                rs@.len() == i,
                forall|r: int| 0 <= r < i ==> rs@[r]@ == self.rows@[r]@,
            decreases self.rows@.len() - i,
        {
            let src = &self.rows[i];
            let mut row: Vec<Seat> = Vec::new();
            let mut j: usize = 0;
            while j < src.len()
                invariant
                    j <= src@.len(),
                    row@.len() == j,
                    forall|c: int| 0 <= c < j ==> row@[c] == src@[c],
                decreases src@.len() - j,
            {
                row.push(src[j]);
                j = j + 1;
            }
            assert(row@ =~= src@);
            rs.push(row);
            i = i + 1;
        }
        let g = Grid { rows: rs };
        assert(g@ =~~= self@);
        g
    }

    /// Counts (occupied, total) seats in one pass.
    pub fn counts(&self) -> (res: (usize, usize))
        requires
            seats_in_grid(self@) <= usize::MAX,
        ensures
            res.0 == occupied_in_grid(self@),
            res.1 == seats_in_grid(self@),
            res.0 <= res.1,
    {
        let ghost gv = self@;
        let mut occ: usize = 0;
        let mut tot: usize = 0;
        let mut i: usize = 0;
        while i < self.rows.len()
            invariant
                i <= self.rows@.len(),
                gv == self@,
                seats_in_grid(gv) <= usize::MAX,
                occ == occupied_in_grid(gv.subrange(0, i as int)),
                tot == seats_in_grid(gv.subrange(0, i as int)),
                occ <= tot,
            decreases self.rows@.len() - i,
        {
            proof {
                lemma_grid_seats_prefix_le(gv, i + 1);
                assert(gv.subrange(0, i + 1).drop_last() =~= gv.subrange(0, i as int));
                lemma_row_occupied_bounds(gv[i as int]);
            }
            let row = &self.rows[i];
            let mut j: usize = 0;
            let mut rocc: usize = 0;
            while j < row.len()
                invariant
                    j <= row@.len(),
                    rocc == occupied_in_row(row@.subrange(0, j as int)),
                    rocc <= j,
                decreases row@.len() - j,
            {
                proof {
                    assert(row@.subrange(0, j + 1).drop_last() =~= row@.subrange(0, j as int));
                }
                if row[j].state != SeatState::Free {
                    rocc = rocc + 1;
                }
                j = j + 1;
            }
            proof {
                assert(row@.subrange(0, row@.len() as int) =~= row@);
                assert(gv.subrange(0, i + 1).last() =~= row@);
            }
            occ = occ + rocc;
            tot = tot + row.len();
            i = i + 1;
        }
        proof {
            assert(gv.subrange(0, gv.len() as int) =~= gv);
        }
        (occ, tot)
    }
}

/// A named zone with one grid per category.
#[derive(Debug)]
pub struct Zone {
    pub name: String,
    pub vip: Grid,
    pub regular: Grid,
    pub sol: Grid,
    pub platea: Grid,
}

impl Zone {
    /// The seat matrix of one category.
    pub open spec fn spec_grid(self, c: Category) -> Seq<Seq<Seat>> {
        match c {
            Category::Vip => self.vip@,
            Category::Regular => self.regular@,
            Category::Sol => self.sol@,
            Category::Platea => self.platea@,
        }
    }

    /// Occupied seats over all categories of the zone.
    pub open spec fn spec_occupied(self) -> int {
        occupied_in_grid(self.vip@) + occupied_in_grid(self.regular@) + occupied_in_grid(self.sol@)
            + occupied_in_grid(self.platea@)
    }

    /// Total seats over all categories of the zone.
    pub open spec fn spec_total(self) -> int {
        seats_in_grid(self.vip@) + seats_in_grid(self.regular@) + seats_in_grid(self.sol@)
            + seats_in_grid(self.platea@)
    }

    pub fn grid(&self, c: Category) -> (g: &Grid)
        ensures
            g@ == self.spec_grid(c),
    {
        match c {
            Category::Vip => &self.vip,
            Category::Regular => &self.regular,
            Category::Sol => &self.sol,
            Category::Platea => &self.platea,
        }
    }

    /// Sets one seat in one category grid, leaving the name and every
    /// other seat unchanged.
    pub fn set_seat(&mut self, c: Category, r: usize, col: usize, st: SeatState)
        requires
            0 <= r < old(self).spec_grid(c).len(),
            0 <= col < old(self).spec_grid(c)[r as int].len(),
        ensures
            final(self).name == old(self).name,
            forall|c2: Category| #[trigger] final(self).spec_grid(c2).len() == old(self).spec_grid(
                c2,
            ).len(),
            forall|c2: Category, i: int|
                0 <= i < old(self).spec_grid(c2).len() ==> #[trigger] final(self).spec_grid(
                    c2,
                )[i].len() == old(self).spec_grid(c2)[i].len(),
            forall|c2: Category, i: int, j: int|
                0 <= i < old(self).spec_grid(c2).len() && 0 <= j < old(self).spec_grid(c2)[i].len()
                    ==> #[trigger] final(self).spec_grid(c2)[i][j] == (if c2 == c && i == r && j
                    == col {
                    (Seat { state: st })
                } else {
                    old(self).spec_grid(c2)[i][j]
                }),
    {
        match c {
            Category::Vip => self.vip.set(r, col, st),
            Category::Regular => self.regular.set(r, col, st),
            Category::Sol => self.sol.set(r, col, st),
            Category::Platea => self.platea.set(r, col, st),
        }
    }

    /// (occupied, total) over the whole zone.
    pub fn counts(&self) -> (res: (usize, usize))
        requires
            self.spec_total() <= usize::MAX,
        ensures
            res.0 == self.spec_occupied(),
            res.1 == self.spec_total(),
            res.0 <= res.1,
    {
        proof {
            lemma_grid_occupied_bounds(self.vip@);
            lemma_grid_occupied_bounds(self.regular@);
            lemma_grid_occupied_bounds(self.sol@);
            lemma_grid_occupied_bounds(self.platea@);
        }
        let (o1, t1) = self.vip.counts();
        let (o2, t2) = self.regular.counts();
        let (o3, t3) = self.sol.counts();
        let (o4, t4) = self.platea.counts();
        (o1 + o2 + o3 + o4, t1 + t2 + t3 + t4)
    }

    /// A deep copy with the same name and seat states.
    pub fn duplicate(&self) -> (z: Zone)
        ensures
            z.name@ == self.name@,
            forall|c: Category| #[trigger] z.spec_grid(c) == self.spec_grid(c),
    {
        Zone {
            name: self.name.clone(),
            vip: self.vip.duplicate(),
            regular: self.regular.duplicate(),
            sol: self.sol.duplicate(),
            platea: self.platea.duplicate(),
        }
    }
}

/// The index of the first zone with the given name, if any.
pub open spec fn zone_index_of(zones: Seq<Zone>, name: Seq<char>) -> Option<int>
    decreases zones.len(),
{
    if zones.len() == 0 {
        None
    } else if zones[0].name@ == name {
        Some(0)
    } else {
        match zone_index_of(zones.drop_first(), name) {
            None => None,
            Some(i) => Some(i + 1),
        }
    }
}

/// What `zone_index_of` finds: the first match, or proof that none exists.
pub proof fn lemma_zone_index_of(zones: Seq<Zone>, name: Seq<char>)
    ensures
        match zone_index_of(zones, name) {
            None => forall|j: int| 0 <= j < zones.len() ==> zones[j].name@ != name,
            Some(i) => 0 <= i < zones.len() && zones[i].name@ == name && forall|j: int|
                0 <= j < i ==> zones[j].name@ != name,
        },
    decreases zones.len(),
{
    if zones.len() > 0 && zones[0].name@ != name {
        let rest = zones.drop_first();
        lemma_zone_index_of(rest, name);
        assert(forall|j: int| 0 <= j < rest.len() ==> rest[j] == zones[j + 1]);
        match zone_index_of(rest, name) {
            None => {
                assert forall|j: int| 0 <= j < zones.len() implies zones[j].name@ != name by {
                    if j > 0 {
                        assert(zones[j] == rest[j - 1]);
                    }
                }
            },
            Some(i) => {
                assert forall|j: int| 0 <= j < i + 1 implies zones[j].name@ != name by {
                    if j > 0 {
                        assert(zones[j] == rest[j - 1]);
                    }
                }
            },
        }
    }
}

/// The converse: a first match determines the result of `zone_index_of`.
pub proof fn lemma_zone_index_of_first(zones: Seq<Zone>, name: Seq<char>, i: int)
    requires
        0 <= i < zones.len(),
        zones[i].name@ == name,
        forall|j: int| 0 <= j < i ==> zones[j].name@ != name,
    ensures
        zone_index_of(zones, name) == Some(i),
    decreases zones.len(),
{
    if i > 0 {
        lemma_zone_index_of_first(zones.drop_first(), name, i - 1);
    }
}

/// Rows of each category grid in the seeded layout; every row has 5 seats.
pub open spec fn seeded_rows(c: Category) -> int {
    match c {
        Category::Vip => 3,
        Category::Regular => 7,
        Category::Sol => 5,
        Category::Platea => 6,
    }
}

/// The pre-seeded state of each seat in the default layout.
pub open spec fn seeded_state(c: Category, r: int, col: int) -> SeatState {
    match c {
        Category::Vip => if r == 0 && col == 0 {
            SeatState::AdminHeld
        } else if r == 1 && col == 2 {
            SeatState::Sold
        } else {
            SeatState::Free
        },
        Category::Regular => if r == 2 && col == 3 {
            SeatState::AdminHeld
        } else {
            SeatState::Free
        },
        Category::Sol => if r == 2 && col == 2 {
            SeatState::Sold
        } else {
            SeatState::Free
        },
        Category::Platea => if r == 2 && col == 2 {
            SeatState::AdminHeld
        } else {
            SeatState::Free
        },
    }
}

/// One zone of the seeded layout.
fn default_zone(name: String) -> (z: Zone)
    ensures
        z.name == name,
        forall|c: Category| #[trigger] z.spec_grid(c).len() == seeded_rows(c),
        forall|c: Category, r: int|
            0 <= r < seeded_rows(c) ==> #[trigger] z.spec_grid(c)[r].len() == 5,
        forall|c: Category, r: int, col: int|
            0 <= r < seeded_rows(c) && 0 <= col < 5 ==> #[trigger] z.spec_grid(c)[r][col].state
                == seeded_state(c, r, col),
{
    let mut vip = Grid::new_free(3, 5);
    vip.seed(0, 0, SeatState::AdminHeld);
    vip.seed(1, 2, SeatState::Sold);
    let mut regular = Grid::new_free(7, 5);
    regular.seed(0, 1, SeatState::Free);
    regular.seed(2, 3, SeatState::AdminHeld);
    let mut sol = Grid::new_free(5, 5);
    sol.seed(2, 2, SeatState::Sold);
    sol.seed(4, 4, SeatState::Free);
    let mut platea = Grid::new_free(6, 5);
    platea.seed(3, 3, SeatState::Free);
    platea.seed(2, 2, SeatState::AdminHeld);
    proof {
        assert(forall|r: int, col: int|
            0 <= r < 3 && 0 <= col < 5 ==> (#[trigger] vip@[r][col]).state == seeded_state(
                Category::Vip,
                r,
                col,
            ));
        assert(forall|r: int, col: int|
            0 <= r < 7 && 0 <= col < 5 ==> (#[trigger] regular@[r][col]).state == seeded_state(
                Category::Regular,
                r,
                col,
            ));
        assert(forall|r: int, col: int|
            0 <= r < 5 && 0 <= col < 5 ==> (#[trigger] sol@[r][col]).state == seeded_state(
                Category::Sol,
                r,
                col,
            ));
        assert(forall|r: int, col: int|
            0 <= r < 6 && 0 <= col < 5 ==> (#[trigger] platea@[r][col]).state == seeded_state(
                Category::Platea,
                r,
                col,
            ));
    }
    Zone { name, vip, regular, sol, platea }
}

/// The layout the venue is seeded with at startup.
pub open spec fn is_default_layout(v: Venue) -> bool {
    &&& v.zones@.len() == 4
    &&& v.zones@[0].name@ == "A"@
    &&& v.zones@[1].name@ == "B"@
    &&& v.zones@[2].name@ == "C"@
    &&& v.zones@[3].name@ == "D"@
    &&& forall|z: int, c: Category|
        0 <= z < 4 ==> #[trigger] v.zones@[z].spec_grid(c).len() == seeded_rows(c)
    &&& forall|z: int, c: Category, r: int|
        0 <= z < 4 && 0 <= r < seeded_rows(c) ==> #[trigger] v.zones@[z].spec_grid(c)[r].len() == 5
    &&& forall|z: int, c: Category, r: int, col: int|
        0 <= z < 4 && 0 <= r < seeded_rows(c) && 0 <= col < 5 ==> seat_of(v, z, c, r, col)
            == seeded_state(c, r, col)
}

/// Numerator of an occupancy ratio, a zone with no seats counting as
/// fully occupied (ratio 1/1).
pub open spec fn norm_num(o: int, t: int) -> int {
    if t == 0 {
        1
    } else {
        o
    }
}

/// Denominator of an occupancy ratio (see `norm_num`).
pub open spec fn norm_den(o: int, t: int) -> int {
    if t == 0 {
        1
    } else {
        t
    }
}

/// Exact comparison of occupancy ratios by cross-multiplication.
pub open spec fn occ_lt(o1: int, t1: int, o2: int, t2: int) -> bool {
    norm_num(o1, t1) * norm_den(o2, t2) < norm_num(o2, t2) * norm_den(o1, t1)
}

proof fn lemma_mul_le(a: int, b: int, c: int, d: int)
    requires
        0 <= a <= c,
        0 <= b <= d,
    ensures
        a * b <= c * d,
{
    assert(a * b <= c * d) by (nonlinear_arith)
        requires
            0 <= a <= c,
            0 <= b <= d,
    ;
}

/// Compares two occupancy ratios exactly, by cross-multiplication.
pub fn occ_less(o1: usize, t1: usize, o2: usize, t2: usize) -> (r: bool)
    ensures
        r == occ_lt(o1 as int, t1 as int, o2 as int, t2 as int),
{
    let n1: usize = if t1 == 0 { 1 } else { o1 };
    let d1: usize = if t1 == 0 { 1 } else { t1 };
    let n2: usize = if t2 == 0 { 1 } else { o2 };
    let d2: usize = if t2 == 0 { 1 } else { t2 };
    proof {
        lemma_mul_le(n1 as int, d2 as int, u64::MAX as int, u64::MAX as int);
        lemma_mul_le(n2 as int, d1 as int, u64::MAX as int, u64::MAX as int);
        assert((u64::MAX as int) * (u64::MAX as int) < u128::MAX as int) by (nonlinear_arith);
    }
    (n1 as u128) * (d2 as u128) < (n2 as u128) * (d1 as u128)
}

/// Zone lookup depends on the zone names alone.
pub proof fn lemma_zone_index_of_same_names(a: Seq<Zone>, b: Seq<Zone>, name: Seq<char>)
    requires
        a.len() == b.len(),
        forall|i: int| 0 <= i < a.len() ==> (#[trigger] a[i]).name@ == b[i].name@,
    ensures
        zone_index_of(a, name) == zone_index_of(b, name),
    decreases a.len(),
{
    if a.len() > 0 {
        let ar = a.drop_first();
        let br = b.drop_first();
        assert(forall|i: int| 0 <= i < ar.len() ==> (#[trigger] ar[i]) == a[i + 1]);
        assert(forall|i: int| 0 <= i < br.len() ==> (#[trigger] br[i]) == b[i + 1]);
        lemma_zone_index_of_same_names(ar, br, name);
    }
}

/// The whole venue: an ordered sequence of zones.
#[derive(Debug)]
pub struct Venue {
    pub zones: Vec<Zone>,
}

/// The state of the seat at (zone, category, row, column).
pub open spec fn seat_of(v: Venue, z: int, c: Category, r: int, col: int) -> SeatState {
    v.zones@[z].spec_grid(c)[r][col].state
}

/// Whether (zone, category, row, column) addresses a seat of the venue.
pub open spec fn pos_in_range(v: Venue, z: int, c: Category, r: int, col: int) -> bool {
    &&& 0 <= z < v.zones@.len()
    &&& 0 <= r < v.zones@[z].spec_grid(c).len()
    &&& 0 <= col < v.zones@[z].spec_grid(c)[r].len()
}

/// Both venues have the same zones, names and grid dimensions.
pub open spec fn same_topology(a: Venue, b: Venue) -> bool {
    &&& b.zones@.len() == a.zones@.len()
    &&& forall|z: int|
        0 <= z < a.zones@.len() ==> #[trigger] b.zones@[z].name@ == a.zones@[z].name@
    &&& forall|z: int, c: Category|
        0 <= z < a.zones@.len() ==> #[trigger] b.zones@[z].spec_grid(c).len()
            == a.zones@[z].spec_grid(c).len()
    &&& forall|z: int, c: Category, r: int|
        0 <= z < a.zones@.len() && 0 <= r < a.zones@[z].spec_grid(c).len()
            ==> #[trigger] b.zones@[z].spec_grid(c)[r].len() == a.zones@[z].spec_grid(c)[r].len()
}

/// Both venues hold exactly the same content, seat by seat.
pub open spec fn same_content(a: Venue, b: Venue) -> bool {
    &&& same_topology(a, b)
    &&& forall|z: int, c: Category, r: int, col: int|
        pos_in_range(a, z, c, r, col) ==> #[trigger] seat_of(b, z, c, r, col) == seat_of(
            a,
            z,
            c,
            r,
            col,
        )
}

impl Venue {
    /// The index of the first zone with the given name.
    pub fn find_zone(&self, name: &str) -> (r: Option<usize>)
        ensures
            match r {
                None => zone_index_of(self.zones@, name@) is None,
                Some(i) => i < self.zones@.len() && self.zones@[i as int].name@ == name@
                    && zone_index_of(self.zones@, name@) == Some(i as int),
            },
    {
        let mut i: usize = 0;
        while i < self.zones.len()
            invariant
                i <= self.zones@.len(),
                forall|j: int| 0 <= j < i ==> self.zones@[j].name@ != name@,
            decreases self.zones@.len() - i,
        {
            if str_eq(self.zones[i].name.as_str(), name) {
                proof {
                    lemma_zone_index_of_first(self.zones@, name@, i as int);
                }
                return Some(i);
            }
            i = i + 1;
        }
        proof {
            lemma_zone_index_of(self.zones@, name@);
            if zone_index_of(self.zones@, name@) is Some {
                let k = zone_index_of(self.zones@, name@)->Some_0;
                assert(self.zones@[k].name@ == name@);
            }
        }
        None
    }

    /// Sets one seat, leaving the topology and every other seat unchanged.
    pub fn set_seat(&mut self, z: usize, c: Category, r: usize, col: usize, st: SeatState)
        requires
            pos_in_range(*old(self), z as int, c, r as int, col as int),
        ensures
            same_topology(*old(self), *final(self)),
            forall|z2: int, c2: Category, r2: int, col2: int|
                pos_in_range(*old(self), z2, c2, r2, col2) ==> #[trigger] seat_of(
                    *final(self),
                    z2,
                    c2,
                    r2,
                    col2,
                ) == (if z2 == z && c2 == c && r2 == r && col2 == col {
                    st
                } else {
                    seat_of(*old(self), z2, c2, r2, col2)
                }),
    {
        let zr = &mut self.zones[z];
        zr.set_seat(c, r, col, st);
    }

    /// A fully materialized copy of the current state.
    pub fn snapshot(&self) -> (v: Venue)
        ensures
            same_content(*self, v),
    {
        let mut zs: Vec<Zone> = Vec::new();
        let mut i: usize = 0;
        while i < self.zones.len()
            invariant
                i <= self.zones@.len(),
                zs@.len() == i,
                forall|j: int| 0 <= j < i ==> #[trigger] zs@[j].name@ == self.zones@[j].name@,
                forall|j: int, c: Category|
                    0 <= j < i ==> #[trigger] zs@[j].spec_grid(c) == self.zones@[j].spec_grid(c),
            decreases self.zones@.len() - i,
        {
            zs.push(self.zones[i].duplicate());
            i = i + 1;
        }
        Venue { zones: zs }
    }

    /// The venue as seeded at startup: zones A to D, each with the same
    /// category grids and pre-seeded seat states.
    pub fn default_layout() -> (v: Venue)
        ensures
            is_default_layout(v),
    {
        let mut zs: Vec<Zone> = Vec::new();
        zs.push(default_zone(String::from_str("A")));
        zs.push(default_zone(String::from_str("B")));
        zs.push(default_zone(String::from_str("C")));
        zs.push(default_zone(String::from_str("D")));
        Venue { zones: zs }
    }

    /// (occupied, total) for the zone at the given index.
    pub fn occupancy(&self, z: usize) -> (res: (usize, usize))
        requires
            z < self.zones@.len(),
            self.zones@[z as int].spec_total() <= usize::MAX,
        ensures
            res.0 == self.zones@[z as int].spec_occupied(),
            res.1 == self.zones@[z as int].spec_total(),
            res.0 <= res.1,
    {
        self.zones[z].counts()
    }
}

} // verus!
