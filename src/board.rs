use vstd::prelude::*;

verus! {

/// Number of rows (and of columns) of the square board.
pub const SIDE: usize = 4;

/// Number of cells on the board.
pub const BOARD_SIZE: usize = 16;

/// The grid of tile values in row-major order; 0 marks an empty cell.
#[derive(Default, PartialEq, Eq, Debug, Clone)]
pub struct Board(pub [usize; 16]);

impl View for Board {
    type V = Seq<int>;

    open spec fn view(&self) -> Seq<int> {
        Seq::new(16, |i: int| self.0[i] as int)
    }
}

/// Row-major index of the cell at row `r`, column `c`.
pub open spec fn idx(r: int, c: int) -> int {
    4 * r + c
}

/// The board turned a quarter turn clockwise: the tile at `(r, c)` goes to `(c, 3 - r)`.
pub open spec fn rotated_cw(b: Seq<int>) -> Seq<int> {
    Seq::new(16, |i: int| b[idx(3 - i % 4, i / 4)])
}

/// The board turned a quarter turn counter-clockwise: the tile at `(r, c)` goes to `(3 - c, r)`.
pub open spec fn rotated_ccw(b: Seq<int>) -> Seq<int> {
    Seq::new(16, |i: int| b[idx(i % 4, 3 - i / 4)])
}

/// Row `r` of the board, left to right.
pub open spec fn row_of(b: Seq<int>, r: int) -> Seq<int> {
    b.subrange(idx(r, 0), idx(r, 0) + 4)
}

/// Sum of the values in row `r`.
pub open spec fn row_sum(b: Seq<int>, r: int) -> int {
    b[idx(r, 0)] + b[idx(r, 1)] + b[idx(r, 2)] + b[idx(r, 3)]
}

/// Sum of all values on the board.
pub open spec fn total(b: Seq<int>) -> int {
    row_sum(b, 0) + row_sum(b, 1) + row_sum(b, 2) + row_sum(b, 3)
}

/// Every value is at most half a machine word, so no merge of two of them can overflow.
pub open spec fn small_tiles(b: Seq<int>) -> bool {
    forall|i: int| 0 <= i < b.len() ==> b[i] <= usize::MAX / 2
}

/// A move to the left cannot overflow: either all values together fit in a machine word,
/// or each is at most half of one.
pub open spec fn slide_fits(b: Seq<int>) -> bool {
    total(b) <= usize::MAX || small_tiles(b)
}

/// The tiles of a row in order, the empty cells left out.
pub open spec fn tiles(s: Seq<int>) -> Seq<int>
    decreases s.len(),
{
    if s.len() == 0 {
        s
    } else if s[0] == 0 {
        tiles(s.drop_first())
    } else {
        seq![s[0]] + tiles(s.drop_first())
    }
}

/// Merges, from the left, each pair of equal neighbours in a sequence of tiles into one
/// tile of twice the value; a tile takes part in at most one merge.
pub open spec fn merged(t: Seq<int>) -> Seq<int>
    decreases t.len(),
{
    if t.len() < 2 {
        t
    } else if t[0] == t[1] {
        seq![2 * t[0]] + merged(t.subrange(2, t.len() as int))
    } else {
        seq![t[0]] + merged(t.drop_first())
    }
}

/// `t` followed by empty cells up to length `n`.
pub open spec fn padded(t: Seq<int>, n: int) -> Seq<int> {
    t + Seq::new((n - t.len()) as nat, |i: int| 0int)
}

/// A row after a move to the left: its tiles slide to the left, neighbours of equal value
/// merge, and the rest of the row is empty.
pub open spec fn slid_row(s: Seq<int>) -> Seq<int> {
    padded(merged(tiles(s)), s.len() as int)
}

/// The board after a move to the left, each row slid on its own.
pub open spec fn moved_left(b: Seq<int>) -> Seq<int> {
    Seq::new(16, |i: int| slid_row(row_of(b, i / 4))[i % 4])
}

proof fn lemma_tiles_step(s: Seq<int>, i: int)
    requires
        0 <= i < s.len(),
    ensures
        tiles(s.subrange(i, s.len() as int)) == if s[i] == 0 {
            tiles(s.subrange(i + 1, s.len() as int))
        } else {
            seq![s[i]] + tiles(s.subrange(i + 1, s.len() as int))
        },
{
    assert(s.subrange(i, s.len() as int).drop_first() =~= s.subrange(i + 1, s.len() as int));
}

proof fn lemma_tiles_skip_empty(s: Seq<int>, i: int, j: int)
    requires
        0 <= i <= j <= s.len(),
        forall|k: int| i <= k < j ==> s[k] == 0,
    ensures
        tiles(s.subrange(i, s.len() as int)) == tiles(s.subrange(j, s.len() as int)),
    decreases j - i,
{
    if i < j {
        lemma_tiles_step(s, i);
        lemma_tiles_skip_empty(s, i + 1, j);
    }
}

proof fn lemma_merged_pair(x: int, y: int, a: Seq<int>)
    ensures
        merged(seq![x, y] + a) == if x == y {
            seq![2 * x] + merged(a)
        } else {
            seq![x] + merged(seq![y] + a)
        },
{
    let s = seq![x, y] + a;
    assert(s.subrange(2, s.len() as int) =~= a);
    assert(s.drop_first() =~= seq![y] + a);
}

/// What the cursor of a row slide keeps: the cells left of `left` hold finished tiles,
/// and merging what lies from `left` on completes the slid row.
spec fn cursor_inv(orig: Seq<int>, t: Seq<int>, left: int) -> bool {
    &&& t.len() == 4
    &&& 0 <= left < 4
    &&& forall|k: int| 0 <= k < left ==> t[k] != 0
    &&& merged(tiles(orig)) == t.subrange(0, left) + merged(tiles(t.subrange(left, 4)))
}

/// `right` is the first occupied cell after `left`.
spec fn next_tile(t: Seq<int>, left: int, right: int) -> bool {
    &&& left < right < 4
    &&& t[right] != 0
    &&& forall|k: int| left < k < right ==> t[k] == 0
}

/// Sum of the four cells of a row.
spec fn cells_sum(t: Seq<int>) -> int {
    t[0] + t[1] + t[2] + t[3]
}

proof fn lemma_cells_sum_update(t: Seq<int>, i: int, v: int)
    requires
        t.len() == 4,
        0 <= i < 4,
    ensures
        cells_sum(t.update(i, v)) == cells_sum(t) - t[i] + v,
{
    if i == 0 {
    } else if i == 1 {
    } else if i == 2 {
    } else {
    }
}

proof fn lemma_cursor_start(t: Seq<int>)
    requires
        t.len() == 4,
    ensures
        cursor_inv(t, t, 0),
{
    assert(t.subrange(0, 4) =~= t);
    assert(t.subrange(0, 0) + merged(tiles(t)) =~= merged(tiles(t)));
}

proof fn lemma_cursor_split(t: Seq<int>, left: int, right: int)
    requires
        t.len() == 4,
        0 <= left,
        next_tile(t, left, right),
    ensures
        tiles(t.subrange(left, 4)) == (if t[left] == 0 {
            seq![t[right]]
        } else {
            seq![t[left], t[right]]
        }) + tiles(t.subrange(right + 1, 4)),
{
    lemma_tiles_skip_empty(t, left + 1, right);
    lemma_tiles_step(t, right);
    lemma_tiles_step(t, left);
    let rest = tiles(t.subrange(right + 1, 4));
    assert(seq![t[left]] + (seq![t[right]] + rest) =~= seq![t[left], t[right]] + rest);
}

proof fn lemma_cursor_slide(orig: Seq<int>, t: Seq<int>, left: int, right: int)
    requires
        cursor_inv(orig, t, left),
        next_tile(t, left, right),
        t[left] == 0,
    ensures
        cursor_inv(orig, t.update(left, t[right]).update(right, 0), left),
{
    let t2 = t.update(left, t[right]).update(right, 0);
    lemma_cursor_split(t, left, right);
    lemma_tiles_step(t2, left);
    lemma_tiles_skip_empty(t2, left + 1, right + 1);
    assert(t2.subrange(right + 1, 4) =~= t.subrange(right + 1, 4));
    assert(t2.subrange(0, left) =~= t.subrange(0, left));
}

proof fn lemma_cursor_merge(orig: Seq<int>, t: Seq<int>, left: int, right: int)
    requires
        cursor_inv(orig, t, left),
        next_tile(t, left, right),
        t[left] == t[right],
    ensures
        cursor_inv(orig, t.update(left, 2 * t[left]).update(right, 0), left + 1),
{
    let t2 = t.update(left, 2 * t[left]).update(right, 0);
    let rest = tiles(t.subrange(right + 1, 4));
    lemma_cursor_split(t, left, right);
    lemma_merged_pair(t[left], t[right], rest);
    lemma_tiles_skip_empty(t2, left + 1, right + 1);
    assert(t2.subrange(right + 1, 4) =~= t.subrange(right + 1, 4));
    assert(t2.subrange(0, left + 1) =~= t.subrange(0, left) + seq![2 * t[left]]);
    assert(t.subrange(0, left) + (seq![2 * t[left]] + merged(rest)) =~= t2.subrange(0, left + 1)
        + merged(rest));
}

proof fn lemma_cursor_shift(orig: Seq<int>, t: Seq<int>, left: int, right: int)
    requires
        cursor_inv(orig, t, left),
        next_tile(t, left, right),
        t[left] != 0,
        t[left] != t[right],
    ensures
        cursor_inv(
            orig,
            if right == left + 1 {
                t
            } else {
                t.update(left + 1, t[right]).update(right, 0)
            },
            left + 1,
        ),
{
    let t2 = if right == left + 1 {
        t
    } else {
        t.update(left + 1, t[right]).update(right, 0)
    };
    let rest = tiles(t.subrange(right + 1, 4));
    lemma_cursor_split(t, left, right);
    lemma_merged_pair(t[left], t[right], rest);
    lemma_tiles_step(t2, left + 1);
    lemma_tiles_skip_empty(t2, left + 2, right + 1);
    assert(t2.subrange(right + 1, 4) =~= t.subrange(right + 1, 4));
    assert(t2.subrange(0, left + 1) =~= t.subrange(0, left) + seq![t[left]]);
    let tail = merged(seq![t[right]] + rest);
    assert(t.subrange(0, left) + (seq![t[left]] + tail) =~= t2.subrange(0, left + 1) + tail);
}

proof fn lemma_cursor_done(orig: Seq<int>, t: Seq<int>, left: int)
    requires
        cursor_inv(orig, t, left),
        orig.len() == 4,
        forall|k: int| left < k < 4 ==> t[k] == 0,
    ensures
        t == slid_row(orig),
{
    lemma_tiles_skip_empty(t, left + 1, 4);
    lemma_tiles_step(t, left);
    assert(t.subrange(4, 4) =~= Seq::<int>::empty());
    assert(t =~= padded(merged(tiles(orig)), 4));
}

/// `x` is one of the tiles of `t`, or twice one of them.
pub open spec fn tile_or_double(t: Seq<int>, x: int) -> bool {
    exists|i: int| 0 <= i < t.len() && (x == t[i] || x == 2 * t[i])
}

/// Merging keeps at least half of the tiles (rounded up) and never more, and each tile
/// that comes out is a tile that went in or twice one: no tile merges twice.
pub proof fn lemma_merged_shape(t: Seq<int>)
    ensures
        (t.len() + 1) / 2 <= merged(t).len() <= t.len(),
        forall|j: int| 0 <= j < merged(t).len() ==> tile_or_double(t, #[trigger] merged(t)[j]),
    decreases t.len(),
{
    if t.len() >= 2 {
        let step: int = if t[0] == t[1] {
            2
        } else {
            1
        };
        let rest = t.subrange(step, t.len() as int);
        lemma_merged_shape(rest);
        if t[0] != t[1] {
            assert(rest =~= t.drop_first());
        }
        assert forall|j: int| 0 <= j < merged(t).len() implies tile_or_double(
            t,
            #[trigger] merged(t)[j],
        ) by {
            if j == 0 {
                assert(merged(t)[0] == t[0] || merged(t)[0] == 2 * t[0]);
            } else {
                assert(merged(t)[j] == merged(rest)[j - 1]);
                assert(tile_or_double(rest, merged(rest)[j - 1]));
                let i = choose|i: int|
                    0 <= i < rest.len() && (merged(rest)[j - 1] == rest[i] || merged(rest)[j - 1] == 2
                        * rest[i]);
                assert(rest[i] == t[i + step]);
            }
        }
    } else {
        assert forall|j: int| 0 <= j < merged(t).len() implies tile_or_double(
            t,
            #[trigger] merged(t)[j],
        ) by {
            assert(merged(t)[j] == t[j]);
        }
    }
}

/// Turning a board a quarter turn clockwise and then back counter-clockwise gives the
/// board back.
pub proof fn lemma_rotation_round_trip(b: Seq<int>)
    requires
        b.len() == 16,
    ensures
        rotated_ccw(rotated_cw(b)) == b,
{
    assert forall|i: int| 0 <= i < 16 implies rotated_ccw(rotated_cw(b))[i] == b[i] by {
        lemma_cell_coords(i % 4, 3 - i / 4);
    }
    assert(rotated_ccw(rotated_cw(b)) =~= b);
}

/// Turning a board a quarter turn counter-clockwise and then back clockwise gives the
/// board back.
pub proof fn lemma_rotation_round_trip_reverse(b: Seq<int>)
    requires
        b.len() == 16,
    ensures
        rotated_cw(rotated_ccw(b)) == b,
{
    assert forall|i: int| 0 <= i < 16 implies rotated_cw(rotated_ccw(b))[i] == b[i] by {
        lemma_cell_coords(3 - i % 4, i / 4);
    }
    assert(rotated_cw(rotated_ccw(b)) =~= b);
}

/// A quarter turn either way moves tiles around without changing their values, so the
/// total of the board stays the same, and so does a bound on every value.
pub proof fn lemma_rotation_keeps_total(b: Seq<int>)
    requires
        b.len() == 16,
    ensures
        total(rotated_cw(b)) == total(b),
        total(rotated_ccw(b)) == total(b),
        small_tiles(b) ==> small_tiles(rotated_cw(b)) && small_tiles(rotated_ccw(b)),
{
    if small_tiles(b) {
        assert forall|i: int| 0 <= i < 16 implies rotated_cw(b)[i] <= usize::MAX / 2 by {
            assert(0 <= idx(3 - i % 4, i / 4) < 16);
        }
        assert forall|i: int| 0 <= i < 16 implies rotated_ccw(b)[i] <= usize::MAX / 2 by {
            assert(0 <= idx(i % 4, 3 - i / 4) < 16);
        }
    }
}

proof fn lemma_cell_coords(r: int, c: int)
    requires
        0 <= r < 4,
        0 <= c < 4,
    ensures
        idx(r, c) / 4 == r,
        idx(r, c) % 4 == c,
{
}

/// The values of a row of cells as integers.
spec fn cells_view(a: [usize; 4]) -> Seq<int> {
    Seq::new(4, |i: int| a[i] as int)
}

/// Slides a row to the left: tiles move left over empty cells, and a tile that meets a
/// tile of the same value that has not merged yet merges with it into one tile of twice
/// the value.
#[verifier::rlimit(40)]
fn slide_cells_left(cells: &mut [usize; 4])
    requires
        cells_sum(cells_view(*old(cells))) <= usize::MAX || small_tiles(cells_view(*old(cells))),
    ensures
        cells_view(*final(cells)) == slid_row(cells_view(*old(cells))),
        cells_sum(cells_view(*final(cells))) == cells_sum(cells_view(*old(cells))),
{
    let ghost orig = cells_view(*cells);
    let mut left: usize = 0;
    proof {
        lemma_cursor_start(orig);
    }
    loop
        invariant
            orig.len() == 4,
            cursor_inv(orig, cells_view(*cells), left as int),
            cells_sum(cells_view(*cells)) == cells_sum(orig),
            cells_sum(orig) <= usize::MAX || small_tiles(orig),
            small_tiles(orig) ==> forall|k: int|
                left <= k < 4 ==> #[trigger] cells_view(*cells)[k] <= usize::MAX / 2,
        ensures
            cells_view(*cells) == slid_row(orig),
            cells_sum(cells_view(*cells)) == cells_sum(orig),
        decreases 2 * (4 - left) + if cells[left as int] == 0 {
            1int
        } else {
            0int
        },
    {
        let ghost t = cells_view(*cells);
        let left_tile = cells[left];
        let mut right: usize = left + 1;
        while right < SIDE && cells[right] == 0
            invariant
                left < right <= 4,
                left < 4,
                t == cells_view(*cells),
                forall|k: int| left < k < right ==> t[k] == 0,
            decreases 4 - right,
        {
            right = right + 1;
        }
        if right == SIDE {
            proof {
                lemma_cursor_done(orig, t, left as int);
            }
            break;
        }
        let right_tile = cells[right];
        assert(next_tile(t, left as int, right as int));
        assert(left_tile + right_tile <= cells_sum(t)) by {
            assert(left == 0 || left == 1 || left == 2);
            assert(right == 1 || right == 2 || right == 3);
        }
        assert(small_tiles(orig) ==> right_tile <= usize::MAX / 2) by {
            if small_tiles(orig) {
                assert(cells_view(*cells)[right as int] <= usize::MAX / 2);
            }
        }
        if left_tile == 0 {
            cells[left] = right_tile;
            cells[right] = 0;
            proof {
                let t1 = t.update(left as int, t[right as int]);
                lemma_cursor_slide(orig, t, left as int, right as int);
                lemma_cells_sum_update(t, left as int, t[right as int]);
                lemma_cells_sum_update(t1, right as int, 0);
                assert(cells_view(*cells) =~= t1.update(right as int, 0));
            }
        } else if left_tile == right_tile {
            cells[left] = 2 * left_tile;
            cells[right] = 0;
            proof {
                let t1 = t.update(left as int, 2 * t[left as int]);
                lemma_cursor_merge(orig, t, left as int, right as int);
                lemma_cells_sum_update(t, left as int, 2 * t[left as int]);
                lemma_cells_sum_update(t1, right as int, 0);
                assert(cells_view(*cells) =~= t1.update(right as int, 0));
            }
            left = left + 1;
        } else {
            cells[left + 1] = right_tile;
            if right != left + 1 {
                cells[right] = 0;
            }
            proof {
                let t1 = t.update(left + 1, t[right as int]);
                lemma_cursor_shift(orig, t, left as int, right as int);
                if right == left + 1 {
                    assert(cells_view(*cells) =~= t);
                } else {
                    lemma_cells_sum_update(t, left + 1, t[right as int]);
                    lemma_cells_sum_update(t1, right as int, 0);
                    assert(cells_view(*cells) =~= t1.update(right as int, 0));
                }
            }
            left = left + 1;
        }
    }
}

impl Board {
    /// The value at row `r`, column `c`.
    pub fn get(&self, r: usize, c: usize) -> (v: usize)
        requires
            r < SIDE,
            c < SIDE,
        ensures
            v as int == self@[idx(r as int, c as int)],
    {
        self.0[4 * r + c]
    }

    /// Turns the board a quarter turn clockwise.
    pub fn rotate_clockwise(&mut self)
        ensures
            final(self)@ == rotated_cw(old(self)@),
    {
        let mut rotated: [usize; 16] = [0; 16];
        for r in 0..SIDE
            invariant
                forall|r0: int, c0: int|
                    0 <= r0 < r && 0 <= c0 < 4 ==> rotated[idx(c0, 3 - r0)] == self.0[idx(r0, c0)],
        {
            for c in 0..SIDE
                invariant
                    r < 4,
                    forall|r0: int, c0: int|
                        0 <= r0 < r && 0 <= c0 < 4 ==> rotated[idx(c0, 3 - r0)] == self.0[idx(r0, c0)],
                    forall|c0: int| 0 <= c0 < c ==> rotated[idx(c0, 3 - r as int)] == self.0[idx(r as int, c0)],
            {
                rotated[4 * c + (SIDE - 1 - r)] = self.0[4 * r + c];
            }
        }
        let ghost before = self@;
        self.0 = rotated;
        assert(self@ =~= rotated_cw(before)) by {
            assert forall|i: int| 0 <= i < 16 implies self@[i] == rotated_cw(before)[i] by {
                let r0 = 3 - i % 4;
                let c0 = i / 4;
                assert(idx(c0, 3 - r0) == i);
            }
        }
    }

    /// Turns the board a quarter turn counter-clockwise.
    pub fn rotate_counter_clockwise(&mut self)
        ensures
            final(self)@ == rotated_ccw(old(self)@),
    {
        let mut rotated: [usize; 16] = [0; 16];
        for r in 0..SIDE
            invariant
                forall|r0: int, c0: int|
                    0 <= r0 < r && 0 <= c0 < 4 ==> rotated[idx(3 - c0, r0)] == self.0[idx(r0, c0)],
        {
            for c in 0..SIDE
                invariant
                    r < 4,
                    forall|r0: int, c0: int|
                        0 <= r0 < r && 0 <= c0 < 4 ==> rotated[idx(3 - c0, r0)] == self.0[idx(r0, c0)],
                    forall|c0: int| 0 <= c0 < c ==> rotated[idx(3 - c0, r as int)] == self.0[idx(r as int, c0)],
            {
                rotated[4 * (SIDE - 1 - c) + r] = self.0[4 * r + c];
            }
        }
        let ghost before = self@;
        self.0 = rotated;
        assert(self@ =~= rotated_ccw(before)) by {
            assert forall|i: int| 0 <= i < 16 implies self@[i] == rotated_ccw(before)[i] by {
                let r0 = i % 4;
                let c0 = 3 - i / 4;
                assert(idx(3 - c0, r0) == i);
            }
        }
    }


    /// Moves every tile as far left as it can go, merging each pair of equal tiles that
    /// meet; no tile merges twice in one move.
    pub fn move_left(&mut self)
        requires
            slide_fits(old(self)@),
        ensures
            final(self)@ == moved_left(old(self)@),
            total(final(self)@) == total(old(self)@),
    {
        let ghost before = self@;
        for r in 0..SIDE
            invariant
                before.len() == 16,
                slide_fits(before),
                forall|r0: int| 0 <= r0 < r ==> row_of(self@, r0) == slid_row(row_of(before, r0)),
                forall|r0: int| 0 <= r0 < r ==> row_sum(self@, r0) == row_sum(before, r0),
                forall|i: int| 4 * r <= i < 16 ==> self@[i] == before[i],
        {
            let base: usize = 4 * r;
            let mut cells: [usize; 4] = [self.0[base], self.0[base + 1], self.0[base + 2], self.0[base + 3]];
            assert(cells_view(cells) =~= row_of(before, r as int));
            assert(cells_sum(cells_view(cells)) == row_sum(before, r as int));
            assert(small_tiles(before) ==> small_tiles(cells_view(cells)));
            let ghost row_before = cells_view(cells);
            slide_cells_left(&mut cells);
            assert(cells_view(cells) == slid_row(row_of(before, r as int)));
            let ghost mid = self@;
            self.0[base] = cells[0];
            self.0[base + 1] = cells[1];
            self.0[base + 2] = cells[2];
            self.0[base + 3] = cells[3];
            assert(row_of(self@, r as int) =~= cells_view(cells));
            assert forall|r0: int| 0 <= r0 < r implies row_of(self@, r0) == row_of(mid, r0) by {
                assert(row_of(self@, r0) =~= row_of(mid, r0));
            }
            assert(row_sum(self@, r as int) == cells_sum(cells_view(cells)));
            assert forall|r0: int| 0 <= r0 <= r implies row_of(self@, r0) == slid_row(
                row_of(before, r0),
            ) by {
                if r0 < r {
                    assert(row_of(mid, r0) == slid_row(row_of(before, r0)));
                }
            }
        }
        assert forall|i: int| 0 <= i < 16 implies self@[i] == moved_left(before)[i] by {
            lemma_cell_coords(i / 4, i % 4);
            assert(self@[i] == row_of(self@, i / 4)[i % 4]);
        }
        assert(self@ =~= moved_left(before));
    }

}

} // verus!
