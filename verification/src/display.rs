use vstd::prelude::*;

verus! {

/// A framebuffer value sequence is well formed when it covers the whole 64x32
/// grid, one cell per pixel, and every cell is a single bit.
pub open spec fn screen_wf(s: Seq<u8>) -> bool {
    &&& s.len() == 2048
    &&& forall|i: int| 0 <= i < 2048 ==> s[i] <= 1
}

/// The sprite bit at column `col` of one sprite row byte; the most significant
/// bit is the leftmost pixel.
pub open spec fn spec_row_bit(line: u8, col: int) -> u8 {
    (line >> ((7 - col) as u8)) & 1
}

/// The framebuffer cell that sprite cell (`row`, `col`) of a blit with origin
/// (`ox`, `oy`) lands in: each axis wraps independently around the grid.
pub open spec fn dest_index(ox: int, oy: int, row: int, col: int) -> int {
    ((oy + row) % 32) * 64 + ((ox + col) % 64)
}

/// Whether some set sprite bit strictly before sprite cell (`rd`, `cd`) in
/// raster order lands on framebuffer cell `idx`.
pub open spec fn hit_before(rows: Seq<u8>, ox: int, oy: int, rd: int, cd: int, idx: int) -> bool {
    exists|row: int, col: int|
        #![trigger dest_index(ox, oy, row, col)]
        {
            &&& 0 <= row < rows.len()
            &&& 0 <= col < 8
            &&& row < rd || (row == rd && col < cd)
            &&& spec_row_bit(rows[row], col) == 1
            &&& dest_index(ox, oy, row, col) == idx
        }
}

/// A framebuffer bit after an XOR with a set sprite bit.
pub open spec fn flip(b: u8) -> u8 {
    if b == 1 {
        0
    } else {
        1
    }
}

/// The framebuffer after the sprite bits strictly before raster position
/// (`rd`, `cd`) have been blitted onto `s`.
pub open spec fn draw_upto(s: Seq<u8>, rows: Seq<u8>, ox: int, oy: int, rd: int, cd: int) -> Seq<
    u8,
> {
    Seq::new(
        s.len(),
        |idx: int|
            if hit_before(rows, ox, oy, rd, cd, idx) {
                flip(s[idx])
            } else {
                s[idx]
            },
    )
}

/// The framebuffer after blitting the whole sprite `rows` at origin
/// (`ox`, `oy`): every pixel that a set sprite bit lands on (wrapping on both
/// axes) is toggled, and every other pixel keeps its value.
pub open spec fn spec_draw(s: Seq<u8>, rows: Seq<u8>, ox: int, oy: int) -> Seq<u8> {
    draw_upto(s, rows, ox, oy, rows.len() as int, 0)
}

/// Whether some set sprite bit strictly before raster position (`rd`, `cd`)
/// lands on a pixel of `s` that is already set.
pub open spec fn collision_before(
    s: Seq<u8>,
    rows: Seq<u8>,
    ox: int,
    oy: int,
    rd: int,
    cd: int,
) -> bool {
    exists|row: int, col: int|
        #![trigger dest_index(ox, oy, row, col)]
        {
            &&& 0 <= row < rows.len()
            &&& 0 <= col < 8
            &&& row < rd || (row == rd && col < cd)
            &&& spec_row_bit(rows[row], col) == 1
            &&& s[dest_index(ox, oy, row, col)] == 1
        }
}

/// Whether blitting the sprite `rows` at origin (`ox`, `oy`) turns some
/// already-set pixel of `s` off.
pub open spec fn spec_draw_collision(s: Seq<u8>, rows: Seq<u8>, ox: int, oy: int) -> bool {
    collision_before(s, rows, ox, oy, rows.len() as int, 0)
}

/// Adding distinct offsets below the modulus to a common base gives distinct
/// remainders.
proof fn lemma_mod_window(a: int, r1: int, r2: int, m: int)
    requires
        0 < m,
        0 <= a,
        0 <= r1 < m,
        0 <= r2 < m,
        (a + r1) % m == (a + r2) % m,
    ensures
        r1 == r2,
{
    vstd::arithmetic::div_mod::lemma_fundamental_div_mod(a + r1, m);
    vstd::arithmetic::div_mod::lemma_fundamental_div_mod(a + r2, m);
    let q1 = (a + r1) / m;
    let q2 = (a + r2) / m;
    assert(r1 - r2 == m * (q1 - q2)) by (nonlinear_arith)
        requires
            a + r1 == m * q1 + (a + r1) % m,
            a + r2 == m * q2 + (a + r2) % m,
            (a + r1) % m == (a + r2) % m,
    ;
    assert(q1 == q2) by (nonlinear_arith)
        requires
            r1 - r2 == m * (q1 - q2),
            0 <= r1 < m,
            0 <= r2 < m,
            0 < m,
    ;
}

/// Two distinct sprite cells of one blit never land on the same framebuffer
/// cell: a sprite is at most 32 rows tall and 8 columns wide, so row offsets
/// stay distinct modulo 32 and column offsets modulo 64.
proof fn lemma_dest_index_unique(
    ox: int,
    oy: int,
    nrows: int,
    r1: int,
    c1: int,
    r2: int,
    c2: int,
)
    requires
        0 <= ox,
        0 <= oy,
        nrows <= 32,
        0 <= r1 < nrows,
        0 <= c1 < 8,
        0 <= r2 < nrows,
        0 <= c2 < 8,
        dest_index(ox, oy, r1, c1) == dest_index(ox, oy, r2, c2),
    ensures
        r1 == r2,
        c1 == c2,
{
    let py1 = (oy + r1) % 32;
    let py2 = (oy + r2) % 32;
    let px1 = (ox + c1) % 64;
    let px2 = (ox + c2) % 64;
    vstd::arithmetic::div_mod::lemma_mod_bound(oy + r1, 32);
    vstd::arithmetic::div_mod::lemma_mod_bound(oy + r2, 32);
    vstd::arithmetic::div_mod::lemma_mod_bound(ox + c1, 64);
    vstd::arithmetic::div_mod::lemma_mod_bound(ox + c2, 64);
    assert(py1 == py2 && px1 == px2) by (nonlinear_arith)
        requires
            py1 * 64 + px1 == py2 * 64 + px2,
            0 <= px1 < 64,
            0 <= px2 < 64,
            0 <= py1 < 32,
            0 <= py2 < 32,
    ;
    lemma_mod_window(oy, r1, r2, 32);
    lemma_mod_window(ox, c1, c2, 64);
}

/// The framebuffer cell of a blit lies inside the grid.
proof fn lemma_dest_index_bounds(ox: int, oy: int, row: int, col: int)
    requires
        0 <= ox,
        0 <= oy,
        0 <= row,
        0 <= col,
    ensures
        0 <= dest_index(ox, oy, row, col) < 2048,
{
    vstd::arithmetic::div_mod::lemma_mod_bound(oy + row, 32);
    vstd::arithmetic::div_mod::lemma_mod_bound(ox + col, 64);
}

/// The cell that sprite cell (`r`, `c`) lands in has not been touched by any
/// sprite cell strictly before (`r`, `c`) in the same blit.
proof fn lemma_not_hit_before(rows: Seq<u8>, ox: int, oy: int, r: int, c: int)
    requires
        0 <= ox,
        0 <= oy,
        rows.len() <= 32,
        0 <= r < rows.len(),
        0 <= c < 8,
    ensures
        !hit_before(rows, ox, oy, r, c, dest_index(ox, oy, r, c)),
{
    let di = dest_index(ox, oy, r, c);
    if hit_before(rows, ox, oy, r, c, di) {
        let (row, col) = choose|row: int, col: int|
            #![trigger dest_index(ox, oy, row, col)]
            {
                &&& 0 <= row < rows.len()
                &&& 0 <= col < 8
                &&& row < r || (row == r && col < c)
                &&& spec_row_bit(rows[row], col) == 1
                &&& dest_index(ox, oy, row, col) == di
            };
        lemma_dest_index_unique(ox, oy, rows.len() as int, row, col, r, c);
        assert(false);
    }
}

/// Blitting one more sprite cell extends the partial blit by exactly one
/// raster position: if the sprite bit is set it toggles its destination cell,
/// otherwise it changes nothing; and it collides exactly when it lands on an
/// already-set pixel of the framebuffer as it was before the blit.
proof fn lemma_draw_step(s0: Seq<u8>, rows: Seq<u8>, ox: int, oy: int, r: int, c: int)
    requires
        screen_wf(s0),
        0 <= ox,
        0 <= oy,
        rows.len() <= 32,
        0 <= r < rows.len(),
        0 <= c < 8,
    ensures
        spec_row_bit(rows[r], c) == 1 ==> draw_upto(s0, rows, ox, oy, r, c + 1) == draw_upto(
            s0,
            rows,
            ox,
            oy,
            r,
            c,
        ).update(dest_index(ox, oy, r, c), flip(s0[dest_index(ox, oy, r, c)])),
        spec_row_bit(rows[r], c) != 1 ==> draw_upto(s0, rows, ox, oy, r, c + 1) == draw_upto(
            s0,
            rows,
            ox,
            oy,
            r,
            c,
        ),
        collision_before(s0, rows, ox, oy, r, c + 1) <==> (collision_before(s0, rows, ox, oy, r, c)
            || (spec_row_bit(rows[r], c) == 1 && s0[dest_index(ox, oy, r, c)] == 1)),
{
    let di = dest_index(ox, oy, r, c);
    lemma_dest_index_bounds(ox, oy, r, c);
    let prev = draw_upto(s0, rows, ox, oy, r, c);
    let next = draw_upto(s0, rows, ox, oy, r, c + 1);

    // Each framebuffer cell is hit strictly before (r, c + 1) exactly when it
    // is hit strictly before (r, c), or it is the target of (r, c) itself and
    // that sprite bit is set.
    assert forall|idx: int| 0 <= idx < 2048 implies (hit_before(rows, ox, oy, r, c + 1, idx) <==> (
    hit_before(rows, ox, oy, r, c, idx) || (spec_row_bit(rows[r], c) == 1 && idx == di))) by {
        if hit_before(rows, ox, oy, r, c + 1, idx) {
            let (row, col) = choose|row: int, col: int|
                #![trigger dest_index(ox, oy, row, col)]
                {
                    &&& 0 <= row < rows.len()
                    &&& 0 <= col < 8
                    &&& row < r || (row == r && col < c + 1)
                    &&& spec_row_bit(rows[row], col) == 1
                    &&& dest_index(ox, oy, row, col) == idx
                };
            if row == r && col == c {
                assert(spec_row_bit(rows[r], c) == 1 && idx == di);
            } else {
                assert(row < r || (row == r && col < c));
                assert(hit_before(rows, ox, oy, r, c, idx));
            }
        }
        if hit_before(rows, ox, oy, r, c, idx) {
            let (row, col) = choose|row: int, col: int|
                #![trigger dest_index(ox, oy, row, col)]
                {
                    &&& 0 <= row < rows.len()
                    &&& 0 <= col < 8
                    &&& row < r || (row == r && col < c)
                    &&& spec_row_bit(rows[row], col) == 1
                    &&& dest_index(ox, oy, row, col) == idx
                };
            assert(dest_index(ox, oy, row, col) == idx);
            assert(hit_before(rows, ox, oy, r, c + 1, idx));
        }
        if spec_row_bit(rows[r], c) == 1 && idx == di {
            assert(dest_index(ox, oy, r, c) == idx);
            assert(hit_before(rows, ox, oy, r, c + 1, idx));
        }
    }

    if spec_row_bit(rows[r], c) == 1 {
        lemma_not_hit_before(rows, ox, oy, r, c);
        assert(next =~= prev.update(di, flip(s0[di])));
    } else {
        assert(next =~= prev);
    }

    // The collision predicate extends the same way.
    if collision_before(s0, rows, ox, oy, r, c + 1) {
        let (row, col) = choose|row: int, col: int|
            #![trigger dest_index(ox, oy, row, col)]
            {
                &&& 0 <= row < rows.len()
                &&& 0 <= col < 8
                &&& row < r || (row == r && col < c + 1)
                &&& spec_row_bit(rows[row], col) == 1
                &&& s0[dest_index(ox, oy, row, col)] == 1
            };
        if row == r && col == c {
            assert(spec_row_bit(rows[r], c) == 1 && s0[di] == 1);
        } else {
            assert(collision_before(s0, rows, ox, oy, r, c));
        }
    }
    if collision_before(s0, rows, ox, oy, r, c) {
        let (row, col) = choose|row: int, col: int|
            #![trigger dest_index(ox, oy, row, col)]
            {
                &&& 0 <= row < rows.len()
                &&& 0 <= col < 8
                &&& row < r || (row == r && col < c)
                &&& spec_row_bit(rows[row], col) == 1
                &&& s0[dest_index(ox, oy, row, col)] == 1
            };
        assert(collision_before(s0, rows, ox, oy, r, c + 1));
    }
    if spec_row_bit(rows[r], c) == 1 && s0[di] == 1 {
        assert(dest_index(ox, oy, r, c) == di);
        assert(collision_before(s0, rows, ox, oy, r, c + 1));
    }
}

/// Finishing a sprite row at column 8 is the same partial blit as standing at
/// the start of the next row.
proof fn lemma_draw_row_rollover(s0: Seq<u8>, rows: Seq<u8>, ox: int, oy: int, r: int)
    requires
        0 <= r,
    ensures
        draw_upto(s0, rows, ox, oy, r, 8) == draw_upto(s0, rows, ox, oy, r + 1, 0),
        collision_before(s0, rows, ox, oy, r, 8) <==> collision_before(s0, rows, ox, oy, r + 1, 0),
{
    assert forall|idx: int| 0 <= idx < s0.len() implies (hit_before(rows, ox, oy, r, 8, idx) <==>
    hit_before(rows, ox, oy, r + 1, 0, idx)) by {
        if hit_before(rows, ox, oy, r, 8, idx) {
            let (row, col) = choose|row: int, col: int|
                #![trigger dest_index(ox, oy, row, col)]
                {
                    &&& 0 <= row < rows.len()
                    &&& 0 <= col < 8
                    &&& row < r || (row == r && col < 8)
                    &&& spec_row_bit(rows[row], col) == 1
                    &&& dest_index(ox, oy, row, col) == idx
                };
            assert(row < r + 1);
            assert(hit_before(rows, ox, oy, r + 1, 0, idx));
        }
        if hit_before(rows, ox, oy, r + 1, 0, idx) {
            let (row, col) = choose|row: int, col: int|
                #![trigger dest_index(ox, oy, row, col)]
                {
                    &&& 0 <= row < rows.len()
                    &&& 0 <= col < 8
                    &&& row < r + 1
                    &&& spec_row_bit(rows[row], col) == 1
                    &&& dest_index(ox, oy, row, col) == idx
                };
            assert(row < r || (row == r && col < 8));
            assert(hit_before(rows, ox, oy, r, 8, idx));
        }
    }
    assert(draw_upto(s0, rows, ox, oy, r, 8) =~= draw_upto(s0, rows, ox, oy, r + 1, 0));
    if collision_before(s0, rows, ox, oy, r, 8) {
        let (row, col) = choose|row: int, col: int|
            #![trigger dest_index(ox, oy, row, col)]
            {
                &&& 0 <= row < rows.len()
                &&& 0 <= col < 8
                &&& row < r || (row == r && col < 8)
                &&& spec_row_bit(rows[row], col) == 1
                &&& s0[dest_index(ox, oy, row, col)] == 1
            };
        assert(row < r + 1);
        assert(collision_before(s0, rows, ox, oy, r + 1, 0));
    }
    if collision_before(s0, rows, ox, oy, r + 1, 0) {
        let (row, col) = choose|row: int, col: int|
            #![trigger dest_index(ox, oy, row, col)]
            {
                &&& 0 <= row < rows.len()
                &&& 0 <= col < 8
                &&& row < r + 1
                &&& spec_row_bit(rows[row], col) == 1
                &&& s0[dest_index(ox, oy, row, col)] == 1
            };
        assert(row < r || (row == r && col < 8));
        assert(collision_before(s0, rows, ox, oy, r, 8));
    }
}

/// A blit never produces a framebuffer cell other than 0 or 1.
proof fn lemma_draw_preserves_wf(s: Seq<u8>, rows: Seq<u8>, ox: int, oy: int, rd: int, cd: int)
    requires
        screen_wf(s),
    ensures
        screen_wf(draw_upto(s, rows, ox, oy, rd, cd)),
{
}

/// Blitting the same sprite twice at the same origin restores the framebuffer:
/// the blit XOR-toggles a fixed set of cells, so it is its own inverse.
pub proof fn lemma_draw_involution(s: Seq<u8>, rows: Seq<u8>, ox: int, oy: int)
    requires
        screen_wf(s),
    ensures
        spec_draw(spec_draw(s, rows, ox, oy), rows, ox, oy) == s,
{
    let s1 = spec_draw(s, rows, ox, oy);
    assert(spec_draw(s1, rows, ox, oy) =~= s);
}

/// One sprite row byte, read as eight bits, most significant bit leftmost.
fn row_bit(line: u8, col: u8) -> (b: u8)
    requires
        col < 8,
    ensures
        b == spec_row_bit(line, col as int),
        b <= 1,
{
    let sh = 7 - col;
    let b = (line >> sh) & 1;
    proof {
        assert((line >> sh) & 1 <= 1) by (bit_vector);
    }
    b
}

/// The monochrome pixel display: a fixed 64x32 grid of single-bit cells,
/// stored row-major. It is mutated only by the sprite blit and by the clear
/// instruction, and read back one pixel at a time by the host renderer.
pub struct Screen {
    cells: Vec<u8>,
}

impl View for Screen {
    type V = Seq<u8>;

    closed spec fn view(&self) -> Seq<u8> {
        self.cells@
    }
}

impl Screen {
    /// A blank display: every pixel off.
    pub fn new() -> (s: Screen)
        ensures
            screen_wf(s@),
            forall|i: int| 0 <= i < 2048 ==> s@[i] == 0,
    {
        let mut cells: Vec<u8> = Vec::new();
        let mut i: usize = 0;
        while i < 2048
            invariant
                i <= 2048,
                cells@.len() == i,
                forall|j: int| 0 <= j < i ==> cells@[j] == 0,
            decreases 2048 - i,
        {
            cells.push(0);
            i += 1;
        }
        Screen { cells }
    }

    /// Turn every pixel off.
    pub fn clear(&mut self)
        requires
            screen_wf(old(self)@),
        ensures
            screen_wf(final(self)@),
            forall|i: int| 0 <= i < 2048 ==> final(self)@[i] == 0,
    {
        let mut i: usize = 0;
        while i < 2048
            invariant
                i <= 2048,
                self.cells@.len() == 2048,
                forall|j: int| 0 <= j < i ==> self.cells@[j] == 0,
                forall|j: int| 0 <= j < 2048 ==> self.cells@[j] <= 1,
            decreases 2048 - i,
        {
            self.cells.set(i, 0);
            i += 1;
        }
    }

    /// The pixel at column `x` of row `y`: 1 when lit, 0 when dark.
    pub fn pixel(&self, x: usize, y: usize) -> (p: u8)
        requires
            screen_wf(self@),
            x < 64,
            y < 32,
        ensures
            p == self@[y * 64 + x],
            p <= 1,
    {
        self.cells[y * 64 + x]
    }

    /// Blit the sprite `rows` at origin (`ox`, `oy`): each set sprite bit
    /// XOR-toggles the pixel it lands on, wrapping on both axes, and the
    /// result reports whether any toggle turned a lit pixel off.
    pub fn draw(&mut self, rows: &Vec<u8>, ox: u8, oy: u8) -> (collision: bool)
        requires
            screen_wf(old(self)@),
            rows@.len() <= 32,
        ensures
            screen_wf(final(self)@),
            final(self)@ == spec_draw(old(self)@, rows@, ox as int, oy as int),
            collision == spec_draw_collision(old(self)@, rows@, ox as int, oy as int),
    {
        let ghost s0 = self.cells@;
        let ghost oxi = ox as int;
        let ghost oyi = oy as int;
        let n = rows.len();
        let mut collision = false;
        let mut row: usize = 0;
        proof {
            assert(draw_upto(s0, rows@, oxi, oyi, 0, 0) =~= s0);
        }
        while row < n
            invariant
                screen_wf(s0),
                rows@.len() <= 32,
                n == rows@.len(),
                row <= n,
                oxi == ox as int,
                oyi == oy as int,
                self.cells@ == draw_upto(s0, rows@, oxi, oyi, row as int, 0),
                collision == collision_before(s0, rows@, oxi, oyi, row as int, 0),
            decreases n - row,
        {
            let line = rows[row];
            let mut col: usize = 0;
            while col < 8
                invariant
                    screen_wf(s0),
                    rows@.len() <= 32,
                    n == rows@.len(),
                    row < n,
                    col <= 8,
                    oxi == ox as int,
                    oyi == oy as int,
                    line == rows@[row as int],
                    self.cells@ == draw_upto(s0, rows@, oxi, oyi, row as int, col as int),
                    collision == collision_before(s0, rows@, oxi, oyi, row as int, col as int),
                decreases 8 - col,
            {
                let dx = (ox as usize + col) % 64;
                let dy = (oy as usize + row) % 32;
                let di = dy * 64 + dx;
                proof {
                    lemma_dest_index_bounds(oxi, oyi, row as int, col as int);
                    assert(di == dest_index(oxi, oyi, row as int, col as int));
                    lemma_draw_preserves_wf(s0, rows@, oxi, oyi, row as int, col as int);
                    lemma_not_hit_before(rows@, oxi, oyi, row as int, col as int);
                    lemma_draw_step(s0, rows@, oxi, oyi, row as int, col as int);
                }
                let bit = row_bit(line, col as u8);
                if bit == 1 {
                    let cur = self.cells[di];
                    proof {
                        assert(cur == s0[di as int]);
                    }
                    if cur == 1 {
                        collision = true;
                        self.cells.set(di, 0);
                    } else {
                        self.cells.set(di, 1);
                    }
                }
                col += 1;
            }
            proof {
                lemma_draw_row_rollover(s0, rows@, oxi, oyi, row as int);
            }
            row += 1;
        }
        proof {
            lemma_draw_preserves_wf(s0, rows@, oxi, oyi, n as int, 0);
        }
        collision
    }
}

} // verus!
