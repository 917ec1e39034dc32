use vstd::prelude::*;
use crate::random::{random_u32, RandomError};

verus! {

broadcast use vstd::seq_lib::group_seq_properties;

/// Rows of the pipe grid.
pub const ROWS: usize = 6;
/// Columns of the pipe grid.
pub const COLS: usize = 6;
/// Cells of the pipe grid, stored row by row.
pub const CELLS: usize = 36;

/// The five pipe pieces. A piece opens towards some of the four sides
/// `0` (up), `1` (right), `2` (down), `3` (left) before it is rotated.
#[allow(non_camel_case_types)]
#[derive(Clone, Copy, Debug, PartialEq, Eq, Structural)]
pub enum PipeType {
    SINGLE,
    LINE,
    CORNER,
    TEE,
    CROSS,
}

/// A pipe piece and its rotation, counted in quarter turns clockwise.
#[derive(Clone, Copy, Debug, PartialEq, Eq, Structural)]
pub struct Pipe {
    pub variant: PipeType,
    pub rotation: u8,
}

/// A cell of the grid: `x` is the column, `y` the row.
#[derive(Clone, Copy, Debug, PartialEq, Eq, Structural)]
pub struct GridPos {
    pub x: u32,
    pub y: u32,
}

/// The sides a piece opens towards before it is rotated.
pub open spec fn base_dirs(t: PipeType) -> Seq<u8> {
    match t {
        PipeType::SINGLE => seq![0u8],
        PipeType::LINE => seq![0u8, 2u8],
        PipeType::CORNER => seq![0u8, 1u8],
        PipeType::TEE => seq![0u8, 1u8, 3u8],
        PipeType::CROSS => seq![0u8, 1u8, 2u8, 3u8],
    }
}

/// The sides a piece opens towards after `rotation` quarter turns.
pub open spec fn sides_spec(t: PipeType, rotation: u8) -> Seq<u8> {
    base_dirs(t).map_values(|d: u8| ((d + rotation) % 4) as u8)
}

/// The sides a placed pipe opens towards.
pub open spec fn pipe_sides(p: Pipe) -> Seq<u8> {
    sides_spec(p.variant, p.rotation)
}

/// The sides a piece of type `pipe_type` opens towards after `rotation` quarter turns,
/// in the order of the piece's own sides.
pub fn get_sides(pipe_type: &PipeType, rotation: u8) -> (r: Vec<u8>)
    requires
        rotation <= 252,
    ensures
        r@ == sides_spec(*pipe_type, rotation),
{
    let dirs: Vec<u8> = match pipe_type {
        PipeType::SINGLE => vec![0],
        PipeType::LINE => vec![0, 2],
        PipeType::CORNER => vec![0, 1],
        PipeType::TEE => vec![0, 1, 3],
        PipeType::CROSS => vec![0, 1, 2, 3],
    };
    assert(dirs@ == base_dirs(*pipe_type));
    let mut out: Vec<u8> = Vec::new();
    let mut i: usize = 0;
    while i < dirs.len()
        invariant
            i <= dirs.len(),
            dirs@ == base_dirs(*pipe_type),
            rotation <= 252,
            out@ == dirs@.take(i as int).map_values(|d: u8| ((d + rotation) % 4) as u8),
        decreases dirs.len() - i,
    {
        assert(dirs[i as int] <= 3);
        out.push((dirs[i] + rotation) % 4);
        assert(dirs@.take(i + 1) == dirs@.take(i as int).push(dirs@[i as int]));
        i += 1;
    }
    assert(dirs@.take(dirs.len() as int) == dirs@);
    out
}

impl Pipe {
    /// The sides this pipe opens towards.
    pub fn get_sides(&self) -> (r: Vec<u8>)
        requires
            self.rotation <= 252,
        ensures
            r@ == pipe_sides(*self),
    {
        get_sides(&self.variant, self.rotation)
    }

    /// The frame of the pipe sprite sheet that draws this pipe.
    pub fn get_index(&self) -> (r: usize)
        ensures
            r == atlas_index(*self),
    {
        match self.variant {
            PipeType::LINE => {
                match self.rotation % 2 {
                    0 => 7,
                    1 => 13,
                    _ => 15,
                }
            },
            PipeType::TEE => {
                match self.rotation {
                    0 => 1,
                    1 => 4,
                    2 => 9,
                    3 => 6,
                    _ => 15,
                }
            },
            PipeType::CORNER => {
                match self.rotation {
                    0 => 0,
                    1 => 8,
                    2 => 10,
                    3 => 2,
                    _ => 15,
                }
            },
            PipeType::SINGLE => {
                match self.rotation {
                    0 => 3,
                    1 => 12,
                    2 => 11,
                    3 => 14,
                    _ => 15,
                }
            },
            PipeType::CROSS => { 5 },
        }
    }
}

/// Sprite frame of a pipe; `15` is the empty frame.
pub open spec fn atlas_index(p: Pipe) -> usize {
    match p.variant {
        PipeType::LINE => if p.rotation % 2 == 0 { 7 } else { 13 },
        PipeType::TEE => if p.rotation == 0 { 1 } else if p.rotation == 1 { 4 } else if p.rotation
            == 2 { 9 } else if p.rotation == 3 { 6 } else { 15 },
        PipeType::CORNER => if p.rotation == 0 { 0 } else if p.rotation == 1 { 8 } else if p.rotation
            == 2 { 10 } else if p.rotation == 3 { 2 } else { 15 },
        PipeType::SINGLE => if p.rotation == 0 { 3 } else if p.rotation == 1 { 12 } else if p.rotation
            == 2 { 11 } else if p.rotation == 3 { 14 } else { 15 },
        PipeType::CROSS => 5,
    }
}

/// The sprite frame that draws a pipe opening up (`u`), right (`r`), down
/// (`d`) and left (`l`) as given; `15`, the empty frame, when it opens nowhere.
pub open spec fn frame_for_sides(u: bool, r: bool, d: bool, l: bool) -> usize {
    if u && r && d && l {
        5
    } else if u && r && !d && l {
        1
    } else if u && r && d && !l {
        4
    } else if !u && r && d && l {
        9
    } else if u && !r && d && l {
        6
    } else if u && !r && d && !l {
        7
    } else if !u && r && !d && l {
        13
    } else if u && r && !d && !l {
        0
    } else if !u && r && d && !l {
        8
    } else if !u && !r && d && l {
        10
    } else if u && !r && !d && l {
        2
    } else if u && !r && !d && !l {
        3
    } else if !u && r && !d && !l {
        12
    } else if !u && !r && d && !l {
        11
    } else if !u && !r && !d && l {
        14
    } else {
        15
    }
}

/// Whether pipe `p` opens towards side `d`.
pub open spec fn opens_to(p: Pipe, d: u8) -> bool {
    pipe_sides(p).contains(d)
}

/// A pipe's sprite frame is the frame for the sides it opens towards.
proof fn lemma_atlas_from_sides(p: Pipe)
    requires
        p.rotation < 4,
    ensures
        atlas_index(p) == frame_for_sides(opens_to(p, 0), opens_to(p, 1), opens_to(p, 2), opens_to(p, 3)),
{
    let s = pipe_sides(p);
    let b = base_dirs(p.variant);
    let rot = p.rotation;
    assert(s.len() == b.len());
    assert forall|j: int| 0 <= j < s.len() implies s[j] == ((b[j] + rot) % 4) as u8 by {}
    let e0 = ((b[0] + rot) % 4) as u8;
    if b.len() == 1 {
        assert(s =~= seq![e0]);
    } else if b.len() == 2 {
        let e1 = ((b[1] + rot) % 4) as u8;
        assert(s =~= seq![e0, e1]);
    } else if b.len() == 3 {
        let e1 = ((b[1] + rot) % 4) as u8;
        let e2 = ((b[2] + rot) % 4) as u8;
        assert(s =~= seq![e0, e1, e2]);
    } else {
        let e1 = ((b[1] + rot) % 4) as u8;
        let e2 = ((b[2] + rot) % 4) as u8;
        let e3 = ((b[3] + rot) % 4) as u8;
        assert(s =~= seq![e0, e1, e2, e3]);
    }
}

/// The sprite frame of a pipe is fixed exactly by the set of sides it opens
/// towards: two pipes share a frame if and only if they open towards the same
/// sides (so a straight line looks the same turned half way round, and a
/// cross in any rotation).
pub proof fn lemma_atlas_index_by_sides(p: Pipe, q: Pipe)
    requires
        p.rotation < 4,
        q.rotation < 4,
    ensures
        (atlas_index(p) == atlas_index(q)) <==> (forall|d: u8| d < 4 ==> #[trigger] opens_to(p, d) == opens_to(q, d)),
{
    lemma_atlas_from_sides(p);
    lemma_atlas_from_sides(q);
    assert(atlas_index(p) != 15);
    assert(atlas_index(q) != 15);
    if atlas_index(p) == atlas_index(q) {
        assert forall|d: u8| d < 4 implies #[trigger] opens_to(p, d) == opens_to(q, d) by {
            assert(d == 0 || d == 1 || d == 2 || d == 3);
        }
    } else {
        if forall|d: u8| d < 4 ==> #[trigger] opens_to(p, d) == opens_to(q, d) {
            assert(opens_to(p, 0) == opens_to(q, 0));
            assert(opens_to(p, 1) == opens_to(q, 1));
            assert(opens_to(p, 2) == opens_to(q, 2));
            assert(opens_to(p, 3) == opens_to(q, 3));
        }
    }
}

/// The five pieces in the order in which candidates are listed.
pub open spec fn all_types() -> Seq<PipeType> {
    seq![PipeType::SINGLE, PipeType::LINE, PipeType::CORNER, PipeType::TEE, PipeType::CROSS]
}

impl PipeType {
    /// All five pieces.
    pub fn all() -> (r: [PipeType; 5])
        ensures
            r@ == all_types(),
    {
        [PipeType::SINGLE, PipeType::LINE, PipeType::CORNER, PipeType::TEE, PipeType::CROSS]
    }
}

/// The grid side opposite to `side`.
pub fn opposite_side(side: u8) -> (r: u8)
    requires
        side <= 253,
    ensures
        r == (side + 2) % 4,
{
    (side + 2) % 4
}

/// Whether a pipe in row `r`, column `c` may open towards `side` without
/// pointing out of the grid.
pub open spec fn side_in_grid(r: int, c: int, side: u8) -> bool {
    &&& !(side == 0 && r == 0)
    &&& !(side == 1 && c == COLS - 1)
    &&& !(side == 2 && r == ROWS - 1)
    &&& !(side == 3 && c == 0)
}

/// Keeps the sides of `inc_sides` that do not point out of the grid from `pos`.
pub fn filter_grid_corners(pos: (usize, usize), inc_sides: &[u8]) -> (allowed: Vec<u8>)
    ensures
        allowed@ == inc_sides@.filter(|s: u8| side_in_grid(pos.0 as int, pos.1 as int, s)),
{
    let (r, c) = pos;
    let ghost pred = |s: u8| side_in_grid(r as int, c as int, s);
    let mut allowed: Vec<u8> = Vec::new();
    let mut i: usize = 0;
    while i < inc_sides.len()
        invariant
            i <= inc_sides.len(),
            pos == (r, c),
            pred == (|s: u8| side_in_grid(r as int, c as int, s)),
            allowed@ == inc_sides@.take(i as int).filter(pred),
        decreases inc_sides.len() - i,
    {
        let side = inc_sides[i];
        assert(inc_sides@.take(i + 1) == inc_sides@.take(i as int).push(side));
        proof {
            inc_sides@.take(i as int).lemma_filter_push(side, pred);
        }
        if side == 0 && r == 0 {
        } else if side == 1 && c == COLS - 1 {
        } else if side == 2 && r == ROWS - 1 {
        } else if side == 3 && c == 0 {
        } else {
            allowed.push(side);
        }
        i += 1;
    }
    assert(inc_sides@.take(inc_sides.len() as int) == inc_sides@);
    allowed
}

/// Keeps the sides of `sides` that do not point out of the grid from `pos`;
/// `sides` itself is left as it was.
pub fn allowed_sides_grid_corners(pos: (usize, usize), sides: &mut Vec<u8>) -> (allowed: Vec<u8>)
    ensures
        final(sides)@ == old(sides)@,
        allowed@ == old(sides)@.filter(|s: u8| side_in_grid(pos.0 as int, pos.1 as int, s)),
{
    filter_grid_corners(pos, sides.as_slice())
}

/// The neighbours of row `r`, column `c` that lie in the grid, each with the side
/// that leads to it, listed in the order up, right, down, left.
pub open spec fn neighbors_spec(r: usize, c: usize) -> Seq<((usize, usize), u8)> {
    let up = if r > 0 { seq![(((r - 1) as usize, c), 0u8)] } else { Seq::empty() };
    let right = if c < COLS - 1 { seq![((r, (c + 1) as usize), 1u8)] } else { Seq::empty() };
    let down = if r < ROWS - 1 { seq![(((r + 1) as usize, c), 2u8)] } else { Seq::empty() };
    let left = if c > 0 { seq![((r, (c - 1) as usize), 3u8)] } else { Seq::empty() };
    up + right + down + left
}

/// The neighbours of row `r`, column `c` inside the grid, with the side leading to each.
pub fn neighbors(r: usize, c: usize) -> (result: Vec<((usize, usize), u8)>)
    ensures
        result@ == neighbors_spec(r, c),
{
    let mut result: Vec<((usize, usize), u8)> = Vec::new();
    if r > 0 {
        result.push(((r - 1, c), 0));
    }
    if c < COLS - 1 {
        result.push(((r, c + 1), 1));
    }
    if r < ROWS - 1 {
        result.push(((r + 1, c), 2));
    }
    if c > 0 {
        result.push(((r, c - 1), 3));
    }
    assert(result@ =~= neighbors_spec(r, c));
    result
}


/// The twenty (piece, rotation) pairs, piece by piece and rotation by rotation.
pub open spec fn all_pipes() -> Seq<Pipe> {
    Seq::new(20, |k: int| Pipe { variant: all_types()[k / 4], rotation: (k % 4) as u8 })
}

/// A pipe fits a cell when it opens towards every side in `required` and towards
/// no side outside `optional` and `required`.
pub open spec fn is_candidate(p: Pipe, optional: Seq<u8>, required: Seq<u8>) -> bool {
    &&& forall|s: u8| required.contains(s) ==> #[trigger] pipe_sides(p).contains(s)
    &&& forall|s: u8| #[trigger] pipe_sides(p).contains(s) ==> optional.contains(s) || required.contains(s)
}

fn contains_u8(v: &[u8], x: u8) -> (r: bool)
    ensures
        r == v@.contains(x),
{
    let mut i: usize = 0;
    while i < v.len()
        invariant
            i <= v.len(),
            forall|j: int| 0 <= j < i ==> v@[j] != x,
        decreases v.len() - i,
    {
        if v[i] == x {
            return true;
        }
        i += 1;
    }
    false
}

fn fits(sides: &[u8], optional: &[u8], required: &[u8]) -> (r: bool)
    ensures
        r == ((forall|s: u8| required@.contains(s) ==> #[trigger] sides@.contains(s)) && (forall|s: u8|
            #[trigger] sides@.contains(s) ==> optional@.contains(s) || required@.contains(s))),
{
    let mut i: usize = 0;
    while i < required.len()
        invariant
            i <= required.len(),
            forall|j: int| 0 <= j < i ==> sides@.contains(#[trigger] required@[j]),
        decreases required.len() - i,
    {
        if !contains_u8(sides, required[i]) {
            assert(required@.contains(required@[i as int]));
            return false;
        }
        i += 1;
    }
    assert forall|s: u8| required@.contains(s) implies #[trigger] sides@.contains(s) by {
        let j = choose|j: int| 0 <= j < required@.len() && required@[j] == s;
        assert(sides@.contains(required@[j]));
    }
    let mut i: usize = 0;
    while i < sides.len()
        invariant
            i <= sides.len(),
            forall|j: int|
                0 <= j < i ==> optional@.contains(#[trigger] sides@[j]) || required@.contains(sides@[j]),
        decreases sides.len() - i,
    {
        if !contains_u8(optional, sides[i]) && !contains_u8(required, sides[i]) {
            assert(sides@.contains(sides@[i as int]));
            return false;
        }
        i += 1;
    }
    assert forall|s: u8| #[trigger] sides@.contains(s) implies optional@.contains(s) || required@.contains(s) by {
        let j = choose|j: int| 0 <= j < sides@.len() && sides@[j] == s;
        assert(optional@.contains(sides@[j]) || required@.contains(sides@[j]));
    }
    true
}

/// Every (piece, rotation) pair that opens towards all of `required` and towards
/// nothing outside `optional` and `required`, piece by piece, rotation by rotation.
pub fn get_candidates(optional: &[u8], required: &[u8]) -> (candidates: Vec<Pipe>)
    ensures
        candidates@ == all_pipes().filter(|p: Pipe| is_candidate(p, optional@, required@)),
        candidates@.len() <= 20,
{
    let ghost pred = |p: Pipe| is_candidate(p, optional@, required@);
    let types = PipeType::all();
    let mut candidates: Vec<Pipe> = Vec::new();
    let mut k: usize = 0;
    while k < 20
        invariant
            k <= 20,
            types@ == all_types(),
            pred == (|p: Pipe| is_candidate(p, optional@, required@)),
            candidates@ == all_pipes().take(k as int).filter(pred),
        decreases 20 - k,
    {
        let pipe_type = types[k / 4];
        let rotation = (k % 4) as u8;
        let p = Pipe { variant: pipe_type, rotation };
        assert(p == all_pipes()[k as int]);
        assert(all_pipes().take(k + 1) == all_pipes().take(k as int).push(p));
        proof {
            all_pipes().take(k as int).lemma_filter_push(p, pred);
        }
        let sides = get_sides(&pipe_type, rotation);
        let ok = fits(sides.as_slice(), optional, required);
        assert(sides@ == pipe_sides(p));
        assert(ok == is_candidate(p, optional@, required@));
        if ok {
            candidates.push(p);
        }
        k += 1;
    }
    assert(all_pipes().take(20) == all_pipes());
    proof {
        all_pipes().lemma_filter_len(pred);
    }
    candidates
}

/// How often a piece is chosen, relative to the others.
pub open spec fn weight_of(t: PipeType) -> nat {
    match t {
        PipeType::SINGLE => 10,
        PipeType::LINE => 10,
        PipeType::CORNER => 40,
        PipeType::TEE => 20,
        PipeType::CROSS => 10,
    }
}

/// How often a piece is chosen, relative to the others.
pub fn pipe_weight(pipe_type: PipeType) -> (w: usize)
    ensures
        w == weight_of(pipe_type),
{
    match pipe_type {
        PipeType::SINGLE => 10,
        PipeType::LINE => 10,
        PipeType::CORNER => 40,
        PipeType::TEE => 20,
        PipeType::CROSS => 10,
    }
}

/// Sum of the weights of the first `i` candidates.
pub open spec fn prefix_weight(c: Seq<Pipe>, i: int) -> int
    decreases i,
{
    if i <= 0 {
        0
    } else {
        prefix_weight(c, i - 1) + weight_of(c[i - 1].variant)
    }
}

proof fn lemma_prefix_weight_bounds(c: Seq<Pipe>, i: int)
    requires
        0 <= i,
    ensures
        10 * i <= prefix_weight(c, i) <= 40 * i,
    decreases i,
{
    if i > 0 {
        lemma_prefix_weight_bounds(c, i - 1);
    }
}

proof fn lemma_prefix_weight_mono(c: Seq<Pipe>, i: int, j: int)
    requires
        0 <= i <= j,
    ensures
        prefix_weight(c, i) <= prefix_weight(c, j),
    decreases j,
{
    if i < j {
        lemma_prefix_weight_mono(c, i, j - 1);
    }
}

/// The candidate that a draw of `roll` selects: candidate `i` owns the rolls
/// whose remainder modulo the total weight falls in its own stretch of the
/// running sum of weights.
pub open spec fn picks(c: Seq<Pipe>, roll: u32, i: int) -> bool {
    &&& 0 <= i < c.len()
    &&& prefix_weight(c, i) <= (roll as int) % prefix_weight(c, c.len() as int) < prefix_weight(c, i + 1)
}

/// The candidate that `roll` selects (see `picks`).
pub open spec fn picked(c: Seq<Pipe>, roll: u32) -> Pipe {
    c[choose|i: int| picks(c, roll, i)]
}

/// A roll selects at most one candidate.
proof fn lemma_picks_unique(c: Seq<Pipe>, roll: u32, i: int, j: int)
    requires
        picks(c, roll, i),
        picks(c, roll, j),
    ensures
        i == j,
{
    if i < j {
        lemma_prefix_weight_mono(c, i + 1, j);
    } else if j < i {
        lemma_prefix_weight_mono(c, j + 1, i);
    }
}

/// What `pick_candidate_with_roll` returns on a non-empty list is `picked`.
proof fn lemma_pick_is_picked(c: Seq<Pipe>, roll: u32, r: Option<Pipe>)
    requires
        c.len() > 0,
        exists|i: int| picks(c, roll, i) && r == Some(c[i]),
    ensures
        r == Some(picked(c, roll)),
        c.contains(picked(c, roll)),
{
    let i = choose|i: int| picks(c, roll, i) && r == Some(c[i]);
    let j = choose|j: int| picks(c, roll, j);
    lemma_picks_unique(c, roll, i, j);
    assert(c.contains(c[j]));
}

/// Weighted choice among `candidates` driven by the random number `roll`.
pub fn pick_candidate_with_roll(candidates: &[Pipe], roll: u32) -> (r: Option<Pipe>)
    requires
        candidates@.len() * 40 <= usize::MAX,
    ensures
        candidates@.len() == 0 ==> r is None,
        candidates@.len() > 0 ==> exists|i: int| picks(candidates@, roll, i) && r == Some(candidates@[i]),
{
    if candidates.len() == 0 {
        return None;
    }
    let ghost c = candidates@;
    let mut total: usize = 0;
    let mut i: usize = 0;
    while i < candidates.len()
        invariant
            i <= candidates.len(),
            c == candidates@,
            candidates@.len() * 40 <= usize::MAX,
            total == prefix_weight(c, i as int),
        decreases candidates.len() - i,
    {
        proof {
            lemma_prefix_weight_bounds(c, i + 1);
        }
        total = total + pipe_weight(candidates[i].variant);
        i += 1;
    }
    proof {
        lemma_prefix_weight_bounds(c, c.len() as int);
    }
    let rnd = (roll as usize) % total;
    let mut acc: usize = 0;
    let mut i: usize = 0;
    while i < candidates.len()
        invariant
            i <= candidates.len(),
            c == candidates@,
            c.len() > 0,
            candidates@.len() * 40 <= usize::MAX,
            total == prefix_weight(c, c.len() as int),
            rnd == (roll as int) % (total as int),
            acc == prefix_weight(c, i as int),
            acc <= rnd,
        decreases candidates.len() - i,
    {
        proof {
            lemma_prefix_weight_mono(c, i + 1, c.len() as int);
        }
        acc = acc + pipe_weight(candidates[i].variant);
        if rnd < acc {
            assert(picks(c, roll, i as int));
            return Some(candidates[i]);
        }
        i += 1;
    }
    assert(false);
    None
}

/// Weighted random choice among `candidates`; no random number is drawn when
/// there are none.
pub fn pick_candidate(candidates: &[Pipe]) -> (r: Result<Option<Pipe>, RandomError>)
    requires
        candidates@.len() * 40 <= usize::MAX,
    ensures
        candidates@.len() == 0 ==> r == Ok::<Option<Pipe>, RandomError>(None),
        r matches Ok(p) ==> (candidates@.len() > 0 ==> p is Some && candidates@.contains(p->0)),
{
    if candidates.len() == 0 {
        return Ok(None);
    }
    match random_u32() {
        Ok(roll) => {
            let p = pick_candidate_with_roll(candidates, roll);
            proof {
                let i = choose|i: int| picks(candidates@, roll, i) && p == Some(candidates@[i]);
                assert(candidates@.contains(candidates@[i]));
            }
            Ok(p)
        },
        Err(e) => Err(e),
    }
}


/// Flat index of row `r`, column `c`.
pub open spec fn cell_index(r: int, c: int) -> int {
    r * (COLS as int) + c
}

/// Whether row `r`, column `c` lies in the grid.
pub open spec fn in_grid(r: int, c: int) -> bool {
    0 <= r < ROWS as int && 0 <= c < COLS as int
}

/// The cell reached from row `r`, column `c` through side `d`.
pub open spec fn step(r: int, c: int, d: int) -> (int, int) {
    if d == 0 {
        (r - 1, c)
    } else if d == 1 {
        (r, c + 1)
    } else if d == 2 {
        (r + 1, c)
    } else {
        (r, c - 1)
    }
}

/// Whether the cell holds a pipe that opens towards side `d`.
pub open spec fn opens(cell: Option<Pipe>, d: int) -> bool {
    cell matches Some(p) && pipe_sides(p).contains(d as u8)
}

/// Two neighbouring pipes agree on the side they share: both open towards it or
/// neither does. Pairs with an empty cell, or reaching out of the grid, are not
/// constrained.
pub open spec fn link_ok(g: Seq<Option<Pipe>>, r: int, c: int, d: int) -> bool {
    let (nr, nc) = step(r, c, d);
    (in_grid(r, c) && in_grid(nr, nc) && g[cell_index(r, c)] is Some && g[cell_index(nr, nc)] is Some)
        ==> (opens(g[cell_index(r, c)], d) == opens(g[cell_index(nr, nc)], (d + 2) % 4))
}

/// A grid is solved when every pair of neighbouring pipes agrees on its shared side.
pub open spec fn solved(g: Seq<Option<Pipe>>) -> bool {
    forall|r: int, c: int, d: int| 0 <= d < 4 ==> #[trigger] link_ok(g, r, c, d)
}

/// Number of empty cells.
pub open spec fn count_none(g: Seq<Option<Pipe>>) -> nat
    decreases g.len(),
{
    if g.len() == 0 {
        0
    } else {
        count_none(g.drop_last()) + if g.last() is None { 1nat } else { 0nat }
    }
}

proof fn lemma_count_none_fill(g: Seq<Option<Pipe>>, i: int, p: Pipe)
    requires
        0 <= i < g.len(),
        g[i] is None,
    ensures
        count_none(g.update(i, Some(p))) + 1 == count_none(g),
    decreases g.len(),
{
    let h = g.update(i, Some(p));
    if i == g.len() - 1 {
        assert(h.drop_last() == g.drop_last());
    } else {
        assert(h.drop_last() == g.drop_last().update(i, Some(p)));
        lemma_count_none_fill(g.drop_last(), i, p);
    }
}

proof fn lemma_count_none_le_len(g: Seq<Option<Pipe>>)
    ensures
        count_none(g) <= g.len(),
    decreases g.len(),
{
    if g.len() > 0 {
        lemma_count_none_le_len(g.drop_last());
    }
}

proof fn lemma_step_back(r: int, c: int, d: int)
    requires
        0 <= d < 4,
    ensures
        ({
            let (nr, nc) = step(r, c, d);
            step(nr, nc, (d + 2) % 4) == (r, c)
        }),
{
}

/// Placing `p` into an empty cell keeps a solved grid solved when `p` agrees
/// with every neighbouring pipe.
proof fn lemma_place_keeps_solved(g: Seq<Option<Pipe>>, r: int, c: int, p: Pipe)
    requires
        g.len() == CELLS,
        solved(g),
        in_grid(r, c),
        g[cell_index(r, c)] is None,
        forall|d: int|
            0 <= d < 4 && #[trigger] in_grid(step(r, c, d).0, step(r, c, d).1) && g[cell_index(
                step(r, c, d).0,
                step(r, c, d).1,
            )] is Some ==> (pipe_sides(p).contains(d as u8) == opens(
                g[cell_index(step(r, c, d).0, step(r, c, d).1)],
                (d + 2) % 4,
            )),
    ensures
        solved(g.update(cell_index(r, c), Some(p))),
{
    let h = g.update(cell_index(r, c), Some(p));
    assert forall|r2: int, c2: int, d2: int| 0 <= d2 < 4 implies #[trigger] link_ok(h, r2, c2, d2) by {
        let (nr, nc) = step(r2, c2, d2);
        assert(link_ok(g, r2, c2, d2));
        if in_grid(r2, c2) && in_grid(nr, nc) {
            if r2 == r && c2 == c {
                assert(in_grid(step(r, c, d2).0, step(r, c, d2).1));
            } else if nr == r && nc == c {
                let d = (d2 + 2) % 4;
                lemma_step_back(r2, c2, d2);
                assert(step(r, c, d) == (r2, c2));
                assert(in_grid(step(r, c, d).0, step(r, c, d).1));
                assert((d + 2) % 4 == d2);
            }
        }
    }
}

/// A placed neighbour across side `d` opens back towards row `r`, column `c`.
pub open spec fn required_side(g: Seq<Option<Pipe>>, r: int, c: int, d: u8) -> bool {
    let (nr, nc) = step(r, c, d as int);
    &&& d < 4
    &&& in_grid(nr, nc)
    &&& g[cell_index(nr, nc)] is Some
    &&& opens(g[cell_index(nr, nc)], (d + 2) % 4)
}

/// A placed neighbour across side `d` does not open back towards row `r`, column `c`.
pub open spec fn blocked_side(g: Seq<Option<Pipe>>, r: int, c: int, d: u8) -> bool {
    let (nr, nc) = step(r, c, d as int);
    &&& d < 4
    &&& in_grid(nr, nc)
    &&& g[cell_index(nr, nc)] is Some
    &&& !opens(g[cell_index(nr, nc)], (d + 2) % 4)
}

/// The four sides in order.
pub open spec fn all_sides() -> Seq<u8> {
    seq![0u8, 1u8, 2u8, 3u8]
}

/// For row `r`, column `c`: the sides whose placed neighbour opens back towards
/// it (first), and the sides whose placed neighbour does not (second).
fn get_include_exclude_sides(r: usize, c: usize, grid: &[Option<Pipe>]) -> (res: (Vec<u8>, Vec<u8>))
    requires
        in_grid(r as int, c as int),
        grid@.len() == CELLS,
        rotations_ok(grid@),
    ensures
        res.0@ == all_sides().filter(|d: u8| required_side(grid@, r as int, c as int, d)),
        res.1@ == all_sides().filter(|d: u8| blocked_side(grid@, r as int, c as int, d)),
{
    let ghost preq = |d: u8| required_side(grid@, r as int, c as int, d);
    let ghost pblk = |d: u8| blocked_side(grid@, r as int, c as int, d);
    let mut required: Vec<u8> = Vec::new();
    let mut blocked: Vec<u8> = Vec::new();
    let mut d: u8 = 0;
    while d < 4
        invariant
            d <= 4,
            in_grid(r as int, c as int),
            grid@.len() == CELLS,
            rotations_ok(grid@),
            preq == (|d: u8| required_side(grid@, r as int, c as int, d)),
            pblk == (|d: u8| blocked_side(grid@, r as int, c as int, d)),
            required@ == all_sides().take(d as int).filter(preq),
            blocked@ == all_sides().take(d as int).filter(pblk),
        decreases 4 - d,
    {
        assert(all_sides()[d as int] == d);
        assert(all_sides().take(d + 1) == all_sides().take(d as int).push(d));
        proof {
            all_sides().take(d as int).lemma_filter_push(d, preq);
            all_sides().take(d as int).lemma_filter_push(d, pblk);
        }
        match step_exec(r, c, d) {
            Some((nr, nc)) => {
                let ni = nr * COLS + nc;
                assert(ni as int == cell_index(nr as int, nc as int));
                match grid[ni] {
                    Some(t) => {
                        assert(grid@[ni as int] == Some(t));
                        let opp = opposite_side(d);
                        let ns = get_sides(&t.variant, t.rotation);
                        if contains_u8(ns.as_slice(), opp) {
                            required.push(d);
                        } else {
                            blocked.push(d);
                        }
                    },
                    None => {},
                }
            },
            None => {},
        }
        d += 1;
    }
    assert(all_sides().take(4) == all_sides());
    (required, blocked)
}

proof fn lemma_filter_subset(a: Seq<u8>, pred: spec_fn(u8) -> bool)
    ensures
        forall|s: u8| #[trigger] a.filter(pred).contains(s) ==> a.contains(s),
{
    assert forall|s: u8| #[trigger] a.filter(pred).contains(s) implies a.contains(s) by {
        a.lemma_filter_contains_rev(pred, s);
    }
}

proof fn lemma_required_in_grid(g: Seq<Option<Pipe>>, r: int, c: int, required: Seq<u8>)
    requires
        required == all_sides().filter(|d: u8| required_side(g, r, c, d)),
    ensures
        forall|s: u8| #[trigger] required.contains(s) ==> s < 4 && in_grid(step(r, c, s as int).0, step(r, c, s as int).1),
{
    let preq = |d: u8| required_side(g, r, c, d);
    assert forall|s: u8| #[trigger] required.contains(s) implies s < 4 && in_grid(step(r, c, s as int).0, step(r, c, s as int).1) by {
        let j = choose|j: int| 0 <= j < required.len() && required[j] == s;
        all_sides().lemma_filter_pred(preq, j);
    }
}

/// A candidate chosen for an empty cell agrees with every placed neighbour.
proof fn lemma_candidate_agrees(
    g: Seq<Option<Pipe>>,
    r: int,
    c: int,
    p: Pipe,
    required: Seq<u8>,
    blocked: Seq<u8>,
    optional: Seq<u8>,
    allowed: Seq<u8>,
)
    requires
        required == all_sides().filter(|d: u8| required_side(g, r, c, d)),
        blocked == all_sides().filter(|d: u8| blocked_side(g, r, c, d)),
        optional == allowed.filter(|s: u8| !required.contains(s) && !blocked.contains(s)),
        is_candidate(p, optional, required),
    ensures
        forall|d: int|
            0 <= d < 4 && #[trigger] in_grid(step(r, c, d).0, step(r, c, d).1) && g[cell_index(
                step(r, c, d).0,
                step(r, c, d).1,
            )] is Some ==> (pipe_sides(p).contains(d as u8) == opens(
                g[cell_index(step(r, c, d).0, step(r, c, d).1)],
                (d + 2) % 4,
            )),
{
    let preq = |d: u8| required_side(g, r, c, d);
    let pblk = |d: u8| blocked_side(g, r, c, d);
    let popt = |s: u8| !required.contains(s) && !blocked.contains(s);
    assert forall|d: int|
        0 <= d < 4 && #[trigger] in_grid(step(r, c, d).0, step(r, c, d).1) && g[cell_index(
            step(r, c, d).0,
            step(r, c, d).1,
        )] is Some implies (pipe_sides(p).contains(d as u8) == opens(
        g[cell_index(step(r, c, d).0, step(r, c, d).1)],
        (d + 2) % 4,
    )) by {
        let du = d as u8;
        assert(all_sides()[d] == du);
        if opens(g[cell_index(step(r, c, d).0, step(r, c, d).1)], (d + 2) % 4) {
            assert(preq(all_sides()[d]));
            all_sides().lemma_filter_contains(preq, d);
            assert(required.contains(du));
        } else {
            assert(pblk(all_sides()[d]));
            all_sides().lemma_filter_contains(pblk, d);
            assert(blocked.contains(du));
            if required.contains(du) {
                let j = choose|j: int| 0 <= j < required.len() && required[j] == du;
                all_sides().lemma_filter_pred(preq, j);
            }
            if optional.contains(du) {
                let j = choose|j: int| 0 <= j < optional.len() && optional[j] == du;
                allowed.lemma_filter_pred(popt, j);
            }
            if pipe_sides(p).contains(du) {
                assert(optional.contains(du) || required.contains(du));
            }
        }
    }
}

/// Some piece fits any cell of the grid when no side is required.
proof fn lemma_start_has_candidate(r: int, c: int, allowed: Seq<u8>, required: Seq<u8>)
    requires
        in_grid(r, c),
        allowed == all_sides().filter(|s: u8| side_in_grid(r, c, s)),
        required.len() == 0,
    ensures
        all_pipes().filter(|p: Pipe| is_candidate(p, allowed, required)).len() > 0,
{
    let d: int = if r > 0 { 0 } else { 2 };
    let pin = |s: u8| side_in_grid(r, c, s);
    assert(all_sides()[d] == d as u8);
    assert(pin(all_sides()[d]));
    all_sides().lemma_filter_contains(pin, d);
    assert(allowed.contains(d as u8));
    let p = all_pipes()[d];
    assert(p == Pipe { variant: PipeType::SINGLE, rotation: d as u8 });
    assert(pipe_sides(p) =~= seq![d as u8]);
    assert(is_candidate(p, allowed, required));
    let pc = |p: Pipe| is_candidate(p, allowed, required);
    all_pipes().lemma_filter_contains(pc, d);
}

proof fn lemma_candidate_in_all(p: Pipe, cands: Seq<Pipe>, optional: Seq<u8>, required: Seq<u8>)
    requires
        cands == all_pipes().filter(|q: Pipe| is_candidate(q, optional, required)),
        cands.contains(p),
    ensures
        is_candidate(p, optional, required),
        p.rotation < 4,
{
    let pc = |q: Pipe| is_candidate(q, optional, required);
    let j = choose|j: int| 0 <= j < cands.len() && cands[j] == p;
    all_pipes().lemma_filter_pred(pc, j);
    all_pipes().lemma_filter_contains_rev(pc, p);
    let k = choose|k: int| 0 <= k < all_pipes().len() && all_pipes()[k] == p;
}

fn remove_listed(allowed: &Vec<u8>, required: &Vec<u8>, blocked: &Vec<u8>) -> (optional: Vec<u8>)
    ensures
        optional@ == allowed@.filter(|s: u8| !required@.contains(s) && !blocked@.contains(s)),
{
    let ghost pred = |s: u8| !required@.contains(s) && !blocked@.contains(s);
    let mut optional: Vec<u8> = Vec::new();
    let mut i: usize = 0;
    while i < allowed.len()
        invariant
            i <= allowed.len(),
            pred == (|s: u8| !required@.contains(s) && !blocked@.contains(s)),
            optional@ == allowed@.take(i as int).filter(pred),
        decreases allowed.len() - i,
    {
        let s = allowed[i];
        assert(allowed@.take(i + 1) == allowed@.take(i as int).push(s));
        proof {
            allowed@.take(i as int).lemma_filter_push(s, pred);
        }
        if !contains_u8(required.as_slice(), s) && !contains_u8(blocked.as_slice(), s) {
            optional.push(s);
        }
        i += 1;
    }
    assert(allowed@.take(allowed.len() as int) == allowed@);
    optional
}

proof fn lemma_empty_solved(g: Seq<Option<Pipe>>)
    requires
        g.len() == CELLS,
        forall|i: int| 0 <= i < CELLS ==> g[i] is None,
    ensures
        solved(g),
{
    assert forall|r: int, c: int, d: int| 0 <= d < 4 implies #[trigger] link_ok(g, r, c, d) by {
        if in_grid(r, c) {
            assert(g[cell_index(r, c)] is None);
        }
    }
}

proof fn lemma_keeps(before: Seq<Option<Pipe>>, after: Seq<Option<Pipe>>, s: int)
    requires
        forall|i: int| 0 <= i < CELLS && i != s && #[trigger] before[i] is Some ==> after[i] == before[i],
    ensures
        keeps_all_but_one(before, after),
{
}

/// Whether every placed pipe points only at cells inside the grid.
pub open spec fn stays_in_grid(g: Seq<Option<Pipe>>) -> bool {
    forall|r: int, c: int, d: int|
        in_grid(r, c) && 0 <= d < 4 && #[trigger] opens(g[cell_index(r, c)], d) ==> side_in_grid(r, c, d as u8)
}

proof fn lemma_empty_stays(g: Seq<Option<Pipe>>)
    requires
        g.len() == CELLS,
        forall|i: int| 0 <= i < CELLS ==> g[i] is None,
    ensures
        stays_in_grid(g),
{
    assert forall|r: int, c: int, d: int|
        in_grid(r, c) && 0 <= d < 4 && #[trigger] opens(g[cell_index(r, c)], d) implies side_in_grid(r, c, d as u8) by {
        assert(g[cell_index(r, c)] is None);
    }
}

/// Placing a pipe that opens only towards allowed or required sides keeps every
/// pipe pointing inside the grid.
proof fn lemma_place_stays(
    g: Seq<Option<Pipe>>,
    r: int,
    c: int,
    p: Pipe,
    required: Seq<u8>,
    optional: Seq<u8>,
    allowed: Seq<u8>,
)
    requires
        g.len() == CELLS,
        stays_in_grid(g),
        in_grid(r, c),
        forall|s: u8| #[trigger] required.contains(s) ==> s < 4 && in_grid(step(r, c, s as int).0, step(r, c, s as int).1),
        allowed == all_sides().filter(|s: u8| side_in_grid(r, c, s)),
        forall|s: u8| #[trigger] optional.contains(s) ==> allowed.contains(s),
        is_candidate(p, optional, required),
    ensures
        stays_in_grid(g.update(cell_index(r, c), Some(p))),
{
    let h = g.update(cell_index(r, c), Some(p));
    let pin = |s: u8| side_in_grid(r, c, s);
    assert forall|r2: int, c2: int, d: int|
        in_grid(r2, c2) && 0 <= d < 4 && #[trigger] opens(h[cell_index(r2, c2)], d) implies side_in_grid(r2, c2, d as u8) by {
        if r2 == r && c2 == c {
            let du = d as u8;
            assert(pipe_sides(p).contains(du));
            if optional.contains(du) {
                assert(allowed.contains(du));
                let k = choose|k: int| 0 <= k < allowed.len() && allowed[k] == du;
                all_sides().lemma_filter_pred(pin, k);
            } else {
                assert(required.contains(du));
            }
        } else {
            assert(opens(g[cell_index(r2, c2)], d));
        }
    }
}

/// Pipe `p` could be placed at row `r`, column `c` of `g`: it opens towards
/// every placed neighbour that opens back, towards no placed neighbour that
/// does not, and never out of the grid.
pub open spec fn fits_cell(g: Seq<Option<Pipe>>, r: int, c: int, p: Pipe) -> bool {
    forall|d: u8|
        #![trigger pipe_sides(p).contains(d)]
        d < 4 ==> {
            &&& (required_side(g, r, c, d) ==> pipe_sides(p).contains(d))
            &&& (blocked_side(g, r, c, d) ==> !pipe_sides(p).contains(d))
            &&& (!side_in_grid(r, c, d) ==> !pipe_sides(p).contains(d))
        }
}

/// No pipe can be placed at row `r`, column `c` of `g`.
pub open spec fn stuck(g: Seq<Option<Pipe>>, r: int, c: int) -> bool {
    forall|p: Pipe| p.rotation < 4 ==> !#[trigger] fits_cell(g, r, c, p)
}

/// The neighbours of row `r`, column `c` across the first `k` sides are all
/// placed or can take no pipe.
pub open spec fn settled_upto(g: Seq<Option<Pipe>>, r: int, c: int, k: int) -> bool {
    forall|d: int|
        0 <= d < k && #[trigger] in_grid(step(r, c, d).0, step(r, c, d).1) ==> g[cell_index(
            step(r, c, d).0,
            step(r, c, d).1,
        )] is Some || stuck(g, step(r, c, d).0, step(r, c, d).1)
}

/// The fill went as far as it could: next to every placed pipe, each empty
/// cell can take no pipe.
pub open spec fn fill_complete(g: Seq<Option<Pipe>>) -> bool {
    forall|r: int, c: int| in_grid(r, c) && (#[trigger] g[cell_index(r, c)]) is Some ==> settled_upto(g, r, c, 4)
}

/// `b` keeps every pipe placed in `a`.
pub open spec fn extends(a: Seq<Option<Pipe>>, b: Seq<Option<Pipe>>) -> bool {
    forall|i: int| 0 <= i < CELLS && (#[trigger] a[i]) is Some ==> b[i] == a[i]
}

proof fn lemma_sides_below_four(p: Pipe, s: u8)
    requires
        p.rotation < 4,
        pipe_sides(p).contains(s),
    ensures
        s < 4,
{
    let j = choose|j: int| 0 <= j < pipe_sides(p).len() && pipe_sides(p)[j] == s;
}

proof fn lemma_pipe_in_all(p: Pipe)
    requires
        p.rotation < 4,
    ensures
        all_pipes().contains(p),
{
    let t: int = match p.variant {
        PipeType::SINGLE => 0,
        PipeType::LINE => 1,
        PipeType::CORNER => 2,
        PipeType::TEE => 3,
        PipeType::CROSS => 4,
    };
    let k = 4 * t + p.rotation as int;
    assert(all_pipes()[k] == p);
}

proof fn lemma_fits_is_candidate(
    g: Seq<Option<Pipe>>,
    r: int,
    c: int,
    p: Pipe,
    required: Seq<u8>,
    blocked: Seq<u8>,
    allowed: Seq<u8>,
    optional: Seq<u8>,
)
    requires
        p.rotation < 4,
        fits_cell(g, r, c, p),
        required == all_sides().filter(|d: u8| required_side(g, r, c, d)),
        blocked == all_sides().filter(|d: u8| blocked_side(g, r, c, d)),
        allowed == all_sides().filter(|s: u8| side_in_grid(r, c, s)),
        optional == allowed.filter(|s: u8| !required.contains(s) && !blocked.contains(s)),
    ensures
        is_candidate(p, optional, required),
{
    let preq = |d: u8| required_side(g, r, c, d);
    let pblk = |d: u8| blocked_side(g, r, c, d);
    let pin = |s: u8| side_in_grid(r, c, s);
    let popt = |s: u8| !required.contains(s) && !blocked.contains(s);
    assert forall|s: u8| required.contains(s) implies #[trigger] pipe_sides(p).contains(s) by {
        let j = choose|j: int| 0 <= j < required.len() && required[j] == s;
        all_sides().lemma_filter_pred(preq, j);
        assert(required_side(g, r, c, s));
    }
    assert forall|s: u8| #[trigger] pipe_sides(p).contains(s) implies optional.contains(s) || required.contains(s) by {
        lemma_sides_below_four(p, s);
        assert(all_sides()[s as int] == s);
        if required_side(g, r, c, s) {
            all_sides().lemma_filter_contains(preq, s as int);
        } else {
            assert(!blocked_side(g, r, c, s));
            assert(side_in_grid(r, c, s));
            all_sides().lemma_filter_contains(pin, s as int);
            assert(allowed.contains(s));
            if required.contains(s) {
                let j = choose|j: int| 0 <= j < required.len() && required[j] == s;
                all_sides().lemma_filter_pred(preq, j);
            }
            if blocked.contains(s) {
                let j = choose|j: int| 0 <= j < blocked.len() && blocked[j] == s;
                all_sides().lemma_filter_pred(pblk, j);
            }
            let k = choose|k: int| 0 <= k < allowed.len() && allowed[k] == s;
            allowed.lemma_filter_contains(popt, k);
        }
    }
}

proof fn lemma_no_candidate_stuck(
    g: Seq<Option<Pipe>>,
    r: int,
    c: int,
    required: Seq<u8>,
    blocked: Seq<u8>,
    allowed: Seq<u8>,
    optional: Seq<u8>,
)
    requires
        required == all_sides().filter(|d: u8| required_side(g, r, c, d)),
        blocked == all_sides().filter(|d: u8| blocked_side(g, r, c, d)),
        allowed == all_sides().filter(|s: u8| side_in_grid(r, c, s)),
        optional == allowed.filter(|s: u8| !required.contains(s) && !blocked.contains(s)),
        all_pipes().filter(|q: Pipe| is_candidate(q, optional, required)).len() == 0,
    ensures
        stuck(g, r, c),
{
    let pc = |q: Pipe| is_candidate(q, optional, required);
    assert forall|p: Pipe| p.rotation < 4 implies !#[trigger] fits_cell(g, r, c, p) by {
        if fits_cell(g, r, c, p) {
            lemma_fits_is_candidate(g, r, c, p, required, blocked, allowed, optional);
            lemma_pipe_in_all(p);
            let k = choose|k: int| 0 <= k < all_pipes().len() && all_pipes()[k] == p;
            all_pipes().lemma_filter_contains(pc, k);
        }
    }
}

proof fn lemma_settled_grows(a: Seq<Option<Pipe>>, b: Seq<Option<Pipe>>, r: int, c: int, k: int)
    requires
        a.len() == CELLS,
        b.len() == CELLS,
        extends(a, b),
        settled_upto(a, r, c, k),
    ensures
        settled_upto(b, r, c, k),
{
    assert forall|d: int|
        0 <= d < k && #[trigger] in_grid(step(r, c, d).0, step(r, c, d).1) implies b[cell_index(
        step(r, c, d).0,
        step(r, c, d).1,
    )] is Some || stuck(b, step(r, c, d).0, step(r, c, d).1) by {
        let (nr, nc) = step(r, c, d);
        if a[cell_index(nr, nc)] is Some {
            assert(b[cell_index(nr, nc)] == a[cell_index(nr, nc)]);
        } else {
            assert(stuck(a, nr, nc));
            assert forall|p: Pipe| p.rotation < 4 implies !#[trigger] fits_cell(b, nr, nc, p) by {
                if fits_cell(b, nr, nc, p) {
                    assert forall|e: u8| #![trigger pipe_sides(p).contains(e)] e < 4 implies {
                        &&& (required_side(a, nr, nc, e) ==> pipe_sides(p).contains(e))
                        &&& (blocked_side(a, nr, nc, e) ==> !pipe_sides(p).contains(e))
                        &&& (!side_in_grid(nr, nc, e) ==> !pipe_sides(p).contains(e))
                    } by {
                        let (mr, mc) = step(nr, nc, e as int);
                        if in_grid(mr, mc) && a[cell_index(mr, mc)] is Some {
                            assert(b[cell_index(mr, mc)] == a[cell_index(mr, mc)]);
                        }
                    }
                    assert(fits_cell(a, nr, nc, p));
                }
            }
        }
    }
}

/// Of the pipes placed in `before`, at most one differs in `after`.
pub open spec fn keeps_all_but_one(before: Seq<Option<Pipe>>, after: Seq<Option<Pipe>>) -> bool {
    forall|i: int, j: int|
        0 <= i < j < CELLS && #[trigger] before[i] is Some && #[trigger] before[j] is Some ==> after[i]
            == before[i] || after[j] == before[j]
}

/// The sides of row `r`, column `c` that do not point out of the grid.
pub open spec fn allowed_sides(r: int, c: int) -> Seq<u8> {
    all_sides().filter(|s: u8| side_in_grid(r, c, s))
}

/// The pieces a start cell at row `r`, column `c` may get: those that point
/// nowhere out of the grid, in the order of `all_pipes`.
pub open spec fn start_candidates(r: int, c: int) -> Seq<Pipe> {
    all_pipes().filter(|p: Pipe| is_candidate(p, allowed_sides(r, c), Seq::<u8>::empty()))
}

/// The pieces an empty cell at row `r`, column `c` of `g` may get: those that
/// open towards every placed neighbour opening back, towards no other placed
/// neighbour and nowhere out of the grid, in the order of `all_pipes`.
pub open spec fn cell_candidates(g: Seq<Option<Pipe>>, r: int, c: int) -> Seq<Pipe> {
    let required = all_sides().filter(|d: u8| required_side(g, r, c, d));
    let blocked = all_sides().filter(|d: u8| blocked_side(g, r, c, d));
    let optional = allowed_sides(r, c).filter(|s: u8| !required.contains(s) && !blocked.contains(s));
    all_pipes().filter(|p: Pipe| is_candidate(p, optional, required))
}

/// The flat index of a (row, column) pair.
pub open spec fn cell_of(rc: (int, int)) -> int {
    cell_index(rc.0, rc.1)
}

/// Cell `i` is among the first `t` cells of `order`.
pub open spec fn placed_before(order: Seq<(int, int)>, t: int, i: int) -> bool {
    exists|u: int| 0 <= u < t && #[trigger] cell_of(order[u]) == i
}

/// The grid as it stood before the `t`-th placement of `order`: the cells
/// placed so far hold their pipes from `after`, every other cell its pipe
/// from `before`.
pub open spec fn grid_at_step(
    before: Seq<Option<Pipe>>,
    after: Seq<Option<Pipe>>,
    order: Seq<(int, int)>,
    t: int,
) -> Seq<Option<Pipe>> {
    Seq::new(CELLS as nat, |i: int| if placed_before(order, t, i) { after[i] } else { before[i] })
}

/// `after` is `before` with pipes placed on the cells of `order`, one after
/// another, the `t`-th drawn with `rolls[2 + t]`: the first cell is the start
/// cell given by `rolls[0]` and `rolls[1]` and gets the piece that
/// `rolls[2]` picks among those staying inside the grid; each later cell was
/// empty and gets the piece that its roll picks among the candidates of that
/// cell in the grid as it stood then. No cell is placed twice, and every other
/// cell keeps its pipe.
pub open spec fn fill_trace(
    before: Seq<Option<Pipe>>,
    after: Seq<Option<Pipe>>,
    rolls: Seq<u32>,
    order: Seq<(int, int)>,
) -> bool {
    &&& order.len() >= 1
    &&& order.len() + 2 <= rolls.len()
    &&& order[0] == ((rolls[0] as int) % (ROWS as int), (rolls[1] as int) % (COLS as int))
    &&& forall|u: int| 0 <= u < order.len() ==> in_grid(#[trigger] order[u].0, order[u].1)
    &&& forall|u: int, v: int|
        0 <= u < v < order.len() ==> cell_of(#[trigger] order[u]) != cell_of(#[trigger] order[v])
    &&& after[cell_of(order[0])] == Some(picked(start_candidates(order[0].0, order[0].1), rolls[2]))
    &&& forall|u: int|
        1 <= u < order.len() ==> {
            &&& before[cell_of(#[trigger] order[u])] is None
            &&& after[cell_of(order[u])] == Some(
                picked(cell_candidates(grid_at_step(before, after, order, u), order[u].0, order[u].1), rolls[2 + u]),
            )
        }
    &&& forall|i: int| 0 <= i < CELLS && !placed_before(order, order.len() as int, i) ==> #[trigger] after[i] == before[i]
}

proof fn lemma_trace_start(before: Seq<Option<Pipe>>, rolls: Seq<u32>, r: int, c: int, p: Pipe)
    requires
        before.len() == CELLS,
        rolls.len() >= 3,
        r == (rolls[0] as int) % (ROWS as int),
        c == (rolls[1] as int) % (COLS as int),
        in_grid(r, c),
        p == picked(start_candidates(r, c), rolls[2]),
    ensures
        fill_trace(before, before.update(cell_index(r, c), Some(p)), rolls, seq![(r, c)]),
{
    let after = before.update(cell_index(r, c), Some(p));
    let order = seq![(r, c)];
    assert(cell_of(order[0]) == cell_index(r, c));
    assert forall|i: int| 0 <= i < CELLS && !placed_before(order, order.len() as int, i) implies #[trigger] after[i]
        == before[i] by {
        if i == cell_index(r, c) {
            assert(placed_before(order, 1, i));
        }
    }
}

proof fn lemma_trace_extend(
    before: Seq<Option<Pipe>>,
    after: Seq<Option<Pipe>>,
    rolls: Seq<u32>,
    order: Seq<(int, int)>,
    r: int,
    c: int,
    p: Pipe,
)
    requires
        before.len() == CELLS,
        after.len() == CELLS,
        fill_trace(before, after, rolls, order),
        order.len() + 3 <= rolls.len(),
        in_grid(r, c),
        after[cell_index(r, c)] is None,
        p == picked(cell_candidates(after, r, c), rolls[2 + order.len() as int]),
    ensures
        fill_trace(before, after.update(cell_index(r, c), Some(p)), rolls, order.push((r, c))),
{
    let n = order.len() as int;
    let a2 = after.update(cell_index(r, c), Some(p));
    let o2 = order.push((r, c));
    let ci = cell_index(r, c);
    assert(o2[n] == (r, c));
    assert(cell_of(o2[n]) == ci);
    assert forall|u: int| 0 <= u < n implies cell_of(#[trigger] order[u]) != ci by {
        if u == 0 {
        } else {
            assert(after[cell_of(order[u])] is Some);
        }
    }
    assert forall|u: int| 0 <= u < o2.len() implies in_grid(#[trigger] o2[u].0, o2[u].1) by {
        if u < n {
            assert(o2[u] == order[u]);
        }
    }
    assert forall|u: int, v: int| 0 <= u < v < o2.len() implies cell_of(#[trigger] o2[u]) != cell_of(#[trigger] o2[v]) by {
        assert(o2[u] == order[u]);
        if v < n {
            assert(o2[v] == order[v]);
        }
    }
    assert forall|t: int| 0 <= t <= n implies #[trigger] grid_at_step(before, a2, o2, t) == if t == n {
        after
    } else {
        grid_at_step(before, after, order, t)
    } by {
        assert forall|i: int| 0 <= i < CELLS implies grid_at_step(before, a2, o2, t)[i] == (if t == n {
            after
        } else {
            grid_at_step(before, after, order, t)
        })[i] by {
            if placed_before(o2, t, i) {
                let w = choose|w: int| 0 <= w < t && #[trigger] cell_of(o2[w]) == i;
                assert(o2[w] == order[w]);
                assert(placed_before(order, t, i));
                assert(cell_of(order[w]) != ci);
            } else {
                assert forall|w: int| 0 <= w < t implies #[trigger] cell_of(order[w]) != i by {
                    assert(o2[w] == order[w]);
                    assert(cell_of(o2[w]) != i);
                }
                assert(!placed_before(order, t, i));
                if t == n {
                    assert(after[i] == before[i]);
                }
            }
        }
        assert(grid_at_step(before, a2, o2, t) =~= if t == n {
            after
        } else {
            grid_at_step(before, after, order, t)
        });
    }
    assert(a2[cell_of(o2[0])] == after[cell_of(order[0])]);
    assert forall|u: int| 1 <= u < o2.len() implies {
        &&& before[cell_of(#[trigger] o2[u])] is None
        &&& a2[cell_of(o2[u])] == Some(
            picked(cell_candidates(grid_at_step(before, a2, o2, u), o2[u].0, o2[u].1), rolls[2 + u]),
        )
    } by {
        assert(grid_at_step(before, a2, o2, u) == if u == n {
            after
        } else {
            grid_at_step(before, after, order, u)
        });
        if u < n {
            assert(o2[u] == order[u]);
        } else {
            assert(!placed_before(order, n, ci));
            assert(after[ci] == before[ci]);
        }
    }
    assert forall|i: int| 0 <= i < CELLS && !placed_before(o2, o2.len() as int, i) implies #[trigger] a2[i] == before[i] by {
        assert(i != ci) by {
            if i == ci {
                assert(cell_of(o2[n]) == i);
            }
        }
        if placed_before(order, n, i) {
            let w = choose|w: int| 0 <= w < n && #[trigger] cell_of(order[w]) == i;
            assert(o2[w] == order[w]);
            assert(cell_of(o2[w]) == i);
        }
    }
}

/// `after` is what `fill_solved` may make of `before`: at most one placed pipe
/// changed, at least one cell holds a pipe, the placements follow `fill_trace`
/// for some rolls, and a grid that was empty is now solved, points nowhere out
/// of the grid and has no empty cell left where a piece would fit.
pub open spec fn filled_from(before: Seq<Option<Pipe>>, after: Seq<Option<Pipe>>) -> bool {
    &&& keeps_all_but_one(before, after)
    &&& exists|i: int| 0 <= i < CELLS && #[trigger] after[i] is Some
    &&& (forall|i: int| 0 <= i < CELLS ==> before[i] is None) ==> solved(after) && stays_in_grid(after)
        && fill_complete(after)
    &&& exists|rolls: Seq<u32>, order: Seq<(int, int)>|
        rolls.len() == 3 + CELLS && #[trigger] fill_trace(before, after, rolls, order)
}

/// `after` is `before` filled as `filled_from` says, then every placed pipe
/// turned to a rotation given by some rolls (see `shuffled`).
pub open spec fn scrambled_fill(before: Seq<Option<Pipe>>, after: Seq<Option<Pipe>>) -> bool {
    exists|g: Seq<Option<Pipe>>, rolls: Seq<u32>|
        filled_from(before, g) && rolls.len() == CELLS && after == #[trigger] shuffled(g, rolls)
}

/// Pipe grid of the engine puzzle, `ROWS` rows of `COLS` cells; a cell may be empty.
pub struct PipeMinigame {
    grid: Vec<Option<Pipe>>,
}

impl View for PipeMinigame {
    type V = Seq<Option<Pipe>>;

    /// The cells row by row.
    closed spec fn view(&self) -> Seq<Option<Pipe>> {
        self.grid@
    }
}

/// The grid with every placed pipe turned to rotation `rolls[i] % 4`, `i`
/// being its cell; empty cells stay empty.
pub open spec fn shuffled(g: Seq<Option<Pipe>>, rolls: Seq<u32>) -> Seq<Option<Pipe>> {
    Seq::new(CELLS as nat, |i: int|
        match g[i] {
            Some(p) => Some(Pipe { variant: p.variant, rotation: (rolls[i] % 4) as u8 }),
            None => None,
        })
}

/// Every pipe in the grid has a rotation below four.
pub open spec fn rotations_ok(g: Seq<Option<Pipe>>) -> bool {
    forall|i: int| 0 <= i < g.len() ==> (#[trigger] g[i] matches Some(p) ==> p.rotation < 4)
}

/// The pipe at row `r`, column `c`.
pub open spec fn cell_at(g: Seq<Option<Pipe>>, r: int, c: int) -> Option<Pipe> {
    g[cell_index(r, c)]
}

/// The grid after turning the pipe at column `x`, row `y` a quarter turn;
/// unchanged when that cell is empty or outside the grid.
pub open spec fn rotated(g: Seq<Option<Pipe>>, x: int, y: int) -> Seq<Option<Pipe>> {
    if in_grid(y, x) && g[cell_index(y, x)] is Some {
        let p = g[cell_index(y, x)]->0;
        g.update(cell_index(y, x), Some(Pipe { variant: p.variant, rotation: ((p.rotation + 1) % 4) as u8 }))
    } else {
        g
    }
}

fn step_exec(r: usize, c: usize, d: u8) -> (n: Option<(usize, usize)>)
    requires
        in_grid(r as int, c as int),
        d < 4,
    ensures
        n is Some <==> in_grid(step(r as int, c as int, d as int).0, step(r as int, c as int, d as int).1),
        n matches Some(q) ==> q.0 as int == step(r as int, c as int, d as int).0 && q.1 as int == step(
            r as int,
            c as int,
            d as int,
        ).1,
{
    if d == 0 {
        if r > 0 { Some((r - 1, c)) } else { None }
    } else if d == 1 {
        if c < COLS - 1 { Some((r, c + 1)) } else { None }
    } else if d == 2 {
        if r < ROWS - 1 { Some((r + 1, c)) } else { None }
    } else {
        if c > 0 { Some((r, c - 1)) } else { None }
    }
}

impl PipeMinigame {
    /// Internal consistency: `ROWS * COLS` cells, every rotation below four.
    pub closed spec fn wf(&self) -> bool {
        &&& self.grid@.len() == CELLS
        &&& rotations_ok(self.grid@)
    }

    /// A well-formed puzzle has `CELLS` cells, and every pipe in it has a
    /// rotation below four.
    pub proof fn lemma_wf_view(&self)
        requires
            self.wf(),
        ensures
            self@.len() == CELLS,
            rotations_ok(self@),
    {
    }

    /// A grid with every cell empty.
    pub fn empty() -> (s: Self)
        ensures
            s.wf(),
            s@ == Seq::new(CELLS as nat, |i: int| None::<Pipe>),
    {
        let mut grid: Vec<Option<Pipe>> = Vec::new();
        let mut i: usize = 0;
        while i < CELLS
            invariant
                i <= CELLS,
                grid@ == Seq::new(i as nat, |j: int| None::<Pipe>),
            decreases CELLS - i,
        {
            grid.push(None);
            i += 1;
        }
        PipeMinigame { grid }
    }

    /// Turns the pipe at column `pos.x`, row `pos.y` a quarter turn; nothing
    /// happens when that cell is empty or outside the grid.
    pub fn rotate(&mut self, pos: GridPos)
        requires
            old(self).wf(),
        ensures
            final(self).wf(),
            final(self)@ == rotated(old(self)@, pos.x as int, pos.y as int),
    {
        let y = pos.y as usize;
        let x = pos.x as usize;
        if y >= ROWS || x >= COLS {
            return;
        }
        let i = y * COLS + x;
        match self.grid[i] {
            Some(p) => {
                assert(self.grid@[i as int] == Some(p));
                let q = Pipe { variant: p.variant, rotation: (p.rotation + 1) % 4 };
                self.grid.set(i, Some(q));
            },
            None => {},
        }
    }

    /// Empties every cell.
    pub fn clear(&mut self)
        requires
            old(self).wf(),
        ensures
            final(self).wf(),
            final(self)@ == Seq::new(CELLS as nat, |i: int| None::<Pipe>),
    {
        let mut i: usize = 0;
        while i < self.grid.len()
            invariant
                i <= self.grid@.len(),
                self.grid@.len() == CELLS,
                forall|j: int| 0 <= j < i ==> self.grid@[j] is None,
                rotations_ok(self.grid@),
            decreases self.grid@.len() - i,
        {
            self.grid.set(i, None);
            i += 1;
        }
        assert(self.grid@ == Seq::new(CELLS as nat, |i: int| None::<Pipe>));
    }

    /// The pipe at column `x`, row `y`; `None` for an empty cell or a cell
    /// outside the grid.
    pub fn get_pipe(&self, x: usize, y: usize) -> (r: Option<&Pipe>)
        requires
            self.wf(),
        ensures
            (x < COLS && y < ROWS) ==> r == match cell_at(self@, y as int, x as int) {
                Some(p) => Some(&p),
                None => None::<&Pipe>,
            },
            !(x < COLS && y < ROWS) ==> r is None,
    {
        if x < COLS && y < ROWS {
            match &self.grid[y * COLS + x] {
                Some(p) => Some(p),
                None => None,
            }
        } else {
            None
        }
    }

    /// Builds a solved puzzle into the empty cells from the random numbers
    /// `rolls`, used in this order: `rolls[0] % ROWS` is the start row,
    /// `rolls[1] % COLS` the start column, `rolls[2]` picks the start piece among
    /// those that stay inside the grid, and each later pick takes the next number.
    /// The grid then grows from the start cell, each newly reached empty cell
    /// getting a weighted piece that agrees with all its placed neighbours and
    /// points nowhere out of the grid (a cell where no piece fits stays empty).
    /// The start cell is overwritten even when it held a pipe; no other placed
    /// pipe changes. At most `3 + CELLS` numbers are used. `fill_trace` states
    /// the placements: which roll picked each piece, among which candidates.
    pub fn fill_solved_with(&mut self, rolls: &Vec<u32>)
        requires
            old(self).wf(),
            rolls@.len() >= 3 + CELLS,
        ensures
            final(self).wf(),
            (forall|i: int| 0 <= i < CELLS ==> old(self)@[i] is None) ==> solved(final(self)@),
            (forall|i: int| 0 <= i < CELLS ==> old(self)@[i] is None) ==> stays_in_grid(final(self)@),
            (forall|i: int| 0 <= i < CELLS ==> old(self)@[i] is None) ==> fill_complete(final(self)@),
            final(self)@[cell_index((rolls@[0] as int) % (ROWS as int), (rolls@[1] as int) % (COLS as int))] is Some,
            forall|i: int|
                0 <= i < CELLS && i != cell_index((rolls@[0] as int) % (ROWS as int), (rolls@[1] as int) % (COLS as int))
                    && #[trigger] old(self)@[i] is Some ==> final(self)@[i] == old(self)@[i],
            keeps_all_but_one(old(self)@, final(self)@),
            exists|order: Seq<(int, int)>| fill_trace(old(self)@, final(self)@, rolls@, order),
    {
        let ghost old_grid = self.grid@;
        let ghost was_empty = forall|i: int| 0 <= i < CELLS ==> old_grid[i] is None;
        let start_r = (rolls[0] as usize) % ROWS;
        let start_c = (rolls[1] as usize) % COLS;
        let mut all_dirs: Vec<u8> = vec![0, 1, 2, 3];
        assert(all_dirs@ == all_sides());
        let allowed = allowed_sides_grid_corners((start_r, start_c), &mut all_dirs);
        let no_sides: Vec<u8> = Vec::new();
        let candidates = get_candidates(allowed.as_slice(), no_sides.as_slice());
        proof {
            lemma_start_has_candidate(start_r as int, start_c as int, allowed@, no_sides@);
        }
        let first = match pick_candidate_with_roll(candidates.as_slice(), rolls[2]) {
            Some(p) => p,
            None => {
                assert(false);
                return;
            },
        };
        proof {
            assert(no_sides@ == Seq::<u8>::empty());
            assert(candidates@ == start_candidates(start_r as int, start_c as int));
            lemma_pick_is_picked(candidates@, rolls@[2], Some(first));
            lemma_candidate_in_all(first, candidates@, allowed@, no_sides@);
        }
        let start = start_r * COLS + start_c;
        let ghost start_i = start as int;
        assert(start as int == cell_index(start_r as int, start_c as int));
        proof {
            if was_empty {
                lemma_empty_solved(self.grid@);
                assert(forall|d: int|
                    0 <= d < 4 && #[trigger] in_grid(step(start_r as int, start_c as int, d).0, step(start_r as int, start_c as int, d).1)
                        ==> self.grid@[cell_index(step(start_r as int, start_c as int, d).0, step(start_r as int, start_c as int, d).1)] is None);
                lemma_place_keeps_solved(self.grid@, start_r as int, start_c as int, first);
                lemma_empty_stays(self.grid@);
                lemma_place_stays(self.grid@, start_r as int, start_c as int, first, no_sides@, allowed@, allowed@);
            }
        }
        proof {
            lemma_trace_start(old_grid, rolls@, start_r as int, start_c as int, first);
        }
        self.grid.set(start, Some(first));
        let ghost mut order: Seq<(int, int)> = seq![(start_r as int, start_c as int)];
        let mut queue: Vec<(usize, usize)> = Vec::new();
        queue.push((start_r, start_c));
        let mut k: usize = 3;
        proof {
            lemma_count_none_le_len(self.grid@);
        }
        proof {
            if was_empty {
                assert forall|r2: int, c2: int|
                    in_grid(r2, c2) && (#[trigger] self.grid@[cell_index(r2, c2)]) is Some implies queue@.contains(
                    (r2 as usize, c2 as usize),
                ) || settled_upto(self.grid@, r2, c2, 4) by {
                    if cell_index(r2, c2) != start_i {
                        assert(old_grid[cell_index(r2, c2)] is None);
                    } else {
                        assert(r2 == start_r && c2 == start_c);
                        assert(queue@[0] == (start_r, start_c));
                    }
                }
            }
        }
        while queue.len() > 0
            invariant
                self.grid@.len() == CELLS,
                rotations_ok(self.grid@),
                0 <= start_i < CELLS,
                3 <= k,
                k + count_none(self.grid@) <= 3 + CELLS,
                rolls@.len() >= 3 + CELLS,
                k == order.len() + 2,
                fill_trace(old_grid, self.grid@, rolls@, order),
                was_empty == (forall|i: int| 0 <= i < CELLS ==> old_grid[i] is None),
                old_grid.len() == CELLS,
                old_grid == old(self)@,
                was_empty ==> solved(self.grid@),
                was_empty ==> stays_in_grid(self.grid@),
                forall|i: int|
                    0 <= i < CELLS && i != start_i && #[trigger] old_grid[i] is Some ==> self.grid@[i]
                        == old_grid[i],
                forall|j: int| 0 <= j < queue@.len() ==> in_grid(#[trigger] queue@[j].0 as int, queue@[j].1 as int),
                self.grid@[start_i] is Some,
                was_empty ==> forall|r2: int, c2: int|
                    in_grid(r2, c2) && (#[trigger] self.grid@[cell_index(r2, c2)]) is Some ==> queue@.contains(
                        (r2 as usize, c2 as usize),
                    ) || settled_upto(self.grid@, r2, c2, 4),
            decreases 2 * count_none(self.grid@) + queue@.len(),
        {
            let ghost measure = 2 * count_none(self.grid@) + queue@.len();
            let ghost queue_before = queue@;
            let (r, c) = queue.pop().unwrap();
            assert(in_grid(r as int, c as int));
            proof {
                assert(queue_before == queue@.push((r, c)));
                if was_empty {
                    assert forall|r2: int, c2: int|
                        in_grid(r2, c2) && (#[trigger] self.grid@[cell_index(r2, c2)]) is Some implies (r2 == r
                        && c2 == c) || queue@.contains((r2 as usize, c2 as usize)) || settled_upto(
                        self.grid@,
                        r2,
                        c2,
                        4,
                    ) by {
                        if queue_before.contains((r2 as usize, c2 as usize)) {
                            let j = choose|j: int|
                                0 <= j < queue_before.len() && queue_before[j] == (r2 as usize, c2 as usize);
                            if j < queue@.len() {
                                assert(queue@[j] == (r2 as usize, c2 as usize));
                            }
                        }
                    }
                }
            }
            let mut d: u8 = 0;
            while d < 4
                invariant
                    d <= 4,
                    in_grid(r as int, c as int),
                    self.grid@.len() == CELLS,
                    rotations_ok(self.grid@),
                    0 <= start_i < CELLS,
                    3 <= k,
                    k + count_none(self.grid@) <= 3 + CELLS,
                    rolls@.len() >= 3 + CELLS,
                    k == order.len() + 2,
                    fill_trace(old_grid, self.grid@, rolls@, order),
                    was_empty == (forall|i: int| 0 <= i < CELLS ==> old_grid[i] is None),
                    old_grid.len() == CELLS,
                    old_grid == old(self)@,
                    was_empty ==> solved(self.grid@),
                    was_empty ==> stays_in_grid(self.grid@),
                    forall|i: int|
                        0 <= i < CELLS && i != start_i && #[trigger] old_grid[i] is Some ==> self.grid@[i]
                            == old_grid[i],
                    forall|j: int| 0 <= j < queue@.len() ==> in_grid(#[trigger] queue@[j].0 as int, queue@[j].1 as int),
                    2 * count_none(self.grid@) + queue@.len() < measure,
                    self.grid@[start_i] is Some,
                    was_empty ==> forall|r2: int, c2: int|
                        in_grid(r2, c2) && (#[trigger] self.grid@[cell_index(r2, c2)]) is Some ==> (r2 == r
                            && c2 == c) || queue@.contains((r2 as usize, c2 as usize)) || settled_upto(
                            self.grid@,
                            r2,
                            c2,
                            4,
                        ),
                    was_empty ==> settled_upto(self.grid@, r as int, c as int, d as int),
                decreases 4 - d,
            {
                let ghost grid_before = self.grid@;
                match step_exec(r, c, d) {
                    Some((nr, nc)) => {
                        let ni = nr * COLS + nc;
                        assert(ni as int == cell_index(nr as int, nc as int));
                        if self.grid[ni].is_none() {
                            let (required, blocked) = get_include_exclude_sides(nr, nc, self.grid.as_slice());
                            let mut dirs: Vec<u8> = vec![0, 1, 2, 3];
                            assert(dirs@ == all_sides());
                            let allowed = allowed_sides_grid_corners((nr, nc), &mut dirs);
                            let optional = remove_listed(&allowed, &required, &blocked);
                            let candidates = get_candidates(optional.as_slice(), required.as_slice());
                            if candidates.len() == 0 {
                                proof {
                                    lemma_no_candidate_stuck(
                                        self.grid@,
                                        nr as int,
                                        nc as int,
                                        required@,
                                        blocked@,
                                        allowed@,
                                        optional@,
                                    );
                                }
                            }
                            if candidates.len() > 0 {
                                proof {
                                    lemma_count_none_fill(self.grid@, ni as int, candidates@[0]);
                                }
                                match pick_candidate_with_roll(candidates.as_slice(), rolls[k]) {
                                    Some(p) => {
                                        proof {
                                            assert(candidates@ == cell_candidates(self.grid@, nr as int, nc as int));
                                            lemma_pick_is_picked(candidates@, rolls@[k as int], Some(p));
                                            lemma_trace_extend(old_grid, self.grid@, rolls@, order, nr as int, nc as int, p);
                                            lemma_candidate_in_all(p, candidates@, optional@, required@);
                                            lemma_candidate_agrees(self.grid@, nr as int, nc as int, p, required@, blocked@, optional@, allowed@);
                                            if was_empty {
                                                lemma_place_keeps_solved(self.grid@, nr as int, nc as int, p);
                                                lemma_required_in_grid(self.grid@, nr as int, nc as int, required@);
                                                lemma_filter_subset(allowed@, |s: u8| !required@.contains(s) && !blocked@.contains(s));
                                                lemma_place_stays(self.grid@, nr as int, nc as int, p, required@, optional@, allowed@);
                                            }
                                            lemma_count_none_fill(self.grid@, ni as int, p);
                                        }
                                        let ghost queue_old = queue@;
                                        self.grid.set(ni, Some(p));
                                        queue.push((nr, nc));
                                        k = k + 1;
                                        proof {
                                            order = order.push((nr as int, nc as int));
                                        }
                                        proof {
                                            assert(extends(grid_before, self.grid@));
                                            if was_empty {
                                                lemma_settled_grows(grid_before, self.grid@, r as int, c as int, d as int);
                                                assert forall|r2: int, c2: int|
                                                    in_grid(r2, c2) && (#[trigger] self.grid@[cell_index(r2, c2)]) is Some implies (r2
                                                    == r && c2 == c) || queue@.contains((r2 as usize, c2 as usize))
                                                    || settled_upto(self.grid@, r2, c2, 4) by {
                                                    if cell_index(r2, c2) == ni as int {
                                                        assert(r2 == nr && c2 == nc);
                                                        assert(queue@[queue@.len() - 1] == (nr, nc));
                                                    } else {
                                                        assert(grid_before[cell_index(r2, c2)] is Some);
                                                        if queue_old.contains((r2 as usize, c2 as usize)) {
                                                            let j = choose|j: int|
                                                                0 <= j < queue_old.len() && queue_old[j] == (r2 as usize, c2 as usize);
                                                            assert(queue@[j] == (r2 as usize, c2 as usize));
                                                        } else if !(r2 == r && c2 == c) {
                                                            lemma_settled_grows(grid_before, self.grid@, r2, c2, 4);
                                                        }
                                                    }
                                                }
                                            }
                                        }
                                    },
                                    None => {
                                        assert(false);
                                    },
                                }
                            }
                        }
                    },
                    None => {},
                }
                proof {
                    if was_empty {
                        assert forall|e: int|
                            0 <= e < d + 1 && #[trigger] in_grid(step(r as int, c as int, e).0, step(r as int, c as int, e).1)
                            implies self.grid@[cell_index(step(r as int, c as int, e).0, step(r as int, c as int, e).1)] is Some
                            || stuck(self.grid@, step(r as int, c as int, e).0, step(r as int, c as int, e).1) by {
                            if e == d {
                            }
                        }
                    }
                }
                d += 1;
            }
        }
        proof {
            lemma_keeps(old_grid, self.grid@, start_i);
            if was_empty {
                assert forall|r2: int, c2: int|
                    in_grid(r2, c2) && (#[trigger] self.grid@[cell_index(r2, c2)]) is Some implies settled_upto(
                    self.grid@,
                    r2,
                    c2,
                    4,
                ) by {
                    assert(!queue@.contains((r2 as usize, c2 as usize)));
                }
            }
        }
    }


    /// Builds a solved puzzle into the empty cells with random numbers from the
    /// operating system: `3 + CELLS` of them are drawn first, then the grid is
    /// filled as `fill_solved_with` does. When the random source fails the grid
    /// is left unchanged and `RandomError` is returned.
    pub fn fill_solved(&mut self) -> (res: Result<(), RandomError>)
        requires
            old(self).wf(),
        ensures
            final(self).wf(),
            res is Err ==> final(self)@ == old(self)@,
            (forall|i: int| 0 <= i < CELLS ==> old(self)@[i] is None) ==> solved(final(self)@),
            (forall|i: int| 0 <= i < CELLS ==> old(self)@[i] is None) ==> stays_in_grid(final(self)@),
            keeps_all_but_one(old(self)@, final(self)@),
            res is Ok && (forall|i: int| 0 <= i < CELLS ==> old(self)@[i] is None) ==> fill_complete(
                final(self)@,
            ),
            res is Ok ==> exists|i: int| 0 <= i < CELLS && #[trigger] final(self)@[i] is Some,
            res is Ok ==> exists|rolls: Seq<u32>, order: Seq<(int, int)>|
                rolls.len() == 3 + CELLS && #[trigger] fill_trace(old(self)@, final(self)@, rolls, order),
    {
        let mut rolls: Vec<u32> = Vec::new();
        let mut i: usize = 0;
        while i < 3 + CELLS
            invariant
                i <= 3 + CELLS,
                rolls@.len() == i,
                self.wf(),
                self@ == old(self)@,
            decreases 3 + CELLS - i,
        {
            match random_u32() {
                Ok(v) => rolls.push(v),
                Err(e) => {
                    proof {
                        if forall|j: int| 0 <= j < CELLS ==> self@[j] is None {
                            lemma_empty_solved(self@);
                            lemma_empty_stays(self@);
                        }
                        lemma_keeps(self@, self@, 0);
                    }
                    return Err(e);
                },
            }
            i += 1;
        }
        self.fill_solved_with(&rolls);
        proof {
            let s = cell_index((rolls@[0] as int) % (ROWS as int), (rolls@[1] as int) % (COLS as int));
            assert(0 <= s < CELLS) by (nonlinear_arith)
                requires
                    s == cell_index((rolls@[0] as int) % (ROWS as int), (rolls@[1] as int) % (COLS as int)),
            ;
            assert(self@[s] is Some);
            let order = choose|order: Seq<(int, int)>| fill_trace(old(self)@, self@, rolls@, order);
            assert(fill_trace(old(self)@, self@, rolls@, order));
        }
        Ok(())
    }

    /// Turns every placed pipe to rotation `rolls[i] % 4`, `i` being its cell;
    /// empty cells stay empty and every pipe keeps its piece.
    pub fn shuffle_with(&mut self, rolls: &Vec<u32>)
        requires
            old(self).wf(),
            rolls@.len() == CELLS,
        ensures
            final(self).wf(),
            final(self)@ == shuffled(old(self)@, rolls@),
    {
        let ghost old_grid = self.grid@;
        let mut i: usize = 0;
        while i < CELLS
            invariant
                i <= CELLS,
                rolls@.len() == CELLS,
                self.grid@.len() == CELLS,
                old_grid.len() == CELLS,
                old_grid == old(self)@,
                forall|j: int| 0 <= j < CELLS ==> #[trigger] self.grid@[j] == if j < i {
                    match old_grid[j] {
                        Some(p) => Some(Pipe { variant: p.variant, rotation: (rolls@[j] % 4) as u8 }),
                        None => None,
                    }
                } else {
                    old_grid[j]
                },
            decreases CELLS - i,
        {
            match self.grid[i] {
                Some(p) => {
                    let q = Pipe { variant: p.variant, rotation: (rolls[i] % 4) as u8 };
                    self.grid.set(i, Some(q));
                },
                None => {},
            }
            i += 1;
        }
        assert(self.grid@ =~= Seq::new(CELLS as nat, |i: int|
            match old_grid[i] {
                Some(p) => Some(Pipe { variant: p.variant, rotation: (rolls@[i] % 4) as u8 }),
                None => None,
            }));
    }

    /// Gives every placed pipe a random rotation (one random number per placed
    /// pipe, cell by cell; see `shuffle_with`); empty cells stay empty and every
    /// pipe keeps its piece. On `RandomError` nothing changes.
    pub fn shuffle(&mut self) -> (res: Result<(), RandomError>)
        requires
            old(self).wf(),
        ensures
            final(self).wf(),
            res is Err ==> final(self)@ == old(self)@,
            res is Ok ==> exists|rolls: Seq<u32>|
                rolls.len() == CELLS && final(self)@ == #[trigger] shuffled(old(self)@, rolls),
            forall|i: int|
                0 <= i < CELLS ==> (#[trigger] final(self)@[i] is Some <==> old(self)@[i] is Some),
            forall|i: int|
                0 <= i < CELLS && #[trigger] final(self)@[i] is Some ==> final(self)@[i]->0.variant == old(
                    self,
                )@[i]->0.variant,
    {
        let mut rolls: Vec<u32> = Vec::new();
        let mut i: usize = 0;
        while i < CELLS
            invariant
                i <= CELLS,
                rolls@.len() == i,
                self.wf(),
            decreases CELLS - i,
        {
            if self.grid[i].is_some() {
                match random_u32() {
                    Ok(v) => rolls.push(v),
                    Err(e) => {
                        return Err(e);
                    },
                }
            } else {
                rolls.push(0);
            }
            i += 1;
        }
        self.shuffle_with(&rolls);
        assert(self@ == shuffled(old(self)@, rolls@));
        Ok(())
    }

    /// Whether every pair of neighbouring pipes agrees on its shared side.
    pub fn is_solved(&self) -> (r: bool)
        requires
            self.wf(),
        ensures
            r == solved(self@),
    {
        let mut r: usize = 0;
        while r < ROWS
            invariant
                r <= ROWS,
                self.wf(),
                forall|r2: int, c2: int, d2: int|
                    0 <= r2 < r && 0 <= d2 < 4 ==> #[trigger] link_ok(self.grid@, r2, c2, d2),
            decreases ROWS - r,
        {
            let mut c: usize = 0;
            while c < COLS
                invariant
                    r < ROWS,
                    c <= COLS,
                    self.wf(),
                    forall|r2: int, c2: int, d2: int|
                        ((0 <= r2 < r) || (r2 == r && 0 <= c2 < c)) && 0 <= d2 < 4 ==> #[trigger] link_ok(
                            self.grid@,
                            r2,
                            c2,
                            d2,
                        ),
                decreases COLS - c,
            {
                let i = r * COLS + c;
                assert(i as int == cell_index(r as int, c as int));
                match self.grid[i] {
                    None => {},
                    Some(pipe) => {
                        assert(self.grid@[i as int] == Some(pipe));
                        let sides = pipe.get_sides();
                        let mut d: u8 = 0;
                        while d < 4
                            invariant
                                r < ROWS,
                                c < COLS,
                                d <= 4,
                                self.wf(),
                                i as int == cell_index(r as int, c as int),
                                self.grid@[i as int] == Some(pipe),
                                sides@ == pipe_sides(pipe),
                                forall|r2: int, c2: int, d2: int|
                                    (((0 <= r2 < r) || (r2 == r && 0 <= c2 < c)) && 0 <= d2 < 4) || (r2 == r
                                        && c2 == c && 0 <= d2 < d) ==> #[trigger] link_ok(self.grid@, r2, c2, d2),
                            decreases 4 - d,
                        {
                            match step_exec(r, c, d) {
                                Some((nr, nc)) => {
                                    let ni = nr * COLS + nc;
                                    assert(ni as int == cell_index(nr as int, nc as int));
                                    match self.grid[ni] {
                                        Some(n) => {
                                            assert(self.grid@[ni as int] == Some(n));
                                            let ns = n.get_sides();
                                            let opp = opposite_side(d);
                                            if contains_u8(sides.as_slice(), d) != contains_u8(ns.as_slice(), opp) {
                                                assert(!link_ok(self.grid@, r as int, c as int, d as int));
                                                return false;
                                            }
                                        },
                                        None => {},
                                    }
                                },
                                None => {},
                            }
                            assert(link_ok(self.grid@, r as int, c as int, d as int));
                            d += 1;
                        }
                    },
                }
                assert forall|d2: int| 0 <= d2 < 4 implies #[trigger] link_ok(self.grid@, r as int, c as int, d2) by {
                    if self.grid@[i as int] is None {
                    }
                }
                c += 1;
            }
            r += 1;
        }
        assert forall|r2: int, c2: int, d2: int| 0 <= d2 < 4 implies #[trigger] link_ok(self.grid@, r2, c2, d2) by {
            if !(0 <= r2 < ROWS) {
            }
        }
        true
    }
}


impl Default for PipeMinigame {
    /// A freshly built solved puzzle: the empty grid filled by `fill_solved`.
    /// When the random source fails the grid stays empty, which is solved too.
    fn default() -> (s: Self)
        ensures
            s.wf(),
            solved(s@),
            s@ == Seq::new(CELLS as nat, |i: int| None::<Pipe>) || filled_from(
                Seq::new(CELLS as nat, |i: int| None::<Pipe>),
                s@,
            ),
    {
        let mut s = PipeMinigame::empty();
        let ghost e = s@;
        let r = s.fill_solved();
        proof {
            if r is Ok {
                let (fr, fo) = choose|fr: Seq<u32>, fo: Seq<(int, int)>|
                    fr.len() == 3 + CELLS && #[trigger] fill_trace(e, s@, fr, fo);
                assert(fill_trace(e, s@, fr, fo));
                assert(filled_from(e, s@));
            }
        }
        s
    }
}

/// A grid cell as shown on screen: its pipe, if any, and where it sits.
#[derive(Clone, Copy, Debug)]
pub struct PipeEntity {
    pub pipe: Option<Pipe>,
    pub position: GridPos,
}

impl PipeEntity {
    /// Turns the shown pipe a quarter turn.
    pub fn rotate(&mut self)
        requires
            old(self).pipe matches Some(p) ==> p.rotation <= 254,
        ensures
            final(self).position == old(self).position,
            final(self).pipe == match old(self).pipe {
                Some(p) => Some(Pipe { variant: p.variant, rotation: ((p.rotation + 1) % 4) as u8 }),
                None => None::<Pipe>,
            },
    {
        if let Some(p) = self.pipe {
            self.pipe = Some(Pipe { variant: p.variant, rotation: (p.rotation + 1) % 4 });
        }
    }

    /// The sprite frame of the shown pipe; `15`, the empty frame, for no pipe.
    pub fn get_index(&self) -> (r: usize)
        ensures
            r == match self.pipe {
                Some(p) => atlas_index(p),
                None => 15,
            },
    {
        match &self.pipe {
            Some(p) => p.get_index(),
            None => 15,
        }
    }
}

/// Four quarter turns of the same cell give back the grid one started with.
pub proof fn lemma_rotate_four_times(g: Seq<Option<Pipe>>, x: int, y: int)
    requires
        g.len() == CELLS,
        rotations_ok(g),
    ensures
        rotated(rotated(rotated(rotated(g, x, y), x, y), x, y), x, y) == g,
{
    if in_grid(y, x) && g[cell_index(y, x)] is Some {
        let i = cell_index(y, x);
        let p = g[i]->0;
        assert(p.rotation < 4);
        let g1 = rotated(g, x, y);
        let g2 = rotated(g1, x, y);
        let g3 = rotated(g2, x, y);
        let g4 = rotated(g3, x, y);
        assert(g4[i] == g[i]);
        assert(g4 =~= g);
    }
}

/// A quarter turn changes nothing but the rotation of the turned cell: every
/// cell keeps its piece, and empty cells stay empty.
pub proof fn lemma_rotate_keeps_pieces(g: Seq<Option<Pipe>>, x: int, y: int, i: int)
    requires
        g.len() == CELLS,
        0 <= i < CELLS,
    ensures
        rotated(g, x, y)[i] is Some <==> g[i] is Some,
        rotated(g, x, y)[i] is Some ==> rotated(g, x, y)[i]->0.variant == g[i]->0.variant,
        i != cell_index(y, x) ==> rotated(g, x, y)[i] == g[i],
{
}

/// A grid with no pipes counts as solved.
pub proof fn lemma_cleared_grid_is_solved()
    ensures
        solved(Seq::new(CELLS as nat, |i: int| None::<Pipe>)),
{
    lemma_empty_solved(Seq::new(CELLS as nat, |i: int| None::<Pipe>));
}



/// The grid after the player clicks the cells of `clicks` in order.
pub open spec fn click_all(g: Seq<Option<Pipe>>, clicks: Seq<GridPos>) -> Seq<Option<Pipe>>
    decreases clicks.len(),
{
    if clicks.len() == 0 {
        g
    } else {
        rotated(click_all(g, clicks.drop_last()), clicks.last().x as int, clicks.last().y as int)
    }
}

/// Two grids hold the same pieces in the same cells, perhaps turned differently.
pub open spec fn same_pieces(a: Seq<Option<Pipe>>, b: Seq<Option<Pipe>>) -> bool {
    &&& a.len() == CELLS
    &&& b.len() == CELLS
    &&& forall|i: int| 0 <= i < CELLS ==> (#[trigger] a[i] is Some <==> b[i] is Some)
    &&& forall|i: int| 0 <= i < CELLS && #[trigger] a[i] is Some ==> a[i]->0.variant == b[i]->0.variant
}

/// The grid position of flat cell `i`.
pub open spec fn pos_of(i: int) -> GridPos {
    GridPos { x: (i % (COLS as int)) as u32, y: (i / (COLS as int)) as u32 }
}

/// Clicks that turn cell `i` of `now` back to its rotation in `goal`.
pub open spec fn clicks_for(goal: Seq<Option<Pipe>>, now: Seq<Option<Pipe>>, i: int) -> Seq<GridPos> {
    if now[i] is Some {
        Seq::new(((goal[i]->0.rotation + 4 - now[i]->0.rotation) % 4) as nat, |j: int| pos_of(i))
    } else {
        Seq::empty()
    }
}

/// Clicks that turn the first `k` cells of `now` back to their rotations in `goal`.
pub open spec fn restoring_clicks(goal: Seq<Option<Pipe>>, now: Seq<Option<Pipe>>, k: int) -> Seq<GridPos>
    decreases k,
{
    if k <= 0 {
        Seq::empty()
    } else {
        restoring_clicks(goal, now, k - 1) + clicks_for(goal, now, k - 1)
    }
}

proof fn lemma_click_all_append(g: Seq<Option<Pipe>>, a: Seq<GridPos>, b: Seq<GridPos>)
    ensures
        click_all(g, a + b) == click_all(click_all(g, a), b),
    decreases b.len(),
{
    if b.len() == 0 {
        assert(a + b =~= a);
    } else {
        assert((a + b).drop_last() =~= a + b.drop_last());
        lemma_click_all_append(g, a, b.drop_last());
    }
}

proof fn lemma_clicks_on_one_cell(g: Seq<Option<Pipe>>, i: int, t: nat)
    requires
        g.len() == CELLS,
        0 <= i < CELLS,
        g[i] is Some,
        g[i]->0.rotation < 4,
    ensures
        click_all(g, Seq::new(t, |j: int| pos_of(i))) == g.update(
            i,
            Some(Pipe { variant: g[i]->0.variant, rotation: ((g[i]->0.rotation + t) % 4) as u8 }),
        ),
    decreases t,
{
    let s = Seq::new(t, |j: int| pos_of(i));
    assert(cell_index(pos_of(i).y as int, pos_of(i).x as int) == i);
    if t == 0 {
        assert(g.update(i, Some(Pipe { variant: g[i]->0.variant, rotation: g[i]->0.rotation })) =~= g);
    } else {
        let s1 = Seq::new((t - 1) as nat, |j: int| pos_of(i));
        assert(s.drop_last() =~= s1);
        lemma_clicks_on_one_cell(g, i, (t - 1) as nat);
        let h = click_all(g, s1);
        assert(h[i] == Some(Pipe { variant: g[i]->0.variant, rotation: ((g[i]->0.rotation + t - 1) % 4) as u8 }));
        assert(in_grid(pos_of(i).y as int, pos_of(i).x as int));
        assert(((((g[i]->0.rotation + t - 1) % 4) as u8 + 1) % 4) as u8 == ((g[i]->0.rotation + t) % 4) as u8);
        assert(rotated(h, pos_of(i).x as int, pos_of(i).y as int) =~= g.update(
            i,
            Some(Pipe { variant: g[i]->0.variant, rotation: ((g[i]->0.rotation + t) % 4) as u8 }),
        ));
    }
}

proof fn lemma_restoring_prefix(goal: Seq<Option<Pipe>>, now: Seq<Option<Pipe>>, k: int)
    requires
        same_pieces(goal, now),
        rotations_ok(goal),
        rotations_ok(now),
        0 <= k <= CELLS,
    ensures
        click_all(now, restoring_clicks(goal, now, k)) == Seq::new(CELLS as nat, |i: int|
            if i < k { goal[i] } else { now[i] }),
    decreases k,
{
    if k == 0 {
        assert(restoring_clicks(goal, now, 0) =~= Seq::<GridPos>::empty());
        assert(Seq::new(CELLS as nat, |i: int| if i < 0 { goal[i] } else { now[i] }) =~= now);
    } else {
        lemma_restoring_prefix(goal, now, k - 1);
        let before = click_all(now, restoring_clicks(goal, now, k - 1));
        lemma_click_all_append(now, restoring_clicks(goal, now, k - 1), clicks_for(goal, now, k - 1));
        let i = k - 1;
        let target = Seq::new(CELLS as nat, |j: int| if j < k { goal[j] } else { now[j] });
        if now[i] is Some {
            assert(before[i] == now[i]);
            let t = ((goal[i]->0.rotation + 4 - now[i]->0.rotation) % 4) as nat;
            lemma_clicks_on_one_cell(before, i, t);
            assert(goal[i] is Some);
            assert(goal[i]->0.rotation < 4 && now[i]->0.rotation < 4);
            assert((now[i]->0.rotation + t) % 4 == goal[i]->0.rotation);
            assert(click_all(before, clicks_for(goal, now, i)) =~= target);
        } else {
            assert(clicks_for(goal, now, i) =~= Seq::<GridPos>::empty());
            assert(goal[i] is None);
            assert(click_all(before, clicks_for(goal, now, i)) == before);
            assert(before =~= target);
        }
    }
}

/// Scrambling the rotations never makes the puzzle unsolvable: from any grid
/// with the same pieces as a solved one, a sequence of clicks gives back that
/// solved grid.
pub proof fn lemma_scrambled_grid_is_solvable(goal: Seq<Option<Pipe>>, now: Seq<Option<Pipe>>)
    requires
        same_pieces(goal, now),
        rotations_ok(goal),
        rotations_ok(now),
        solved(goal),
    ensures
        exists|clicks: Seq<GridPos>| #[trigger] click_all(now, clicks) == goal && solved(click_all(now, clicks)),
{
    lemma_restoring_prefix(goal, now, CELLS as int);
    let clicks = restoring_clicks(goal, now, CELLS as int);
    assert(Seq::new(CELLS as nat, |i: int| if i < CELLS { goal[i] } else { now[i] }) =~= goal);
    assert(click_all(now, clicks) == goal);
}

} // verus!
