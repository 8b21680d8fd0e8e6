use vstd::prelude::*;

verus! {

/// Inner width of the bucket.
pub const BUCKET_WIDTH: i64 = 300_000;

/// Inner height of the bucket.
pub const BUCKET_HEIGHT: i64 = 150_000;

/// Vertical offset of the bucket's centre.
pub const BUCKET_Y_OFFSET: i64 = -100_000;

/// Room between the bucket and the barriers around it.
pub const BARRIER_PADDING: i64 = 100_000;

/// Thickness of every wall.
pub const WALL_THICKNESS: i64 = 20_000;

/// Larger of the bucket's width and height.
pub const LARGEST_DIMENSION: i64 = 300_000;

/// A static rectangle: its size and the position of its centre. Barriers
/// cost a strike when touched; plain walls only hold balls in.
#[derive(Clone, Copy, Debug, PartialEq, Eq, Structural)]
pub struct Wall {
    pub width: i64,
    pub height: i64,
    pub x: i64,
    pub y: i64,
    pub barrier: bool,
}

/// Width of the bucket's floor.
pub const BUCKET_FLOOR_WIDTH: i64 = BUCKET_WIDTH + WALL_THICKNESS;

/// Height of the centre of the bucket's floor: the bucket's offset less
/// half its height.
pub const BUCKET_FLOOR_Y: i64 = -175_000;

/// Height of the bucket's side walls.
pub const BUCKET_SIDE_HEIGHT: i64 = BUCKET_HEIGHT + WALL_THICKNESS;

/// Distance of the bucket's side walls from the centre line: half the
/// bucket's width.
pub const BUCKET_SIDE_X: i64 = 150_000;

/// Length of each barrier.
pub const BARRIER_SPAN: i64 = LARGEST_DIMENSION + BARRIER_PADDING * 2 + WALL_THICKNESS;

/// Distance of each barrier from the centre: half the larger bucket
/// dimension plus the padding.
pub const BARRIER_REACH: i64 = 250_000;

pub open spec fn bucket_spec() -> Seq<Wall> {
    seq![
        Wall { width: BUCKET_FLOOR_WIDTH, height: WALL_THICKNESS, x: 0, y: BUCKET_FLOOR_Y, barrier: false },
        Wall { width: WALL_THICKNESS, height: BUCKET_SIDE_HEIGHT, x: (-BUCKET_SIDE_X) as i64, y: BUCKET_Y_OFFSET, barrier: false },
        Wall { width: WALL_THICKNESS, height: BUCKET_SIDE_HEIGHT, x: BUCKET_SIDE_X, y: BUCKET_Y_OFFSET, barrier: false },
    ]
}

pub open spec fn barriers_spec() -> Seq<Wall> {
    seq![
        Wall { width: WALL_THICKNESS, height: BARRIER_SPAN, x: BARRIER_REACH, y: 0, barrier: true },
        Wall { width: WALL_THICKNESS, height: BARRIER_SPAN, x: (-BARRIER_REACH) as i64, y: 0, barrier: true },
        Wall { width: BARRIER_SPAN, height: WALL_THICKNESS, x: 0, y: BARRIER_REACH, barrier: true },
        Wall { width: BARRIER_SPAN, height: WALL_THICKNESS, x: 0, y: (-BARRIER_REACH) as i64, barrier: true },
    ]
}

/// The bucket: its floor and its two side walls.
pub fn bucket_walls() -> (r: Vec<Wall>)
    ensures
        r@ == bucket_spec(),
{
    let mut r: Vec<Wall> = Vec::new();
    r.push(Wall { width: BUCKET_FLOOR_WIDTH, height: WALL_THICKNESS, x: 0, y: BUCKET_FLOOR_Y, barrier: false });
    r.push(Wall { width: WALL_THICKNESS, height: BUCKET_SIDE_HEIGHT, x: -BUCKET_SIDE_X, y: BUCKET_Y_OFFSET, barrier: false });
    r.push(Wall { width: WALL_THICKNESS, height: BUCKET_SIDE_HEIGHT, x: BUCKET_SIDE_X, y: BUCKET_Y_OFFSET, barrier: false });
    assert(r@ =~= bucket_spec());
    r
}

/// The four barriers enclosing the play area: right, left, ceiling, floor.
pub fn barrier_walls() -> (r: Vec<Wall>)
    ensures
        r@ == barriers_spec(),
{
    let mut r: Vec<Wall> = Vec::new();
    r.push(Wall { width: WALL_THICKNESS, height: BARRIER_SPAN, x: BARRIER_REACH, y: 0, barrier: true });
    r.push(Wall { width: WALL_THICKNESS, height: BARRIER_SPAN, x: -BARRIER_REACH, y: 0, barrier: true });
    r.push(Wall { width: BARRIER_SPAN, height: WALL_THICKNESS, x: 0, y: BARRIER_REACH, barrier: true });
    r.push(Wall { width: BARRIER_SPAN, height: WALL_THICKNESS, x: 0, y: -BARRIER_REACH, barrier: true });
    assert(r@ =~= barriers_spec());
    r
}

} // verus!
