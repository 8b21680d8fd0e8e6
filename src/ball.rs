use vstd::prelude::*;

verus! {

/// Radius of a level-0 ball, in thousandths of a world unit.
pub const BALL_BASE_SIZE: u64 = 7000;

/// Radius added by each level, in thousandths of a world unit.
pub const BALL_LEVEL_SIZE: u64 = 7000;

/// Radius of the special ball, in thousandths of a world unit.
pub const SPECIAL_SIZE: u64 = 10000;

/// Number of colours that simple balls cycle through.
pub const COLOR_CYCLE_COUNT: u32 = 6;

/// Rolls above this value give the special ball.
pub const LARGEST_SIMPLE_ROLL: i32 = 5;

/// Rank of a ball: a simple level, or the fixed-size terminal special rank.
#[derive(Clone, Copy, Debug, PartialEq, Eq, Structural)]
pub enum BallType {
    Simple(u32),
    Special,
}

/// Colour shown for a rank.
#[derive(Clone, Copy, Debug, PartialEq, Eq, Structural)]
pub enum BallColor {
    Orange,
    Gray,
    SeaGreen,
    YellowGreen,
    Yellow,
    Gold,
    Black,
}

/// The colour cycle of simple balls, indexed by level modulo its length.
pub open spec fn cycle_color(i: int) -> BallColor {
    if i == 0 {
        BallColor::Orange
    } else if i == 1 {
        BallColor::Gray
    } else if i == 2 {
        BallColor::SeaGreen
    } else if i == 3 {
        BallColor::YellowGreen
    } else if i == 4 {
        BallColor::Yellow
    } else {
        BallColor::Gold
    }
}

/// Radius of a simple ball of the given level.
pub open spec fn level_size(level: nat) -> nat {
    (BALL_BASE_SIZE + level * BALL_LEVEL_SIZE) as nat
}

impl BallType {
    pub open spec fn size_spec(self) -> nat {
        match self {
            BallType::Simple(level) => level_size(level as nat),
            BallType::Special => SPECIAL_SIZE as nat,
        }
    }

    pub open spec fn color_spec(self) -> BallColor {
        match self {
            BallType::Simple(level) => cycle_color(level as int % COLOR_CYCLE_COUNT as int),
            BallType::Special => BallColor::Black,
        }
    }

    pub open spec fn from_i32_spec(value: i32) -> BallType {
        if value <= LARGEST_SIMPLE_ROLL {
            BallType::Simple(value as u32)
        } else {
            BallType::Special
        }
    }

    /// Radius of a ball of this rank.
    pub fn size(&self) -> (r: u64)
        ensures
            r == self.size_spec(),
    {
        match self {
            BallType::Simple(level) => BALL_BASE_SIZE + (*level as u64) * BALL_LEVEL_SIZE,
            BallType::Special => SPECIAL_SIZE,
        }
    }

    /// Colour of a ball of this rank.
    pub fn color(self) -> (r: BallColor)
        ensures
            r == self.color_spec(),
    {
        match self {
            BallType::Simple(level) => {
                let i = level % COLOR_CYCLE_COUNT;
                if i == 0 {
                    BallColor::Orange
                } else if i == 1 {
                    BallColor::Gray
                } else if i == 2 {
                    BallColor::SeaGreen
                } else if i == 3 {
                    BallColor::YellowGreen
                } else if i == 4 {
                    BallColor::Yellow
                } else {
                    BallColor::Gold
                }
            },
            BallType::Special => BallColor::Black,
        }
    }

    /// Rank for a rolled value: values up to five are simple levels, larger
    /// ones the special rank.
    pub fn from_i32(value: i32) -> (r: BallType)
        requires
            value >= 0,
        ensures
            r == BallType::from_i32_spec(value),
    {
        if value <= LARGEST_SIMPLE_ROLL {
            BallType::Simple(value as u32)
        } else {
            BallType::Special
        }
    }
}

} // verus!

verus! {

/// Length of a growth animation, in microseconds.
pub const GROW_DURATION_MICROS: u64 = 2_000_000;

/// An unfinished growth towards `target_level`; the progress made so far is
/// `elapsed / GROW_DURATION_MICROS`.
#[derive(Clone, Copy, Debug, PartialEq, Eq, Structural)]
pub struct Growth {
    pub target_level: u32,
    pub elapsed: u64,
}

/// A live ball: its handle, settled rank, position and optional growth.
#[derive(Clone, Copy, Debug, PartialEq, Eq, Structural)]
pub struct Ball {
    pub handle: u64,
    pub ball_type: BallType,
    pub x: i64,
    pub y: i64,
    pub growth: Option<Growth>,
}

impl Ball {
    /// A growing ball is a simple ball below its target with progress under one.
    pub open spec fn wf(self) -> bool {
        match self.growth {
            Some(g) => {
                &&& g.elapsed < GROW_DURATION_MICROS
                &&& match self.ball_type {
                    BallType::Simple(level) => level < g.target_level,
                    BallType::Special => false,
                }
            },
            None => true,
        }
    }

    /// Rank used to match merges: the growth target if growing.
    pub open spec fn effective_spec(self) -> BallType {
        match self.growth {
            Some(g) => BallType::Simple(g.target_level),
            None => self.ball_type,
        }
    }

    /// The ball after winning a merge into `target_level`: a running growth
    /// keeps half its progress, a settled ball starts from zero.
    pub open spec fn grown(self, target_level: u32) -> Ball {
        let elapsed = match self.growth {
            Some(g) => g.elapsed / 2,
            None => 0,
        };
        Ball { growth: Some(Growth { target_level, elapsed }), ..self }
    }

    pub fn effective(&self) -> (r: BallType)
        ensures
            r == self.effective_spec(),
    {
        match self.growth {
            Some(g) => BallType::Simple(g.target_level),
            None => self.ball_type,
        }
    }

    /// Advances this ball's growth by `dt` microseconds.
    pub open spec fn advanced(self, dt: nat) -> Ball {
        match self.growth {
            None => self,
            Some(g) => if g.elapsed + dt >= GROW_DURATION_MICROS {
                Ball { ball_type: BallType::Simple(g.target_level), growth: None, ..self }
            } else {
                Ball { growth: Some(Growth { elapsed: (g.elapsed + dt) as u64, ..g }), ..self }
            },
        }
    }

    /// Collider radius of a ball that was growing, after its growth advanced
    /// by `dt`: the target size once done, else the linear interpolation
    /// from the settled size towards the target size.
    pub open spec fn growth_radius(self, dt: nat) -> nat {
        match self.growth {
            None => self.ball_type.size_spec(),
            Some(g) => {
                let to = level_size(g.target_level as nat);
                if g.elapsed + dt >= GROW_DURATION_MICROS {
                    to
                } else {
                    let from = self.ball_type.size_spec();
                    from + ((to - from) * (g.elapsed + dt) / (GROW_DURATION_MICROS as int)) as nat
                }
            },
        }
    }

    /// This ball after its growth advanced by `dt` microseconds.
    pub fn advance(&self, dt: u32) -> (r: Ball)
        requires
            self.wf(),
        ensures
            r == self.advanced(dt as nat),
            r.wf(),
    {
        match self.growth {
            None => *self,
            Some(g) => {
                let e = g.elapsed + dt as u64;
                if e >= GROW_DURATION_MICROS {
                    Ball { ball_type: BallType::Simple(g.target_level), growth: None, ..*self }
                } else {
                    Ball { growth: Some(Growth { elapsed: e, ..g }), ..*self }
                }
            },
        }
    }

    /// Collider radius of this growing ball after its growth advanced by `dt`.
    pub fn radius_after(&self, dt: u32) -> (r: u64)
        requires
            self.wf(),
        ensures
            r == self.growth_radius(dt as nat),
    {
        match self.growth {
            None => self.ball_type.size(),
            Some(g) => {
                let to = BALL_BASE_SIZE + (g.target_level as u64) * BALL_LEVEL_SIZE;
                let e = g.elapsed + dt as u64;
                if e >= GROW_DURATION_MICROS {
                    to
                } else {
                    let from = self.ball_type.size();
                    let span = to - from;
                    assert((span as int) * (e as int) <= (span as int) * (GROW_DURATION_MICROS as int)) by (nonlinear_arith)
                        requires span >= 0, e < GROW_DURATION_MICROS;
                    assert((span as int) * (GROW_DURATION_MICROS as int) <= 0xffff_ffff_ffff_ffff * 2_000_000) by (nonlinear_arith)
                        requires span <= 0xffff_ffff_ffff_ffffu64;
                    let part = (span as u128) * (e as u128) / (GROW_DURATION_MICROS as u128);
                    assert(part <= span) by {
                        let x = span as int;
                        let d = GROW_DURATION_MICROS as int;
                        assert(x * (e as int) <= x * d) by (nonlinear_arith)
                            requires x >= 0, e < d;
                        assert((x * (e as int)) / d <= (x * d) / d) by (nonlinear_arith)
                            requires x * (e as int) <= x * d, d > 0, x * (e as int) >= 0;
                        assert((x * d) / d == x) by (nonlinear_arith)
                            requires d > 0;
                    }
                    from + part as u64
                }
            },
        }
    }

    /// This ball after winning a merge into `target_level`.
    pub fn grow_into(&self, target_level: u32) -> (r: Ball)
        ensures
            r == self.grown(target_level),
    {
        let elapsed = match self.growth {
            Some(g) => g.elapsed / 2,
            None => 0,
        };
        Ball { growth: Some(Growth { target_level, elapsed }), ..*self }
    }
}

} // verus!
