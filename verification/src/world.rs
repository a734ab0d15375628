//! The world: typed storage of entities and their components, plus the
//! configuration surface and the per-tick input snapshot consumed by systems.
//!
//! All coordinates are integer arena units.  The vertical axis grows
//! downwards: the top wall is at `y == 0` and the bottom wall at
//! `y == arena_height`.  A ball's speed magnitude is measured in the
//! taxicab norm `|dx| + |dy|`, the crate's documented speed measure.

use vstd::prelude::*;

verus! {

/// Largest coordinate magnitude the world tracks.  Positions saturate here,
/// far beyond any configurable arena, so that per-tick motion is total.
pub const POS_LIMIT: i64 = 1_000_000_000_000;

/// Largest value allowed for any configuration length or speed.
pub const CFG_LIMIT: i64 = 1_000_000;

/// Largest delta time a single tick may advance.
pub const DT_LIMIT: i64 = 1_000_000;

/// Which player a paddle belongs to.
#[derive(Clone, Copy, PartialEq, Eq, Debug)]
pub enum Side {
    Left,
    Right,
}

/// Immutable match configuration, supplied once at world construction.
#[derive(Clone, Copy, PartialEq, Eq, Debug)]
pub struct Config {
    pub arena_width: i64,
    pub arena_height: i64,
    pub paddle_width: i64,
    pub paddle_height: i64,
    /// Vertical paddle speed in arena units per time unit.
    pub paddle_speed: i64,
    pub ball_radius: i64,
    /// Lower bound of the allowed ball speed band.
    pub ball_min_speed: i64,
    /// Upper bound of the allowed ball speed band.
    pub ball_max_speed: i64,
    /// A paddle bounce scales the horizontal speed by `num / den`.
    pub bounce_speedup_num: i64,
    pub bounce_speedup_den: i64,
    /// Speed given to a ball when it is served after a point.
    pub serve_speed: i64,
}

/// A configuration the core accepts: positive arena, paddles and balls that
/// fit the arena vertically, a non-empty speed band containing the serve
/// speed, and a speed-up factor of at least one.
pub open spec fn config_wf(cfg: Config) -> bool {
    &&& 1 <= cfg.arena_width && cfg.arena_width <= CFG_LIMIT
    &&& 1 <= cfg.arena_height && cfg.arena_height <= CFG_LIMIT
    &&& 1 <= cfg.paddle_width && cfg.paddle_width <= CFG_LIMIT
    &&& 1 <= cfg.paddle_height && cfg.paddle_height <= cfg.arena_height
    &&& 0 <= cfg.paddle_speed && cfg.paddle_speed <= CFG_LIMIT
    &&& 1 <= cfg.ball_radius && 2 * cfg.ball_radius <= cfg.arena_height
    &&& 1 <= cfg.ball_min_speed
    &&& cfg.ball_min_speed <= cfg.serve_speed
    &&& cfg.serve_speed <= cfg.ball_max_speed
    &&& cfg.ball_max_speed <= CFG_LIMIT
    &&& 1 <= cfg.bounce_speedup_den
    &&& cfg.bounce_speedup_den <= cfg.bounce_speedup_num
    &&& cfg.bounce_speedup_num <= 1000
}

/// Position in arena coordinates.
#[derive(Clone, Copy, PartialEq, Eq, Debug)]
pub struct Transform {
    pub x: i64,
    pub y: i64,
}

/// Per-tick displacement of a ball, in arena units per time unit.
#[derive(Clone, Copy, PartialEq, Eq, Debug)]
pub struct Velocity {
    pub dx: i64,
    pub dy: i64,
}

/// Paddle marker: its side, its speed and its vertical clamp bounds.
#[derive(Clone, Copy, PartialEq, Eq, Debug)]
pub struct Paddle {
    pub side: Side,
    pub speed: i64,
    pub y_min: i64,
    pub y_max: i64,
}

/// Ball marker.
#[derive(Clone, Copy, PartialEq, Eq, Debug)]
pub struct Ball {
    pub radius: i64,
}

/// Score per side; mutated only by the win-detection system, and only upwards.
#[derive(Clone, Copy, PartialEq, Eq, Debug)]
pub struct ScoreBoard {
    pub left: u64,
    pub right: u64,
}

/// An entity: an identifier plus its optional components.
#[derive(Clone, Copy, PartialEq, Eq, Debug)]
pub struct Entity {
    pub id: usize,
    pub transform: Option<Transform>,
    pub velocity: Option<Velocity>,
    pub paddle: Option<Paddle>,
    pub ball: Option<Ball>,
}

/// Per-tick read-only record of control state, produced outside the core.
/// Absent input is represented by all fields false, which moves nothing.
#[derive(Clone, Copy, PartialEq, Eq, Debug, Default)]
pub struct InputSnapshot {
    pub left_up: bool,
    pub left_down: bool,
    pub right_up: bool,
    pub right_down: bool,
}

/// Magnitude of an integer.
pub open spec fn sabs(x: int) -> int {
    if x < 0 {
        -x
    } else {
        x
    }
}

/// `x` clamped into `[lo, hi]`.
pub open spec fn sclamp(x: int, lo: int, hi: int) -> int {
    if x < lo {
        lo
    } else if x > hi {
        hi
    } else {
        x
    }
}

/// The crate's speed measure: the taxicab magnitude `|dx| + |dy|`.
pub open spec fn speed_of(v: Velocity) -> int {
    sabs(v.dx as int) + sabs(v.dy as int)
}

/// Well-formedness of one entity at index `i` of the world, under `cfg`:
/// the identifier equals the index; an entity is never both paddle and ball;
/// positions stay within the tracked limit; a paddle has a transform, no
/// velocity, the configured speed, the clamp bounds derived from the arena
/// height, and a clamped vertical position; a ball has a transform, a
/// velocity, the configured radius, and a speed inside the configured band.
pub open spec fn entity_wf(e: Entity, cfg: Config, i: int) -> bool {
    &&& e.id == i
    &&& !(e.paddle is Some && e.ball is Some)
    &&& match e.transform {
        Some(t) => -POS_LIMIT <= t.x && t.x <= POS_LIMIT && -POS_LIMIT <= t.y && t.y
            <= POS_LIMIT,
        None => true,
    }
    &&& match e.paddle {
        Some(p) => match e.transform {
            Some(t) => {
                &&& e.velocity is None
                &&& p.speed == cfg.paddle_speed
                &&& p.y_min == 0
                &&& p.y_max == cfg.arena_height - cfg.paddle_height
                &&& p.y_min <= t.y && t.y <= p.y_max
            },
            None => false,
        },
        None => true,
    }
    &&& match e.ball {
        Some(b) => match e.transform {
            Some(_) => match e.velocity {
                Some(v) => {
                    &&& b.radius == cfg.ball_radius
                    &&& cfg.ball_min_speed <= speed_of(v)
                    &&& speed_of(v) <= cfg.ball_max_speed
                },
                None => false,
            },
            None => false,
        },
        None => true,
    }
}

/// The entity a paddle spawn appends.
pub open spec fn paddle_entity(cfg: Config, id: usize, side: Side, x: i64, y: i64) -> Entity {
    Entity {
        id,
        transform: Some(Transform { x, y }),
        velocity: None,
        paddle: Some(
            Paddle {
                side,
                speed: cfg.paddle_speed,
                y_min: 0,
                y_max: (cfg.arena_height - cfg.paddle_height) as i64,
            },
        ),
        ball: None,
    }
}

/// The entity a ball spawn appends.
pub open spec fn ball_entity(cfg: Config, id: usize, x: i64, y: i64, dx: i64, dy: i64) -> Entity {
    Entity {
        id,
        transform: Some(Transform { x, y }),
        velocity: Some(Velocity { dx, dy }),
        paddle: None,
        ball: Some(Ball { radius: cfg.ball_radius }),
    }
}

/// The complete mutable simulation state for one match.
#[derive(Clone, PartialEq, Debug)]
pub struct World {
    pub config: Config,
    pub entities: Vec<Entity>,
    pub score: ScoreBoard,
}

impl World {
    /// A world the systems accept: a well-formed configuration and
    /// well-formed entities whose identifiers equal their indices, so that
    /// iteration order is insertion order and is stable across ticks.
    pub open spec fn wf(&self) -> bool {
        &&& config_wf(self.config)
        &&& forall|i: int|
            0 <= i < self.entities@.len() ==> entity_wf(
                #[trigger] self.entities@[i],
                self.config,
                i,
            )
    }

    /// An empty world with score 0:0 under the given configuration.
    pub fn new(config: Config) -> (w: World)
        requires
            config_wf(config),
        ensures
            w.wf(),
            w.config == config,
            w.entities@.len() == 0,
            w.score == (ScoreBoard { left: 0, right: 0 }),
    {
        World { config, entities: Vec::new(), score: ScoreBoard { left: 0, right: 0 } }
    }

    /// Startup population: append a paddle entity and return its identifier.
    pub fn spawn_paddle(&mut self, side: Side, x: i64, y: i64) -> (id: usize)
        requires
            old(self).wf(),
            -POS_LIMIT <= x && x <= POS_LIMIT,
            0 <= y && y <= old(self).config.arena_height - old(self).config.paddle_height,
        ensures
            final(self).wf(),
            final(self).config == old(self).config,
            final(self).score == old(self).score,
            id == old(self).entities@.len(),
            final(self).entities@ == old(self).entities@.push(
                paddle_entity(old(self).config, id, side, x, y),
            ),
    {
        let id = self.entities.len();
        let e = Entity {
            id,
            transform: Some(Transform { x, y }),
            velocity: None,
            paddle: Some(
                Paddle {
                    side,
                    speed: self.config.paddle_speed,
                    y_min: 0,
                    y_max: self.config.arena_height - self.config.paddle_height,
                },
            ),
            ball: None,
        };
        self.entities.push(e);
        id
    }

    /// Startup population: append a ball entity and return its identifier.
    pub fn spawn_ball(&mut self, x: i64, y: i64, dx: i64, dy: i64) -> (id: usize)
        requires
            old(self).wf(),
            -POS_LIMIT <= x && x <= POS_LIMIT,
            -POS_LIMIT <= y && y <= POS_LIMIT,
            old(self).config.ball_min_speed <= speed_of(Velocity { dx, dy }),
            speed_of(Velocity { dx, dy }) <= old(self).config.ball_max_speed,
        ensures
            final(self).wf(),
            final(self).config == old(self).config,
            final(self).score == old(self).score,
            id == old(self).entities@.len(),
            final(self).entities@ == old(self).entities@.push(
                ball_entity(old(self).config, id, x, y, dx, dy),
            ),
    {
        let id = self.entities.len();
        let e = Entity {
            id,
            transform: Some(Transform { x, y }),
            velocity: Some(Velocity { dx, dy }),
            paddle: None,
            ball: Some(Ball { radius: self.config.ball_radius }),
        };
        self.entities.push(e);
        id
    }

    /// Number of entities in the world.
    pub fn entity_count(&self) -> (n: usize)
        ensures
            n == self.entities@.len(),
    {
        self.entities.len()
    }

    /// The transform component of entity `id`, if the entity exists and has one.
    pub fn get_transform(&self, id: usize) -> (r: Option<Transform>)
        ensures
            r == if id < self.entities@.len() {
                self.entities@[id as int].transform
            } else {
                None::<Transform>
            },
    {
        if id < self.entities.len() {
            self.entities[id].transform
        } else {
            None
        }
    }

    /// The velocity component of entity `id`, if the entity exists and has one.
    pub fn get_velocity(&self, id: usize) -> (r: Option<Velocity>)
        ensures
            r == if id < self.entities@.len() {
                self.entities@[id as int].velocity
            } else {
                None::<Velocity>
            },
    {
        if id < self.entities.len() {
            self.entities[id].velocity
        } else {
            None
        }
    }

    /// Replace the transform component of entity `id`.  Returns whether the
    /// entity exists and carries one; otherwise the world is unchanged.
    /// Writes that would violate a paddle's clamp range are excluded up
    /// front: an ill-placed paddle is a defect, not a runtime condition.
    pub fn set_transform(&mut self, id: usize, t: Transform) -> (ok: bool)
        requires
            old(self).wf(),
            -POS_LIMIT <= t.x && t.x <= POS_LIMIT,
            -POS_LIMIT <= t.y && t.y <= POS_LIMIT,
            (id < old(self).entities@.len() && old(self).entities@[id as int].paddle is Some)
                ==> 0 <= t.y && t.y <= old(self).config.arena_height
                - old(self).config.paddle_height,
        ensures
            final(self).wf(),
            final(self).config == old(self).config,
            final(self).score == old(self).score,
            ok == (id < old(self).entities@.len() && old(self).entities@[
                id as int
            ].transform is Some),
            ok ==> final(self).entities@ == old(self).entities@.update(
                id as int,
                Entity { transform: Some(t), ..old(self).entities@[id as int] },
            ),
            !ok ==> final(self).entities@ == old(self).entities@,
    {
        if id < self.entities.len() && self.entities[id].transform.is_some() {
            let e = self.entities[id];
            self.entities[id] = Entity { transform: Some(t), ..e };
            true
        } else {
            false
        }
    }

    /// Replace the velocity component of entity `id`.  Returns whether the
    /// entity exists and carries one; otherwise the world is unchanged.
    /// Writes that would take a ball's speed outside the configured band are
    /// excluded up front.
    pub fn set_velocity(&mut self, id: usize, v: Velocity) -> (ok: bool)
        requires
            old(self).wf(),
            (id < old(self).entities@.len() && old(self).entities@[id as int].ball is Some) ==> (
            old(self).config.ball_min_speed <= speed_of(v) && speed_of(v) <= old(
                self,
            ).config.ball_max_speed),
        ensures
            final(self).wf(),
            final(self).config == old(self).config,
            final(self).score == old(self).score,
            ok == (id < old(self).entities@.len() && old(self).entities@[
                id as int
            ].velocity is Some),
            ok ==> final(self).entities@ == old(self).entities@.update(
                id as int,
                Entity { velocity: Some(v), ..old(self).entities@[id as int] },
            ),
            !ok ==> final(self).entities@ == old(self).entities@,
    {
        if id < self.entities.len() && self.entities[id].velocity.is_some() {
            let e = self.entities[id];
            self.entities[id] = Entity { velocity: Some(v), ..e };
            true
        } else {
            false
        }
    }

    /// The current score.
    pub fn get_score(&self) -> (s: ScoreBoard)
        ensures
            s == self.score,
    {
        self.score
    }

    /// The identifiers of all entities carrying a paddle component, in
    /// insertion order.
    pub fn ids_with_paddle(&self) -> (ids: Vec<usize>)
        ensures
            ids@ == self.entities@.filter(|e: Entity| e.paddle is Some).map_values(
                |e: Entity| e.id,
            ),
    {
        let mut ids: Vec<usize> = Vec::new();
        let n = self.entities.len();
        let mut i: usize = 0;
        while i < n
            invariant
                n == self.entities@.len(),
                i <= n,
                ids@ == self.entities@.take(i as int).filter(|e: Entity| e.paddle is Some)
                    .map_values(|e: Entity| e.id),
            decreases n - i,
        {
            let e = self.entities[i];
            proof {
                reveal(Seq::filter);
                assert(self.entities@.take(i + 1).drop_last() =~= self.entities@.take(i as int));
                assert(self.entities@.take(i + 1).last() == self.entities@[i as int]);
            }
            if e.paddle.is_some() {
                ids.push(e.id);
            }
            i = i + 1;
        }
        proof {
            assert(self.entities@.take(n as int) =~= self.entities@);
        }
        ids
    }

    /// The identifiers of all entities carrying a ball component, in
    /// insertion order.
    pub fn ids_with_ball(&self) -> (ids: Vec<usize>)
        ensures
            ids@ == self.entities@.filter(|e: Entity| e.ball is Some).map_values(
                |e: Entity| e.id,
            ),
    {
        let mut ids: Vec<usize> = Vec::new();
        let n = self.entities.len();
        let mut i: usize = 0;
        while i < n
            invariant
                n == self.entities@.len(),
                i <= n,
                ids@ == self.entities@.take(i as int).filter(|e: Entity| e.ball is Some)
                    .map_values(|e: Entity| e.id),
            decreases n - i,
        {
            let e = self.entities[i];
            proof {
                reveal(Seq::filter);
                assert(self.entities@.take(i + 1).drop_last() =~= self.entities@.take(i as int));
                assert(self.entities@.take(i + 1).last() == self.entities@[i as int]);
            }
            if e.ball.is_some() {
                ids.push(e.id);
            }
            i = i + 1;
        }
        proof {
            assert(self.entities@.take(n as int) =~= self.entities@);
        }
        ids
    }
}

/// `x` clamped into `[lo, hi]`, executably.
pub fn iclamp(x: i64, lo: i64, hi: i64) -> (r: i64)
    requires
        lo <= hi,
    ensures
        r == sclamp(x as int, lo as int, hi as int),
{
    if x < lo {
        lo
    } else if x > hi {
        hi
    } else {
        x
    }
}

} // verus!
