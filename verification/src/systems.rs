//! The per-tick gameplay systems: paddle movement, ball motion,
//! collision/bounce, and win detection.
//!
//! Each system has a specification function over the world's entity sequence
//! (and score, where it writes one), and an executable function proved to
//! implement it exactly.  A tick applies systems strictly sequentially, so
//! each specification maps one complete world state to the next.

use vstd::prelude::*;

use crate::world::{
    config_wf, entity_wf, iclamp, sabs, sclamp, speed_of, Config, Entity, InputSnapshot, Paddle,
    ScoreBoard, Side, Transform, Velocity, World, CFG_LIMIT, DT_LIMIT, POS_LIMIT,
};

verus! {

/// The divisor applied to the ball/paddle vertical offset to obtain the
/// bounce's angle-control nudge.
pub const NUDGE_DIV: u64 = 4;

/// The concrete gameplay systems a scheduler can invoke.
#[derive(Clone, Copy, PartialEq, Eq, Debug)]
pub enum SystemKind {
    PaddleMovement,
    BallMotion,
    Bounce,
    WinDetection,
}

// ---------------------------------------------------------------------------
// Paddle movement
// ---------------------------------------------------------------------------

/// Whether this paddle's "move up" control is active in the snapshot.
pub open spec fn up_active(p: Paddle, input: InputSnapshot) -> bool {
    match p.side {
        Side::Left => input.left_up,
        Side::Right => input.right_up,
    }
}

/// Whether this paddle's "move down" control is active in the snapshot.
pub open spec fn down_active(p: Paddle, input: InputSnapshot) -> bool {
    match p.side {
        Side::Left => input.left_down,
        Side::Right => input.right_down,
    }
}

/// The signed vertical displacement the input asks of a paddle: up subtracts
/// `speed * dt`, down adds it, both together cancel.
pub open spec fn paddle_delta(p: Paddle, input: InputSnapshot, dt: int) -> int {
    (if up_active(p, input) {
        -(p.speed * dt)
    } else {
        0
    }) + (if down_active(p, input) {
        p.speed * dt
    } else {
        0
    })
}

/// One paddle entity after the paddle-movement system: its vertical position
/// moves by the input's displacement and is clamped into `[y_min, y_max]`.
/// Entities without a paddle and a transform are unchanged.
pub open spec fn paddle_move_entity(e: Entity, input: InputSnapshot, dt: int) -> Entity {
    match e.paddle {
        Some(p) => match e.transform {
            Some(t) => Entity {
                transform: Some(
                    Transform {
                        x: t.x,
                        y: sclamp(t.y + paddle_delta(p, input, dt), p.y_min as int, p.y_max as int)
                            as i64,
                    },
                ),
                ..e
            },
            None => e,
        },
        None => e,
    }
}

/// The paddle-movement system over a whole entity sequence.
pub open spec fn spec_paddle_step(es: Seq<Entity>, input: InputSnapshot, dt: int) -> Seq<Entity> {
    es.map_values(|e: Entity| paddle_move_entity(e, input, dt))
}

/// A paddle entity's vertical position lies within its clamp range.
pub open spec fn paddle_clamped(e: Entity, cfg: Config) -> bool {
    match e.paddle {
        Some(_) => match e.transform {
            Some(t) => 0 <= t.y && t.y <= cfg.arena_height - cfg.paddle_height,
            None => false,
        },
        None => true,
    }
}

fn paddle_move_exec(e: Entity, input: &InputSnapshot, dt: i64, cfg: Config) -> (r: Entity)
    requires
        config_wf(cfg),
        entity_wf(e, cfg, e.id as int),
        0 <= dt && dt <= DT_LIMIT,
    ensures
        r == paddle_move_entity(e, *input, dt as int),
        entity_wf(r, cfg, e.id as int),
        paddle_clamped(r, cfg),
{
    match (e.paddle, e.transform) {
        (Some(p), Some(t)) => {
            let up = match p.side {
                Side::Left => input.left_up,
                Side::Right => input.right_up,
            };
            let down = match p.side {
                Side::Left => input.left_down,
                Side::Right => input.right_down,
            };
            proof {
                assert(0 <= p.speed * dt <= 1_000_000_000_000) by (nonlinear_arith)
                    requires
                        0 <= p.speed <= 1_000_000,
                        0 <= dt <= 1_000_000,
                ;
            }
            let mut delta: i64 = 0;
            if up {
                delta = delta - p.speed * dt;
            }
            if down {
                delta = delta + p.speed * dt;
            }
            let y2 = iclamp(t.y + delta, p.y_min, p.y_max);
            Entity { transform: Some(Transform { x: t.x, y: y2 }), ..e }
        },
        _ => e,
    }
}

/// Move every paddle by the input's displacement, clamped into its vertical
/// range.  Out-of-range input is not an error: clamping is the policy.
pub fn paddle_movement_system(world: &mut World, input: &InputSnapshot, dt: i64)
    requires
        old(world).wf(),
        0 <= dt && dt <= DT_LIMIT,
    ensures
        final(world).wf(),
        final(world).config == old(world).config,
        final(world).score == old(world).score,
        final(world).entities@ == spec_paddle_step(old(world).entities@, *input, dt as int),
        forall|i: int|
            0 <= i < final(world).entities@.len() ==> paddle_clamped(
                #[trigger] final(world).entities@[i],
                final(world).config,
            ),
{
    let n = world.entities.len();
    let mut i: usize = 0;
    while i < n
        invariant
            world.config == old(world).config,
            world.score == old(world).score,
            config_wf(world.config),
            0 <= dt && dt <= DT_LIMIT,
            n == world.entities@.len(),
            i <= n,
            forall|j: int| i <= j < n ==> world.entities@[j] == old(world).entities@[j],
            forall|j: int|
                0 <= j < i ==> world.entities@[j] == paddle_move_entity(
                    old(world).entities@[j],
                    *input,
                    dt as int,
                ),
            forall|j: int|
                0 <= j < n ==> entity_wf(#[trigger] world.entities@[j], world.config, j),
            forall|j: int|
                0 <= j < i ==> paddle_clamped(#[trigger] world.entities@[j], world.config),
        decreases n - i,
    {
        let e = world.entities[i];
        let e2 = paddle_move_exec(e, input, dt, world.config);
        world.entities[i] = e2;
        i = i + 1;
    }
    proof {
        assert(world.entities@ =~= spec_paddle_step(old(world).entities@, *input, dt as int));
    }
}

// ---------------------------------------------------------------------------
// Ball motion
// ---------------------------------------------------------------------------

/// One ball entity after the ball-motion system: `position += velocity * dt`,
/// saturated at the tracked coordinate limit.  Other entities are unchanged.
pub open spec fn ball_move_entity(e: Entity, dt: int) -> Entity {
    match e.ball {
        Some(_) => match e.transform {
            Some(t) => match e.velocity {
                Some(v) => Entity {
                    transform: Some(
                        Transform {
                            x: sclamp(t.x + v.dx * dt, -POS_LIMIT as int, POS_LIMIT as int) as i64,
                            y: sclamp(t.y + v.dy * dt, -POS_LIMIT as int, POS_LIMIT as int) as i64,
                        },
                    ),
                    ..e
                },
                None => e,
            },
            None => e,
        },
        None => e,
    }
}

/// The ball-motion system over a whole entity sequence.
pub open spec fn spec_ball_step(es: Seq<Entity>, dt: int) -> Seq<Entity> {
    es.map_values(|e: Entity| ball_move_entity(e, dt))
}

fn ball_move_exec(e: Entity, dt: i64, cfg: Config) -> (r: Entity)
    requires
        config_wf(cfg),
        entity_wf(e, cfg, e.id as int),
        0 <= dt && dt <= DT_LIMIT,
    ensures
        r == ball_move_entity(e, dt as int),
        entity_wf(r, cfg, e.id as int),
{
    match (e.ball, e.transform, e.velocity) {
        (Some(_), Some(t), Some(v)) => {
            proof {
                assert(sabs(v.dx as int) + sabs(v.dy as int) <= 1_000_000);
                assert(-1_000_000_000_000 <= v.dx * dt <= 1_000_000_000_000) by (nonlinear_arith)
                    requires
                        -1_000_000 <= v.dx <= 1_000_000,
                        0 <= dt <= 1_000_000,
                ;
                assert(-1_000_000_000_000 <= v.dy * dt <= 1_000_000_000_000) by (nonlinear_arith)
                    requires
                        -1_000_000 <= v.dy <= 1_000_000,
                        0 <= dt <= 1_000_000,
                ;
            }
            let x2 = iclamp(t.x + v.dx * dt, -POS_LIMIT, POS_LIMIT);
            let y2 = iclamp(t.y + v.dy * dt, -POS_LIMIT, POS_LIMIT);
            Entity { transform: Some(Transform { x: x2, y: y2 }), ..e }
        },
        _ => e,
    }
}

/// Advance every ball by its velocity times the delta time.
pub fn ball_motion_system(world: &mut World, dt: i64)
    requires
        old(world).wf(),
        0 <= dt && dt <= DT_LIMIT,
    ensures
        final(world).wf(),
        final(world).config == old(world).config,
        final(world).score == old(world).score,
        final(world).entities@ == spec_ball_step(old(world).entities@, dt as int),
{
    let n = world.entities.len();
    let mut i: usize = 0;
    while i < n
        invariant
            world.config == old(world).config,
            world.score == old(world).score,
            config_wf(world.config),
            0 <= dt && dt <= DT_LIMIT,
            n == world.entities@.len(),
            i <= n,
            forall|j: int| i <= j < n ==> world.entities@[j] == old(world).entities@[j],
            forall|j: int|
                0 <= j < i ==> world.entities@[j] == ball_move_entity(
                    old(world).entities@[j],
                    dt as int,
                ),
            forall|j: int|
                0 <= j < n ==> entity_wf(#[trigger] world.entities@[j], world.config, j),
        decreases n - i,
    {
        let e = world.entities[i];
        let e2 = ball_move_exec(e, dt, world.config);
        world.entities[i] = e2;
        i = i + 1;
    }
    proof {
        assert(world.entities@ =~= spec_ball_step(old(world).entities@, dt as int));
    }
}

// ---------------------------------------------------------------------------
// Collision / bounce
// ---------------------------------------------------------------------------

/// The axis-aligned region a paddle occupies, captured before the bounce pass.
#[derive(Clone, Copy, PartialEq, Eq, Debug)]
pub struct PaddleZone {
    pub side: Side,
    pub x_min: i64,
    pub x_max: i64,
    pub y_min: i64,
    pub y_max: i64,
    pub center_y: i64,
}

/// A zone as the bounce system may rely on it: derived from a well-formed
/// paddle entity under a well-formed configuration.
pub open spec fn zone_wf(z: PaddleZone, cfg: Config) -> bool {
    &&& -POS_LIMIT <= z.x_min && z.x_min <= POS_LIMIT
    &&& z.x_max == z.x_min + cfg.paddle_width
    &&& 0 <= z.y_min
    &&& z.y_max == z.y_min + cfg.paddle_height
    &&& z.y_max <= cfg.arena_height
    &&& z.center_y == z.y_min + cfg.paddle_height / 2
}

/// The zone of one paddle at its current transform.
pub open spec fn zone_of(t: Transform, p: Paddle, cfg: Config) -> PaddleZone {
    PaddleZone {
        side: p.side,
        x_min: t.x,
        x_max: (t.x + cfg.paddle_width) as i64,
        y_min: t.y,
        y_max: (t.y + cfg.paddle_height) as i64,
        center_y: (t.y + cfg.paddle_height / 2) as i64,
    }
}

/// The zones of all paddle entities, in insertion order.
pub open spec fn zones_of(es: Seq<Entity>, cfg: Config) -> Seq<PaddleZone>
    decreases es.len(),
{
    if es.len() == 0 {
        Seq::empty()
    } else {
        zones_of(es.drop_last(), cfg) + (match es.last().paddle {
            Some(p) => match es.last().transform {
                Some(t) => seq![zone_of(t, p, cfg)],
                None => Seq::empty(),
            },
            None => Seq::empty(),
        })
    }
}

/// Whether a ball with bounding box of radius `r` at `(x, y)` moving
/// horizontally at `dx` collides with the zone: the boxes overlap and the
/// ball moves towards the zone's side of the arena.
pub open spec fn zone_hit(z: PaddleZone, x: int, y: int, r: int, dx: int) -> bool {
    &&& x + r >= z.x_min
    &&& x - r <= z.x_max
    &&& y + r >= z.y_min
    &&& y - r <= z.y_max
    &&& match z.side {
        Side::Left => dx < 0,
        Side::Right => dx > 0,
    }
}

/// The index of the first zone the ball hits, or `zs.len()` if none.
pub open spec fn first_hit_index(zs: Seq<PaddleZone>, x: int, y: int, r: int, dx: int) -> int
    decreases zs.len(),
{
    if zs.len() == 0 {
        0
    } else if zone_hit(zs[0], x, y, r, dx) {
        0
    } else {
        1 + first_hit_index(zs.drop_first(), x, y, r, dx)
    }
}

proof fn lemma_first_hit(zs: Seq<PaddleZone>, x: int, y: int, r: int, dx: int)
    ensures
        0 <= first_hit_index(zs, x, y, r, dx) <= zs.len(),
        first_hit_index(zs, x, y, r, dx) < zs.len() ==> zone_hit(
            zs[first_hit_index(zs, x, y, r, dx)],
            x,
            y,
            r,
            dx,
        ),
        forall|j: int|
            0 <= j < first_hit_index(zs, x, y, r, dx) ==> !zone_hit(zs[j], x, y, r, dx),
    decreases zs.len(),
{
    if zs.len() == 0 {
    } else if zone_hit(zs[0], x, y, r, dx) {
    } else {
        lemma_first_hit(zs.drop_first(), x, y, r, dx);
        let k = first_hit_index(zs, x, y, r, dx);
        assert forall|j: int| 0 <= j < k implies !zone_hit(zs[j], x, y, r, dx) by {
            if j > 0 {
                assert(zs[j] == zs.drop_first()[j - 1]);
            }
        }
        if k < zs.len() {
            assert(zs[k] == zs.drop_first()[k - 1]);
        }
    }
}

/// The sign of `orig` applied to the magnitude `mag`.
pub open spec fn apply_sign(orig: int, mag: int) -> int {
    if orig < 0 {
        -mag
    } else {
        mag
    }
}

/// Force a velocity's taxicab magnitude into `[lo, hi]`, keeping each
/// component's direction: an excess is taken from the vertical component
/// first, a shortfall is added to the horizontal component.
pub open spec fn band_velocity(dx: int, dy: int, lo: int, hi: int) -> (int, int) {
    let s = sabs(dx) + sabs(dy);
    if s > hi {
        let excess = s - hi;
        let dy_red = if sabs(dy) < excess {
            sabs(dy)
        } else {
            excess
        };
        let dym = sabs(dy) - dy_red;
        let dxm = sabs(dx) - (excess - dy_red);
        (apply_sign(dx, dxm), apply_sign(dy, dym))
    } else if s < lo {
        (apply_sign(dx, sabs(dx) + (lo - s)), dy)
    } else {
        (dx, dy)
    }
}

/// Whatever velocity goes in, the banded velocity's magnitude lies in
/// `[lo, hi]`.
pub proof fn lemma_band_velocity_in_band(dx: int, dy: int, lo: int, hi: int)
    requires
        0 <= lo <= hi,
    ensures
        lo <= sabs(band_velocity(dx, dy, lo, hi).0) + sabs(band_velocity(dx, dy, lo, hi).1),
        sabs(band_velocity(dx, dy, lo, hi).0) + sabs(band_velocity(dx, dy, lo, hi).1) <= hi,
{
}

/// The velocity after a paddle bounce, before banding: horizontal component
/// reflected and scaled by the speed-up factor, vertical component nudged
/// towards the ball's offset from the paddle's centre.
pub open spec fn paddle_deflect(dx: int, dy: int, y: int, z: PaddleZone, cfg: Config) -> (
    int,
    int,
) {
    let m = sabs(dx) * (cfg.bounce_speedup_num as int) / (cfg.bounce_speedup_den as int);
    let dx2 = if dx < 0 {
        m
    } else {
        -m
    };
    let nm = sabs(y - z.center_y) / NUDGE_DIV as int;
    let nudge = if y < z.center_y {
        -nm
    } else {
        nm
    };
    band_velocity(dx2, dy + nudge, cfg.ball_min_speed as int, cfg.ball_max_speed as int)
}

/// The vertical position after the wall pass: repositioned just inside the
/// top or bottom boundary when the ball overlaps it.
pub open spec fn wall_y(y: int, r: int, h: int) -> int {
    if y - r < 0 {
        r
    } else if y + r > h {
        h - r
    } else {
        y
    }
}

/// The vertical velocity after the wall pass: reflected when the ball
/// overlaps a wall while moving towards it, at most once per tick.
pub open spec fn wall_dy(y: int, dy: int, r: int, h: int) -> int {
    if y - r < 0 {
        if dy < 0 {
            -dy
        } else {
            dy
        }
    } else if y + r > h {
        if dy > 0 {
            -dy
        } else {
            dy
        }
    } else {
        dy
    }
}

/// One entity after the collision system: wall checks first, then at most
/// one paddle deflection, its result forced into the configured speed band.
pub open spec fn bounce_entity(e: Entity, zs: Seq<PaddleZone>, cfg: Config) -> Entity {
    match e.ball {
        Some(b) => match e.transform {
            Some(t) => match e.velocity {
                Some(v) => {
                    let y1 = wall_y(t.y as int, b.radius as int, cfg.arena_height as int);
                    let dy1 = wall_dy(
                        t.y as int,
                        v.dy as int,
                        b.radius as int,
                        cfg.arena_height as int,
                    );
                    let k = first_hit_index(zs, t.x as int, y1, b.radius as int, v.dx as int);
                    let v2 = if k < zs.len() {
                        paddle_deflect(v.dx as int, dy1, y1, zs[k], cfg)
                    } else {
                        (v.dx as int, dy1)
                    };
                    Entity {
                        transform: Some(Transform { x: t.x, y: y1 as i64 }),
                        velocity: Some(Velocity { dx: v2.0 as i64, dy: v2.1 as i64 }),
                        ..e
                    }
                },
                None => e,
            },
            None => e,
        },
        None => e,
    }
}

/// The collision system over a whole entity sequence: every ball is checked
/// against the walls and against the paddle zones captured before the pass.
pub open spec fn spec_bounce_step(es: Seq<Entity>, cfg: Config) -> Seq<Entity> {
    es.map_values(|e: Entity| bounce_entity(e, zones_of(es, cfg), cfg))
}

/// A ball entity's speed magnitude lies within the configured band.
pub open spec fn ball_speed_in_band(e: Entity, cfg: Config) -> bool {
    match e.ball {
        Some(_) => match e.velocity {
            Some(v) => cfg.ball_min_speed <= speed_of(v) && speed_of(v) <= cfg.ball_max_speed,
            None => false,
        },
        None => true,
    }
}

fn zone_hit_exec(z: &PaddleZone, x: i64, y: i64, r: i64, dx: i64, cfg: Config) -> (b: bool)
    requires
        config_wf(cfg),
        zone_wf(*z, cfg),
        -POS_LIMIT <= x && x <= POS_LIMIT,
        0 <= y && y <= cfg.arena_height,
        1 <= r && r <= CFG_LIMIT,
        -CFG_LIMIT <= dx && dx <= CFG_LIMIT,
    ensures
        b == zone_hit(*z, x as int, y as int, r as int, dx as int),
{
    let overlap = x + r >= z.x_min && x - r <= z.x_max && y + r >= z.y_min && y - r <= z.y_max;
    let towards = match z.side {
        Side::Left => dx < 0,
        Side::Right => dx > 0,
    };
    overlap && towards
}

fn find_hit(zs: &Vec<PaddleZone>, x: i64, y: i64, r: i64, dx: i64, cfg: Config) -> (k: usize)
    requires
        config_wf(cfg),
        forall|j: int| 0 <= j < zs@.len() ==> zone_wf(#[trigger] zs@[j], cfg),
        -POS_LIMIT <= x && x <= POS_LIMIT,
        0 <= y && y <= cfg.arena_height,
        1 <= r && r <= CFG_LIMIT,
        -CFG_LIMIT <= dx && dx <= CFG_LIMIT,
    ensures
        k as int == first_hit_index(zs@, x as int, y as int, r as int, dx as int),
        k <= zs@.len(),
{
    proof {
        lemma_first_hit(zs@, x as int, y as int, r as int, dx as int);
    }
    let n = zs.len();
    let mut j: usize = 0;
    while j < n
        invariant
            config_wf(cfg),
            n == zs@.len(),
            j <= n,
            forall|j2: int| 0 <= j2 < n ==> zone_wf(#[trigger] zs@[j2], cfg),
            -POS_LIMIT <= x && x <= POS_LIMIT,
            0 <= y && y <= cfg.arena_height,
            1 <= r && r <= CFG_LIMIT,
            -CFG_LIMIT <= dx && dx <= CFG_LIMIT,
            forall|j2: int|
                0 <= j2 < j ==> !zone_hit(#[trigger] zs@[j2], x as int, y as int, r as int, dx as int),
        decreases n - j,
    {
        if zone_hit_exec(&zs[j], x, y, r, dx, cfg) {
            proof {
                lemma_first_hit(zs@, x as int, y as int, r as int, dx as int);
            }
            return j;
        }
        j = j + 1;
    }
    proof {
        lemma_first_hit(zs@, x as int, y as int, r as int, dx as int);
    }
    n
}

#[verifier::rlimit(60)]
fn bounce_entity_exec(e: Entity, zs: &Vec<PaddleZone>, cfg: Config) -> (r: Entity)
    requires
        config_wf(cfg),
        entity_wf(e, cfg, e.id as int),
        forall|j: int| 0 <= j < zs@.len() ==> zone_wf(#[trigger] zs@[j], cfg),
    ensures
        r == bounce_entity(e, zs@, cfg),
        entity_wf(r, cfg, e.id as int),
        ball_speed_in_band(r, cfg),
{
    match (e.ball, e.transform, e.velocity) {
        (Some(b), Some(t), Some(v)) => {
            let h = cfg.arena_height;
            let rad = b.radius;
            let y1: i64 = if t.y - rad < 0 {
                rad
            } else if t.y + rad > h {
                h - rad
            } else {
                t.y
            };
            let dy1: i64 = if t.y - rad < 0 {
                if v.dy < 0 {
                    -v.dy
                } else {
                    v.dy
                }
            } else if t.y + rad > h {
                if v.dy > 0 {
                    -v.dy
                } else {
                    v.dy
                }
            } else {
                v.dy
            };
            let k = find_hit(zs, t.x, y1, rad, v.dx, cfg);
            let (dx2, dy2): (i64, i64) = if k < zs.len() {
                let z = zs[k];
                let dx_abs: i64 = if v.dx < 0 {
                    -v.dx
                } else {
                    v.dx
                };
                proof {
                    assert(sabs(v.dx as int) + sabs(v.dy as int) <= 1_000_000);
                    assert((dx_abs as u64) * (cfg.bounce_speedup_num as u64) <= 1_000_000_000)
                        by (nonlinear_arith)
                        requires
                            dx_abs as u64 <= 1_000_000,
                            cfg.bounce_speedup_num as u64 <= 1000,
                    ;
                }
                let prod: u64 = (dx_abs as u64) * (cfg.bounce_speedup_num as u64);
                proof {
                    assert(prod / (cfg.bounce_speedup_den as u64) <= prod) by (nonlinear_arith)
                        requires
                            1 <= cfg.bounce_speedup_den as u64,
                    ;
                }
                let m: i64 = (prod / (cfg.bounce_speedup_den as u64)) as i64;
                let dxd: i64 = if v.dx < 0 {
                    m
                } else {
                    -m
                };
                let diff: i64 = y1 - z.center_y;
                let diff_abs: i64 = if diff < 0 {
                    -diff
                } else {
                    diff
                };
                let nm: i64 = ((diff_abs as u64) / NUDGE_DIV) as i64;
                let nudge: i64 = if diff < 0 {
                    -nm
                } else {
                    nm
                };
                proof {
                    lemma_band_velocity_in_band(
                        dxd as int,
                        dy1 + nudge,
                        cfg.ball_min_speed as int,
                        cfg.ball_max_speed as int,
                    );
                }
                band_exec(dxd, dy1 + nudge, cfg.ball_min_speed, cfg.ball_max_speed)
            } else {
                (v.dx, dy1)
            };
            Entity {
                transform: Some(Transform { x: t.x, y: y1 }),
                velocity: Some(Velocity { dx: dx2, dy: dy2 }),
                ..e
            }
        },
        _ => e,
    }
}

fn band_exec(dx: i64, dy: i64, lo: i64, hi: i64) -> (r: (i64, i64))
    requires
        0 <= lo && lo <= hi && hi <= CFG_LIMIT,
        -10_000_000_000 <= dx && dx <= 10_000_000_000,
        -10_000_000_000 <= dy && dy <= 10_000_000_000,
    ensures
        r.0 as int == band_velocity(dx as int, dy as int, lo as int, hi as int).0,
        r.1 as int == band_velocity(dx as int, dy as int, lo as int, hi as int).1,
{
    let dx_abs: i64 = if dx < 0 {
        -dx
    } else {
        dx
    };
    let dy_abs: i64 = if dy < 0 {
        -dy
    } else {
        dy
    };
    let s = dx_abs + dy_abs;
    if s > hi {
        let excess = s - hi;
        let dy_red = if dy_abs < excess {
            dy_abs
        } else {
            excess
        };
        let dym = dy_abs - dy_red;
        let dxm = dx_abs - (excess - dy_red);
        let r0 = if dx < 0 {
            -dxm
        } else {
            dxm
        };
        let r1 = if dy < 0 {
            -dym
        } else {
            dym
        };
        (r0, r1)
    } else if s < lo {
        let dxm = dx_abs + (lo - s);
        let r0 = if dx < 0 {
            -dxm
        } else {
            dxm
        };
        (r0, dy)
    } else {
        (dx, dy)
    }
}

fn collect_zones(world: &World) -> (zs: Vec<PaddleZone>)
    requires
        world.wf(),
    ensures
        zs@ == zones_of(world.entities@, world.config),
        forall|j: int| 0 <= j < zs@.len() ==> zone_wf(#[trigger] zs@[j], world.config),
{
    let cfg = world.config;
    let mut zs: Vec<PaddleZone> = Vec::new();
    let n = world.entities.len();
    let mut i: usize = 0;
    while i < n
        invariant
            world.wf(),
            cfg == world.config,
            n == world.entities@.len(),
            i <= n,
            zs@ == zones_of(world.entities@.take(i as int), cfg),
            forall|j: int| 0 <= j < zs@.len() ==> zone_wf(#[trigger] zs@[j], cfg),
        decreases n - i,
    {
        let e = world.entities[i];
        proof {
            assert(world.entities@.take(i + 1).drop_last() =~= world.entities@.take(i as int));
            assert(world.entities@.take(i + 1).last() == world.entities@[i as int]);
            assert(entity_wf(world.entities@[i as int], cfg, i as int));
        }
        match (e.paddle, e.transform) {
            (Some(p), Some(t)) => {
                let half: i64 = ((cfg.paddle_height as u64) / 2) as i64;
                let z = PaddleZone {
                    side: p.side,
                    x_min: t.x,
                    x_max: t.x + cfg.paddle_width,
                    y_min: t.y,
                    y_max: t.y + cfg.paddle_height,
                    center_y: t.y + half,
                };
                proof {
                    assert(z == zone_of(t, p, cfg));
                    assert(zs@.push(z) =~= zones_of(world.entities@.take(i + 1), cfg));
                }
                zs.push(z);
            },
            _ => {
                proof {
                    assert(zs@ =~= zones_of(world.entities@.take(i + 1), cfg));
                }
            },
        }
        i = i + 1;
    }
    proof {
        assert(world.entities@.take(n as int) =~= world.entities@);
    }
    zs
}

/// Check every ball against the arena walls and the paddles, walls first,
/// reflecting at most once per axis and forcing the speed into the band.
pub fn bounce_system(world: &mut World)
    requires
        old(world).wf(),
    ensures
        final(world).wf(),
        final(world).config == old(world).config,
        final(world).score == old(world).score,
        final(world).entities@ == spec_bounce_step(old(world).entities@, old(world).config),
        forall|i: int|
            0 <= i < final(world).entities@.len() ==> ball_speed_in_band(
                #[trigger] final(world).entities@[i],
                final(world).config,
            ),
{
    let zs = collect_zones(world);
    let ghost old_es = world.entities@;
    let n = world.entities.len();
    let mut i: usize = 0;
    while i < n
        invariant
            world.config == old(world).config,
            world.score == old(world).score,
            config_wf(world.config),
            old_es == old(world).entities@,
            zs@ == zones_of(old_es, world.config),
            forall|j: int| 0 <= j < zs@.len() ==> zone_wf(#[trigger] zs@[j], world.config),
            n == world.entities@.len(),
            i <= n,
            forall|j: int| i <= j < n ==> world.entities@[j] == old_es[j],
            forall|j: int|
                0 <= j < i ==> world.entities@[j] == bounce_entity(old_es[j], zs@, world.config),
            forall|j: int|
                0 <= j < n ==> entity_wf(#[trigger] world.entities@[j], world.config, j),
            forall|j: int|
                0 <= j < i ==> ball_speed_in_band(#[trigger] world.entities@[j], world.config),
        decreases n - i,
    {
        let e = world.entities[i];
        let e2 = bounce_entity_exec(e, &zs, world.config);
        world.entities[i] = e2;
        i = i + 1;
    }
    proof {
        assert(world.entities@ =~= spec_bounce_step(old(world).entities@, old(world).config));
    }
}

// ---------------------------------------------------------------------------
// Win detection
// ---------------------------------------------------------------------------

/// A ball has crossed the left arena boundary.
pub open spec fn crossed_left(e: Entity, cfg: Config) -> bool {
    match e.ball {
        Some(_) => match e.transform {
            Some(t) => t.x < 0,
            None => false,
        },
        None => false,
    }
}

/// A ball has crossed the right arena boundary.
pub open spec fn crossed_right(e: Entity, cfg: Config) -> bool {
    match e.ball {
        Some(_) => match e.transform {
            Some(t) => t.x > cfg.arena_width,
            None => false,
        },
        None => false,
    }
}

/// A score incremented by one point, saturating at the counter's limit.
pub open spec fn sat_inc(x: u64) -> u64 {
    if x < u64::MAX {
        (x + 1) as u64
    } else {
        x
    }
}

/// The score after checking one entity: crossing a boundary scores the
/// opposite player.
pub open spec fn score_bump(sc: ScoreBoard, e: Entity, cfg: Config) -> ScoreBoard {
    if crossed_left(e, cfg) {
        ScoreBoard { left: sc.left, right: sat_inc(sc.right) }
    } else if crossed_right(e, cfg) {
        ScoreBoard { left: sat_inc(sc.left), right: sc.right }
    } else {
        sc
    }
}

/// One entity after win detection: a ball that crossed a boundary is reset
/// to the arena centre and served at the configured serve speed, away from
/// the boundary it crossed.  Other entities are unchanged.
pub open spec fn win_entity(e: Entity, cfg: Config) -> Entity {
    if crossed_left(e, cfg) || crossed_right(e, cfg) {
        let dx = if crossed_left(e, cfg) {
            cfg.serve_speed as int
        } else {
            -(cfg.serve_speed as int)
        };
        Entity {
            transform: Some(
                Transform { x: (cfg.arena_width / 2) as i64, y: (cfg.arena_height / 2) as i64 },
            ),
            velocity: Some(Velocity { dx: dx as i64, dy: 0 }),
            ..e
        }
    } else {
        e
    }
}

/// The win-detection system over a whole entity sequence, folding the score
/// over the entities in insertion order.
pub open spec fn spec_win_step(es: Seq<Entity>, sc: ScoreBoard, cfg: Config) -> (
    Seq<Entity>,
    ScoreBoard,
)
    decreases es.len(),
{
    if es.len() == 0 {
        (Seq::empty(), sc)
    } else {
        let prev = spec_win_step(es.drop_last(), sc, cfg);
        (prev.0.push(win_entity(es.last(), cfg)), score_bump(prev.1, es.last(), cfg))
    }
}

/// Win detection never lowers a score.
pub proof fn lemma_win_score_monotonic(es: Seq<Entity>, sc: ScoreBoard, cfg: Config)
    ensures
        spec_win_step(es, sc, cfg).1.left >= sc.left,
        spec_win_step(es, sc, cfg).1.right >= sc.right,
    decreases es.len(),
{
    if es.len() == 0 {
    } else {
        lemma_win_score_monotonic(es.drop_last(), sc, cfg);
    }
}

fn win_entity_exec(e: Entity, cfg: Config) -> (r: Entity)
    requires
        config_wf(cfg),
        entity_wf(e, cfg, e.id as int),
    ensures
        r == win_entity(e, cfg),
        entity_wf(r, cfg, e.id as int),
{
    match (e.ball, e.transform) {
        (Some(_), Some(t)) => {
            if t.x < 0 || t.x > cfg.arena_width {
                let dx: i64 = if t.x < 0 {
                    cfg.serve_speed
                } else {
                    -cfg.serve_speed
                };
                let cx: i64 = ((cfg.arena_width as u64) / 2) as i64;
                let cy: i64 = ((cfg.arena_height as u64) / 2) as i64;
                Entity {
                    transform: Some(Transform { x: cx, y: cy }),
                    velocity: Some(Velocity { dx, dy: 0 }),
                    ..e
                }
            } else {
                e
            }
        },
        _ => e,
    }
}

/// Award a point for every ball that crossed a boundary, and reset that ball
/// to the arena centre at the serve speed.
pub fn win_detection_system(world: &mut World)
    requires
        old(world).wf(),
    ensures
        final(world).wf(),
        final(world).config == old(world).config,
        final(world).entities@ == spec_win_step(
            old(world).entities@,
            old(world).score,
            old(world).config,
        ).0,
        final(world).score == spec_win_step(
            old(world).entities@,
            old(world).score,
            old(world).config,
        ).1,
        final(world).score.left >= old(world).score.left,
        final(world).score.right >= old(world).score.right,
{
    let ghost old_es = world.entities@;
    let ghost old_sc = world.score;
    let cfg = world.config;
    let n = world.entities.len();
    let mut i: usize = 0;
    while i < n
        invariant
            world.config == old(world).config,
            cfg == world.config,
            config_wf(cfg),
            old_es == old(world).entities@,
            old_sc == old(world).score,
            n == old_es.len(),
            n == world.entities@.len(),
            i <= n,
            forall|j: int| i <= j < n ==> world.entities@[j] == old_es[j],
            forall|j: int|
                0 <= j < i ==> world.entities@[j] == spec_win_step(
                    old_es.take(i as int),
                    old_sc,
                    cfg,
                ).0[j],
            spec_win_step(old_es.take(i as int), old_sc, cfg).0.len() == i,
            world.score == spec_win_step(old_es.take(i as int), old_sc, cfg).1,
            forall|j: int|
                0 <= j < n ==> entity_wf(#[trigger] world.entities@[j], world.config, j),
        decreases n - i,
    {
        let e = world.entities[i];
        proof {
            assert(old_es.take(i + 1).drop_last() =~= old_es.take(i as int));
            assert(old_es.take(i + 1).last() == old_es[i as int]);
        }
        let e2 = win_entity_exec(e, cfg);
        if e.ball.is_some() && e.transform.is_some() {
            let t = match e.transform {
                Some(t) => t,
                None => Transform { x: 0, y: 0 },
            };
            if t.x < 0 {
                if world.score.right < u64::MAX {
                    world.score.right = world.score.right + 1;
                }
            } else if t.x > cfg.arena_width {
                if world.score.left < u64::MAX {
                    world.score.left = world.score.left + 1;
                }
            }
        }
        world.entities[i] = e2;
        i = i + 1;
        proof {
            assert(world.score == spec_win_step(old_es.take(i as int), old_sc, cfg).1);
        }
    }
    proof {
        assert(old_es.take(n as int) =~= old_es);
        assert(world.entities@ =~= spec_win_step(old_es, old_sc, cfg).0);
        lemma_win_score_monotonic(old_es, old_sc, cfg);
    }
}

// ---------------------------------------------------------------------------
// Dispatch and independence
// ---------------------------------------------------------------------------

/// What one system invocation does to the entity sequence and the score.
pub open spec fn spec_run_kind(
    k: SystemKind,
    es: Seq<Entity>,
    sc: ScoreBoard,
    cfg: Config,
    input: InputSnapshot,
    dt: int,
) -> (Seq<Entity>, ScoreBoard) {
    match k {
        SystemKind::PaddleMovement => (spec_paddle_step(es, input, dt), sc),
        SystemKind::BallMotion => (spec_ball_step(es, dt), sc),
        SystemKind::Bounce => (spec_bounce_step(es, cfg), sc),
        SystemKind::WinDetection => spec_win_step(es, sc, cfg),
    }
}

/// Invoke one system's logic over the world.
pub fn run_system(kind: SystemKind, world: &mut World, input: &InputSnapshot, dt: i64)
    requires
        old(world).wf(),
        0 <= dt && dt <= DT_LIMIT,
    ensures
        final(world).wf(),
        final(world).config == old(world).config,
        final(world).entities@ == spec_run_kind(
            kind,
            old(world).entities@,
            old(world).score,
            old(world).config,
            *input,
            dt as int,
        ).0,
        final(world).score == spec_run_kind(
            kind,
            old(world).entities@,
            old(world).score,
            old(world).config,
            *input,
            dt as int,
        ).1,
{
    match kind {
        SystemKind::PaddleMovement => paddle_movement_system(world, input, dt),
        SystemKind::BallMotion => ball_motion_system(world, dt),
        SystemKind::Bounce => bounce_system(world),
        SystemKind::WinDetection => win_detection_system(world),
    }
}

/// Paddle movement and ball motion are truly independent: on any entity
/// sequence in which no entity is both a paddle and a ball, applying them in
/// either order yields the same entity sequence.
pub proof fn lemma_paddle_ball_commute(es: Seq<Entity>, input: InputSnapshot, dt: int)
    requires
        forall|i: int|
            0 <= i < es.len() ==> !((#[trigger] es[i]).paddle is Some && es[i].ball is Some),
    ensures
        spec_ball_step(spec_paddle_step(es, input, dt), dt) == spec_paddle_step(
            spec_ball_step(es, dt),
            input,
            dt,
        ),
{
    let lhs = spec_ball_step(spec_paddle_step(es, input, dt), dt);
    let rhs = spec_paddle_step(spec_ball_step(es, dt), input, dt);
    assert forall|i: int| 0 <= i < es.len() implies lhs[i] == rhs[i] by {
        let e = es[i];
        assert(lhs[i] == ball_move_entity(paddle_move_entity(e, input, dt), dt));
        assert(rhs[i] == paddle_move_entity(ball_move_entity(e, dt), input, dt));
    }
    assert(lhs =~= rhs);
}

} // verus!
