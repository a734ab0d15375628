//! The game-loop driver: runs a finalized schedule once per tick, feeding it
//! the tick's input snapshot and delta time, and leaves the world readable
//! for external presentation between ticks.

use vstd::prelude::*;

use crate::scheduler::{order_ints, spec_run_kinds, Scheduler};
use crate::systems::SystemKind;
use crate::world::{Config, Entity, InputSnapshot, ScoreBoard, World, DT_LIMIT};

verus! {

/// What a whole run does to the entity sequence and the score: one schedule
/// invocation per tick, consuming the input snapshots and delta times in
/// order.
pub open spec fn spec_run_ticks(
    ks: Seq<SystemKind>,
    es: Seq<Entity>,
    sc: ScoreBoard,
    cfg: Config,
    inputs: Seq<InputSnapshot>,
    dts: Seq<int>,
) -> (Seq<Entity>, ScoreBoard)
    decreases inputs.len(),
{
    if inputs.len() == 0 {
        (es, sc)
    } else {
        let prev = spec_run_ticks(ks, es, sc, cfg, inputs.drop_last(), dts.drop_last());
        spec_run_kinds(ks, prev.0, prev.1, cfg, inputs.last(), dts.last())
    }
}

/// Drive the scheduler once per tick: tick `t` consumes `inputs[t]` and
/// `dts[t]`.  Afterwards the world holds exactly the state the schedule
/// prescribes for this input history.
pub fn run_ticks(sched: &Scheduler, world: &mut World, inputs: &Vec<InputSnapshot>, dts: &Vec<i64>)
    requires
        sched.wf(),
        sched.finalized,
        old(world).wf(),
        inputs@.len() == dts@.len(),
        forall|t: int| 0 <= t < dts@.len() ==> 0 <= #[trigger] dts@[t] <= DT_LIMIT,
    ensures
        final(world).wf(),
        final(world).config == old(world).config,
        final(world).entities@ == spec_run_ticks(
            sched.kinds(),
            old(world).entities@,
            old(world).score,
            old(world).config,
            inputs@,
            dts@.map_values(|d: i64| d as int),
        ).0,
        final(world).score == spec_run_ticks(
            sched.kinds(),
            old(world).entities@,
            old(world).score,
            old(world).config,
            inputs@,
            dts@.map_values(|d: i64| d as int),
        ).1,
{
    let ghost dt_ints = dts@.map_values(|d: i64| d as int);
    let n = inputs.len();
    let mut t: usize = 0;
    while t < n
        invariant
            sched.wf(),
            sched.finalized,
            n == inputs@.len(),
            n == dts@.len(),
            dt_ints == dts@.map_values(|d: i64| d as int),
            t <= n,
            forall|t2: int| 0 <= t2 < n ==> 0 <= #[trigger] dts@[t2] <= DT_LIMIT,
            world.wf(),
            world.config == old(world).config,
            world.entities@ == spec_run_ticks(
                sched.kinds(),
                old(world).entities@,
                old(world).score,
                old(world).config,
                inputs@.take(t as int),
                dt_ints.take(t as int),
            ).0,
            world.score == spec_run_ticks(
                sched.kinds(),
                old(world).entities@,
                old(world).score,
                old(world).config,
                inputs@.take(t as int),
                dt_ints.take(t as int),
            ).1,
        decreases n - t,
    {
        let input = inputs[t];
        sched.tick(world, &input, dts[t]);
        proof {
            assert(inputs@.take(t + 1).drop_last() =~= inputs@.take(t as int));
            assert(dt_ints.take(t + 1).drop_last() =~= dt_ints.take(t as int));
            assert(inputs@.take(t + 1).last() == inputs@[t as int]);
            assert(dt_ints.take(t + 1).last() == dt_ints[t as int]);
        }
        t = t + 1;
    }
    proof {
        assert(inputs@.take(n as int) =~= inputs@);
        assert(dt_ints.take(n as int) =~= dt_ints);
    }
}

/// Determinism: two runs over equal schedules, from equal initial worlds,
/// under identical sequences of input snapshots and delta times, produce
/// identical resulting world state — the run's outcome is a function of the
/// registration sequence, the initial world and the input history alone.
pub proof fn lemma_run_deterministic(
    ks1: Seq<SystemKind>,
    ks2: Seq<SystemKind>,
    es1: Seq<Entity>,
    es2: Seq<Entity>,
    sc1: ScoreBoard,
    sc2: ScoreBoard,
    cfg1: Config,
    cfg2: Config,
    inputs1: Seq<InputSnapshot>,
    inputs2: Seq<InputSnapshot>,
    dts1: Seq<int>,
    dts2: Seq<int>,
)
    requires
        ks1 == ks2,
        es1 == es2,
        sc1 == sc2,
        cfg1 == cfg2,
        inputs1 == inputs2,
        dts1 == dts2,
    ensures
        spec_run_ticks(ks1, es1, sc1, cfg1, inputs1, dts1) == spec_run_ticks(
            ks2,
            es2,
            sc2,
            cfg2,
            inputs2,
            dts2,
        ),
{
}

/// Two schedulers finalized from the same registration sequence follow the
/// same order and therefore invoke the same kinds.
pub proof fn lemma_schedule_deterministic(a: &Scheduler, b: &Scheduler)
    requires
        a.wf(),
        b.wf(),
        a.finalized,
        b.finalized,
        a.systems@ == b.systems@,
    ensures
        a.order@ == b.order@,
        a.kinds() == b.kinds(),
{
    assert(order_ints(a.order@) == order_ints(b.order@));
    assert forall|k: int| 0 <= k < a.order@.len() implies a.order@[k] == b.order@[k] by {
        assert(order_ints(a.order@)[k] == a.order@[k] as int);
        assert(order_ints(b.order@)[k] == b.order@[k] as int);
    }
    assert(a.order@ =~= b.order@);
    assert(a.kinds() =~= b.kinds());
}

} // verus!
