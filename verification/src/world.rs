//! The world of the simulation and its one state transition, the tick.

use vstd::prelude::*;
use std::collections::VecDeque;
use rand::rngs::ThreadRng;
use crate::entity::{Entity, Kind, MAX_SIDE, MIN_SIDE, PLAYER_SIDE};
use crate::geometry::{is_collided, lemma_step_stays_in_bounds, obj_to_rect, rect_of};
use crate::geometry::{Action, Coverage, Position, Rect, HEIGHT, WIDTH};
use crate::queue::{all_obstacles, drifted, ordered, swept};
use crate::queue::{lemma_drift_and_sweep_keep_order, lemma_expired_prefix_bound};
use crate::queue::{lemma_sweep_is_idempotent, lemma_sweep_keeps_order, lemma_sweep_past_expired};
use crate::random::{gen_range, thread_rng};

verus! {

/// Ticks between two spawn batches.
pub const SPAWN_DELAY: usize = 150;

/// Room that a new world sets aside for obstacles; a hint, not a limit.
pub const MAX_OBST: usize = 512;

/// Smallest size of a spawn batch.
pub const MIN_BATCH: usize = 2;

/// Every spawn batch is smaller than this.
pub const MAX_BATCH: usize = 10;

/// A batch is spawned on the tick that brings the counter to `timer`.
pub open spec fn spawn_due(timer: nat) -> bool {
    timer % (SPAWN_DELAY as nat) == 0
}

/// `batch` is what may be spawned on the tick that brings the counter to
/// `timer`: nothing between two spawn ticks, and on a spawn tick at least
/// `MIN_BATCH` and fewer than `MAX_BATCH` obstacles on the right edge.
pub open spec fn is_batch(timer: nat, batch: Seq<Entity>) -> bool {
    if spawn_due(timer) {
        &&& MIN_BATCH <= batch.len() < MAX_BATCH
        &&& forall|i: int| 0 <= i < batch.len() ==> (#[trigger] batch[i]).is_fresh()
    } else {
        batch.len() == 0
    }
}

/// `drawer` may return `Ok` when it is handed `rect`.
pub open spec fn draws<O, E, F: FnMut(Rect) -> Result<O, E>>(drawer: F, rect: Rect) -> bool {
    exists|o: O| #[trigger] call_ensures(drawer, (rect,), Ok::<O, E>(o))
}

/// `res` is what comes of handing `rects` one by one to `drawer`, up to and
/// with the first that fails.
///
/// Without boxes it is `Ok` of the default value. Else it is what `drawer`
/// returned for the last box that it was handed: every box before that one
/// was drawn, and either that one failed or it was the last of them all.
pub open spec fn drawn_until_failure<O: Default, E, F: FnMut(Rect) -> Result<O, E>>(
    drawer: F,
    rects: Seq<Rect>,
    res: Result<O, E>,
) -> bool {
    if rects.len() == 0 {
        res matches Ok(o) && call_ensures(O::default, (), o)
    } else {
        exists|last: int|
            {
                &&& 0 <= last < rects.len()
                &&& #[trigger] call_ensures(drawer, (rects[last],), res)
                &&& res is Ok ==> last == rects.len() - 1
                &&& forall|i: int| 0 <= i < last ==> #[trigger] draws::<O, E, F>(drawer, rects[i])
            }
    }
}

/// The state of a world, as contracts see it.
pub struct WorldView {
    /// The obstacles, oldest first.
    pub obstacles: Seq<Entity>,
    pub player: Entity,
    /// The request that the next tick will honour.
    pub intent: Option<Action>,
    /// Ticks made so far.
    pub timer: nat,
}

impl WorldView {
    /// The world is one that ticks can have made: the player is on the
    /// plane, every obstacle is of a spawned shape and within reach of the
    /// plane, and the queue is ordered from left to right.
    pub open spec fn wf(self) -> bool {
        &&& self.player.is_player()
        &&& all_obstacles(self.obstacles)
        &&& ordered(self.obstacles)
    }

    /// The player's anchor lies within some obstacle's box.
    pub open spec fn collides(self) -> bool {
        exists|i: int| 0 <= i < self.obstacles.len() && (#[trigger] self.obstacles[i]).covers(self.player)
    }

    /// `obstacle` may join the back of the queue: it is an obstacle as the
    /// simulation makes them, and no further left than the last one.
    pub open spec fn admits(self, obstacle: Entity) -> bool {
        &&& obstacle.is_obstacle()
        &&& self.obstacles.len() > 0 ==> self.obstacles.last().position.x <= obstacle.position.x
    }

    /// The player's box as it is drawn.
    pub open spec fn player_rect(self) -> Rect {
        rect_of(self.player.position, self.player.coverage)
    }

    /// The obstacles' boxes as they are drawn, oldest first.
    pub open spec fn obstacle_rects(self) -> Seq<Rect> {
        Seq::new(
            self.obstacles.len(),
            |i: int| rect_of(self.obstacles[i].position, self.obstacles[i].coverage),
        )
    }

    /// Where the player stands once the pending request is honoured.
    pub open spec fn player_stepped(self) -> Entity {
        match self.intent {
            Some(action) => Entity { position: self.player.position.stepped(action), ..self.player },
            None => self.player,
        }
    }

    /// The first part of a tick: the counter goes up by one and the pending
    /// request is honoured and forgotten.
    pub open spec fn begun(self) -> WorldView {
        WorldView {
            obstacles: self.obstacles,
            player: self.player_stepped(),
            intent: None,
            timer: self.timer + 1,
        }
    }

    /// The obstacles that live on after a tick that did not end with a
    /// collision at its start: all moved one unit left, the expired front
    /// removed.
    pub open spec fn survivors(self) -> Seq<Entity> {
        swept(drifted(self.obstacles))
    }

    /// One tick leads from `self` to `next` and reports `alive`.
    ///
    /// If the player, after its step, stands in an obstacle, the tick stops
    /// there and reports `false`. Else the obstacles drift, the expired
    /// front is removed, a batch may be appended, and the tick reports
    /// whether the player is still clear of every obstacle.
    pub open spec fn ticks_to(self, next: WorldView, alive: bool) -> bool {
        let begun = self.begun();
        if begun.collides() {
            &&& !alive
            &&& next == begun
        } else {
            let kept = begun.survivors();
            &&& next.player == begun.player
            &&& next.intent == begun.intent
            &&& next.timer == begun.timer
            &&& kept.len() <= next.obstacles.len()
            &&& next.obstacles.take(kept.len() as int) == kept
            &&& is_batch(begun.timer, next.obstacles.skip(kept.len() as int))
            &&& alive == !next.collides()
        }
    }
}

/// The simulation: the obstacle queue, the player, the pending request, the
/// tick counter and the random source that obstacles are drawn from.
pub struct World {
    obstacles: VecDeque<Entity>,
    player: Entity,
    last_action: Option<Action>,
    timer: usize,
    rng: ThreadRng,
}

impl View for World {
    type V = WorldView;

    closed spec fn view(&self) -> WorldView {
        WorldView {
            obstacles: self.obstacles@,
            player: self.player,
            intent: self.last_action,
            timer: self.timer as nat,
        }
    }
}

impl World {
    /// The world is well-formed: see `WorldView::wf`. Every world that this
    /// module hands out is, and every function here keeps it so.
    pub open spec fn wf(&self) -> bool {
        self@.wf()
    }

    /// A fresh world: no obstacles, no pending request, the counter at zero
    /// and the player somewhere in the upper left quarter of the plane.
    pub fn new() -> (world: World)
        ensures
            world.wf(),
            world@.obstacles.len() == 0,
            world@.intent.is_none(),
            world@.timer == 0,
            0 <= world@.player.position.x < WIDTH / 2,
            0 <= world@.player.position.y < HEIGHT / 2,
    {
        let mut rng = thread_rng();
        let x: usize = gen_range(&mut rng, 0, WIDTH / 2);
        let y: usize = gen_range(&mut rng, 0, HEIGHT / 2);
        World::with_player(rng, x, y)
    }

    /// A fresh world whose player stands at (`x`, `y`) and whose obstacles
    /// will be drawn from `rng`.
    pub fn with_player(rng: ThreadRng, x: usize, y: usize) -> (world: World)
        requires
            x <= WIDTH,
            y <= HEIGHT,
        ensures
            world.wf(),
            world@.obstacles.len() == 0,
            world@.player == (Entity {
                kind: Kind::Player,
                position: Position { x: x as isize, y: y as isize },
                coverage: Coverage { width: PLAYER_SIDE, height: PLAYER_SIDE },
            }),
            world@.intent.is_none(),
            world@.timer == 0,
    {
        World {
            obstacles: VecDeque::with_capacity(MAX_OBST),
            player: Entity {
                kind: Kind::Player,
                position: Position::new(x as isize, y as isize),
                coverage: Coverage::new(PLAYER_SIDE, PLAYER_SIDE),
            },
            last_action: None,
            timer: 0,
            rng,
        }
    }

    /// Records `action` as the request that the next tick honours; a request
    /// that no tick has honoured yet is lost.
    pub fn set_intent(&mut self, action: Action)
        ensures
            final(self)@ == (WorldView { intent: Some(action), ..old(self)@ }),
            old(self).wf() ==> final(self).wf(),
    {
        self.last_action = Some(action);
    }

    /// Appends an obstacle at `position` of size `coverage` to the back of
    /// the queue, if the queue admits it; else the world stays as it is.
    pub fn add_obstacle(&mut self, position: Position, coverage: Coverage) -> (added: bool)
        ensures
            added == old(self)@.admits(Entity { kind: Kind::Obstacle, position, coverage }),
            added ==> final(self)@ == (WorldView {
                obstacles: old(self)@.obstacles.push(Entity { kind: Kind::Obstacle, position, coverage }),
                ..old(self)@
            }),
            !added ==> final(self)@ == old(self)@,
            old(self).wf() ==> final(self).wf(),
    {
        let obstacle = Entity { kind: Kind::Obstacle, position, coverage };
        if !obstacle.check_obstacle() {
            return false;
        }
        let len: usize = self.obstacles.len();
        if len > 0 && self.obstacles[len - 1].position.x > position.x {
            return false;
        }
        self.obstacles.push_back(obstacle);
        true
    }

    /// Tells whether the player's anchor lies within some obstacle's box.
    pub fn check_collisions(&self) -> (hit: bool)
        ensures
            hit == self@.collides(),
    {
        let pos = self.player.position;
        let cov = self.player.coverage;
        let mut i: usize = 0;
        while i < self.obstacles.len()
            invariant
                i <= self.obstacles@.len(),
                pos == self.player.position,
                forall|j: int| 0 <= j < i ==> !(#[trigger] self.obstacles@[j]).covers(self.player),
            decreases self.obstacles@.len() - i,
        {
            let obstacle = self.obstacles[i];
            if is_collided((obstacle.position, obstacle.coverage), (pos, cov)) {
                assert(self@.obstacles[i as int].covers(self@.player));
                return true;
            }
            i = i + 1;
        }
        false
    }

    /// Removes the expired obstacles at the front of the queue, up to the
    /// first one whose right edge is still on the plane. What stays keeps
    /// its order.
    pub fn cleanup(&mut self)
        ensures
            final(self)@ == (WorldView { obstacles: swept(old(self)@.obstacles), ..old(self)@ }),
            old(self).wf() ==> final(self).wf(),
    {
        proof {
            if self.wf() {
                lemma_sweep_keeps_order(self@.obstacles);
            }
        }
        loop
            invariant
                self@ == (WorldView { obstacles: self@.obstacles, ..old(self)@ }),
                swept(self@.obstacles) == swept(old(self)@.obstacles),
            ensures
                self@ == (WorldView { obstacles: swept(old(self)@.obstacles), ..old(self)@ }),
            decreases self@.obstacles.len(),
        {
            let ghost queue = self.obstacles@;
            proof {
                lemma_sweep_is_idempotent(queue);
            }
            match self.obstacles.pop_front() {
                Some(front) => {
                    if !front.has_expired() {
                        self.obstacles.push_front(front);
                        assert(self.obstacles@ =~= queue);
                        break;
                    }
                    proof {
                        lemma_sweep_past_expired(queue);
                    }
                },
                None => {
                    break;
                },
            }
        }
    }

    /// Moves every obstacle one unit to the left, beyond the left edge too.
    fn drift(&mut self)
        requires
            forall|i: int|
                0 <= i < old(self)@.obstacles.len() ==> (#[trigger] old(self)@.obstacles[i]).position.x
                    > isize::MIN,
        ensures
            final(self)@ == (WorldView { obstacles: drifted(old(self)@.obstacles), ..old(self)@ }),
    {
        let n: usize = self.obstacles.len();
        let mut i: usize = 0;
        while i < n
            invariant
                i <= n,
                n == old(self)@.obstacles.len(),
                self@ == (WorldView { obstacles: self@.obstacles, ..old(self)@ }),
                self@.obstacles == old(self)@.obstacles.skip(i as int) + drifted(old(self)@.obstacles).take(
                    i as int,
                ),
                forall|j: int|
                    0 <= j < old(self)@.obstacles.len() ==> (#[trigger] old(self)@.obstacles[j]).position.x
                        > isize::MIN,
            decreases n - i,
        {
            match self.obstacles.pop_front() {
                Some(mut obstacle) => {
                    obstacle.position.unsafe_left();
                    self.obstacles.push_back(obstacle);
                },
                None => {},
            }
            i = i + 1;
        }
        assert(self@.obstacles =~= drifted(old(self)@.obstacles));
    }

    /// Advances the world by one tick and tells whether the player is still
    /// alive.
    ///
    /// In this order: the counter goes up by one; the pending request, if
    /// there is one, moves the player one clamped step and is forgotten; if
    /// the player now stands in an obstacle the tick ends and reports
    /// `false`; else every obstacle moves one unit left, the expired front
    /// of the queue is removed, and on every `SPAWN_DELAY`-th tick a batch
    /// of new obstacles enters on the right edge; the tick reports whether
    /// the player is clear of every obstacle.
    ///
    /// Which obstacles enter is left to the random source: the contract
    /// says how many they may be and what each may look like.
    pub fn tick(&mut self) -> (alive: bool)
        requires
            old(self).wf(),
            old(self)@.timer < usize::MAX,
        ensures
            final(self).wf(),
            old(self)@.ticks_to(final(self)@, alive),
            final(self)@.timer == old(self)@.timer + 1,
            final(self)@.intent.is_none(),
            final(self)@.player == old(self)@.player_stepped(),
    {
        self.timer += 1;
        match self.last_action.take() {
            Some(action) => self.player.position.step(action),
            None => {},
        }
        let ghost begun = self@;

        if self.check_collisions() {
            return false;
        }
        self.drift();
        self.cleanup();
        let ghost kept = self@.obstacles;
        proof {
            lemma_drift_and_sweep_keep_order(begun.obstacles);
        }

        if self.timer % SPAWN_DELAY == 0 {
            let num: usize = gen_range(&mut self.rng, MIN_BATCH, MAX_BATCH);
            let mut i: usize = 0;
            while i < num
                invariant
                    i <= num,
                    self.wf(),
                    self@ == (WorldView { obstacles: self@.obstacles, ..begun }),
                    self@.obstacles.len() == kept.len() + i,
                    self@.obstacles.take(kept.len() as int) == kept,
                    forall|j: int|
                        kept.len() <= j < self@.obstacles.len() ==> (#[trigger] self@.obstacles[j]).is_fresh(),
                decreases num - i,
            {
                let y: usize = gen_range(&mut self.rng, 0, HEIGHT);
                let width: usize = gen_range(&mut self.rng, MIN_SIDE, MAX_SIDE);
                let height: usize = gen_range(&mut self.rng, MIN_SIDE, MAX_SIDE);
                let added: bool = self.add_obstacle(
                    Position::new(WIDTH as isize, y as isize),
                    Coverage::new(width, height),
                );
                assert(added);
                i = i + 1;
            }
        }
        assert(self@.obstacles.take(kept.len() as int) =~= kept);
        !self.check_collisions()
    }

    /// Hands the obstacles' boxes to `drawer`, oldest first, until all are
    /// drawn or one fails, and returns what the last call returned. Without
    /// obstacles nothing is drawn and the result is `Ok` of the default
    /// value.
    pub fn draw_obstacles<O: Default, E>(
        &self,
        mut drawer: impl FnMut(Rect) -> Result<O, E>,
    ) -> (res: Result<O, E>)
        requires
            forall|i: int|
                0 <= i < self@.obstacle_rects().len() ==> call_requires(
                    drawer,
                    (#[trigger] self@.obstacle_rects()[i],),
                ),
        ensures
            drawn_until_failure(drawer, self@.obstacle_rects(), res),
    {
        let ghost rects = self@.obstacle_rects();
        let ghost given = drawer;
        let n: usize = self.obstacles.len();
        let mut acc: Result<O, E> = Ok(O::default());
        let mut i: usize = 0;
        while i < n && acc.is_ok()
            invariant
                i <= n,
                drawer == given,
                n == self.obstacles@.len(),
                rects == self@.obstacle_rects(),
                forall|j: int| 0 <= j < rects.len() ==> call_requires(drawer, (#[trigger] rects[j],)),
                i == 0 ==> (acc matches Ok(o) && call_ensures(O::default, (), o)),
                i > 0 ==> call_ensures(drawer, (rects[i - 1],), acc),
                forall|j: int| 0 <= j < i - 1 ==> #[trigger] draws::<O, E, _>(drawer, rects[j]),
            decreases n - i,
        {
            proof {
                if i > 0 {
                    assert(call_ensures(drawer, (rects[i - 1],), Ok::<O, E>(acc->Ok_0)));
                }
            }
            let obstacle = self.obstacles[i];
            assert(rects[i as int] == rect_of(obstacle.position, obstacle.coverage));
            acc = drawer(obj_to_rect(obstacle.position, obstacle.coverage));
            i = i + 1;
        }
        acc
    }

    /// Hands the player's box to `drawer` and returns what it returns.
    pub fn draw_player<T>(&self, mut drawer: impl FnMut(Rect) -> T) -> (res: T)
        requires
            call_requires(drawer, (self@.player_rect(),)),
        ensures
            call_ensures(drawer, (self@.player_rect(),), res),
    {
        let pos = self.player.position;
        let cov = self.player.coverage;
        drawer(obj_to_rect(pos, cov))
    }

    /// Ticks made so far.
    pub fn timer(&self) -> (t: usize)
        ensures
            t == self@.timer,
    {
        self.timer
    }

    /// The player as it stands.
    pub fn player(&self) -> (p: Entity)
        ensures
            p == self@.player,
    {
        self.player
    }

    /// The obstacles as they stand, oldest first.
    pub fn obstacles(&self) -> (queue: Vec<Entity>)
        ensures
            queue@ == self@.obstacles,
    {
        let mut queue: Vec<Entity> = Vec::new();
        let mut i: usize = 0;
        while i < self.obstacles.len()
            invariant
                i <= self.obstacles@.len(),
                queue@ == self.obstacles@.take(i as int),
            decreases self.obstacles@.len() - i,
        {
            queue.push(self.obstacles[i]);
            assert(self.obstacles@.take(i + 1) =~= self.obstacles@.take(i as int).push(
                self.obstacles@[i as int],
            ));
            i = i + 1;
        }
        queue
    }
}

/// A tick counts once, forgets the request it honoured, and moves the
/// player by that request alone: without a request the player stays where
/// it is, whatever is spawned.
pub proof fn lemma_tick_counts_and_moves(before: WorldView, after: WorldView, alive: bool)
    requires
        before.ticks_to(after, alive),
    ensures
        after.timer == before.timer + 1,
        after.intent.is_none(),
        after.player == before.player_stepped(),
        before.intent.is_none() ==> after.player == before.player,
{
}

/// A tick keeps a well-formed world well-formed; above all, the player
/// stays on the plane.
pub proof fn lemma_tick_keeps_wf(before: WorldView, after: WorldView, alive: bool)
    requires
        before.wf(),
        before.ticks_to(after, alive),
    ensures
        after.wf(),
        after.player.position.in_bounds(),
{
    if let Some(action) = before.intent {
        lemma_step_stays_in_bounds(before.player.position, action);
    }
    let begun = before.begun();
    if !begun.collides() {
        let kept = begun.survivors();
        let cut = kept.len() as int;
        lemma_drift_and_sweep_keep_order(before.obstacles);
        assert forall|i: int| 0 <= i < after.obstacles.len() implies (#[trigger] after.obstacles[i]).is_obstacle() by {
            if i < cut {
                assert(after.obstacles[i] == after.obstacles.take(cut)[i]);
            } else {
                assert(after.obstacles[i] == after.obstacles.skip(cut)[i - cut]);
            }
        }
        assert forall|i: int, j: int| 0 <= i <= j < after.obstacles.len() implies after.obstacles[i].position.x
            <= after.obstacles[j].position.x by {
            if j < cut {
                assert(after.obstacles[i] == after.obstacles.take(cut)[i]);
                assert(after.obstacles[j] == after.obstacles.take(cut)[j]);
            } else {
                assert(after.obstacles[j] == after.obstacles.skip(cut)[j - cut]);
            }
        }
    }
}

/// A tick on which the player, after its step, stands in an obstacle
/// reports death at once: no obstacle moves, leaves or enters.
pub proof fn lemma_collision_ends_tick(before: WorldView, after: WorldView, alive: bool)
    requires
        before.ticks_to(after, alive),
        before.begun().collides(),
    ensures
        !alive,
        after.obstacles == before.obstacles,
{
}

/// Spawn cadence. On a tick that does not end with a collision at its
/// start, what the queue holds behind the survivors is the spawn batch: at
/// least `MIN_BATCH` and fewer than `MAX_BATCH` fresh obstacles where the
/// counter reaches a multiple of `SPAWN_DELAY`, and nothing on any other
/// tick.
pub proof fn lemma_spawn_cadence(before: WorldView, after: WorldView, alive: bool)
    requires
        before.ticks_to(after, alive),
        !before.begun().collides(),
    ensures
        after.obstacles.len() >= before.begun().survivors().len(),
        after.obstacles.take(before.begun().survivors().len() as int) == before.begun().survivors(),
        ({
            let spawned = after.obstacles.len() - before.begun().survivors().len();
            if spawn_due(before.timer + 1) {
                MIN_BATCH <= spawned < MAX_BATCH
            } else {
                spawned == 0
            }
        }),
        forall|i: int|
            before.begun().survivors().len() <= i < after.obstacles.len() ==> (
            #[trigger] after.obstacles[i]).is_fresh(),
{
    let kept = before.begun().survivors();
    let batch = after.obstacles.skip(kept.len() as int);
    assert forall|i: int| kept.len() <= i < after.obstacles.len() implies (
    #[trigger] after.obstacles[i]).is_fresh() by {
        assert(after.obstacles[i] == batch[i - kept.len()]);
    }
}

/// A world without obstacles survives every tick between two spawn ticks,
/// and stays without obstacles.
pub proof fn lemma_empty_world_survives(before: WorldView, after: WorldView, alive: bool)
    requires
        before.ticks_to(after, alive),
        before.obstacles.len() == 0,
        !spawn_due(before.timer + 1),
    ensures
        alive,
        after.obstacles.len() == 0,
{
    lemma_expired_prefix_bound(drifted(before.obstacles));
}

/// A world that starts without obstacles and with its counter at zero
/// survives every tick before the first spawn tick, `SPAWN_DELAY - 1` ticks
/// in a row, and has no obstacles all that time.
///
/// `worlds` are the states of a run of ticks, `worlds[k + 1]` being what
/// the tick from `worlds[k]` left, and `alive[k]` is what that tick
/// reported.
pub proof fn lemma_fresh_world_survives_first_period(worlds: Seq<WorldView>, alive: Seq<bool>)
    requires
        worlds.len() == alive.len() + 1,
        alive.len() < SPAWN_DELAY,
        worlds[0].timer == 0,
        worlds[0].obstacles.len() == 0,
        forall|k: int| 0 <= k < alive.len() ==> worlds[k].ticks_to(worlds[k + 1], #[trigger] alive[k]),
    ensures
        forall|k: int| 0 <= k < alive.len() ==> #[trigger] alive[k],
        forall|k: int|
            0 <= k < worlds.len() ==> (#[trigger] worlds[k]).obstacles.len() == 0 && worlds[k].timer == k,
    decreases alive.len(),
{
    if alive.len() > 0 {
        let last = alive.len() - 1;
        lemma_fresh_world_survives_first_period(worlds.drop_last(), alive.drop_last());
        assert(worlds.drop_last()[last] == worlds[last]);
        lemma_empty_world_survives(worlds[last], worlds[last + 1], alive[last]);
        assert forall|k: int| 0 <= k < alive.len() implies #[trigger] alive[k] by {
            if k < last {
                assert(alive.drop_last()[k]);
            }
        }
        assert forall|k: int| 0 <= k < worlds.len() implies (#[trigger] worlds[k]).obstacles.len() == 0
            && worlds[k].timer == k by {
            if k <= last {
                assert(worlds.drop_last()[k] == worlds[k]);
            }
        }
    }
}

/// Two ticks from the same world differ in the spawned batch at most: they
/// agree on the counter, the player and the pending request, and between
/// two spawn ticks, or where the tick ends with a collision at its start,
/// on everything.
pub proof fn lemma_ticks_differ_in_the_batch_only(
    before: WorldView,
    one: WorldView,
    one_alive: bool,
    other: WorldView,
    other_alive: bool,
)
    requires
        before.ticks_to(one, one_alive),
        before.ticks_to(other, other_alive),
    ensures
        one.timer == other.timer,
        one.player == other.player,
        one.intent == other.intent,
        before.begun().collides() || !spawn_due(before.timer + 1) ==> one == other && one_alive
            == other_alive,
{
    let begun = before.begun();
    if !begun.collides() && !spawn_due(before.timer + 1) {
        let kept = begun.survivors();
        assert(one.obstacles =~= one.obstacles.take(kept.len() as int));
        assert(other.obstacles =~= other.obstacles.take(kept.len() as int));
    }
}

} // verus!
