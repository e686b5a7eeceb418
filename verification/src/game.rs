use vstd::prelude::*;
use std::collections::VecDeque;

use crate::cell::Cell;
use crate::host::now_millis;

verus! {

/// Timestamps are kept inside this bound (milliseconds since the epoch,
/// comfortably beyond any real clock) so that elapsed-time subtractions can
/// never overflow an `i64`.
pub const TS_BOUND: i64 = 4_000_000_000_000_000;

/// Milliseconds between two food refreshes, and the starvation window.
pub const REFRESH_INTERVAL_MS: i64 = 5_000;
/// A second wall bump within this window ends the game.
pub const KNOCK_GRACE_MS: i64 = 3_000;
/// The dizziness buff expires this long after the wall bump that set it.
pub const DIZZINESS_MS: i64 = 20_000;
/// The base tick period that `speed` divides.
pub const BASE_PERIOD_MS: i64 = 800;
/// The speed a snack streak resets to.
pub const BASE_SPEED: u8 = 3;

/// Is the position inside the `size` x `size` board?
pub open spec fn pos_in_range(size: int, p: (int, int)) -> bool {
    0 <= p.0 < size && 0 <= p.1 < size
}

/// Row-major index of a board position.
pub open spec fn pos_idx(size: int, p: (int, int)) -> int {
    p.0 * size + p.1
}

/// A position moved by one direction delta.
pub open spec fn pos_step(p: (int, int), d: (i32, i32)) -> (int, int) {
    (p.0 + d.0, p.1 + d.1)
}

pub open spec fn pos_of(p: (i32, i32)) -> (int, int) {
    (p.0 as int, p.1 as int)
}

pub open spec fn pos_to_i32(p: (int, int)) -> (i32, i32) {
    (p.0 as i32, p.1 as i32)
}

/// Negation of a raw input delta, pinned at the `i32` floor so that even a
/// pathological host value cannot make steering fail.
pub open spec fn spec_neg(x: i32) -> i32 {
    if x == i32::MIN {
        i32::MIN
    } else {
        (-(x as int)) as i32
    }
}

fn neg_delta(x: i32) -> (r: i32)
    ensures
        r == spec_neg(x),
{
    if x == i32::MIN {
        i32::MIN
    } else {
        -x
    }
}

/// The direction the steering stage hands the mover: the raw input,
/// inverted when the dizziness buff is active and the input differs from
/// the current heading.
pub open spec fn spec_steer(hd: (i32, i32), input: (i32, i32), dizzy: bool) -> (i32, i32) {
    if dizzy && hd != input {
        (spec_neg(input.0), spec_neg(input.1))
    } else {
        input
    }
}

/// Reversal rejection: a candidate that would reverse straight along the
/// current axis of travel is discarded in favour of the current heading.
pub open spec fn spec_fix_reversal(nd: (i32, i32), hd: (i32, i32)) -> (i32, i32) {
    if nd.0 == 0 && hd.0 == 0 && nd.1 as int == -(hd.1 as int) {
        hd
    } else if nd.1 == 0 && hd.1 == 0 && nd.0 as int == -(hd.0 as int) {
        hd
    } else {
        nd
    }
}

proof fn lemma_pos_idx_bounds(size: int, p: (int, int))
    requires
        pos_in_range(size, p),
    ensures
        0 <= pos_idx(size, p) < size * size,
{
    assert(0 <= p.0 * size + p.1 < size * size) by (nonlinear_arith)
        requires
            0 <= p.0 < size,
            0 <= p.1 < size,
    {}
}

proof fn lemma_pos_idx_inj(size: int, p: (int, int), q: (int, int))
    requires
        pos_in_range(size, p),
        pos_in_range(size, q),
        pos_idx(size, p) == pos_idx(size, q),
    ensures
        p == q,
{
    assert(p.0 == q.0 && p.1 == q.1) by (nonlinear_arith)
        requires
            0 <= p.0 < size,
            0 <= p.1 < size,
            0 <= q.0 < size,
            0 <= q.1 < size,
            p.0 * size + p.1 == q.0 * size + q.1,
    {}
}

/// Row-major index of a board cell.
pub(crate) fn get_index(size: usize, row: usize, column: usize) -> (r: usize)
    requires
        row < size,
        column < size,
        size * size <= usize::MAX,
    ensures
        r == pos_idx(size as int, (row as int, column as int)),
        r < size * size,
{
    proof {
        lemma_pos_idx_bounds(size as int, (row as int, column as int));
    }
    row * size + column
}

/// Saturating `x + 1` for streak counters: the count stops rising at the
/// type's ceiling instead of wrapping.
pub open spec fn inc_u32(x: u32) -> u32 {
    if x == u32::MAX {
        x
    } else {
        (x + 1) as u32
    }
}

pub open spec fn inc_u8(x: u8) -> u8 {
    if x == u8::MAX {
        x
    } else {
        (x + 1) as u8
    }
}

/// Speed tripled, saturating: undoes the wall-bump slowdown.
pub open spec fn speed_x3(s: u8) -> u8 {
    if s <= 85 {
        (3 * s) as u8
    } else {
        u8::MAX
    }
}

/// Speed doubled, saturating: the good-food escalation.
pub open spec fn speed_x2(s: u8) -> u8 {
    if s <= 127 {
        (2 * s) as u8
    } else {
        u8::MAX
    }
}

/// Speed divided by three with an explicit floor of 1, so the divisor of the
/// base period can never reach zero.
pub open spec fn speed_third(s: u8) -> u8 {
    if s >= 3 {
        (s / 3) as u8
    } else {
        1u8
    }
}

/// The snake's mutable state: position of head and tail, the per-segment
/// direction queue (head first, one entry per segment), streak counters,
/// buffs and speed.
pub struct Snake {
    /// Head position as (row, col).
    pub head: (i32, i32),
    /// One (d_row, d_col) movement delta per segment, head first.
    pub directions: VecDeque<(i32, i32)>,
    /// Tail position as (row, col).
    pub tail: (i32, i32),
    /// Consecutive staple/fruit/drink items eaten.
    pub goods: u32,
    /// Consecutive snacks eaten.
    pub snacks: u32,
    /// Consecutive drugs eaten.
    pub drugs: u8,
    /// Consecutive food-refresh cycles without a successful feed.
    pub hunger: u32,
    /// Good items eaten while the hunger buff is active.
    pub hunger_cnt: u8,
    /// Divisor of the base tick period; never 0.
    pub speed: u8,
    /// Growth is throttled while set.
    pub hungry_buff: bool,
    /// Steering input is inverted while set.
    pub dizziness_buff: bool,
    /// Total segment count.
    pub length: u32,
}

impl Snake {
    /// The exclusive streak bookkeeping for one consumed item, together
    /// with its immediate consequences on buffs and speed.
    fn eat_counters(&mut self, t: Cell)
        requires
            t.spec_is_eatable(),
            old(self).goods <= 5,
        ensures
            *final(self) == Game::spec_eat_snake(*old(self), t),
    {
        if t.is_snack() {
            let v = self.snacks;
            self.snacks = if v < 0xffff_ffff {
                v + 1
            } else {
                v
            };
            self.goods = 0;
            self.drugs = 0;
        } else if t.is_drug() {
            let v = self.drugs;
            self.drugs = if v < 255 {
                v + 1
            } else {
                v
            };
            self.goods = 0;
            self.snacks = 0;
        } else {
            self.goods = self.goods + 1;
            let v = self.hunger_cnt;
            self.hunger_cnt = if v < 255 {
                v + 1
            } else {
                v
            };
            self.snacks = 0;
            self.drugs = 0;
        }
        if self.goods >= 4 {
            // a streak of good food shakes the hunger buff off
            self.hungry_buff = false;
        }
        if self.goods >= 6 {
            // speed escalation, saturating; the streak starts over
            let s = self.speed;
            self.speed = if s <= 127 {
                2 * s
            } else {
                255
            };
            self.goods = 0;
        }
        if self.snacks >= 3 {
            // three snacks in a row normalise the speed
            self.speed = BASE_SPEED;
        }
    }

    /// A drug wipes both negative buffs (undoing the dizziness slowdown)
    /// and the snack streak.
    fn drug_wipe(&mut self)
        ensures
            *final(self) == (Snake {
                speed: (if old(self).dizziness_buff {
                    speed_x3(old(self).speed)
                } else {
                    old(self).speed
                }),
                dizziness_buff: false,
                hungry_buff: false,
                snacks: 0,
                ..*old(self)
            }),
    {
        if self.dizziness_buff {
            let s = self.speed;
            self.speed = if s <= 85 {
                3 * s
            } else {
                255
            };
            self.dizziness_buff = false;
        }
        self.hungry_buff = false;
        self.snacks = 0;
    }
}

/// Wall-clock bookkeeping plus the batch of currently tracked food cells.
pub struct Refreshes {
    /// When food was last refreshed (ms).
    pub last_eatable_refresh: i64,
    /// Board indices of the food placed by the last refresh.
    pub last_eatable_pos: Vec<usize>,
    /// When the snake last fed successfully (ms).
    pub last_feed: i64,
    /// When the snake last bumped a wall (ms).
    pub last_knock_wall: i64,
    /// When the snake last moved (ms).
    pub last_move: i64,
}

/// Run status; while paused, `tick` is a no-op.
pub enum Status {
    Pause,
    Start,
}

/// The aggregate game state: board, snake, timers, run status and the most
/// recent raw input direction.
pub struct Game {
    pub size: usize,
    pub input_directions: (i32, i32),
    pub snake: Snake,
    pub refreshes: Refreshes,
    pub status: Status,
    pub cells: Vec<Cell>,
    /// Ghost model of the snake: the board position of every segment, head
    /// first. The board invariant ties each entry to a head or body cell.
    pub segments: Ghost<Seq<(int, int)>>,
}

impl Game {
    pub open spec fn side(self) -> int {
        self.size as int
    }

    pub open spec fn wf_dims(self) -> bool {
        &&& 3 <= self.size
        &&& self.size * self.size <= usize::MAX
        &&& self.size <= 0x7fff_ffff
        &&& self.cells@.len() == self.size * self.size
    }

    /// The structural snake invariant: the direction queue carries exactly
    /// one delta per segment and speed never reaches 0.
    pub open spec fn wf_snake(self) -> bool {
        &&& self.snake.directions@.len() == self.snake.length
        &&& 1 <= self.snake.speed
        &&& 2 <= self.snake.length
        &&& self.snake.goods <= 5
    }

    pub open spec fn ts_ok(ts: i64) -> bool {
        0 <= ts <= TS_BOUND
    }

    pub open spec fn wf_time(self) -> bool {
        &&& Self::ts_ok(self.refreshes.last_eatable_refresh)
        &&& Self::ts_ok(self.refreshes.last_feed)
        &&& Self::ts_ok(self.refreshes.last_knock_wall)
        &&& Self::ts_ok(self.refreshes.last_move)
    }

    pub open spec fn wf_food(self) -> bool {
        &&& forall|i: int|
            0 <= i < self.refreshes.last_eatable_pos@.len()
                ==> (#[trigger] self.refreshes.last_eatable_pos@[i]) < self.size * self.size
        &&& self.refreshes.last_eatable_pos@.no_duplicates()
    }

    /// The board invariant. `segments` lists the position of every snake
    /// segment, head first; the cells it covers are exactly the head/body
    /// cells of the board, the queue's deltas link consecutive segments, and
    /// no two segments overlap.
    pub open spec fn wf_board(self) -> bool {
        let ss = self.segments@;
        let n = ss.len() as int;
        &&& ss.len() == self.snake.length
        &&& ss[0] == pos_of(self.snake.head)
        &&& ss[n - 1] == pos_of(self.snake.tail)
        &&& forall|i: int| 0 <= i < n ==> pos_in_range(self.side(), #[trigger] ss[i])
        &&& forall|i: int|
            1 <= i < n ==> ss[i - 1] == pos_step(#[trigger] ss[i], self.snake.directions@[i])
        &&& forall|i: int, j: int| 0 <= i < j < n ==> #[trigger] ss[i] != #[trigger] ss[j]
        &&& self.cells@[pos_idx(self.side(), ss[0])].spec_is_head()
        &&& forall|i: int|
            1 <= i < n ==> self.cells@[pos_idx(self.side(), #[trigger] ss[i])].spec_is_body()
        &&& forall|k: int|
            0 <= k < self.cells@.len() && (#[trigger] self.cells@[k]).spec_is_snake()
                ==> exists|i: int| 0 <= i < n && pos_idx(self.side(), #[trigger] ss[i]) == k
    }

    /// Everything a live game maintains, tick after tick.
    pub open spec fn inv(self) -> bool {
        &&& self.wf_dims()
        &&& self.wf_snake()
        &&& self.wf_time()
        &&& self.wf_food()
        &&& self.wf_board()
    }

    /// The buff bitfield the host reads: bit 0 is hunger, bit 1 dizziness.
    pub open spec fn spec_buffs(self) -> u8 {
        ((if self.snake.hungry_buff {
            1int
        } else {
            0int
        }) + (if self.snake.dizziness_buff {
            2int
        } else {
            0int
        })) as u8
    }

    /// State after clearing the dizziness buff: the wall-bump slowdown is
    /// undone (speed tripled) together with the bit, or nothing happens if
    /// the buff is not set.
    pub open spec fn spec_clear_dizziness(g: Game) -> Game {
        if g.snake.dizziness_buff {
            Game {
                snake: Snake { speed: speed_x3(g.snake.speed), dizziness_buff: false, ..g.snake },
                ..g
            }
        } else {
            g
        }
    }

    /// State after the per-tick buff-expiry check: dizziness lapses once
    /// `DIZZINESS_MS` have passed since the last wall bump.
    pub open spec fn spec_check_buff(g: Game, ts: i64) -> Game {
        if ts - g.refreshes.last_knock_wall > DIZZINESS_MS {
            Self::spec_clear_dizziness(g)
        } else {
            g
        }
    }

    fn clear_dizziness_buff(&mut self)
        requires
            old(self).inv(),
        ensures
            *final(self) == Self::spec_clear_dizziness(*old(self)),
            final(self).inv(),
    {
        if self.snake.dizziness_buff {
            let s = self.snake.speed;
            self.snake.speed = if s <= 85 {
                3 * s
            } else {
                255
            };
            self.snake.dizziness_buff = false;
        }
        proof {
            assert(self.segments@ == old(self).segments@);
            assert(self.cells@ == old(self).cells@);
            assert(self.wf_board());
        }
    }

    fn check_buff(&mut self, ts: i64)
        requires
            old(self).inv(),
            Self::ts_ok(ts),
        ensures
            *final(self) == Self::spec_check_buff(*old(self), ts),
            final(self).inv(),
    {
        if ts - self.refreshes.last_knock_wall > DIZZINESS_MS {
            self.clear_dizziness_buff();
        }
    }

    /// Is a food refresh due at `ts`?
    pub open spec fn refresh_due(g: Game, ts: i64) -> bool {
        ts - g.refreshes.last_eatable_refresh > REFRESH_INTERVAL_MS
    }

    /// The hunger streak a due refresh leaves behind: one more cycle if the
    /// snake has not fed within the starvation window, else zero.
    pub open spec fn spec_hunger_after(g: Game, ts: i64) -> u32 {
        if ts - g.refreshes.last_feed > REFRESH_INTERVAL_MS {
            inc_u32(g.snake.hunger)
        } else {
            0
        }
    }

    /// Does the game survive the food-refresh stage at `ts`? It dies exactly
    /// when a due refresh drives the hunger streak to 3.
    pub open spec fn refresh_alive(g: Game, ts: i64) -> bool {
        !(Self::refresh_due(g, ts) && Self::spec_hunger_after(g, ts) == 3)
    }

    /// The coarse shape of a refresh change, enough for the board
    /// invariant: only blank or eatable cells are touched at all.
    pub open spec fn cell_change_ok(a: Cell, b: Cell) -> bool {
        ||| b == a
        ||| ((a == Cell::Blank || a.spec_is_eatable()) && (b == Cell::Blank
            || b.spec_is_eatable()))
    }

    /// How one board cell may change across a food refresh: untouched; a
    /// tracked leftover swept back to blank; fresh food on a blank cell the
    /// new batch tracks; or a swept tracked cell re-used for fresh food.
    pub open spec fn cell_refreshed(a: Cell, b: Cell, was_tracked: bool, now_tracked: bool) -> bool {
        ||| b == a
        ||| (was_tracked && a.spec_is_eatable() && b == Cell::Blank)
        ||| (now_tracked && a == Cell::Blank && b.spec_is_eatable())
        ||| (was_tracked && now_tracked && a.spec_is_eatable() && b.spec_is_eatable())
    }

    /// Everything the food-refresh stage guarantees about the state it
    /// leaves. Random placement keeps the target batch size of 3..=5 unless
    /// the board has no blank cell left.
    pub open spec fn refresh_rel(pre: Game, post: Game, ts: i64) -> bool {
        if !Self::refresh_due(pre, ts) {
            post == pre
        } else {
            let foods = post.refreshes.last_eatable_pos@;
            &&& post.size == pre.size
            &&& post.status == pre.status
            &&& post.input_directions == pre.input_directions
            &&& post.snake.hunger == Self::spec_hunger_after(pre, ts)
            &&& post.snake.hungry_buff == (pre.snake.hungry_buff || Self::spec_hunger_after(
                pre,
                ts,
            ) == 2)
            &&& post.snake == (Snake {
                hunger: post.snake.hunger,
                hungry_buff: post.snake.hungry_buff,
                ..pre.snake
            })
            &&& post.refreshes.last_eatable_refresh == (if Self::refresh_alive(pre, ts) {
                ts
            } else {
                pre.refreshes.last_eatable_refresh
            })
            &&& post.refreshes.last_feed == pre.refreshes.last_feed
            &&& post.refreshes.last_knock_wall == pre.refreshes.last_knock_wall
            &&& post.refreshes.last_move == pre.refreshes.last_move
            &&& post.cells@.len() == pre.cells@.len()
            &&& foods.len() <= 5
            &&& foods.len() >= 3 || (forall|k: int|
                0 <= k < post.cells@.len() ==> (#[trigger] post.cells@[k]) != Cell::Blank)
            &&& forall|i: int|
                0 <= i < foods.len() ==> (#[trigger] foods[i]) < post.cells@.len()
                    && post.cells@[foods[i] as int].spec_is_eatable()
            &&& foods.no_duplicates()
            &&& forall|k: int|
                0 <= k < pre.cells@.len() ==> Self::cell_refreshed(
                    pre.cells@[k],
                    #[trigger] post.cells@[k],
                    pre.refreshes.last_eatable_pos@.contains(k as usize),
                    foods.contains(k as usize),
                )
        }
    }

    /// Run the once-per-tick food lifecycle: when a refresh is due, sweep
    /// the uneaten leftovers, place a fresh random batch of 3..=5 eatables
    /// on blank cells, and advance the hunger streak. Returns false exactly
    /// when the streak reaches 3 (starved out).
    fn try_refresh_food(&mut self, ts: i64) -> (r: bool)
        requires
            old(self).inv(),
            Self::ts_ok(ts),
        ensures
            final(self).inv(),
            Self::refresh_rel(*old(self), *final(self), ts),
            r == Self::refresh_alive(*old(self), ts),
    {
        if ts - self.refreshes.last_eatable_refresh > REFRESH_INTERVAL_MS {
            let ghost pre = *self;
            // Sweep the previous batch: positions already eaten are no
            // longer eatable cells and are skipped.
            let n = self.refreshes.last_eatable_pos.len();
            let mut i: usize = 0;
            while i < n
                invariant
                    i <= n,
                    self.snake == pre.snake,
                    self.refreshes == pre.refreshes,
                    self.segments == pre.segments,
                    self.size == pre.size,
                    self.status == pre.status,
                    self.input_directions == pre.input_directions,
                    pre.inv(),
                    n == pre.refreshes.last_eatable_pos@.len(),
                    self.cells@.len() == pre.cells@.len(),
                    forall|k: int|
                        0 <= k < pre.cells@.len() ==> Self::cell_refreshed(
                            pre.cells@[k],
                            #[trigger] self.cells@[k],
                            pre.refreshes.last_eatable_pos@.contains(k as usize),
                            false,
                        ),
                decreases n - i,
            {
                let pos = self.refreshes.last_eatable_pos[i];
                assert(pos < pre.cells@.len());
                if self.cells[pos].is_eatable() {
                    proof {
                        assert(pre.refreshes.last_eatable_pos@[i as int] == pos);
                        assert(pre.refreshes.last_eatable_pos@.contains(pos));
                        assert(pre.cells@[pos as int].spec_is_eatable());
                    }
                    self.cells[pos] = Cell::Blank;
                }
                i += 1;
            }

            // Place the next batch: a random target of 3..=5 items, random
            // positions first, then a deterministic sweep of the board if
            // the random attempts keep hitting occupied cells.
            let eatable_num: u8 = rand::random();
            let target: usize = ((eatable_num % 3) + 3) as usize;
            self.refreshes.last_eatable_pos = Vec::new();
            proof {
                assert forall|k: int| 0 <= k < pre.cells@.len() implies Self::cell_refreshed(
                    pre.cells@[k],
                    #[trigger] self.cells@[k],
                    pre.refreshes.last_eatable_pos@.contains(k as usize),
                    self.refreshes.last_eatable_pos@.contains(k as usize),
                ) by {
                    assert(!self.refreshes.last_eatable_pos@.contains(k as usize));
                }
            }
            let area: usize = self.size * self.size;
            let mut attempts: usize = 0;
            while self.refreshes.last_eatable_pos.len() < target && attempts < area
                invariant
                    pre.inv(),
                    target <= 5,
                    area == pre.size * pre.size,
                    self.snake == pre.snake,
                    self.segments == pre.segments,
                    self.size == pre.size,
                    self.status == pre.status,
                    self.input_directions == pre.input_directions,
                    self.refreshes.last_eatable_refresh == pre.refreshes.last_eatable_refresh,
                    self.refreshes.last_feed == pre.refreshes.last_feed,
                    self.refreshes.last_knock_wall == pre.refreshes.last_knock_wall,
                    self.refreshes.last_move == pre.refreshes.last_move,
                    self.cells@.len() == pre.cells@.len(),
                    self.refreshes.last_eatable_pos@.len() <= target,
                    self.refreshes.last_eatable_pos@.no_duplicates(),
                    forall|j: int|
                        0 <= j < self.refreshes.last_eatable_pos@.len() ==> (
                        #[trigger] self.refreshes.last_eatable_pos@[j]) < pre.cells@.len()
                            && self.cells@[self.refreshes.last_eatable_pos@[j] as int].spec_is_eatable(),
                    forall|k: int|
                        0 <= k < pre.cells@.len() ==> Self::cell_refreshed(
                            pre.cells@[k],
                            #[trigger] self.cells@[k],
                            pre.refreshes.last_eatable_pos@.contains(k as usize),
                            self.refreshes.last_eatable_pos@.contains(k as usize),
                        ),
                decreases area - attempts,
            {
                attempts += 1;
                let pos: usize = rand::random();
                let pos = pos % area;
                if self.cells[pos].id() == 0 {
                    assert(self.cells@[pos as int] == Cell::Blank);
                    let ghost mid_cells = self.cells@;
                    let ghost oldl = self.refreshes.last_eatable_pos@;
                    let mut c = self.cells[pos];
                    c.eatable();
                    self.cells[pos] = c;
                    self.refreshes.last_eatable_pos.push(pos);
                    proof {
                        Self::lemma_track_one_more(
                            pre.cells@,
                            mid_cells,
                            self.cells@,
                            pre.refreshes.last_eatable_pos@,
                            oldl,
                            pos,
                            c,
                        );
                    }
                }
            }
            let mut k: usize = 0;
            while k < area && self.refreshes.last_eatable_pos.len() < target
                invariant
                    pre.inv(),
                    target <= 5,
                    k <= area,
                    area == pre.size * pre.size,
                    self.snake == pre.snake,
                    self.segments == pre.segments,
                    self.size == pre.size,
                    self.status == pre.status,
                    self.input_directions == pre.input_directions,
                    self.refreshes.last_eatable_refresh == pre.refreshes.last_eatable_refresh,
                    self.refreshes.last_feed == pre.refreshes.last_feed,
                    self.refreshes.last_knock_wall == pre.refreshes.last_knock_wall,
                    self.refreshes.last_move == pre.refreshes.last_move,
                    self.cells@.len() == pre.cells@.len(),
                    self.refreshes.last_eatable_pos@.len() <= target,
                    self.refreshes.last_eatable_pos@.no_duplicates(),
                    self.refreshes.last_eatable_pos@.len() < target ==> forall|j: int|
                        0 <= j < k ==> (#[trigger] self.cells@[j]) != Cell::Blank,
                    forall|j: int|
                        0 <= j < self.refreshes.last_eatable_pos@.len() ==> (
                        #[trigger] self.refreshes.last_eatable_pos@[j]) < pre.cells@.len()
                            && self.cells@[self.refreshes.last_eatable_pos@[j] as int].spec_is_eatable(),
                    forall|k2: int|
                        0 <= k2 < pre.cells@.len() ==> Self::cell_refreshed(
                            pre.cells@[k2],
                            #[trigger] self.cells@[k2],
                            pre.refreshes.last_eatable_pos@.contains(k2 as usize),
                            self.refreshes.last_eatable_pos@.contains(k2 as usize),
                        ),
                decreases area - k,
            {
                if self.cells[k].id() == 0 {
                    assert(self.cells@[k as int] == Cell::Blank);
                    let ghost mid_cells = self.cells@;
                    let ghost oldl = self.refreshes.last_eatable_pos@;
                    let mut c = self.cells[k];
                    c.eatable();
                    self.cells[k] = c;
                    self.refreshes.last_eatable_pos.push(k);
                    proof {
                        Self::lemma_track_one_more(
                            pre.cells@,
                            mid_cells,
                            self.cells@,
                            pre.refreshes.last_eatable_pos@,
                            oldl,
                            k,
                            c,
                        );
                    }
                }
                k += 1;
            }

            // Advance the hunger streak: another cycle without a feed, or a
            // reset; two cycles set the hunger buff, three are fatal.
            if ts - self.refreshes.last_feed > REFRESH_INTERVAL_MS {
                let h = self.snake.hunger;
                self.snake.hunger = if h < 0xffff_ffff {
                    h + 1
                } else {
                    h
                };
            } else {
                self.snake.hunger = 0;
            }
            if self.snake.hunger == 2 {
                self.snake.hungry_buff = true;
            }
            proof {
                assert forall|k2: int|
                    0 <= k2 < pre.cells@.len() implies Self::cell_change_ok(
                    pre.cells@[k2],
                    #[trigger] self.cells@[k2],
                ) by {
                    assert(Self::cell_refreshed(
                        pre.cells@[k2],
                        self.cells@[k2],
                        pre.refreshes.last_eatable_pos@.contains(k2 as usize),
                        self.refreshes.last_eatable_pos@.contains(k2 as usize),
                    ));
                }
                Self::lemma_board_same_snake(pre, *self);
            }
            if self.snake.hunger == 3 {
                return false;
            }
            self.refreshes.last_eatable_refresh = ts;
            proof {
                Self::lemma_board_same_snake(pre, *self);
            }
            true
        } else {
            true
        }
    }

    /// Placing one eatable on a blank cell extends the tracked batch: the
    /// new position is fresh (its cell was blank, tracked cells are not),
    /// every tracked cell stays eatable, and each board cell still changed
    /// only in the ways a refresh allows.
    proof fn lemma_track_one_more(
        pre: Seq<Cell>,
        mid: Seq<Cell>,
        post: Seq<Cell>,
        wasl: Seq<usize>,
        oldl: Seq<usize>,
        pos: usize,
        item: Cell,
    )
        requires
            pre.len() == mid.len(),
            post == mid.update(pos as int, item),
            pos < mid.len(),
            mid[pos as int] == Cell::Blank,
            item.spec_is_eatable(),
            oldl.no_duplicates(),
            forall|j: int|
                0 <= j < oldl.len() ==> (#[trigger] oldl[j]) < mid.len()
                    && mid[oldl[j] as int].spec_is_eatable(),
            forall|k: int|
                0 <= k < pre.len() ==> Self::cell_refreshed(
                    pre[k],
                    #[trigger] mid[k],
                    wasl.contains(k as usize),
                    oldl.contains(k as usize),
                ),
        ensures
            oldl.push(pos).no_duplicates(),
            forall|j: int|
                0 <= j < oldl.push(pos).len() ==> (#[trigger] oldl.push(pos)[j]) < post.len()
                    && post[oldl.push(pos)[j] as int].spec_is_eatable(),
            forall|k: int|
                0 <= k < pre.len() ==> Self::cell_refreshed(
                    pre[k],
                    #[trigger] post[k],
                    wasl.contains(k as usize),
                    oldl.push(pos).contains(k as usize),
                ),
    {
        let newl = oldl.push(pos);
        assert forall|x: usize| oldl.contains(x) implies newl.contains(x) by {
            let j = choose|j: int| 0 <= j < oldl.len() && oldl[j] == x;
            assert(newl[j] == x);
        }
        assert(newl[newl.len() - 1] == pos);
        assert(newl.contains(pos));
        assert forall|j: int| 0 <= j < oldl.len() implies oldl[j] != pos by {
            assert(mid[oldl[j] as int].spec_is_eatable());
        }
        assert forall|a: int, b: int|
            0 <= a < newl.len() && 0 <= b < newl.len() && a != b implies newl[a] != newl[b] by {
            if a < oldl.len() && b < oldl.len() {
                assert(oldl[a] != oldl[b]);
            } else if a == oldl.len() as int {
                assert(newl[a] == pos && newl[b] == oldl[b]);
            } else {
                assert(newl[b] == pos && newl[a] == oldl[a]);
            }
        }
        assert forall|j: int|
            0 <= j < newl.len() implies (#[trigger] newl[j]) < post.len() && post[newl[j] as int].spec_is_eatable() by {
            if j < oldl.len() {
                assert(newl[j] == oldl[j]);
                assert(oldl[j] != pos);
                assert(post[oldl[j] as int] == mid[oldl[j] as int]);
            } else {
                assert(newl[j] == pos);
            }
        }
        assert forall|k: int|
            0 <= k < pre.len() implies Self::cell_refreshed(
            pre[k],
            #[trigger] post[k],
            wasl.contains(k as usize),
            newl.contains(k as usize),
        ) by {
            assert(Self::cell_refreshed(
                pre[k],
                mid[k],
                wasl.contains(k as usize),
                oldl.contains(k as usize),
            ));
            assert(oldl.contains(k as usize) ==> newl.contains(k as usize));
            if k == pos as int {
                assert(newl.contains(pos));
            } else {
                assert(post[k] == mid[k]);
            }
        }
    }

    /// The board invariant survives any change that leaves every head/body
    /// cell alone and turns no other cell into a head or body cell.
    proof fn lemma_board_same_snake(pre: Game, post: Game)
        requires
            pre.wf_board(),
            pre.wf_dims(),
            pre.wf_snake(),
            post.segments@ == pre.segments@,
            post.snake.head == pre.snake.head,
            post.snake.tail == pre.snake.tail,
            post.snake.length == pre.snake.length,
            post.snake.directions@ == pre.snake.directions@,
            post.size == pre.size,
            post.cells@.len() == pre.cells@.len(),
            forall|k: int|
                0 <= k < pre.cells@.len() ==> Self::cell_change_ok(
                    pre.cells@[k],
                    #[trigger] post.cells@[k],
                ),
        ensures
            post.wf_board(),
    {
        let ss = pre.segments@;
        assert forall|i: int| 1 <= i < ss.len() implies post.cells@[pos_idx(
            post.side(),
            #[trigger] ss[i],
        )].spec_is_body() by {
            lemma_pos_idx_bounds(pre.side(), ss[i]);
            assert(pre.cells@[pos_idx(pre.side(), ss[i])].spec_is_body());
            assert(Self::cell_change_ok(
                pre.cells@[pos_idx(pre.side(), ss[i])],
                post.cells@[pos_idx(pre.side(), ss[i])],
            ));
        }
        lemma_pos_idx_bounds(pre.side(), ss[0]);
        assert(pre.cells@[pos_idx(pre.side(), ss[0])].spec_is_head());
        assert(Self::cell_change_ok(
            pre.cells@[pos_idx(pre.side(), ss[0])],
            post.cells@[pos_idx(pre.side(), ss[0])],
        ));
        assert(post.cells@[pos_idx(post.side(), ss[0])].spec_is_head());
        assert forall|k: int|
            0 <= k < post.cells@.len() && (#[trigger] post.cells@[k]).spec_is_snake()
                implies exists|i: int|
                0 <= i < ss.len() && pos_idx(post.side(), #[trigger] ss[i]) == k by {
            assert(Self::cell_change_ok(pre.cells@[k], post.cells@[k]));
            assert(pre.cells@[k].spec_is_snake());
        }
    }

    /// Is a movement step due at `ts`? Speed divides the base period.
    pub open spec fn move_due(g: Game, ts: i64) -> bool {
        ts - g.refreshes.last_move > (BASE_PERIOD_MS as int) / (g.snake.speed as int)
    }

    /// The delta the head is about to move by: the front of the queue.
    pub open spec fn spec_head_dir(g: Game) -> (i32, i32) {
        g.snake.directions@[0]
    }

    /// Where the head lands this step.
    pub open spec fn spec_next_head(g: Game) -> (int, int) {
        pos_step(pos_of(g.snake.head), Self::spec_head_dir(g))
    }

    /// The direction that replaces the front of the queue: the raw input
    /// after dizziness inversion and reversal rejection.
    pub open spec fn spec_next_dir(g: Game) -> (i32, i32) {
        spec_fix_reversal(
            spec_steer(Self::spec_head_dir(g), g.input_directions, g.snake.dizziness_buff),
            Self::spec_head_dir(g),
        )
    }

    /// The snake's streak counters, buffs and speed right after consuming
    /// `t`: exclusive streaks, hunger-buff clearing at a streak of 4, speed
    /// doubling at a streak of 6, snack normalisation at 3.
    pub open spec fn spec_eat_snake(s: Snake, t: Cell) -> Snake {
        let s1 = if t.spec_is_snack() {
            Snake { snacks: inc_u32(s.snacks), goods: 0, drugs: 0, ..s }
        } else if t.spec_is_drug() {
            Snake { drugs: inc_u8(s.drugs), goods: 0, snacks: 0, ..s }
        } else {
            Snake {
                goods: (s.goods + 1) as u32,
                hunger_cnt: inc_u8(s.hunger_cnt),
                snacks: 0,
                drugs: 0,
                ..s
            }
        };
        let s2 = if s1.goods >= 4 {
            Snake { hungry_buff: false, ..s1 }
        } else {
            s1
        };
        let s3 = if s1.goods >= 6 {
            Snake { speed: speed_x2(s1.speed), goods: 0, ..s2 }
        } else {
            s2
        };
        if s1.snacks >= 3 {
            Snake { speed: BASE_SPEED, ..s3 }
        } else {
            s3
        }
    }

    /// Growth case a: a staple, fruit or drink eaten with no hunger buff.
    pub open spec fn spec_grow_a(s: Snake, t: Cell) -> bool {
        let s4 = Self::spec_eat_snake(s, t);
        !t.spec_is_drug() && !s4.hungry_buff && s4.snacks == 0
    }

    /// Growth case b: an odd-numbered snack of a streak, no hunger buff.
    pub open spec fn spec_grow_b(s: Snake, t: Cell) -> bool {
        let s4 = Self::spec_eat_snake(s, t);
        !t.spec_is_drug() && !s4.hungry_buff && s4.snacks % 2 == 1
    }

    /// Growth case c: enough good items eaten while the hunger buff is
    /// active. Without the buff this path never fires: an even-numbered
    /// snack with a leftover good-item count still gives no growth.
    pub open spec fn spec_grow_c(s: Snake, t: Cell) -> bool {
        let s4 = Self::spec_eat_snake(s, t);
        !t.spec_is_drug() && !Self::spec_grow_a(s, t) && !Self::spec_grow_b(s, t)
            && s4.hungry_buff && s4.hunger_cnt >= 2
    }

    /// Does eating `t` grow the snake by one segment this tick?
    pub open spec fn spec_grows(s: Snake, t: Cell) -> bool {
        s.length < u32::MAX && (Self::spec_grow_a(s, t) || Self::spec_grow_b(s, t)
            || Self::spec_grow_c(s, t))
    }

    /// Everything the movement stage guarantees. The only freedom left to
    /// randomness is which body variant the vacated head cell receives.
    pub open spec fn move_rel(pre: Game, post: Game, ts: i64, r: bool) -> bool {
        if !Self::move_due(pre, ts) {
            post == pre && r
        } else {
            let nh = Self::spec_next_head(pre);
            let nd = Self::spec_next_dir(pre);
            let cur = pos_idx(pre.side(), pos_of(pre.snake.head));
            if !pos_in_range(pre.side(), nh) {
                if ts - pre.refreshes.last_knock_wall < KNOCK_GRACE_MS {
                    // second bump within the grace period: fatal
                    &&& !r
                    &&& post == (Game {
                        refreshes: (Refreshes { last_move: ts, ..pre.refreshes }),
                        ..pre
                    })
                } else {
                    // wall bump: slow down unless already dizzy, set the
                    // buff, replace the offending front direction, stay put
                    &&& r
                    &&& post.snake == (Snake {
                        speed: (if !pre.snake.dizziness_buff {
                            speed_third(pre.snake.speed)
                        } else {
                            pre.snake.speed
                        }),
                        dizziness_buff: true,
                        directions: post.snake.directions,
                        ..pre.snake
                    })
                    &&& post.snake.directions@ == pre.snake.directions@.update(0, nd)
                    &&& post.refreshes == (Refreshes {
                        last_knock_wall: ts,
                        last_move: ts,
                        ..pre.refreshes
                    })
                    &&& post.cells@ == pre.cells@.update(cur, Cell::HeadObserver)
                    &&& post.size == pre.size
                    &&& post.status == pre.status
                    &&& post.input_directions == pre.input_directions
                }
            } else {
                let nhi = pos_idx(pre.side(), nh);
                let target_body = nhi == cur || pre.cells@[nhi].spec_is_body();
                let t = pre.cells@[nhi];
                let s4 = if t.spec_is_eatable() {
                    Self::spec_eat_snake(pre.snake, t)
                } else {
                    pre.snake
                };
                if target_body {
                    // self-collision: fatal, the head having already moved
                    &&& !r
                    &&& post.snake == (Snake {
                        head: pos_to_i32(nh),
                        directions: post.snake.directions,
                        ..pre.snake
                    })
                    &&& post.snake.directions@ == seq![nd] + pre.snake.directions@
                    &&& post.refreshes == (Refreshes { last_move: ts, ..pre.refreshes })
                    &&& post.cells@ == pre.cells@.update(cur, post.cells@[cur])
                    &&& post.cells@[cur].spec_is_body()
                    &&& post.size == pre.size
                    &&& post.status == pre.status
                    &&& post.input_directions == pre.input_directions
                } else if t.spec_is_eatable() && s4.drugs >= 2 {
                    // second drug in a row: fatal
                    &&& !r
                    &&& post.snake == (Snake {
                        head: pos_to_i32(nh),
                        directions: post.snake.directions,
                        ..s4
                    })
                    &&& post.snake.directions@ == seq![nd] + pre.snake.directions@
                    &&& post.refreshes == (Refreshes { last_move: ts, ..pre.refreshes })
                    &&& post.cells@ == pre.cells@.update(cur, post.cells@[cur])
                    &&& post.cells@[cur].spec_is_body()
                    &&& post.size == pre.size
                    &&& post.status == pre.status
                    &&& post.input_directions == pre.input_directions
                } else {
                    // the snake moves, possibly eats, possibly grows
                    let s5 = if t.spec_is_eatable() && t.spec_is_drug() {
                        Snake {
                            speed: (if s4.dizziness_buff {
                                speed_x3(s4.speed)
                            } else {
                                s4.speed
                            }),
                            dizziness_buff: false,
                            hungry_buff: false,
                            snacks: 0,
                            ..s4
                        }
                    } else {
                        s4
                    };
                    let grow = t.spec_is_eatable() && Self::spec_grows(pre.snake, t);
                    let s6 = if grow && Self::spec_grow_c(pre.snake, t) {
                        Snake { hunger_cnt: 0, ..s5 }
                    } else {
                        s5
                    };
                    let headcell = if grow && Self::spec_grow_a(pre.snake, t)
                        && t.spec_is_fruit() {
                        Cell::HeadDropper
                    } else {
                        Cell::HeadDispenser
                    };
                    let tail_i = pos_idx(pre.side(), pos_of(pre.snake.tail));
                    &&& r
                    &&& post.snake == (Snake {
                        head: pos_to_i32(nh),
                        directions: post.snake.directions,
                        tail: post.snake.tail,
                        length: post.snake.length,
                        ..s6
                    })
                    &&& post.snake.length == (if grow {
                        (pre.snake.length + 1) as u32
                    } else {
                        pre.snake.length
                    })
                    &&& post.snake.directions@ == (if grow {
                        seq![nd] + pre.snake.directions@
                    } else {
                        (seq![nd] + pre.snake.directions@).drop_last()
                    })
                    &&& post.snake.tail == (if grow {
                        pre.snake.tail
                    } else {
                        pos_to_i32(
                            pos_step(
                                pos_of(pre.snake.tail),
                                pre.snake.directions@[pre.snake.directions@.len() - 1],
                            ),
                        )
                    })
                    &&& post.refreshes == (Refreshes {
                        last_move: ts,
                        last_feed: (if t.spec_is_eatable() && !t.spec_is_drug() {
                            ts
                        } else {
                            pre.refreshes.last_feed
                        }),
                        ..pre.refreshes
                    })
                    &&& post.cells@ == (if grow {
                        pre.cells@.update(cur, post.cells@[cur]).update(nhi, headcell)
                    } else {
                        pre.cells@.update(cur, post.cells@[cur]).update(nhi, headcell).update(
                            tail_i,
                            Cell::Blank,
                        )
                    })
                    &&& post.cells@[cur].spec_is_body()
                    &&& post.size == pre.size
                    &&& post.status == pre.status
                    &&& post.input_directions == pre.input_directions
                }
            }
        }
    }

    /// The board invariant survives one head advance: the old head cell
    /// turned into a body cell, the landing cell into a head cell, and,
    /// unless the snake grew, the old tail cell blanked.
    proof fn lemma_board_advance(pre: Game, post: Game, nh: (int, int), grow: bool)
        requires
            pre.wf_dims(),
            pre.wf_snake(),
            pre.wf_board(),
            pos_in_range(pre.side(), nh),
            nh == pos_step(pos_of(pre.snake.head), pre.snake.directions@[0]),
            nh != pos_of(pre.snake.head),
            !pre.cells@[pos_idx(pre.side(), nh)].spec_is_body(),
            post.size == pre.size,
            post.segments@ == (if grow {
                seq![nh] + pre.segments@
            } else {
                (seq![nh] + pre.segments@).drop_last()
            }),
            post.snake.length == (if grow {
                pre.snake.length + 1
            } else {
                pre.snake.length as int
            }),
            post.snake.directions@.len() == post.snake.length,
            forall|i: int|
                1 <= i < post.snake.directions@.len() ==> #[trigger] post.snake.directions@[i]
                    == pre.snake.directions@[i - 1],
            post.snake.head == pos_to_i32(nh),
            post.snake.tail == (if grow {
                pre.snake.tail
            } else {
                pos_to_i32(
                    pos_step(
                        pos_of(pre.snake.tail),
                        pre.snake.directions@[pre.snake.directions@.len() - 1],
                    ),
                )
            }),
            post.cells@.len() == pre.cells@.len(),
            post.cells@[pos_idx(pre.side(), pos_of(pre.snake.head))].spec_is_body(),
            post.cells@[pos_idx(pre.side(), nh)].spec_is_head(),
            !grow ==> post.cells@[pos_idx(pre.side(), pos_of(pre.snake.tail))] == Cell::Blank,
            forall|k: int|
                0 <= k < pre.cells@.len() && k != pos_idx(pre.side(), pos_of(pre.snake.head)) && k
                    != pos_idx(pre.side(), nh) && (grow || k != pos_idx(
                    pre.side(),
                    pos_of(pre.snake.tail),
                )) ==> #[trigger] post.cells@[k] == pre.cells@[k],
        ensures
            post.wf_board(),
    {
        let side = pre.side();
        let ss = pre.segments@;
        let n = ss.len() as int;
        let ss2 = post.segments@;
        let n2 = ss2.len() as int;
        let hi = pos_idx(side, pos_of(pre.snake.head));
        let nhi = pos_idx(side, nh);
        let ti = pos_idx(side, pos_of(pre.snake.tail));

        assert(ss[0] == pos_of(pre.snake.head));
        assert(ss[n - 1] == pos_of(pre.snake.tail));

        // the landing position is not on the snake
        assert forall|i: int| 0 <= i < n implies #[trigger] ss[i] != nh by {
            if ss[i] == nh {
                if i == 0 {
                    assert(nh == pos_of(pre.snake.head));
                } else {
                    assert(pre.cells@[pos_idx(side, ss[i])].spec_is_body());
                }
            }
        }

        assert(ss2[0] == nh);
        assert forall|i: int| 1 <= i < n2 implies #[trigger] ss2[i] == ss[i - 1] by {}

        // endpoints
        assert(pos_of(post.snake.head) == nh);
        if grow {
            assert(ss2[n2 - 1] == ss[n - 1]);
        } else {
            assert(ss2[n2 - 1] == ss[n - 2]);
            assert(ss[n - 2] == pos_step(ss[n - 1], pre.snake.directions@[n - 1]));
            assert(pos_in_range(side, ss[n - 2]));
            assert(pos_of(post.snake.tail) == ss[n - 2]);
        }

        // ranges and the queue relation
        assert forall|i: int| 0 <= i < n2 implies pos_in_range(side, #[trigger] ss2[i]) by {
            if i > 0 {
                assert(pos_in_range(side, ss[i - 1]));
            }
        }
        assert forall|i: int|
            1 <= i < n2 implies ss2[i - 1] == pos_step(
            #[trigger] ss2[i],
            post.snake.directions@[i],
        ) by {
            if i == 1 {
                assert(ss2[1] == ss[0]);
                assert(post.snake.directions@[1] == pre.snake.directions@[0]);
            } else {
                assert(ss2[i] == ss[i - 1]);
                assert(ss2[i - 1] == ss[i - 2]);
                assert(post.snake.directions@[i] == pre.snake.directions@[i - 1]);
                assert(ss[i - 2] == pos_step(ss[i - 1], pre.snake.directions@[i - 1]));
            }
        }

        // distinctness
        assert forall|i: int, j: int| 0 <= i < j < n2 implies #[trigger] ss2[i] != #[trigger] ss2[j]
        by {
            if i == 0 {
                assert(ss2[j] == ss[j - 1]);
                assert(ss[j - 1] != nh);
            } else {
                assert(ss2[i] == ss[i - 1]);
                assert(ss2[j] == ss[j - 1]);
            }
        }

        // cell classification along the new segment list
        assert(post.cells@[pos_idx(side, ss2[0])].spec_is_head());
        assert forall|i: int| 1 <= i < n2 implies post.cells@[pos_idx(
            side,
            #[trigger] ss2[i],
        )].spec_is_body() by {
            assert(ss2[i] == ss[i - 1]);
            if i == 1 {
                assert(ss2[1] == ss[0]);
                assert(post.cells@[hi].spec_is_body());
            } else {
                let k = pos_idx(side, ss[i - 1]);
                lemma_pos_idx_bounds(side, ss[i - 1]);
                if k == hi {
                    lemma_pos_idx_inj(side, ss[i - 1], ss[0]);
                }
                if k == nhi {
                    lemma_pos_idx_inj(side, ss[i - 1], nh);
                }
                if !grow && k == ti {
                    lemma_pos_idx_inj(side, ss[i - 1], ss[n - 1]);
                    assert(i - 1 < n - 1);
                }
                assert(post.cells@[k] == pre.cells@[k]);
                assert(pre.cells@[k].spec_is_body());
            }
        }

        // every head/body cell of the new board is on the new segment list
        assert forall|k: int|
            0 <= k < post.cells@.len() && (#[trigger] post.cells@[k]).spec_is_snake()
                implies exists|i: int|
                0 <= i < n2 && pos_idx(side, #[trigger] ss2[i]) == k by {
            lemma_pos_idx_bounds(side, nh);
            lemma_pos_idx_bounds(side, ss[0]);
            if k == nhi {
                assert(pos_idx(side, ss2[0]) == k);
            } else if k == hi {
                assert(ss2[1] == ss[0]);
                assert(pos_idx(side, ss2[1]) == k);
            } else if !grow && k == ti {
                assert(post.cells@[k] == Cell::Blank);
                assert(false);
            } else {
                assert(post.cells@[k] == pre.cells@[k]);
                assert(pre.cells@[k].spec_is_snake());
                let i = choose|i: int|
                    0 <= i < n && pos_idx(pre.side(), #[trigger] ss[i]) == k;
                if i == 0 {
                    assert(k == hi);
                    assert(false);
                }
                if !grow && i == n - 1 {
                    assert(k == ti);
                    assert(false);
                }
                assert(ss2[i + 1] == ss[i]);
                assert(pos_idx(side, ss2[i + 1]) == k);
            }
        }
    }

    /// Apply a wall bump at `ts`: either the fatal double bump within the
    /// grace window, or the recovery (slowdown with a floor of 1, dizziness
    /// buff, corrected front direction, unhappy head, no movement).
    #[verifier::spinoff_prover]
    fn wall_bump(&mut self, ts: i64, next_direction: (i32, i32), Ghost(pre): Ghost<Game>) -> (r:
        bool)
        requires
            pre.inv(),
            Self::ts_ok(ts),
            Self::move_due(pre, ts),
            next_direction == Self::spec_next_dir(pre),
            !pos_in_range(pre.side(), Self::spec_next_head(pre)),
            *old(self) == (Game { refreshes: (Refreshes { last_move: ts, ..pre.refreshes }), ..pre }),
        ensures
            r ==> final(self).inv(),
            Self::move_rel(pre, *final(self), ts, r),
    {
        if ts - self.refreshes.last_knock_wall < KNOCK_GRACE_MS {
            // two wall bumps within the grace period
            return false;
        }
        if !self.snake.dizziness_buff {
            // slow down, with an explicit floor so speed never hits 0
            let s = self.snake.speed;
            self.snake.speed = if s >= 3 {
                s / 3
            } else {
                1
            };
        }
        self.snake.dizziness_buff = true;
        self.refreshes.last_knock_wall = ts;
        proof {
            assert(pre.segments@[0] == pos_of(pre.snake.head));
            assert(pos_in_range(pre.side(), pre.segments@[0]));
        }
        let head = self.snake.head;
        let current = get_index(self.size, head.0 as usize, head.1 as usize);
        self.cells[current] = Cell::HeadObserver;
        // the direction that caused the bump must not reach the body:
        // replace it with the corrected candidate
        self.snake.directions.pop_front();
        self.snake.directions.push_front(next_direction);
        proof {
            assert(self.snake.directions@ =~= pre.snake.directions@.update(0, next_direction));
            let post = *self;
            let ss = pre.segments@;
            assert(post.segments@ == ss);
            assert forall|i: int| 1 <= i < ss.len() implies post.cells@[pos_idx(
                post.side(),
                #[trigger] ss[i],
            )].spec_is_body() by {
                lemma_pos_idx_bounds(pre.side(), ss[i]);
                assert(pre.cells@[pos_idx(pre.side(), ss[i])].spec_is_body());
                if pos_idx(pre.side(), ss[i]) == current as int {
                    lemma_pos_idx_inj(pre.side(), ss[i], ss[0]);
                }
            }
            assert(post.cells@[pos_idx(post.side(), ss[0])].spec_is_head());
            assert forall|k: int|
                0 <= k < post.cells@.len() && (#[trigger] post.cells@[k]).spec_is_snake()
                    implies exists|i: int|
                    0 <= i < ss.len() && pos_idx(post.side(), #[trigger] ss[i]) == k by {
                if k == current as int {
                    assert(pos_idx(post.side(), ss[0]) == k);
                } else {
                    assert(pre.cells@[k].spec_is_snake());
                }
            }
            assert(post.wf_board());
        }
        true
    }

    /// Move the head into its (in-range) landing cell and settle the
    /// consequences: self-collision, consumption, growth or retraction.
    #[verifier::rlimit(100)]
    #[verifier::spinoff_prover]
    fn advance_head(&mut self, ts: i64, next_direction: (i32, i32), Ghost(pre): Ghost<Game>) -> (r:
        bool)
        requires
            pre.inv(),
            Self::ts_ok(ts),
            Self::move_due(pre, ts),
            next_direction == Self::spec_next_dir(pre),
            pos_in_range(pre.side(), Self::spec_next_head(pre)),
            *old(self) == (Game { refreshes: (Refreshes { last_move: ts, ..pre.refreshes }), ..pre }),
        ensures
            r ==> final(self).inv(),
            Self::move_rel(pre, *final(self), ts, r),
    {
        proof {
            assert(pre.segments@[0] == pos_of(pre.snake.head));
            assert(pos_in_range(pre.side(), pre.segments@[0]));
        }
        let head = self.snake.head;
        let head_direction: (i32, i32) = self.snake.directions[0];
        let nh_r: i64 = head.0 as i64 + head_direction.0 as i64;
        let nh_c: i64 = head.1 as i64 + head_direction.1 as i64;
        let ghost nh = Self::spec_next_head(pre);
        let current = get_index(self.size, head.0 as usize, head.1 as usize);
        let next = get_index(self.size, nh_r as usize, nh_c as usize);
        self.snake.directions.push_front(next_direction);
        self.snake.head = (nh_r as i32, nh_c as i32);
        let mut body_cell = self.cells[current];
        body_cell.body();
        self.cells[current] = body_cell;

        if self.cells[next].is_body() {
            // ate its own body
            proof {
                if next != current {
                    assert(pre.cells@[next as int].spec_is_body());
                }
            }
            return false;
        }
        proof {
            if next == current {
                assert(self.cells@[next as int].spec_is_body());
                assert(false);
            }
            if nh == pos_of(pre.snake.head) {
                assert(next == current);
                assert(false);
            }
            assert(!pre.cells@[next as int].spec_is_body());
        }

        proof {
            assert(self.snake == (Snake {
                head: pos_to_i32(nh),
                directions: self.snake.directions,
                ..pre.snake
            }));
            assert(self.cells@ == pre.cells@.update(current as int, self.cells@[current as int]));
        }
        self.settle_move(ts, next_direction, current, next, Ghost(pre))
    }

    /// Settle the consequences of a completed head advance: consumption,
    /// growth or tail retraction, and the board invariant.
    #[verifier::rlimit(100)]
    #[verifier::spinoff_prover]
    fn settle_move(
        &mut self,
        ts: i64,
        next_direction: (i32, i32),
        current: usize,
        next: usize,
        Ghost(pre): Ghost<Game>,
    ) -> (r: bool)
        requires
            pre.inv(),
            Self::ts_ok(ts),
            Self::move_due(pre, ts),
            next_direction == Self::spec_next_dir(pre),
            pos_in_range(pre.side(), Self::spec_next_head(pre)),
            Self::spec_next_head(pre) != pos_of(pre.snake.head),
            current == pos_idx(pre.side(), pos_of(pre.snake.head)),
            next == pos_idx(pre.side(), Self::spec_next_head(pre)),
            !pre.cells@[next as int].spec_is_body(),
            old(self).size == pre.size,
            old(self).status == pre.status,
            old(self).input_directions == pre.input_directions,
            old(self).segments == pre.segments,
            old(self).snake == (Snake {
                head: pos_to_i32(Self::spec_next_head(pre)),
                directions: old(self).snake.directions,
                ..pre.snake
            }),
            old(self).snake.directions@ == seq![next_direction] + pre.snake.directions@,
            old(self).refreshes == (Refreshes { last_move: ts, ..pre.refreshes }),
            old(self).cells@ == pre.cells@.update(current as int, old(self).cells@[current as int]),
            old(self).cells@[current as int].spec_is_body(),
        ensures
            r ==> final(self).inv(),
            Self::move_rel(pre, *final(self), ts, r),
    {
        let ghost nh = Self::spec_next_head(pre);
        proof {
            lemma_pos_idx_bounds(pre.side(), nh);
            lemma_pos_idx_bounds(pre.side(), pos_of(pre.snake.head));
            if next == current {
                lemma_pos_idx_inj(pre.side(), nh, pos_of(pre.snake.head));
            }
        }
        let target = self.cells[next];
        if target.is_eatable() {
            return self.settle_eat(ts, next_direction, current, next, Ghost(pre));
        }
        // nothing to eat: the landing cell becomes the head, the tail moves
        self.cells[next] = Cell::HeadDispenser;
        let tail = self.snake.tail;
        let tail_direction = match self.snake.directions.pop_back() {
            Some(d) => d,
            None => (0, 0),
        };
        proof {
            assert(tail_direction == pre.snake.directions@[pre.snake.directions@.len() - 1]);
            assert(pre.segments@[pre.segments@.len() - 1] == pos_of(pre.snake.tail));
            assert(pos_in_range(pre.side(), pre.segments@[pre.segments@.len() - 1]));
            let n = pre.segments@.len() as int;
            assert(pre.segments@[n - 2] == pos_step(
                pre.segments@[n - 1],
                pre.snake.directions@[n - 1],
            ));
            assert(pos_in_range(pre.side(), pre.segments@[n - 2]));
        }
        let nt_r: i64 = tail.0 as i64 + tail_direction.0 as i64;
        let nt_c: i64 = tail.1 as i64 + tail_direction.1 as i64;
        let tail_idx = get_index(self.size, tail.0 as usize, tail.1 as usize);
        self.cells[tail_idx] = Cell::Blank;
        self.snake.tail = (nt_r as i32, nt_c as i32);

        let ghost new_segments: Seq<(int, int)> = (seq![nh] + pre.segments@).drop_last();
        self.segments = Ghost(new_segments);
        proof {
            assert(self.snake.directions@ == (seq![next_direction]
                + pre.snake.directions@).drop_last());
            Self::lemma_board_advance(pre, *self, nh, false);
        }
        true
    }

    /// Settle the consumption of an eatable landing cell: streaks, speed,
    /// buffs, the growth policy, and retraction when no growth happened.
    #[verifier::rlimit(100)]
    #[verifier::spinoff_prover]
    fn settle_eat(
        &mut self,
        ts: i64,
        next_direction: (i32, i32),
        current: usize,
        next: usize,
        Ghost(pre): Ghost<Game>,
    ) -> (r: bool)
        requires
            pre.inv(),
            Self::ts_ok(ts),
            Self::move_due(pre, ts),
            next_direction == Self::spec_next_dir(pre),
            pos_in_range(pre.side(), Self::spec_next_head(pre)),
            Self::spec_next_head(pre) != pos_of(pre.snake.head),
            current == pos_idx(pre.side(), pos_of(pre.snake.head)),
            next == pos_idx(pre.side(), Self::spec_next_head(pre)),
            !pre.cells@[next as int].spec_is_body(),
            old(self).size == pre.size,
            old(self).status == pre.status,
            old(self).input_directions == pre.input_directions,
            old(self).segments == pre.segments,
            old(self).snake == (Snake {
                head: pos_to_i32(Self::spec_next_head(pre)),
                directions: old(self).snake.directions,
                ..pre.snake
            }),
            old(self).snake.directions@ == seq![next_direction] + pre.snake.directions@,
            old(self).refreshes == (Refreshes { last_move: ts, ..pre.refreshes }),
            old(self).cells@ == pre.cells@.update(current as int, old(self).cells@[current as int]),
            old(self).cells@[current as int].spec_is_body(),
            pre.cells@[next as int].spec_is_eatable(),
        ensures
            r ==> final(self).inv(),
            Self::move_rel(pre, *final(self), ts, r),
    {
        let ghost nh = Self::spec_next_head(pre);
        proof {
            lemma_pos_idx_bounds(pre.side(), nh);
            lemma_pos_idx_bounds(pre.side(), pos_of(pre.snake.head));
        }
        let target = self.cells[next];
        if target.is_drug() {
            return self.settle_drug(ts, next_direction, current, next, Ghost(pre));
        }
        self.snake.eat_counters(target);
        proof {
            assert(target == pre.cells@[next as int]);
            assert(self.snake == (Snake {
                head: pos_to_i32(nh),
                directions: self.snake.directions,
                ..Self::spec_eat_snake(pre.snake, target)
            }));
        }
        let can_grow = self.snake.length < 0xffff_ffff;
        let a_cond = !self.snake.hungry_buff && self.snake.snacks == 0;
        let b_cond = !self.snake.hungry_buff && self.snake.snacks % 2 == 1;
        let c_cond = !a_cond && !b_cond && self.snake.hungry_buff && self.snake.hunger_cnt >= 2;
        proof {
            assert(a_cond == Self::spec_grow_a(pre.snake, target));
            assert(b_cond == Self::spec_grow_b(pre.snake, target));
            assert(c_cond == Self::spec_grow_c(pre.snake, target));
            assert((can_grow && (a_cond || b_cond || c_cond)) == Self::spec_grows(
                pre.snake,
                target,
            ));
        }
        if can_grow && (a_cond || b_cond || c_cond) {
            self.finish_eat_grow(ts, next_direction, current, next, a_cond, c_cond, Ghost(pre))
        } else {
            self.finish_eat_no_grow(ts, next_direction, current, next, Ghost(pre))
        }
    }

    /// Finish an eat that grows the snake: one more segment, the feed clock
    /// recorded, the happy head on the unique fruit, no tail retraction.
    #[verifier::rlimit(100)]
    #[verifier::spinoff_prover]
    fn finish_eat_grow(
        &mut self,
        ts: i64,
        next_direction: (i32, i32),
        current: usize,
        next: usize,
        a_cond: bool,
        c_cond: bool,
        Ghost(pre): Ghost<Game>,
    ) -> (r: bool)
        requires
            pre.inv(),
            Self::ts_ok(ts),
            Self::move_due(pre, ts),
            next_direction == Self::spec_next_dir(pre),
            pos_in_range(pre.side(), Self::spec_next_head(pre)),
            Self::spec_next_head(pre) != pos_of(pre.snake.head),
            current == pos_idx(pre.side(), pos_of(pre.snake.head)),
            next == pos_idx(pre.side(), Self::spec_next_head(pre)),
            !pre.cells@[next as int].spec_is_body(),
            pre.cells@[next as int].spec_is_eatable(),
            !pre.cells@[next as int].spec_is_drug(),
            old(self).size == pre.size,
            old(self).status == pre.status,
            old(self).input_directions == pre.input_directions,
            old(self).segments == pre.segments,
            old(self).snake == (Snake {
                head: pos_to_i32(Self::spec_next_head(pre)),
                directions: old(self).snake.directions,
                ..Self::spec_eat_snake(pre.snake, pre.cells@[next as int])
            }),
            old(self).snake.directions@ == seq![next_direction] + pre.snake.directions@,
            old(self).refreshes == (Refreshes { last_move: ts, ..pre.refreshes }),
            old(self).cells@ == pre.cells@.update(current as int, old(self).cells@[current as int]),
            old(self).cells@[current as int].spec_is_body(),
            Self::spec_grows(pre.snake, pre.cells@[next as int]),
            a_cond == Self::spec_grow_a(pre.snake, pre.cells@[next as int]),
            c_cond == Self::spec_grow_c(pre.snake, pre.cells@[next as int]),
        ensures
            r ==> final(self).inv(),
            Self::move_rel(pre, *final(self), ts, r),
    {
        let ghost nh = Self::spec_next_head(pre);
        proof {
            lemma_pos_idx_bounds(pre.side(), nh);
            lemma_pos_idx_bounds(pre.side(), pos_of(pre.snake.head));
            if next == current {
                lemma_pos_idx_inj(pre.side(), nh, pos_of(pre.snake.head));
            }
        }
        let target = self.cells[next];
        self.snake.length = self.snake.length + 1;
        self.refreshes.last_feed = ts;
        if c_cond {
            self.snake.hunger_cnt = 0;
        }
        if a_cond && target.id() == 18 {
            self.cells[next] = Cell::HeadDropper;
        } else {
            self.cells[next] = Cell::HeadDispenser;
        }
        let ghost new_segments: Seq<(int, int)> = seq![nh] + pre.segments@;
        self.segments = Ghost(new_segments);
        proof {
            assert(self.snake.directions@ == seq![next_direction] + pre.snake.directions@);
            Self::lemma_board_advance(pre, *self, nh, true);
        }
        true
    }

    /// Finish an eat that does not grow the snake: the feed clock is still
    /// recorded, and the tail retracts as on any other move.
    #[verifier::rlimit(100)]
    #[verifier::spinoff_prover]
    fn finish_eat_no_grow(
        &mut self,
        ts: i64,
        next_direction: (i32, i32),
        current: usize,
        next: usize,
        Ghost(pre): Ghost<Game>,
    ) -> (r: bool)
        requires
            pre.inv(),
            Self::ts_ok(ts),
            Self::move_due(pre, ts),
            next_direction == Self::spec_next_dir(pre),
            pos_in_range(pre.side(), Self::spec_next_head(pre)),
            Self::spec_next_head(pre) != pos_of(pre.snake.head),
            current == pos_idx(pre.side(), pos_of(pre.snake.head)),
            next == pos_idx(pre.side(), Self::spec_next_head(pre)),
            !pre.cells@[next as int].spec_is_body(),
            pre.cells@[next as int].spec_is_eatable(),
            !pre.cells@[next as int].spec_is_drug(),
            old(self).size == pre.size,
            old(self).status == pre.status,
            old(self).input_directions == pre.input_directions,
            old(self).segments == pre.segments,
            old(self).snake == (Snake {
                head: pos_to_i32(Self::spec_next_head(pre)),
                directions: old(self).snake.directions,
                ..Self::spec_eat_snake(pre.snake, pre.cells@[next as int])
            }),
            old(self).snake.directions@ == seq![next_direction] + pre.snake.directions@,
            old(self).refreshes == (Refreshes { last_move: ts, ..pre.refreshes }),
            old(self).cells@ == pre.cells@.update(current as int, old(self).cells@[current as int]),
            old(self).cells@[current as int].spec_is_body(),
            !Self::spec_grows(pre.snake, pre.cells@[next as int]),
        ensures
            r ==> final(self).inv(),
            Self::move_rel(pre, *final(self), ts, r),
    {
        let ghost nh = Self::spec_next_head(pre);
        proof {
            lemma_pos_idx_bounds(pre.side(), nh);
            lemma_pos_idx_bounds(pre.side(), pos_of(pre.snake.head));
            if next == current {
                lemma_pos_idx_inj(pre.side(), nh, pos_of(pre.snake.head));
            }
        }
        self.refreshes.last_feed = ts;
        self.cells[next] = Cell::HeadDispenser;
        let tail = self.snake.tail;
        let tail_direction = match self.snake.directions.pop_back() {
            Some(d) => d,
            None => (0, 0),
        };
        proof {
            assert(tail_direction == pre.snake.directions@[pre.snake.directions@.len() - 1]);
            assert(pre.segments@[pre.segments@.len() - 1] == pos_of(pre.snake.tail));
            assert(pos_in_range(pre.side(), pre.segments@[pre.segments@.len() - 1]));
            let n = pre.segments@.len() as int;
            assert(pre.segments@[n - 2] == pos_step(
                pre.segments@[n - 1],
                pre.snake.directions@[n - 1],
            ));
            assert(pos_in_range(pre.side(), pre.segments@[n - 2]));
        }
        let nt_r: i64 = tail.0 as i64 + tail_direction.0 as i64;
        let nt_c: i64 = tail.1 as i64 + tail_direction.1 as i64;
        let tail_idx = get_index(self.size, tail.0 as usize, tail.1 as usize);
        self.cells[tail_idx] = Cell::Blank;
        self.snake.tail = (nt_r as i32, nt_c as i32);

        let ghost new_segments: Seq<(int, int)> = (seq![nh] + pre.segments@).drop_last();
        self.segments = Ghost(new_segments);
        proof {
            assert(self.snake.directions@ == (seq![next_direction]
                + pre.snake.directions@).drop_last());
            Self::lemma_board_advance(pre, *self, nh, false);
            let t = pre.cells@[next as int];
            assert(Self::move_rel(pre, *self, ts, true)) by {
                assert(self.cells@ == pre.cells@.update(
                    current as int,
                    self.cells@[current as int],
                ).update(next as int, Cell::HeadDispenser).update(
                    pos_idx(pre.side(), pos_of(pre.snake.tail)),
                    Cell::Blank,
                ));
                assert(self.snake == (Snake {
                    head: pos_to_i32(nh),
                    directions: self.snake.directions,
                    tail: self.snake.tail,
                    length: self.snake.length,
                    ..Self::spec_eat_snake(pre.snake, t)
                }));
                assert(self.refreshes == (Refreshes {
                    last_move: ts,
                    last_feed: ts,
                    ..pre.refreshes
                }));
            }
        }
        true
    }

    /// Settle the consumption of a drug cell: streak update, possible
    /// fatal second drug, buff wipe, never growth.
    #[verifier::rlimit(100)]
    #[verifier::spinoff_prover]
    fn settle_drug(
        &mut self,
        ts: i64,
        next_direction: (i32, i32),
        current: usize,
        next: usize,
        Ghost(pre): Ghost<Game>,
    ) -> (r: bool)
        requires
            pre.inv(),
            Self::ts_ok(ts),
            Self::move_due(pre, ts),
            next_direction == Self::spec_next_dir(pre),
            pos_in_range(pre.side(), Self::spec_next_head(pre)),
            Self::spec_next_head(pre) != pos_of(pre.snake.head),
            current == pos_idx(pre.side(), pos_of(pre.snake.head)),
            next == pos_idx(pre.side(), Self::spec_next_head(pre)),
            !pre.cells@[next as int].spec_is_body(),
            old(self).size == pre.size,
            old(self).status == pre.status,
            old(self).input_directions == pre.input_directions,
            old(self).segments == pre.segments,
            old(self).snake == (Snake {
                head: pos_to_i32(Self::spec_next_head(pre)),
                directions: old(self).snake.directions,
                ..pre.snake
            }),
            old(self).snake.directions@ == seq![next_direction] + pre.snake.directions@,
            old(self).refreshes == (Refreshes { last_move: ts, ..pre.refreshes }),
            old(self).cells@ == pre.cells@.update(current as int, old(self).cells@[current as int]),
            old(self).cells@[current as int].spec_is_body(),
            pre.cells@[next as int].spec_is_drug(),
        ensures
            r ==> final(self).inv(),
            Self::move_rel(pre, *final(self), ts, r),
    {
        let ghost nh = Self::spec_next_head(pre);
        proof {
            lemma_pos_idx_bounds(pre.side(), nh);
            lemma_pos_idx_bounds(pre.side(), pos_of(pre.snake.head));
        }
        let target = self.cells[next];
        self.snake.eat_counters(target);
        if self.snake.drugs >= 2 {
            // two drugs in a row are fatal
            return false;
        }
        // a drug wipes the negative buffs and the snack streak, never grows
        self.snake.drug_wipe();
        self.cells[next] = Cell::HeadDispenser;
        let tail = self.snake.tail;
        let tail_direction = match self.snake.directions.pop_back() {
            Some(d) => d,
            None => (0, 0),
        };
        proof {
            assert(tail_direction == pre.snake.directions@[pre.snake.directions@.len() - 1]);
            assert(pre.segments@[pre.segments@.len() - 1] == pos_of(pre.snake.tail));
            assert(pos_in_range(pre.side(), pre.segments@[pre.segments@.len() - 1]));
            let n = pre.segments@.len() as int;
            assert(pre.segments@[n - 2] == pos_step(
                pre.segments@[n - 1],
                pre.snake.directions@[n - 1],
            ));
            assert(pos_in_range(pre.side(), pre.segments@[n - 2]));
        }
        let nt_r: i64 = tail.0 as i64 + tail_direction.0 as i64;
        let nt_c: i64 = tail.1 as i64 + tail_direction.1 as i64;
        let tail_idx = get_index(self.size, tail.0 as usize, tail.1 as usize);
        self.cells[tail_idx] = Cell::Blank;
        self.snake.tail = (nt_r as i32, nt_c as i32);

        let ghost new_segments: Seq<(int, int)> = (seq![nh] + pre.segments@).drop_last();
        self.segments = Ghost(new_segments);
        proof {
            assert(self.snake.directions@ == (seq![next_direction]
                + pre.snake.directions@).drop_last());
            Self::lemma_board_advance(pre, *self, nh, false);
        }
        true
    }

    /// Run the movement state machine for one tick: steering, wall and
    /// self collision, consumption, growth and tail retraction. Returns
    /// false exactly on the fatal outcomes (double wall bump, body hit,
    /// second consecutive drug).
    #[verifier::spinoff_prover]
    fn try_move(&mut self, ts: i64) -> (r: bool)
        requires
            old(self).inv(),
            Self::ts_ok(ts),
        ensures
            r ==> final(self).inv(),
            Self::move_rel(*old(self), *final(self), ts, r),
    {
        let wait_ts: i64 = BASE_PERIOD_MS / (self.snake.speed as i64);
        if !(ts - self.refreshes.last_move > wait_ts) {
            return true;
        }
        let ghost pre = *self;
        self.refreshes.last_move = ts;

        let head = self.snake.head;
        let head_direction: (i32, i32) = self.snake.directions[0];
        proof {
            assert(pre.segments@[0] == pos_of(pre.snake.head));
            assert(pos_in_range(pre.side(), pre.segments@[0]));
        }
        let nh_r: i64 = head.0 as i64 + head_direction.0 as i64;
        let nh_c: i64 = head.1 as i64 + head_direction.1 as i64;

        // steering: dizziness inversion, then reversal rejection
        let input = self.input_directions;
        let mut next_direction: (i32, i32) = if self.snake.dizziness_buff && (head_direction.0
            != input.0 || head_direction.1 != input.1) {
            (neg_delta(input.0), neg_delta(input.1))
        } else {
            input
        };
        if next_direction.0 == 0 && head_direction.0 == 0 && (next_direction.1 as i64) == -(
        head_direction.1 as i64) {
            next_direction = head_direction;
        } else if next_direction.1 == 0 && head_direction.1 == 0 && (next_direction.0 as i64) == -(
        head_direction.0 as i64) {
            next_direction = head_direction;
        }
        assert(next_direction == Self::spec_next_dir(pre));

        let size_i: i64 = self.size as i64;
        if nh_r >= size_i || nh_c >= size_i || nh_r < 0 || nh_c < 0 {
            assert(!pos_in_range(pre.side(), Self::spec_next_head(pre)));
            self.wall_bump(ts, next_direction, Ghost(pre))
        } else {
            assert(pos_in_range(pre.side(), Self::spec_next_head(pre)));
            self.advance_head(ts, next_direction, Ghost(pre))
        }
    }

    /// One whole tick: buff expiry, then the food lifecycle, then the
    /// movement machine, each stage seeing the state the previous one left.
    pub open spec fn tick_rel(pre: Game, post: Game, ts: i64, r: bool) -> bool {
        if pre.status is Pause {
            post == pre && r
        } else {
            exists|mid: Game|
                {
                    &&& #[trigger] Self::refresh_rel(Self::spec_check_buff(pre, ts), mid, ts)
                    &&& if !Self::refresh_alive(Self::spec_check_buff(pre, ts), ts) {
                        post == mid && !r
                    } else {
                        Self::move_rel(mid, post, ts, r)
                    }
                }
        }
    }

    /// Advance the simulation by one tick taken at wall-clock time `ts`.
    /// A paused game is left untouched; false means the game has ended.
    pub fn tick_with_now(&mut self, ts: i64) -> (r: bool)
        requires
            old(self).inv(),
            Self::ts_ok(ts),
        ensures
            r ==> final(self).inv(),
            old(self).status is Pause ==> *final(self) == *old(self) && r,
            Self::tick_rel(*old(self), *final(self), ts, r),
    {
        if matches!(self.status, Status::Pause) {
            return true;
        }
        let ghost pre = *self;
        self.check_buff(ts);
        if !self.try_refresh_food(ts) {
            proof {
                let mid = *self;
                assert(Self::refresh_rel(Self::spec_check_buff(pre, ts), mid, ts));
            }
            return false;
        }
        let ghost mid = *self;
        let r = self.try_move(ts);
        proof {
            assert(Self::refresh_rel(Self::spec_check_buff(pre, ts), mid, ts));
            assert(Self::move_rel(mid, *self, ts, r));
        }
        r
    }

    /// Advance the simulation by one tick at the current wall-clock time.
    /// A clock reading outside the sane range is treated as a skipped tick.
    pub fn tick(&mut self) -> (r: bool)
        requires
            old(self).inv(),
        ensures
            r ==> final(self).inv(),
            old(self).status is Pause ==> *final(self) == *old(self) && r,
            (*final(self) == *old(self) && r) || exists|ts: i64|
                Self::ts_ok(ts) && #[trigger] Self::tick_rel(*old(self), *final(self), ts, r),
    {
        if matches!(self.status, Status::Pause) {
            return true;
        }
        let ts: i64 = now_millis();
        if !(ts >= 0 && ts <= TS_BOUND) {
            return true;
        }
        let r = self.tick_with_now(ts);
        proof {
            assert(Self::ts_ok(ts) && Self::tick_rel(*old(self), *self, ts, r));
        }
        r
    }

    /// Law: every live state keeps exactly one queued direction per segment
    /// and a speed of at least 1.
    pub proof fn lemma_snake_structure(g: Game)
        requires
            g.inv(),
        ensures
            g.snake.directions@.len() == g.snake.length,
            1 <= g.snake.speed,
    {
    }

    /// Law: on every live board the cells holding a head or body variant
    /// number exactly `length`, and exactly one of them is a head cell.
    pub proof fn lemma_board_accounting(g: Game)
        requires
            g.inv(),
        ensures
            ({
                let occupied = Set::new(
                    |k: int| 0 <= k < g.cells@.len() && g.cells@[k].spec_is_snake(),
                );
                occupied.finite() && occupied.len() == g.snake.length
            }),
            g.cells@[pos_idx(g.side(), g.segments@[0])].spec_is_head(),
            forall|k: int|
                0 <= k < g.cells@.len() && (#[trigger] g.cells@[k]).spec_is_head() ==> k == pos_idx(
                    g.side(),
                    g.segments@[0],
                ),
    {
        let side = g.side();
        let ss = g.segments@;
        let n = ss.len() as int;
        let occupied = Set::new(|k: int| 0 <= k < g.cells@.len() && g.cells@[k].spec_is_snake());
        let idxs = ss.map(|i: int, p: (int, int)| pos_idx(side, p));
        assert(idxs.no_duplicates()) by {
            assert forall|i: int, j: int|
                0 <= i < idxs.len() && 0 <= j < idxs.len() && i != j implies idxs[i] != idxs[j] by {
                if idxs[i] == idxs[j] {
                    lemma_pos_idx_inj(side, ss[i], ss[j]);
                }
            }
        }
        idxs.unique_seq_to_set();
        assert(occupied =~= idxs.to_set()) by {
            assert forall|k: int| occupied.contains(k) implies idxs.to_set().contains(k) by {
                assert(g.cells@[k].spec_is_snake());
                let i = choose|i: int| 0 <= i < n && pos_idx(side, #[trigger] ss[i]) == k;
                assert(idxs[i] == k);
            }
            assert forall|k: int| idxs.to_set().contains(k) implies occupied.contains(k) by {
                let i = choose|i: int| 0 <= i < idxs.len() && idxs[i] == k;
                lemma_pos_idx_bounds(side, ss[i]);
                if i == 0 {
                    assert(g.cells@[k].spec_is_head());
                } else {
                    assert(g.cells@[k].spec_is_body());
                }
            }
        }
        assert forall|k: int|
            0 <= k < g.cells@.len() && (#[trigger] g.cells@[k]).spec_is_head() implies k == pos_idx(
            side,
            ss[0],
        ) by {
            let i = choose|i: int| 0 <= i < n && pos_idx(side, #[trigger] ss[i]) == k;
            if i != 0 {
                assert(g.cells@[pos_idx(side, ss[i])].spec_is_body());
            }
        }
    }

    /// Law (reversal rejection): heading along a row as (0,1), with the
    /// raw input asking for the straight reversal (0,-1), a due move that
    /// leaves the game running keeps the heading: the front of the queue
    /// still reads (0,1), dizzy or not.
    pub proof fn lemma_reversal_rejected(pre: Game, post: Game, ts: i64, r: bool)
        requires
            pre.inv(),
            Self::move_due(pre, ts),
            Self::move_rel(pre, post, ts, r),
            r,
            Self::spec_head_dir(pre) == (0i32, 1i32),
            pre.input_directions == (0i32, -1i32),
        ensures
            Self::spec_next_dir(pre) == (0i32, 1i32),
            post.snake.directions@[0] == (0i32, 1i32),
    {
        assert(Self::spec_next_dir(pre) == (0i32, 1i32));
        if !pos_in_range(pre.side(), Self::spec_next_head(pre)) {
            assert(post.snake.directions@[0] == (0i32, 1i32));
        } else {
            assert(post.snake.directions@[0] == (0i32, 1i32));
        }
    }

    /// Law (dizziness inversion): with the dizziness buff set, heading
    /// (0,1) and a turning input (1,0), a due move that leaves the game
    /// running applies the inverted turn: the front of the queue reads
    /// (-1,0).
    pub proof fn lemma_dizziness_inversion(pre: Game, post: Game, ts: i64, r: bool)
        requires
            pre.inv(),
            Self::move_due(pre, ts),
            Self::move_rel(pre, post, ts, r),
            r,
            pre.snake.dizziness_buff,
            Self::spec_head_dir(pre) == (0i32, 1i32),
            pre.input_directions == (1i32, 0i32),
        ensures
            Self::spec_next_dir(pre) == (-1i32, 0i32),
            post.snake.directions@[0] == (-1i32, 0i32),
    {
        assert(Self::spec_next_dir(pre) == (-1i32, 0i32));
        if !pos_in_range(pre.side(), Self::spec_next_head(pre)) {
            assert(post.snake.directions@[0] == (-1i32, 0i32));
        } else {
            assert(post.snake.directions@[0] == (-1i32, 0i32));
        }
    }

    /// Law (wall bump, first collision): a due move into the wall outside
    /// the grace window leaves the game running, sets the dizziness buff,
    /// divides the speed by 3 (floored at 1) unless the buff was already
    /// set, records the bump, repairs the front direction, and moves
    /// nothing: only the head cell turns unhappy.
    pub proof fn lemma_wall_bump_recovery(pre: Game, post: Game, ts: i64, r: bool)
        requires
            pre.inv(),
            Self::move_due(pre, ts),
            !pos_in_range(pre.side(), Self::spec_next_head(pre)),
            ts - pre.refreshes.last_knock_wall >= KNOCK_GRACE_MS,
            Self::move_rel(pre, post, ts, r),
        ensures
            r,
            post.snake.dizziness_buff,
            post.snake.speed == (if !pre.snake.dizziness_buff {
                speed_third(pre.snake.speed)
            } else {
                pre.snake.speed
            }),
            1 <= post.snake.speed,
            post.refreshes.last_knock_wall == ts,
            post.snake.head == pre.snake.head,
            post.snake.tail == pre.snake.tail,
            post.snake.length == pre.snake.length,
            post.snake.directions@.len() == pre.snake.directions@.len(),
            post.snake.directions@[0] == Self::spec_next_dir(pre),
            post.cells@ == pre.cells@.update(
                pos_idx(pre.side(), pos_of(pre.snake.head)),
                Cell::HeadObserver,
            ),
    {
    }

    /// Law (wall bump, second collision): a due move into the wall inside
    /// the grace window ends the game, and none of the first-bump recovery
    /// is applied: only the move clock advanced.
    pub proof fn lemma_wall_bump_double_fatal(pre: Game, post: Game, ts: i64, r: bool)
        requires
            pre.inv(),
            Self::move_due(pre, ts),
            !pos_in_range(pre.side(), Self::spec_next_head(pre)),
            ts - pre.refreshes.last_knock_wall < KNOCK_GRACE_MS,
            Self::move_rel(pre, post, ts, r),
        ensures
            !r,
            post == (Game { refreshes: (Refreshes { last_move: ts, ..pre.refreshes }), ..pre }),
    {
    }

    /// Law (drug streak): a due move onto a drug cell, with one drug
    /// already the last thing eaten, ends the game.
    pub proof fn lemma_drug_streak_fatal(pre: Game, post: Game, ts: i64, r: bool)
        requires
            pre.inv(),
            Self::move_due(pre, ts),
            pos_in_range(pre.side(), Self::spec_next_head(pre)),
            pre.cells@[pos_idx(pre.side(), Self::spec_next_head(pre))].spec_is_drug(),
            pre.snake.drugs == 1,
            Self::move_rel(pre, post, ts, r),
        ensures
            !r,
    {
        let nhi = pos_idx(pre.side(), Self::spec_next_head(pre));
        let cur = pos_idx(pre.side(), pos_of(pre.snake.head));
        if nhi == cur {
            assert(pre.cells@[pos_idx(pre.side(), pre.segments@[0])].spec_is_head());
        }
        assert(Self::spec_eat_snake(pre.snake, pre.cells@[nhi]).drugs == 2);
    }

    /// Law (growth accounting): a due move onto a staple, fruit or drink
    /// with the hunger buff clear grows the snake by exactly one segment:
    /// length and queue up by one, the tail untouched and its cell not
    /// blanked, the feed clock at `ts`, and the new head happy exactly on
    /// the unique fruit.
    pub proof fn lemma_growth_accounting(pre: Game, post: Game, ts: i64, r: bool)
        requires
            pre.inv(),
            Self::move_due(pre, ts),
            pos_in_range(pre.side(), Self::spec_next_head(pre)),
            pre.cells@[pos_idx(pre.side(), Self::spec_next_head(pre))].spec_is_eatable(),
            !pre.cells@[pos_idx(pre.side(), Self::spec_next_head(pre))].spec_is_snack(),
            !pre.cells@[pos_idx(pre.side(), Self::spec_next_head(pre))].spec_is_drug(),
            !pre.snake.hungry_buff,
            pre.snake.length < u32::MAX,
            Self::move_rel(pre, post, ts, r),
        ensures
            r,
            post.snake.length == pre.snake.length + 1,
            post.snake.directions@.len() == pre.snake.directions@.len() + 1,
            post.snake.tail == pre.snake.tail,
            post.refreshes.last_feed == ts,
            post.cells@[pos_idx(pre.side(), pos_of(pre.snake.tail))].spec_is_body(),
            post.cells@[pos_idx(pre.side(), Self::spec_next_head(pre))] == (if pre.cells@[pos_idx(
                pre.side(),
                Self::spec_next_head(pre),
            )].spec_is_fruit() {
                Cell::HeadDropper
            } else {
                Cell::HeadDispenser
            }),
    {
        let nhi = pos_idx(pre.side(), Self::spec_next_head(pre));
        let cur = pos_idx(pre.side(), pos_of(pre.snake.head));
        let ti = pos_idx(pre.side(), pos_of(pre.snake.tail));
        let t = pre.cells@[nhi];
        if nhi == cur {
            assert(pre.cells@[pos_idx(pre.side(), pre.segments@[0])].spec_is_head());
        }
        assert(Self::spec_grow_a(pre.snake, t));
        assert(Self::spec_grows(pre.snake, t));
        let n = pre.segments@.len() as int;
        assert(pre.segments@[n - 1] == pos_of(pre.snake.tail));
        assert(pre.cells@[pos_idx(pre.side(), pre.segments@[n - 1])].spec_is_body());
        lemma_pos_idx_bounds(pre.side(), Self::spec_next_head(pre));
        lemma_pos_idx_bounds(pre.side(), pre.segments@[0]);
        lemma_pos_idx_bounds(pre.side(), pre.segments@[n - 1]);
        if ti == cur {
            lemma_pos_idx_inj(pre.side(), pre.segments@[n - 1], pre.segments@[0]);
        }
        assert(ti != cur);
        assert(ti != nhi);
        assert(post.cells@ == pre.cells@.update(cur, post.cells@[cur]).update(
            nhi,
            (if Self::spec_grow_a(pre.snake, t) && t.spec_is_fruit() {
                Cell::HeadDropper
            } else {
                Cell::HeadDispenser
            }),
        ));
        assert(post.cells@[ti] == pre.cells@[ti]);
    }

    /// Law (food batch bounds): a due refresh leaves 3 to 5 tracked food
    /// positions — fewer than 3 only on a board with no blank cell left —
    /// all distinct, in range, and holding eatable cells.
    pub proof fn lemma_food_batch_bounds(pre: Game, post: Game, ts: i64)
        requires
            pre.inv(),
            Self::refresh_due(pre, ts),
            Self::refresh_rel(pre, post, ts),
        ensures
            post.refreshes.last_eatable_pos@.len() <= 5,
            post.refreshes.last_eatable_pos@.len() >= 3 || (forall|k: int|
                0 <= k < post.cells@.len() ==> (#[trigger] post.cells@[k]) != Cell::Blank),
            forall|i: int|
                0 <= i < post.refreshes.last_eatable_pos@.len() ==> (
                #[trigger] post.refreshes.last_eatable_pos@[i]) < post.cells@.len()
                    && post.cells@[post.refreshes.last_eatable_pos@[i] as int].spec_is_eatable(),
            post.refreshes.last_eatable_pos@.no_duplicates(),
    {
    }

    /// Build a fresh paused game: a blank `size` x `size` board with a
    /// two-segment snake near the left edge facing +col. The feed and move
    /// clocks start at `now`; the food-refresh and wall-knock clocks start
    /// at zero, so with a real wall clock the first food batch is due on
    /// the first running tick, and a wall bump right after construction
    /// gets the normal recovery instead of counting as a second bump.
    pub fn new_with_size_at(size: usize, now: i64) -> (g: Game)
        requires
            3 <= size,
            size * size <= usize::MAX,
            size <= 0x7fff_ffff,
            Self::ts_ok(now),
        ensures
            g.inv(),
            g.size == size,
            g.status is Pause,
            g.input_directions == (0i32, 1i32),
            g.snake.head == ((size / 4) as i32, 2i32),
            g.snake.tail == ((size / 4) as i32, 1i32),
            g.snake.directions@ == seq![(0i32, 1i32), (0i32, 1i32)],
            g.snake.goods == 0 && g.snake.snacks == 0 && g.snake.drugs == 0,
            g.snake.hunger == 0 && g.snake.hunger_cnt == 0,
            g.snake.speed == BASE_SPEED,
            !g.snake.hungry_buff && !g.snake.dizziness_buff,
            g.snake.length == 2,
            g.refreshes.last_eatable_refresh == 0,
            g.refreshes.last_eatable_pos@ == Seq::<usize>::empty(),
            g.refreshes.last_feed == now,
            g.refreshes.last_knock_wall == 0,
            g.refreshes.last_move == now,
            g.cells@.len() == size * size,
            g.cells@[pos_idx(size as int, ((size / 4) as int, 2))] == Cell::HeadDispenser,
            g.cells@[pos_idx(size as int, ((size / 4) as int, 1))].spec_is_body(),
            forall|k: int|
                0 <= k < g.cells@.len() && k != pos_idx(size as int, ((size / 4) as int, 2)) && k
                    != pos_idx(size as int, ((size / 4) as int, 1)) ==> g.cells@[k] == Cell::Blank,
    {
        let n: usize = size * size;
        let mut cells: Vec<Cell> = Vec::new();
        while cells.len() < n
            invariant
                cells@.len() <= n,
                forall|k: int| 0 <= k < cells@.len() ==> cells@[k] == Cell::Blank,
            decreases n - cells.len(),
        {
            cells.push(Cell::Blank);
        }
        let head_row: usize = size / 4;
        let head_col: usize = 2;
        assert(head_row < size);
        let ih: usize = get_index(size, head_row, head_col);
        let ib: usize = get_index(size, head_row, head_col - 1);
        assert(ih != ib);
        cells[ih] = Cell::HeadDispenser;
        let mut body_cell = Cell::Blank;
        body_cell.body();
        cells[ib] = body_cell;
        let mut directions: VecDeque<(i32, i32)> = VecDeque::new();
        directions.push_back((0, 1));
        directions.push_back((0, 1));
        let ghost init_segments: Seq<(int, int)> = seq![
            (head_row as int, 2int),
            (head_row as int, 1int),
        ];
        let g = Game {
            size,
            cells,
            snake: Snake {
                head: (head_row as i32, head_col as i32),
                directions,
                tail: (head_row as i32, (head_col - 1) as i32),
                goods: 0,
                snacks: 0,
                drugs: 0,
                hunger: 0,
                hunger_cnt: 0,
                speed: BASE_SPEED,
                hungry_buff: false,
                dizziness_buff: false,
                length: 2,
            },
            refreshes: Refreshes {
                last_eatable_refresh: 0,
                last_eatable_pos: Vec::new(),
                last_feed: now,
                last_knock_wall: 0,
                last_move: now,
            },
            status: Status::Pause,
            input_directions: (0, 1),
            segments: Ghost(init_segments),
        };
        proof {
            let ss = g.segments@;
            assert(ss[0] == pos_of(g.snake.head));
            assert(ss[1] == pos_of(g.snake.tail));
            assert(ss[0] == pos_step(ss[1], g.snake.directions@[1]));
            assert(g.cells@[pos_idx(g.side(), ss[0])].spec_is_head());
            assert(g.cells@[pos_idx(g.side(), ss[1])].spec_is_body());
            assert forall|k: int|
                0 <= k < g.cells@.len() && (#[trigger] g.cells@[k]).spec_is_snake()
                    implies exists|i: int|
                    0 <= i < g.segments@.len() && pos_idx(g.side(), #[trigger] g.segments@[i])
                        == k by {
                if k == ih {
                    assert(pos_idx(g.side(), g.segments@[0]) == k);
                } else if k == ib {
                    assert(pos_idx(g.side(), g.segments@[1]) == k);
                } else {
                    assert(g.cells@[k] == Cell::Blank);
                }
            }
            assert(g.wf_board());
        }
        g
    }

    /// Build a fresh game with the feed and move clocks read from the
    /// system clock; everything else matches `new_with_size_at`.
    pub fn new_with_size(size: usize) -> (g: Game)
        requires
            3 <= size,
            size * size <= usize::MAX,
            size <= 0x7fff_ffff,
        ensures
            g.inv(),
            g.size == size,
            g.status is Pause,
            g.input_directions == (0i32, 1i32),
            g.snake.head == ((size / 4) as i32, 2i32),
            g.snake.tail == ((size / 4) as i32, 1i32),
            g.snake.directions@ == seq![(0i32, 1i32), (0i32, 1i32)],
            g.snake.goods == 0 && g.snake.snacks == 0 && g.snake.drugs == 0,
            g.snake.hunger == 0 && g.snake.hunger_cnt == 0,
            g.snake.speed == BASE_SPEED,
            !g.snake.hungry_buff && !g.snake.dizziness_buff,
            g.snake.length == 2,
            g.refreshes.last_eatable_refresh == 0,
            g.refreshes.last_eatable_pos@ == Seq::<usize>::empty(),
            g.refreshes.last_knock_wall == 0,
            Self::ts_ok(g.refreshes.last_feed),
            g.refreshes.last_move == g.refreshes.last_feed,
            g.cells@.len() == size * size,
            g.cells@[pos_idx(size as int, ((size / 4) as int, 2))] == Cell::HeadDispenser,
            g.cells@[pos_idx(size as int, ((size / 4) as int, 1))].spec_is_body(),
            forall|k: int|
                0 <= k < g.cells@.len() && k != pos_idx(size as int, ((size / 4) as int, 2)) && k
                    != pos_idx(size as int, ((size / 4) as int, 1)) ==> g.cells@[k] == Cell::Blank,
    {
        let now: i64 = now_millis();
        let now: i64 = if 0 <= now && now <= TS_BOUND {
            now
        } else {
            0
        };
        Game::new_with_size_at(size, now)
    }

    /// Record the latest requested direction; it is validated when the snake
    /// next moves.
    pub fn input(&mut self, d_row: i32, d_col: i32)
        ensures
            *final(self) == (Game { input_directions: (d_row, d_col), ..*old(self) }),
    {
        self.input_directions.0 = d_row;
        self.input_directions.1 = d_col;
    }

    pub fn start(&mut self)
        ensures
            *final(self) == (Game { status: Status::Start, ..*old(self) }),
    {
        self.status = Status::Start;
    }

    pub fn pause(&mut self)
        ensures
            *final(self) == (Game { status: Status::Pause, ..*old(self) }),
    {
        self.status = Status::Pause;
    }

    /// The raw board, row-major; one cell per entry.
    pub fn cells(&self) -> (r: &Vec<Cell>)
        ensures
            r@ == self.cells@,
    {
        &self.cells
    }

    /// The buff bitfield: bit 0 hunger, bit 1 dizziness.
    pub fn buffs(&self) -> (r: u8)
        ensures
            r == self.spec_buffs(),
    {
        if self.snake.hungry_buff && self.snake.dizziness_buff {
            3
        } else if self.snake.dizziness_buff {
            2
        } else if self.snake.hungry_buff {
            1
        } else {
            0
        }
    }

    /// Consecutive hunger cycles so far.
    pub fn hungers(&self) -> (r: u32)
        ensures
            r == self.snake.hunger,
    {
        self.snake.hunger
    }

    /// Total segment count.
    pub fn length(&self) -> (r: u32)
        ensures
            r == self.snake.length,
    {
        self.snake.length
    }

    /// Board indices of the food batch placed by the last refresh.
    pub fn food_positions(&self) -> (r: &Vec<usize>)
        ensures
            r@ == self.refreshes.last_eatable_pos@,
    {
        &self.refreshes.last_eatable_pos
    }

    /// Place a given eatable item on a blank cell: the handle a test harness
    /// or a level designer uses to force a particular consumable. Returns
    /// false (and changes nothing) if the position is out of range, the cell
    /// is not blank, or the item is not eatable.
    pub fn place_item(&mut self, row: usize, col: usize, item: Cell) -> (ok: bool)
        requires
            old(self).inv(),
        ensures
            final(self).inv(),
            ok == (row < old(self).size && col < old(self).size && item.spec_is_eatable() && old(
                self,
            ).cells@[pos_idx(old(self).side(), (row as int, col as int))] == Cell::Blank),
            ok ==> final(self).cells@ == old(self).cells@.update(
                pos_idx(old(self).side(), (row as int, col as int)),
                item,
            ),
            ok ==> *final(self) == (Game { cells: final(self).cells, ..*old(self) }),
            !ok ==> *final(self) == *old(self),
    {
        if !(row < self.size && col < self.size) {
            return false;
        }
        let idx = get_index(self.size, row, col);
        if !item.is_eatable() {
            return false;
        }
        if !(self.cells[idx].id() == 0) {
            proof {
                assert(self.cells@[idx as int].spec_id() == 0 ==> self.cells@[idx as int]
                    == Cell::Blank);
            }
            return false;
        }
        proof {
            assert(self.cells@[idx as int] == Cell::Blank);
        }
        self.cells[idx] = item;
        proof {
            let pre = *old(self);
            let post = *self;
            let ss = pre.segments@;
            assert(post.segments@ == ss);
            assert forall|i: int| 1 <= i < ss.len() implies post.cells@[pos_idx(
                post.side(),
                #[trigger] ss[i],
            )].spec_is_body() by {
                lemma_pos_idx_bounds(pre.side(), ss[i]);
                assert(pre.cells@[pos_idx(pre.side(), ss[i])].spec_is_body());
                if pos_idx(pre.side(), ss[i]) == idx as int {
                    assert(Cell::Blank.spec_is_body());
                }
            }
            lemma_pos_idx_bounds(pre.side(), ss[0]);
            assert(pre.cells@[pos_idx(pre.side(), ss[0])].spec_is_head());
            if pos_idx(pre.side(), ss[0]) == idx as int {
                assert(Cell::Blank.spec_is_head());
            }
            assert(post.cells@[pos_idx(post.side(), ss[0])].spec_is_head());
            assert forall|k: int|
                0 <= k < post.cells@.len() && (#[trigger] post.cells@[k]).spec_is_snake()
                    implies exists|i: int|
                    0 <= i < ss.len() && pos_idx(post.side(), #[trigger] ss[i]) == k by {
                if k != idx as int {
                    assert(pre.cells@[k].spec_is_snake());
                }
            }
            assert(post.wf_board());
        }
        true
    }
}

} // verus!
