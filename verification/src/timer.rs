use vstd::prelude::*;

verus! {

/// The number of rows of a timer wheel.
pub const TIMER_WHEEL_SIZE: usize = 32;
/// The largest tick count.
pub const RT_TICK_MAX: u32 = 0xffff_ffff;
/// The timer is running.
pub const TIMER_FLAG_ACTIVATED: u8 = 0x1;
/// The timer starts again each time it fires.
pub const TIMER_FLAG_PERIODIC: u8 = 0x2;
/// The timer is served by the timer thread rather than the tick.
pub const TIMER_FLAG_SOFT_TIMER: u8 = 0x4;
/// The timer belongs to a thread.
pub const TIMER_FLAG_THREAD_TIMER: u8 = 0x8;

/// Control commands.
pub const TIMER_CTRL_GET_TIME: u32 = 0x0;
pub const TIMER_CTRL_SET_TIME: u32 = 0x1;
pub const TIMER_CTRL_SET_ONESHOT: u32 = 0x2;
pub const TIMER_CTRL_SET_PERIODIC: u32 = 0x3;
pub const TIMER_CTRL_GET_STATE: u32 = 0x4;
pub const TIMER_CTRL_GET_REMAIN_TIME: u32 = 0x5;

/// What a timer is: its period, when it next fires, its flags, and the row
/// of the wheel it is linked into, if any.
#[derive(Clone, Copy, Debug, PartialEq, Eq, Structural)]
pub struct TimerInfo {
    pub init_tick: u32,
    pub timeout_tick: u32,
    pub flag: u8,
    pub row: Option<usize>,
}

/// Whether `tick` is at or past `timeout` on the wrapping tick clock: less
/// than half the clock ahead of it.
pub open spec fn expired(tick: u32, timeout: u32) -> bool {
    (if tick >= timeout { tick - timeout } else { tick + 0x1_0000_0000 - timeout }) < RT_TICK_MAX / 2
}

/// Where a timer firing at `t` goes in a row: before the first timer
/// (from `i` on) that does not fire earlier, at the end if none.
pub open spec fn tick_insert_index(row: Seq<usize>, timers: Seq<TimerInfo>, t: u32, i: int) -> int
    decreases row.len() - i,
{
    if i < 0 || i >= row.len() {
        row.len() as int
    } else if t <= timers[row[i] as int].timeout_tick {
        i
    } else {
        tick_insert_index(row, timers, t, i + 1)
    }
}

/// The row `row` without the first place of the timer `id`, if it has one.
pub open spec fn remove_id(row: Seq<usize>, id: usize) -> Seq<usize>
    decreases row.len(),
{
    if row.len() == 0 {
        row
    } else if row[0] == id {
        row.drop_first()
    } else {
        seq![row[0]] + remove_id(row.drop_first(), id)
    }
}

proof fn lemma_remove_id(row: Seq<usize>, id: usize, i: int)
    requires
        0 <= i < row.len(),
        row[i] == id,
        forall|k: int| 0 <= k < i ==> row[k] != id,
    ensures
        remove_id(row, id) == row.remove(i),
    decreases i,
{
    if i > 0 {
        lemma_remove_id(row.drop_first(), id, i - 1);
        assert(row.remove(i) =~= seq![row[0]] + row.drop_first().remove(i - 1));
    } else {
        assert(row.remove(0) =~= row.drop_first());
    }
}

proof fn lemma_tick_insert_index(row: Seq<usize>, timers: Seq<TimerInfo>, t: u32, i: int)
    requires
        0 <= i <= row.len(),
        forall|k: int| 0 <= k < row.len() ==> row[k] < timers.len(),
        forall|k: int, l: int| 0 <= k < l < row.len()
            ==> timers[row[k] as int].timeout_tick <= timers[row[l] as int].timeout_tick,
        forall|k: int| 0 <= k < i ==> timers[row[k] as int].timeout_tick < t,
    ensures
        i <= tick_insert_index(row, timers, t, i) <= row.len(),
        forall|k: int| 0 <= k < tick_insert_index(row, timers, t, i) ==> timers[row[k] as int].timeout_tick < t,
        forall|k: int| tick_insert_index(row, timers, t, i) <= k < row.len() ==> t <= timers[row[k] as int].timeout_tick,
    decreases row.len() - i,
{
    if i < row.len() && !(t <= timers[row[i] as int].timeout_tick) {
        lemma_tick_insert_index(row, timers, t, i + 1);
    }
}

/// A timer wheel: its timers, and rows of timers each kept in the order
/// they fire; the row at the cursor is the one checked at a tick.
pub struct TimerWheel {
    cursor: usize,
    rows: Vec<Vec<usize>>,
    timers: Vec<TimerInfo>,
}

/// The place where a timer due at `t` goes in `row` (see
/// `tick_insert_index`).
fn find_slot(row: &Vec<usize>, timers: &Vec<TimerInfo>, t: u32) -> (k: usize)
    requires
        forall|j: int| 0 <= j < row@.len() ==> row@[j] < timers@.len(),
    ensures
        k == tick_insert_index(row@, timers@, t, 0),
        k <= row@.len(),
{
    let mut k: usize = 0;
    while k < row.len() && !(t <= timers[row[k]].timeout_tick)
        invariant
            k <= row@.len(),
            forall|j: int| 0 <= j < row@.len() ==> row@[j] < timers@.len(),
            tick_insert_index(row@, timers@, t, 0) == tick_insert_index(row@, timers@, t, k as int),
        decreases row@.len() - k,
    {
        k = k + 1;
    }
    k
}

/// The rows `rows` and timers `timers` fit together: each row holds known
/// timers once each, in the order they are due, and a timer is in the row
/// it records.
pub open spec fn wheel_ok(rows: Seq<Seq<usize>>, timers: Seq<TimerInfo>) -> bool {
    &&& rows.len() == TIMER_WHEEL_SIZE
    &&& timers.len() <= usize::MAX
    &&& forall|r: int, k: int| 0 <= r < TIMER_WHEEL_SIZE && 0 <= k < rows[r].len()
        ==> (#[trigger] rows[r][k]) < timers.len() && timers[rows[r][k] as int].row == Some(r as usize)
    &&& forall|r: int, k: int, l: int| 0 <= r < TIMER_WHEEL_SIZE && 0 <= k < l < rows[r].len()
        ==> #[trigger] rows[r][k] != #[trigger] rows[r][l]
            && timers[rows[r][k] as int].timeout_tick <= timers[rows[r][l] as int].timeout_tick
    &&& forall|id: int| 0 <= id < timers.len() && (#[trigger] timers[id]).row is Some
        ==> timers[id].row.unwrap() < TIMER_WHEEL_SIZE && rows[timers[id].row.unwrap() as int].contains(id as usize)
}

proof fn lemma_remove_ok(rows: Seq<Seq<usize>>, timers: Seq<TimerInfo>, id: usize, r: int, i: int)
    requires
        wheel_ok(rows, timers),
        0 <= r < TIMER_WHEEL_SIZE,
        0 <= i < rows[r].len(),
        rows[r][i] == id,
    ensures
        wheel_ok(rows.update(r, rows[r].remove(i)), timers.update(id as int, TimerInfo { row: None, ..timers[id as int] })),
{
    let orow = rows[r];
    let nrows = rows.update(r, orow.remove(i));
    let nts = timers.update(id as int, TimerInfo { row: None, ..timers[id as int] });
    assert(timers[id as int].row == Some(r as usize));
    assert forall|q: int, k: int| 0 <= q < TIMER_WHEEL_SIZE && 0 <= k < nrows[q].len()
        implies (#[trigger] nrows[q][k]) < nts.len() && nts[nrows[q][k] as int].row == Some(q as usize) by {
        if q == r {
            let kk = if k < i { k } else { k + 1 };
            assert(nrows[q][k] == orow[kk]);
            assert(orow[kk] != orow[i]);
        } else {
            assert(nrows[q][k] == rows[q][k]);
            if rows[q][k] == id {
                assert(timers[id as int].row == Some(q as usize));
            }
        }
    }
    assert forall|q: int, k: int, l: int| 0 <= q < TIMER_WHEEL_SIZE && 0 <= k < l < nrows[q].len()
        implies #[trigger] nrows[q][k] != #[trigger] nrows[q][l]
            && nts[nrows[q][k] as int].timeout_tick <= nts[nrows[q][l] as int].timeout_tick by {
        if q == r {
            let kk = if k < i { k } else { k + 1 };
            let ll = if l < i { l } else { l + 1 };
            assert(nrows[q][k] == orow[kk]);
            assert(nrows[q][l] == orow[ll]);
            assert(orow[kk] < timers.len() && orow[ll] < timers.len());
        } else {
            assert(nrows[q][k] == rows[q][k] && nrows[q][l] == rows[q][l]);
            assert(rows[q][k] < timers.len() && rows[q][l] < timers.len());
        }
    }
    assert forall|x: int| 0 <= x < nts.len() && (#[trigger] nts[x]).row is Some
        implies nts[x].row.unwrap() < TIMER_WHEEL_SIZE && nrows[nts[x].row.unwrap() as int].contains(x as usize) by {
        assert(x != id);
        assert(nts[x] == timers[x]);
        let q = timers[x].row.unwrap() as int;
        assert(rows[q].contains(x as usize));
        let j = choose|j: int| 0 <= j < rows[q].len() && rows[q][j] == x as usize;
        if q == r {
            assert(j != i);
            if j < i {
                assert(nrows[q][j] == x as usize);
            } else {
                assert(nrows[q][j - 1] == x as usize);
            }
        } else {
            assert(nrows[q][j] == x as usize);
        }
    }
}

#[verifier::rlimit(40)]
proof fn lemma_insert_ok(rows: Seq<Seq<usize>>, timers: Seq<TimerInfo>, id: usize, r: int, info: TimerInfo)
    requires
        wheel_ok(rows, timers),
        0 <= id < timers.len(),
        timers[id as int].row is None,
        0 <= r < TIMER_WHEEL_SIZE,
        info.row == Some(r as usize),
    ensures
        ({
            let ts = timers.update(id as int, info);
            let k = tick_insert_index(rows[r], ts, info.timeout_tick, 0);
            wheel_ok(rows.update(r, rows[r].insert(k, id)), ts)
        }),
{
    let ts = timers.update(id as int, info);
    let t = info.timeout_tick;
    let base = rows[r];
    assert forall|j: int| 0 <= j < base.len() implies base[j] < ts.len() && base[j] != id by {
        assert(base[j] < timers.len());
        assert(timers[base[j] as int].row == Some(r as usize));
    }
    assert forall|j: int, l: int| 0 <= j < l < base.len()
        implies ts[base[j] as int].timeout_tick <= ts[base[l] as int].timeout_tick by {
        assert(base[j] != id && base[l] != id);
    }
    lemma_tick_insert_index(base, ts, t, 0);
    let k = tick_insert_index(base, ts, t, 0);
    let nrow = base.insert(k, id);
    let nrows = rows.update(r, nrow);
    assert forall|q: int, j: int| 0 <= q < TIMER_WHEEL_SIZE && 0 <= j < nrows[q].len()
        implies (#[trigger] nrows[q][j]) < ts.len() && ts[nrows[q][j] as int].row == Some(q as usize) by {
        if q == r {
            if j < k {
                assert(nrows[q][j] == base[j]);
            } else if j > k {
                assert(nrows[q][j] == base[j - 1]);
            }
            if j != k {
                assert(base[if j < k { j } else { j - 1 }] != id);
            }
        } else {
            assert(nrows[q][j] == rows[q][j]);
            assert(rows[q][j] < timers.len());
            if rows[q][j] == id {
                assert(timers[id as int].row == Some(q as usize));
            }
        }
    }
    assert forall|q: int, a: int, b: int| 0 <= q < TIMER_WHEEL_SIZE && 0 <= a < b < nrows[q].len()
        implies #[trigger] nrows[q][a] != #[trigger] nrows[q][b]
            && ts[nrows[q][a] as int].timeout_tick <= ts[nrows[q][b] as int].timeout_tick by {
        if q == r {
            if a == k {
                assert(nrows[q][b] == base[b - 1]);
            } else if b == k {
                assert(nrows[q][a] == base[a]);
            } else {
                let aa = if a < k { a } else { a - 1 };
                let bb = if b < k { b } else { b - 1 };
                assert(nrows[q][a] == base[aa]);
                assert(nrows[q][b] == base[bb]);
            }
        } else {
            assert(nrows[q][a] == rows[q][a] && nrows[q][b] == rows[q][b]);
            assert(rows[q][a] < timers.len() && rows[q][b] < timers.len());
            assert(timers[rows[q][a] as int].row == Some(q as usize));
            assert(timers[rows[q][b] as int].row == Some(q as usize));
        }
    }
    assert forall|x: int| 0 <= x < ts.len() && (#[trigger] ts[x]).row is Some
        implies ts[x].row.unwrap() < TIMER_WHEEL_SIZE && nrows[ts[x].row.unwrap() as int].contains(x as usize) by {
        if x == id {
            assert(nrows[r][k] == id);
        } else {
            let q = timers[x].row.unwrap() as int;
            assert(rows[q].contains(x as usize));
            let j = choose|j: int| 0 <= j < rows[q].len() && rows[q][j] == x as usize;
            if q == r {
                if j < k {
                    assert(nrows[q][j] == x as usize);
                } else {
                    assert(nrows[q][j + 1] == x as usize);
                }
            } else {
                assert(nrows[q][j] == x as usize);
            }
        }
    }
}

impl TimerWheel {
    pub closed spec fn cursor_spec(&self) -> usize {
        self.cursor
    }

    /// The timers of row `r`, in firing order.
    pub closed spec fn row(&self, r: int) -> Seq<usize> {
        self.rows@[r]@
    }

    /// The rows, in order.
    pub closed spec fn rows_view(&self) -> Seq<Seq<usize>> {
        Seq::new(self.rows@.len(), |r: int| self.rows@[r]@)
    }

    /// The timers, by id.
    pub closed spec fn timers_spec(&self) -> Seq<TimerInfo> {
        self.timers@
    }

    /// The cursor is on a row and the rows fit the timers (`wheel_ok`).
    pub closed spec fn wf(&self) -> bool {
        &&& self.cursor < TIMER_WHEEL_SIZE
        &&& self.rows@.len() == TIMER_WHEEL_SIZE
        &&& wheel_ok(self.rows_view(), self.timers@)
    }

    /// An empty wheel with its cursor at row 0.
    pub fn new() -> (w: Self)
        ensures
            w.wf(),
            w.cursor_spec() == 0,
            w.timers_spec() == Seq::<TimerInfo>::empty(),
            forall|r: int| 0 <= r < TIMER_WHEEL_SIZE ==> #[trigger] w.row(r) == Seq::<usize>::empty(),
    {
        let mut rows: Vec<Vec<usize>> = Vec::new();
        let mut i: usize = 0;
        while i < TIMER_WHEEL_SIZE
            invariant
                i <= TIMER_WHEEL_SIZE,
                rows@.len() == i,
                forall|r: int| 0 <= r < i ==> (#[trigger] rows@[r])@.len() == 0,
            decreases TIMER_WHEEL_SIZE - i,
        {
            rows.push(Vec::new());
            i = i + 1;
        }
        let w = TimerWheel { cursor: 0, rows, timers: Vec::new() };
        assert forall|r: int| 0 <= r < TIMER_WHEEL_SIZE implies #[trigger] w.row(r) == Seq::<usize>::empty() by {
            assert(w.rows@[r]@.len() == 0);
        }
        w
    }

    /// Adds a stopped timer with period `time` and flags `flag` (the
    /// running flag is cleared) and returns its id.
    pub fn create(&mut self, time: u32, flag: u8) -> (id: usize)
        requires
            old(self).wf(),
            old(self).timers_spec().len() < usize::MAX,
        ensures
            final(self).wf(),
            id == old(self).timers_spec().len(),
            final(self).timers_spec() == old(self).timers_spec().push(TimerInfo {
                init_tick: time,
                timeout_tick: 0,
                flag: flag & !TIMER_FLAG_ACTIVATED,
                row: None,
            }),
            final(self).cursor_spec() == old(self).cursor_spec(),
            forall|r: int| 0 <= r < TIMER_WHEEL_SIZE ==> #[trigger] final(self).row(r) == old(self).row(r),
    {
        let id = self.timers.len();
        let ghost rows = self.rows_view();
        let ghost t0 = self.timers@;
        self.timers.push(TimerInfo { init_tick: time, timeout_tick: 0, flag: flag & !TIMER_FLAG_ACTIVATED, row: None });
        proof {
            let ts = self.timers@;
            assert(self.rows_view() =~= rows);
            assert forall|r: int, k: int| 0 <= r < TIMER_WHEEL_SIZE && 0 <= k < rows[r].len()
                implies (#[trigger] rows[r][k]) < ts.len() && ts[rows[r][k] as int].row == Some(r as usize) by {
                assert(rows[r][k] < t0.len());
            }
            assert forall|r: int, k: int, l: int| 0 <= r < TIMER_WHEEL_SIZE && 0 <= k < l < rows[r].len()
                implies #[trigger] rows[r][k] != #[trigger] rows[r][l]
                    && ts[rows[r][k] as int].timeout_tick <= ts[rows[r][l] as int].timeout_tick by {
                assert(rows[r][k] < t0.len() && rows[r][l] < t0.len());
            }
            assert forall|x: int| 0 <= x < ts.len() && (#[trigger] ts[x]).row is Some
                implies ts[x].row.unwrap() < TIMER_WHEEL_SIZE && rows[ts[x].row.unwrap() as int].contains(x as usize) by {
                assert(x < t0.len());
                assert(ts[x] == t0[x]);
            }
        }
        id
    }

    /// Takes the timer `id` off the row it is in, if any.
    pub fn timer_remove(&mut self, id: usize)
        requires
            old(self).wf(),
            id < old(self).timers_spec().len(),
        ensures
            final(self).wf(),
            final(self).cursor_spec() == old(self).cursor_spec(),
            final(self).timers_spec() == old(self).timers_spec().update(id as int,
                TimerInfo { row: None, ..old(self).timers_spec()[id as int] }),
            forall|r: int| 0 <= r < TIMER_WHEEL_SIZE ==> #[trigger] final(self).row(r) == old(self).removed_row(r, id),
    {
        let ghost rows = self.rows_view();
        let ghost t0 = self.timers@;
        match self.timers[id].row {
            None => {
                let info = self.timers[id];
                self.timers.set(id, TimerInfo { row: None, ..info });
                assert(self.timers@ =~= t0.update(id as int, TimerInfo { row: None, ..t0[id as int] }));
                assert(self.timers@ =~= t0);
                assert(self.rows_view() =~= rows);
            },
            Some(r) => {
                proof {
                    assert(rows[r as int] == self.rows@[r as int]@);
                    assert(rows[r as int].contains(id));
                }
                let len = self.rows[r].len();
                let mut i: usize = 0;
                while self.rows[r][i] != id
                    invariant
                        self.rows@ == old(self).rows@,
                        self.timers@ == t0,
                        rows == old(self).rows_view(),
                        r < TIMER_WHEEL_SIZE,
                        self.rows@.len() == TIMER_WHEEL_SIZE,
                        len == rows[r as int].len(),
                        rows[r as int] == self.rows@[r as int]@,
                        rows[r as int].contains(id),
                        0 <= i < len,
                        forall|k: int| 0 <= k < i ==> rows[r as int][k] != id,
                    decreases len - i,
                {
                    proof {
                        let k = choose|k: int| 0 <= k < rows[r as int].len() && rows[r as int][k] == id;
                        assert(k > i);
                    }
                    i = i + 1;
                }
                proof {
                    lemma_remove_id(rows[r as int], id, i as int);
                    lemma_remove_ok(rows, t0, id, r as int, i as int);
                }
                self.rows[r].remove(i);
                let info = self.timers[id];
                self.timers.set(id, TimerInfo { row: None, ..info });
                proof {
                    assert(self.rows_view() =~= rows.update(r as int, rows[r as int].remove(i as int)));
                    assert(self.timers@ =~= t0.update(id as int, TimerInfo { row: None, ..t0[id as int] }));
                    assert forall|q: int| 0 <= q < TIMER_WHEEL_SIZE implies #[trigger] self.row(q) == old(self).removed_row(q, id) by {
                        assert(self.row(q) == self.rows_view()[q]);
                        assert(old(self).row(q) == rows[q]);
                    }
                }
            },
        }
    }

    /// Row `q` once the timer `id` has left it.
    pub open spec fn removed_row(&self, q: int, id: usize) -> Seq<usize> {
        if self.timers_spec()[id as int].row == Some(q as usize) {
            remove_id(self.row(q), id)
        } else {
            self.row(q)
        }
    }

    /// The row a timer of period `init` goes into from cursor `cursor`.
    pub open spec fn row_for(cursor: usize, init: u32) -> int {
        (cursor + init) % (TIMER_WHEEL_SIZE as int)
    }

    /// The wheel `w` is this wheel after the timer `id` was started at tick
    /// `now`: the cursor is unchanged; the timer is due at `now` plus its
    /// period (on the wrapping clock), is marked running and is filed in the
    /// row its period reaches from the cursor, before the first timer there
    /// that is not due earlier; every other row is as it was, less the
    /// timer; every other timer is as it was.
    pub open spec fn started(&self, w: Self, id: usize, now: u32) -> bool {
        let info = self.timers_spec()[id as int];
        let t = ((now + info.init_tick) % 0x1_0000_0000) as u32;
        let r = Self::row_for(self.cursor_spec(), info.init_tick);
        &&& w.cursor_spec() == self.cursor_spec()
        &&& w.timers_spec() == self.timers_spec().update(id as int, TimerInfo {
            timeout_tick: t,
            flag: info.flag | TIMER_FLAG_ACTIVATED,
            row: Some(r as usize),
            ..info
        })
        &&& w.row(r) == self.removed_row(r, id).insert(tick_insert_index(self.removed_row(r, id), w.timers_spec(), t, 0), id)
        &&& forall|q: int| 0 <= q < TIMER_WHEEL_SIZE && q != r ==> #[trigger] w.row(q) == self.removed_row(q, id)
    }

    /// Starts the timer `id` at tick `now`: it leaves its row, is due at
    /// `now` plus its period (on the wrapping clock), goes into the row its
    /// period reaches from the cursor, before the first timer there that is
    /// not due earlier, and is marked running.
    #[verifier::spinoff_prover]
    #[verifier::rlimit(30)]
    pub fn timer_start(&mut self, id: usize, now: u32)
        requires
            old(self).wf(),
            id < old(self).timers_spec().len(),
        ensures
            final(self).wf(),
            final(self).cursor_spec() == old(self).cursor_spec(),
            ({
                let info = old(self).timers_spec()[id as int];
                let t = ((now + info.init_tick) % 0x1_0000_0000) as u32;
                let r = Self::row_for(old(self).cursor_spec(), info.init_tick);
                &&& final(self).timers_spec() == old(self).timers_spec().update(id as int, TimerInfo {
                    timeout_tick: t,
                    flag: info.flag | TIMER_FLAG_ACTIVATED,
                    row: Some(r as usize),
                    ..info
                })
                &&& final(self).row(r) == old(self).removed_row(r, id).insert(
                    tick_insert_index(old(self).removed_row(r, id), final(self).timers_spec(), t, 0), id)
                &&& forall|q: int| 0 <= q < TIMER_WHEEL_SIZE && q != r
                    ==> #[trigger] final(self).row(q) == old(self).removed_row(q, id)
            }),
    {
        self.timer_remove(id);
        let info = self.timers[id];
        let t = now.wrapping_add(info.init_tick);
        let r = (self.cursor + (info.init_tick % 32) as usize) % TIMER_WHEEL_SIZE;
        proof {
            vstd::arithmetic::div_mod::lemma_add_mod_noop(self.cursor as int, info.init_tick as int, 32);
            vstd::arithmetic::div_mod::lemma_mod_twice(info.init_tick as int, 32);
            assert(r == Self::row_for(self.cursor, info.init_tick));
        }
        let ghost rows = self.rows_view();
        let ghost t1 = self.timers@;
        proof {
            assert forall|q: int| 0 <= q < TIMER_WHEEL_SIZE implies rows[q] == old(self).removed_row(q, id) by {
                assert(rows[q] == self.row(q));
            }
        }
        let nf = info.flag | TIMER_FLAG_ACTIVATED;
        let ninfo = TimerInfo { timeout_tick: t, flag: nf, row: Some(r), ..info };
        proof {
            lemma_insert_ok(rows, t1, id, r as int, ninfo);
        }
        self.timers.set(id, ninfo);
        proof {
            assert forall|j: int| 0 <= j < self.rows@[r as int]@.len() implies self.rows@[r as int]@[j] < self.timers@.len() by {
                assert(rows[r as int][j] < t1.len());
            }
        }
        let k = find_slot(&self.rows[r], &self.timers, t);
        self.rows[r].insert(k, id);
        proof {
            assert(self.rows_view() =~= rows.update(r as int, rows[r as int].insert(k as int, id)));
            assert forall|q: int| 0 <= q < TIMER_WHEEL_SIZE && q != r implies #[trigger] self.row(q) == old(self).removed_row(q, id) by {
                assert(self.row(q) == self.rows_view()[q]);
                assert(rows[q] == old(self).removed_row(q, id));
            }
            assert(self.row(r as int) == self.rows_view()[r as int]);
            assert(rows[r as int] == old(self).removed_row(r as int, id));
        }
    }

    /// Stops the timer `id`: it leaves its row and is marked not running.
    pub fn timer_stop(&mut self, id: usize)
        requires
            old(self).wf(),
            id < old(self).timers_spec().len(),
        ensures
            final(self).wf(),
            final(self).cursor_spec() == old(self).cursor_spec(),
            final(self).timers_spec() == old(self).timers_spec().update(id as int, TimerInfo {
                row: None,
                flag: old(self).timers_spec()[id as int].flag & !TIMER_FLAG_ACTIVATED,
                ..old(self).timers_spec()[id as int]
            }),
            forall|r: int| 0 <= r < TIMER_WHEEL_SIZE ==> #[trigger] final(self).row(r) == old(self).removed_row(r, id),
    {
        self.timer_remove(id);
        self.clear_flag(id, TIMER_FLAG_ACTIVATED);
    }

    /// Clears the flags `bits` of the timer `id`, which is on no row.
    fn clear_flag(&mut self, id: usize, bits: u8)
        requires
            old(self).wf(),
            id < old(self).timers_spec().len(),
        ensures
            final(self).wf(),
            final(self).cursor_spec() == old(self).cursor_spec(),
            final(self).timers_spec() == old(self).timers_spec().update(id as int, TimerInfo {
                flag: old(self).timers_spec()[id as int].flag & !bits,
                ..old(self).timers_spec()[id as int]
            }),
            forall|r: int| 0 <= r < TIMER_WHEEL_SIZE ==> #[trigger] final(self).row(r) == old(self).row(r),
    {
        let info = self.timers[id];
        self.set_flag_word(id, info.flag & !bits);
    }

    /// Sets the flag word of the timer `id` to `flag`; its place in the
    /// rows is unchanged.
    fn set_flag_word(&mut self, id: usize, flag: u8)
        requires
            old(self).wf(),
            id < old(self).timers_spec().len(),
        ensures
            final(self).wf(),
            final(self).cursor_spec() == old(self).cursor_spec(),
            final(self).timers_spec() == old(self).timers_spec().update(id as int, TimerInfo {
                flag,
                ..old(self).timers_spec()[id as int]
            }),
            forall|r: int| 0 <= r < TIMER_WHEEL_SIZE ==> #[trigger] final(self).row(r) == old(self).row(r),
    {
        let ghost rows = self.rows_view();
        let ghost t0 = self.timers@;
        let info = self.timers[id];
        self.timers.set(id, TimerInfo { flag, ..info });
        proof {
            let ts = self.timers@;
            assert(self.rows_view() =~= rows);
            assert forall|r: int, k: int| 0 <= r < TIMER_WHEEL_SIZE && 0 <= k < rows[r].len()
                implies (#[trigger] rows[r][k]) < ts.len() && ts[rows[r][k] as int].row == Some(r as usize) by {
                assert(rows[r][k] < t0.len());
            }
            assert forall|r: int, k: int, l: int| 0 <= r < TIMER_WHEEL_SIZE && 0 <= k < l < rows[r].len()
                implies #[trigger] rows[r][k] != #[trigger] rows[r][l]
                    && ts[rows[r][k] as int].timeout_tick <= ts[rows[r][l] as int].timeout_tick by {
                assert(rows[r][k] < t0.len() && rows[r][l] < t0.len());
            }
            assert forall|x: int| 0 <= x < ts.len() && (#[trigger] ts[x]).row is Some
                implies ts[x].row.unwrap() < TIMER_WHEEL_SIZE && rows[ts[x].row.unwrap() as int].contains(x as usize) by {
                assert(t0[x].row == ts[x].row);
            }
            assert forall|r: int| 0 <= r < TIMER_WHEEL_SIZE implies #[trigger] self.row(r) == old(self).row(r) by {
                assert(self.row(r) == self.rows_view()[r]);
            }
        }
    }

    /// Stops the timer `id` if it is running, and says whether it was.
    pub fn stop(&mut self, id: usize) -> (b: bool)
        requires
            old(self).wf(),
            id < old(self).timers_spec().len(),
        ensures
            final(self).wf(),
            b <==> old(self).timers_spec()[id as int].flag & TIMER_FLAG_ACTIVATED != 0,
            !b ==> *final(self) == *old(self),
            b ==> final(self).timers_spec() == old(self).timers_spec().update(id as int, TimerInfo {
                row: None,
                flag: old(self).timers_spec()[id as int].flag & !TIMER_FLAG_ACTIVATED,
                ..old(self).timers_spec()[id as int]
            }) && forall|r: int| 0 <= r < TIMER_WHEEL_SIZE ==> #[trigger] final(self).row(r) == old(self).removed_row(r, id),
    {
        if self.timers[id].flag & TIMER_FLAG_ACTIVATED == 0 {
            return false;
        }
        self.timer_stop(id);
        true
    }

    /// Starts the timer `id` at tick `now`. A timer with period 0 is not
    /// queued: it is due at once, which is returned as `true` (the caller
    /// runs its function), and it is marked running only when periodic.
    /// Any other timer is queued as `timer_start` does, and `false` is
    /// returned.
    pub fn start(&mut self, id: usize, now: u32) -> (due: bool)
        requires
            old(self).wf(),
            id < old(self).timers_spec().len(),
        ensures
            final(self).wf(),
            due <==> old(self).timers_spec()[id as int].init_tick == 0,
            due ==> {
                let f = old(self).timers_spec()[id as int].flag | TIMER_FLAG_ACTIVATED;
                &&& final(self).timers_spec() == old(self).timers_spec().update(id as int, TimerInfo {
                    flag: if f & TIMER_FLAG_PERIODIC == 0 { f & !TIMER_FLAG_ACTIVATED } else { f },
                    ..old(self).timers_spec()[id as int]
                })
                &&& forall|r: int| 0 <= r < TIMER_WHEEL_SIZE ==> #[trigger] final(self).row(r) == old(self).row(r)
            },
            due ==> final(self).cursor_spec() == old(self).cursor_spec(),
            !due ==> old(self).started(*final(self), id, now),
            !due ==> final(self).timers_spec()[id as int].row
                == Some(Self::row_for(old(self).cursor_spec(), old(self).timers_spec()[id as int].init_tick) as usize)
                && final(self).timers_spec()[id as int].flag & TIMER_FLAG_ACTIVATED != 0,
    {
        if self.timers[id].init_tick == 0 {
            let f = self.timers[id].flag | TIMER_FLAG_ACTIVATED;
            let nf = if f & TIMER_FLAG_PERIODIC == 0 { f & !TIMER_FLAG_ACTIVATED } else { f };
            self.set_flag_word(id, nf);
            return true;
        }
        self.timer_start(id, now);
        proof {
            let f = old(self).timers_spec()[id as int].flag;
            assert((f | 1u8) & 1u8 != 0) by (bit_vector);
        }
        false
    }

    /// Moves the cursor one row on, wrapping at the end of the wheel.
    pub fn advance_cursor(&mut self)
        requires
            old(self).wf(),
        ensures
            final(self).wf(),
            final(self).cursor_spec() == (old(self).cursor_spec() + 1) % (TIMER_WHEEL_SIZE as int),
            final(self).timers_spec() == old(self).timers_spec(),
            forall|r: int| 0 <= r < TIMER_WHEEL_SIZE ==> #[trigger] final(self).row(r) == old(self).row(r),
    {
        self.cursor = self.cursor + 1;
        if self.cursor == TIMER_WHEEL_SIZE {
            self.cursor = 0;
        }
        assert(self.rows_view() =~= old(self).rows_view());
    }

    /// Takes the first timer of the cursor's row off it when it is due at
    /// tick `now` (see `expired`), clears its running flag unless it is
    /// periodic, and returns it for the caller to run its function; `None`
    /// when the row is empty or its first timer is not due yet.
    pub fn next_expired(&mut self, now: u32) -> (r: Option<usize>)
        requires
            old(self).wf(),
        ensures
            final(self).wf(),
            final(self).cursor_spec() == old(self).cursor_spec(),
            ({
                let row = old(self).row(old(self).cursor_spec() as int);
                if row.len() > 0 && expired(now, old(self).timers_spec()[row[0] as int].timeout_tick) {
                    let id = row[0];
                    let info = old(self).timers_spec()[id as int];
                    &&& r == Some(id)
                    &&& final(self).timers_spec() == old(self).timers_spec().update(id as int, TimerInfo {
                        row: None,
                        flag: if info.flag & TIMER_FLAG_PERIODIC == 0 { info.flag & !TIMER_FLAG_ACTIVATED } else { info.flag },
                        ..info
                    })
                    &&& forall|q: int| 0 <= q < TIMER_WHEEL_SIZE ==> #[trigger] final(self).row(q)
                        == (if q == old(self).cursor_spec() { row.drop_first() } else { old(self).row(q) })
                } else {
                    r is None && *final(self) == *old(self)
                }
            }),
    {
        let c = self.cursor;
        proof {
            assert(self.rows_view()[c as int] == self.row(c as int));
        }
        if self.rows[c].len() == 0 {
            return None;
        }
        let id = self.rows[c][0];
        proof {
            assert(self.rows_view()[c as int][0] == id);
        }
        let tt = self.timers[id].timeout_tick;
        let diff = now.wrapping_sub(tt);
        if !(diff < RT_TICK_MAX / 2) {
            return None;
        }
        let ghost row0 = self.row(c as int);
        proof {
            lemma_remove_id(row0, id, 0);
            assert(row0.remove(0) =~= row0.drop_first());
        }
        self.timer_remove(id);
        let info = self.timers[id];
        if info.flag & TIMER_FLAG_PERIODIC == 0 {
            self.clear_flag(id, TIMER_FLAG_ACTIVATED);
        }
        Some(id)
    }

    /// What follows running the function of the timer `id` fired at tick
    /// `now`: a periodic timer that is still marked running is started
    /// again (and `true` returned); other timers are left as they are.
    pub fn restart_after_fire(&mut self, id: usize, now: u32) -> (restarted: bool)
        requires
            old(self).wf(),
            id < old(self).timers_spec().len(),
        ensures
            final(self).wf(),
            restarted <==> old(self).timers_spec()[id as int].flag & TIMER_FLAG_PERIODIC != 0
                && old(self).timers_spec()[id as int].flag & TIMER_FLAG_ACTIVATED != 0,
            !restarted ==> *final(self) == *old(self),
            restarted ==> old(self).started(*final(self), id, now),
    {
        let f = self.timers[id].flag;
        if f & TIMER_FLAG_PERIODIC != 0 && f & TIMER_FLAG_ACTIVATED != 0 {
            let ghost w0 = *self;
            self.clear_flag(id, TIMER_FLAG_ACTIVATED);
            let ghost w1 = *self;
            self.timer_start(id, now);
            proof {
                assert((f & !1u8) | 1u8 == f | 1u8) by (bit_vector);
                assert(w1.timers_spec()[id as int] == TimerInfo { flag: f & !1u8, ..w0.timers_spec()[id as int] });
                assert forall|q: int| 0 <= q < TIMER_WHEEL_SIZE implies #[trigger] w1.removed_row(q, id) == w0.removed_row(q, id) by {
                    assert(w1.row(q) == w0.row(q));
                }
                assert(self.timers_spec() =~= w0.timers_spec().update(id as int, TimerInfo {
                    timeout_tick: ((now + w0.timers_spec()[id as int].init_tick) % 0x1_0000_0000) as u32,
                    flag: f | TIMER_FLAG_ACTIVATED,
                    row: Some(Self::row_for(w0.cursor_spec(), w0.timers_spec()[id as int].init_tick) as usize),
                    ..w0.timers_spec()[id as int]
                }));
            }
            return true;
        }
        false
    }

    /// The earliest tick at which the first timer of a row is due, over
    /// every row but the last; `RT_TICK_MAX` when those rows are empty.
    pub fn next_timeout_tick(&self) -> (t: u32)
        requires
            self.wf(),
        ensures
            forall|r: int| 0 <= r < TIMER_WHEEL_SIZE - 1 && self.row(r).len() > 0
                ==> t <= self.timers_spec()[self.row(r)[0] as int].timeout_tick,
            t == RT_TICK_MAX || exists|r: int| 0 <= r < TIMER_WHEEL_SIZE - 1 && self.row(r).len() > 0
                && t == self.timers_spec()[self.row(r)[0] as int].timeout_tick,
    {
        let mut next = RT_TICK_MAX;
        let mut i: usize = 0;
        while i < TIMER_WHEEL_SIZE - 1
            invariant
                self.wf(),
                i <= TIMER_WHEEL_SIZE - 1,
                forall|r: int| 0 <= r < i && self.row(r).len() > 0
                    ==> next <= self.timers_spec()[self.row(r)[0] as int].timeout_tick,
                next == RT_TICK_MAX || exists|r: int| 0 <= r < i && self.row(r).len() > 0
                    && next == self.timers_spec()[self.row(r)[0] as int].timeout_tick,
            decreases TIMER_WHEEL_SIZE - 1 - i,
        {
            proof {
                assert(self.rows_view()[i as int] == self.row(i as int));
            }
            if self.rows[i].len() > 0 {
                let id = self.rows[i][0];
                proof {
                    assert(self.rows_view()[i as int][0] == id);
                }
                let tt = self.timers[id].timeout_tick;
                if tt < next {
                    next = tt;
                }
            }
            i = i + 1;
        }
        next
    }

    /// The period of the timer `id`.
    pub fn get_time(&self, id: usize) -> (t: u32)
        requires
            id < self.timers_spec().len(),
        ensures
            t == self.timers_spec()[id as int].init_tick,
    {
        self.timers[id].init_tick
    }

    /// Carries out a control command on the timer `id` with argument `arg`
    /// and returns what it reads: `TIMER_CTRL_GET_TIME` the period,
    /// `TIMER_CTRL_GET_STATE` 1 when running and 0 otherwise,
    /// `TIMER_CTRL_GET_REMAIN_TIME` the tick it is due at;
    /// `TIMER_CTRL_SET_TIME` takes a running timer off its row, marks it
    /// stopped and sets the period to `arg`; `TIMER_CTRL_SET_ONESHOT` and
    /// `TIMER_CTRL_SET_PERIODIC` clear and set the periodic flag. These
    /// return `arg`, as does any other command, which changes nothing.
    pub fn timer_control(&mut self, id: usize, cmd: u32, arg: u32) -> (r: u32)
        requires
            old(self).wf(),
            id < old(self).timers_spec().len(),
        ensures
            final(self).wf(),
            final(self).cursor_spec() == old(self).cursor_spec(),
            cmd == TIMER_CTRL_GET_TIME ==> r == old(self).timers_spec()[id as int].init_tick && *final(self) == *old(self),
            cmd == TIMER_CTRL_GET_STATE ==> r == (if old(self).timers_spec()[id as int].flag & TIMER_FLAG_ACTIVATED != 0 { 1u32 } else { 0u32 })
                && *final(self) == *old(self),
            cmd == TIMER_CTRL_GET_REMAIN_TIME ==> r == old(self).timers_spec()[id as int].timeout_tick && *final(self) == *old(self),
            cmd == TIMER_CTRL_SET_TIME ==> r == arg
                && (old(self).timers_spec()[id as int].flag & TIMER_FLAG_ACTIVATED != 0 ==> {
                    &&& final(self).timers_spec() == old(self).timers_spec().update(id as int, TimerInfo {
                        init_tick: arg,
                        row: None,
                        flag: old(self).timers_spec()[id as int].flag & !TIMER_FLAG_ACTIVATED,
                        ..old(self).timers_spec()[id as int]
                    })
                    &&& forall|q: int| 0 <= q < TIMER_WHEEL_SIZE ==> #[trigger] final(self).row(q) == old(self).removed_row(q, id)
                })
                && (old(self).timers_spec()[id as int].flag & TIMER_FLAG_ACTIVATED == 0 ==> {
                    &&& final(self).timers_spec() == old(self).timers_spec().update(id as int, TimerInfo {
                        init_tick: arg,
                        ..old(self).timers_spec()[id as int]
                    })
                    &&& forall|q: int| 0 <= q < TIMER_WHEEL_SIZE ==> #[trigger] final(self).row(q) == old(self).row(q)
                }),
            cmd == TIMER_CTRL_SET_ONESHOT ==> r == arg
                && final(self).timers_spec() == old(self).timers_spec().update(id as int, TimerInfo {
                    flag: old(self).timers_spec()[id as int].flag & !TIMER_FLAG_PERIODIC,
                    ..old(self).timers_spec()[id as int]
                })
                && forall|q: int| 0 <= q < TIMER_WHEEL_SIZE ==> #[trigger] final(self).row(q) == old(self).row(q),
            cmd == TIMER_CTRL_SET_PERIODIC ==> r == arg
                && final(self).timers_spec() == old(self).timers_spec().update(id as int, TimerInfo {
                    flag: old(self).timers_spec()[id as int].flag | TIMER_FLAG_PERIODIC,
                    ..old(self).timers_spec()[id as int]
                })
                && forall|q: int| 0 <= q < TIMER_WHEEL_SIZE ==> #[trigger] final(self).row(q) == old(self).row(q),
            !(cmd == TIMER_CTRL_GET_TIME || cmd == TIMER_CTRL_GET_STATE || cmd == TIMER_CTRL_GET_REMAIN_TIME
                || cmd == TIMER_CTRL_SET_TIME || cmd == TIMER_CTRL_SET_ONESHOT || cmd == TIMER_CTRL_SET_PERIODIC)
                ==> r == arg && *final(self) == *old(self),
    {
        if cmd == TIMER_CTRL_GET_TIME {
            self.timers[id].init_tick
        } else if cmd == TIMER_CTRL_SET_TIME {
            if self.timers[id].flag & TIMER_FLAG_ACTIVATED != 0 {
                self.timer_stop(id);
                proof {
                    let f = old(self).timers_spec()[id as int].flag;
                    assert((f & !1u8) & 1u8 == 0) by (bit_vector);
                }
            }
            let ghost before = self.timers@[id as int];
            self.set_period(id, arg);
            arg
        } else if cmd == TIMER_CTRL_SET_ONESHOT {
            self.clear_flag(id, TIMER_FLAG_PERIODIC);
            arg
        } else if cmd == TIMER_CTRL_SET_PERIODIC {
            let f = self.timers[id].flag;
            self.set_flag_word(id, f | TIMER_FLAG_PERIODIC);
            arg
        } else if cmd == TIMER_CTRL_GET_STATE {
            if self.timers[id].flag & TIMER_FLAG_ACTIVATED != 0 { 1 } else { 0 }
        } else if cmd == TIMER_CTRL_GET_REMAIN_TIME {
            self.timers[id].timeout_tick
        } else {
            arg
        }
    }

    /// Sets the period of the timer `id`; nothing else changes.
    fn set_period(&mut self, id: usize, time: u32)
        requires
            old(self).wf(),
            id < old(self).timers_spec().len(),
        ensures
            final(self).wf(),
            final(self).cursor_spec() == old(self).cursor_spec(),
            final(self).timers_spec() == old(self).timers_spec().update(id as int, TimerInfo {
                init_tick: time,
                ..old(self).timers_spec()[id as int]
            }),
            forall|r: int| 0 <= r < TIMER_WHEEL_SIZE ==> #[trigger] final(self).row(r) == old(self).row(r),
    {
        let ghost rows = self.rows_view();
        let ghost t0 = self.timers@;
        let info = self.timers[id];
        self.timers.set(id, TimerInfo { init_tick: time, ..info });
        proof {
            let ts = self.timers@;
            assert(self.rows_view() =~= rows);
            assert forall|r: int, k: int| 0 <= r < TIMER_WHEEL_SIZE && 0 <= k < rows[r].len()
                implies (#[trigger] rows[r][k]) < ts.len() && ts[rows[r][k] as int].row == Some(r as usize) by {
                assert(rows[r][k] < t0.len());
            }
            assert forall|r: int, k: int, l: int| 0 <= r < TIMER_WHEEL_SIZE && 0 <= k < l < rows[r].len()
                implies #[trigger] rows[r][k] != #[trigger] rows[r][l]
                    && ts[rows[r][k] as int].timeout_tick <= ts[rows[r][l] as int].timeout_tick by {
                assert(rows[r][k] < t0.len() && rows[r][l] < t0.len());
            }
            assert forall|x: int| 0 <= x < ts.len() && (#[trigger] ts[x]).row is Some
                implies ts[x].row.unwrap() < TIMER_WHEEL_SIZE && rows[ts[x].row.unwrap() as int].contains(x as usize) by {
                assert(t0[x].row == ts[x].row);
            }
            assert forall|r: int| 0 <= r < TIMER_WHEEL_SIZE implies #[trigger] self.row(r) == old(self).row(r) by {
                assert(self.row(r) == self.rows_view()[r]);
            }
        }
    }
}

} // verus!
