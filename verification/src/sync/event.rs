use vstd::prelude::*;
use crate::error::code;
use crate::thread::{ThreadState, SuspendFlag};
use crate::sync::ipc_common::{has_waiter, remove_tid, RtSysQueue, RtWaitQueue, Waiter, IpcStep, IPC_SYS_QUEUE_STUB,
    IPC_WAIT_MODE_FIFO, IPC_WAIT_MODE_PRIO, IPC_CMD_RESET, wait_ok, state_after_wait, queued, all_tids};

verus! {

/// The receiver waits for all of its flags.
pub const EVENT_AND: u8 = 1;
/// The receiver waits for any of its flags.
pub const EVENT_OR: u8 = 2;
/// The flags a receiver gets are cleared from the event.
pub const EVENT_CLEAR: u8 = 4;

/// Whether the flags `want`, waited for with option bits `info`, are met
/// by the event's flags `set`: all of them with `EVENT_AND`, else any of
/// them with `EVENT_OR`.
pub open spec fn event_met(set: u32, want: u32, info: u8) -> bool {
    if info & EVENT_AND != 0 {
        want & set == want
    } else {
        want & set != 0
    }
}

/// The flags a receiver gets when its wait is met: all it waited for with
/// `EVENT_AND`, those that are set with `EVENT_OR`.
pub open spec fn event_got(set: u32, want: u32, info: u8) -> u32 {
    if info & EVENT_AND != 0 { want } else { want & set }
}

/// What sending scans out of the waiters `ws` from position `i` on, with
/// the event's flags at `set`.
pub struct EventScan {
    /// The waiters that stay, in order.
    pub kept: Seq<Waiter>,
    /// The threads woken, in order, with the flags each gets.
    pub woken: Seq<(usize, u32)>,
    /// The flags to clear.
    pub clear: u32,
    /// Whether the scan stopped at a waiter with neither `EVENT_AND` nor
    /// `EVENT_OR`.
    pub invalid: bool,
}

/// Each waiter from `i` on whose wait is met is woken with the flags it
/// gets (which are to be cleared if it asked so), the others stay; the
/// scan stops at a waiter that has neither `EVENT_AND` nor `EVENT_OR`,
/// which stays with all after it.
pub open spec fn event_scan(ws: Seq<Waiter>, set: u32, i: int) -> EventScan
    decreases ws.len() - i,
{
    if i < 0 || i >= ws.len() {
        EventScan { kept: Seq::empty(), woken: Seq::empty(), clear: 0, invalid: false }
    } else {
        let w = ws[i];
        if w.event_info & EVENT_AND == 0 && w.event_info & EVENT_OR == 0 {
            EventScan { kept: ws.subrange(i, ws.len() as int), woken: Seq::empty(), clear: 0, invalid: true }
        } else {
            let rest = event_scan(ws, set, i + 1);
            if event_met(set, w.event_set, w.event_info) {
                let got = event_got(set, w.event_set, w.event_info);
                EventScan {
                    kept: rest.kept,
                    woken: seq![(w.tid, got)] + rest.woken,
                    clear: if w.event_info & EVENT_CLEAR != 0 { got | rest.clear } else { rest.clear },
                    invalid: rest.invalid,
                }
            } else {
                EventScan {
                    kept: seq![w] + rest.kept,
                    woken: rest.woken,
                    clear: rest.clear,
                    invalid: rest.invalid,
                }
            }
        }
    }
}

/// Every waiter of `ws` waits with `EVENT_AND` or `EVENT_OR`.
pub open spec fn all_valid(ws: Seq<Waiter>) -> bool {
    forall|j: int| 0 <= j < ws.len() ==> ((#[trigger] ws[j]).event_info & EVENT_AND != 0
        || ws[j].event_info & EVENT_OR != 0)
}

/// `w` is one of the waiters of `ws` from `i` on, and its wait is not met
/// by `set`.
pub open spec fn unmet_in(ws: Seq<Waiter>, set: u32, i: int, w: Waiter) -> bool {
    exists|j: int| i <= j < ws.len() && ws[j] == w && !event_met(set, w.event_set, w.event_info)
}

/// `x` names a waiter of `ws` from `i` on whose wait is met by `set`,
/// with the flags it gets.
pub open spec fn met_in(ws: Seq<Waiter>, set: u32, i: int, x: (usize, u32)) -> bool {
    exists|j: int| i <= j < ws.len() && ws[j].tid == x.0
        && event_met(set, ws[j].event_set, ws[j].event_info)
        && x.1 == event_got(set, ws[j].event_set, ws[j].event_info)
}

proof fn lemma_event_scan_from(ws: Seq<Waiter>, set: u32, i: int)
    requires
        0 <= i <= ws.len(),
        all_valid(ws),
    ensures
        !event_scan(ws, set, i).invalid,
        event_scan(ws, set, i).kept.len() + event_scan(ws, set, i).woken.len() == ws.len() - i,
        forall|k: int| 0 <= k < event_scan(ws, set, i).kept.len()
            ==> unmet_in(ws, set, i, #[trigger] event_scan(ws, set, i).kept[k]),
        forall|k: int| 0 <= k < event_scan(ws, set, i).woken.len()
            ==> met_in(ws, set, i, #[trigger] event_scan(ws, set, i).woken[k]),
    decreases ws.len() - i,
{
    if i < ws.len() {
        lemma_event_scan_from(ws, set, i + 1);
        let w = ws[i];
        assert(w.event_info & EVENT_AND != 0 || w.event_info & EVENT_OR != 0);
        let rest = event_scan(ws, set, i + 1);
        let cur = event_scan(ws, set, i);
        if event_met(set, w.event_set, w.event_info) {
            assert forall|k: int| 0 <= k < cur.kept.len() implies unmet_in(ws, set, i, #[trigger] cur.kept[k]) by {
                assert(cur.kept[k] == rest.kept[k]);
                assert(unmet_in(ws, set, i + 1, rest.kept[k]));
            }
            assert forall|k: int| 0 <= k < cur.woken.len() implies met_in(ws, set, i, #[trigger] cur.woken[k]) by {
                if k == 0 {
                    assert(cur.woken[0] == (w.tid, event_got(set, w.event_set, w.event_info)));
                    assert(ws[i].tid == w.tid);
                } else {
                    assert(cur.woken[k] == rest.woken[k - 1]);
                    assert(met_in(ws, set, i + 1, rest.woken[k - 1]));
                }
            }
        } else {
            assert forall|k: int| 0 <= k < cur.kept.len() implies unmet_in(ws, set, i, #[trigger] cur.kept[k]) by {
                if k == 0 {
                    assert(cur.kept[0] == ws[i]);
                } else {
                    assert(cur.kept[k] == rest.kept[k - 1]);
                    assert(unmet_in(ws, set, i + 1, rest.kept[k - 1]));
                }
            }
            assert forall|k: int| 0 <= k < cur.woken.len() implies met_in(ws, set, i, #[trigger] cur.woken[k]) by {
                assert(cur.woken[k] == rest.woken[k]);
                assert(met_in(ws, set, i + 1, rest.woken[k]));
            }
        }
    }
}

/// When every waiter waits with `EVENT_AND` or `EVENT_OR`, sending splits
/// the waiters: each one either stays, its wait unmet, or is woken, its
/// wait met, with the flags it gets; none is lost and none is added.
pub proof fn lemma_event_send_partitions(ws: Seq<Waiter>, set: u32)
    requires
        all_valid(ws),
    ensures
        !event_scan(ws, set, 0).invalid,
        event_scan(ws, set, 0).kept.len() + event_scan(ws, set, 0).woken.len() == ws.len(),
        forall|k: int| 0 <= k < event_scan(ws, set, 0).kept.len()
            ==> unmet_in(ws, set, 0, #[trigger] event_scan(ws, set, 0).kept[k]),
        forall|k: int| 0 <= k < event_scan(ws, set, 0).woken.len()
            ==> met_in(ws, set, 0, #[trigger] event_scan(ws, set, 0).woken[k]),
{
    lemma_event_scan_from(ws, set, 0);
}

/// `x` is a thread of `ws` from `i` on that gets, with the event's flags at
/// `set`, only flags that are set and that it waited for: all it waited for
/// with `EVENT_AND`, exactly those of them that are set otherwise.
pub open spec fn gets_held_flags(ws: Seq<Waiter>, set: u32, i: int, x: (usize, u32)) -> bool {
    exists|j: int| #![trigger ws[j]] i <= j < ws.len() && ws[j].tid == x.0
        && x.1 & !set == 0
        && x.1 & !ws[j].event_set == 0
        && (ws[j].event_info & EVENT_AND != 0 ==> x.1 == ws[j].event_set)
        && (ws[j].event_info & EVENT_AND == 0 ==> x.1 == ws[j].event_set & set && x.1 != 0)
}

/// `w` is a waiter of `ws` that, with the event's flags at `set`, still
/// lacks a flag it waits for with `EVENT_AND`, or has none of its flags
/// set otherwise.
pub open spec fn still_waiting(ws: Seq<Waiter>, set: u32, w: Waiter) -> bool {
    exists|j: int| #![trigger ws[j]] 0 <= j < ws.len() && ws[j] == w
        && (w.event_info & EVENT_AND != 0 ==> w.event_set & !set != 0)
        && (w.event_info & EVENT_AND == 0 ==> w.event_set & set == 0)
}

proof fn lemma_got_bits(want: u32, set: u32)
    by (bit_vector)
    ensures
        (want & set) & !set == 0,
        (want & set) & !want == 0,
        want & !want == 0,
        want & set == want ==> want & !set == 0,
        want & set != want ==> want & !set != 0,
{
}

proof fn lemma_event_scan_held(ws: Seq<Waiter>, set: u32, i: int)
    requires
        0 <= i <= ws.len(),
    ensures
        forall|k: int| 0 <= k < event_scan(ws, set, i).woken.len()
            ==> gets_held_flags(ws, set, i, #[trigger] event_scan(ws, set, i).woken[k]),
    decreases ws.len() - i,
{
    if i < ws.len() {
        let w = ws[i];
        if !(w.event_info & EVENT_AND == 0 && w.event_info & EVENT_OR == 0) {
            lemma_event_scan_held(ws, set, i + 1);
            let rest = event_scan(ws, set, i + 1);
            let cur = event_scan(ws, set, i);
            if event_met(set, w.event_set, w.event_info) {
                assert forall|k: int| 0 <= k < cur.woken.len()
                    implies gets_held_flags(ws, set, i, #[trigger] cur.woken[k]) by {
                    if k == 0 {
                        lemma_got_bits(w.event_set, set);
                        assert(cur.woken[0] == (w.tid, event_got(set, w.event_set, w.event_info)));
                        assert(ws[i] == w);
                    } else {
                        assert(cur.woken[k] == rest.woken[k - 1]);
                        assert(gets_held_flags(ws, set, i + 1, rest.woken[k - 1]));
                    }
                }
            } else {
                assert forall|k: int| 0 <= k < cur.woken.len()
                    implies gets_held_flags(ws, set, i, #[trigger] cur.woken[k]) by {
                    assert(cur.woken[k] == rest.woken[k]);
                    assert(gets_held_flags(ws, set, i + 1, rest.woken[k]));
                }
            }
        }
    }
}

/// A thread that sending wakes is told only of flags the event holds once
/// the sent ones are added, and only of flags it waited for: with
/// `EVENT_OR` exactly its flags that are set, with `EVENT_AND` all of them.
/// (`send` reports `event_scan` of the old flags with the sent ones added.)
pub proof fn lemma_event_send_gives_held_flags(ws: Seq<Waiter>, set: u32)
    ensures
        forall|k: int| 0 <= k < event_scan(ws, set, 0).woken.len()
            ==> gets_held_flags(ws, set, 0, #[trigger] event_scan(ws, set, 0).woken[k]),
{
    lemma_event_scan_held(ws, set, 0);
}

proof fn lemma_clear_bits(got: u32, rest: u32, set: u32)
    by (bit_vector)
    requires
        got & !set == 0,
        rest & !set == 0,
    ensures
        (got | rest) & !set == 0,
{
}

proof fn lemma_event_scan_clear(ws: Seq<Waiter>, set: u32, i: int)
    requires
        0 <= i <= ws.len(),
    ensures
        event_scan(ws, set, i).clear & !set == 0,
        (forall|j: int| i <= j < ws.len() ==> (#[trigger] ws[j]).event_info & EVENT_CLEAR == 0)
            ==> event_scan(ws, set, i).clear == 0,
    decreases ws.len() - i,
{
    assert(0u32 & !set == 0) by (bit_vector);
    if i < ws.len() {
        let w = ws[i];
        if !(w.event_info & EVENT_AND == 0 && w.event_info & EVENT_OR == 0) {
            lemma_event_scan_clear(ws, set, i + 1);
            lemma_got_bits(w.event_set, set);
            let rest = event_scan(ws, set, i + 1);
            let got = event_got(set, w.event_set, w.event_info);
            if event_met(set, w.event_set, w.event_info) && w.event_info & EVENT_CLEAR != 0 {
                lemma_clear_bits(got, rest.clear, set);
            }
            if forall|j: int| i <= j < ws.len() ==> (#[trigger] ws[j]).event_info & EVENT_CLEAR == 0 {
                assert(ws[i].event_info & EVENT_CLEAR == 0);
                assert forall|j: int| i + 1 <= j < ws.len() implies (#[trigger] ws[j]).event_info & EVENT_CLEAR == 0 by {
                    assert(ws[j].event_info & EVENT_CLEAR == 0);
                }
            }
        }
    }
}

/// Sending clears only flags the event holds once the sent ones are added,
/// and clears none when no waiter asked for its flags to be cleared.
/// (`send` leaves the flags `(old | set) & !clear`.)
pub proof fn lemma_event_send_clears_only_requested(ws: Seq<Waiter>, set: u32)
    ensures
        event_scan(ws, set, 0).clear & !set == 0,
        (forall|j: int| 0 <= j < ws.len() ==> (#[trigger] ws[j]).event_info & EVENT_CLEAR == 0)
            ==> event_scan(ws, set, 0).clear == 0,
{
    lemma_event_scan_clear(ws, set, 0);
}

/// When every waiter waits with `EVENT_AND` or `EVENT_OR`, the waiters that
/// sending leaves waiting are waiters that are not yet satisfied: one with
/// `EVENT_AND` still lacks a flag, one with `EVENT_OR` has none of its
/// flags set.
pub proof fn lemma_event_send_keeps_unsatisfied(ws: Seq<Waiter>, set: u32)
    requires
        all_valid(ws),
    ensures
        forall|k: int| 0 <= k < event_scan(ws, set, 0).kept.len()
            ==> still_waiting(ws, set, #[trigger] event_scan(ws, set, 0).kept[k]),
{
    lemma_event_scan_from(ws, set, 0);
    let kept = event_scan(ws, set, 0).kept;
    assert forall|k: int| 0 <= k < kept.len() implies still_waiting(ws, set, #[trigger] kept[k]) by {
        assert(unmet_in(ws, set, 0, kept[k]));
        let j = choose|j: int| 0 <= j < ws.len() && ws[j] == kept[k]
            && !event_met(set, kept[k].event_set, kept[k].event_info);
        lemma_got_bits(kept[k].event_set, set);
        assert(ws[j] == kept[k]);
    }
}

/// A set of event flags and the threads waiting for some of them.
pub struct RtEvent {
    set: u32,
    inner_queue: RtSysQueue<()>,
}

impl RtEvent {
    /// The flags that are set.
    pub closed spec fn flags(&self) -> u32 {
        self.set
    }

    /// The threads waiting, each with the flags it waits for.
    pub closed spec fn waiters(&self) -> Seq<Waiter> {
        self.inner_queue.dequeue_spec()@
    }

    /// How waiting threads are ordered.
    pub closed spec fn waiting_mode(&self) -> u32 {
        self.inner_queue.dequeue_spec().mode()
    }

    pub closed spec fn wf(&self) -> bool {
        &&& self.inner_queue.wf()
        &&& self.inner_queue.mode_spec() == IPC_SYS_QUEUE_STUB
    }

    /// An event with no flag set and no waiters; waiting threads are
    /// ordered by `flag`, FIFO or by priority.
    pub fn new(flag: u8) -> (e: Self)
        requires
            flag == IPC_WAIT_MODE_FIFO || flag == IPC_WAIT_MODE_PRIO,
        ensures
            e.wf(),
            e.flags() == 0,
            e.waiters() == Seq::<Waiter>::empty(),
            e.waiting_mode() == flag,
    {
        RtEvent { set: 0, inner_queue: RtSysQueue::new(4, 1, IPC_SYS_QUEUE_STUB, flag as u32) }
    }

    /// Sets the event up afresh, as `new` does.
    pub fn init(&mut self, flag: u8)
        requires
            flag == IPC_WAIT_MODE_FIFO || flag == IPC_WAIT_MODE_PRIO,
        ensures
            final(self).wf(),
            final(self).flags() == 0,
            final(self).waiters() == Seq::<Waiter>::empty(),
            final(self).waiting_mode() == flag,
    {
        self.set = 0;
        self.inner_queue.init(4, 1, IPC_SYS_QUEUE_STUB, flag as u32);
    }

    /// Takes every waiting thread off the event and returns them in order;
    /// the caller resumes each with an error. The flags stay.
    pub fn detach(&mut self) -> (woken: Vec<usize>)
        requires
            old(self).wf(),
        ensures
            final(self).wf(),
            woken@ == all_tids(old(self).waiters()),
            final(self).waiters() == Seq::<Waiter>::empty(),
            final(self).flags() == old(self).flags(),
            final(self).waiting_mode() == old(self).waiting_mode(),
    {
        self.inner_queue.dequeue_waiter_mut().wake_all()
    }

    /// Sets the flags `set` and wakes each waiting thread whose wait is
    /// now met (see `event_scan`), returning them in order with the flags
    /// each gets; the caller resumes each with no error. The flags that
    /// woken threads asked to clear are then cleared. Fails with `ERROR`,
    /// changing nothing, when `set` is 0, and with `EINVAL` at a waiter
    /// with neither `EVENT_AND` nor `EVENT_OR`: the threads before it are
    /// woken still, and nothing is cleared.
    pub fn send(&mut self, set: u32) -> (r: (i32, Vec<(usize, u32)>))
        requires
            old(self).wf(),
        ensures
            final(self).wf(),
            final(self).waiting_mode() == old(self).waiting_mode(),
            set == 0 ==> r.0 == code::ERROR && r.1@ == Seq::<(usize, u32)>::empty() && *final(self) == *old(self),
            set != 0 ==> {
                let scan = event_scan(old(self).waiters(), old(self).flags() | set, 0);
                &&& r.0 == (if scan.invalid { code::EINVAL } else { code::EOK })
                &&& r.1@ == scan.woken
                &&& final(self).waiters() == scan.kept
                &&& final(self).flags() == (if scan.invalid {
                    old(self).flags() | set
                } else {
                    (old(self).flags() | set) & !scan.clear
                })
            },
    {
        if set == 0 {
            return (code::ERROR, Vec::new());
        }
        self.set = self.set | set;
        let s = self.set;
        let ghost ws = self.waiters();
        let ghost n = ws.len() as int;
        let ghost mut kept: Seq<Waiter> = Seq::empty();
        let mut woken: Vec<(usize, u32)> = Vec::new();
        let mut need_clear: u32 = 0;
        let mut i: usize = 0;
        let ghost mut j: int = 0;
        assert(ws.subrange(0, n) =~= ws);
        proof {
            let c = event_scan(ws, s, 0).clear;
            assert(0u32 | c == c) by (bit_vector);
        }
        while i < self.inner_queue.dequeue_waiter().count()
            invariant
                self.wf(),
                self.set == s,
                self.waiting_mode() == old(self).waiting_mode(),
                s == old(self).flags() | set,
                set != 0,
                ws == old(self).waiters(),
                0 <= j <= n,
                n == ws.len(),
                kept.len() == i,
                self.waiters() == kept + ws.subrange(j, n),
                kept + event_scan(ws, s, j).kept == event_scan(ws, s, 0).kept,
                woken@ + event_scan(ws, s, j).woken == event_scan(ws, s, 0).woken,
                need_clear | event_scan(ws, s, j).clear == event_scan(ws, s, 0).clear,
                event_scan(ws, s, j).invalid == event_scan(ws, s, 0).invalid,
            decreases self.waiters().len() - i,
        {
            let w = self.inner_queue.dequeue_waiter().get(i);
            assert(w == ws[j]);
            let ghost rest = event_scan(ws, s, j + 1);
            if w.event_info & EVENT_AND == 0 && w.event_info & EVENT_OR == 0 {
                assert(woken@ + Seq::<(usize, u32)>::empty() =~= woken@);
                assert(event_scan(ws, s, 0).kept == self.waiters());
                return (code::EINVAL, woken);
            }
            let met = if w.event_info & EVENT_AND != 0 {
                w.event_set & s == w.event_set
            } else {
                w.event_set & s != 0
            };
            if met {
                let got = if w.event_info & EVENT_AND != 0 { w.event_set } else { w.event_set & s };
                self.inner_queue.dequeue_waiter_mut().remove(i);
                let ghost old_woken = woken@;
                woken.push((w.tid, got));
                assert(woken@ + rest.woken =~= old_woken + (seq![(w.tid, got)] + rest.woken));
                if w.event_info & EVENT_CLEAR != 0 {
                    proof {
                        let nc = need_clear;
                        let rc = rest.clear;
                        assert((nc | got) | rc == nc | (got | rc)) by (bit_vector);
                    }
                    need_clear = need_clear | got;
                }
                proof {
                    assert(self.waiters() =~= kept + ws.subrange(j + 1, n));
                    j = j + 1;
                }
            } else {
                i = i + 1;
                proof {
                    assert(kept.push(w) + rest.kept =~= kept + (seq![w] + rest.kept));
                    assert(self.waiters() =~= kept.push(w) + ws.subrange(j + 1, n));
                    kept = kept.push(w);
                    j = j + 1;
                }
            }
        }
        proof {
            assert(j == n);
            assert(self.waiters() =~= kept);
            assert(woken@ + Seq::<(usize, u32)>::empty() =~= woken@);
            assert(kept + Seq::<Waiter>::empty() =~= kept);
            let nc = need_clear;
            assert(nc | 0u32 == nc) by (bit_vector);
        }
        self.set = self.set & !need_clear;
        (code::EOK, woken)
    }

    /// One step of receiving the flags `set` with option bits `option`,
    /// for the thread `me` in state `stat`. When the wait is met at once
    /// (see `event_met`), the receiver gets the flags of `set` that are set,
    /// and with `EVENT_CLEAR` they are cleared. Otherwise, with a timeout
    /// of 0 the receive fails with `ETIMEDOUT`; with another the thread,
    /// carrying `set` and `option`, is suspended with `suspend_flag` and
    /// queued (`Blocked`; `send` wakes it with the flags it gets), or the
    /// receive fails with `ERROR` when the thread can be neither. An empty
    /// `set` fails with `ERROR`. Unless `set` is empty, `option` must hold
    /// `EVENT_AND` or `EVENT_OR`.
    pub fn receive_step(&mut self, set: u32, option: u8, timeout: i32, stat: &mut ThreadState,
        me: Waiter, suspend_flag: SuspendFlag) -> (r: IpcStep<u32>)
        requires
            old(self).wf(),
            set == 0 || option & EVENT_AND != 0 || option & EVENT_OR != 0,
        ensures
            final(self).wf(),
            final(self).waiting_mode() == old(self).waiting_mode(),
            set == 0 ==> r == IpcStep::<u32>::Failed(code::ERROR) && *final(self) == *old(self)
                && *final(stat) == *old(stat),
            set != 0 && event_met(old(self).flags(), set, option) ==> {
                &&& r == IpcStep::<u32>::Done { value: old(self).flags() & set, wake: None }
                &&& final(self).flags() == (if option & EVENT_CLEAR != 0 {
                    old(self).flags() & !set
                } else {
                    old(self).flags()
                })
                &&& final(self).waiters() == old(self).waiters()
                &&& *final(stat) == *old(stat)
            },
            set != 0 && !event_met(old(self).flags(), set, option) && timeout == 0 ==> {
                &&& r == IpcStep::<u32>::Failed(code::ETIMEDOUT)
                &&& *final(self) == *old(self)
                &&& *final(stat) == *old(stat)
            },
            set != 0 && !event_met(old(self).flags(), set, option) && timeout != 0 ==> {
                &&& final(self).flags() == old(self).flags()
                &&& !wait_ok(old(stat).0) ==> r == IpcStep::<u32>::Failed(code::ERROR)
                    && final(self).waiters() == old(self).waiters() && *final(stat) == *old(stat)
                &&& wait_ok(old(stat).0) ==> r == IpcStep::<u32>::Blocked
                    && final(self).waiters() == queued(old(self).waiters(), old(self).waiting_mode(),
                        Waiter { event_set: set, event_info: option, ..me })
                    && final(stat).0 == state_after_wait(old(stat).0, suspend_flag)
            },
    {
        if set == 0 {
            return IpcStep::Failed(code::ERROR);
        }
        let met = if option & EVENT_AND != 0 {
            set & self.set == set
        } else {
            set & self.set != 0
        };
        if met {
            let got = self.set & set;
            if option & EVENT_CLEAR != 0 {
                self.set = self.set & !set;
            }
            return IpcStep::Done { value: got, wake: None };
        }
        if timeout == 0 {
            return IpcStep::Failed(code::ETIMEDOUT);
        }
        let w = Waiter { event_set: set, event_info: option, ..me };
        let ret = self.inner_queue.dequeue_waiter_mut().wait(stat, w, suspend_flag);
        if ret != code::EOK {
            return IpcStep::Failed(ret);
        }
        IpcStep::Blocked
    }

    /// Carries out a control command: `IPC_CMD_RESET` wakes every waiting
    /// thread (returned in order, each to be resumed with an error), clears
    /// all flags and gives `EOK`; other commands change nothing and give
    /// `ERROR`.
    pub fn control(&mut self, cmd: i32) -> (r: (i32, Vec<usize>))
        requires
            old(self).wf(),
        ensures
            final(self).wf(),
            final(self).waiting_mode() == old(self).waiting_mode(),
            cmd == IPC_CMD_RESET ==> {
                &&& r.0 == code::EOK
                &&& r.1@ == all_tids(old(self).waiters())
                &&& final(self).flags() == 0
                &&& final(self).waiters() == Seq::<Waiter>::empty()
            },
            cmd != IPC_CMD_RESET ==> r.0 == code::ERROR && r.1@ == Seq::<usize>::empty()
                && *final(self) == *old(self),
    {
        if cmd == IPC_CMD_RESET {
            let woken = self.detach();
            self.set = 0;
            return (code::EOK, woken);
        }
        (code::ERROR, Vec::new())
    }

    /// Takes the thread `tid` off the waiters, as when its wait times out;
    /// says whether it was waiting.
    pub fn cancel_wait(&mut self, tid: usize) -> (b: bool)
        requires
            old(self).wf(),
        ensures
            final(self).wf(),
            b <==> has_waiter(old(self).waiters(), tid),
            final(self).waiters() == remove_tid(old(self).waiters(), tid),
            final(self).flags() == old(self).flags(),
            final(self).waiting_mode() == old(self).waiting_mode(),
    {
        self.inner_queue.dequeue_waiter_mut().cancel(tid)
    }
}

} // verus!
