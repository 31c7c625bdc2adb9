//! The decisions of the CAN bus actor: which motors run their control
//! update and send their command on a 1 ms tick, how many frames one tick
//! sends, when the next tick falls, and which registered motor a command
//! addresses.
use vstd::prelude::*;

verus! {

/// Number of motor slots on one bus.
pub const MAX_MOTORS: usize = 10;

/// Rate of the bus tick, in Hz.
pub const DEFAULT_CONTROL_HZ: u16 = 1000;

/// Most frames sent on one tick.
pub const TX_FRAME_BUF_LEN: usize = 32;

/// Length of the command queue.
pub const CMD_QUEUE_LEN: usize = 16;

/// Ticks between two control updates of a motor with the given rate:
/// `1000 / freq`, at least 1, and 1 for a rate of 0.
pub open spec fn divider_spec(freq: u16) -> u16 {
    if freq == 0 {
        1
    } else if DEFAULT_CONTROL_HZ / freq > 1 {
        DEFAULT_CONTROL_HZ / freq
    } else {
        1
    }
}

/// The divider is the number of whole control periods in the bus rate,
/// rounded down and at least 1: for a motor rate `f` up to 500 Hz, `d`
/// periods of `f` fit in 1000 Hz and `d + 1` do not; a faster motor runs
/// on every tick, as does one whose rate is 0.
pub proof fn lemma_divider_is_floor(freq: u16)
    ensures
        divider_spec(freq) >= 1,
        freq == 0 ==> divider_spec(freq) == 1,
        0 < freq <= 500 ==> divider_spec(freq) * freq <= 1000 && 1000 < (divider_spec(freq) + 1)
            * freq,
        freq > 500 ==> divider_spec(freq) == 1,
{
    if freq > 0 {
        let q = 1000int / freq as int;
        assert(q * freq <= 1000 && 1000 < (q + 1) * freq) by (nonlinear_arith)
            requires
                freq > 0,
                q == 1000int / freq as int,
        ;
        if freq <= 500 {
            assert(q >= 2) by (nonlinear_arith)
                requires
                    0 < freq <= 500,
                    q * freq <= 1000,
                    1000 < (q + 1) * freq,
            ;
        } else {
            assert(q <= 1) by (nonlinear_arith)
                requires
                    freq > 500,
                    q * freq <= 1000,
                    q >= 0,
            ;
        }
    }
}

/// Ticks between two control updates of a motor with the given rate.
pub fn control_divider(freq: u16) -> (d: u16)
    ensures
        d == divider_spec(freq),
        d >= 1,
{
    if freq == 0 {
        1
    } else {
        let q = DEFAULT_CONTROL_HZ / freq;
        if q > 1 {
            q
        } else {
            1
        }
    }
}

/// Whether a motor whose counter stands at `cnt` runs its control update on
/// this tick: the counter, advanced by one (wrapping), reaches the divider.
pub fn update_due(cnt: u16, freq: u16) -> (due: bool)
    ensures
        due == ((cnt as int + 1) % 0x10000 >= divider_spec(freq)),
{
    cnt.wrapping_add(1) >= control_divider(freq)
}

/// Whether a motor sends its command on this tick: always at the full tick
/// rate, and otherwise when its control update is due.
pub fn pack_due(cnt: u16, freq: u16) -> (due: bool)
    ensures
        due == (freq == DEFAULT_CONTROL_HZ || (cnt as int + 1) % 0x10000 >= divider_spec(freq)),
{
    if freq == DEFAULT_CONTROL_HZ {
        true
    } else {
        update_due(cnt, freq)
    }
}

/// What the packing pass does with the next motor.
#[derive(Clone, Copy, Debug, PartialEq, Eq, Structural)]
pub enum PackAction {
    /// The send buffer is full: the remaining motors are passed over.
    Stop,
    /// Not due: the motor's counter advances.
    Skip,
    /// Due: the motor packs its frames and its counter restarts.
    Pack,
}

/// The frames queued so far on one tick.
pub struct TxPlan {
    frame_cnt: usize,
}

impl View for TxPlan {
    type V = nat;

    closed spec fn view(&self) -> nat {
        self.frame_cnt as nat
    }
}

impl TxPlan {
    /// No frame queued yet.
    pub fn new() -> (p: Self)
        ensures
            p@ == 0,
    {
        TxPlan { frame_cnt: 0 }
    }

    /// The number of frames queued.
    pub fn frame_count(&self) -> (n: usize)
        ensures
            n == self@,
    {
        self.frame_cnt
    }

    /// What to do with the next motor in slot order.
    pub fn next_action(&self, cnt: u16, freq: u16) -> (a: PackAction)
        ensures
            a == if self@ >= TX_FRAME_BUF_LEN {
                PackAction::Stop
            } else if freq == DEFAULT_CONTROL_HZ || (cnt as int + 1) % 0x10000 >= divider_spec(
                freq,
            ) {
                PackAction::Pack
            } else {
                PackAction::Skip
            },
    {
        if self.frame_cnt >= TX_FRAME_BUF_LEN {
            PackAction::Stop
        } else if pack_due(cnt, freq) {
            PackAction::Pack
        } else {
            PackAction::Skip
        }
    }

    /// Records that a motor packed `wrote` frames; the count never exceeds the
    /// buffer.
    pub fn record_packed(&mut self, wrote: usize)
        requires
            old(self)@ <= TX_FRAME_BUF_LEN,
            wrote <= usize::MAX - TX_FRAME_BUF_LEN,
        ensures
            final(self)@ == if old(self)@ + wrote < TX_FRAME_BUF_LEN {
                old(self)@ + wrote
            } else {
                TX_FRAME_BUF_LEN as int
            },
    {
        let total = self.frame_cnt + wrote;
        self.frame_cnt = if total < TX_FRAME_BUF_LEN {
            total
        } else {
            TX_FRAME_BUF_LEN
        };
    }
}

/// The next tick after `next`: advanced by one period, and further by whole
/// periods until it is no longer before `now`.
pub fn advance_deadline(next: u64, now: u64, period: u64) -> (r: u64)
    requires
        period > 0,
        next + period <= u64::MAX,
        now + period <= u64::MAX,
    ensures
        r > next,
        (r - next) % (period as int) == 0,
        r >= now,
        r == next + period || r - period < now,
{
    let mut t = next + period;
    proof {
        vstd::arithmetic::div_mod::lemma_mod_self_0(period as int);
    }
    while now > t
        invariant
            t > next,
            (t - next) % (period as int) == 0,
            t == next + period || t - period < now,
            now + period <= u64::MAX,
            period > 0,
        decreases now + period - t,
    {
        proof {
            assert((t + period - next) % (period as int) == 0) by {
                vstd::arithmetic::div_mod::lemma_mod_adds((t - next) as int, period as int, period as int);
                vstd::arithmetic::div_mod::lemma_mod_self_0(period as int);
            }
        }
        t = t + period;
    }
    t
}

/// The motor id held in each of the bus's slots.
pub struct MotorTable {
    slots: Vec<Option<u32>>,
}

impl View for MotorTable {
    type V = Seq<Option<u32>>;

    closed spec fn view(&self) -> Seq<Option<u32>> {
        self.slots@
    }
}

/// The first free slot.
pub open spec fn first_free(slots: Seq<Option<u32>>) -> Option<int>
    decreases slots.len(),
{
    if slots.len() == 0 {
        None
    } else {
        match first_free(slots.drop_last()) {
            Some(i) => Some(i),
            None => if slots.last() is None {
                Some(slots.len() - 1)
            } else {
                None
            },
        }
    }
}

/// The first slot that holds `id`.
pub open spec fn first_with_id(slots: Seq<Option<u32>>, id: u32) -> Option<int>
    decreases slots.len(),
{
    if slots.len() == 0 {
        None
    } else {
        match first_with_id(slots.drop_last(), id) {
            Some(i) => Some(i),
            None => if slots.last() == Some(id) {
                Some(slots.len() - 1)
            } else {
                None
            },
        }
    }
}

proof fn lemma_first_free_prefix(s: Seq<Option<u32>>, k: int)
    requires
        0 <= k <= s.len(),
        first_free(s.take(k)) is Some,
    ensures
        first_free(s) == first_free(s.take(k)),
    decreases s.len() - k,
{
    if k == s.len() {
        assert(s.take(k) =~= s);
    } else {
        assert(s.drop_last().take(k) =~= s.take(k));
        lemma_first_free_prefix(s.drop_last(), k);
    }
}

proof fn lemma_first_id_prefix(s: Seq<Option<u32>>, id: u32, k: int)
    requires
        0 <= k <= s.len(),
        first_with_id(s.take(k), id) is Some,
    ensures
        first_with_id(s, id) == first_with_id(s.take(k), id),
    decreases s.len() - k,
{
    if k == s.len() {
        assert(s.take(k) =~= s);
    } else {
        assert(s.drop_last().take(k) =~= s.take(k));
        lemma_first_id_prefix(s.drop_last(), id, k);
    }
}

impl MotorTable {
    /// Ten empty slots.
    pub fn new() -> (t: Self)
        ensures
            t@ == Seq::new(MAX_MOTORS as nat, |i: int| None::<u32>),
    {
        let mut slots: Vec<Option<u32>> = Vec::new();
        let mut i: usize = 0;
        while i < MAX_MOTORS
            invariant
                i <= MAX_MOTORS,
                slots@ == Seq::new(i as nat, |k: int| None::<u32>),
            decreases MAX_MOTORS - i,
        {
            slots.push(None);
            proof {
                assert(slots@ =~= Seq::new((i + 1) as nat, |k: int| None::<u32>));
            }
            i = i + 1;
        }
        MotorTable { slots }
    }

    /// Puts a motor in the first free slot and returns the slot; `None`, with
    /// the slots unchanged, when every slot is taken.
    pub fn register_motor(&mut self, motor_id: u32) -> (r: Option<usize>)
        ensures
            match first_free(old(self)@) {
                Some(i) => r == Some(i as usize) && final(self)@ == old(self)@.update(
                    i,
                    Some(motor_id),
                ),
                None => r is None && final(self)@ == old(self)@,
            },
    {
        let n = self.slots.len();
        let mut i: usize = 0;
        while i < n
            invariant
                n == self.slots@.len(),
                self.slots@ == old(self)@,
                i <= n,
                first_free(self.slots@.take(i as int)) is None,
            decreases n - i,
        {
            proof {
                assert(self.slots@.take(i + 1).drop_last() =~= self.slots@.take(i as int));
            }
            if self.slots[i].is_none() {
                proof {
                    lemma_first_free_prefix(self.slots@, i + 1);
                }
                self.slots.set(i, Some(motor_id));
                return Some(i);
            }
            i = i + 1;
        }
        proof {
            assert(self.slots@.take(n as int) =~= self.slots@);
        }
        None
    }

    /// The first slot that holds the motor with id `motor_id`.
    pub fn find_motor(&self, motor_id: u32) -> (r: Option<usize>)
        ensures
            match first_with_id(self@, motor_id) {
                Some(i) => r == Some(i as usize),
                None => r is None,
            },
    {
        let n = self.slots.len();
        let mut i: usize = 0;
        while i < n
            invariant
                n == self.slots@.len(),
                i <= n,
                first_with_id(self.slots@.take(i as int), motor_id) is None,
            decreases n - i,
        {
            proof {
                assert(self.slots@.take(i + 1).drop_last() =~= self.slots@.take(i as int));
            }
            if self.slots[i] == Some(motor_id) {
                proof {
                    lemma_first_id_prefix(self.slots@, motor_id, i + 1);
                }
                return Some(i);
            }
            i = i + 1;
        }
        proof {
            assert(self.slots@.take(n as int) =~= self.slots@);
        }
        None
    }
}

proof fn lemma_first_free_range(slots: Seq<Option<u32>>)
    ensures
        first_free(slots) matches Some(i) ==> 0 <= i < slots.len() && slots[i] is None,
    decreases slots.len(),
{
    if slots.len() > 0 {
        lemma_first_free_range(slots.drop_last());
        if let Some(i) = first_free(slots.drop_last()) {
            assert(slots[i] == slots.drop_last()[i]);
        }
    }
}

/// A motor registered in the first free slot is found by its id there,
/// unless a motor with the same id was registered before it.
pub proof fn lemma_register_then_find_motor(slots: Seq<Option<u32>>, id: u32)
    requires
        first_free(slots) is Some,
        first_with_id(slots, id) is None,
    ensures
        first_with_id(slots.update(first_free(slots)->0, Some(id)), id) == first_free(slots),
    decreases slots.len(),
{
    lemma_first_free_range(slots);
    lemma_first_free_range(slots.drop_last());
    let i = first_free(slots)->0;
    let u = slots.update(i, Some(id));
    match first_free(slots.drop_last()) {
        Some(j) => {
            assert(u.drop_last() =~= slots.drop_last().update(j, Some(id)));
            lemma_register_then_find_motor(slots.drop_last(), id);
        },
        None => {
            assert(u.drop_last() =~= slots.drop_last());
        },
    }
}

} // verus!
