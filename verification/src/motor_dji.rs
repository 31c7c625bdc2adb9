#![allow(non_camel_case_types)]
//! The integer side of DJI motor handling: which feedback frames a motor
//! takes, how a feedback frame decodes, when the position loop runs, and
//! how motors are placed in a group that shares one command frame.
use vstd::prelude::*;

use crate::can_frame::CanFrame;

verus! {

/// DJI motor models.
#[derive(Clone, Copy, PartialEq, Eq, Debug, Structural)]
pub enum DJI_Motor_Type {
    M3508,
    M2006,
    M6020,
}

/// The quantity a DJI motor is driven by.
#[derive(Clone, Copy, PartialEq, Eq, Debug, Structural)]
pub enum DJI_Control_Mode {
    Current,
    RPM,
    Angle,
    TotalAngle,
}

/// Command frame identifier of M3508/M2006 motors 1 to 4.
pub const SEND_ID_LOW: u32 = 0x200;

/// Command frame identifier of M3508/M2006 motors 5 to 8.
pub const SEND_ID_HIGH: u32 = 0x1FF;

/// Command frame identifier of M6020 motors 1 to 4.
pub const SEND_ID_6020_LOW: u32 = 0x1FE;

/// Command frame identifier of M6020 motors 5 to 7.
pub const SEND_ID_6020_HIGH: u32 = 0x2FE;

/// The base of a model's feedback identifiers: a motor with id `n` reports
/// on base + n, 0x204 + n for the M6020 and 0x200 + n otherwise.
pub open spec fn feedback_base(motor_type: DJI_Motor_Type) -> u32 {
    if motor_type == DJI_Motor_Type::M6020 {
        0x204
    } else {
        0x200
    }
}

/// The highest motor id of a model: 7 for the M6020, 8 otherwise.
pub open spec fn max_motor_id(motor_type: DJI_Motor_Type) -> u32 {
    if motor_type == DJI_Motor_Type::M6020 {
        7
    } else {
        8
    }
}

/// Whether a received frame is the feedback of the motor of the given model
/// and id: a standard frame on the motor's own feedback identifier. A motor
/// whose id lies outside its model's range takes no frame.
pub fn match_frame(motor_type: DJI_Motor_Type, motor_id: u32, in_frame: &CanFrame) -> (r: bool)
    ensures
        r == (!in_frame.is_extended && 1 <= motor_id <= max_motor_id(motor_type) && in_frame.id
            == feedback_base(motor_type) + motor_id),
{
    if in_frame.is_extended {
        return false;
    }
    let (base, max): (u32, u32) = if motor_type == DJI_Motor_Type::M6020 {
        (0x204, 7)
    } else {
        (0x200, 8)
    };
    if motor_id < 1 || motor_id > max {
        false
    } else {
        in_frame.id == base + motor_id
    }
}

/// The raw fields of a DJI feedback frame.
#[derive(Clone, Copy, Debug, PartialEq, Eq, Structural)]
pub struct DjiFeedback {
    /// Rotor position, 0..8191.
    pub encoder_raw: u16,
    /// Rotor speed in rpm.
    pub rpm_raw: i16,
    /// Torque current, in the model's raw unit.
    pub current_raw: i16,
    /// Temperature in degrees Celsius.
    pub temperature_raw: i8,
}

/// The big-endian 16-bit value of two bytes.
pub open spec fn be_u16(hi: u8, lo: u8) -> int {
    hi * 256 + lo
}

/// The two's-complement value of a 16-bit pattern.
pub open spec fn as_signed16(v: int) -> int {
    if v >= 0x8000 {
        v - 0x10000
    } else {
        v
    }
}

/// Decodes the first seven payload bytes of a feedback frame: big-endian
/// position, speed and current, then the temperature byte.
pub fn decode_feedback(in_frame: &CanFrame) -> (fb: DjiFeedback)
    ensures
        fb.encoder_raw == be_u16(in_frame.data@[0], in_frame.data@[1]),
        fb.rpm_raw == as_signed16(be_u16(in_frame.data@[2], in_frame.data@[3])),
        fb.current_raw == as_signed16(be_u16(in_frame.data@[4], in_frame.data@[5])),
        fb.temperature_raw == if in_frame.data@[6] >= 128 {
            in_frame.data@[6] - 256
        } else {
            in_frame.data@[6] as int
        },
{
    let d = &in_frame.data;
    let encoder_raw = be_pair(d[0], d[1]);
    let rpm_raw = signed_pair(d[2], d[3]);
    let current_raw = signed_pair(d[4], d[5]);
    let t = d[6];
    let temperature_raw: i8 = if t >= 128 {
        (t as i16 - 256) as i8
    } else {
        t as i8
    };
    DjiFeedback { encoder_raw, rpm_raw, current_raw, temperature_raw }
}

/// The big-endian 16-bit value of two bytes.
fn be_pair(hi: u8, lo: u8) -> (r: u16)
    ensures
        r == be_u16(hi, lo),
{
    let r = ((hi as u16) << 8) | (lo as u16);
    assert(((hi as u16) << 8) | (lo as u16) == hi * 256 + lo) by (bit_vector);
    r
}

/// The big-endian 16-bit two's-complement value of two bytes.
fn signed_pair(hi: u8, lo: u8) -> (r: i16)
    ensures
        r == as_signed16(be_u16(hi, lo)),
{
    let v = be_pair(hi, lo);
    if v >= 0x8000 {
        (v as i32 - 0x10000) as i16
    } else {
        v as i16
    }
}

/// The step of the position-loop prescaler that runs on every control
/// update: the counter advances (wrapping), and the position loop runs when
/// it reaches a multiple of `1000 / freq` (at least 1), which restarts it.
/// The rate is 100 Hz unless set, and the counter starts at zero.
pub fn pos_loop_tick(pos_ctrlcnt: Option<u16>, pos_ctrl_freq: Option<u16>) -> (r: (Option<u16>, bool))
    requires
        pos_ctrl_freq != Some(0u16),
    ensures
        ({
            let freq = match pos_ctrl_freq {
                Some(f) => f as int,
                None => 100,
            };
            let divider: int = if 1000int / freq > 1 { 1000int / freq } else { 1int };
            let cnt = (match pos_ctrlcnt {
                Some(c) => c as int,
                None => 0,
            } + 1) % 0x10000;
            &&& r.1 == (cnt % divider == 0)
            &&& r.0 == Some((if r.1 { 0 } else { cnt }) as u16)
        }),
{
    let freq: u16 = match pos_ctrl_freq {
        Some(f) => f,
        None => 100,
    };
    let q: u16 = 1000 / freq;
    let divider: u16 = if q > 1 {
        q
    } else {
        1
    };
    let mut cnt: u16 = match pos_ctrlcnt {
        Some(c) => c,
        None => 0,
    };
    cnt = cnt.wrapping_add(1);
    let do_pos = cnt % divider == 0;
    if do_pos {
        cnt = 0;
    }
    (Some(cnt), do_pos)
}

/// The quantity the position loop of a control update runs on, if it runs.
#[derive(Clone, Copy, PartialEq, Eq, Debug, Structural)]
pub enum PositionLoop {
    /// The position loop does not run.
    Idle,
    /// Single-turn angle against the target angle.
    Angle,
    /// Accumulated angle against the target total angle.
    TotalAngle,
}

/// What one control update of a DJI motor does.
#[derive(Clone, Copy, PartialEq, Eq, Debug, Structural)]
pub struct ControlStep {
    /// The position-loop prescaler after the update.
    pub pos_ctrlcnt: Option<u16>,
    /// The position loop that runs first, feeding the target speed.
    pub position: PositionLoop,
    /// Whether the speed loop then runs, feeding the target current.
    pub speed: bool,
}

/// The loops that one control update runs: none, and the prescaler left as
/// it is, without a speed controller; otherwise the prescaler advances as
/// `pos_loop_tick` says, current mode runs no loop, speed mode runs the
/// speed loop, and the angle modes run the speed loop after the position
/// loop when the prescaler lets it run.
pub fn control_step(
    mode: DJI_Control_Mode,
    has_speed_pid: bool,
    pos_ctrlcnt: Option<u16>,
    pos_ctrl_freq: Option<u16>,
) -> (r: Option<ControlStep>)
    requires
        has_speed_pid ==> pos_ctrl_freq != Some(0u16),
    ensures
        !has_speed_pid ==> r is None,
        has_speed_pid ==> ({
            let freq = match pos_ctrl_freq {
                Some(f) => f as int,
                None => 100,
            };
            let divider: int = if 1000int / freq > 1 { 1000int / freq } else { 1int };
            let cnt = (match pos_ctrlcnt {
                Some(c) => c as int,
                None => 0,
            } + 1) % 0x10000;
            let do_pos = cnt % divider == 0;
            r == Some(ControlStep {
                pos_ctrlcnt: Some((if do_pos { 0 } else { cnt }) as u16),
                position: if do_pos && mode == DJI_Control_Mode::Angle {
                    PositionLoop::Angle
                } else if do_pos && mode == DJI_Control_Mode::TotalAngle {
                    PositionLoop::TotalAngle
                } else {
                    PositionLoop::Idle
                },
                speed: mode != DJI_Control_Mode::Current,
            })
        }),
{
    if !has_speed_pid {
        return None;
    }
    let (cnt, do_pos) = pos_loop_tick(pos_ctrlcnt, pos_ctrl_freq);
    let position = match mode {
        DJI_Control_Mode::Angle => if do_pos {
            PositionLoop::Angle
        } else {
            PositionLoop::Idle
        },
        DJI_Control_Mode::TotalAngle => if do_pos {
            PositionLoop::TotalAngle
        } else {
            PositionLoop::Idle
        },
        _ => PositionLoop::Idle,
    };
    let speed = match mode {
        DJI_Control_Mode::Current => false,
        _ => true,
    };
    Some(ControlStep { pos_ctrlcnt: cnt, position, speed })
}

// ---------------------------------------------------------------------------
// Motor groups
// ---------------------------------------------------------------------------

/// Why a motor cannot join a group.
#[derive(Clone, Copy, PartialEq, Eq, Debug, Structural)]
pub enum AddMotorError {
    /// The group already holds four motors.
    GroupFull,
    /// The motor id is not in 1..=8.
    InvalidMotorId,
    /// An M6020 needs a group sending on 0x1FE or 0x2FE.
    M6020WrongGroup,
    /// The 0x1FE group takes M6020 ids 1..=4 only.
    M6020LowIdRange,
    /// The 0x2FE group takes M6020 ids 5..=7 only.
    M6020HighIdRange,
    /// An M3508/M2006 needs a group sending on 0x200 or 0x1FF.
    M3508WrongGroup,
    /// The 0x200 group takes M3508/M2006 ids 1..=4 only.
    M3508LowIdRange,
    /// The 0x1FF group takes M3508/M2006 ids 5..=8 only.
    M3508HighIdRange,
    /// The group holds other models, so it cannot take an M6020.
    M6020AmongOthers,
    /// The group holds M6020 motors, so it cannot take another model.
    OtherAmongM6020,
}

/// The check a motor passes before it joins a group, in the order the
/// conditions are tested.
pub open spec fn add_motor_error_spec(
    base_tx_id: u32,
    motor_count: u8,
    contains_gm6020: bool,
    mid: u32,
    mtype: DJI_Motor_Type,
) -> Option<AddMotorError> {
    if motor_count >= 4 {
        Some(AddMotorError::GroupFull)
    } else if mid < 1 || mid > 8 {
        Some(AddMotorError::InvalidMotorId)
    } else if mtype == DJI_Motor_Type::M6020 && base_tx_id != SEND_ID_6020_LOW && base_tx_id
        != SEND_ID_6020_HIGH {
        Some(AddMotorError::M6020WrongGroup)
    } else if mtype == DJI_Motor_Type::M6020 && base_tx_id == SEND_ID_6020_LOW && !(1 <= mid
        <= 4) {
        Some(AddMotorError::M6020LowIdRange)
    } else if mtype == DJI_Motor_Type::M6020 && base_tx_id == SEND_ID_6020_HIGH && !(5 <= mid
        <= 7) {
        Some(AddMotorError::M6020HighIdRange)
    } else if mtype != DJI_Motor_Type::M6020 && base_tx_id != SEND_ID_LOW && base_tx_id
        != SEND_ID_HIGH {
        Some(AddMotorError::M3508WrongGroup)
    } else if mtype != DJI_Motor_Type::M6020 && base_tx_id == SEND_ID_LOW && !(1 <= mid <= 4) {
        Some(AddMotorError::M3508LowIdRange)
    } else if mtype != DJI_Motor_Type::M6020 && base_tx_id == SEND_ID_HIGH && !(5 <= mid <= 8) {
        Some(AddMotorError::M3508HighIdRange)
    } else if motor_count != 0 && mtype == DJI_Motor_Type::M6020 && !contains_gm6020 {
        Some(AddMotorError::M6020AmongOthers)
    } else if motor_count != 0 && mtype != DJI_Motor_Type::M6020 && contains_gm6020 {
        Some(AddMotorError::OtherAmongM6020)
    } else {
        None
    }
}

/// The slot of a motor in its group: its id less 1 in a low group, less 5
/// in a high group, -1 when the group does not take it.
pub open spec fn calc_slot_spec(base_tx_id: u32, mid: u32, mtype: DJI_Motor_Type) -> int {
    if mtype == DJI_Motor_Type::M6020 {
        if base_tx_id == SEND_ID_6020_LOW && 1 <= mid <= 4 {
            mid - 1
        } else if base_tx_id == SEND_ID_6020_HIGH && 5 <= mid <= 7 {
            mid - 5
        } else {
            -1
        }
    } else {
        if base_tx_id == SEND_ID_LOW && 1 <= mid <= 4 {
            mid - 1
        } else if base_tx_id == SEND_ID_HIGH && 5 <= mid <= 8 {
            mid - 5
        } else {
            -1
        }
    }
}

/// The number of occupied slots.
pub open spec fn occupied(slots: Seq<Option<DJI_Motor_Type>>) -> nat
    decreases slots.len(),
{
    if slots.len() == 0 {
        0
    } else {
        occupied(slots.drop_last()) + if slots.last() is Some {
            1nat
        } else {
            0nat
        }
    }
}

/// What a group holds: the command identifier, the model in each of the four
/// slots, the motor count and whether the group is an M6020 group.
pub struct GroupView {
    pub base_tx_id: u32,
    pub slots: Seq<Option<DJI_Motor_Type>>,
    pub motor_count: u8,
    pub contains_gm6020: bool,
}

/// Up to four DJI motors whose target currents share one command frame.
/// The motors themselves are kept by the caller, at the index of their slot.
pub struct DJI_Group {
    base_tx_id: u32,
    motors: [Option<DJI_Motor_Type>; 4],
    motor_count: u8,
    contains_gm6020: bool,
}

impl View for DJI_Group {
    type V = GroupView;

    closed spec fn view(&self) -> GroupView {
        GroupView {
            base_tx_id: self.base_tx_id,
            slots: self.motors@,
            motor_count: self.motor_count,
            contains_gm6020: self.contains_gm6020,
        }
    }
}

/// A group is consistent: the count is the number of occupied slots, and
/// every motor in it is an M6020 exactly when the group is an M6020 group.
pub open spec fn group_wf(g: GroupView) -> bool {
    &&& g.slots.len() == 4
    &&& g.motor_count == occupied(g.slots)
    &&& forall|i: int|
        0 <= i < 4 && #[trigger] g.slots[i] is Some ==> ((g.slots[i]->0 == DJI_Motor_Type::M6020)
            == g.contains_gm6020)
}

proof fn lemma_occupied_bound(slots: Seq<Option<DJI_Motor_Type>>)
    ensures
        occupied(slots) <= slots.len(),
        occupied(slots) == 0 ==> forall|i: int| 0 <= i < slots.len() ==> #[trigger] slots[i] is None,
    decreases slots.len(),
{
    if slots.len() > 0 {
        let init = slots.drop_last();
        lemma_occupied_bound(init);
        if occupied(slots) == 0 {
            assert forall|i: int| 0 <= i < slots.len() implies #[trigger] slots[i] is None by {
                if i < slots.len() - 1 {
                    assert(slots[i] == init[i]);
                }
            }
        }
    }
}

proof fn lemma_occupied_update(slots: Seq<Option<DJI_Motor_Type>>, k: int, t: DJI_Motor_Type)
    requires
        0 <= k < slots.len(),
        slots[k] is None,
    ensures
        occupied(slots.update(k, Some(t))) == occupied(slots) + 1,
    decreases slots.len(),
{
    let u = slots.update(k, Some(t));
    if k == slots.len() - 1 {
        assert(u.drop_last() =~= slots.drop_last());
    } else {
        lemma_occupied_update(slots.drop_last(), k, t);
        assert(u.drop_last() =~= slots.drop_last().update(k, Some(t)));
    }
}

/// The two bytes of a current in a command frame, high byte first.
pub open spec fn current_bytes(c: i16) -> (u8, u8) {
    let bits = if c < 0 {
        c + 0x10000
    } else {
        c as int
    };
    ((bits / 256) as u8, (bits % 256) as u8)
}

fn split_current(c: i16) -> (r: (u8, u8))
    ensures
        r == current_bytes(c),
{
    let hi = (c >> 8) as u8;
    let lo = c as u8;
    assert(((c >> 8) as u8) as int == (if c < 0 { c + 0x10000 } else { c as int }) / 256) by (
    bit_vector);
    assert((c as u8) as int == (if c < 0 { c + 0x10000 } else { c as int }) % 256) by (bit_vector);
    (hi, lo)
}

/// A current packed into a command frame reads back as the same current
/// when its two bytes are taken as a big-endian signed value.
pub proof fn lemma_current_bytes_roundtrip(c: i16)
    ensures
        as_signed16(be_u16(current_bytes(c).0, current_bytes(c).1)) == c,
{
    let bits = if c < 0 {
        c + 0x10000
    } else {
        c as int
    };
    assert(bits == (bits / 256) * 256 + bits % 256);
}

/// The first motor id of a group's command frame: 1 for the frames on
/// 0x200 and 0x1FE, which carry motors 1 to 4, and 5 for the frames on
/// 0x1FF and 0x2FE, which carry motors 5 onwards.
pub open spec fn first_motor_id(base_tx_id: u32) -> int {
    if base_tx_id == SEND_ID_LOW || base_tx_id == SEND_ID_6020_LOW {
        1
    } else {
        5
    }
}

/// A motor that a group accepts sits in the slot of its position in the
/// group's command frame: motor `n` in slot `n - 1` of a low frame and
/// `n - 5` of a high frame, so its current fills bytes `2 * slot` and
/// `2 * slot + 1`. Two accepted motors with different ids never share a slot.
pub proof fn lemma_slot_is_frame_position(
    base_tx_id: u32,
    motor_count: u8,
    contains_gm6020: bool,
    mid: u32,
    mtype: DJI_Motor_Type,
    other: u32,
)
    requires
        add_motor_error_spec(base_tx_id, motor_count, contains_gm6020, mid, mtype) is None,
    ensures
        calc_slot_spec(base_tx_id, mid, mtype) == mid - first_motor_id(base_tx_id),
        0 <= calc_slot_spec(base_tx_id, mid, mtype) < 4,
        add_motor_error_spec(base_tx_id, motor_count, contains_gm6020, other, mtype) is None
            && other != mid ==> calc_slot_spec(base_tx_id, other, mtype) != calc_slot_spec(
            base_tx_id,
            mid,
            mtype,
        ),
{
}

/// A group is full at four motors and only then: with fewer than four, a
/// motor whose id, model and group agree is accepted; with four or more,
/// every motor is refused as `GroupFull`.
pub proof fn lemma_group_full_at_four(
    base_tx_id: u32,
    motor_count: u8,
    contains_gm6020: bool,
    mid: u32,
    mtype: DJI_Motor_Type,
)
    ensures
        (add_motor_error_spec(base_tx_id, motor_count, contains_gm6020, mid, mtype) == Some(
            AddMotorError::GroupFull,
        )) <==> motor_count >= 4,
        motor_count < 4 && mtype == DJI_Motor_Type::M3508 && (motor_count == 0 || !contains_gm6020)
            && ((base_tx_id == SEND_ID_LOW && 1 <= mid <= 4) || (base_tx_id == SEND_ID_HIGH && 5
            <= mid <= 8)) ==> add_motor_error_spec(
            base_tx_id,
            motor_count,
            contains_gm6020,
            mid,
            mtype,
        ) is None,
        motor_count < 4 && mtype == DJI_Motor_Type::M6020 && (motor_count == 0 || contains_gm6020)
            && ((base_tx_id == SEND_ID_6020_LOW && 1 <= mid <= 4) || (base_tx_id
            == SEND_ID_6020_HIGH && 5 <= mid <= 7)) ==> add_motor_error_spec(
            base_tx_id,
            motor_count,
            contains_gm6020,
            mid,
            mtype,
        ) is None,
{
}

impl DJI_Group {
    /// An empty group that sends on `base_tx_id`.
    pub fn new(base_tx_id: u32) -> (g: Self)
        ensures
            g@.base_tx_id == base_tx_id,
            g@.slots == seq![None::<DJI_Motor_Type>, None, None, None],
            g@.motor_count == 0,
            !g@.contains_gm6020,
            group_wf(g@),
    {
        let g = DJI_Group {
            base_tx_id,
            motors: [None, None, None, None],
            motor_count: 0,
            contains_gm6020: false,
        };
        proof {
            assert(g.motors@ =~= seq![None::<DJI_Motor_Type>, None, None, None]);
            reveal_with_fuel(occupied, 5);
        }
        g
    }

    /// Why the motor cannot join this group, if it cannot.
    pub fn add_motor_error(&self, mid: u32, mtype: DJI_Motor_Type) -> (r: Option<AddMotorError>)
        ensures
            r == add_motor_error_spec(
                self@.base_tx_id,
                self@.motor_count,
                self@.contains_gm6020,
                mid,
                mtype,
            ),
    {
        let base = self.base_tx_id;
        if self.motor_count >= 4 {
            return Some(AddMotorError::GroupFull);
        }
        if mid < 1 || mid > 8 {
            return Some(AddMotorError::InvalidMotorId);
        }
        if mtype == DJI_Motor_Type::M6020 {
            if base != SEND_ID_6020_LOW && base != SEND_ID_6020_HIGH {
                return Some(AddMotorError::M6020WrongGroup);
            } else if base == SEND_ID_6020_LOW && !(mid >= 1 && mid <= 4) {
                return Some(AddMotorError::M6020LowIdRange);
            } else if base == SEND_ID_6020_HIGH && !(mid >= 5 && mid <= 7) {
                return Some(AddMotorError::M6020HighIdRange);
            }
        } else {
            if base != SEND_ID_LOW && base != SEND_ID_HIGH {
                return Some(AddMotorError::M3508WrongGroup);
            } else if base == SEND_ID_LOW && !(mid >= 1 && mid <= 4) {
                return Some(AddMotorError::M3508LowIdRange);
            } else if base == SEND_ID_HIGH && !(mid >= 5 && mid <= 8) {
                return Some(AddMotorError::M3508HighIdRange);
            }
        }
        if self.motor_count != 0 {
            if mtype == DJI_Motor_Type::M6020 && !self.contains_gm6020 {
                return Some(AddMotorError::M6020AmongOthers);
            } else if mtype != DJI_Motor_Type::M6020 && self.contains_gm6020 {
                return Some(AddMotorError::OtherAmongM6020);
            }
        }
        None
    }

    /// The slot of a motor in this group, -1 when the group does not take it.
    pub fn calc_slot(&self, mid: u32, mtype: DJI_Motor_Type) -> (r: isize)
        ensures
            r == calc_slot_spec(self@.base_tx_id, mid, mtype),
    {
        if mtype == DJI_Motor_Type::M6020 {
            if self.base_tx_id == SEND_ID_6020_LOW && 1 <= mid && mid <= 4 {
                (mid - 1) as isize
            } else if self.base_tx_id == SEND_ID_6020_HIGH && 5 <= mid && mid <= 7 {
                (mid - 5) as isize
            } else {
                -1
            }
        } else {
            if self.base_tx_id == SEND_ID_LOW && 1 <= mid && mid <= 4 {
                (mid - 1) as isize
            } else if self.base_tx_id == SEND_ID_HIGH && 5 <= mid && mid <= 8 {
                (mid - 5) as isize
            } else {
                -1
            }
        }
    }

    /// Places a motor that passes the group's checks in its slot; fails,
    /// leaving the slots as they were, when the slot is taken.
    pub fn add_motor(&mut self, mid: u32, mtype: DJI_Motor_Type) -> (ok: bool)
        requires
            group_wf(old(self)@),
            add_motor_error_spec(
                old(self)@.base_tx_id,
                old(self)@.motor_count,
                old(self)@.contains_gm6020,
                mid,
                mtype,
            ) is None,
        ensures
            group_wf(final(self)@),
            final(self)@.base_tx_id == old(self)@.base_tx_id,
            final(self)@.contains_gm6020 == if old(self)@.motor_count == 0 {
                mtype == DJI_Motor_Type::M6020
            } else {
                old(self)@.contains_gm6020
            },
            ({
                let k = calc_slot_spec(old(self)@.base_tx_id, mid, mtype);
                &&& 0 <= k < 4
                &&& ok == (old(self)@.slots[k] is None)
                &&& ok ==> final(self)@.slots == old(self)@.slots.update(k, Some(mtype))
                    && final(self)@.motor_count == old(self)@.motor_count + 1
                &&& !ok ==> final(self)@.slots == old(self)@.slots && final(self)@.motor_count
                    == old(self)@.motor_count
            }),
    {
        proof {
            lemma_occupied_bound(self.motors@);
        }
        if self.motor_count == 0 {
            self.contains_gm6020 = mtype == DJI_Motor_Type::M6020;
        }
        let slot = self.calc_slot(mid, mtype);
        if slot < 0 || slot >= 4 {
            return false;
        }
        let k = slot as usize;
        if self.motors[k].is_some() {
            return false;
        }
        proof {
            lemma_occupied_update(self.motors@, k as int, mtype);
        }
        self.motors[k] = Some(mtype);
        self.motor_count = self.motor_count.wrapping_add(1);
        true
    }

    /// Packs the raw target currents of the occupied slots into the first
    /// frame, high byte first, two bytes per slot: one frame on `base_tx_id`
    /// with eight bytes, unoccupied slots left zero. Nothing is packed when
    /// there is no room or no motor.
    pub fn pack_command(&self, raw_currents: &[i16; 4], out_frames: &mut [CanFrame]) -> (n: usize)
        requires
            group_wf(self@),
        ensures
            old(out_frames)@.len() == 0 || self@.motor_count == 0 ==> n == 0
                && final(out_frames)@ == old(out_frames)@,
            !(old(out_frames)@.len() == 0 || self@.motor_count == 0) ==> {
                let f = final(out_frames)@[0];
                &&& n == 1
                &&& final(out_frames)@ == old(out_frames)@.update(0, f)
                &&& f.id == self@.base_tx_id
                &&& !f.is_extended
                &&& f.dlc == 8
                &&& forall|i: int|
                    0 <= i < 4 ==> {
                        let b = if self@.slots[i] is Some {
                            current_bytes(raw_currents@[i])
                        } else {
                            (0u8, 0u8)
                        };
                        &&& #[trigger] f.data@[2 * i] == b.0
                        &&& f.data@[2 * i + 1] == b.1
                    }
            },
    {
        if out_frames.len() == 0 || self.motor_count == 0 {
            return 0;
        }
        let mut frame = CanFrame::new(self.base_tx_id, false);
        frame.dlc = 8;
        let mut i: usize = 0;
        while i < 4
            invariant
                i <= 4,
                self.motors@.len() == 4,
                frame.id == self@.base_tx_id,
                !frame.is_extended,
                frame.dlc == 8,
                frame.data@.len() == 8,
                forall|j: int| 2 * i <= j < 8 ==> #[trigger] frame.data@[j] == 0,
                forall|j: int|
                    0 <= j < i ==> {
                        let b = if self@.slots[j] is Some {
                            current_bytes(raw_currents@[j])
                        } else {
                            (0u8, 0u8)
                        };
                        &&& #[trigger] frame.data@[2 * j] == b.0
                        &&& frame.data@[2 * j + 1] == b.1
                    },
            decreases 4 - i,
        {
            let ghost prev = frame.data@;
            if self.motors[i].is_some() {
                let (hi, lo) = split_current(raw_currents[i]);
                frame.data[2 * i] = hi;
                frame.data[2 * i + 1] = lo;
            }
            proof {
                assert forall|j: int| 0 <= j < i implies #[trigger] frame.data@[2 * j] == prev[2 * j]
                    && frame.data@[2 * j + 1] == prev[2 * j + 1] by {}
            }
            i = i + 1;
        }
        out_frames[0] = frame;
        1
    }
}

} // verus!
