use gdut_r1_by_rust::bus::{
    advance_deadline, control_divider, pack_due, update_due, MotorTable, PackAction, TxPlan,
};
use gdut_r1_by_rust::can_frame::{to_canframe, CanFrame};
use gdut_r1_by_rust::motor_base::ControlTiming;
use gdut_r1_by_rust::motor_dji::{
    control_step, decode_feedback, match_frame, pos_loop_tick, ControlStep, DJI_Control_Mode, PositionLoop, AddMotorError, DJI_Group, DJI_Motor_Type,
    SEND_ID_6020_HIGH, SEND_ID_6020_LOW, SEND_ID_HIGH, SEND_ID_LOW,
};
use gdut_r1_by_rust::tool::Constrain;

#[test]
fn new_frame_is_eight_zero_bytes() {
    let f = CanFrame::new(0x200, false);
    assert_eq!(f.id, 0x200);
    assert!(!f.is_extended);
    assert_eq!(f.dlc, 8);
    assert_eq!(f.data, [0u8; 8]);
}

#[test]
fn received_payload_is_copied_and_cut_at_eight() {
    let f = to_canframe(0x201, false, &[1, 2, 3]);
    assert_eq!((f.id, f.dlc, f.is_extended), (0x201, 3, false));
    assert_eq!(f.data, [1, 2, 3, 0, 0, 0, 0, 0]);
    let f = to_canframe(0x1234567, true, &[9; 12]);
    assert_eq!((f.id, f.dlc, f.is_extended), (0x1234567, 8, true));
    assert_eq!(f.data, [9; 8]);
}

#[test]
fn feedback_matches_the_motors_own_id() {
    let f = |id, ext| to_canframe(id, ext, &[0; 8]);
    assert!(match_frame(DJI_Motor_Type::M3508, 1, &f(0x201, false)));
    assert!(match_frame(DJI_Motor_Type::M2006, 1, &f(0x201, false)));
    assert!(match_frame(DJI_Motor_Type::M3508, 2, &f(0x202, false)));
    assert!(!match_frame(DJI_Motor_Type::M3508, 2, &f(0x201, false)));
    assert!(match_frame(DJI_Motor_Type::M3508, 8, &f(0x208, false)));
    assert!(!match_frame(DJI_Motor_Type::M3508, 1, &f(0x201, true)));
    assert!(!match_frame(DJI_Motor_Type::M3508, 0, &f(0x200, false)));
    assert!(!match_frame(DJI_Motor_Type::M3508, 9, &f(0x209, false)));
    assert!(match_frame(DJI_Motor_Type::M6020, 1, &f(0x205, false)));
    assert!(match_frame(DJI_Motor_Type::M6020, 3, &f(0x207, false)));
    assert!(!match_frame(DJI_Motor_Type::M6020, 1, &f(0x201, false)));
    assert!(!match_frame(DJI_Motor_Type::M6020, 8, &f(0x20C, false)));
}

#[test]
fn feedback_decodes_big_endian_fields() {
    let f = to_canframe(0x201, false, &[0x1F, 0xFF, 0xFF, 0x9C, 0x01, 0x00, 0xF6, 0x00]);
    let fb = decode_feedback(&f);
    assert_eq!(fb.encoder_raw, 8191);
    assert_eq!(fb.rpm_raw, -100);
    assert_eq!(fb.current_raw, 256);
    assert_eq!(fb.temperature_raw, -10);
}

#[test]
fn position_loop_runs_every_tenth_update_by_default() {
    let mut cnt = None;
    let mut runs = 0;
    for step in 1..=25 {
        let (c, run) = pos_loop_tick(cnt, None);
        cnt = c;
        if run {
            runs += 1;
            assert_eq!(c, Some(0));
            assert_eq!(step % 10, 0);
        }
    }
    assert_eq!(runs, 2);
    assert_eq!(pos_loop_tick(Some(3), Some(1000)), (Some(0), true));
    assert_eq!(pos_loop_tick(Some(3), Some(2000)), (Some(0), true));
    assert_eq!(pos_loop_tick(Some(u16::MAX), Some(300)), (Some(0), true));
    assert_eq!(pos_loop_tick(Some(1), Some(300)), (Some(2), false));
}

#[test]
fn group_places_motors_by_id() {
    let mut g = DJI_Group::new(SEND_ID_LOW);
    assert_eq!(g.add_motor_error(1, DJI_Motor_Type::M3508), None);
    assert!(g.add_motor(1, DJI_Motor_Type::M3508));
    assert!(g.add_motor(3, DJI_Motor_Type::M2006));
    assert_eq!(g.add_motor_error(3, DJI_Motor_Type::M3508), None);
    assert!(!g.add_motor(3, DJI_Motor_Type::M3508));
    let mut high = DJI_Group::new(SEND_ID_HIGH);
    assert!(high.add_motor(8, DJI_Motor_Type::M3508));
    let mut gm = DJI_Group::new(SEND_ID_6020_HIGH);
    assert!(gm.add_motor(7, DJI_Motor_Type::M6020));
}

#[test]
fn group_refuses_what_would_panic() {
    let mut g = DJI_Group::new(SEND_ID_LOW);
    assert_eq!(g.add_motor_error(0, DJI_Motor_Type::M3508), Some(AddMotorError::InvalidMotorId));
    assert_eq!(g.add_motor_error(9, DJI_Motor_Type::M3508), Some(AddMotorError::InvalidMotorId));
    assert_eq!(g.add_motor_error(5, DJI_Motor_Type::M3508), Some(AddMotorError::M3508LowIdRange));
    assert_eq!(g.add_motor_error(1, DJI_Motor_Type::M6020), Some(AddMotorError::M6020WrongGroup));
    let h = DJI_Group::new(SEND_ID_HIGH);
    assert_eq!(h.add_motor_error(4, DJI_Motor_Type::M2006), Some(AddMotorError::M3508HighIdRange));
    let w = DJI_Group::new(0x300);
    assert_eq!(w.add_motor_error(1, DJI_Motor_Type::M3508), Some(AddMotorError::M3508WrongGroup));
    let l6 = DJI_Group::new(SEND_ID_6020_LOW);
    assert_eq!(l6.add_motor_error(5, DJI_Motor_Type::M6020), Some(AddMotorError::M6020LowIdRange));
    assert_eq!(l6.add_motor_error(1, DJI_Motor_Type::M3508), Some(AddMotorError::M3508WrongGroup));
    let h6 = DJI_Group::new(SEND_ID_6020_HIGH);
    assert_eq!(h6.add_motor_error(8, DJI_Motor_Type::M6020), Some(AddMotorError::M6020HighIdRange));
    for id in 1..=4 {
        assert!(g.add_motor(id, DJI_Motor_Type::M3508));
    }
    assert_eq!(g.add_motor_error(2, DJI_Motor_Type::M3508), Some(AddMotorError::GroupFull));
}

#[test]
fn group_packs_currents_high_byte_first() {
    let mut g = DJI_Group::new(SEND_ID_LOW);
    g.add_motor(1, DJI_Motor_Type::M3508);
    g.add_motor(3, DJI_Motor_Type::M3508);
    let mut frames = vec![CanFrame::new(0, true); 2];
    let n = g.pack_command(&[819, 7, -2, 9], &mut frames);
    assert_eq!(n, 1);
    assert_eq!(frames[0].id, 0x200);
    assert!(!frames[0].is_extended);
    assert_eq!(frames[0].dlc, 8);
    assert_eq!(frames[0].data, [0x03, 0x33, 0, 0, 0xFF, 0xFE, 0, 0]);
    assert_eq!(frames[1].id, 0);
    let fb = decode_feedback(&frames[0]);
    assert_eq!(fb.rpm_raw, 0);
    assert_eq!(fb.encoder_raw, 819);
    let empty = DJI_Group::new(SEND_ID_LOW);
    assert_eq!(empty.pack_command(&[1, 1, 1, 1], &mut frames), 0);
    let mut none: Vec<CanFrame> = Vec::new();
    assert_eq!(g.pack_command(&[1, 1, 1, 1], &mut none), 0);
}

#[test]
fn divider_and_due_decisions() {
    assert_eq!(control_divider(0), 1);
    assert_eq!(control_divider(1000), 1);
    assert_eq!(control_divider(2000), 1);
    assert_eq!(control_divider(100), 10);
    assert_eq!(control_divider(300), 3);
    assert!(update_due(9, 100));
    assert!(!update_due(8, 100));
    assert!(update_due(0, 1000));
    assert!(!update_due(u16::MAX, 100));
    assert!(pack_due(0, 1000));
    assert!(!pack_due(0, 500));
    assert!(pack_due(1, 500));
}

#[test]
fn tx_plan_caps_frames() {
    let mut p = TxPlan::new();
    assert_eq!(p.next_action(0, 1000), PackAction::Pack);
    assert_eq!(p.next_action(0, 100), PackAction::Skip);
    p.record_packed(30);
    assert_eq!(p.frame_count(), 30);
    p.record_packed(5);
    assert_eq!(p.frame_count(), 32);
    assert_eq!(p.next_action(0, 1000), PackAction::Stop);
}

#[test]
fn deadline_skips_missed_ticks() {
    assert_eq!(advance_deadline(100, 50, 10), 110);
    assert_eq!(advance_deadline(100, 110, 10), 110);
    assert_eq!(advance_deadline(100, 111, 10), 120);
    assert_eq!(advance_deadline(100, 155, 10), 160);
}

#[test]
fn motor_table_registers_and_finds() {
    let mut t = MotorTable::new();
    assert_eq!(t.register_motor(1), Some(0));
    assert_eq!(t.register_motor(u32::MAX), Some(1));
    assert_eq!(t.register_motor(1), Some(2));
    assert_eq!(t.find_motor(1), Some(0));
    assert_eq!(t.find_motor(u32::MAX), Some(1));
    assert_eq!(t.find_motor(7), None);
    for i in 3..10 {
        assert_eq!(t.register_motor(100 + i), Some(i as usize));
    }
    assert_eq!(t.register_motor(5), None);
    assert_eq!(t.find_motor(5), None);
}

#[test]
fn control_frequency_falls_back_to_1000() {
    let mut c = ControlTiming::new();
    assert_eq!(c.control_frequency(), 1000);
    c.reset_control_frequency(200);
    assert_eq!(c.control_frequency(), 200);
    c.reset_control_frequency(250);
    assert_eq!(c.control_frequency(), 1000);
    c.reset_control_frequency(0);
    assert_eq!(c.control_frequency(), 1000);
    c.reset_control_frequency(1100);
    assert_eq!(c.control_frequency(), 1000);
    c.inc_control_cnt();
    c.inc_control_cnt();
    assert_eq!(c.control_cnt, 2);
    c.reset_control_cnt();
    assert_eq!(c.control_cnt, 0);
}

#[test]
fn constrain_clamps() {
    assert_eq!(5i32.constrain(0, 3), 3);
    assert_eq!((-5i32).constrain(0, 3), 0);
    assert_eq!(2i32.constrain(0, 3), 2);
    assert_eq!(200u8.constrain(10, 100), 100);
    assert_eq!(7usize.constrain(1, 10), 7);
    assert_eq!((-9i64).constrain(-8, 8), -8);
    assert_eq!(4u16.constrain(5, 1), 5);
}

#[test]
fn control_update_runs_the_loops_of_its_mode() {
    assert_eq!(control_step(DJI_Control_Mode::RPM, false, Some(4), Some(0)), None);
    assert_eq!(
        control_step(DJI_Control_Mode::Current, true, None, None),
        Some(ControlStep { pos_ctrlcnt: Some(1), position: PositionLoop::Idle, speed: false })
    );
    assert_eq!(
        control_step(DJI_Control_Mode::RPM, true, Some(9), None),
        Some(ControlStep { pos_ctrlcnt: Some(0), position: PositionLoop::Idle, speed: true })
    );
    assert_eq!(
        control_step(DJI_Control_Mode::Angle, true, Some(9), None),
        Some(ControlStep { pos_ctrlcnt: Some(0), position: PositionLoop::Angle, speed: true })
    );
    assert_eq!(
        control_step(DJI_Control_Mode::Angle, true, Some(3), None),
        Some(ControlStep { pos_ctrlcnt: Some(4), position: PositionLoop::Idle, speed: true })
    );
    assert_eq!(
        control_step(DJI_Control_Mode::TotalAngle, true, Some(4), Some(200)),
        Some(ControlStep { pos_ctrlcnt: Some(0), position: PositionLoop::TotalAngle, speed: true })
    );
}
