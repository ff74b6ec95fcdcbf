use nits_viewer::nits::{
    decode_tick, NitsCommand, NitsCommandType, NitsRelativeCarCount, NitsSender, NitsTick,
};
use nits_viewer::range_check::{check, range_check, RangeBound};

#[test]
fn range_check_accepts_values_inside() {
    assert!(check(5, RangeBound::Included(0), RangeBound::Included(15)));
    assert!(check(0, RangeBound::Included(0), RangeBound::Excluded(16)));
    assert!(!check(16, RangeBound::Included(0), RangeBound::Excluded(16)));
    assert!(!check(0, RangeBound::Excluded(0), RangeBound::Unbounded));
    assert!(check(i32::MIN, RangeBound::Unbounded, RangeBound::Unbounded));
    assert!(range_check(15, "x", RangeBound::Included(-15), RangeBound::Included(15)).is_ok());
}

#[test]
fn range_check_reports_value_name_and_bounds() {
    let e = range_check(16, "x", RangeBound::Included(-15), RangeBound::Included(15)).unwrap_err();
    assert_eq!(e.value, 16);
    assert_eq!(e.name, "x");
    assert_eq!(e.start, RangeBound::Included(-15));
    assert_eq!(e.end, RangeBound::Included(15));
    assert_eq!(e.message(), "Value x=16 is out of range: expected -15<= x <=15");
}

#[test]
fn range_message_with_open_and_missing_bounds() {
    let e = range_check(20, "n", RangeBound::Excluded(0), RangeBound::Excluded(16)).unwrap_err();
    assert_eq!(e.message(), "Value n=20 is out of range: expected 0< n <16");
    let e = range_check(-3, "n", RangeBound::Unbounded, RangeBound::Excluded(-5)).unwrap_err();
    assert_eq!(e.message(), "Value n=-3 is out of range: expected  n <-5");
}

#[test]
fn self_is_always_slot_sixteen() {
    for f in 0..=15u32 {
        for b in 0..=15u32 {
            assert_eq!(NitsRelativeCarCount::new(0).get_channel_number(f, b).unwrap(), 16);
        }
    }
}

#[test]
fn neighbours_follow_the_formula() {
    for f in 0..=15u32 {
        for b in 0..=15u32 {
            assert_eq!(NitsRelativeCarCount::new(-1).get_channel_number(f, b).unwrap(), f);
            assert_eq!(NitsRelativeCarCount::new(1).get_channel_number(f, b).unwrap(), 31 + 1 - b);
        }
    }
    assert_eq!(NitsRelativeCarCount::new(-2).get_channel_number(2, 1).unwrap(), 1);
    assert_eq!(NitsRelativeCarCount::new(-1).get_channel_number(2, 1).unwrap(), 2);
    assert_eq!(NitsRelativeCarCount::new(1).get_channel_number(2, 1).unwrap(), 31);
    assert_eq!(NitsRelativeCarCount::new(15).get_channel_number(0, 0).unwrap(), 46);
}

#[test]
fn out_of_range_positions_are_rejected() {
    let e = NitsRelativeCarCount::new(16).get_channel_number(3, 3).unwrap_err();
    assert_eq!(e.value, 16);
    assert_eq!(e.name, "NitsRelativeCarCount");
    let e = NitsRelativeCarCount::new(-16).get_channel_number(3, 3).unwrap_err();
    assert_eq!(e.value, -16);
}

#[test]
fn out_of_range_counts_are_rejected_each_on_its_own() {
    let e = NitsRelativeCarCount::new(1).get_channel_number(16, 0).unwrap_err();
    assert_eq!(e.name, "car_count_front");
    assert_eq!(e.value, 16);
    let e = NitsRelativeCarCount::new(1).get_channel_number(0, 16).unwrap_err();
    assert_eq!(e.name, "car_count_back");
    assert_eq!(e.value, 16);
    let e = NitsRelativeCarCount::new(1).get_channel_number(u32::MAX, 0).unwrap_err();
    assert_eq!(e.value, -1);
}

#[test]
fn slots_below_zero_are_rejected() {
    assert_eq!(NitsRelativeCarCount::new(-1).get_channel_number(0, 0).unwrap(), 0);
    let e = NitsRelativeCarCount::new(-2).get_channel_number(0, 0).unwrap_err();
    assert_eq!(e.name, "NitsRelativeCarCount");
    assert_eq!(e.value, -2);
}

#[test]
fn command_fields() {
    let c = NitsCommand::new(0xAB12_3456);
    assert_eq!(c.get_command_type(), 0xAB);
    assert_eq!(c.command_type(), NitsCommandType(0xAB));
    assert_eq!(c.get_payload(), 0x12_3456);
    assert_eq!(c.payload(), 0x12_3456);
    assert_eq!(c.value(), 0xAB12_3456);
    let cl = NitsCommand::new(0x0100_0022);
    assert_eq!(cl.car_counts(), (2, 1));
    assert_eq!(NitsCommand::new(0x0000_01EF).car_counts(), (15, 15));
}

#[test]
fn labels() {
    assert_eq!(NitsRelativeCarCount::new(-3).label(), "3 Front");
    assert_eq!(NitsRelativeCarCount::new(12).label(), "12 Back");
    assert_eq!(NitsRelativeCarCount::new(0).label(), "Self");
    assert_eq!(NitsRelativeCarCount::new(i32::MIN).label(), "2147483648 Front");
    assert_eq!(NitsCommandType(0x0A).label(), "0x0a");
    assert_eq!(NitsCommandType(0xF3).label(), "0xf3");
    assert_eq!(NitsSender::CommonLine.label(), "Common Line");
    assert_eq!(NitsSender::Command(NitsRelativeCarCount::new(2)).label(), "2 Back");
}

#[test]
fn decoded_tick_maps_positions_to_slots() {
    // front count 2 (low four bits), back count 1 (bits 5 to 8)
    let commonline = NitsCommand::new(0x0100_0022);
    let mut row: Vec<Option<u32>> = vec![None; 32];
    row[1] = Some(0x1000_0001);
    row[2] = Some(0x2000_0002);
    row[16] = Some(0x3000_0016);
    row[31] = Some(0x4000_0031);
    row[15] = Some(0x5000_0015);
    row[17] = Some(0x6000_0017);
    let tick = decode_tick(commonline, &row);
    assert_eq!(*tick.commonline(), commonline);
    let expected = vec![
        (NitsRelativeCarCount::new(-2), NitsCommand::new(0x1000_0001)),
        (NitsRelativeCarCount::new(-1), NitsCommand::new(0x2000_0002)),
        (NitsRelativeCarCount::new(0), NitsCommand::new(0x3000_0016)),
        (NitsRelativeCarCount::new(1), NitsCommand::new(0x4000_0031)),
    ];
    assert_eq!(*tick.commands(), expected);
}

#[test]
fn decoded_tick_skips_missing_channels() {
    let commonline = NitsCommand::new(0x0100_0022);
    let mut row: Vec<Option<u32>> = vec![None; 32];
    row[16] = Some(7);
    let tick = decode_tick(commonline, &row);
    assert_eq!(*tick.get_commands(), vec![(NitsRelativeCarCount::new(0), NitsCommand::new(7))]);
    let short: Vec<Option<u32>> = vec![Some(1), Some(2)];
    let tick = decode_tick(commonline, &short);
    assert_eq!(tick.get_commands().len(), 1);
    assert_eq!(*tick.get_commonline(), commonline);
}

#[test]
fn tick_add_command_keeps_order_and_replaces() {
    let mut t = NitsTick::new(NitsCommand::new(1));
    t.add_command(NitsRelativeCarCount::new(3), NitsCommand::new(30));
    t.add_command(NitsRelativeCarCount::new(-2), NitsCommand::new(20));
    t.add_command(NitsRelativeCarCount::new(0), NitsCommand::new(10));
    t.add_command(NitsRelativeCarCount::new(3), NitsCommand::new(31));
    assert_eq!(
        *t.commands(),
        vec![
            (NitsRelativeCarCount::new(-2), NitsCommand::new(20)),
            (NitsRelativeCarCount::new(0), NitsCommand::new(10)),
            (NitsRelativeCarCount::new(3), NitsCommand::new(31)),
        ]
    );
}
