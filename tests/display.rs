use nits_viewer::column::{BinaryDisplayStyle, ColumnProperty, DecodeType};
use nits_viewer::filter::{CheckboxState, FilterUiMap};
use nits_viewer::nits::{NitsCommand, NitsCommandType, NitsRelativeCarCount, NitsSender};
use nits_viewer::settings::Settings;
use nits_viewer::text::i32_text;
use nits_viewer::timeline::{get_timeline_rows, TimelineRow};
use nits_viewer::values::Values;

fn one_tick(v: &mut Values, with_self: bool) {
    let mut b = vec![("NITS N32".to_string(), vec![0x0100_0000u32])];
    if with_self {
        b.push(("NITS N16".to_string(), vec![0x0500_0001]));
    }
    v.add_data(b);
}

#[test]
fn filter_map_set_get_and_defaults() {
    let mut f: FilterUiMap<NitsSender> = FilterUiMap::new();
    assert_eq!(f.get_all(), CheckboxState::Checked);
    assert_eq!(f.get(&NitsSender::CommonLine), None);
    f.set_default(NitsSender::CommonLine, true);
    f.set_default(NitsSender::CommonLine, false);
    assert_eq!(f.get(&NitsSender::CommonLine), Some(true));
    f.set(NitsSender::Command(NitsRelativeCarCount::new(1)), false);
    assert_eq!(f.get(&NitsSender::Command(NitsRelativeCarCount::new(1))), Some(false));
    assert_eq!(f.get_all(), CheckboxState::Indeterminate);
    f.set_all(false);
    assert_eq!(f.get_all(), CheckboxState::Unchecked);
    assert_eq!(f.get(&NitsSender::CommonLine), Some(false));
    f.set(NitsSender::CommonLine, true);
    assert_eq!(f.get(&NitsSender::CommonLine), Some(true));
    let mut t: FilterUiMap<NitsCommandType> = FilterUiMap::new();
    t.set(NitsCommandType(3), false);
    assert_eq!(t.get(&NitsCommandType(3)), Some(false));
    t.set_default(NitsCommandType(4), true);
    assert_eq!(t.get(&NitsCommandType(4)), Some(true));
}

#[test]
fn timeline_rows_without_filters() {
    let mut v = Values::new(&Settings { retention_period: 10, keep_values: false });
    one_tick(&mut v, true);
    one_tick(&mut v, false);
    let rows = get_timeline_rows(v.get_nits_timeline(), &FilterUiMap::new(), &FilterUiMap::new());
    let me = NitsSender::Command(NitsRelativeCarCount::new(0));
    assert_eq!(
        rows,
        vec![
            TimelineRow::Command(me, NitsCommand::new(0x0500_0001)),
            TimelineRow::Command(NitsSender::CommonLine, NitsCommand::new(0x0100_0000)),
            TimelineRow::Separator,
            TimelineRow::Command(NitsSender::CommonLine, NitsCommand::new(0x0100_0000)),
        ]
    );
}

#[test]
fn timeline_rows_fold_hidden_ticks_into_blank_runs() {
    let mut v = Values::new(&Settings { retention_period: 10, keep_values: false });
    one_tick(&mut v, true);
    one_tick(&mut v, false);
    one_tick(&mut v, false);
    one_tick(&mut v, true);
    one_tick(&mut v, false);
    one_tick(&mut v, false);
    let mut types: FilterUiMap<NitsCommandType> = FilterUiMap::new();
    types.set(NitsCommandType(0x01), false);
    let rows = get_timeline_rows(v.get_nits_timeline(), &FilterUiMap::new(), &types);
    let me = TimelineRow::Command(
        NitsSender::Command(NitsRelativeCarCount::new(0)),
        NitsCommand::new(0x0500_0001),
    );
    assert_eq!(
        rows,
        vec![
            me,
            TimelineRow::Separator,
            TimelineRow::Blank(2),
            TimelineRow::Separator,
            me,
            TimelineRow::Separator,
            TimelineRow::Blank(2),
        ]
    );
}

#[test]
fn column_titles_and_widths() {
    let mut c = ColumnProperty::default();
    assert_eq!(c.decode_type, DecodeType::Float32);
    assert_eq!(c.display_style, BinaryDisplayStyle::Hex);
    assert!(c.title.is_none());
    c.key = "speed".to_string();
    assert_eq!(c.get_title(" "), "speed 32bit Hex");
    assert_eq!(c.get_width(), 8);
    c.decode_type = DecodeType::Int24;
    c.display_style = BinaryDisplayStyle::Bin;
    assert_eq!(c.get_width(), 24);
    c.added();
    assert_eq!(c.title.as_deref(), Some("speed\n24bit Bin"));
    assert_eq!(c.width, Some(24));
    c.decode_type = DecodeType::RealNumber;
    assert_eq!(c.get_title(","), "speed,Real Number");
    assert_eq!(c.get_width(), 10);
    assert_eq!(DecodeType::Int24.label(), "24bit (integer)");
    assert_eq!(BinaryDisplayStyle::Oct.label(), "Oct");
}

#[test]
fn binary_readings_match_padded_radix_text() {
    let mut c = ColumnProperty::default();
    for bits in [0u32, 7, 0x3fc0_0000, 0xdead_beef, u32::MAX] {
        c.decode_type = DecodeType::Float32;
        c.display_style = BinaryDisplayStyle::Hex;
        assert_eq!(c.format_bits(bits), format!("{:08x}", bits));
        c.display_style = BinaryDisplayStyle::Dec;
        assert_eq!(c.format_bits(bits), format!("{:10}", bits));
        c.display_style = BinaryDisplayStyle::Oct;
        assert_eq!(c.format_bits(bits), format!("{:011o}", bits));
        c.display_style = BinaryDisplayStyle::Bin;
        assert_eq!(c.format_bits(bits), format!("{:032b}", bits));
        c.decode_type = DecodeType::Int24;
        c.display_style = BinaryDisplayStyle::Hex;
        assert_eq!(c.format_bits(bits), format!("{:06x}", bits));
        c.display_style = BinaryDisplayStyle::Dec;
        assert_eq!(c.format_bits(bits), format!("{:8}", bits));
        c.display_style = BinaryDisplayStyle::Oct;
        assert_eq!(c.format_bits(bits), format!("{:08o}", bits));
        c.display_style = BinaryDisplayStyle::Bin;
        assert_eq!(c.format_bits(bits), format!("{:024b}", bits));
    }
}

#[test]
fn decimal_text_of_integers() {
    assert_eq!(i32_text(0), "0");
    assert_eq!(i32_text(42), "42");
    assert_eq!(i32_text(-7), "-7");
    assert_eq!(i32_text(i32::MAX), "2147483647");
    assert_eq!(i32_text(i32::MIN), "-2147483648");
}
