use nits_viewer::csv::{join_cells, split_cells};
use nits_viewer::nits::{NitsCommand, NitsRelativeCarCount};
use nits_viewer::queue::QueueMaxLen;
use nits_viewer::settings::Settings;
use nits_viewer::batch::{nits_channel_name, nits_index};
use nits_viewer::values::Values;

fn settings(n: u32) -> Settings {
    Settings { retention_period: n, keep_values: false }
}

fn batch(entries: &[(&str, Vec<u32>)]) -> Vec<(String, Vec<u32>)> {
    entries.iter().map(|(k, v)| (k.to_string(), v.clone())).collect()
}

fn series(v: &Values, key: &str) -> Vec<u32> {
    v.values_for_key(key).unwrap().iter().copied().collect()
}

#[test]
fn queue_keeps_the_last_pushed() {
    let mut q: QueueMaxLen<u32> = QueueMaxLen::with_capacity(3);
    for i in 1..=5 {
        q.push(i);
        assert!(q.len() <= 3);
    }
    assert_eq!(q.vec().iter().copied().collect::<Vec<_>>(), vec![3, 4, 5]);
    assert_eq!(q.back(), Some(&5));
    q.extend(vec![6, 7]);
    assert_eq!(q.iter().copied().collect::<Vec<_>>(), vec![5, 6, 7]);
    q.extend(vec![8, 9, 10, 11, 12]);
    assert_eq!(q.iter().copied().collect::<Vec<_>>(), vec![10, 11, 12]);
    assert_eq!(q.get(0), Some(&10));
    assert_eq!(q.get(3), None);
}

#[test]
fn queue_of_capacity_zero_stays_empty() {
    let mut q: QueueMaxLen<u32> = QueueMaxLen::new();
    q.push(1);
    q.extend(vec![2, 3]);
    assert_eq!(q.len(), 0);
    assert_eq!(q.back(), None);
    assert_eq!(q.max_len(), 0);
}

#[test]
fn queue_resize_drops_oldest() {
    let mut q: QueueMaxLen<u32> = QueueMaxLen::with_capacity(5);
    q.extend(vec![1, 2, 3, 4, 5]);
    q.set_max_len(2);
    assert_eq!(q.iter().copied().collect::<Vec<_>>(), vec![4, 5]);
    q.set_max_len(4);
    assert_eq!(q.len(), 2);
    q.extend(vec![6, 7]);
    assert_eq!(q.iter().copied().collect::<Vec<_>>(), vec![4, 5, 6, 7]);
}

#[test]
fn retention_three_keeps_last_three_samples() {
    let mut v = Values::new(&settings(10));
    v.set_max_len(3);
    for i in 1..=5u32 {
        v.add_data(batch(&[("speed", vec![i])]));
    }
    assert_eq!(series(&v, "speed"), vec![3, 4, 5]);
    assert_eq!(v.get_last_value_for_key("speed"), Some(5));
    assert_eq!(v.max_len(), 3);
}

#[test]
fn ordinary_channels_are_created_and_extended() {
    let mut v = Values::new(&settings(4));
    v.add_data(batch(&[("a", vec![1, 2]), ("b", vec![9])]));
    v.add_data(batch(&[("a", vec![3, 4, 5])]));
    assert_eq!(series(&v, "a"), vec![2, 3, 4, 5]);
    assert_eq!(series(&v, "b"), vec![9]);
    assert!(v.contains_key("a"));
    assert!(!v.contains_key("c"));
    assert_eq!(v.keys(), vec!["a".to_string(), "b".to_string()]);
    assert!(v.values_for_key("c").is_none());
    assert!(v.iter_for_key("c").is_none());
    assert_eq!(v.iter_for_key("b").unwrap().count(), 1);
    assert_eq!(v.get_last_value_for_key("c"), None);
}

#[test]
fn empty_batch_changes_nothing() {
    let mut v = Values::new(&settings(4));
    v.add_data(batch(&[("a", vec![1]), ("NITS N32", vec![0x0100_0000]), ("NITS N16", vec![0x0200_0000])]));
    let keys = v.keys();
    let a = series(&v, "a");
    let ticks = v.get_nits_timeline().len();
    let senders = v.get_nits_senders();
    let types = v.get_nits_command_types();
    v.add_data(Vec::new());
    assert_eq!(v.keys(), keys);
    assert_eq!(series(&v, "a"), a);
    assert_eq!(v.get_nits_timeline().len(), ticks);
    assert_eq!(v.get_nits_senders(), senders);
    assert_eq!(v.get_nits_command_types(), types);
}

#[test]
fn commonline_batch_decodes_ticks() {
    let mut v = Values::new(&settings(10));
    v.add_data(batch(&[
        ("NITS N32", vec![0x0100_0022]),
        ("NITS N01", vec![0x1000_0001]),
        ("NITS N02", vec![0x2000_0002]),
        ("NITS N16", vec![0x3000_0016]),
        ("NITS N31", vec![0x4000_0031]),
        ("NITS N15", vec![0x5000_0015]),
        ("temp", vec![7]),
    ]));
    let tl = v.get_nits_timeline();
    assert_eq!(tl.len(), 1);
    assert_eq!(*tl[0].commonline(), NitsCommand::new(0x0100_0022));
    let positions: Vec<i32> = tl[0].commands().iter().map(|(k, _)| k.value()).collect();
    assert_eq!(positions, vec![-2, -1, 0, 1]);
    assert_eq!(tl[0].commands()[3].1, NitsCommand::new(0x4000_0031));
    assert_eq!(
        v.get_nits_senders(),
        vec![
            NitsRelativeCarCount::new(-2),
            NitsRelativeCarCount::new(-1),
            NitsRelativeCarCount::new(0),
            NitsRelativeCarCount::new(1)
        ]
    );
    assert_eq!(v.get_nits_command_types(), vec![0x01, 0x10, 0x20, 0x30, 0x40]);
    // NITS channels keep no series of their own
    assert_eq!(v.keys(), vec!["temp".to_string()]);
}

#[test]
fn channels_are_right_aligned_to_the_commonline() {
    let mut v = Values::new(&settings(10));
    // three commonline samples, self channel with two: the aligned index is
    // clamped at zero, so the first two ticks both read its first sample
    v.add_data(batch(&[
        ("NITS N32", vec![0x0100_0000, 0x0100_0000, 0x0100_0000]),
        ("NITS N16", vec![0x0A00_0000, 0x0B00_0000]),
    ]));
    let tl = v.get_nits_timeline();
    assert_eq!(tl.len(), 3);
    assert_eq!(tl[0].commands()[0].1, NitsCommand::new(0x0A00_0000));
    assert_eq!(tl[1].commands()[0].1, NitsCommand::new(0x0A00_0000));
    assert_eq!(tl[2].commands()[0].1, NitsCommand::new(0x0B00_0000));
    // a longer car channel: only its trailing samples line up
    let mut w = Values::new(&settings(10));
    w.add_data(batch(&[
        ("NITS N32", vec![0x0100_0000]),
        ("NITS N16", vec![1, 2, 3]),
    ]));
    assert_eq!(w.get_nits_timeline()[0].commands()[0].1, NitsCommand::new(3));
}

#[test]
fn indices_grow_across_ingestion() {
    let mut v = Values::new(&settings(1));
    v.add_data(batch(&[("NITS N32", vec![0x0100_0001]), ("NITS N01", vec![0x0200_0000])]));
    assert_eq!(v.get_nits_senders(), vec![NitsRelativeCarCount::new(-1)]);
    v.add_data(batch(&[("NITS N32", vec![0x0300_0000]), ("NITS N16", vec![0x0400_0000])]));
    // the first tick was evicted, but its sender and types stay indexed
    assert_eq!(v.get_nits_timeline().len(), 1);
    assert_eq!(
        v.get_nits_senders(),
        vec![NitsRelativeCarCount::new(-1), NitsRelativeCarCount::new(0)]
    );
    assert_eq!(v.get_nits_command_types(), vec![0x01, 0x02, 0x03, 0x04]);
}

#[test]
fn retention_change_rebuilds_indices() {
    let mut v = Values::new(&settings(5));
    v.add_data(batch(&[("NITS N32", vec![0x0100_0001]), ("NITS N01", vec![0x0200_0000])]));
    v.add_data(batch(&[("NITS N32", vec![0x0300_0000]), ("NITS N16", vec![0x0400_0000])]));
    v.add_data(batch(&[("x", vec![1, 2, 3])]));
    v.set_max_len(1);
    assert_eq!(v.get_nits_senders(), vec![NitsRelativeCarCount::new(0)]);
    assert_eq!(v.get_nits_command_types(), vec![0x03, 0x04]);
    assert_eq!(series(&v, "x"), vec![3]);
    v.set_settings(&Settings { retention_period: 0, keep_values: true });
    assert_eq!(v.get_nits_timeline().len(), 0);
    assert!(v.get_nits_senders().is_empty());
    assert!(v.get_nits_command_types().is_empty());
    assert_eq!(series(&v, "x"), Vec::<u32>::new());
}

#[test]
fn csv_table_right_aligns_columns() {
    let mut v = Values::new(&settings(10));
    v.add_data(batch(&[("a", vec![1, 2, 3]), ("b", vec![7])]));
    let keys = vec!["b".to_string(), "missing".to_string(), "a".to_string()];
    let (header, rows) = v.csv_table(&keys);
    assert_eq!(header, vec!["b".to_string(), "a".to_string()]);
    assert_eq!(rows, vec![vec![None, Some(1)], vec![None, Some(2)], vec![Some(7), Some(3)]]);
}

#[test]
fn csv_rows_load_back_into_a_fresh_store() {
    let mut v = Values::new(&settings(4));
    v.add_data(batch(&[("a", vec![1, 2, 3, 4, 5]), ("b", vec![7, 8])]));
    let keys = v.keys();
    let (header, rows) = v.csv_table(&keys);
    let mut w = Values::new(&settings(4));
    w.load_rows(&header, &rows);
    assert_eq!(series(&w, "a"), vec![2, 3, 4, 5]);
    assert_eq!(series(&w, "b"), vec![7, 8]);
}

#[test]
fn cells_split_and_join() {
    assert_eq!(split_cells("a,b,,c"), vec!["a", "b", "", "c"]);
    assert_eq!(split_cells(""), vec![""]);
    assert_eq!(split_cells("x"), vec!["x"]);
    let cells = vec!["1.5".to_string(), "".to_string(), "-2".to_string()];
    let line = join_cells(&cells);
    assert_eq!(line, "1.5,,-2");
    assert_eq!(split_cells(&line), cells);
    assert_eq!(join_cells(&Vec::new()), "");
}

#[test]
fn nits_channel_names() {
    assert_eq!(nits_channel_name(0), "NITS N00");
    assert_eq!(nits_channel_name(32), "NITS N32");
    assert_eq!(nits_index(&"NITS N07".to_string()), Some(7));
    assert_eq!(nits_index(&"NITS N33".to_string()), None);
    assert_eq!(nits_index(&"NITS N7".to_string()), None);
}

#[test]
fn default_settings() {
    let s = Settings::default();
    assert_eq!(s.retention_period, 3600);
    assert!(!s.keep_values);
    assert_eq!(s.max_len(), 3600);
}

#[test]
fn snapshot_without_history_keeps_only_names() {
    let mut v = Values::new(&settings(5));
    v.add_data(batch(&[("a", vec![1, 2]), ("NITS N32", vec![0x0100_0000]), ("NITS N16", vec![0x0200_0000])]));
    let s = v.snapshot();
    assert_eq!(s.keys(), vec!["a".to_string()]);
    assert_eq!(series(&s, "a"), Vec::<u32>::new());
    assert_eq!(s.get_nits_timeline().len(), 0);
    assert!(s.get_nits_senders().is_empty());
    assert!(s.get_nits_command_types().is_empty());
    assert_eq!(s.max_len(), 5);
}

#[test]
fn snapshot_with_history_keeps_everything() {
    let mut v = Values::new(&Settings { retention_period: 5, keep_values: true });
    v.add_data(batch(&[("a", vec![1, 2]), ("NITS N32", vec![0x0100_0000]), ("NITS N16", vec![0x0200_0000])]));
    let s = v.snapshot();
    assert_eq!(series(&s, "a"), vec![1, 2]);
    assert_eq!(s.get_nits_timeline().len(), 1);
    assert_eq!(s.get_nits_senders(), vec![NitsRelativeCarCount::new(0)]);
    assert_eq!(s.get_nits_command_types(), vec![0x01, 0x02]);
    assert!(s.settings().keep_values);
}

#[test]
fn restore_rebuilds_a_store() {
    let s = Settings { retention_period: 2, keep_values: true };
    let channels = vec![("a".to_string(), vec![1, 2, 3]), ("NITS N05".to_string(), vec![9])];
    let ticks = vec![
        (NitsCommand::new(1), vec![]),
        (NitsCommand::new(2), vec![(NitsRelativeCarCount::new(-1), NitsCommand::new(5))]),
        (NitsCommand::new(3), vec![(NitsRelativeCarCount::new(0), NitsCommand::new(6))]),
    ];
    let senders = vec![NitsRelativeCarCount::new(-1), NitsRelativeCarCount::new(0)];
    let v = Values::restore(&s, &channels, &ticks, &senders, &vec![7, 3]).unwrap();
    assert_eq!(v.keys(), vec!["a".to_string()]);
    assert_eq!(series(&v, "a"), vec![2, 3]);
    assert_eq!(v.get_nits_timeline().len(), 2);
    assert_eq!(*v.get_nits_timeline()[0].commonline(), NitsCommand::new(2));
    assert_eq!(v.get_nits_senders(), senders);
    assert_eq!(v.get_nits_command_types(), vec![3, 7]);
}

#[test]
fn restore_rejects_what_no_store_holds() {
    let s = settings(4);
    let unsorted = vec![(
        NitsCommand::new(1),
        vec![
            (NitsRelativeCarCount::new(1), NitsCommand::new(5)),
            (NitsRelativeCarCount::new(0), NitsCommand::new(6)),
        ],
    )];
    assert!(Values::restore(&s, &Vec::new(), &unsorted, &Vec::new(), &Vec::new()).is_none());
    let far = vec![(NitsCommand::new(1), vec![(NitsRelativeCarCount::new(16), NitsCommand::new(5))])];
    assert!(Values::restore(&s, &Vec::new(), &far, &Vec::new(), &Vec::new()).is_none());
    let senders = vec![NitsRelativeCarCount::new(-16)];
    assert!(Values::restore(&s, &Vec::new(), &Vec::new(), &senders, &Vec::new()).is_none());
}

#[test]
fn csv_text_round_trip_through_floats() {
    let mut v = Values::new(&settings(3));
    v.add_data(batch(&[("x", vec![1.5f32.to_bits(), (-2.25f32).to_bits()]), ("y", vec![0.1f32.to_bits()])]));
    let (header, rows) = v.csv_table(&v.keys());
    let header_line = join_cells(&header);
    assert_eq!(header_line, "x,y");
    let lines: Vec<String> = rows
        .iter()
        .map(|r| {
            let cells: Vec<String> = r
                .iter()
                .map(|c| c.map(|b| f32::from_bits(b).to_string()).unwrap_or_default())
                .collect();
            join_cells(&cells)
        })
        .collect();
    assert_eq!(lines, vec!["1.5,".to_string(), "-2.25,0.1".to_string()]);
    let mut w = Values::new(&settings(3));
    let parsed_header = split_cells(&header_line);
    let parsed: Vec<Vec<Option<u32>>> = lines
        .iter()
        .map(|l| {
            split_cells(l)
                .iter()
                .map(|c| if c.is_empty() { None } else { Some(c.parse::<f32>().unwrap().to_bits()) })
                .collect()
        })
        .collect();
    w.load_rows(&parsed_header, &parsed);
    assert_eq!(series(&w, "x"), series(&v, "x"));
    assert_eq!(series(&w, "y"), series(&v, "y"));
}

#[test]
fn repeated_name_in_a_batch_counts_once_by_its_last_entry() {
    let mut v = Values::new(&settings(10));
    v.add_data(batch(&[("a", vec![1]), ("b", vec![5]), ("a", vec![2, 3])]));
    assert_eq!(series(&v, "a"), vec![2, 3]);
    assert_eq!(series(&v, "b"), vec![5]);
    // the decoder reads the same entry as the series would
    let mut w = Values::new(&settings(10));
    w.add_data(batch(&[
        ("NITS N32", vec![0x0100_0000]),
        ("NITS N16", vec![7]),
        ("NITS N32", vec![0x0200_0000]),
    ]));
    assert_eq!(w.get_nits_timeline().len(), 1);
    assert_eq!(*w.get_nits_timeline()[0].commonline(), NitsCommand::new(0x0200_0000));
}

#[test]
fn repeated_header_name_loads_one_sample_per_line() {
    let mut v = Values::new(&settings(10));
    let header = vec!["a".to_string(), "a".to_string(), "b".to_string()];
    let rows = vec![vec![Some(1), Some(2), Some(9)], vec![Some(3), None, None]];
    v.load_rows(&header, &rows);
    assert_eq!(series(&v, "a"), vec![2, 3]);
    assert_eq!(series(&v, "b"), vec![9]);
}

#[test]
fn csv_round_trip_with_a_key_listed_twice() {
    let mut v = Values::new(&settings(4));
    v.add_data(batch(&[("a", vec![1, 2]), ("b", vec![7, 8, 9])]));
    let keys = vec!["a".to_string(), "b".to_string(), "a".to_string()];
    let (header, rows) = v.csv_table(&keys);
    assert_eq!(header, keys);
    let mut w = Values::new(&settings(4));
    w.load_rows(&header, &rows);
    assert_eq!(series(&w, "a"), vec![1, 2]);
    assert_eq!(series(&w, "b"), vec![7, 8, 9]);
}
