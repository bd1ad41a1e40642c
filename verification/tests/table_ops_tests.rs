use polars::prelude::DataFrame;
use rusty_ssim_core::frames::to_frame;
use rusty_ssim_core::json::nested_json;
use rusty_ssim_core::table::{copy_cell, same_cell, Cell, Table};
use rusty_ssim_core::utils::errors::SsimError;
use rusty_ssim_core::utils::ssim_parser::{
    classify, parse_carrier_record,
    parse_flight_record_legs, parse_line, parse_segment_record, LineKind, Record,
};
use rusty_ssim_core::utils::ssim_processors::{
    CombinedDataFrameProcessor, SplitDataFrameProcessor,
};
use rusty_ssim_core::utils::ssim_reader::BatchProcessor;
use rusty_ssim_core::utils::text::trimmed;

fn words(list: &[&str]) -> Vec<String> {
    list.iter().map(|w| w.to_string()).collect()
}

fn row(list: &[&str]) -> Vec<Cell> {
    list.iter().map(|w| Cell::Text(w.to_string())).collect()
}

fn table(names: &[&str], rows: &[&[&str]]) -> Table {
    let mut table = Table::new(words(names));
    for cells in rows {
        table.add_row(row(cells)).unwrap();
    }
    table
}

fn texts(table: &Table) -> Vec<Vec<Option<String>>> {
    table
        .rows()
        .iter()
        .map(|row| {
            row.iter()
                .map(|cell| match cell {
                    Cell::Text(t) => Some(t.clone()),
                    Cell::Null => None,
                    Cell::Nested(items) => Some(format!("{:?}", items)),
                })
                .collect()
        })
        .collect()
}

fn some(list: &[&str]) -> Vec<Option<String>> {
    list.iter().map(|w| Some(w.to_string())).collect()
}

#[test]
fn a_left_join_keeps_every_left_row() {
    let left = table(&["k", "a"], &[&["1", "x"], &["2", "y"], &["3", "z"], &["1", "w"]]);
    let right = table(&["b", "k"], &[&["p", "1"], &["q", "3"], &["r", "1"], &["s", "9"]]);
    let joined = left.left_join(&right, &words(&["k"]), &words(&["b"]), None).unwrap();
    assert_eq!(joined.column_names(), words(&["k", "a", "b"]));
    assert_eq!(
        texts(&joined),
        vec![
            some(&["1", "x", "p"]),
            some(&["1", "x", "r"]),
            vec![Some("2".to_string()), Some("y".to_string()), None],
            some(&["3", "z", "q"]),
            some(&["1", "w", "p"]),
            some(&["1", "w", "r"]),
        ]
    );
}

#[test]
fn a_gathering_join_gives_one_row_per_left_row() {
    let left = table(&["k", "a"], &[&["1", "x"], &["2", "y"]]);
    let right = table(&["b", "k", "c"], &[&["p", "1", "u"], &["r", "1", "v"]]);
    let joined = left
        .left_join(&right, &words(&["k"]), &words(&["c", "b"]), Some("all"))
        .unwrap();
    assert_eq!(joined.column_names(), words(&["k", "a", "all"]));
    assert_eq!(joined.height(), 2);
    match &joined.rows()[0][2] {
        Cell::Nested(items) => assert_eq!(items, &vec![words(&["u", "p"]), words(&["v", "r"])]),
        other => panic!("unexpected {:?}", other),
    }
    assert!(matches!(joined.rows()[1][2], Cell::Null));
}

#[test]
fn cells_without_text_find_no_partner() {
    let mut left = Table::new(words(&["k"]));
    left.add_row(vec![Cell::Null]).unwrap();
    let mut right = Table::new(words(&["k", "b"]));
    right.add_row(vec![Cell::Null, Cell::Text("p".to_string())]).unwrap();
    let joined = left.left_join(&right, &words(&["k"]), &words(&["b"]), None).unwrap();
    assert_eq!(texts(&joined), vec![vec![None, None]]);
}

#[test]
fn a_join_names_the_column_it_misses() {
    let left = table(&["k", "a"], &[&["1", "x"]]);
    let right = table(&["k", "b"], &[&["1", "p"]]);
    for (on, take, missing) in [("z", "b", "z"), ("a", "b", "a"), ("k", "c", "c")] {
        match left.left_join(&right, &words(&[on]), &words(&[take]), None) {
            Err(SsimError::MissingColumn(name)) => assert_eq!(name, missing),
            other => panic!("unexpected {:?}", other),
        }
    }
}

#[test]
fn tables_stack_only_with_the_same_columns() {
    let one = table(&["a", "b"], &[&["1", "2"]]);
    let two = table(&["a", "b"], &[&["3", "4"], &["5", "6"]]);
    let odd = table(&["a", "c"], &[&["7", "8"]]);
    let stacked = Table::stack(vec![one, two]).unwrap();
    assert_eq!(texts(&stacked), vec![some(&["1", "2"]), some(&["3", "4"]), some(&["5", "6"])]);
    let none = Table::stack(vec![]).unwrap();
    assert_eq!((none.width(), none.height()), (0, 0));
    let one = table(&["a", "b"], &[&["1", "2"]]);
    match Table::stack(vec![one, odd]) {
        Err(SsimError::ColumnMismatch) => {}
        other => panic!("unexpected {:?}", other),
    }
}

#[test]
fn a_row_must_fit_the_columns() {
    let mut table = Table::new(words(&["a", "b"]));
    match table.add_row(row(&["only one"])) {
        Err(SsimError::ColumnMismatch) => {}
        other => panic!("unexpected {:?}", other),
    }
    assert_eq!(table.height(), 0);
    table.add_row(row(&["1", "2"])).unwrap();
    assert_eq!(table.height(), 1);
}

#[test]
fn of_rows_with_one_key_the_first_stays() {
    let rows =
        table(&["a", "b", "c"], &[&["1", "x", "p"], &["2", "y", "q"], &["1", "x", "r"], &["1", "z", "s"], &["2", "y", "t"]]);
    let unique = rows.unique_by(&words(&["a", "b"])).unwrap();
    assert_eq!(
        texts(&unique),
        vec![some(&["1", "x", "p"]), some(&["2", "y", "q"]), some(&["1", "z", "s"])]
    );
    let by_one = rows.unique_by(&words(&["a"])).unwrap();
    assert_eq!(texts(&by_one), vec![some(&["1", "x", "p"]), some(&["2", "y", "q"])]);
    match rows.unique_by(&words(&["a", "nowhere"])) {
        Err(SsimError::MissingColumn(name)) => assert_eq!(name, "nowhere"),
        other => panic!("unexpected {:?}", other),
    }
}

#[test]
fn columns_are_dropped_by_name() {
    let wide = table(&["a", "b", "c", "b"], &[&["1", "2", "3", "4"]]);
    let slim = wide.without_columns(&words(&["b", "never there"]));
    assert_eq!(slim.column_names(), words(&["a", "c"]));
    assert_eq!(texts(&slim), vec![some(&["1", "3"])]);
    assert_eq!(wide.position("b"), Some(1));
    assert_eq!(wide.position("d"), None);
    assert_eq!(wide.positions(&words(&["c", "a"])).unwrap(), vec![2, 0]);
}

#[test]
fn cells_compare_by_what_they_hold() {
    let nested = Cell::Nested(vec![words(&["a"]), words(&[])]);
    assert!(same_cell(&nested, &copy_cell(&nested)));
    assert!(!same_cell(&nested, &Cell::Nested(vec![words(&["a"])])));
    assert!(!same_cell(&Cell::Null, &Cell::Text(String::new())));
}

#[test]
fn json_escapes_what_must_be_escaped() {
    let names = words(&["n", "quote\"d"]);
    let items = vec![words(&["a\"b\\c", "line\nfeed\rret\ttab\u{1}\u{1f} \u{e9}"]), words(&[])];
    assert_eq!(
        nested_json(&names, &items),
        "[{\"n\":\"a\\\"b\\\\c\",\"quote\\\"d\":\"line\\nfeed\\rret\\ttab\\u0001\\u001f \u{e9}\"},{\"n\":\"\",\"quote\\\"d\":\"\"}]"
    );
    assert_eq!(nested_json(&names, &vec![]), "[]");
    assert_eq!(nested_json(&vec![], &vec![words(&["x"])]), "[{}]");
}

#[test]
fn a_table_with_a_repeated_name_is_no_data_frame() {
    let twice = table(&["a", "a"], &[&["1", "2"]]);
    match to_frame(&twice, &vec![]) {
        Err(SsimError::Frame(message)) => assert!(!message.is_empty()),
        other => panic!("unexpected {:?}", other.map(|frame: DataFrame| frame.shape())),
    }
    let fine = table(&["a", "b"], &[&["1", "2"], &["3", "4"]]);
    let frame = to_frame(&fine, &vec![]).unwrap();
    assert_eq!(frame.shape(), (2, 2));
    let empty = to_frame(&Table::empty(), &vec![]).unwrap();
    assert_eq!(empty.shape(), (0, 0));
}

#[test]
fn a_result_needs_the_end_of_input() {
    let processor = SplitDataFrameProcessor::new();
    match processor.into_result() {
        Err(SsimError::NotFinalized) => {}
        other => panic!("unexpected {:?}", other.is_ok()),
    }
    let mut processor = SplitDataFrameProcessor::new();
    processor.finalize().unwrap();
    let (carriers, flights, segments) = processor.into_result().unwrap();
    assert_eq!((carriers.height(), flights.height(), segments.height()), (0, 0, 0));
    let combined = CombinedDataFrameProcessor::new(false).into_result();
    assert_eq!((combined.width(), combined.height()), (0, 0));
    let combined = CombinedDataFrameProcessor::default().into_result();
    assert_eq!((combined.width(), combined.height()), (0, 0));
    assert!(SplitDataFrameProcessor::default().into_result().is_err());
}

#[test]
fn blanks_are_trimmed_at_both_ends() {
    assert_eq!(trimmed("  \t middle \r\n"), "middle");
    assert_eq!(trimmed("middle"), "middle");
    assert_eq!(trimmed("a  b"), "a  b");
    assert_eq!(trimmed("   "), "");
    assert_eq!(trimmed(" \u{b} a b \u{c} "), "a b");
    assert_eq!(trimmed("\u{a0}x\u{a0}"), "\u{a0}x\u{a0}");
    assert_eq!(trimmed(""), "");
}

#[test]
fn free_text_fields_of_a_header_lose_their_padding() {
    let mut line = format!("{:<200}", "2LXX  0008W18 25MAR1827OCT1813OCT17  \tSOME TITLE \r ");
    line.replace_range(108..125, "  general info   ");
    line.replace_range(169..188, "   in flight info  ");
    line.replace_range(194..200, "000002");
    let carrier = parse_carrier_record(&line).unwrap();
    assert_eq!(carrier.title_of_data, "SOME TITLE");
    assert_eq!(carrier.general_information, "general info");
    assert_eq!(carrier.in_flight_service_information, "in flight info  ");
    assert_eq!(carrier.time_mode, "L");
    assert_eq!(carrier.season, "W18");
    assert_eq!(carrier.release_date, "       ");
    assert_eq!(carrier.creation_time, "    ");
}

#[test]
fn short_and_foreign_lines_give_no_record() {
    let good = format!("{:<200}", "2UXX");
    assert!(parse_carrier_record(&good).is_some());
    assert!(parse_carrier_record(&good[..199]).is_none());
    assert!(parse_carrier_record("").is_none());
    let foreign = format!("{:<199}\u{e9}", "2UXX");
    assert!(foreign.len() > 200);
    assert!(parse_carrier_record(&foreign).is_none());
    let carrier = parse_carrier_record(&good).unwrap();
    assert!(parse_flight_record_legs(&foreign, &[carrier.clone()]).is_none());
    assert!(parse_segment_record(&good[..10], &[carrier]).is_none());
    let longer = format!("{:<250}", "2UXX");
    assert_eq!(parse_carrier_record(&longer).unwrap().airline_designator, "XX ");
}

#[test]
fn the_indicator_is_that_of_the_active_carrier() {
    let mut first = parse_carrier_record(&format!("{:<200}", "2UXX")).unwrap();
    first.control_duplicate_indicator = "A".to_string();
    let mut other = first.clone();
    other.airline_designator = "YY ".to_string();
    other.control_duplicate_indicator = "C".to_string();
    let known = vec![first, other];
    let leg = parse_flight_record_legs(&format!("{:<200}", "3 XX 0001"), &known).unwrap();
    assert_eq!(leg.airline_designator, "XX ");
    assert_eq!(leg.control_duplicate_indicator, "C");
    assert_eq!(leg.flight_designator, "XX  C 0001         ");
    let stray = parse_segment_record(&format!("{:<200}", "4 QQ 0001"), &known).unwrap();
    assert_eq!(stray.control_duplicate_indicator, "C");
    assert_eq!(stray.airline_designator, "QQ ");
    let alone = parse_flight_record_legs(&format!("{:<200}", "3 XX 0001"), &known[..1]).unwrap();
    assert_eq!(alone.control_duplicate_indicator, "A");
    assert!(parse_flight_record_legs(&format!("{:<200}", "3 XX 0001"), &[]).is_none());
    assert!(parse_segment_record(&format!("{:<200}", "4 XX 0001"), &[]).is_none());
}

#[test]
fn the_first_character_selects_the_record() {
    assert_eq!(classify("2"), LineKind::Carrier);
    assert_eq!(classify("3x"), LineKind::FlightLeg);
    assert_eq!(classify("4"), LineKind::Segment);
    assert_eq!(classify("5"), LineKind::Trailer);
    assert_eq!(classify("1"), LineKind::Skip);
    assert_eq!(classify("0"), LineKind::Skip);
    assert_eq!(classify(""), LineKind::Skip);
    assert_eq!(classify(" 2"), LineKind::Skip);
    assert_eq!(classify("\u{e9}"), LineKind::Skip);

    let header = format!("{:<200}", "2UXX");
    let mut carrier = match parse_line(&header, None) {
        Some(Record::Carrier(c)) => c,
        other => panic!("unexpected {:?}", other),
    };
    carrier.control_duplicate_indicator = "Q".to_string();
    let leg_line = format!("{:<200}", "3 ZZ 0001");
    assert!(parse_line(&leg_line, None).is_none());
    match parse_line(&leg_line, Some(&carrier)) {
        Some(Record::FlightLeg(leg)) => {
            assert_eq!(leg.airline_designator, "ZZ ");
            assert_eq!(leg.control_duplicate_indicator, "Q");
        }
        other => panic!("unexpected {:?}", other),
    }
    let segment_line = format!("{:<200}", "4 ZZ 0001");
    assert!(parse_line(&segment_line, None).is_none());
    match parse_line(&segment_line, Some(&carrier)) {
        Some(Record::Segment(segment)) => assert_eq!(segment.control_duplicate_indicator, "Q"),
        other => panic!("unexpected {:?}", other),
    }
    assert!(parse_line(&format!("{:<200}", "5 XX"), Some(&carrier)).is_none());
    assert!(parse_line(&format!("{:<200}", "1 XX"), Some(&carrier)).is_none());
    assert!(parse_line("3 ZZ", Some(&carrier)).is_none());
}
