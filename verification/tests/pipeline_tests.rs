use rusty_ssim_core::table::{Cell, Table};
use rusty_ssim_core::{parse_to_split_tables, parse_to_table, ssim_iterator};

fn ssim_file_generator(flights_count: i16, ivi_count: i8) -> String {
    let mut lines = vec![
        "1AIRLINE STANDARD SCHEDULE DATA SET                                                                                                                                                            001000001".to_string(),
    ];
    lines.push("2UXX  0008S18 25MAR1827OCT1813OCT17                                    P                                                                                                                      1301000002".to_string());
    for flight_idx in 0..flights_count {
        let flight_number = format!("{:04}", 1000 + flight_idx);
        for ivi in 0..ivi_count {
            let padded_ivi = format!("{:02}", ivi);
            let leg = "01";
            lines.push(format!(
                "3 XX {flight}{ivi_info}{leg_info}J28MAR1803APR18 2      KEF05100510+0000  AMS08000800+0200  73HY                                                             XY   13                            Y189VV738H189         000003",
                flight = flight_number,
                ivi_info = padded_ivi,
                leg_info = leg
            ));

            lines.push(format!(
                "4 XX {flight}{ivi_info}{leg_info}J              AB050AMSGRQKL 2562                                                                                                                                                    000006",
                flight = flight_number,
                ivi_info = padded_ivi,
                leg_info = leg
            ));

            lines.push(format!(
                "4 XX {flight}{ivi_info}{leg_info}J              AB127AMSGRQKLM DBA FLYFREE                                                                                                                                            000006",
                flight = flight_number,
                ivi_info = padded_ivi,
                leg_info = leg
            ));
        }
    }

    lines.push(String::from("5 XX                                                                                                                                                                                       000011E000012"));

    lines.join("\n")
}

fn multi_carrier_ssim_file_generator(flights_count: i16, ivi_count: i8) -> String {
    let mut lines = vec![
        "1AIRLINE STANDARD SCHEDULE DATA SET                                                                                                                                                            001000001".to_string(),
    ];

    let carriers = [["XX", " "], ["YY", "X"], ["YY", " "], ["ZZ", " "]];

    for carrier in &carriers {
        let carrier_code = carrier[0];
        let carrier_flag = carrier[1];

        let prefix = format!(
            "2U{}  0008S18 25MAR1827OCT1813OCT17                                    P",
            carrier_code
        );

        let flag_index = 107usize;
        let pad_to_flag = flag_index.saturating_sub(prefix.len());

        let tail = "1301000002";

        let used_before_tail = prefix.len() + pad_to_flag + 1;
        let pad_after_flag = 200usize.saturating_sub(used_before_tail + tail.len());

        let line = format!(
            "{}{}{}{}{}",
            prefix,
            " ".repeat(pad_to_flag),
            carrier_flag,
            " ".repeat(pad_after_flag),
            tail
        );

        lines.push(line);
        for flight_idx in 0..flights_count {
            let flight_number = format!("{:04}", 1000 + flight_idx);
            for ivi in 0..ivi_count {
                let padded_ivi = format!("{:02}", ivi);
                let leg = "01";
                lines.push(format!(
                    "3 {carrier_code} {flight}{ivi_info}{leg_info}J28MAR1803APR18 2      KEF05100510+0000  AMS08000800+0200  73HY                                                             XY   13                            Y189VV738H189         000003",
                    carrier_code=carrier[0],
                    flight = flight_number,
                    ivi_info = padded_ivi,
                    leg_info = leg
                ));

                lines.push(format!(
                    "4 {carrier_code} {flight}{ivi_info}{leg_info}J              AB050AMSGRQKL 2562                                                                                                                                                    000006",
                    carrier_code=carrier[0],
                    flight = flight_number,
                    ivi_info = padded_ivi,
                    leg_info = leg
                ));

                lines.push(format!(
                    "4 {carrier_code} {flight}{ivi_info}{leg_info}J              AB127AMSGRQKLM DBA FLYFREE                                                                                                                                            000006",
                    carrier_code=carrier[0],
                    flight = flight_number,
                    ivi_info = padded_ivi,
                    leg_info = leg
                ));
            }
        }

        lines.push(format!("5 {carrier_code}                                                                                                                                                                                       000011E000012",
                           carrier_code=carrier[0]));
    }
    lines.join("\n")
}

fn lines_of(content: String) -> Vec<String> {
    content.lines().map(|line| line.to_string()).collect()
}

fn column(table: &Table, name: &str) -> usize {
    table.column_names().iter().position(|n| n == name).unwrap()
}

fn text(cell: &Cell) -> String {
    match cell {
        Cell::Text(t) => t.clone(),
        Cell::Null => String::new(),
        Cell::Nested(items) => format!("{:?}", items),
    }
}

fn cells(table: &Table) -> Vec<Vec<String>> {
    table.rows().iter().map(|row| row.iter().map(text).collect()).collect()
}

#[test]
fn batch_size_changes_nothing_in_the_joined_table() {
    let lines = lines_of(multi_carrier_ssim_file_generator(7, 3));
    let small = parse_to_table(&lines, Some(1), None);
    let medium = parse_to_table(&lines, Some(100), None);
    let large = parse_to_table(&lines, Some(10_000), None);
    assert_eq!(small.height(), 4 * 7 * 3 * 2);
    assert_eq!(small.column_names(), large.column_names());
    assert_eq!(cells(&small), cells(&medium));
    assert_eq!(cells(&small), cells(&large));

    let condensed_small = parse_to_table(&lines, Some(1), Some(true));
    let condensed_large = parse_to_table(&lines, None, Some(true));
    assert_eq!(condensed_small.height(), 4 * 7 * 3);
    assert_eq!(cells(&condensed_small), cells(&condensed_large));
}

#[test]
fn one_leg_without_segments_gives_three_small_tables() {
    let lines = vec![
        "2UXX  0008S18 25MAR1827OCT1813OCT17                                    P                                                                                                                      1301000002".to_string(),
        "3 XX   120102P28MAR1803APR18 2      KEF05100510+0000  AMS08000800+0200  73HY                                                             XY   13                            Y189VV738H189         000003".to_string(),
    ];
    let (carriers, flights, segments) = parse_to_split_tables(&lines, None);
    assert_eq!(carriers.height(), 1);
    assert_eq!(flights.height(), 1);
    assert_eq!(segments.height(), 0);
    assert_eq!(text(&carriers.rows()[0][column(&carriers, "airline_designator")]), "XX ");
    assert_eq!(text(&carriers.rows()[0][column(&carriers, "control_duplicate_indicator")]), " ");
    assert_eq!(text(&flights.rows()[0][column(&flights, "departure_station")]), "KEF");
    assert_eq!(text(&flights.rows()[0][column(&flights, "arrival_station")]), "AMS");
}

#[test]
fn a_repeated_header_gives_one_carrier_row() {
    let header = "2UXX  0008S18 25MAR1827OCT1813OCT17                                    P                                                                                                                      1301000002".to_string();
    let flight = "3 XX   120102P28MAR1803APR18 2      KEF05100510+0000  AMS08000800+0200  73HY                                                             XY   13                            Y189VV738H189         000003".to_string();
    let trailer = "5 XX                                                                                                                                                                                       000011E000012".to_string();
    let lines = vec![
        header.clone(),
        flight.clone(),
        trailer.clone(),
        header.clone(),
        flight.clone(),
        flight.clone(),
        trailer.clone(),
    ];
    let (carriers, flights, _segments) = parse_to_split_tables(&lines, Some(1));
    assert_eq!(carriers.height(), 1);
    assert_eq!(flights.height(), 3);
    let mut changed = lines.clone();
    changed[3] = changed[3].replace("1301000002", "1301000077").replace("S18", "W18");
    let (carriers, _flights, _segments) = parse_to_split_tables(&changed, Some(1));
    assert_eq!(carriers.height(), 1);
    assert_eq!(text(&carriers.rows()[0][column(&carriers, "season")]), "S18");
}

#[test]
fn a_whole_text_is_read_into_three_lists() {
    let text = ssim_file_generator(3, 2).replace('\n', "\r\n") + "\r\n";
    let (carriers, flights, segments) = ssim_iterator(text).unwrap();
    assert_eq!(carriers.len(), 1);
    assert_eq!(flights.len(), 6);
    assert_eq!(segments.len(), 12);
    assert_eq!(carriers[0].record_serial_number, "000002");
    assert_eq!(flights[5].flight_number, "1002");
    assert_eq!(flights[5].record_serial_number, "000003");
    assert_eq!(segments[11].data, "KLM DBA FLYFREE");
    assert_eq!(flights[0].flight_designator, "XX    1000   00 J  ");
    assert_eq!(segments[0].flight_designator, flights[0].flight_designator);
}

#[test]
fn a_text_without_line_endings_is_one_line() {
    let (carriers, flights, segments) = ssim_iterator(String::new()).unwrap();
    assert!(carriers.is_empty() && flights.is_empty() && segments.is_empty());
    let header = "2UXX  0008S18 25MAR1827OCT1813OCT17                                    P                                                                                                                      1301000002";
    let (carriers, _, _) = ssim_iterator(header.to_string()).unwrap();
    assert_eq!(carriers.len(), 1);
    let (carriers, _, _) = ssim_iterator(format!("{}\r", header)).unwrap();
    assert_eq!(carriers[0].record_serial_number, "000002");
}

const CARRIER_LINE: &str = "2UXX  0008S18 25MAR1827OCT1813OCT17                                    P                                                                                                                      1301000002";
const TRAILER_LINE: &str = "5 XX                                                                                                                                                                                       000011E000012";

fn leg(number: u32) -> String {
    format!(
        "3 XX {:04}0101J28MAR1803APR18 2      KEF05100510+0000  AMS08000800+0200  73HY                                                             XY   13                            Y189VV738H189         000003",
        number
    )
}

fn detail(number: u32, data: &str) -> String {
    format!("4 XX {:04}0101J              AB050AMSGRQ{:<155}000006", number, data)
}

#[test]
fn two_segments_after_one_leg_give_two_rows_or_one() {
    let lines = vec![
        CARRIER_LINE.to_string(),
        leg(7),
        detail(7, "FIRST"),
        detail(7, "SECOND"),
    ];
    let wide = parse_to_table(&lines, None, Some(false));
    assert_eq!(wide.height(), 2);
    let designator = column(&wide, "flight_designator");
    let sequence = column(&wide, "leg_sequence_number");
    let data = column(&wide, "data");
    assert_eq!(text(&wide.rows()[0][designator]), "XX    0007   01 J  ");
    assert_eq!(text(&wide.rows()[1][designator]), "XX    0007   01 J  ");
    assert_eq!(text(&wide.rows()[0][sequence]), "01");
    assert_eq!(text(&wide.rows()[1][sequence]), "01");
    assert_eq!(text(&wide.rows()[0][data]), "FIRST");
    assert_eq!(text(&wide.rows()[1][data]), "SECOND");

    let condensed = parse_to_table(&lines, None, Some(true));
    assert_eq!(condensed.height(), 1);
    match &condensed.rows()[0][column(&condensed, "segment_data")] {
        Cell::Nested(items) => {
            assert_eq!(items.len(), 2);
            assert_eq!(items[0][5], "FIRST");
            assert_eq!(items[1][5], "SECOND");
        }
        other => panic!("unexpected {:?}", other),
    }
}

#[test]
fn every_leg_keeps_the_segments_that_follow_it() {
    let mut lines = vec![CARRIER_LINE.to_string()];
    for number in 0..30 {
        lines.push(leg(number));
        for part in 0..(number % 3) {
            lines.push(detail(number, &format!("L{}P{}", number, part)));
        }
    }
    lines.push(TRAILER_LINE.to_string());
    for batch_size in [1, 2, 3, 7, 1000] {
        let table = parse_to_table(&lines, Some(batch_size), None);
        let number = column(&table, "flight_number");
        let data = column(&table, "data");
        let mut expected = Vec::new();
        for leg in 0..30 {
            if leg % 3 == 0 {
                expected.push((format!("{:04}", leg), String::new()));
            }
            for part in 0..(leg % 3) {
                expected.push((format!("{:04}", leg), format!("L{}P{}", leg, part)));
            }
        }
        let found: Vec<(String, String)> = table
            .rows()
            .iter()
            .map(|row| (text(&row[number]), text(&row[data])))
            .collect();
        assert_eq!(found, expected);
    }
}

#[test]
fn a_key_that_comes_twice_makes_the_batch_size_matter() {
    let lines = vec![
        CARRIER_LINE.to_string(),
        leg(1),
        detail(1, "FIRST"),
        leg(1),
        detail(1, "SECOND"),
        TRAILER_LINE.to_string(),
    ];
    let together = parse_to_table(&lines, Some(100), None);
    let apart = parse_to_table(&lines, Some(1), None);
    assert_eq!(together.height(), 4);
    assert_eq!(apart.height(), 2);
}

#[test]
fn a_header_out_of_turn_makes_the_batch_size_matter() {
    let lines = vec![
        CARRIER_LINE.to_string(),
        leg(1),
        CARRIER_LINE.replace("1301000002", "1301000009"),
        leg(2),
        TRAILER_LINE.to_string(),
    ];
    let (one, _, _) = parse_to_split_tables(&lines, Some(100));
    let (two, _, _) = parse_to_split_tables(&lines, Some(1));
    let serial = column(&one, "record_serial_number");
    assert_eq!(one.height(), 1);
    assert_eq!(two.height(), 1);
    assert_eq!(text(&one.rows()[0][serial]), "000009");
    assert_eq!(text(&two.rows()[0][serial]), "000002");
}

#[test]
fn a_flight_that_comes_again_after_a_trailer_is_joined_alike() {
    let lines = vec![
        CARRIER_LINE.to_string(),
        leg(1),
        detail(1, "FIRST"),
        leg(2),
        TRAILER_LINE.to_string(),
        CARRIER_LINE.to_string(),
        leg(1),
        detail(1, "SECOND"),
        detail(1, "THIRD"),
        TRAILER_LINE.to_string(),
    ];
    let together = parse_to_table(&lines, Some(100), None);
    let apart = parse_to_table(&lines, Some(1), None);
    let pairs = parse_to_table(&lines, Some(2), None);
    assert_eq!(together.height(), 4);
    assert_eq!(cells(&together), cells(&apart));
    assert_eq!(cells(&together), cells(&pairs));
    let data = column(&together, "data");
    let found: Vec<String> =
        together.rows().iter().map(|row| text(&row[data]).trim().to_string()).collect();
    assert_eq!(found, vec!["FIRST", "", "SECOND", "THIRD"]);

    let condensed = parse_to_table(&lines, Some(100), Some(true));
    let condensed_apart = parse_to_table(&lines, Some(1), Some(true));
    assert_eq!(condensed.height(), 3);
    assert_eq!(cells(&condensed), cells(&condensed_apart));
}

#[test]
fn carriers_stand_once_each_in_the_order_of_their_first_header() {
    let other = CARRIER_LINE.replace("2UXX ", "2UYY ");
    let lines = vec![
        CARRIER_LINE.to_string(),
        leg(1),
        TRAILER_LINE.to_string(),
        other.clone(),
        leg(2).replace("3 XX ", "3 YY "),
        TRAILER_LINE.replace("5 XX", "5 YY"),
        CARRIER_LINE.replace("1301000002", "1301000044"),
        leg(3),
        TRAILER_LINE.to_string(),
    ];
    for batch_size in [1, 2, 100] {
        let (carriers, flights, _segments) = parse_to_split_tables(&lines, Some(batch_size));
        let airline = column(&carriers, "airline_designator");
        let serial = column(&carriers, "record_serial_number");
        let found: Vec<(String, String)> = carriers
            .rows()
            .iter()
            .map(|row| (text(&row[airline]), text(&row[serial])))
            .collect();
        assert_eq!(
            found,
            vec![("XX ".to_string(), "000002".to_string()), ("YY ".to_string(), "000002".to_string())]
        );
        assert_eq!(flights.height(), 3);
    }
}
