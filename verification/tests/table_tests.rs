use rusty_ssim_core::converters::ssim_tables::combine_all_dataframes;
use rusty_ssim_core::generators::ssim_dataframe::convert_to_dataframes;
use rusty_ssim_core::table::Cell;
use rusty_ssim_core::utils::ssim_parser::{
    parse_carrier_record, parse_flight_leg_under, parse_segment_under,
};

const CARRIER_LINE: &str = "2UXX  0008S18 25MAR1827OCT1813OCT17                                    P                                                                                                                      1301000002";
const FLIGHT_LINE: &str = "3 XX   120102P28MAR1803APR18 2      KEF05100510+0000  AMS08000800+0200  73HY                                                             XY   13                            Y189VV738H189         000003";
const SEGMENT_ONE: &str = "4 XX   120102P              AB050AMSGRQKL 2562                                                                                                                                                    000006";
const SEGMENT_TWO: &str = "4 XX   120102P              AB127AMSGRQKLM DBA FLYFREE                                                                                                                                            000007";

fn text(cell: &Cell) -> String {
    match cell {
        Cell::Text(t) => t.clone(),
        other => panic!("no text in {:?}", other),
    }
}

#[test]
fn batch_tables_have_one_column_per_field() {
    let carrier = parse_carrier_record(CARRIER_LINE).unwrap();
    let flight = parse_flight_leg_under(FLIGHT_LINE, &carrier).unwrap();
    let one = parse_segment_under(SEGMENT_ONE, &carrier).unwrap();
    let two = parse_segment_under(SEGMENT_TWO, &carrier).unwrap();
    let (carriers, flights, segments) =
        convert_to_dataframes(Some(&carrier), vec![flight], vec![one, two]);
    assert_eq!(carriers.width(), 16);
    assert_eq!(carriers.height(), 1);
    assert_eq!(flights.width(), 47);
    assert_eq!(flights.height(), 1);
    assert_eq!(segments.width(), 16);
    assert_eq!(segments.height(), 2);
    assert_eq!(flights.column_names()[0], "flight_designator");
    assert_eq!(text(&flights.rows()[0][0]), "XX      12   01 P  ");
    assert_eq!(text(&segments.rows()[1][0]), "XX      12   01 P  ");
    assert_eq!(text(&carriers.rows()[0][14]), "2");
    assert_eq!(text(&segments.rows()[0][13]), "KL 2562");
}

#[test]
fn two_segments_give_two_rows_or_one_gathered_cell() {
    let carrier = parse_carrier_record(CARRIER_LINE).unwrap();
    let flight = parse_flight_leg_under(FLIGHT_LINE, &carrier).unwrap();
    let one = parse_segment_under(SEGMENT_ONE, &carrier).unwrap();
    let two = parse_segment_under(SEGMENT_TWO, &carrier).unwrap();
    let (carriers, flights, segments) =
        convert_to_dataframes(Some(&carrier), vec![flight], vec![one, two]);

    let wide = combine_all_dataframes(&carriers, &flights, &segments, false).unwrap();
    assert_eq!(wide.width(), 63);
    assert_eq!(wide.height(), 2);
    let names = wide.column_names();
    let designator = names.iter().position(|n| n == "flight_designator").unwrap();
    let leg = names.iter().position(|n| n == "leg_sequence_number").unwrap();
    let data = names.iter().position(|n| n == "data").unwrap();
    let season = names.iter().position(|n| n == "season").unwrap();
    assert_eq!(text(&wide.rows()[0][designator]), text(&wide.rows()[1][designator]));
    assert_eq!(text(&wide.rows()[0][leg]), "02");
    assert_eq!(text(&wide.rows()[1][leg]), "02");
    assert_eq!(text(&wide.rows()[0][data]), "KL 2562");
    assert_eq!(text(&wide.rows()[1][data]), "KLM DBA FLYFREE");
    assert_eq!(text(&wide.rows()[0][season]), "S18");

    let condensed = combine_all_dataframes(&carriers, &flights, &segments, true).unwrap();
    assert_eq!(condensed.width(), 58);
    assert_eq!(condensed.height(), 1);
    assert_eq!(condensed.column_names()[57], "segment_data");
    match &condensed.rows()[0][57] {
        Cell::Nested(items) => {
            assert_eq!(items.len(), 2);
            assert_eq!(items[0][5], "KL 2562");
            assert_eq!(items[1][5], "KLM DBA FLYFREE");
            assert_eq!(items[0][4], "050");
            assert_eq!(items[1][4], "127");
        }
        other => panic!("segments were not gathered: {:?}", other),
    }
}

#[test]
fn leg_without_segments_keeps_its_row() {
    let carrier = parse_carrier_record(CARRIER_LINE).unwrap();
    let flight = parse_flight_leg_under(FLIGHT_LINE, &carrier).unwrap();
    let (carriers, flights, segments) =
        convert_to_dataframes(Some(&carrier), vec![flight], vec![]);
    assert_eq!(segments.height(), 0);
    let wide = combine_all_dataframes(&carriers, &flights, &segments, false).unwrap();
    assert_eq!(wide.height(), 1);
    assert!(matches!(wide.rows()[0][62], Cell::Null));
    let condensed = combine_all_dataframes(&carriers, &flights, &segments, true).unwrap();
    assert_eq!(condensed.height(), 1);
    assert!(matches!(condensed.rows()[0][57], Cell::Null));
}
