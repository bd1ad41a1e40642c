use rusty_ssim_core::csv_text::table_csv;
use rusty_ssim_core::table::{Cell, Table};
use rusty_ssim_core::utils::errors::SsimError;
use rusty_ssim_core::utils::ssim_parser::{
    parse_carrier_record, parse_flight_leg_under, parse_segment_under, CarrierRecord,
    FlightLegRecord, SegmentRecords,
};
use rusty_ssim_core::utils::ssim_reader::{BatchProcessor, SsimReader};
use rusty_ssim_core::utils::ssim_writers::{
    build_filename, names_a_file, Compression, CsvWriterProcessor, ParquetWriterProcessor,
};

const CARRIER_LINE: &str = "2UXX  0008S18 25MAR1827OCT1813OCT17                                    P                                                                                                                      1301000002";
const FLIGHT_LINE: &str = "3 XX   120102P28MAR1803APR18 2      KEF05100510+0000  AMS08000800+0200  73HY                                                             XY   13                            Y189VV738H189         000003";
const TRAILER_LINE: &str = "5 XX                                                                                                                                                                                       000011E000012";

fn carrier() -> CarrierRecord {
    parse_carrier_record(CARRIER_LINE).unwrap()
}

fn flight() -> FlightLegRecord {
    parse_flight_leg_under(FLIGHT_LINE, &carrier()).unwrap()
}

fn segment_line() -> String {
    format!("4 XX   120102P              AB050AMSGRQ{:<155}000006", "KL, \"2562\"")
}

fn segment() -> SegmentRecords {
    parse_segment_under(&segment_line(), &carrier()).unwrap()
}

fn words(list: &[&str]) -> Vec<String> {
    list.iter().map(|w| w.to_string()).collect()
}

fn small_table() -> Table {
    let mut table = Table::new(words(&["name", "note"]));
    table
        .add_row(vec![Cell::Text("plain".to_string()), Cell::Null])
        .unwrap();
    table
        .add_row(vec![
            Cell::Text("with, comma".to_string()),
            Cell::Text("say \"hi\"".to_string()),
        ])
        .unwrap();
    table
        .add_row(vec![
            Cell::Text("nested".to_string()),
            Cell::Nested(vec![words(&["a", "b\\c"]), words(&["x\ty"])]),
        ])
        .unwrap();
    table
}

#[test]
fn a_table_is_written_line_by_line() {
    let text = table_csv(&small_table(), true, &words(&["first", "second"])).unwrap();
    let expected = "name,note\n\
plain,\n\
\"with, comma\",\"say \"\"hi\"\"\"\n\
nested,\"[{\"\"first\"\":\"\"a\"\",\"\"second\"\":\"\"b\\\\c\"\"},{\"\"first\"\":\"\"x\\ty\"\",\"\"second\"\":\"\"\"\"}]\"\n";
    assert_eq!(String::from_utf8(text).unwrap(), expected);
}

#[test]
fn the_header_line_can_be_left_out() {
    let text = table_csv(&small_table(), false, &words(&["first", "second"])).unwrap();
    let text = String::from_utf8(text).unwrap();
    assert!(text.starts_with("plain,\n"));
    assert_eq!(text.lines().count(), 3);
}

#[test]
fn the_text_file_gets_its_header_once() {
    let mut processor = CsvWriterProcessor::new(false, false);
    processor
        .process_batch(vec![flight()], vec![segment()], Some(&carrier()))
        .unwrap();
    processor
        .process_batch(vec![flight()], vec![], Some(&carrier()))
        .unwrap();
    processor.on_carrier_complete(Some(&carrier())).unwrap();
    processor.finalize().unwrap();
    let pieces = processor.take_output();
    assert_eq!(pieces.len(), 2);
    let first = String::from_utf8(pieces[0].clone()).unwrap();
    let second = String::from_utf8(pieces[1].clone()).unwrap();
    let mut lines = first.lines();
    let header = lines.next().unwrap();
    assert!(header.starts_with("flight_designator,operational_suffix,airline_designator,"));
    assert!(header.ends_with(",data_element_identifier,data"));
    assert_eq!(header.split(',').count(), 63);
    let row = lines.next().unwrap();
    assert!(row.starts_with("XX      12   01 P  , ,XX , ,  12,01,02,P,"));
    assert!(row.ends_with(",A,B,AMS,GRQ,050,\"KL, \"\"2562\"\"\""));
    assert_eq!(lines.next(), None);
    assert_eq!(second.lines().count(), 1);
    assert!(second.starts_with("XX      12   01 P  ,"));
    assert!(processor.take_output().is_empty());
}

#[test]
fn a_text_file_that_is_there_gets_no_header() {
    let mut processor = CsvWriterProcessor::new(true, true);
    processor
        .process_batch(vec![flight()], vec![segment()], Some(&carrier()))
        .unwrap();
    let pieces = processor.take_output();
    let text = String::from_utf8(pieces[0].clone()).unwrap();
    assert_eq!(text.lines().count(), 1);
    assert!(text.starts_with("XX      12   01 P  ,"));
    assert!(text.contains("\"\"data\"\":\"\"KL, \\\"\"2562\\\"\"\"\""));
}

#[test]
fn file_names_follow_the_carrier_and_the_compression() {
    let name = |airline: &str, control: &str, compression: &str| {
        build_filename(airline, control, &compression.to_string())
    };
    assert_eq!(name("XX ", "C", "uncompressed"), "ssim_XX_C.parquet");
    assert_eq!(name("XX ", " ", "uncompressed"), "ssim_XX_.parquet");
    assert_eq!(name(" XX", "C", "gzip"), "ssim_XX_C.parquet.gz");
    assert_eq!(name("XX ", "C", "snappy"), "ssim_XX_C.snappy.parquet");
    assert_eq!(name("XX ", "C", "lz4"), "ssim_XX_C.lz4.parquet");
    assert_eq!(name("XX ", "C", "zstd"), "ssim_XX_C.zstd.parquet");
    assert_eq!(name("XX ", "C", "brotli"), "ssim_XX_C.brotli.parquet");
    assert_eq!(name("XX ", "C", "lzo"), "ssim_XX_C.lzo.parquet");
    assert_eq!(name("XX ", "C", "unheard-of"), "ssim_XX_C.parquet");
    assert_eq!(name("XX ", "C", "GZIP"), "ssim_XX_C.parquet");
    assert_eq!(name("   ", "C", "gzip"), "ssim__.parquet.gz");
    assert_eq!(name("\u{e9}t\u{e9} ", "\tC\r\n", "zstd"), "ssim_\u{e9}t\u{e9}_C.zstd.parquet");
}

#[test]
fn every_carrier_gets_a_file_of_its_own() {
    let lines: Vec<String> = vec![
        CARRIER_LINE.to_string(),
        FLIGHT_LINE.to_string(),
        segment_line(),
        FLIGHT_LINE.to_string(),
        TRAILER_LINE.to_string(),
        CARRIER_LINE.replace("2UXX ", "2UYY "),
        FLIGHT_LINE.replace("3 XX ", "3 YY "),
        TRAILER_LINE.to_string(),
        CARRIER_LINE.replace("2UXX ", "2UZZ "),
        TRAILER_LINE.to_string(),
    ];
    let mut reader = SsimReader::new(Some(1));
    let mut processor = ParquetWriterProcessor::new(Some("snappy"), false);
    let mut written = Vec::new();
    for line in &lines {
        reader.feed_line(line, &mut processor).unwrap();
        written.extend(processor.take_output());
    }
    reader.finish(&mut processor).unwrap();
    written.extend(processor.take_output());
    assert_eq!(written.len(), 2);
    assert_eq!(written[0].name, "ssim_XX_.snappy.parquet");
    assert_eq!(written[0].compression, Compression::Snappy);
    assert_eq!(written[0].table.height(), 2);
    assert_eq!(written[0].table.width(), 63);
    assert_eq!(written[1].name, "ssim_YY_.snappy.parquet");
    assert_eq!(written[1].table.height(), 1);
}

#[test]
fn rows_without_a_trailer_are_written_at_the_end() {
    let mut processor = ParquetWriterProcessor::new(None, true);
    processor
        .process_batch(vec![flight()], vec![segment()], Some(&carrier()))
        .unwrap();
    assert!(processor.take_output().is_empty());
    processor.finalize().unwrap();
    let files = processor.take_output();
    assert_eq!(files.len(), 1);
    assert_eq!(files[0].name, "ssim_XX_.parquet");
    assert_eq!(files[0].table.width(), 58);
    processor.finalize().unwrap();
    assert!(processor.take_output().is_empty());
}

#[test]
fn rows_without_a_carrier_cannot_be_named() {
    let mut processor = ParquetWriterProcessor::new(Some("gzip"), false);
    processor.process_batch(vec![flight()], vec![], None).unwrap();
    match processor.on_carrier_complete(None) {
        Err(SsimError::MissingCarrier) => {}
        other => panic!("unexpected {:?}", other),
    }
    match processor.finalize() {
        Err(SsimError::MissingCarrier) => {}
        other => panic!("unexpected {:?}", other),
    }
    assert!(processor.take_output().is_empty());
    processor.process_batch(vec![], vec![], Some(&carrier())).unwrap();
    processor.on_carrier_complete(Some(&carrier())).unwrap();
    let files = processor.take_output();
    assert_eq!(files.len(), 1);
    assert_eq!(files[0].name, "ssim_XX_.parquet.gz");
    assert_eq!(files[0].table.height(), 1);
}

#[test]
fn an_unknown_compression_is_none() {
    assert_eq!(Compression::from_name("snappy"), Compression::Snappy);
    assert_eq!(Compression::from_name("GZip"), Compression::Gzip);
    assert_eq!(Compression::from_name("LZ4"), Compression::Lz4);
    assert_eq!(Compression::from_name("zstd"), Compression::Zstd);
    assert_eq!(Compression::from_name("Brotli"), Compression::Uncompressed);
    assert_eq!(Compression::from_name("brotli"), Compression::Uncompressed);
    assert_eq!(Compression::from_name("uncompressed"), Compression::Uncompressed);
    assert_eq!(Compression::from_name("none"), Compression::Uncompressed);
    assert_eq!(Compression::from_name("lzo"), Compression::Uncompressed);
    assert_eq!(Compression::from_name("zstd "), Compression::Uncompressed);
    assert_eq!(Compression::from_name("gZIP\u{e9}"), Compression::Uncompressed);
    assert_eq!(Compression::from_name("gzIp"), Compression::Gzip);
    assert_eq!(Compression::from_name("gz)p"), Compression::Uncompressed);
    assert_eq!(Compression::from_name(""), Compression::Uncompressed);
}

#[test]
fn a_path_with_an_extension_names_a_file() {
    assert!(names_a_file("out.parquet"));
    assert!(names_a_file("some/where/out.parquet"));
    assert!(names_a_file("/tmp/archive.tar.gz"));
    assert!(names_a_file("out.parquet/"));
    assert!(names_a_file("dir/out.d/."));
    assert!(names_a_file("dir/name."));
    assert!(names_a_file("..."));
    assert!(names_a_file(".hidden.txt"));
}

#[test]
fn a_path_without_an_extension_names_a_directory() {
    assert!(!names_a_file(""));
    assert!(!names_a_file("."));
    assert!(!names_a_file(".."));
    assert!(!names_a_file("/"));
    assert!(!names_a_file("out"));
    assert!(!names_a_file("some.where/out"));
    assert!(!names_a_file("some.where/out/"));
    assert!(!names_a_file("dir/.hidden"));
    assert!(!names_a_file("a.b/.."));
    assert!(!names_a_file("./"));
    assert!(!names_a_file("out//"));
}
