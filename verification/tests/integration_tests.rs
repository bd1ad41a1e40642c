use polars::prelude::DataFrame;
use rusty_ssim_core::{ssim_to_dataframe, ssim_to_dataframes};
use std::collections::{BTreeMap, BTreeSet};

fn ssim_file_generator(flights_count: i16, ivi_count: i8) -> String {
    let mut lines = vec![
        "1AIRLINE STANDARD SCHEDULE DATA SET                                                                                                                                                            001000001".to_string(),
    ];
    lines.push("2UXX  0008S18 25MAR1827OCT1813OCT17                                    P                                                                                                                      1301000002".to_string());
    for flight_idx in 0..flights_count {
        let flight_number = format!("{:04}", 1000 + flight_idx);
        for ivi in 0..ivi_count {
            let padded_ivi = format!("{:02}", ivi);
            let leg = "01";
            lines.push(format!(
                "3 XX {flight}{ivi_info}{leg_info}J28MAR1803APR18 2      KEF05100510+0000  AMS08000800+0200  73HY                                                             XY   13                            Y189VV738H189         000003",
                flight = flight_number,
                ivi_info = padded_ivi,
                leg_info = leg
            ));

            lines.push(format!(
                "4 XX {flight}{ivi_info}{leg_info}J              AB050AMSGRQKL 2562                                                                                                                                                    000006",
                flight = flight_number,
                ivi_info = padded_ivi,
                leg_info = leg
            ));

            lines.push(format!(
                "4 XX {flight}{ivi_info}{leg_info}J              AB127AMSGRQKLM DBA FLYFREE                                                                                                                                            000006",
                flight = flight_number,
                ivi_info = padded_ivi,
                leg_info = leg
            ));
        }
    }

    lines.push(String::from("5 XX                                                                                                                                                                                       000011E000012"));

    lines.join("\n")
}

fn multi_legged_ssim_file_generator(flights_count: i16, ivi_count: i8) -> String {
    let mut lines = vec![
        "1AIRLINE STANDARD SCHEDULE DATA SET                                                                                                                                                            001000001".to_string(),
    ];
    lines.push("2UXX  0008S18 25MAR1827OCT1813OCT17                                    P                                                                                                                      1301000002".to_string());

    let leg_configs = [
        vec![("KEF", "0510", "AMS", "0800")],
        vec![("LHR", "0900", "JFK", "1200")],
        vec![("CDG", "1400", "DXB", "2300")],
        vec![("KEF", "0510", "AMS", "0800"), ("AMS", "0930", "LHR", "1000")],
        vec![("JFK", "0800", "ORD", "1000"), ("ORD", "1130", "LAX", "1400")],
        vec![("DXB", "0200", "BKK", "1100"), ("BKK", "1230", "SIN", "1530")],
    ];

    for flight_idx in 0..flights_count {
        let flight_number = format!("{:04}", 1000 + flight_idx);
        let selected_config = &leg_configs[(flight_idx as usize * 5 + 3) % leg_configs.len()];

        for ivi in 1..ivi_count {
            let padded_ivi = format!("{:02}", ivi);

            for (leg_idx, leg_data) in selected_config.iter().enumerate() {
                let leg_number = format!("{:02}", leg_idx + 1);
                let (origin, dep_time, dest, arr_time) = leg_data;

                lines.push(format!(
                    "3 XX {flight}{ivi_info}{leg_info}J28MAR1803APR18 2      {origin}{dep}{dep}+0000  {dest}{arr}{arr}+0200  73HY                                                             XY   13                            Y189VV738H189         000003",
                    flight = flight_number,
                    ivi_info = padded_ivi,
                    leg_info = leg_number,
                    origin = origin,
                    dep = dep_time,
                    dest = dest,
                    arr = arr_time
                ));

                lines.push(format!(
                    "4 XX {flight}{ivi_info}{leg_info}J              AB050{origin}{dest}KL 2562                                                                                                                                                    000006",
                    flight = flight_number,
                    ivi_info = padded_ivi,
                    leg_info = leg_number,
                    dest = dest,
                    origin = origin
                ));

                lines.push(format!(
                    "4 XX {flight}{ivi_info}{leg_info}J              AB127{origin}{dest}KLM DBA FLYFREE                                                                                                                                            000006",
                    flight = flight_number,
                    ivi_info = padded_ivi,
                    leg_info = leg_number,
                    dest = dest,
                    origin = origin
                ));
            }
        }
    }

    lines.push(String::from("5 XX                                                                                                                                                                                       000011E000012"));

    lines.join("\n")
}

fn multi_carrier_ssim_file_generator(flights_count: i16, ivi_count: i8) -> String {
    let mut lines = vec![
        "1AIRLINE STANDARD SCHEDULE DATA SET                                                                                                                                                            001000001".to_string(),
    ];

    let carriers = [["XX", " "], ["YY", "X"], ["YY", " "], ["ZZ", " "]];

    for carrier in &carriers {
        let carrier_code = carrier[0];
        let carrier_flag = carrier[1];

        let prefix = format!(
            "2U{}  0008S18 25MAR1827OCT1813OCT17                                    P",
            carrier_code
        );

        let flag_index = 107usize;
        let pad_to_flag = flag_index.saturating_sub(prefix.len());

        let tail = "1301000002";

        let used_before_tail = prefix.len() + pad_to_flag + 1;
        let pad_after_flag = 200usize.saturating_sub(used_before_tail + tail.len());

        let line = format!(
            "{}{}{}{}{}",
            prefix,
            " ".repeat(pad_to_flag),
            carrier_flag,
            " ".repeat(pad_after_flag),
            tail
        );

        lines.push(line);
        for flight_idx in 0..flights_count {
            let flight_number = format!("{:04}", 1000 + flight_idx);
            for ivi in 0..ivi_count {
                let padded_ivi = format!("{:02}", ivi);
                let leg = "01";
                lines.push(format!(
                    "3 {carrier_code} {flight}{ivi_info}{leg_info}J28MAR1803APR18 2      KEF05100510+0000  AMS08000800+0200  73HY                                                             XY   13                            Y189VV738H189         000003",
                    carrier_code=carrier[0],
                    flight = flight_number,
                    ivi_info = padded_ivi,
                    leg_info = leg
                ));

                lines.push(format!(
                    "4 {carrier_code} {flight}{ivi_info}{leg_info}J              AB050AMSGRQKL 2562                                                                                                                                                    000006",
                    carrier_code=carrier[0],
                    flight = flight_number,
                    ivi_info = padded_ivi,
                    leg_info = leg
                ));

                lines.push(format!(
                    "4 {carrier_code} {flight}{ivi_info}{leg_info}J              AB127AMSGRQKLM DBA FLYFREE                                                                                                                                            000006",
                    carrier_code=carrier[0],
                    flight = flight_number,
                    ivi_info = padded_ivi,
                    leg_info = leg
                ));
            }
        }

        lines.push(format!("5 {carrier_code}                                                                                                                                                                                       000011E000012",
                           carrier_code=carrier[0]));
    }
    lines.join("\n")
}

fn lines_of(content: String) -> Vec<String> {
    content.lines().map(|line| line.to_string()).collect()
}

fn texts(df: &DataFrame, name: &str) -> Vec<String> {
    df.column(name)
        .unwrap()
        .str()
        .unwrap()
        .iter()
        .map(|cell| cell.unwrap_or("").to_string())
        .collect()
}

#[test]
fn test_ssim_to_dataframe_success() {
    let lines = lines_of(ssim_file_generator(10, 2));

    let result = ssim_to_dataframe(&lines, Some(10000), Some(false));
    assert!(
        result.is_ok(),
        "Failed to parse SSIM to DataFrame: {:?}",
        result.err()
    );

    let df = result.unwrap();
    assert!(df.height() > 0, "DataFrame should not be empty");

    // Check that we have the expected columns count.
    let column_names = df.get_column_names();
    assert_eq!(column_names.len(), 63);

    println!("DataFrame shape: {:?}", df.shape());
    println!("Columns: {:?}", column_names);
}

#[test]
fn test_ssim_to_dataframes_success() {
    let lines = lines_of(ssim_file_generator(10, 2));

    let result = ssim_to_dataframes(&lines, Some(1000));
    assert!(
        result.is_ok(),
        "Failed to parse SSIM to DataFrames: {:?}",
        result.err()
    );

    let (carriers_df, flights_df, segments_df) = result.unwrap();

    // Check carriers DataFrame
    assert!(
        carriers_df.height() > 0,
        "Carriers DataFrame should not be empty"
    );
    assert_eq!(carriers_df.get_column_names().len(), 16);
    assert_eq!(carriers_df.height(), 1);

    // Check flights DataFrame
    assert!(
        flights_df.height() > 0,
        "Flights DataFrame should not be empty"
    );
    assert_eq!(flights_df.get_column_names().len(), 47);
    assert_eq!(flights_df.height(), 20);

    assert!(
        segments_df.height() > 0,
        "For this test, segments should not be empty"
    );
    assert_eq!(segments_df.get_column_names().len(), 16);
    assert_eq!(segments_df.height(), 40);
}

#[test]
fn test_multi_carrier_ssim_to_dataframe_success() {
    let lines = lines_of(multi_carrier_ssim_file_generator(10, 2));

    let result = ssim_to_dataframe(&lines, Some(10000), Some(false));
    assert!(
        result.is_ok(),
        "Failed to parse SSIM to DataFrame: {:?}",
        result.err()
    );

    let df = result.unwrap();
    assert!(df.height() > 0, "DataFrame should not be empty");

    let unique_carriers: BTreeSet<(String, String)> = texts(&df, "airline_designator")
        .into_iter()
        .zip(texts(&df, "control_duplicate_indicator"))
        .collect();

    let expected_carriers: BTreeSet<(String, String)> = ["XX ", "YY ", "YY ", "ZZ "]
        .iter()
        .zip([" ", "X", " ", " "].iter())
        .map(|(airline, indicator)| (airline.to_string(), indicator.to_string()))
        .collect();

    assert_eq!(unique_carriers, expected_carriers);
}

#[test]
fn test_minimal_ssim_data() {
    let lines = lines_of(ssim_file_generator(2, 1));

    let result = ssim_to_dataframe(&lines, Some(100), Some(false));
    assert!(
        result.is_ok(),
        "Failed to parse minimal SSIM data: {:?}",
        result.err()
    );

    let df = result.unwrap();
    println!("Minimal data shape: {:?}", df.shape());
}

#[test]
fn test_different_batch_sizes() {
    let lines = lines_of(ssim_file_generator(1000, 10));

    // Test with different batch sizes
    for batch_size in [1000, 5000, 10000, 15000] {
        let result = ssim_to_dataframe(&lines, Some(batch_size), Some(false));
        assert!(
            result.is_ok(),
            "Failed with batch size {}: {:?}",
            batch_size,
            result.err()
        );

        let df = result.unwrap();
        println!(
            "Batch size {}: DataFrame shape {:?}",
            batch_size,
            df.shape()
        );
    }
}

#[test]
fn test_condense_segments() {
    let lines = lines_of(ssim_file_generator(10, 5));

    let result = ssim_to_dataframe(&lines, Some(10000), Some(true));
    assert!(
        result.is_ok(),
        "Failed to parse SSIM with condensed segments: {:?}",
        result.err()
    );

    let df = result.unwrap();
    println!("Condensed segments DataFrame shape: {:?}", df.shape());

    // Check that the segment_data column exists
    assert_eq!(df.get_column_names().len(), 58);
}

#[test]
fn test_multi_leg_segments_join() {
    let lines = lines_of(multi_legged_ssim_file_generator(10, 2));

    let result = ssim_to_dataframe(&lines, Some(10000), Some(false));
    let df = result.unwrap();

    let mut leg_count: BTreeMap<(String, String, String), usize> = BTreeMap::new();
    let designators = texts(&df, "flight_designator");
    let indicators = texts(&df, "control_duplicate_indicator");
    let legs = texts(&df, "leg_sequence_number");
    for row in 0..df.height() {
        *leg_count
            .entry((designators[row].clone(), indicators[row].clone(), legs[row].clone()))
            .or_insert(0) += 1;
    }
    let result_agg = leg_count.values().filter(|count| **count > 2).count();

    assert_eq!(
        result_agg, 0,
        "There should be no legs with more than 2 segments."
    );
}

#[test]
fn test_large_file_performance() {
    let lines = lines_of(ssim_file_generator(5000, 20));

    let start = std::time::Instant::now();
    let result = ssim_to_dataframe(&lines, Some(100000), Some(false));
    let duration = start.elapsed();

    assert!(
        result.is_ok(),
        "Failed to parse large SSIM file: {:?}",
        result.err()
    );

    let df = result.unwrap();
    println!("Large file processing time: {:?}", duration);
    println!("Large file DataFrame shape: {:?}", df.shape());

    assert!(
        duration.as_secs() < 240,
        "Processing should complete within < 240 seconds"
    );
}

#[test]
fn a_data_frame_holds_the_cells_of_the_table() {
    let lines = lines_of(ssim_file_generator(1, 1));
    let wide = ssim_to_dataframe(&lines, None, None).unwrap();
    assert_eq!(wide.shape(), (2, 63));
    assert_eq!(texts(&wide, "data"), vec!["KL 2562", "KLM DBA FLYFREE"]);
    assert_eq!(texts(&wide, "season"), vec!["S18", "S18"]);
    let condensed = ssim_to_dataframe(&lines, None, Some(true)).unwrap();
    assert_eq!(condensed.shape(), (1, 58));
    assert_eq!(
        texts(&condensed, "segment_data"),
        vec![concat_json()]
    );
}

fn concat_json() -> String {
    let object = |identifier: &str, data: &str| {
        format!(
            "{{\"board_point_indicator\":\"A\",\"off_point_indicator\":\"B\",\"board_point\":\"AMS\",\"off_point\":\"GRQ\",\"data_element_identifier\":\"{}\",\"data\":\"{}\"}}",
            identifier, data
        )
    };
    format!("[{},{}]", object("050", "KL 2562"), object("127", "KLM DBA FLYFREE"))
}
