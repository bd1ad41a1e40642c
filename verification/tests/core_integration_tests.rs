use polars::prelude::DataFrame;
use rusty_ssim_core::{ssim_to_dataframe, ssim_to_dataframes};
use std::collections::BTreeSet;

fn ssim_file_generator(flights_count: i16, ivi_count: i8) -> String {
    let mut lines = vec![
        "1AIRLINE STANDARD SCHEDULE DATA SET                                                                                                                                                            001000001".to_string(),
    ];
    lines.push("2UXX  0008S18 25MAR1827OCT1813OCT17                                    P                                                                                                                      1301000002".to_string());
    for flight_idx in 0..flights_count {
        let flight_number = format!("{:04}", 1000 + flight_idx);
        for ivi in 0..ivi_count {
            let padded_ivi = format!("{:02}", ivi);
            let leg = "01";
            lines.push(format!(
                "3 XX {flight}{ivi_info}{leg_info}J28MAR1803APR18 2      KEF05100510+0000  AMS08000800+0200  73HY                                                             XY   13                            Y189VV738H189         000003",
                flight = flight_number,
                ivi_info = padded_ivi,
                leg_info = leg
            ));

            lines.push(format!(
                "4 XX {flight}{ivi_info}{leg_info}J              AB050AMSGRQKL 2562                                                                                                                                                    000006",
                flight = flight_number,
                ivi_info = padded_ivi,
                leg_info = leg
            ));

            lines.push(format!(
                "4 XX {flight}{ivi_info}{leg_info}J              AB127AMSGRQKLM DBA FLYFREE                                                                                                                                            000006",
                flight = flight_number,
                ivi_info = padded_ivi,
                leg_info = leg
            ));
        }
    }

    lines.push(String::from("5 XX                                                                                                                                                                                       000011E000012"));

    lines.join("\n")
}

fn multi_carrier_ssim_file_generator(flights_count: i16, ivi_count: i8) -> String {
    let mut lines = vec![
        "1AIRLINE STANDARD SCHEDULE DATA SET                                                                                                                                                            001000001".to_string(),
    ];

    let carriers = ["XX ", "YY ", "ZZ "];

    for carrier in &carriers {
        lines.push(format!("2U{carrier_code}  0008S18 25MAR1827OCT1813OCT17                                    P                                                                                                                      1301000002",
                           carrier_code=carrier
        ));

        for flight_idx in 0..flights_count {
            let flight_number = format!("{:04}", 1000 + flight_idx);
            for ivi in 0..ivi_count {
                let padded_ivi = format!("{:02}", ivi);
                let leg = "01";
                lines.push(format!(
                    "3 {carrier_code} {flight}{ivi_info}{leg_info}J28MAR1803APR18 2      KEF05100510+0000  AMS08000800+0200  73HY                                                             XY   13                            Y189VV738H189         000003",
                    carrier_code=carrier,
                    flight = flight_number,
                    ivi_info = padded_ivi,
                    leg_info = leg
                ));

                lines.push(format!(
                    "4 {carrier_code} {flight}{ivi_info}{leg_info}J              AB050AMSGRQKL 2562                                                                                                                                                    000006",
                    carrier_code=carrier,
                    flight = flight_number,
                    ivi_info = padded_ivi,
                    leg_info = leg
                ));

                lines.push(format!(
                    "4 {carrier_code} {flight}{ivi_info}{leg_info}J              AB127AMSGRQKLM DBA FLYFREE                                                                                                                                            000006",
                    carrier_code=carrier,
                    flight = flight_number,
                    ivi_info = padded_ivi,
                    leg_info = leg
                ));
            }
        }

        lines.push(format!("5 {carrier_code}                                                                                                                                                                                       000011E000012",
                           carrier_code=carrier));
    }
    lines.join("\n")
}

fn lines_of(content: String) -> Vec<String> {
    content.lines().map(|line| line.to_string()).collect()
}

fn texts(df: &DataFrame, name: &str) -> Vec<String> {
    df.column(name)
        .unwrap()
        .str()
        .unwrap()
        .iter()
        .map(|cell| cell.unwrap_or("").to_string())
        .collect()
}

#[test]
fn integration_tests_test_ssim_to_dataframe_success() {
    let lines = lines_of(ssim_file_generator(10, 2));

    let result = ssim_to_dataframe(&lines, Some(10000), None);
    assert!(
        result.is_ok(),
        "Failed to parse SSIM to DataFrame: {:?}",
        result.err()
    );

    let df = result.unwrap();
    assert!(df.height() > 0, "DataFrame should not be empty");

    // Check that we have the expected columns count.
    let column_names = df.get_column_names();
    assert_eq!(column_names.len(), 63);

    println!("DataFrame shape: {:?}", df.shape());
    println!("Columns: {:?}", column_names);
}

#[test]
fn integration_tests_test_ssim_to_dataframes_success() {
    let lines = lines_of(ssim_file_generator(10, 2));

    let result = ssim_to_dataframes(&lines, Some(1000));
    assert!(
        result.is_ok(),
        "Failed to parse SSIM to DataFrames: {:?}",
        result.err()
    );

    let (carriers_df, flights_df, segments_df) = result.unwrap();

    // Check carriers DataFrame
    assert!(
        carriers_df.height() > 0,
        "Carriers DataFrame should not be empty"
    );
    assert_eq!(carriers_df.get_column_names().len(), 16);
    assert_eq!(carriers_df.height(), 1);

    // Check flights DataFrame
    assert!(
        flights_df.height() > 0,
        "Flights DataFrame should not be empty"
    );
    assert_eq!(flights_df.get_column_names().len(), 47);
    assert_eq!(flights_df.height(), 20);

    assert!(
        segments_df.height() > 0,
        "For this test, segments should not be empty"
    );
    assert_eq!(segments_df.get_column_names().len(), 16);
    assert_eq!(segments_df.height(), 40);
}

#[test]
fn integration_tests_test_multi_carrier_ssim_to_dataframe_success() {
    let lines = lines_of(multi_carrier_ssim_file_generator(10, 2));

    let result = ssim_to_dataframe(&lines, Some(10000), None);
    assert!(
        result.is_ok(),
        "Failed to parse SSIM to DataFrame: {:?}",
        result.err()
    );

    let df = result.unwrap();
    assert!(df.height() > 0, "DataFrame should not be empty");

    let unique_carriers: BTreeSet<(String, String)> = texts(&df, "airline_designator")
        .into_iter()
        .zip(texts(&df, "control_duplicate_indicator"))
        .collect();

    let expected_carriers: BTreeSet<(String, String)> = ["XX ", "YY ", "ZZ "]
        .iter()
        .zip([" ", " ", " "].iter())
        .map(|(airline, indicator)| (airline.to_string(), indicator.to_string()))
        .collect();

    assert_eq!(unique_carriers, expected_carriers);
}

#[test]
fn integration_tests_test_minimal_ssim_data() {
    let lines = lines_of(ssim_file_generator(2, 1));

    let result = ssim_to_dataframe(&lines, Some(100), None);
    assert!(
        result.is_ok(),
        "Failed to parse minimal SSIM data: {:?}",
        result.err()
    );

    let df = result.unwrap();
    println!("Minimal data shape: {:?}", df.shape());
}

#[test]
fn integration_tests_test_different_batch_sizes() {
    let lines = lines_of(ssim_file_generator(1000, 10));

    // Test with different batch sizes
    for batch_size in [1000, 5000, 10000, 15000] {
        let result = ssim_to_dataframe(&lines, Some(batch_size), None);
        assert!(
            result.is_ok(),
            "Failed with batch size {}: {:?}",
            batch_size,
            result.err()
        );

        let df = result.unwrap();
        println!(
            "Batch size {}: DataFrame shape {:?}",
            batch_size,
            df.shape()
        );
    }
}

#[test]
fn integration_tests_test_large_file_performance() {
    let lines = lines_of(ssim_file_generator(5000, 20));

    let start = std::time::Instant::now();
    let result = ssim_to_dataframe(&lines, Some(100000), None);
    let duration = start.elapsed();

    assert!(
        result.is_ok(),
        "Failed to parse large SSIM file: {:?}",
        result.err()
    );

    let df = result.unwrap();
    println!("Large file processing time: {:?}", duration);
    println!("Large file DataFrame shape: {:?}", df.shape());

    assert!(
        duration.as_secs() < 240,
        "Processing should complete within < 240 seconds"
    );
}
