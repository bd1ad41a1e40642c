use rusty_ssim_core::records::carrier_record::CarrierRecord;
use rusty_ssim_core::records::flight_leg_records::FlightLegRecord;
use rusty_ssim_core::records::segment_records::SegmentRecords;
use rusty_ssim_core::utils::errors::SsimError;
use rusty_ssim_core::utils::ssim_reader::{BatchProcessor, SsimReader};

const HEADER: &str = "1AIRLINE STANDARD SCHEDULE DATA SET                                                                                                                                                            001000001";

fn carrier_line(airline: &str, indicator: &str) -> String {
    let mut line = format!("2U{:<3}  0008S18 25MAR1827OCT1813OCT17{:<29}P", airline, "");
    while line.len() < 107 {
        line.push(' ');
    }
    line.push_str(indicator);
    while line.len() < 190 {
        line.push(' ');
    }
    line.push_str("1301000002");
    assert_eq!(line.len(), 200);
    line
}

fn flight_line(airline: &str, number: u32, leg: u32) -> String {
    let line = format!(
        "3 {:<3}{:04}01{:02}J28MAR1803APR18 2      KEF05100510+0000  AMS08000800+0200  73HY                                                             XY   13                            Y189VV738H189         000003",
        airline, number, leg
    );
    assert_eq!(line.len(), 200);
    line
}

fn segment_line(airline: &str, number: u32, leg: u32, data: &str) -> String {
    let line = format!(
        "4 {:<3}{:04}01{:02}J              AB050AMSGRQ{:<155}000006",
        airline, number, leg, data
    );
    assert_eq!(line.len(), 200);
    line
}

fn trailer_line(airline: &str) -> String {
    format!("5 {:<3}{:<189}E000012", airline, "")
}

/// What one call of a processor was told.
#[derive(Debug, Clone, PartialEq)]
enum Told {
    Batch {
        carrier: Option<(String, String)>,
        flights: Vec<(String, String)>,
        segments: Vec<(String, String)>,
    },
    Complete(Option<String>),
    End,
}

struct Recorder {
    told: Vec<Told>,
    fail_at: Option<usize>,
    calls: usize,
}

impl Recorder {
    fn new() -> Self {
        Recorder { told: Vec::new(), fail_at: None, calls: 0 }
    }

    fn check(&mut self) -> Result<(), SsimError> {
        self.calls += 1;
        if self.fail_at == Some(self.told.len()) {
            Err(SsimError::Output(format!("disk full at call {}", self.calls)))
        } else {
            Ok(())
        }
    }
}

impl BatchProcessor for Recorder {
    type Setup = ();

    fn process_batch(
        &mut self,
        flight_batch: Vec<FlightLegRecord>,
        segment_batch: Vec<SegmentRecords>,
        carrier: Option<&CarrierRecord>,
    ) -> Result<(), SsimError> {
        self.check()?;
        self.told.push(Told::Batch {
            carrier: carrier.map(|c| {
                (c.airline_designator.clone(), c.control_duplicate_indicator.clone())
            }),
            flights: flight_batch
                .iter()
                .map(|f| (f.flight_number.clone(), f.control_duplicate_indicator.clone()))
                .collect(),
            segments: segment_batch
                .iter()
                .map(|s| (s.flight_number.clone(), s.data.clone()))
                .collect(),
        });
        Ok(())
    }

    fn on_carrier_complete(&mut self, carrier: Option<&CarrierRecord>) -> Result<(), SsimError> {
        self.check()?;
        self.told.push(Told::Complete(carrier.map(|c| c.airline_designator.clone())));
        Ok(())
    }

    fn finalize(&mut self) -> Result<(), SsimError> {
        self.check()?;
        self.told.push(Told::End);
        Ok(())
    }
}

fn run(lines: &[String], batch_size: usize) -> Vec<Told> {
    let mut reader = SsimReader::new(Some(batch_size));
    let mut recorder = Recorder::new();
    reader.process(&lines.to_vec(), &mut recorder).unwrap();
    recorder.told
}

fn two_flights() -> Vec<String> {
    vec![
        HEADER.to_string(),
        carrier_line("XX", "C"),
        flight_line("XX", 1, 1),
        segment_line("XX", 1, 1, "ONE A"),
        segment_line("XX", 1, 1, "ONE B"),
        flight_line("XX", 2, 1),
        segment_line("XX", 2, 1, "TWO A"),
        trailer_line("XX"),
    ]
}

fn pair(a: &str, b: &str) -> (String, String) {
    (a.to_string(), b.to_string())
}

#[test]
fn default_batch_size_is_ten_thousand() {
    assert_eq!(SsimReader::new(None).batch_size(), 10_000);
    assert_eq!(SsimReader::new(Some(7)).batch_size(), 7);
}

#[test]
fn a_full_batch_waits_for_the_segments_of_its_last_leg() {
    let told = run(&two_flights(), 1);
    let carrier = Some(pair("XX ", "C"));
    assert_eq!(
        told,
        vec![
            Told::Batch {
                carrier: carrier.clone(),
                flights: vec![pair("0001", "C")],
                segments: vec![pair("0001", "ONE A"), pair("0001", "ONE B")],
            },
            Told::Batch {
                carrier: carrier.clone(),
                flights: vec![pair("0002", "C")],
                segments: vec![pair("0002", "TWO A")],
            },
            Told::Complete(Some("XX ".to_string())),
            Told::End,
        ]
    );
}

#[test]
fn a_batch_is_cut_at_the_next_leg_once_it_is_full() {
    let told = run(&two_flights(), 3);
    assert_eq!(told.len(), 4);
    match &told[0] {
        Told::Batch { flights, segments, .. } => {
            assert_eq!(flights.len(), 1);
            assert_eq!(segments.len(), 2);
        }
        other => panic!("unexpected {:?}", other),
    }
}

#[test]
fn a_trailer_hands_on_what_is_gathered_however_little() {
    let told = run(&two_flights(), 10_000);
    assert_eq!(
        told,
        vec![
            Told::Batch {
                carrier: Some(pair("XX ", "C")),
                flights: vec![pair("0001", "C"), pair("0002", "C")],
                segments: vec![
                    pair("0001", "ONE A"),
                    pair("0001", "ONE B"),
                    pair("0002", "TWO A")
                ],
            },
            Told::Complete(Some("XX ".to_string())),
            Told::End,
        ]
    );
}

#[test]
fn lines_that_are_passed_over_do_not_end_a_batch() {
    let lines = vec![
        carrier_line("XX", " "),
        flight_line("XX", 1, 1),
        "0 filler".to_string(),
        String::new(),
        HEADER.to_string(),
        "garbage".to_string(),
        segment_line("XX", 1, 1, "KEPT"),
        flight_line("XX", 2, 1),
    ];
    let told = run(&lines, 1);
    assert_eq!(
        told,
        vec![
            Told::Batch {
                carrier: Some(pair("XX ", " ")),
                flights: vec![pair("0001", " ")],
                segments: vec![pair("0001", "KEPT")],
            },
            Told::Batch {
                carrier: Some(pair("XX ", " ")),
                flights: vec![pair("0002", " ")],
                segments: vec![],
            },
            Told::End,
        ]
    );
}

#[test]
fn records_outside_a_carrier_section_are_dropped() {
    let lines = vec![
        flight_line("XX", 1, 1),
        segment_line("XX", 1, 1, "BEFORE"),
        carrier_line("XX", "A"),
        flight_line("XX", 2, 1),
        trailer_line("XX"),
        flight_line("XX", 3, 1),
        segment_line("XX", 3, 1, "AFTER"),
        carrier_line("YY", "B"),
        segment_line("YY", 4, 1, "INSIDE"),
    ];
    let told = run(&lines, 100);
    assert_eq!(
        told,
        vec![
            Told::Batch {
                carrier: Some(pair("XX ", "A")),
                flights: vec![pair("0002", "A")],
                segments: vec![],
            },
            Told::Complete(Some("XX ".to_string())),
            Told::Batch {
                carrier: Some(pair("YY ", "B")),
                flights: vec![],
                segments: vec![pair("0004", "INSIDE")],
            },
            Told::End,
        ]
    );
}

#[test]
fn a_trailer_without_a_carrier_still_completes() {
    let told = run(&[trailer_line("XX")], 10);
    assert_eq!(told, vec![Told::Complete(None), Told::End]);
}

#[test]
fn an_empty_input_only_finalizes() {
    assert_eq!(run(&[], 10), vec![Told::End]);
}

#[test]
fn a_new_header_replaces_the_carrier_without_flushing() {
    let lines = vec![
        carrier_line("XX", "A"),
        flight_line("XX", 1, 1),
        carrier_line("YY", "B"),
        flight_line("YY", 2, 1),
        trailer_line("YY"),
    ];
    let told = run(&lines, 100);
    assert_eq!(
        told,
        vec![
            Told::Batch {
                carrier: Some(pair("YY ", "B")),
                flights: vec![pair("0001", "A"), pair("0002", "B")],
                segments: vec![],
            },
            Told::Complete(Some("YY ".to_string())),
            Told::End,
        ]
    );
}

#[test]
fn unparsable_lines_are_left_out() {
    let mut short = flight_line("XX", 9, 1);
    short.truncate(120);
    let mut foreign = flight_line("XX", 8, 1);
    foreign.replace_range(100..101, "\u{e9}");
    let lines = vec![
        carrier_line("XX", " "),
        short,
        foreign,
        flight_line("XX", 1, 1),
        trailer_line("XX"),
    ];
    let told = run(&lines, 100);
    assert_eq!(
        told[0],
        Told::Batch {
            carrier: Some(pair("XX ", " ")),
            flights: vec![pair("0001", " ")],
            segments: vec![],
        }
    );
}

#[test]
fn batch_size_zero_cuts_like_batch_size_one() {
    assert_eq!(run(&two_flights(), 0), run(&two_flights(), 1));
}

#[test]
fn the_batch_size_does_not_change_what_is_handed_on() {
    let mut lines = vec![HEADER.to_string()];
    for (airline, indicator) in [("XX", " "), ("YY", "X"), ("ZZ", "Q")] {
        lines.push(carrier_line(airline, indicator));
        for number in 0..40 {
            lines.push(flight_line(airline, number, 1));
            for detail in 0..(number % 4) {
                lines.push(segment_line(airline, number, 1, &format!("D{}", detail)));
            }
        }
        lines.push(trailer_line(airline));
    }
    let flatten = |told: Vec<Told>| {
        let mut flights = Vec::new();
        let mut segments = Vec::new();
        for event in told {
            if let Told::Batch { carrier, flights: f, segments: s } = event {
                let carrier = carrier.unwrap();
                for flight in f {
                    assert_eq!(flight.1, carrier.1);
                    flights.push(flight);
                }
                segments.extend(s);
            }
        }
        (flights, segments)
    };
    let small = flatten(run(&lines, 1));
    let medium = flatten(run(&lines, 100));
    let large = flatten(run(&lines, 10_000));
    assert_eq!(small.0.len(), 120);
    assert_eq!(small.1.len(), 180);
    assert_eq!(small, medium);
    assert_eq!(small, large);
}

#[test]
fn a_failing_processor_stops_the_reader() {
    let mut reader = SsimReader::new(Some(1));
    let mut recorder = Recorder::new();
    recorder.fail_at = Some(1);
    let outcome = reader.process(&two_flights(), &mut recorder);
    match outcome {
        Err(SsimError::Output(message)) => assert_eq!(message, "disk full at call 2"),
        other => panic!("unexpected {:?}", other),
    }
    assert_eq!(recorder.told.len(), 1);
    assert_eq!(recorder.calls, 2);
}

#[test]
fn the_call_that_fails_is_the_last_one_made() {
    let all = run(&two_flights(), 1);
    for fail_at in 0..all.len() {
        let mut reader = SsimReader::new(Some(1));
        let mut recorder = Recorder::new();
        recorder.fail_at = Some(fail_at);
        match reader.process(&two_flights(), &mut recorder) {
            Err(SsimError::Output(message)) => {
                assert_eq!(message, format!("disk full at call {}", fail_at + 1))
            },
            other => panic!("unexpected {:?}", other),
        }
        assert_eq!(recorder.calls, fail_at + 1);
        assert_eq!(recorder.told, all[..fail_at].to_vec());
    }
}

#[test]
fn a_line_that_makes_nothing_due_cannot_fail() {
    let mut reader = SsimReader::new(Some(1));
    let mut recorder = Recorder::new();
    recorder.fail_at = Some(0);
    let lines = two_flights();
    reader.feed_line(&lines[0], &mut recorder).unwrap();
    reader.feed_line("", &mut recorder).unwrap();
    reader.feed_line(&lines[1], &mut recorder).unwrap();
    assert_eq!(recorder.calls, 0);
    assert!(reader.finish(&mut recorder).is_err());
    assert_eq!(recorder.calls, 1);
}

#[test]
fn lines_can_be_fed_one_by_one() {
    let mut reader = SsimReader::new(Some(1));
    let mut recorder = Recorder::new();
    for line in two_flights() {
        reader.feed_line(&line, &mut recorder).unwrap();
    }
    assert_eq!(recorder.told.len(), 3);
    reader.finish(&mut recorder).unwrap();
    assert_eq!(recorder.told, run(&two_flights(), 1));
}
