//! The batch reader: a small state machine that takes a schedule file line
//! by line, keeps track of the active carrier, gathers flight legs and
//! segments, and hands them on in batches.
//!
//! A batch is cut when the gathered records reach the batch size, but never
//! between a flight leg and the segments that follow it: a full batch stays
//! open while segment lines keep coming, and is handed on only when a line
//! of another record family arrives. A trailer hands on whatever is
//! gathered, however little, and ends the carrier's section.

use crate::records::carrier_record::{CarrierRecord, CarrierView};
use crate::records::flight_leg_records::{FlightLegRecord, FlightLegView};
use crate::records::segment_records::{SegmentRecords, SegmentView};
use crate::utils::errors::SsimError;
use crate::utils::ssim_parser::{
    active_view, carrier_of, classify, flight_leg_of, kind_of, parsable, parse_carrier_record,
    parse_flight_leg_under, parse_segment_under, segment_of, LineKind,
};
use vstd::prelude::*;

verus! {

/// Records per batch when none is asked for.
pub const DEFAULT_BATCH_SIZE: usize = 10_000;

/// Size in bytes of the read buffer when none is asked for.
pub const DEFAULT_BUFFER_SIZE: usize = 8 * 1024;

/// What the reader hands to an output strategy.
pub enum BatchEvent {
    /// A batch of flight legs and segments, with the carrier that is active
    /// when the batch is handed on.
    Batch { carrier: Option<CarrierView>, flights: Seq<FlightLegView>, segments: Seq<SegmentView> },
    /// A trailer was read: the carrier's section is complete.
    CarrierComplete { carrier: Option<CarrierView> },
    /// The input has ended.
    Finalize,
}

/// The flight legs of a batch as plain values.
pub open spec fn flight_views(flights: Seq<FlightLegRecord>) -> Seq<FlightLegView> {
    flights.map_values(|f: FlightLegRecord| f@)
}

/// The segments of a batch as plain values.
pub open spec fn segment_views(segments: Seq<SegmentRecords>) -> Seq<SegmentView> {
    segments.map_values(|s: SegmentRecords| s@)
}

/// The lines of an input as plain values.
pub open spec fn line_views(lines: Seq<String>) -> Seq<Seq<char>> {
    lines.map_values(|l: String| l@)
}

/// The state of the reader between two lines: the active carrier and the
/// records gathered since the last batch.
pub struct Pending {
    pub carrier: Option<CarrierView>,
    pub flights: Seq<FlightLegView>,
    pub segments: Seq<SegmentView>,
}

impl Pending {
    /// Before the first line: no carrier, nothing gathered.
    pub open spec fn start() -> Pending {
        Pending { carrier: None, flights: Seq::empty(), segments: Seq::empty() }
    }

    /// Number of gathered records.
    pub open spec fn count(self) -> nat {
        self.flights.len() + self.segments.len()
    }

    /// Whether the gathered records have reached the batch size.
    pub open spec fn is_full(self, batch_size: nat) -> bool {
        self.count() > 0 && self.count() >= batch_size
    }

    /// The gathered records as one batch.
    pub open spec fn batch(self) -> BatchEvent {
        BatchEvent::Batch { carrier: self.carrier, flights: self.flights, segments: self.segments }
    }

    /// The same carrier with nothing gathered.
    pub open spec fn emptied(self) -> Pending {
        Pending { carrier: self.carrier, flights: Seq::empty(), segments: Seq::empty() }
    }

    /// The batch that is handed on when whatever is gathered must go.
    pub open spec fn flush(self) -> Seq<BatchEvent> {
        if self.count() > 0 {
            seq![self.batch()]
        } else {
            Seq::empty()
        }
    }

    /// The batch that is handed on when a line arrives that may end a batch.
    pub open spec fn boundary(self, batch_size: nat) -> Seq<BatchEvent> {
        if self.is_full(batch_size) {
            seq![self.batch()]
        } else {
            Seq::empty()
        }
    }

    /// The state after `boundary`.
    pub open spec fn after_boundary(self, batch_size: nat) -> Pending {
        if self.is_full(batch_size) {
            self.emptied()
        } else {
            self
        }
    }

    /// The state after one more line.
    pub open spec fn step(self, batch_size: nat, line: Seq<char>) -> Pending {
        match kind_of(line) {
            LineKind::Skip => self,
            LineKind::Segment => match self.carrier {
                Some(c) => if parsable(line) {
                    Pending {
                        segments: self.segments.push(
                            segment_of(line, c.control_duplicate_indicator),
                        ),
                        ..self
                    }
                } else {
                    self
                },
                None => self,
            },
            LineKind::FlightLeg => {
                let open = self.after_boundary(batch_size);
                match open.carrier {
                    Some(c) => if parsable(line) {
                        Pending {
                            flights: open.flights.push(
                                flight_leg_of(line, c.control_duplicate_indicator),
                            ),
                            ..open
                        }
                    } else {
                        open
                    },
                    None => open,
                }
            },
            LineKind::Carrier => {
                let open = self.after_boundary(batch_size);
                if parsable(line) {
                    Pending { carrier: Some(carrier_of(line)), ..open }
                } else {
                    open
                }
            },
            LineKind::Trailer => Pending::start(),
        }
    }

    /// What is handed on because of one more line.
    pub open spec fn step_events(self, batch_size: nat, line: Seq<char>) -> Seq<BatchEvent> {
        match kind_of(line) {
            LineKind::Skip => Seq::empty(),
            LineKind::Segment => Seq::empty(),
            LineKind::FlightLeg => self.boundary(batch_size),
            LineKind::Carrier => self.boundary(batch_size),
            LineKind::Trailer => self.flush().push(
                BatchEvent::CarrierComplete { carrier: self.carrier },
            ),
        }
    }

    /// What is handed on when the input ends.
    pub open spec fn finish_events(self) -> Seq<BatchEvent> {
        self.flush().push(BatchEvent::Finalize)
    }

    /// The state after a run of lines.
    pub open spec fn after(self, batch_size: nat, lines: Seq<Seq<char>>) -> Pending
        decreases lines.len(),
    {
        if lines.len() == 0 {
            self
        } else {
            self.after(batch_size, lines.drop_last()).step(batch_size, lines.last())
        }
    }

    /// What is handed on during a run of lines.
    pub open spec fn events(self, batch_size: nat, lines: Seq<Seq<char>>) -> Seq<BatchEvent>
        decreases lines.len(),
    {
        if lines.len() == 0 {
            Seq::empty()
        } else {
            self.events(batch_size, lines.drop_last()) + self.after(
                batch_size,
                lines.drop_last(),
            ).step_events(batch_size, lines.last())
        }
    }

    /// What is handed on for a run of lines followed by the end of input.
    pub open spec fn whole(self, batch_size: nat, lines: Seq<Seq<char>>) -> Seq<BatchEvent> {
        self.events(batch_size, lines) + self.after(batch_size, lines).finish_events()
    }
}

/// Everything that reading a whole input hands on, from the first line to
/// the end of input.
pub open spec fn run(batch_size: nat, lines: Seq<Seq<char>>) -> Seq<BatchEvent> {
    Pending::start().whole(batch_size, lines)
}

/// A call that a strategy refused: what it was handed, and the error that
/// it gave.
pub struct Refusal {
    pub event: BatchEvent,
    pub error: SsimError,
}

/// An output strategy: whatever consumes the batches that the reader hands
/// on.
pub trait BatchProcessor {
    /// What a strategy is set up with when it is made.
    type Setup;

    /// What the strategy was set up with. It never changes.
    open spec fn setup(&self) -> Self::Setup {
        arbitrary()
    }

    /// Whether the strategy's own bookkeeping is in order. Every strategy is
    /// made so, and stays so.
    open spec fn sound(&self) -> bool {
        true
    }

    /// Whether the strategy can be relied on to take in whatever it is
    /// handed. A strategy that writes to a disk cannot; one that gathers
    /// tables in memory can.
    open spec fn reliable(&self) -> bool {
        false
    }

    /// What the strategy has taken in so far, oldest first.
    open spec fn handled(&self) -> Seq<BatchEvent> {
        arbitrary()
    }

    /// What the strategy has refused so far, oldest first, each with the
    /// error that it gave.
    open spec fn refused(&self) -> Seq<Refusal> {
        arbitrary()
    }

    /// Takes in a batch of flight legs and segments, with the carrier that is
    /// active. A strategy that fails takes nothing in.
    fn process_batch(
        &mut self,
        flight_batch: Vec<FlightLegRecord>,
        segment_batch: Vec<SegmentRecords>,
        carrier: Option<&CarrierRecord>,
    ) -> (done: Result<(), SsimError>)
        requires
            old(self).sound(),
        ensures
            final(self).sound(),
            final(self).setup() == old(self).setup(),
            old(self).reliable() ==> done is Ok && final(self).reliable(),
            done is Ok ==> final(self).handled() == old(self).handled().push(
                BatchEvent::Batch {
                    carrier: active_view(carrier),
                    flights: flight_views(flight_batch@),
                    segments: segment_views(segment_batch@),
                },
            ),
            done is Err ==> final(self).handled() == old(self).handled(),
            done is Ok ==> final(self).refused() == old(self).refused(),
            done matches Err(e) ==> final(self).refused() == old(self).refused().push(
                (Refusal {
                    event: BatchEvent::Batch {
                        carrier: active_view(carrier),
                        flights: flight_views(flight_batch@),
                        segments: segment_views(segment_batch@),
                    },
                    error: e,
                }),
            ),
    ;

    /// Is told that a carrier's section has ended.
    fn on_carrier_complete(&mut self, carrier: Option<&CarrierRecord>) -> (done: Result<
        (),
        SsimError,
    >)
        requires
            old(self).sound(),
        ensures
            final(self).sound(),
            final(self).setup() == old(self).setup(),
            old(self).reliable() ==> done is Ok && final(self).reliable(),
            done is Ok ==> final(self).handled() == old(self).handled().push(
                BatchEvent::CarrierComplete { carrier: active_view(carrier) },
            ),
            done is Err ==> final(self).handled() == old(self).handled(),
            done is Ok ==> final(self).refused() == old(self).refused(),
            done matches Err(e) ==> final(self).refused() == old(self).refused().push(
                (Refusal {
                    event: BatchEvent::CarrierComplete { carrier: active_view(carrier) },
                    error: e,
                }),
            ),
    ;

    /// Is told that the input has ended.
    fn finalize(&mut self) -> (done: Result<(), SsimError>)
        requires
            old(self).sound(),
        ensures
            final(self).sound(),
            final(self).setup() == old(self).setup(),
            old(self).reliable() ==> done is Ok && final(self).reliable(),
            done is Ok ==> final(self).handled() == old(self).handled().push(BatchEvent::Finalize),
            done is Err ==> final(self).handled() == old(self).handled(),
            done is Ok ==> final(self).refused() == old(self).refused(),
            done matches Err(e) ==> final(self).refused() == old(self).refused().push(
                (Refusal { event: BatchEvent::Finalize, error: e }),
            ),
    ;
}

/// Whether `got` is `all` cut short: a strategy failed before everything was
/// handed on.
pub open spec fn cut_short(got: Seq<BatchEvent>, all: Seq<BatchEvent>) -> bool {
    got.len() < all.len() && got == all.take(got.len() as int)
}

/// Whether the one call that a strategy has refused since `before` is the
/// call for the first of `all` that it has not taken in, and `error` is the
/// error that it gave then. Nothing was handed to it after that call.
pub open spec fn stopped_at(
    before: Seq<Refusal>,
    after: Seq<Refusal>,
    got: Seq<BatchEvent>,
    all: Seq<BatchEvent>,
    error: SsimError,
) -> bool {
    got.len() < all.len() && after == before.push(
        Refusal { event: all[got.len() as int], error },
    )
}

/// The batch reader.
pub struct SsimReader {
    batch_size: usize,
    active_carrier: Option<CarrierRecord>,
    flight_batch: Vec<FlightLegRecord>,
    segment_batch: Vec<SegmentRecords>,
}

impl View for SsimReader {
    type V = Pending;

    closed spec fn view(&self) -> Pending {
        Pending {
            carrier: match self.active_carrier {
                Some(c) => Some(c@),
                None => None,
            },
            flights: flight_views(self.flight_batch@),
            segments: segment_views(self.segment_batch@),
        }
    }
}

impl SsimReader {
    /// The batch size that the reader was made with.
    pub closed spec fn spec_batch_size(&self) -> nat {
        self.batch_size as nat
    }

    /// A reader before the first line, with the given batch size or the
    /// default one.
    pub fn new(batch_size: Option<usize>) -> (reader: SsimReader)
        ensures
            reader@ == Pending::start(),
            reader.spec_batch_size() == match batch_size {
                Some(n) => n,
                None => DEFAULT_BATCH_SIZE,
            },
    {
        let size = match batch_size {
            Some(n) => n,
            None => DEFAULT_BATCH_SIZE,
        };
        let reader = SsimReader {
            batch_size: size,
            active_carrier: None,
            flight_batch: Vec::new(),
            segment_batch: Vec::new(),
        };
        assert(reader@.flights == Seq::<FlightLegView>::empty());
        assert(reader@.segments == Seq::<SegmentView>::empty());
        reader
    }

    /// The batch size in use.
    pub fn batch_size(&self) -> (size: usize)
        ensures
            size == self.spec_batch_size(),
    {
        self.batch_size
    }

    /// Whether the gathered records have reached the batch size.
    fn is_full(&self) -> (full: bool)
        ensures
            full == self@.is_full(self.spec_batch_size()),
    {
        let flights = self.flight_batch.len();
        let segments = self.segment_batch.len();
        (flights > 0 || segments > 0) && (flights >= self.batch_size || segments
            >= self.batch_size - flights)
    }

    /// Hands the gathered records on as one batch and starts gathering anew.
    fn hand_on<P: BatchProcessor>(&mut self, processor: &mut P) -> (done: Result<(), SsimError>)
        requires
            old(processor).sound(),
        ensures
            final(processor).sound(),
            final(processor).setup() == old(processor).setup(),
            old(processor).reliable() ==> done is Ok && final(processor).reliable(),
            final(self).spec_batch_size() == old(self).spec_batch_size(),
            final(self)@ == old(self)@.emptied(),
            done is Ok ==> final(processor).handled() == old(processor).handled().push(
                old(self)@.batch(),
            ),
            done is Err ==> final(processor).handled() == old(processor).handled(),
            done is Ok ==> final(processor).refused() == old(processor).refused(),
            done matches Err(e) ==> final(processor).refused() == old(processor).refused().push(
                (Refusal { event: old(self)@.batch(), error: e }),
            ),
    {
        let mut flights: Vec<FlightLegRecord> = Vec::new();
        let mut segments: Vec<SegmentRecords> = Vec::new();
        core::mem::swap(&mut flights, &mut self.flight_batch);
        core::mem::swap(&mut segments, &mut self.segment_batch);
        assert(self@.flights == Seq::<FlightLegView>::empty());
        assert(self@.segments == Seq::<SegmentView>::empty());
        processor.process_batch(flights, segments, self.active_carrier.as_ref())
    }

    /// Takes in one line and hands on to `processor` what the line makes due.
    ///
    /// On success the reader has moved on by one step and the processor has
    /// taken in exactly the events of that step. A line that makes nothing
    /// due always succeeds. The only failures are those of the processor,
    /// which has then taken in fewer: the error is the one that it gave for
    /// the first event that it has not taken in, and nothing was handed to
    /// it afterwards. The reader has then given up what it had gathered and
    /// has not taken the line in.
    pub fn feed_line<P: BatchProcessor>(&mut self, line: &str, processor: &mut P) -> (done: Result<
        (),
        SsimError,
    >)
        requires
            old(processor).sound(),
        ensures
            final(processor).sound(),
            final(processor).setup() == old(processor).setup(),
            old(processor).reliable() ==> done is Ok && final(processor).reliable(),
            final(self).spec_batch_size() == old(self).spec_batch_size(),
            done is Ok ==> final(self)@ == old(self)@.step(old(self).spec_batch_size(), line@),
            done is Ok ==> final(processor).handled() == old(processor).handled() + old(
                self,
            )@.step_events(old(self).spec_batch_size(), line@),
            done is Err ==> cut_short(
                final(processor).handled(),
                old(processor).handled() + old(self)@.step_events(
                    old(self).spec_batch_size(),
                    line@,
                ),
            ),
            old(self)@.step_events(old(self).spec_batch_size(), line@).len() == 0 ==> done is Ok,
            done is Err ==> final(self)@ == old(self)@.emptied(),
            done is Ok ==> final(processor).refused() == old(processor).refused(),
            done matches Err(e) ==> stopped_at(
                old(processor).refused(),
                final(processor).refused(),
                final(processor).handled(),
                old(processor).handled() + old(self)@.step_events(
                    old(self).spec_batch_size(),
                    line@,
                ),
                e,
            ),
    {
        let ghost before = old(self)@;
        let ghost size = old(self).spec_batch_size();
        let ghost taken = old(processor).handled();
        match classify(line) {
            LineKind::Skip => {
                assert(taken + before.step_events(size, line@) == taken);
                Ok(())
            },
            LineKind::Segment => {
                match &self.active_carrier {
                    Some(carrier) => {
                        match parse_segment_under(line, carrier) {
                            Some(segment) => {
                                self.segment_batch.push(segment);
                                assert(self@.segments == before.segments.push(segment@));
                            },
                            None => {},
                        }
                    },
                    None => {},
                }
                assert(taken + before.step_events(size, line@) == taken);
                Ok(())
            },
            LineKind::FlightLeg => {
                if self.is_full() {
                    match self.hand_on(processor) {
                        Ok(()) => {},
                        Err(e) => {
                            assert((taken + before.step_events(size, line@)).take(
                                taken.len() as int,
                            ) == taken);
                            return Err(e);
                        },
                    }
                }
                assert(processor.handled() == taken + before.step_events(size, line@));
                let ghost open = self@;
                match &self.active_carrier {
                    Some(carrier) => {
                        match parse_flight_leg_under(line, carrier) {
                            Some(flight) => {
                                self.flight_batch.push(flight);
                                assert(self@.flights == open.flights.push(flight@));
                            },
                            None => {},
                        }
                    },
                    None => {},
                }
                Ok(())
            },
            LineKind::Carrier => {
                if self.is_full() {
                    match self.hand_on(processor) {
                        Ok(()) => {},
                        Err(e) => {
                            assert((taken + before.step_events(size, line@)).take(
                                taken.len() as int,
                            ) == taken);
                            return Err(e);
                        },
                    }
                }
                assert(processor.handled() == taken + before.step_events(size, line@));
                match parse_carrier_record(line) {
                    Some(carrier) => {
                        self.active_carrier = Some(carrier);
                    },
                    None => {},
                }
                Ok(())
            },
            LineKind::Trailer => {
                let ghost all = taken + before.step_events(size, line@);
                if self.flight_batch.len() > 0 || self.segment_batch.len() > 0 {
                    match self.hand_on(processor) {
                        Ok(()) => {},
                        Err(e) => {
                            assert(all.take(taken.len() as int) == taken);
                            return Err(e);
                        },
                    }
                }
                assert(self@.flights == Seq::<FlightLegView>::empty());
                assert(self@.segments == Seq::<SegmentView>::empty());
                assert(processor.handled() == taken + before.flush());
                match processor.on_carrier_complete(self.active_carrier.as_ref()) {
                    Ok(()) => {},
                    Err(e) => {
                        assert(all.take((taken + before.flush()).len() as int) == taken
                            + before.flush());
                        return Err(e);
                    },
                }
                assert(processor.handled() == all);
                self.active_carrier = None;
                assert(self@ == Pending::start());
                Ok(())
            },
        }
    }

    /// Tells the reader that the input has ended: what is still gathered is
    /// handed on, and the processor is told to finalize. A failure is the
    /// processor's, with the error that it gave for the first event that it
    /// has not taken in.
    pub fn finish<P: BatchProcessor>(&mut self, processor: &mut P) -> (done: Result<(), SsimError>)
        requires
            old(processor).sound(),
        ensures
            final(processor).sound(),
            final(processor).setup() == old(processor).setup(),
            old(processor).reliable() ==> done is Ok && final(processor).reliable(),
            final(self).spec_batch_size() == old(self).spec_batch_size(),
            done is Ok ==> final(self)@ == old(self)@.emptied(),
            done is Ok ==> final(processor).handled() == old(processor).handled() + old(
                self,
            )@.finish_events(),
            done is Err ==> cut_short(
                final(processor).handled(),
                old(processor).handled() + old(self)@.finish_events(),
            ),
            done is Err ==> final(self)@ == old(self)@.emptied(),
            done is Ok ==> final(processor).refused() == old(processor).refused(),
            done matches Err(e) ==> stopped_at(
                old(processor).refused(),
                final(processor).refused(),
                final(processor).handled(),
                old(processor).handled() + old(self)@.finish_events(),
                e,
            ),
    {
        let ghost before = old(self)@;
        let ghost taken = old(processor).handled();
        let ghost all = taken + before.finish_events();
        if self.flight_batch.len() > 0 || self.segment_batch.len() > 0 {
            match self.hand_on(processor) {
                Ok(()) => {},
                Err(e) => {
                    assert(all.take(taken.len() as int) == taken);
                    return Err(e);
                },
            }
        } else {
            assert(self@.flights == Seq::<FlightLegView>::empty());
            assert(self@.segments == Seq::<SegmentView>::empty());
        }
        assert(processor.handled() == taken + before.flush());
        match processor.finalize() {
            Ok(()) => {
                assert(processor.handled() == all);
                Ok(())
            },
            Err(e) => {
                assert(all.take((taken + before.flush()).len() as int) == taken + before.flush());
                Err(e)
            },
        }
    }
    /// Reads a whole input: every line in turn, then the end of input.
    ///
    /// On success the processor has taken in exactly what the reader hands on
    /// for these lines, in order. The only failures are those of the
    /// processor, which has then taken in a proper part of it: the error is
    /// the one that it gave for the first event that it has not taken in,
    /// and reading stopped there, with nothing gathered any more.
    pub fn process<P: BatchProcessor>(&mut self, lines: &Vec<String>, processor: &mut P) -> (done:
        Result<(), SsimError>)
        requires
            old(processor).sound(),
        ensures
            final(processor).sound(),
            final(processor).setup() == old(processor).setup(),
            old(processor).reliable() ==> done is Ok && final(processor).reliable(),
            final(self).spec_batch_size() == old(self).spec_batch_size(),
            done is Ok ==> final(self)@ == old(self)@.after(
                old(self).spec_batch_size(),
                line_views(lines@),
            ).emptied(),
            done is Ok ==> final(processor).handled() == old(processor).handled() + old(
                self,
            )@.whole(old(self).spec_batch_size(), line_views(lines@)),
            done is Err ==> cut_short(
                final(processor).handled(),
                old(processor).handled() + old(self)@.whole(
                    old(self).spec_batch_size(),
                    line_views(lines@),
                ),
            ),
            done is Ok ==> final(processor).refused() == old(processor).refused(),
            done matches Err(e) ==> stopped_at(
                old(processor).refused(),
                final(processor).refused(),
                final(processor).handled(),
                old(processor).handled() + old(self)@.whole(
                    old(self).spec_batch_size(),
                    line_views(lines@),
                ),
                e,
            ),
            done is Err ==> exists|read: int|
                0 <= read <= lines@.len() && final(self)@ == old(self)@.after(
                    old(self).spec_batch_size(),
                    #[trigger] line_views(lines@).take(read),
                ).emptied(),
    {
        let ghost before = old(self)@;
        let ghost size = old(self).spec_batch_size();
        let ghost taken = old(processor).handled();
        let ghost text = line_views(lines@);
        let mut at: usize = 0;
        proof {
            assert(text.take(0) == Seq::<Seq<char>>::empty());
            assert(taken + before.events(size, text.take(0)) == taken);
        }
        while at < lines.len()
            invariant
                at <= lines.len(),
                text == line_views(lines@),
                before == old(self)@,
                size == old(self).spec_batch_size(),
                taken == old(processor).handled(),
                self.spec_batch_size() == size,
                processor.sound(),
                processor.setup() == old(processor).setup(),
                old(processor).reliable() ==> processor.reliable(),
                self@ == before.after(size, text.take(at as int)),
                processor.handled() == taken + before.events(size, text.take(at as int)),
                processor.refused() == old(processor).refused(),
            decreases lines.len() - at,
        {
            let ghost read = text.take(at as int);
            let ghost next = text.take(at as int + 1);
            proof {
                assert(next.drop_last() == read);
                assert(next.last() == lines@[at as int]@);
            }
            match self.feed_line(lines[at].as_str(), processor) {
                Ok(()) => {
                    assert(processor.handled() == taken + before.events(size, next));
                },
                Err(e) => {
                    proof {
                        lemma_events_grow(before, size, text, at as int + 1);
                        let part = taken + before.events(size, next);
                        let all = taken + before.whole(size, text);
                        assert(part == all.take(part.len() as int));
                        let got = processor.handled();
                        assert(got == all.take(got.len() as int));
                        assert(part[got.len() as int] == all[got.len() as int]);
                    }
                    return Err(e);
                },
            }
            at = at + 1;
        }
        proof {
            assert(text.take(at as int) == text);
        }
        match self.finish(processor) {
            Ok(()) => {
                assert(processor.handled() == taken + before.whole(size, text));
                Ok(())
            },
            Err(e) => {
                assert(taken + before.events(size, text) + before.after(size, text).finish_events()
                    == taken + before.whole(size, text));
                Err(e)
            },
        }
    }
}

/// What has been handed on after part of the input stays the beginning of
/// what is handed on after all of it.
pub proof fn lemma_events_grow(start: Pending, batch_size: nat, lines: Seq<Seq<char>>, upto: int)
    requires
        0 <= upto <= lines.len(),
    ensures
        start.events(batch_size, lines.take(upto)).len() <= start.events(batch_size, lines).len(),
        start.events(batch_size, lines.take(upto)) == start.events(batch_size, lines).take(
            start.events(batch_size, lines.take(upto)).len() as int,
        ),
    decreases lines.len(),
{
    if upto == lines.len() {
        assert(lines.take(upto) == lines);
        assert(start.events(batch_size, lines).take(start.events(batch_size, lines).len() as int)
            == start.events(batch_size, lines));
    } else {
        assert(lines.drop_last().take(upto) == lines.take(upto));
        lemma_events_grow(start, batch_size, lines.drop_last(), upto);
        let shorter = start.events(batch_size, lines.drop_last());
        let part = start.events(batch_size, lines.take(upto));
        assert(start.events(batch_size, lines).take(part.len() as int) == shorter.take(
            part.len() as int,
        ));
    }
}

} // verus!
