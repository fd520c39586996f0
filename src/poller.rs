use vstd::prelude::*;

use crate::error::FeedError;
use crate::location::{first_underflow, parse_locations, stamps, Locations, VehicleTime};
use crate::prediction::PredictionsList;

verus! {

/// The map that a list of (route, time) entries stands for: a later entry
/// for a route overrides an earlier one.
pub open spec fn marks_of(entries: Seq<(String, u64)>) -> Map<Seq<char>, u64>
    decreases entries.len(),
{
    if entries.len() == 0 {
        Map::empty()
    } else {
        marks_of(entries.drop_last()).insert(entries.last().0@, entries.last().1)
    }
}

/// The cursor of a route: its last seen update time, zero for an unseen
/// route.
pub open spec fn cursor_of(marks: Map<Seq<char>, u64>, route: Seq<char>) -> u64 {
    if marks.contains_key(route) {
        marks[route]
    } else {
        0
    }
}

/// The marks after a route's document reported `updated_time`: the mark
/// moves forward only.
pub open spec fn advanced(marks: Map<Seq<char>, u64>, route: Seq<char>, updated_time: u64) -> Map<
    Seq<char>,
    u64,
> {
    if updated_time > cursor_of(marks, route) {
        marks.insert(route, updated_time)
    } else {
        marks
    }
}

/// The last update time seen for each route, used as the cursor of the next
/// request for that route.
pub struct Watermark {
    entries: Vec<(String, u64)>,
}

impl View for Watermark {
    type V = Map<Seq<char>, u64>;

    closed spec fn view(&self) -> Map<Seq<char>, u64> {
        marks_of(self.entries@)
    }
}

proof fn lemma_marks_last(entries: Seq<(String, u64)>, i: int, route: Seq<char>)
    requires
        0 <= i < entries.len(),
        entries[i].0@ == route,
        forall|j: int| i < j < entries.len() ==> (#[trigger] entries[j]).0@ != route,
    ensures
        marks_of(entries).contains_key(route),
        marks_of(entries)[route] == entries[i].1,
    decreases entries.len(),
{
    if i < entries.len() - 1 {
        let rest = entries.drop_last();
        assert forall|j: int| i < j < rest.len() implies (#[trigger] rest[j]).0@ != route by {
            assert(rest[j] == entries[j]);
        }
        lemma_marks_last(rest, i, route);
    }
}

proof fn lemma_marks_absent(entries: Seq<(String, u64)>, route: Seq<char>)
    requires
        forall|j: int| 0 <= j < entries.len() ==> (#[trigger] entries[j]).0@ != route,
    ensures
        !marks_of(entries).contains_key(route),
    decreases entries.len(),
{
    if entries.len() > 0 {
        let rest = entries.drop_last();
        assert forall|j: int| 0 <= j < rest.len() implies (#[trigger] rest[j]).0@ != route by {
            assert(rest[j] == entries[j]);
        }
        lemma_marks_absent(rest, route);
    }
}

proof fn lemma_marks_update(entries: Seq<(String, u64)>, i: int, key: String, value: u64)
    requires
        0 <= i < entries.len(),
        entries[i].0@ == key@,
        forall|j: int| i < j < entries.len() ==> (#[trigger] entries[j]).0@ != key@,
    ensures
        marks_of(entries.update(i, (key, value))) == marks_of(entries).insert(key@, value),
    decreases entries.len(),
{
    let updated = entries.update(i, (key, value));
    if i == entries.len() - 1 {
        assert(updated.drop_last() =~= entries.drop_last());
        assert(marks_of(updated) =~= marks_of(entries).insert(key@, value));
    } else {
        let rest = entries.drop_last();
        assert forall|j: int| i < j < rest.len() implies (#[trigger] rest[j]).0@ != key@ by {
            assert(rest[j] == entries[j]);
        }
        lemma_marks_update(rest, i, key, value);
        assert(updated.drop_last() =~= rest.update(i, (key, value)));
        assert(entries.last().0@ != key@);
        assert(marks_of(updated) =~= marks_of(entries).insert(key@, value));
    }
}

impl Watermark {
    pub fn new() -> (w: Watermark)
        ensures
            w@ == Map::<Seq<char>, u64>::empty(),
    {
        Watermark { entries: Vec::new() }
    }

    /// The index of the last entry for `route`.
    fn find(&self, route: &String) -> (r: Option<usize>)
        ensures
            match r {
                Some(i) => i < self.entries@.len() && self.entries@[i as int].0@ == route@ && forall|j: int|
                    i < j < self.entries@.len() ==> (#[trigger] self.entries@[j]).0@ != route@,
                None => forall|j: int|
                    0 <= j < self.entries@.len() ==> (#[trigger] self.entries@[j]).0@ != route@,
            },
    {
        let mut i: usize = self.entries.len();
        while i > 0
            invariant
                i <= self.entries@.len(),
                forall|j: int| i <= j < self.entries@.len() ==> (#[trigger] self.entries@[j]).0@ != route@,
            decreases i,
        {
            if self.entries[i - 1].0 == *route {
                return Some(i - 1);
            }
            i = i - 1;
        }
        None
    }

    /// The cursor of the next request for `route`.
    pub fn cursor(&self, route: &String) -> (r: u64)
        ensures
            r == cursor_of(self@, route@),
    {
        match self.find(route) {
            Some(i) => {
                proof {
                    lemma_marks_last(self.entries@, i as int, route@);
                }
                self.entries[i].1
            },
            None => {
                proof {
                    lemma_marks_absent(self.entries@, route@);
                }
                0
            },
        }
    }

    /// Takes in the update time of a document fetched for `route`. A time
    /// older than the route's mark is an anomaly of the feed and moves
    /// nothing.
    pub fn advance(&mut self, route: &String, updated_time: u64)
        ensures
            final(self)@ == advanced(old(self)@, route@, updated_time),
    {
        let current = self.cursor(route);
        if updated_time <= current {
            return;
        }
        match self.find(route) {
            Some(i) => {
                let key = route.clone();
                proof {
                    lemma_marks_update(self.entries@, i as int, key, updated_time);
                }
                self.entries.set(i, (key, updated_time));
            },
            None => {
                let ghost before = self.entries@;
                self.entries.push((route.clone(), updated_time));
                assert(self.entries@.drop_last() =~= before);
            },
        }
    }
}

/// Across two non-empty polls of a route, the second reporting an earlier
/// update time than the first, the cursor of the next request is the later
/// of the first time and the mark before both; marks of other routes stay.
pub proof fn lemma_watermark_never_moves_back(
    marks: Map<Seq<char>, u64>,
    route: Seq<char>,
    first: u64,
    second: u64,
)
    requires
        second < first,
    ensures
        cursor_of(advanced(advanced(marks, route, first), route, second), route) == if first > cursor_of(
            marks,
            route,
        ) {
            first
        } else {
            cursor_of(marks, route)
        },
        cursor_of(marks, route) == 0 ==> cursor_of(
            advanced(advanced(marks, route, first), route, second),
            route,
        ) == first,
        forall|other: Seq<char>|
            other != route ==> cursor_of(advanced(advanced(marks, route, first), route, second), other)
                == cursor_of(marks, other),
{
}

/// What the loop does after a poll.
#[derive(Debug, PartialEq, Eq, Structural)]
pub enum Pace {
    /// Sleep that many seconds, then request again.
    Sleep(u64),
    /// Request again after the retry delay (see `retry_wait`).
    Retry,
    /// The invocation is done.
    Stop,
}

/// How a polling invocation is paced and which failures it absorbs.
pub struct PollConfig {
    /// The pause between polls; `None` makes the invocation single-shot.
    pub pause_seconds: Option<u64>,
    /// The fixed delay before retrying a predictions request that brought
    /// nothing or failed, independent of the pause.
    pub retry_delay_seconds: u64,
    /// Whether a looping invocation absorbs recoverable errors (network
    /// failures, error statuses) and tries again, rather than ending.
    pub retry_recoverable: bool,
}

/// The pace after a poll that emitted or found nothing new.
pub open spec fn pace_after(config: &PollConfig) -> Pace {
    match config.pause_seconds {
        Some(s) => Pace::Sleep(s),
        None => Pace::Stop,
    }
}

/// A looping invocation that retries absorbs a recoverable error as a
/// warning; any other error ends the invocation.
pub open spec fn absorbs(config: &PollConfig, e: FeedError) -> bool {
    config.pause_seconds is Some && config.retry_recoverable && e.recoverable()
}

fn next_pace(config: &PollConfig) -> (r: Pace)
    ensures
        r == pace_after(config),
{
    match config.pause_seconds {
        Some(s) => Pace::Sleep(s),
        None => Pace::Stop,
    }
}

fn absorbed(config: &PollConfig, e: &FeedError) -> (r: bool)
    ensures
        r == absorbs(config, *e),
{
    config.pause_seconds.is_some() && config.retry_recoverable && e.is_recoverable()
}

/// The result of one poll of the locations feed.
pub struct LocationsStep {
    /// The vehicles to emit, if the poll brought any.
    pub vehicles: Option<Vec<VehicleTime>>,
    /// A recoverable error that the loop absorbed, to be logged.
    pub warning: Option<FeedError>,
    pub next: Pace,
}

/// One poll of the locations feed for `route`, given what the fetch of its
/// request brought. A document with vehicles is applied: the vehicles are
/// stamped with their report times and the route's watermark advances to the
/// document's update time. Nothing new, or an absorbed error, changes
/// nothing. Any other error ends the invocation.
pub fn poll_locations(
    watermark: &mut Watermark,
    route: &String,
    config: &PollConfig,
    fetched: Result<Option<Locations>, FeedError>,
) -> (r: Result<LocationsStep, FeedError>)
    ensures
        match fetched {
            Ok(Some(locations)) => match r {
                Ok(step) => {
                    &&& step.warning is None
                    &&& step.next == pace_after(config)
                    &&& step.vehicles is Some
                    &&& step.vehicles->Some_0@.len() == locations.vehicles@.len()
                    &&& forall|i: int|
                        0 <= i < locations.vehicles@.len() ==> stamps(
                            #[trigger] step.vehicles->Some_0@[i],
                            locations.vehicles@[i],
                            locations.updated_time,
                        )
                    &&& final(watermark)@ == advanced(old(watermark)@, route@, locations.updated_time)
                },
                Err(e) => {
                    &&& final(watermark)@ == old(watermark)@
                    &&& exists|i: int|
                        first_underflow(&locations, i) && e == FeedError::EpochUnderflow {
                            updated_time: locations.updated_time,
                            seconds_since_report: (#[trigger] locations.vehicles@[i]).secs_since_report,
                        }
                },
            },
            Ok(None) => {
                &&& final(watermark)@ == old(watermark)@
                &&& r is Ok
                &&& r->Ok_0.vehicles is None
                &&& r->Ok_0.warning is None
                &&& r->Ok_0.next == pace_after(config)
            },
            Err(e) => {
                &&& final(watermark)@ == old(watermark)@
                &&& absorbs(config, e) ==> {
                    &&& r is Ok
                    &&& r->Ok_0.vehicles is None
                    &&& r->Ok_0.warning == Some(e)
                    &&& r->Ok_0.next == pace_after(config)
                }
                &&& !absorbs(config, e) ==> r == Err::<LocationsStep, FeedError>(e)
            },
        },
{
    match fetched {
        Ok(Some(locations)) => {
            let vehicles = parse_locations(&locations)?;
            watermark.advance(route, locations.updated_time);
            Ok(LocationsStep { vehicles: Some(vehicles), warning: None, next: next_pace(config) })
        },
        Ok(None) => Ok(LocationsStep { vehicles: None, warning: None, next: next_pace(config) }),
        Err(e) => {
            if absorbed(config, &e) {
                Ok(LocationsStep { vehicles: None, warning: Some(e), next: next_pace(config) })
            } else {
                Err(e)
            }
        },
    }
}

/// The result of one poll of the predictions feed.
pub struct PredictionsStep {
    /// The predictions to emit, if the poll brought any.
    pub predictions: Option<PredictionsList>,
    /// A recoverable error that the loop absorbed, to be logged.
    pub warning: Option<FeedError>,
    pub next: Pace,
}

/// One poll of the predictions feed, given what the fetch brought and the
/// number of attempts since the last emission. Predictions are emitted and
/// the count starts over, and the configured pause follows. Nothing yet
/// counts one more attempt and asks for a retry when looping; a single-shot
/// invocation stops there. An absorbed error counts one more attempt and
/// asks for a retry. Any other error ends the invocation.
pub fn poll_predictions(
    attempts: &mut u64,
    config: &PollConfig,
    fetched: Result<Option<PredictionsList>, FeedError>,
) -> (r: Result<PredictionsStep, FeedError>)
    ensures
        match fetched {
            Ok(Some(p)) => {
                &&& *final(attempts) == 0
                &&& r is Ok
                &&& r->Ok_0.predictions == Some(p)
                &&& r->Ok_0.warning is None
                &&& r->Ok_0.next == pace_after(config)
            },
            Ok(None) => {
                &&& *final(attempts) == one_more(*old(attempts))
                &&& r is Ok
                &&& r->Ok_0.predictions is None
                &&& r->Ok_0.warning is None
                &&& r->Ok_0.next == if config.pause_seconds is None {
                    Pace::Stop
                } else {
                    Pace::Retry
                }
            },
            Err(e) => {
                &&& absorbs(config, e) ==> {
                    &&& *final(attempts) == one_more(*old(attempts))
                    &&& r is Ok
                    &&& r->Ok_0.predictions is None
                    &&& r->Ok_0.warning == Some(e)
                    &&& r->Ok_0.next == Pace::Retry
                }
                &&& !absorbs(config, e) ==> {
                    &&& *final(attempts) == *old(attempts)
                    &&& r == Err::<PredictionsStep, FeedError>(e)
                }
            },
        },
{
    match fetched {
        Ok(Some(p)) => {
            *attempts = 0;
            Ok(PredictionsStep { predictions: Some(p), warning: None, next: next_pace(config) })
        },
        Ok(None) => {
            *attempts = count_attempt(*attempts);
            let next = if config.pause_seconds.is_none() {
                Pace::Stop
            } else {
                Pace::Retry
            };
            Ok(PredictionsStep { predictions: None, warning: None, next })
        },
        Err(e) => {
            if absorbed(config, &e) {
                *attempts = count_attempt(*attempts);
                Ok(PredictionsStep { predictions: None, warning: Some(e), next: Pace::Retry })
            } else {
                Err(e)
            }
        },
    }
}

/// One more attempt, saturating at the largest count.
pub open spec fn one_more(attempts: u64) -> u64 {
    if attempts < u64::MAX {
        (attempts + 1) as u64
    } else {
        attempts
    }
}

fn count_attempt(attempts: u64) -> (r: u64)
    ensures
        r == one_more(attempts),
{
    if attempts < u64::MAX {
        attempts + 1
    } else {
        attempts
    }
}

/// The seconds to wait before a predictions request: none before a first
/// attempt, the fixed retry delay before a retry.
pub fn retry_wait(attempts: u64, config: &PollConfig) -> (r: u64)
    ensures
        r == if attempts == 0 {
            0
        } else {
            config.retry_delay_seconds
        },
{
    if attempts == 0 {
        0
    } else {
        config.retry_delay_seconds
    }
}

} // verus!
