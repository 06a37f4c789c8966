//! The sample decoder: one candidate line becomes a mapping of metric names
//! to numbers, or a decode error that the session survives.

use std::collections::BTreeMap;
use vstd::prelude::*;

verus! {

/// `serde_json::Error`, of which nothing is known here but that it can be
/// carried about.
#[verifier::external_type_specification]
#[verifier::external_body]
pub struct ExJsonError(serde_json::Error);

/// What `serde_json::from_str` makes of `line` when it is asked for a map
/// from strings to JSON numbers: `None` where it reports an error, and
/// otherwise the entries in ascending order of their names, each number in
/// the text that `serde_json::Number` displays.
pub uninterp spec fn json_metrics(line: Seq<char>) -> Option<Seq<(Seq<char>, Seq<char>)>>;

/// The names and number texts of `entries` as mathematical values.
pub open spec fn entries_view(entries: Seq<(String, String)>) -> Seq<(Seq<char>, Seq<char>)> {
    entries.map_values(|entry: (String, String)| (entry.0@, entry.1@))
}

/// Whether no name occurs twice in `metrics`.
pub open spec fn distinct_names(metrics: Seq<(Seq<char>, Seq<char>)>) -> bool {
    forall|i: int, j: int|
        0 <= i < j < metrics.len() ==> (#[trigger] metrics[i]).0 != (#[trigger] metrics[j]).0
}

/// Trusted: calls `serde_json::from_str` for a
/// `BTreeMap<String, serde_json::Number>` and hands the entries out in the
/// map's order, each number as the text that its `Display` writes. The
/// contract is not proved. It claims that the outcome depends on the line
/// alone, which gives it the name [`json_metrics`], and that no name occurs
/// twice, as the entries come out of a map.
#[verifier::external_body]
fn parse_metrics(line: &str) -> (parsed: Result<Vec<(String, String)>, serde_json::Error>)
    ensures
        match parsed {
            Ok(entries) => json_metrics(line@) == Some(entries_view(entries@)) && distinct_names(
                entries_view(entries@),
            ),
            Err(_) => json_metrics(line@) is None,
        },
{
    serde_json::from_str::<BTreeMap<String, serde_json::Number>>(line).map(
        |metrics| metrics.into_iter().map(|(name, value)| (name, value.to_string())).collect(),
    )
}

/// Trusted: calls the `Display` of `serde_json::Error` through `to_string`.
/// Nothing is claimed of the message.
#[verifier::external_body]
fn failure_message(error: &serde_json::Error) -> (message: String) {
    error.to_string()
}

/// Why a line did not yield a sample.
#[derive(Debug, PartialEq, Eq)]
pub enum DecodeError {
    /// The line is not a JSON object of numbers; `reason` says what the
    /// parser objected to.
    Malformed { reason: String },
    /// Two entries carry the same name.
    DuplicateName,
}

/// A decoded sample: metric names, each with the text of its number, no name
/// occurring twice.
#[derive(Debug, PartialEq, Eq)]
pub struct DecodedSample {
    entries: Vec<(String, String)>,
}

impl View for DecodedSample {
    type V = Seq<(Seq<char>, Seq<char>)>;

    closed spec fn view(&self) -> Seq<(Seq<char>, Seq<char>)> {
        entries_view(self.entries@)
    }
}

impl DecodedSample {
    /// The invariant of every decoded sample.
    #[verifier::type_invariant]
    spec fn names_are_distinct(&self) -> bool {
        self.well_formed()
    }

    /// What holds of every decoded sample: its names are pairwise distinct.
    pub open spec fn well_formed(&self) -> bool {
        distinct_names(self@)
    }

    /// The number of metrics.
    pub fn len(&self) -> (n: usize)
        ensures
            n == self@.len(),
    {
        self.entries.len()
    }

    /// Whether the sample holds no metric at all.
    pub fn is_empty(&self) -> (empty: bool)
        ensures
            empty == (self@.len() == 0),
    {
        self.entries.len() == 0
    }

    /// The name of the metric at `index`.
    pub fn name(&self, index: usize) -> (name: &str)
        requires
            index < self@.len(),
        ensures
            name@ == self@[index as int].0,
    {
        self.entries[index].0.as_str()
    }

    /// The number text of the metric at `index`.
    pub fn value(&self, index: usize) -> (value: &str)
        requires
            index < self@.len(),
        ensures
            value@ == self@[index as int].1,
    {
        self.entries[index].1.as_str()
    }

    /// Builds a sample from its entries. Fails when a name occurs twice.
    pub fn from_entries(entries: Vec<(String, String)>) -> (sample: Result<
        DecodedSample,
        DecodeError,
    >)
        ensures
            match sample {
                Ok(decoded) => {
                    &&& distinct_names(entries_view(entries@))
                    &&& decoded.well_formed()
                    &&& decoded@ == entries_view(entries@)
                },
                Err(DecodeError::DuplicateName) => !distinct_names(entries_view(entries@)),
                Err(DecodeError::Malformed { .. }) => false,
            },
    {
        let ghost metrics = entries_view(entries@);
        let mut upper: usize = 0;
        while upper < entries.len()
            invariant
                metrics == entries_view(entries@),
                upper <= entries@.len(),
                forall|i: int, j: int|
                    0 <= i < j < upper ==> (#[trigger] metrics[i]).0 != (#[trigger] metrics[j]).0,
            decreases entries@.len() - upper,
        {
            let mut lower: usize = 0;
            while lower < upper
                invariant
                    metrics == entries_view(entries@),
                    upper < entries@.len(),
                    lower <= upper,
                    forall|i: int|
                        0 <= i < lower ==> (#[trigger] metrics[i]).0 != metrics[upper as int].0,
                decreases upper - lower,
            {
                if entries[lower].0 == entries[upper].0 {
                    assert(metrics[lower as int].0 == metrics[upper as int].0);
                    return Err(DecodeError::DuplicateName);
                }
                lower += 1;
            }
            upper += 1;
        }
        Ok(DecodedSample { entries })
    }
}

/// Turns the outcome of parsing a line into the outcome of decoding it: the
/// parsed entries become the sample, a parser error becomes a decode error.
pub fn sample_from_parsed(parsed: Result<Vec<(String, String)>, serde_json::Error>) -> (outcome:
    Result<DecodedSample, DecodeError>)
    ensures
        match outcome {
            Ok(decoded) => {
                &&& parsed matches Ok(entries)
                &&& distinct_names(entries_view(entries@))
                &&& decoded.well_formed()
                &&& decoded@ == entries_view(entries@)
            },
            Err(DecodeError::DuplicateName) => {
                &&& parsed matches Ok(entries)
                &&& !distinct_names(entries_view(entries@))
            },
            Err(DecodeError::Malformed { .. }) => parsed is Err,
        },
{
    match parsed {
        Ok(entries) => DecodedSample::from_entries(entries),
        Err(error) => Err(DecodeError::Malformed { reason: failure_message(&error) }),
    }
}

/// Decodes one candidate line. Succeeds exactly on the lines that parse as a
/// JSON object of numbers, with the entries the parser found; every other
/// line is reported as malformed.
pub fn decode(line: &str) -> (outcome: Result<DecodedSample, DecodeError>)
    ensures
        match outcome {
            Ok(decoded) => {
                &&& json_metrics(line@) == Some(decoded@)
                &&& decoded.well_formed()
            },
            Err(DecodeError::Malformed { .. }) => json_metrics(line@) is None,
            Err(DecodeError::DuplicateName) => false,
        },
{
    sample_from_parsed(parse_metrics(line))
}

} // verus!
