//! The agent-side sample: one instant's readings, in the order in which they
//! are written to the wire.

use vstd::prelude::*;
use vstd::string::{is_ascii, is_ascii_spec_bytes, StringSliceAdditionalSpecFns};
use crate::metric::HardwareMetric;

verus! {

/// Whether `c` may occur in the decimal text of a value: a digit, a sign, the
/// point, or a letter (as in an exponent, `NaN` or `inf`).
pub open spec fn is_value_char(c: char) -> bool {
    ||| '0' <= c <= '9'
    ||| 'a' <= c <= 'z'
    ||| 'A' <= c <= 'Z'
    ||| c == '+'
    ||| c == '-'
    ||| c == '.'
}

/// Whether `text` can stand as a value in a record: it is not empty and holds
/// value characters only. This keeps out whatever could break the framing of
/// a record, such as whitespace, quotes, commas and braces; it does not
/// promise that the text is a number.
pub open spec fn is_value_text(text: Seq<char>) -> bool {
    &&& text.len() > 0
    &&& forall|i: int| 0 <= i < text.len() ==> is_value_char(#[trigger] text[i])
}

/// Why a reading was not added to a sample.
#[derive(Debug, Clone, Copy, PartialEq, Eq, Structural)]
pub enum SampleError {
    /// The sample already holds a reading of that kind.
    DuplicateKind,
    /// The value is empty or holds a character no decimal text contains.
    MalformedValue,
}

/// Decides whether `text` can stand as a value in a record.
pub fn check_value_text(text: &str) -> (valid: bool)
    ensures
        valid == is_value_text(text@),
{
    if !text.is_ascii() {
        assert(!is_value_text(text@)) by {
            if is_value_text(text@) {
                assert forall|i: int| 0 <= i < text@.len() implies '\0' <= #[trigger] text@[i]
                    <= '\u{7f}' by {
                    assert(is_value_char(text@[i]));
                }
            }
        }
        return false;
    }
    let bytes = text.as_bytes();
    proof {
        is_ascii_spec_bytes(text);
        assert(bytes@.len() == text@.len());
    }
    if bytes.len() == 0 {
        return false;
    }
    let mut index: usize = 0;
    while index < bytes.len()
        invariant
            is_ascii(text),
            bytes@ == text.spec_bytes(),
            bytes@.len() == text@.len(),
            index <= bytes@.len(),
            forall|i: int| 0 <= i < index ==> is_value_char(#[trigger] text@[i]),
        decreases bytes@.len() - index,
    {
        let byte = bytes[index];
        // The digits, the two alphabets, and the codes of `+`, `-` and `.`.
        let accepted = (0x30 <= byte && byte <= 0x39) || (0x61 <= byte && byte <= 0x7a) || (0x41
            <= byte && byte <= 0x5a) || byte == 0x2b || byte == 0x2d || byte == 0x2e;
        proof {
            is_ascii_spec_bytes(text);
            let c = text@[index as int];
            assert('\0' <= c <= '\u{7f}');
            assert(c as u8 == byte);
            assert(accepted == is_value_char(c));
        }
        if !accepted {
            return false;
        }
        index += 1;
    }
    true
}

/// One reading: a metric kind and the decimal text of its value, exactly as it
/// is to appear in a record.
#[derive(Debug, PartialEq, Eq)]
struct Reading {
    metric: HardwareMetric,
    value: String,
}

impl View for Reading {
    type V = (HardwareMetric, Seq<char>);

    closed spec fn view(&self) -> (HardwareMetric, Seq<char>) {
        (self.metric, self.value@)
    }
}

/// An ordered set of readings in which no metric kind occurs twice and every
/// value is a value text.
#[derive(Debug, PartialEq, Eq)]
pub struct Sample {
    readings: Vec<Reading>,
}

/// Whether no metric kind occurs twice in `readings`.
pub open spec fn distinct_kinds(readings: Seq<(HardwareMetric, Seq<char>)>) -> bool {
    forall|i: int, j: int|
        0 <= i < j < readings.len() ==> (#[trigger] readings[i]).0 != (#[trigger] readings[j]).0
}

/// Whether every value of `readings` is a value text.
pub open spec fn valid_values(readings: Seq<(HardwareMetric, Seq<char>)>) -> bool {
    forall|i: int| 0 <= i < readings.len() ==> is_value_text((#[trigger] readings[i]).1)
}

/// Whether every text of `values` is a value text.
pub open spec fn all_value_texts(values: Seq<Seq<char>>) -> bool {
    forall|i: int| 0 <= i < values.len() ==> is_value_text(#[trigger] values[i])
}

/// Whether `kind` is the metric of one of `readings`.
pub open spec fn has_kind(readings: Seq<(HardwareMetric, Seq<char>)>, kind: HardwareMetric) -> bool {
    exists|i: int| 0 <= i < readings.len() && (#[trigger] readings[i]).0 == kind
}

/// The complete sample that pairs each kind, in enumeration order, with the
/// value at the same position.
pub open spec fn paired(values: Seq<Seq<char>>) -> Seq<(HardwareMetric, Seq<char>)> {
    Seq::new(values.len(), |i: int| (HardwareMetric::enumeration()[i], values[i]))
}

impl View for Sample {
    type V = Seq<(HardwareMetric, Seq<char>)>;

    closed spec fn view(&self) -> Seq<(HardwareMetric, Seq<char>)> {
        self.readings@.map_values(|r: Reading| r@)
    }
}

impl Sample {
    /// The invariant of every sample.
    #[verifier::type_invariant]
    spec fn distinct_and_valid(&self) -> bool {
        self.well_formed()
    }

    /// What holds of every sample: its kinds are pairwise distinct and its
    /// values are value texts.
    pub open spec fn well_formed(&self) -> bool {
        &&& distinct_kinds(self@)
        &&& valid_values(self@)
    }

    /// Creates the empty sample.
    pub fn new() -> (sample: Sample)
        ensures
            sample.well_formed(),
            sample@ == Seq::<(HardwareMetric, Seq<char>)>::empty(),
    {
        let sample = Sample { readings: Vec::new() };
        assert(sample@ =~= Seq::<(HardwareMetric, Seq<char>)>::empty());
        sample
    }

    /// The number of readings.
    pub fn len(&self) -> (n: usize)
        ensures
            n == self@.len(),
    {
        self.readings.len()
    }

    /// The metric kind of the reading at `index`.
    pub fn metric(&self, index: usize) -> (kind: HardwareMetric)
        requires
            index < self@.len(),
        ensures
            kind == self@[index as int].0,
    {
        self.readings[index].metric
    }

    /// The value text of the reading at `index`.
    pub fn value(&self, index: usize) -> (text: &str)
        requires
            index < self@.len(),
        ensures
            text@ == self@[index as int].1,
    {
        self.readings[index].value.as_str()
    }

    /// Whether the sample already holds a reading of `kind`.
    pub fn contains(&self, kind: HardwareMetric) -> (found: bool)
        ensures
            found == has_kind(self@, kind),
    {
        let mut index: usize = 0;
        while index < self.readings.len()
            invariant
                index <= self.readings.len(),
                forall|i: int| 0 <= i < index ==> (#[trigger] self@[i]).0 != kind,
            decreases self.readings.len() - index,
        {
            if self.readings[index].metric == kind {
                assert(self@[index as int].0 == kind);
                return true;
            }
            index += 1;
        }
        false
    }

    /// Appends a reading. Fails, leaving the sample as it was, when the kind
    /// is already present or the value is not a value text; a duplicate kind
    /// is reported first.
    pub fn push(&mut self, metric: HardwareMetric, value: String) -> (outcome: Result<
        (),
        SampleError,
    >)
        ensures
            final(self).well_formed(),
            match outcome {
                Ok(_) => {
                    &&& !has_kind(old(self)@, metric)
                    &&& is_value_text(value@)
                    &&& final(self)@ == old(self)@.push((metric, value@))
                },
                Err(SampleError::DuplicateKind) => {
                    &&& has_kind(old(self)@, metric)
                    &&& final(self)@ == old(self)@
                },
                Err(SampleError::MalformedValue) => {
                    &&& !has_kind(old(self)@, metric)
                    &&& !is_value_text(value@)
                    &&& final(self)@ == old(self)@
                },
            },
    {
        proof {
            use_type_invariant(&*self);
        }
        if self.contains(metric) {
            return Err(SampleError::DuplicateKind);
        }
        if !check_value_text(value.as_str()) {
            return Err(SampleError::MalformedValue);
        }
        let ghost before = self@;
        // The readings are taken out for the time of the change, so that the
        // sample is well-formed at every moment.
        let mut readings: Vec<Reading> = Vec::new();
        core::mem::swap(&mut readings, &mut self.readings);
        readings.push(Reading { metric, value });
        proof {
            let after = readings@.map_values(|r: Reading| r@);
            assert(after =~= before.push((metric, value@)));
            assert forall|i: int, j: int| 0 <= i < j < after.len() implies (#[trigger] after[i]).0
                != (#[trigger] after[j]).0 by {
                if j == before.len() {
                    assert(before[i].0 != metric);
                } else {
                    assert(before[i].0 != before[j].0);
                }
            }
            assert forall|i: int| 0 <= i < after.len() implies is_value_text(
                (#[trigger] after[i]).1,
            ) by {
                if i < before.len() {
                    assert(is_value_text(before[i].1));
                }
            }
        }
        self.readings = readings;
        Ok(())
    }

    /// Builds the complete sample from one value per kind, given in
    /// enumeration order. Returns `None` when the number of values is not the
    /// number of kinds or one of them is not a value text.
    pub fn from_values(values: &Vec<String>) -> (sample: Option<Sample>)
        ensures
            sample is Some <==> values@.len() == HardwareMetric::enumeration().len()
                && all_value_texts(values@.map_values(|v: String| v@)),
            sample is Some ==> sample->0.well_formed() && sample->0@ == paired(
                values@.map_values(|v: String| v@),
            ),
    {
        let kinds = HardwareMetric::all();
        if values.len() != kinds.len() {
            return None;
        }
        let ghost texts = values@.map_values(|v: String| v@);
        let mut readings: Vec<Reading> = Vec::new();
        let mut index: usize = 0;
        while index < values.len()
            invariant
                kinds@ == HardwareMetric::enumeration(),
                values@.len() == kinds@.len(),
                texts == values@.map_values(|v: String| v@),
                index <= values@.len(),
                readings@.len() == index,
                forall|i: int|
                    0 <= i < index ==> (#[trigger] readings@[i])@ == (kinds@[i], texts[i]),
                forall|i: int| 0 <= i < index ==> is_value_text(#[trigger] texts[i]),
            decreases values@.len() - index,
        {
            if !check_value_text(values[index].as_str()) {
                assert(!is_value_text(texts[index as int]));
                return None;
            }
            readings.push(Reading { metric: kinds[index], value: values[index].clone() });
            index += 1;
        }
        let sample = Sample { readings };
        assert(sample@ =~= paired(texts));
        Some(sample)
    }
}

} // verus!
