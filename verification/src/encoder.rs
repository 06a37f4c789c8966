//! The sample encoder: one sample becomes one record, a JSON object literal
//! on a single line closed by a newline.

use vstd::prelude::*;
use vstd::string::StringExecFns;
use crate::metric::HardwareMetric;
use crate::sample::Sample;

verus! {

/// The text of one entry: the quoted token, a colon and a space, the value.
pub open spec fn entry_text(reading: (HardwareMetric, Seq<char>)) -> Seq<char> {
    "\""@ + reading.0.token() + "\": "@ + reading.1
}

/// The entries of `readings` in order, separated by a comma and a space.
pub open spec fn entries_text(readings: Seq<(HardwareMetric, Seq<char>)>) -> Seq<char>
    decreases readings.len(),
{
    if readings.len() == 0 {
        Seq::empty()
    } else if readings.len() == 1 {
        entry_text(readings[0])
    } else {
        entries_text(readings.drop_last()) + ", "@ + entry_text(readings.last())
    }
}

/// The object literal of a sample: its entries between braces.
pub open spec fn object_text(readings: Seq<(HardwareMetric, Seq<char>)>) -> Seq<char> {
    "{"@ + entries_text(readings) + "}"@
}

/// The record of a sample: its object literal and the terminating newline.
pub open spec fn record_text(readings: Seq<(HardwareMetric, Seq<char>)>) -> Seq<char> {
    object_text(readings) + "\n"@
}

/// The separator that follows the first `count` entries of a sample of
/// `total` entries while it is being written.
pub open spec fn pending_separator(count: int, total: int) -> Seq<char> {
    if 0 < count < total {
        ", "@
    } else {
        Seq::empty()
    }
}

/// Appends the object literal of `sample` to `buffer`.
pub fn build_telemetry_json(sample: &Sample, buffer: &mut String)
    ensures
        final(buffer)@ == old(buffer)@ + object_text(sample@),
{
    let ghost start = buffer@;
    let count = sample.len();
    buffer.append("{");
    let ghost opened = buffer@;
    let mut index: usize = 0;
    while index < count
        invariant
            count == sample@.len(),
            index <= count,
            buffer@ == opened + entries_text(sample@.take(index as int)) + pending_separator(
                index as int,
                count as int,
            ),
        decreases count - index,
    {
        let ghost before = buffer@;
        buffer.append("\"");
        buffer.append(sample.metric(index).as_str());
        buffer.append("\": ");
        buffer.append(sample.value(index));
        proof {
            let done = sample@.take(index as int);
            let next = sample@.take(index as int + 1);
            assert(next.drop_last() =~= done);
            assert(next.last() == sample@[index as int]);
            assert(buffer@ =~= before + entry_text(sample@[index as int]));
            assert(buffer@ =~= opened + entries_text(next));
        }
        if index < count - 1 {
            buffer.append(", ");
        }
        index += 1;
    }
    buffer.append("}");
    proof {
        assert(sample@.take(count as int) =~= sample@);
        assert(buffer@ =~= start + object_text(sample@));
    }
}

/// Writes the record of `sample` into `buffer`, replacing whatever the buffer
/// held before.
pub fn encode_record(sample: &Sample, buffer: &mut String)
    ensures
        final(buffer)@ == record_text(sample@),
{
    buffer.clear();
    build_telemetry_json(sample, buffer);
    buffer.append("\n");
    assert(buffer@ =~= record_text(sample@));
}

/// Where the entry at `index` begins within the record of `readings`: after
/// the opening brace, the entries before it and the separator.
pub open spec fn entry_offset(readings: Seq<(HardwareMetric, Seq<char>)>, index: int) -> int {
    1 + entries_text(readings.take(index)).len() as int + pending_separator(
        index,
        index + 1,
    ).len() as int
}

/// Where the entry at `index` ends within the record of `readings`.
pub open spec fn entry_end(readings: Seq<(HardwareMetric, Seq<char>)>, index: int) -> int {
    entry_offset(readings, index) + entry_text(readings[index]).len() as int
}

/// The text of the first `count` entries opens the text of all entries.
proof fn lemma_entries_prefix(readings: Seq<(HardwareMetric, Seq<char>)>, count: int)
    requires
        0 <= count <= readings.len(),
    ensures
        entries_text(readings.take(count)).is_prefix_of(entries_text(readings)),
    decreases readings.len() - count,
{
    if count == readings.len() {
        assert(readings.take(count) =~= readings);
    } else {
        lemma_entries_prefix(readings, count + 1);
        lemma_entries_extend(readings, count);
    }
}

/// The text of the first `count + 1` entries is that of the first `count`,
/// the separator where one is due, and the entry at `count`.
proof fn lemma_entries_extend(readings: Seq<(HardwareMetric, Seq<char>)>, count: int)
    requires
        0 <= count < readings.len(),
    ensures
        entries_text(readings.take(count + 1)) == entries_text(readings.take(count))
            + pending_separator(count, count + 1) + entry_text(readings[count]),
{
    let shorter = readings.take(count);
    let longer = readings.take(count + 1);
    assert(longer.drop_last() =~= shorter);
    assert(longer.last() == readings[count]);
    if count == 0 {
        assert(entries_text(longer) =~= entries_text(shorter) + pending_separator(count, count + 1)
            + entry_text(readings[count]));
    }
}

/// Encoding keeps the order of the sample: each entry stands in the record
/// as written, entry by entry in the order of the readings, each one ending
/// before the next begins.
pub proof fn lemma_entries_keep_sample_order(
    readings: Seq<(HardwareMetric, Seq<char>)>,
    index: int,
)
    requires
        0 <= index < readings.len(),
    ensures
        0 < entry_offset(readings, index),
        entry_end(readings, index) < record_text(readings).len(),
        record_text(readings).subrange(entry_offset(readings, index), entry_end(readings, index))
            == entry_text(readings[index]),
        index + 1 < readings.len() ==> entry_end(readings, index) < entry_offset(
            readings,
            index + 1,
        ),
{
    reveal_strlit("{");
    reveal_strlit("}");
    reveal_strlit("\n");
    let upto = entries_text(readings.take(index + 1));
    let all = entries_text(readings);
    let record = record_text(readings);
    let entry = entry_text(readings[index]);
    let start = entry_offset(readings, index);
    lemma_entries_prefix(readings, index + 1);
    lemma_entries_extend(readings, index);
    assert(upto.len() == start - 1 + entry.len());
    assert forall|k: int| 0 <= k < entry.len() implies record[start + k] == #[trigger] entry[k] by {
        assert(upto[start - 1 + k] == entry[k]);
        assert(all.subrange(0, upto.len() as int)[start - 1 + k] == all[start - 1 + k]);
        assert(record[start + k] == all[start - 1 + k]);
    }
    assert(record.subrange(start, entry_end(readings, index)) =~= entry);
    if index + 1 < readings.len() {
        reveal_strlit(", ");
    }
}

/// Encoding is a function of the sample alone: whatever the buffers held
/// before, two encodings of one sample are the same text.
pub proof fn lemma_encoding_is_repeatable(
    readings: Seq<(HardwareMetric, Seq<char>)>,
    first: Seq<char>,
    second: Seq<char>,
)
    requires
        first == record_text(readings),
        second == record_text(readings),
    ensures
        first == second,
        vstd::utf8::encode_utf8(first) == vstd::utf8::encode_utf8(second),
{
}

} // verus!
