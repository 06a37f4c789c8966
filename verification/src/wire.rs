//! What holds between the two ends of the wire: the bytes an agent writes for
//! a sample are, to the collector's frame reader, exactly one line whose text
//! is the object literal of that sample.

use vstd::prelude::*;
use vstd::utf8::{encode_utf8, encode_utf8_decode_utf8, encode_utf8_valid_utf8};
use vstd::utf8::{is_ascii_chars, is_ascii_chars_encode_utf8};
use crate::encoder::{entries_text, entry_text, object_text, record_text};
use crate::frame::{is_terminated_line, lemma_records_follow_the_stream};
use crate::frame::{lemma_scan_takes_lines_in_order, line_class, records_of, scan};
use crate::frame::{FrameView, LineView, Scan, NEWLINE};
use crate::metric::HardwareMetric;
use crate::decoder::json_metrics;
use crate::sample::{is_value_text, valid_values};
use crate::session::{lemma_round_takes_lines_in_order, round, NoticeView, PollView, Round};
use crate::text::{trimmed, trimmed_end, trimmed_start};

verus! {

/// The bytes of the record of a sample, as they go over the wire.
pub open spec fn record_bytes(readings: Seq<(HardwareMetric, Seq<char>)>) -> Seq<u8> {
    encode_utf8(record_text(readings))
}

/// The bytes of the records of `samples`, one after the other.
pub open spec fn stream_bytes(samples: Seq<Seq<(HardwareMetric, Seq<char>)>>) -> Seq<u8>
    decreases samples.len(),
{
    if samples.len() == 0 {
        Seq::empty()
    } else {
        record_bytes(samples[0]) + stream_bytes(samples.drop_first())
    }
}

/// Whether `c` is a printable ASCII character.
pub open spec fn is_printable(c: char) -> bool {
    ' ' <= c <= '~'
}

/// Whether every character of `text` is printable ASCII.
pub open spec fn all_printable(text: Seq<char>) -> bool {
    forall|i: int| 0 <= i < text.len() ==> is_printable(#[trigger] text[i])
}

/// An entry with a value text holds printable characters only.
proof fn lemma_entry_is_printable(reading: (HardwareMetric, Seq<char>))
    requires
        is_value_text(reading.1),
    ensures
        all_printable(entry_text(reading)),
{
    reveal_strlit("CPU");
    reveal_strlit("MEM");
    reveal_strlit("\": ");
    reveal_strlit("\"");
    let text = entry_text(reading);
    let head = "\""@ + reading.0.token() + "\": "@;
    assert forall|i: int| 0 <= i < text.len() implies is_printable(#[trigger] text[i]) by {
        if i >= head.len() {
            assert(text[i] == reading.1[i - head.len()]);
        }
    }
}

/// The entries of a sample with value texts hold printable characters only.
proof fn lemma_entries_are_printable(readings: Seq<(HardwareMetric, Seq<char>)>)
    requires
        valid_values(readings),
    ensures
        all_printable(entries_text(readings)),
    decreases readings.len(),
{
    reveal_strlit(", ");
    if readings.len() == 0 {
    } else if readings.len() == 1 {
        lemma_entry_is_printable(readings[0]);
    } else {
        let front = readings.drop_last();
        assert forall|i: int| 0 <= i < front.len() implies is_value_text(
            (#[trigger] front[i]).1,
        ) by {
            assert(front[i] == readings[i]);
        }
        lemma_entries_are_printable(front);
        lemma_entry_is_printable(readings.last());
    }
}

/// The record of a sample is one terminated line of well-formed UTF-8, and
/// what is left of it after trimming is the sample's object literal.
pub proof fn lemma_record_is_one_line(readings: Seq<(HardwareMetric, Seq<char>)>)
    requires
        valid_values(readings),
    ensures
        is_terminated_line(record_bytes(readings)),
        line_class(record_bytes(readings)) == LineView::Candidate(object_text(readings)),
{
    reveal_strlit("{");
    reveal_strlit("}");
    reveal_strlit("\n");
    let object = object_text(readings);
    let record = record_text(readings);
    let bytes = record_bytes(readings);
    lemma_entries_are_printable(readings);
    assert(all_printable(object)) by {
        let inner = entries_text(readings);
        assert forall|i: int| 0 <= i < object.len() implies is_printable(#[trigger] object[i]) by {
            if 0 < i < object.len() - 1 {
                assert(object[i] == inner[i - 1]);
            }
        }
    }
    assert(is_ascii_chars(record)) by {
        assert forall|i: int| 0 <= i < record.len() implies '\0' <= #[trigger] record[i]
            <= '\u{7f}' by {
            if i < object.len() {
                assert(is_printable(object[i]));
            }
        }
    }
    is_ascii_chars_encode_utf8(record);
    encode_utf8_valid_utf8(record);
    encode_utf8_decode_utf8(record);
    assert(is_terminated_line(bytes)) by {
        assert(bytes.last() == record[record.len() - 1] as u8);
        assert forall|i: int| 0 <= i < bytes.len() - 1 implies #[trigger] bytes[i] != NEWLINE by {
            assert(bytes[i] == record[i] as u8);
            assert(is_printable(object[i]));
        }
    }
    assert(trimmed(record) == object) by {
        assert(record[0] == '{');
        assert(trimmed_start(record) == record);
        assert(record.drop_last() =~= object);
        assert(object.last() == '}');
        assert(trimmed_end(object) == object);
        assert(trimmed_end(record) == trimmed_end(record.drop_last()));
    }
}

/// Whatever follows it in the buffer, the record of a sample is handed out
/// as one record: the sample's object literal, with nothing dropped on the
/// way and the following bytes left in place.
pub proof fn lemma_record_yields_its_object(
    readings: Seq<(HardwareMetric, Seq<char>)>,
    rest: Seq<u8>,
    closed: bool,
)
    requires
        valid_values(readings),
    ensures
        scan(record_bytes(readings) + rest, closed) == (Scan {
            frame: FrameView::Record(object_text(readings)),
            undecodable: 0,
            rest,
        }),
{
    lemma_record_is_one_line(readings);
    lemma_scan_takes_lines_in_order(record_bytes(readings), rest, closed);
}

/// What the decoder is given is what the encoder wrote: a request for the
/// next sample, made with the record of a sample at the front of the buffer,
/// turns on the object literal of that sample and nothing else.
pub proof fn lemma_sample_reaches_the_decoder(
    readings: Seq<(HardwareMetric, Seq<char>)>,
    rest: Seq<u8>,
    closed: bool,
)
    requires
        valid_values(readings),
    ensures
        round(record_bytes(readings) + rest, closed) == match json_metrics(object_text(readings)) {
            Some(metrics) => Round {
                poll: PollView::Sample(metrics),
                notices: Seq::empty(),
                rest,
            },
            None => Round {
                poll: round(rest, closed).poll,
                notices: seq![NoticeView::Malformed(object_text(readings))] + round(
                    rest,
                    closed,
                ).notices,
                rest: round(rest, closed).rest,
            },
        },
{
    lemma_record_is_one_line(readings);
    lemma_round_takes_lines_in_order(record_bytes(readings), rest, closed);
}

/// Records are handed out in the exact order in which they were written: the
/// records of a stream of samples are the object literals of those samples,
/// one for each and in the same order.
pub proof fn lemma_stream_keeps_order(samples: Seq<Seq<(HardwareMetric, Seq<char>)>>)
    requires
        forall|i: int| 0 <= i < samples.len() ==> valid_values(#[trigger] samples[i]),
    ensures
        records_of(stream_bytes(samples)) == samples.map_values(
            |readings: Seq<(HardwareMetric, Seq<char>)>| object_text(readings),
        ),
    decreases samples.len(),
{
    let objects = samples.map_values(
        |readings: Seq<(HardwareMetric, Seq<char>)>| object_text(readings),
    );
    if samples.len() == 0 {
        assert(records_of(stream_bytes(samples)) =~= objects);
    } else {
        let later = samples.drop_first();
        assert forall|i: int| 0 <= i < later.len() implies valid_values(#[trigger] later[i]) by {
            assert(later[i] == samples[i + 1]);
        }
        lemma_stream_keeps_order(later);
        lemma_record_is_one_line(samples[0]);
        lemma_records_follow_the_stream(record_bytes(samples[0]), stream_bytes(later));
        assert(records_of(stream_bytes(samples)) =~= objects);
    }
}

} // verus!
