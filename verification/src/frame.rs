//! The frame reader: cuts a byte stream into newline-terminated lines and
//! hands out, in order, those that are candidates for decoding.

use vstd::prelude::*;
use vstd::utf8::{decode_utf8, valid_utf8};
use crate::text::{from_utf8, trim, trimmed};

verus! {

/// The byte that terminates a record.
pub const NEWLINE: u8 = 0x0a;

/// The index of the first newline in `bytes`, or their length when there is
/// none.
pub open spec fn first_break(bytes: Seq<u8>) -> int
    decreases bytes.len(),
{
    if bytes.len() == 0 || bytes[0] == NEWLINE {
        0
    } else {
        1 + first_break(bytes.drop_first())
    }
}

/// Whether `bytes` hold a terminated line.
pub open spec fn has_line(bytes: Seq<u8>) -> bool {
    first_break(bytes) < bytes.len()
}

/// The length of the first line of `bytes`, terminator included; the whole
/// length when no newline occurs.
pub open spec fn first_line_len(bytes: Seq<u8>) -> int {
    if has_line(bytes) {
        first_break(bytes) + 1
    } else {
        bytes.len() as int
    }
}

/// `first_break` is the position of the first newline.
pub proof fn lemma_first_break(bytes: Seq<u8>)
    ensures
        0 <= first_break(bytes) <= bytes.len(),
        forall|i: int| 0 <= i < first_break(bytes) ==> #[trigger] bytes[i] != NEWLINE,
        has_line(bytes) ==> bytes[first_break(bytes)] == NEWLINE,
    decreases bytes.len(),
{
    if bytes.len() == 0 || bytes[0] == NEWLINE {
    } else {
        let rest = bytes.drop_first();
        lemma_first_break(rest);
        assert forall|i: int| 0 <= i < first_break(bytes) implies #[trigger] bytes[i]
            != NEWLINE by {
            if i > 0 {
                assert(bytes[i] == rest[i - 1]);
            }
        }
    }
}

/// A position before which no newline occurs, and which is a newline or the
/// end, is the first break.
pub proof fn lemma_first_break_is(bytes: Seq<u8>, at: int)
    requires
        0 <= at <= bytes.len(),
        forall|i: int| 0 <= i < at ==> #[trigger] bytes[i] != NEWLINE,
        at < bytes.len() ==> bytes[at] == NEWLINE,
    ensures
        first_break(bytes) == at,
{
    lemma_first_break(bytes);
    let found = first_break(bytes);
    if found < at {
        assert(bytes[found] != NEWLINE);
    } else if found > at {
        assert(bytes[at] != NEWLINE);
    }
}

/// What one line of the stream amounts to.
#[derive(Debug, PartialEq, Eq)]
pub enum Line {
    /// Nothing but whitespace: a protocol no-op.
    Blank,
    /// Not well-formed UTF-8.
    Undecodable,
    /// The trimmed text of a line that is to be decoded.
    Candidate(String),
}

/// The mathematical value of a [`Line`].
pub enum LineView {
    Blank,
    Undecodable,
    Candidate(Seq<char>),
}

impl View for Line {
    type V = LineView;

    open spec fn view(&self) -> LineView {
        match self {
            Line::Blank => LineView::Blank,
            Line::Undecodable => LineView::Undecodable,
            Line::Candidate(text) => LineView::Candidate(text@),
        }
    }
}

/// What the bytes of one line amount to: undecodable unless they are
/// well-formed UTF-8, blank if their text trims to nothing, and otherwise a
/// candidate with the trimmed text.
pub open spec fn line_class(line: Seq<u8>) -> LineView {
    if !valid_utf8(line) {
        LineView::Undecodable
    } else if trimmed(decode_utf8(line)).len() == 0 {
        LineView::Blank
    } else {
        LineView::Candidate(trimmed(decode_utf8(line)))
    }
}

/// Classifies the bytes of one line.
pub fn classify_line(line: &[u8]) -> (class: Line)
    ensures
        class@ == line_class(line@),
{
    match from_utf8(line) {
        None => Line::Undecodable,
        Some(text) => {
            let kept = trim(text);
            if kept.is_empty() {
                Line::Blank
            } else {
                Line::Candidate(kept.to_owned())
            }
        },
    }
}

/// What the frame reader hands out.
#[derive(Debug, PartialEq, Eq)]
pub enum Frame {
    /// The text of the next candidate line.
    Record(String),
    /// No complete line is buffered and the stream is still open.
    NeedInput,
    /// The peer has closed the stream and every line has been handed out.
    EndOfStream,
}

/// The mathematical value of a [`Frame`].
pub enum FrameView {
    Record(Seq<char>),
    NeedInput,
    EndOfStream,
}

impl View for Frame {
    type V = FrameView;

    open spec fn view(&self) -> FrameView {
        match self {
            Frame::Record(text) => FrameView::Record(text@),
            Frame::NeedInput => FrameView::NeedInput,
            Frame::EndOfStream => FrameView::EndOfStream,
        }
    }
}

/// The result of asking the frame reader for the next record.
#[derive(Debug, PartialEq, Eq)]
pub struct Polled {
    /// What was found.
    pub frame: Frame,
    /// How many lines were dropped on the way because they were not
    /// well-formed UTF-8.
    pub undecodable: usize,
}

/// The mathematical account of one request for the next record.
pub struct Scan {
    pub frame: FrameView,
    pub undecodable: nat,
    pub rest: Seq<u8>,
}

/// What a request for the next record yields on the buffered bytes `pending`
/// of a stream that is `closed` or not: lines are taken from the front,
/// blank and undecodable ones are passed over, and the first candidate is the
/// record. A last line without terminator counts only once the stream is
/// closed.
pub open spec fn scan(pending: Seq<u8>, closed: bool) -> Scan
    decreases pending.len(),
{
    if pending.len() == 0 {
        Scan {
            frame: if closed {
                FrameView::EndOfStream
            } else {
                FrameView::NeedInput
            },
            undecodable: 0,
            rest: pending,
        }
    } else if !has_line(pending) && !closed {
        Scan { frame: FrameView::NeedInput, undecodable: 0, rest: pending }
    } else {
        let cut = first_line_len(pending);
        let rest = pending.skip(cut);
        proof {
            lemma_first_break(pending);
        }
        match line_class(pending.take(cut)) {
            LineView::Candidate(text) => Scan { frame: FrameView::Record(text), undecodable: 0, rest },
            LineView::Blank => scan(rest, closed),
            LineView::Undecodable => {
                let later = scan(rest, closed);
                Scan { frame: later.frame, undecodable: later.undecodable + 1, rest: later.rest }
            },
        }
    }
}

/// Whether `line` is one terminated line: it ends in a newline and holds no
/// other.
pub open spec fn is_terminated_line(line: Seq<u8>) -> bool {
    &&& line.len() > 0
    &&& line.last() == NEWLINE
    &&& forall|i: int| 0 <= i < line.len() - 1 ==> #[trigger] line[i] != NEWLINE
}

/// A terminated line at the front of the buffer is the first line taken.
pub proof fn lemma_front_line(line: Seq<u8>, rest: Seq<u8>)
    requires
        is_terminated_line(line),
    ensures
        has_line(line + rest),
        first_line_len(line + rest) == line.len(),
        (line + rest).take(line.len() as int) == line,
        (line + rest).skip(line.len() as int) == rest,
{
    let all = line + rest;
    assert forall|i: int| 0 <= i < line.len() - 1 implies #[trigger] all[i] != NEWLINE by {
        assert(all[i] == line[i]);
    }
    assert(all[line.len() - 1] == line.last());
    lemma_first_break_is(all, line.len() - 1);
    assert(all.take(line.len() as int) =~= line);
    assert(all.skip(line.len() as int) =~= rest);
}

/// Lines are taken in stream order and blank ones leave no trace: with a
/// terminated line at the front of the buffer, a request for the next record
/// yields that line's text if it is a candidate, and otherwise whatever the
/// bytes after it yield, counting the line if it was undecodable.
pub proof fn lemma_scan_takes_lines_in_order(line: Seq<u8>, rest: Seq<u8>, closed: bool)
    requires
        is_terminated_line(line),
    ensures
        scan(line + rest, closed) == match line_class(line) {
            LineView::Candidate(text) => Scan { frame: FrameView::Record(text), undecodable: 0, rest },
            LineView::Blank => scan(rest, closed),
            LineView::Undecodable => Scan {
                frame: scan(rest, closed).frame,
                undecodable: scan(rest, closed).undecodable + 1,
                rest: scan(rest, closed).rest,
            },
        },
{
    lemma_front_line(line, rest);
}

/// The records that repeated requests hand out on a closed stream holding
/// `stream`, in the order in which they come.
pub open spec fn records_of(stream: Seq<u8>) -> Seq<Seq<char>>
    decreases stream.len(),
{
    let found = scan(stream, true);
    match found.frame {
        FrameView::Record(text) => {
            proof {
                lemma_scan_consumes(stream, true);
            }
            seq![text] + records_of(found.rest)
        },
        _ => Seq::empty(),
    }
}

/// A request for the next record consumes at least one byte whenever it
/// yields a record, and never gives bytes back.
pub proof fn lemma_scan_consumes(pending: Seq<u8>, closed: bool)
    ensures
        scan(pending, closed).rest.len() <= pending.len(),
        scan(pending, closed).frame is Record ==> scan(pending, closed).rest.len() < pending.len(),
    decreases pending.len(),
{
    lemma_first_break(pending);
    if pending.len() == 0 {
    } else if !has_line(pending) && !closed {
    } else {
        let cut = first_line_len(pending);
        match line_class(pending.take(cut)) {
            LineView::Candidate(_) => {},
            _ => {
                lemma_scan_consumes(pending.skip(cut), closed);
            },
        }
    }
}

/// What is handed out as a record is never blank, and the end of the stream
/// is announced exactly when the stream is closed and nothing was found.
pub proof fn lemma_scan_outcomes(pending: Seq<u8>, closed: bool)
    ensures
        scan(pending, closed).frame matches FrameView::Record(text) ==> text.len() > 0,
        scan(pending, closed).frame is EndOfStream ==> closed && scan(pending, closed).rest.len()
            == 0,
        scan(pending, closed).frame is NeedInput ==> !closed && !has_line(
            scan(pending, closed).rest,
        ),
    decreases pending.len(),
{
    lemma_first_break(pending);
    if pending.len() == 0 {
    } else if !has_line(pending) && !closed {
    } else {
        let cut = first_line_len(pending);
        match line_class(pending.take(cut)) {
            LineView::Candidate(_) => {},
            _ => {
                lemma_scan_outcomes(pending.skip(cut), closed);
            },
        }
    }
}

/// Over a whole stream, blank and undecodable lines leave no trace among the
/// records, and a candidate line comes out before everything after it.
pub proof fn lemma_records_follow_the_stream(line: Seq<u8>, rest: Seq<u8>)
    requires
        is_terminated_line(line),
    ensures
        records_of(line + rest) == match line_class(line) {
            LineView::Candidate(text) => seq![text] + records_of(rest),
            _ => records_of(rest),
        },
{
    lemma_scan_takes_lines_in_order(line, rest, true);
}

/// Bytes that arrive later do not move the first line of a buffer that
/// already holds one.
pub proof fn lemma_first_line_is_settled(pending: Seq<u8>, more: Seq<u8>)
    requires
        has_line(pending),
    ensures
        has_line(pending + more),
        first_line_len(pending + more) == first_line_len(pending),
        (pending + more).take(first_line_len(pending)) == pending.take(first_line_len(pending)),
        (pending + more).skip(first_line_len(pending)) == pending.skip(first_line_len(pending))
            + more,
{
    let all = pending + more;
    let at = first_break(pending);
    lemma_first_break(pending);
    assert forall|i: int| 0 <= i < at implies #[trigger] all[i] != NEWLINE by {
        assert(all[i] == pending[i]);
    }
    assert(all[at] == pending[at]);
    lemma_first_break_is(all, at);
    assert(all.take(at + 1) =~= pending.take(at + 1));
    assert(all.skip(at + 1) =~= pending.skip(at + 1) + more);
}

/// Asking early loses nothing: a request made on an open stream before
/// `more` bytes arrived has the same effect as waiting for them, whether or
/// not the stream is closed afterwards. If it found a record, the later
/// request finds the same one; if it needed input, what it left in the buffer
/// is where the later request picks up.
pub proof fn lemma_asking_early_loses_nothing(pending: Seq<u8>, more: Seq<u8>, closed: bool)
    ensures
        scan(pending, false).frame !is EndOfStream,
        scan(pending, false).frame is Record ==> scan(pending + more, closed) == (Scan {
            frame: scan(pending, false).frame,
            undecodable: scan(pending, false).undecodable,
            rest: scan(pending, false).rest + more,
        }),
        scan(pending, false).frame is NeedInput ==> scan(pending + more, closed) == (Scan {
            frame: scan(scan(pending, false).rest + more, closed).frame,
            undecodable: scan(pending, false).undecodable + scan(
                scan(pending, false).rest + more,
                closed,
            ).undecodable,
            rest: scan(scan(pending, false).rest + more, closed).rest,
        }),
    decreases pending.len(),
{
    lemma_first_break(pending);
    if pending.len() == 0 {
        assert(pending + more =~= more);
    } else if !has_line(pending) {
    } else {
        let cut = first_line_len(pending);
        lemma_first_line_is_settled(pending, more);
        match line_class(pending.take(cut)) {
            LineView::Candidate(_) => {},
            _ => {
                lemma_asking_early_loses_nothing(pending.skip(cut), more, closed);
            },
        }
    }
}

/// The line-accumulation buffer of one session.
pub struct FrameReader {
    pending: Vec<u8>,
    closed: bool,
}

impl FrameReader {
    /// The bytes received and not yet handed out.
    pub closed spec fn pending(&self) -> Seq<u8> {
        self.pending@
    }

    /// Whether the peer has closed the stream.
    pub closed spec fn is_closed(&self) -> bool {
        self.closed
    }

    /// Creates the reader of a stream that is open and has delivered nothing.
    pub fn new() -> (reader: FrameReader)
        ensures
            reader.pending() == Seq::<u8>::empty(),
            !reader.is_closed(),
    {
        FrameReader { pending: Vec::new(), closed: false }
    }

    /// Takes in bytes read from the stream. Bytes offered after the stream
    /// was closed are dropped.
    pub fn feed(&mut self, chunk: &[u8])
        ensures
            final(self).is_closed() == old(self).is_closed(),
            final(self).pending() == if old(self).is_closed() {
                old(self).pending()
            } else {
                old(self).pending() + chunk@
            },
    {
        if !self.closed {
            let ghost before = self.pending@;
            self.pending.extend_from_slice(chunk);
            assert(self.pending@ =~= before + chunk@);
        }
    }

    /// Records a zero-length read: the peer has closed the stream.
    pub fn close(&mut self)
        ensures
            final(self).is_closed(),
            final(self).pending() == old(self).pending(),
    {
        self.closed = true;
    }

    /// Finds the first newline of the buffered bytes.
    fn find_break(&self) -> (at: usize)
        ensures
            at == first_break(self.pending()),
    {
        let mut at: usize = 0;
        while at < self.pending.len() && self.pending[at] != NEWLINE
            invariant
                at <= self.pending@.len(),
                forall|i: int| 0 <= i < at ==> #[trigger] self.pending@[i] != NEWLINE,
            decreases self.pending@.len() - at,
        {
            at += 1;
        }
        proof {
            lemma_first_break_is(self.pending@, at as int);
        }
        at
    }

    /// Takes the next line off the buffer, terminator included: the first
    /// terminated line, or, once the stream is closed, whatever is left.
    pub fn take_line(&mut self) -> (line: Option<Vec<u8>>)
        ensures
            final(self).is_closed() == old(self).is_closed(),
            match line {
                Some(bytes) => {
                    &&& old(self).pending().len() > 0
                    &&& has_line(old(self).pending()) || old(self).is_closed()
                    &&& bytes@ == old(self).pending().take(first_line_len(old(self).pending()))
                    &&& final(self).pending() == old(self).pending().skip(
                        first_line_len(old(self).pending()),
                    )
                },
                None => {
                    &&& old(self).pending().len() == 0 || (!has_line(old(self).pending())
                        && !old(self).is_closed())
                    &&& final(self).pending() == old(self).pending()
                },
            },
    {
        let at = self.find_break();
        let length = self.pending.len();
        if length == 0 {
            return None;
        }
        let cut = if at < length {
            at + 1
        } else if self.closed {
            length
        } else {
            return None;
        };
        let mut line = self.pending.split_off(cut);
        core::mem::swap(&mut line, &mut self.pending);
        Some(line)
    }

    /// Hands out the next record: the text of the first buffered line that is
    /// a candidate for decoding. Blank lines and lines that are not
    /// well-formed UTF-8 are consumed on the way; the latter are counted.
    pub fn next_record(&mut self) -> (polled: Polled)
        ensures
            final(self).is_closed() == old(self).is_closed(),
            polled.frame@ == scan(old(self).pending(), old(self).is_closed()).frame,
            polled.undecodable == scan(old(self).pending(), old(self).is_closed()).undecodable,
            final(self).pending() == scan(old(self).pending(), old(self).is_closed()).rest,
    {
        let buffered = self.pending.len();
        let mut undecodable: usize = 0;
        loop
            invariant
                self.is_closed() == old(self).is_closed(),
                undecodable + self.pending().len() <= buffered,
                scan(old(self).pending(), old(self).is_closed()).frame == scan(
                    self.pending(),
                    self.is_closed(),
                ).frame,
                scan(old(self).pending(), old(self).is_closed()).rest == scan(
                    self.pending(),
                    self.is_closed(),
                ).rest,
                scan(old(self).pending(), old(self).is_closed()).undecodable == scan(
                    self.pending(),
                    self.is_closed(),
                ).undecodable + undecodable,
            decreases self.pending().len(),
        {
            let ghost before = self.pending();
            proof {
                lemma_first_break(before);
            }
            match self.take_line() {
                None => {
                    let frame = if self.closed {
                        Frame::EndOfStream
                    } else {
                        Frame::NeedInput
                    };
                    return Polled { frame, undecodable };
                },
                Some(bytes) => {
                    match classify_line(bytes.as_slice()) {
                        Line::Candidate(text) => {
                            return Polled { frame: Frame::Record(text), undecodable };
                        },
                        Line::Blank => {},
                        Line::Undecodable => {
                            undecodable += 1;
                        },
                    }
                },
            }
        }
    }
}

} // verus!
