//! The collector's side of one connection: bytes go in, decoded samples come
//! out in stream order, and whatever had to be dropped is reported beside
//! them.

use vstd::prelude::*;
use crate::decoder::{decode, json_metrics, DecodeError, DecodedSample};
use crate::frame::{is_terminated_line, lemma_scan_consumes, lemma_scan_outcomes};
use crate::frame::lemma_scan_takes_lines_in_order;
use crate::frame::{line_class, scan, Frame, FrameReader, FrameView, LineView};

verus! {

/// Something the session dropped, and why.
#[derive(Debug, PartialEq, Eq)]
pub enum Notice {
    /// A line was not well-formed UTF-8.
    InvalidEncoding,
    /// A candidate line did not decode; `reason` is the decoder's message.
    Malformed { line: String, reason: String },
}

/// The mathematical value of a [`Notice`]; the decoder's message is left out.
pub enum NoticeView {
    InvalidEncoding,
    Malformed(Seq<char>),
}

impl View for Notice {
    type V = NoticeView;

    open spec fn view(&self) -> NoticeView {
        match self {
            Notice::InvalidEncoding => NoticeView::InvalidEncoding,
            Notice::Malformed { line, .. } => NoticeView::Malformed(line@),
        }
    }
}

/// What a session has for its caller.
#[derive(Debug, PartialEq, Eq)]
pub enum Poll {
    /// The next sample of the stream.
    Sample(DecodedSample),
    /// Nothing more can be said until more bytes arrive.
    NeedInput,
    /// The peer has closed the stream and nothing is left.
    EndOfStream,
}

/// The mathematical value of a [`Poll`].
pub enum PollView {
    Sample(Seq<(Seq<char>, Seq<char>)>),
    NeedInput,
    EndOfStream,
}

impl View for Poll {
    type V = PollView;

    open spec fn view(&self) -> PollView {
        match self {
            Poll::Sample(sample) => PollView::Sample(sample@),
            Poll::NeedInput => PollView::NeedInput,
            Poll::EndOfStream => PollView::EndOfStream,
        }
    }
}

/// The answer to one request for the next sample.
#[derive(Debug, PartialEq, Eq)]
pub struct Delivery {
    /// What was found.
    pub poll: Poll,
    /// What was dropped before it, in stream order.
    pub notices: Vec<Notice>,
}

/// The mathematical account of one request for the next sample.
pub struct Round {
    pub poll: PollView,
    pub notices: Seq<NoticeView>,
    pub rest: Seq<u8>,
}

/// The notices for `lines` undecodable lines: one for each.
pub open spec fn encoding_notices(lines: nat) -> Seq<NoticeView> {
    Seq::new(lines, |i: int| NoticeView::InvalidEncoding)
}

/// What a request for the next sample yields on the buffered bytes `pending`
/// of a stream that is `closed` or not: records are taken in order, those
/// that do not decode are passed over with a notice, and the first that does
/// is the sample.
pub open spec fn round(pending: Seq<u8>, closed: bool) -> Round
    decreases pending.len(),
{
    let found = scan(pending, closed);
    let dropped = encoding_notices(found.undecodable);
    match found.frame {
        FrameView::Record(text) => match json_metrics(text) {
            Some(metrics) => Round {
                poll: PollView::Sample(metrics),
                notices: dropped,
                rest: found.rest,
            },
            None => {
                proof {
                    lemma_scan_consumes(pending, closed);
                }
                let later = round(found.rest, closed);
                Round {
                    poll: later.poll,
                    notices: dropped + seq![NoticeView::Malformed(text)] + later.notices,
                    rest: later.rest,
                }
            },
        },
        FrameView::NeedInput => Round { poll: PollView::NeedInput, notices: dropped, rest: found.rest },
        FrameView::EndOfStream => Round {
            poll: PollView::EndOfStream,
            notices: dropped,
            rest: found.rest,
        },
    }
}

/// Samples come in stream order and nothing that is dropped ends the
/// session: with a terminated line at the front of the buffer, a request for
/// the next sample yields that line's sample if the line decodes, and
/// otherwise whatever the bytes after it yield, with a notice put in front
/// unless the line was blank.
pub proof fn lemma_round_takes_lines_in_order(line: Seq<u8>, rest: Seq<u8>, closed: bool)
    requires
        is_terminated_line(line),
    ensures
        round(line + rest, closed) == match line_class(line) {
            LineView::Blank => round(rest, closed),
            LineView::Undecodable => Round {
                poll: round(rest, closed).poll,
                notices: seq![NoticeView::InvalidEncoding] + round(rest, closed).notices,
                rest: round(rest, closed).rest,
            },
            LineView::Candidate(text) => match json_metrics(text) {
                Some(metrics) => Round {
                    poll: PollView::Sample(metrics),
                    notices: Seq::empty(),
                    rest,
                },
                None => Round {
                    poll: round(rest, closed).poll,
                    notices: seq![NoticeView::Malformed(text)] + round(rest, closed).notices,
                    rest: round(rest, closed).rest,
                },
            },
        },
{
    lemma_scan_takes_lines_in_order(line, rest, closed);
    let whole = round(line + rest, closed);
    let later = round(rest, closed);
    match line_class(line) {
        LineView::Blank => {},
        LineView::Undecodable => {
            let count = scan(rest, closed).undecodable;
            assert(encoding_notices(count + 1) =~= seq![NoticeView::InvalidEncoding]
                + encoding_notices(count));
            assert(whole.notices =~= seq![NoticeView::InvalidEncoding] + later.notices);
        },
        LineView::Candidate(text) => {
            assert(encoding_notices(0) =~= Seq::<NoticeView>::empty());
            assert(whole.notices =~= match json_metrics(text) {
                Some(_) => Seq::<NoticeView>::empty(),
                None => seq![NoticeView::Malformed(text)] + later.notices,
            });
        },
    }
}

/// Nothing but the peer ends a session: the end of the stream is announced
/// only on a closed stream with nothing left to read, however many lines were
/// dropped, and more input is asked for only while the stream is open.
pub proof fn lemma_only_the_peer_ends_a_session(pending: Seq<u8>, closed: bool)
    ensures
        round(pending, closed).poll is EndOfStream ==> closed && round(pending, closed).rest.len()
            == 0,
        round(pending, closed).poll is NeedInput ==> !closed,
        round(pending, closed).rest.len() <= pending.len(),
    decreases pending.len(),
{
    lemma_scan_outcomes(pending, closed);
    lemma_scan_consumes(pending, closed);
    let found = scan(pending, closed);
    if found.frame matches FrameView::Record(text) && json_metrics(text) is None {
        lemma_only_the_peer_ends_a_session(found.rest, closed);
    }
}

/// A malformed line does not end the session: the well-formed line that
/// follows it is decoded as if nothing had gone before, and the malformed one
/// is reported.
pub proof fn lemma_session_survives_malformed_line(
    malformed: Seq<u8>,
    sound: Seq<u8>,
    rest: Seq<u8>,
    closed: bool,
)
    requires
        is_terminated_line(malformed),
        is_terminated_line(sound),
        line_class(malformed) matches LineView::Candidate(text) && json_metrics(text) is None,
        line_class(sound) matches LineView::Candidate(text) && json_metrics(text) is Some,
    ensures
        round(malformed + sound + rest, closed) == (Round {
            poll: PollView::Sample(json_metrics(line_class(sound)->Candidate_0)->0),
            notices: seq![NoticeView::Malformed(line_class(malformed)->Candidate_0)],
            rest,
        }),
{
    lemma_round_takes_lines_in_order(sound, rest, closed);
    lemma_round_takes_lines_in_order(malformed, sound + rest, closed);
    assert(malformed + sound + rest =~= malformed + (sound + rest));
    assert(seq![NoticeView::Malformed(line_class(malformed)->Candidate_0)]
        + Seq::<NoticeView>::empty() =~= seq![
        NoticeView::Malformed(line_class(malformed)->Candidate_0),
    ]);
}

/// The notices of `list` as mathematical values.
pub open spec fn notices_view(list: Seq<Notice>) -> Seq<NoticeView> {
    list.map_values(|notice: Notice| notice@)
}

/// The state of one accepted connection.
pub struct Session {
    reader: FrameReader,
}

impl Session {
    /// The bytes received and not yet consumed.
    pub closed spec fn pending(&self) -> Seq<u8> {
        self.reader.pending()
    }

    /// Whether the peer has closed the stream.
    pub closed spec fn is_closed(&self) -> bool {
        self.reader.is_closed()
    }

    /// Opens the session of a stream that has delivered nothing yet.
    pub fn new() -> (session: Session)
        ensures
            session.pending() == Seq::<u8>::empty(),
            !session.is_closed(),
    {
        Session { reader: FrameReader::new() }
    }

    /// Takes in bytes read from the peer. Bytes offered after the stream was
    /// closed are dropped.
    pub fn feed(&mut self, chunk: &[u8])
        ensures
            final(self).is_closed() == old(self).is_closed(),
            final(self).pending() == if old(self).is_closed() {
                old(self).pending()
            } else {
                old(self).pending() + chunk@
            },
    {
        self.reader.feed(chunk);
    }

    /// Records a zero-length read: the peer has closed the stream.
    pub fn close(&mut self)
        ensures
            final(self).is_closed(),
            final(self).pending() == old(self).pending(),
    {
        self.reader.close();
    }

    /// Hands out the next sample of the stream, with a notice for everything
    /// that was dropped before it. A line that does not decode never ends the
    /// session: it is reported and the next one is tried.
    pub fn next_sample(&mut self) -> (delivery: Delivery)
        ensures
            final(self).is_closed() == old(self).is_closed(),
            delivery.poll@ == round(old(self).pending(), old(self).is_closed()).poll,
            notices_view(delivery.notices@) == round(
                old(self).pending(),
                old(self).is_closed(),
            ).notices,
            final(self).pending() == round(old(self).pending(), old(self).is_closed()).rest,
            delivery.poll matches Poll::Sample(sample) ==> sample.well_formed(),
    {
        let mut notices: Vec<Notice> = Vec::new();
        loop
            invariant
                self.is_closed() == old(self).is_closed(),
                round(old(self).pending(), old(self).is_closed()).poll == round(
                    self.pending(),
                    self.is_closed(),
                ).poll,
                round(old(self).pending(), old(self).is_closed()).rest == round(
                    self.pending(),
                    self.is_closed(),
                ).rest,
                round(old(self).pending(), old(self).is_closed()).notices == notices_view(
                    notices@,
                ) + round(self.pending(), self.is_closed()).notices,
            decreases self.pending().len(),
        {
            let ghost before = self.pending();
            let ghost reported = notices_view(notices@);
            proof {
                lemma_scan_consumes(before, self.is_closed());
            }
            let polled = self.reader.next_record();
            let mut noted: usize = 0;
            while noted < polled.undecodable
                invariant
                    noted <= polled.undecodable,
                    notices_view(notices@) == reported + encoding_notices(noted as nat),
                decreases polled.undecodable - noted,
            {
                let ghost earlier = notices@;
                notices.push(Notice::InvalidEncoding);
                noted += 1;
                proof {
                    assert(notices@ =~= earlier.push(Notice::InvalidEncoding));
                    assert(notices_view(notices@) =~= notices_view(earlier).push(
                        NoticeView::InvalidEncoding,
                    ));
                    assert(encoding_notices(noted as nat) =~= encoding_notices(
                        (noted - 1) as nat,
                    ).push(NoticeView::InvalidEncoding));
                }
            }
            let ghost dropped = encoding_notices(polled.undecodable as nat);
            match polled.frame {
                Frame::NeedInput => {
                    assert(reported + dropped + Seq::<NoticeView>::empty() =~= reported + dropped);
                    return Delivery { poll: Poll::NeedInput, notices };
                },
                Frame::EndOfStream => {
                    return Delivery { poll: Poll::EndOfStream, notices };
                },
                Frame::Record(text) => {
                    match decode(text.as_str()) {
                        Ok(sample) => {
                            return Delivery { poll: Poll::Sample(sample), notices };
                        },
                        Err(error) => {
                            let reason = match error {
                                DecodeError::Malformed { reason } => reason,
                                DecodeError::DuplicateName => unreached(),
                            };
                            let ghost line = text@;
                            notices.push(Notice::Malformed { line: text, reason });
                            proof {
                                let later = round(self.pending(), self.is_closed());
                                assert(notices_view(notices@) =~= reported + dropped
                                    + seq![NoticeView::Malformed(line)]);
                                assert(reported + (dropped + seq![NoticeView::Malformed(line)]
                                    + later.notices) =~= reported + dropped
                                    + seq![NoticeView::Malformed(line)] + later.notices);
                            }
                        },
                    }
                },
            }
        }
    }
}

} // verus!
