//! Assembly of a transcript from the segments that the recogniser returns,
//! and the settings handed to the recogniser.
use vstd::prelude::*;
use crate::text::{prefixed, trim, trim_spec, trim_end_spec, is_space, str_eq, lemma_trim_ends, lemma_trim_end_noop};

verus! {

/// One recognised segment. `start` and `end` are in centiseconds (1/100 s).
#[derive(Clone)]
pub struct Segment {
    pub start: i64,
    pub end: i64,
    pub text: String,
}

/// A segment as a mathematical value.
pub struct SegmentView {
    pub start: i64,
    pub end: i64,
    pub text: Seq<char>,
}

impl View for Segment {
    type V = SegmentView;

    open spec fn view(&self) -> SegmentView {
        SegmentView { start: self.start, end: self.end, text: self.text@ }
    }
}

/// The result of a transcription: the whole text and its timed segments.
#[derive(Clone)]
pub struct TranscriptResult {
    pub text: String,
    pub segments: Vec<Segment>,
}

/// The views of a vector of segments.
pub open spec fn segment_views(v: Seq<Segment>) -> Seq<SegmentView> {
    v.map_values(|s: Segment| s@)
}

/// A segment with its text trimmed.
pub open spec fn trimmed_segment(r: SegmentView) -> SegmentView {
    SegmentView { start: r.start, end: r.end, text: trim_spec(r.text) }
}

/// The segments of a transcript: those received, each with its text trimmed.
pub open spec fn transcript_segments(raw: Seq<SegmentView>) -> Seq<SegmentView> {
    raw.map_values(|r: SegmentView| trimmed_segment(r))
}

/// The text of a transcript: the trimmed texts of the received segments that
/// are not empty, one per line, with no line break after the last.
pub open spec fn transcript_text(raw: Seq<SegmentView>) -> Seq<char>
    decreases raw.len(),
{
    if raw.len() == 0 {
        seq![]
    } else {
        let prev = transcript_text(raw.drop_last());
        let piece = trim_spec(raw.last().text);
        if piece.len() == 0 {
            prev
        } else if prev.len() == 0 {
            piece
        } else {
            prev + seq!['\n'] + piece
        }
    }
}

/// The text as the recogniser's loop first writes it: each non-empty trimmed
/// segment text followed by a line break.
pub open spec fn lines_with_breaks(raw: Seq<SegmentView>) -> Seq<char>
    decreases raw.len(),
{
    if raw.len() == 0 {
        seq![]
    } else {
        let piece = trim_spec(raw.last().text);
        if piece.len() == 0 {
            lines_with_breaks(raw.drop_last())
        } else {
            lines_with_breaks(raw.drop_last()) + piece + seq!['\n']
        }
    }
}

/// Collects the segments of one transcription, in the order in which the
/// recogniser returns them.
pub struct TranscriptBuilder {
    text: String,
    segments: Vec<Segment>,
    received: Ghost<Seq<SegmentView>>,
}

impl TranscriptBuilder {
    /// The segments received so far, as they were given.
    pub closed spec fn received(&self) -> Seq<SegmentView> {
        self.received@
    }

    /// The builder's internal state agrees with what it has received.
    pub closed spec fn wf(&self) -> bool {
        &&& self.text@ == transcript_text(self.received@)
        &&& segment_views(self.segments@) == transcript_segments(self.received@)
    }

    /// A builder that has received nothing.
    pub fn new() -> (b: TranscriptBuilder)
        ensures
            b.wf(),
            b.received() == Seq::<SegmentView>::empty(),
    {
        let b = TranscriptBuilder {
            text: String::new(),
            segments: Vec::new(),
            received: Ghost(Seq::empty()),
        };
        assert(segment_views(b.segments@) =~= transcript_segments(b.received@));
        b
    }

    /// Receives the next segment.
    pub fn push(&mut self, start: i64, end: i64, raw_text: &str)
        requires
            old(self).wf(),
        ensures
            final(self).wf(),
            final(self).received() == old(self).received().push(
                SegmentView { start, end, text: raw_text@ },
            ),
    {
        let ghost raw = self.received@.push(SegmentView { start, end, text: raw_text@ });
        let ghost old_raw = self.received@;
        let ghost old_segs = self.segments@;
        let piece = trim(raw_text);
        proof {
            reveal_strlit("\n");
        }
        if !piece.is_empty() {
            if !self.text.as_str().is_empty() {
                self.text.append("\n");
            }
            self.text.append(piece);
        }
        let seg = Segment { start, end, text: String::from_str(piece) };
        self.segments.push(seg);
        self.received = Ghost(raw);
        proof {
            assert(raw.drop_last() =~= old_raw);
            assert(raw.last() == SegmentView { start, end, text: raw_text@ });
            assert(transcript_text(raw) == self.text@);
            assert(segment_views(old_segs.push(seg)) =~= segment_views(old_segs).push(seg@));
            assert(transcript_segments(raw) =~= transcript_segments(old_raw).push(
                trimmed_segment(raw.last()),
            ));
        }
    }

    /// The transcript of every segment received.
    pub fn finish(self) -> (r: TranscriptResult)
        requires
            self.wf(),
        ensures
            r.text@ == transcript_text(self.received()),
            segment_views(r.segments@) == transcript_segments(self.received()),
            r.segments.len() == self.received().len(),
            forall|i: int|
                0 <= i < r.segments.len() ==> {
                    &&& (#[trigger] r.segments[i]).start == self.received()[i].start
                    &&& r.segments[i].end == self.received()[i].end
                    &&& r.segments[i].text@ == trim_spec(self.received()[i].text)
                },
    {
        let r = TranscriptResult { text: self.text, segments: self.segments };
        proof {
            let raw = self.received();
            assert(segment_views(r.segments@).len() == r.segments@.len());
            assert(transcript_segments(raw).len() == raw.len());
            assert forall|i: int| 0 <= i < r.segments.len() implies {
                &&& (#[trigger] r.segments[i]).start == raw[i].start
                &&& r.segments[i].end == raw[i].end
                &&& r.segments[i].text@ == trim_spec(raw[i].text)
            } by {
                assert(segment_views(r.segments@)[i] == r.segments[i]@);
                lemma_segment_is_trimmed_input(raw, i);
            }
        }
        r
    }
}

/// Why a transcription failed, with the detail the recogniser reported.
pub enum TranscribeError {
    ModelPath,
    ModelLoad(String),
    StateInit(String),
    Recognition(String),
    SegmentCount(String),
    SegmentText(String),
    SegmentStart(String),
    SegmentEnd(String),
}

/// The message shown for a transcription error.
pub open spec fn transcribe_error_message(e: TranscribeError) -> Seq<char> {
    match e {
        TranscribeError::ModelPath => "モデルパスが不正です"@,
        TranscribeError::ModelLoad(d) => "モデル読み込み失敗: "@ + d@,
        TranscribeError::StateInit(d) => "状態初期化失敗: "@ + d@,
        TranscribeError::Recognition(d) => "書き起こし処理に失敗: "@ + d@,
        TranscribeError::SegmentCount(d) => "セグメント数取得に失敗: "@ + d@,
        TranscribeError::SegmentText(d) => "セグメント取得に失敗: "@ + d@,
        TranscribeError::SegmentStart(d) => "開始時刻取得に失敗: "@ + d@,
        TranscribeError::SegmentEnd(d) => "終了時刻取得に失敗: "@ + d@,
    }
}


impl TranscribeError {
    /// The message shown to the user.
    pub fn message(&self) -> (r: String)
        ensures
            r@ == transcribe_error_message(*self),
    {
        match self {
            TranscribeError::ModelPath => String::from_str("モデルパスが不正です"),
            TranscribeError::ModelLoad(d) => prefixed("モデル読み込み失敗: ", d.as_str()),
            TranscribeError::StateInit(d) => prefixed("状態初期化失敗: ", d.as_str()),
            TranscribeError::Recognition(d) => prefixed("書き起こし処理に失敗: ", d.as_str()),
            TranscribeError::SegmentCount(d) => prefixed("セグメント数取得に失敗: ", d.as_str()),
            TranscribeError::SegmentText(d) => prefixed("セグメント取得に失敗: ", d.as_str()),
            TranscribeError::SegmentStart(d) => prefixed("開始時刻取得に失敗: ", d.as_str()),
            TranscribeError::SegmentEnd(d) => prefixed("終了時刻取得に失敗: ", d.as_str()),
        }
    }
}

/// The language handed to the recogniser: `None` (detect it) for `"auto"`,
/// the given code otherwise.
pub fn language_option(language: &str) -> (r: Option<&str>)
    ensures
        r == (if language@ == "auto"@ {
            None
        } else {
            Some(language)
        }),
{
    if str_eq(language, "auto") {
        None
    } else {
        Some(language)
    }
}

/// The number of recogniser threads: the available parallelism, 4 when it is
/// unknown, taken as an `i32` (wrapping as `as` does).
pub fn thread_count(available: Option<usize>) -> (r: i32)
    ensures
        r == (match available {
            Some(n) => n as i32,
            None => 4i32,
        }),
{
    match available {
        Some(n) => n as i32,
        None => 4,
    }
}

/// The transcript text is never empty when some segment holds more than white space,
/// and empty otherwise.
pub proof fn lemma_text_empty_iff_blank(raw: Seq<SegmentView>)
    ensures
        (transcript_text(raw).len() == 0) <==> (forall|i: int|
            0 <= i < raw.len() ==> #[trigger] trim_spec(raw[i].text).len() == 0),
    decreases raw.len(),
{
    if raw.len() > 0 {
        let prev = raw.drop_last();
        lemma_text_empty_iff_blank(prev);
        if transcript_text(raw).len() == 0 {
            assert forall|i: int| 0 <= i < raw.len() implies #[trigger] trim_spec(raw[i].text).len()
                == 0 by {
                if i < raw.len() - 1 {
                    assert(raw[i] == prev[i]);
                }
            }
        } else {
            if forall|i: int| 0 <= i < raw.len() ==> #[trigger] trim_spec(raw[i].text).len() == 0 {
                assert forall|i: int| 0 <= i < prev.len() implies #[trigger] trim_spec(
                    prev[i].text,
                ).len() == 0 by {
                    assert(raw[i] == prev[i]);
                }
                assert(trim_spec(raw[raw.len() - 1].text).len() == 0);
            }
        }
    }
}

/// The text of a transcript begins and ends with something other than white space.
pub proof fn lemma_text_edges(raw: Seq<SegmentView>)
    ensures
        transcript_text(raw).len() > 0 ==> !is_space(transcript_text(raw)[0]) && !is_space(
            transcript_text(raw).last(),
        ),
    decreases raw.len(),
{
    if raw.len() > 0 {
        let prev = transcript_text(raw.drop_last());
        let piece = trim_spec(raw.last().text);
        lemma_text_edges(raw.drop_last());
        lemma_trim_ends(raw.last().text);
        if piece.len() > 0 && prev.len() > 0 {
            let t = prev + seq!['\n'] + piece;
            assert(t[0] == prev[0]);
            assert(t.last() == piece.last());
        }
    }
}

/// The transcript text is what the recogniser's loop writes (each non-empty
/// trimmed segment text followed by a line break) with its trailing white space
/// trimmed.
pub proof fn lemma_text_is_trimmed_lines(raw: Seq<SegmentView>)
    ensures
        transcript_text(raw) == trim_end_spec(lines_with_breaks(raw)),
        lines_with_breaks(raw) == (if transcript_text(raw).len() == 0 {
            Seq::<char>::empty()
        } else {
            transcript_text(raw) + seq!['\n']
        }),
    decreases raw.len(),
{
    if raw.len() > 0 {
        let prev = transcript_text(raw.drop_last());
        let piece = trim_spec(raw.last().text);
        lemma_text_is_trimmed_lines(raw.drop_last());
        if piece.len() > 0 {
            if prev.len() == 0 {
                assert(lines_with_breaks(raw) =~= piece + seq!['\n']);
            } else {
                assert(lines_with_breaks(raw) =~= prev + seq!['\n'] + piece + seq!['\n']);
            }
        }
    }
    let t = transcript_text(raw);
    lemma_text_edges(raw);
    lemma_trim_end_noop(t);
    if t.len() > 0 {
        let l = t + seq!['\n'];
        assert(is_space(l.last()));
        assert(l.drop_last() =~= t);
    }
}

/// The transcript has one segment per segment received, in the same order;
/// each keeps its start and end, and its text is the received text with the
/// white space at both ends removed, whatever its length.
pub proof fn lemma_segment_is_trimmed_input(raw: Seq<SegmentView>, i: int)
    requires
        0 <= i < raw.len(),
    ensures
        transcript_segments(raw).len() == raw.len(),
        transcript_segments(raw)[i].start == raw[i].start,
        transcript_segments(raw)[i].end == raw[i].end,
        transcript_segments(raw)[i].text == trim_spec(raw[i].text),
        transcript_segments(raw)[i].text == trim_spec(transcript_segments(raw)[i].text),
{
    crate::text::lemma_trim_idempotent(raw[i].text);
}

} // verus!
