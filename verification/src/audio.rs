//! The decisions of the audio decoding loop: which track is decoded, what
//! each packet read or decoded leads to, how decoded channels are laid out,
//! and the messages of decoding failures.
use vstd::prelude::*;
use crate::text::prefixed;

verus! {

/// The sampling rate the recogniser expects, in Hz.
pub const TARGET_SAMPLE_RATE: u32 = 16_000;

/// Why decoding a file failed, with the detail the failing step reported.
pub enum AudioError {
    Open(String),
    UnknownFormat(String),
    NoAudioTrack,
    DecoderInit(String),
    Read(String),
    Decode(String),
    Empty,
}

/// The message shown for an audio error.
pub open spec fn audio_error_message(e: AudioError) -> Seq<char> {
    match e {
        AudioError::Open(d) => "ファイルを開けません: "@ + d@,
        AudioError::UnknownFormat(d) => "フォーマットを判別できません: "@ + d@,
        AudioError::NoAudioTrack => "音声トラックが見つかりません"@,
        AudioError::DecoderInit(d) => "デコーダを初期化できません: "@ + d@,
        AudioError::Read(d) => "読み込みエラー: "@ + d@,
        AudioError::Decode(d) => "デコードエラー: "@ + d@,
        AudioError::Empty => "音声データが空でした。対応していないコーデックか、無音の可能性があります。"@,
    }
}


impl AudioError {
    /// The message shown to the user.
    pub fn message(&self) -> (r: String)
        ensures
            r@ == audio_error_message(*self),
    {
        match self {
            AudioError::Open(d) => prefixed("ファイルを開けません: ", d.as_str()),
            AudioError::UnknownFormat(d) => prefixed("フォーマットを判別できません: ", d.as_str()),
            AudioError::NoAudioTrack => String::from_str("音声トラックが見つかりません"),
            AudioError::DecoderInit(d) => prefixed("デコーダを初期化できません: ", d.as_str()),
            AudioError::Read(d) => prefixed("読み込みエラー: ", d.as_str()),
            AudioError::Decode(d) => prefixed("デコードエラー: ", d.as_str()),
            AudioError::Empty => String::from_str(
                "音声データが空でした。対応していないコーデックか、無音の可能性があります。",
            ),
        }
    }
}

/// What the decoder needs to know of a track of the container.
pub struct TrackInfo {
    pub id: u32,
    /// Whether the track declares no codec at all.
    pub codec_is_null: bool,
    pub sample_rate: Option<u32>,
}

/// The track chosen for decoding.
pub struct TrackChoice {
    /// Its position among the container's tracks.
    pub index: usize,
    pub id: u32,
    /// Its sampling rate, the target rate when the container does not give one.
    pub sample_rate: u32,
}

/// Chooses the first track that declares a codec, and its sampling rate (the
/// target rate when none is given); `NoAudioTrack` when every track lacks a codec.
pub fn select_track(tracks: &Vec<TrackInfo>) -> (r: Result<TrackChoice, AudioError>)
    ensures
        match r {
            Ok(c) => {
                &&& c.index < tracks.len()
                &&& !tracks[c.index as int].codec_is_null
                &&& forall|j: int| 0 <= j < c.index ==> #[trigger] tracks[j].codec_is_null
                &&& c.id == tracks[c.index as int].id
                &&& c.sample_rate == match tracks[c.index as int].sample_rate {
                    Some(rate) => rate,
                    None => TARGET_SAMPLE_RATE,
                }
            },
            Err(e) => {
                &&& e is NoAudioTrack
                &&& forall|j: int| 0 <= j < tracks.len() ==> #[trigger] tracks[j].codec_is_null
            },
        },
{
    let mut i: usize = 0;
    while i < tracks.len()
        invariant
            i <= tracks.len(),
            forall|j: int| 0 <= j < i ==> #[trigger] tracks[j].codec_is_null,
        decreases tracks.len() - i,
    {
        if !tracks[i].codec_is_null {
            let sample_rate = match tracks[i].sample_rate {
                Some(rate) => rate,
                None => TARGET_SAMPLE_RATE,
            };
            return Ok(TrackChoice { index: i, id: tracks[i].id, sample_rate });
        }
        i = i + 1;
    }
    Err(AudioError::NoAudioTrack)
}

/// What reading the next packet gave.
pub enum ReadEvent {
    /// A packet of the track with this id.
    Packet(u32),
    /// The stream ended (an I/O error of the reader).
    EndOfStream,
    /// The reader asks to be reset, which ends decoding.
    ResetRequired,
    /// Any other read failure, with its detail.
    Failed(String),
}

/// What decoding a packet gave.
pub enum DecodeEvent<T> {
    /// A buffer of samples: one vector per channel, and the number of frames
    /// it holds.
    Decoded(Vec<Vec<T>>, usize),
    /// A damaged packet that can be skipped.
    Damaged,
    /// The stream ended (an I/O error of the decoder).
    EndOfStream,
    /// Any other decoding failure, with its detail.
    Failed(String),
}

/// What decoding a packet gave, as a mathematical value.
pub enum DecodeOutcome<T> {
    Decoded(Seq<Seq<T>>, nat),
    Damaged,
    EndOfStream,
    Failed,
}

/// The view of a decoding event.
pub open spec fn decode_outcome<T>(e: DecodeEvent<T>) -> DecodeOutcome<T> {
    match e {
        DecodeEvent::Decoded(planes, frames) => DecodeOutcome::Decoded(
            plane_views(planes@),
            frames as nat,
        ),
        DecodeEvent::Damaged => DecodeOutcome::Damaged,
        DecodeEvent::EndOfStream => DecodeOutcome::EndOfStream,
        DecodeEvent::Failed(_) => DecodeOutcome::Failed,
    }
}

/// A packet that the decoding loop read: the track it belongs to and, when it
/// was handed to the decoder, what decoding it gave.
pub struct PacketRecord<T> {
    pub track: u32,
    pub outcome: Option<DecodeOutcome<T>>,
}

/// The samples gathered from `packets`: the interleaved buffers of the
/// packets of `track` that decoded, in the order the packets were read.
/// Packets of other tracks and damaged packets add nothing.
pub open spec fn gathered<T>(track: u32, packets: Seq<PacketRecord<T>>) -> Seq<T>
    decreases packets.len(),
{
    if packets.len() == 0 {
        Seq::empty()
    } else {
        let prev = gathered(track, packets.drop_last());
        let p = packets.last();
        match p.outcome {
            Some(DecodeOutcome::Decoded(planes, frames)) => if p.track == track {
                prev + interleaved(planes, frames)
            } else {
                prev
            },
            _ => prev,
        }
    }
}

/// The channel count of the last decoded buffer among `packets`, 0 when none decoded.
pub open spec fn last_channels<T>(packets: Seq<PacketRecord<T>>) -> nat
    decreases packets.len(),
{
    if packets.len() == 0 {
        0
    } else {
        match packets.last().outcome {
            Some(DecodeOutcome::Decoded(planes, _)) => planes.len(),
            _ => last_channels(packets.drop_last()),
        }
    }
}

/// The channel count reported for a run: that of the last decoded buffer, and at least 1.
pub open spec fn reported_channels<T>(packets: Seq<PacketRecord<T>>) -> nat {
    if last_channels(packets) >= 1 {
        last_channels(packets)
    } else {
        1
    }
}

/// What the decoding loop does next.
pub enum LoopAction {
    /// Decode the packet just read.
    Decode,
    /// Go on with the next packet.
    NextPacket,
    /// Stop: every sample has been decoded.
    Finish,
    /// Stop with this error.
    Fail(AudioError),
}

/// One decoding run over the chosen track: its decisions, and the samples it
/// has gathered so far.
pub struct DecodeSession<T> {
    track_id: u32,
    sample_rate: u32,
    channels: usize,
    samples: Vec<T>,
    pending: bool,
    packets: Ghost<Seq<PacketRecord<T>>>,
}

impl<T: Copy> DecodeSession<T> {
    /// The id of the track being decoded.
    pub closed spec fn track(&self) -> u32 {
        self.track_id
    }

    /// The sampling rate of the track being decoded.
    pub closed spec fn sample_rate(&self) -> u32 {
        self.sample_rate
    }

    /// The packets read so far, in order.
    pub closed spec fn packets(&self) -> Seq<PacketRecord<T>> {
        self.packets@
    }

    /// Whether a packet of the track was read and awaits decoding.
    pub closed spec fn awaiting_decode(&self) -> bool {
        self.pending
    }

    /// The samples and channel count held agree with the packets read.
    pub closed spec fn wf(&self) -> bool {
        &&& self.samples@ == gathered(self.track_id, self.packets@)
        &&& self.channels == last_channels(self.packets@)
    }

    /// A run over the chosen track that has read nothing yet.
    pub fn new(choice: &TrackChoice) -> (s: DecodeSession<T>)
        ensures
            s.wf(),
            s.track() == choice.id,
            s.sample_rate() == choice.sample_rate,
            s.packets() == Seq::<PacketRecord<T>>::empty(),
            !s.awaiting_decode(),
    {
        DecodeSession {
            track_id: choice.id,
            sample_rate: choice.sample_rate,
            channels: 0,
            samples: Vec::new(),
            pending: false,
            packets: Ghost(Seq::empty()),
        }
    }

    /// What follows a read: packets of the session's track are decoded, those
    /// of other tracks skipped; the end of the stream or a reset request ends
    /// decoding; any other failure ends it with a read error.
    pub fn on_read(&mut self, event: ReadEvent) -> (a: LoopAction)
        requires
            old(self).wf(),
            !old(self).awaiting_decode(),
        ensures
            final(self).wf(),
            final(self).track() == old(self).track(),
            final(self).sample_rate() == old(self).sample_rate(),
            reported_channels(final(self).packets()) == reported_channels(old(self).packets()),
            gathered(final(self).track(), final(self).packets()) == gathered(
                old(self).track(),
                old(self).packets(),
            ),
            match event {
                ReadEvent::Packet(t) => if t == old(self).track() {
                    &&& a is Decode
                    &&& final(self).awaiting_decode()
                    &&& final(self).packets() == old(self).packets()
                } else {
                    &&& a is NextPacket
                    &&& !final(self).awaiting_decode()
                    &&& final(self).packets() == old(self).packets().push(
                        PacketRecord { track: t, outcome: None },
                    )
                },
                ReadEvent::EndOfStream => a is Finish && !final(self).awaiting_decode()
                    && final(self).packets() == old(self).packets(),
                ReadEvent::ResetRequired => a is Finish && !final(self).awaiting_decode()
                    && final(self).packets() == old(self).packets(),
                ReadEvent::Failed(d) => (a matches LoopAction::Fail(AudioError::Read(m)) && m@
                    == d@) && !final(self).awaiting_decode() && final(self).packets() == old(
                    self,
                ).packets(),
            },
    {
        match event {
            ReadEvent::Packet(t) => if t == self.track_id {
                self.pending = true;
                LoopAction::Decode
            } else {
                let ghost old_packets = self.packets@;
                let ghost rec = PacketRecord::<T> { track: t, outcome: None };
                self.packets = Ghost(old_packets.push(rec));
                proof {
                    assert(self.packets@.drop_last() =~= old_packets);
                    lemma_skipped_packet_keeps_run(self.track_id, old_packets, t);
                }
                LoopAction::NextPacket
            },
            ReadEvent::EndOfStream => LoopAction::Finish,
            ReadEvent::ResetRequired => LoopAction::Finish,
            ReadEvent::Failed(d) => LoopAction::Fail(AudioError::Read(d)),
        }
    }

    /// What follows decoding the packet read last: the samples of a decoded
    /// buffer are gathered (interleaved) and its channel count recorded, and
    /// the loop goes on, as it does after a damaged packet; the end of the
    /// stream ends decoding; any other failure ends it with a decode error.
    pub fn on_decode(&mut self, event: DecodeEvent<T>) -> (a: LoopAction)
        requires
            old(self).wf(),
            old(self).awaiting_decode(),
            event matches DecodeEvent::Decoded(planes, frames) ==> forall|c: int|
                0 <= c < planes.len() ==> frames <= #[trigger] planes[c].len(),
        ensures
            final(self).wf(),
            !final(self).awaiting_decode(),
            final(self).track() == old(self).track(),
            final(self).sample_rate() == old(self).sample_rate(),
            final(self).packets() == old(self).packets().push(
                PacketRecord { track: old(self).track(), outcome: Some(decode_outcome(event)) },
            ),
            match event {
                DecodeEvent::Decoded(_, _) => a is NextPacket,
                DecodeEvent::Damaged => a is NextPacket,
                DecodeEvent::EndOfStream => a is Finish,
                DecodeEvent::Failed(d) => a matches LoopAction::Fail(AudioError::Decode(m)) && m@
                    == d@,
            },
    {
        let ghost old_packets = self.packets@;
        let ghost rec = PacketRecord { track: self.track_id, outcome: Some(decode_outcome(event)) };
        let ghost new_packets = old_packets.push(rec);
        self.pending = false;
        proof {
            assert(new_packets.drop_last() =~= old_packets);
        }
        match event {
            DecodeEvent::Decoded(planes, frames) => {
                append_interleaved(&mut self.samples, &planes, frames);
                self.channels = planes.len();
                self.packets = Ghost(new_packets);
                LoopAction::NextPacket
            },
            DecodeEvent::Damaged => {
                self.packets = Ghost(new_packets);
                LoopAction::NextPacket
            },
            DecodeEvent::EndOfStream => {
                self.packets = Ghost(new_packets);
                LoopAction::Finish
            },
            DecodeEvent::Failed(d) => {
                self.packets = Ghost(new_packets);
                LoopAction::Fail(AudioError::Decode(d))
            },
        }
    }

    /// The channel count reported for the samples gathered so far: that of the
    /// last decoded buffer, and at least 1.
    pub fn channel_count(&self) -> (r: usize)
        requires
            self.wf(),
        ensures
            r == reported_channels(self.packets()),
    {
        if self.channels >= 1 {
            self.channels
        } else {
            1
        }
    }

    /// The result of the run: the gathered samples, the track's sampling rate
    /// and the reported channel count.
    pub fn finish(self) -> (r: (Vec<T>, u32, usize))
        requires
            self.wf(),
        ensures
            r.0@ == gathered(self.track(), self.packets()),
            r.1 == self.sample_rate(),
            r.2 == reported_channels(self.packets()),
            r.2 >= 1,
    {
        let ch = self.channel_count();
        (self.samples, self.sample_rate, ch)
    }
}

/// Accepts decoded samples only when there is at least one; `Empty` otherwise.
pub fn require_samples<T>(samples: &Vec<T>) -> (r: Result<(), AudioError>)
    ensures
        samples.len() == 0 <==> r is Err,
        r matches Err(e) ==> e is Empty,
{
    if samples.len() == 0 {
        Err(AudioError::Empty)
    } else {
        Ok(())
    }
}

/// Packets of other tracks, damaged packets and packets whose decoding ended
/// the run add no sample; a decoded packet of the track adds its buffer,
/// interleaved, after the samples gathered before it.
pub proof fn lemma_gathered_step<T>(track: u32, packets: Seq<PacketRecord<T>>, p: PacketRecord<T>)
    ensures
        gathered(track, packets.push(p)) == (match p.outcome {
            Some(DecodeOutcome::Decoded(planes, frames)) => if p.track == track {
                gathered(track, packets) + interleaved(planes, frames)
            } else {
                gathered(track, packets)
            },
            _ => gathered(track, packets),
        }),
{
    assert(packets.push(p).drop_last() =~= packets);
}

/// Reading a packet that is not decoded (one of another track) changes neither
/// the reported channel count nor the gathered samples: the count stays that of
/// the last buffer decoded before it.
pub proof fn lemma_skipped_packet_keeps_run<T>(track: u32, packets: Seq<PacketRecord<T>>, t: u32)
    ensures
        last_channels(packets.push(PacketRecord { track: t, outcome: None })) == last_channels(
            packets,
        ),
        reported_channels(packets.push(PacketRecord { track: t, outcome: None }))
            == reported_channels(packets),
        gathered(track, packets.push(PacketRecord { track: t, outcome: None })) == gathered(
            track,
            packets,
        ),
{
    assert(packets.push(PacketRecord { track: t, outcome: None }).drop_last() =~= packets);
}

/// A decoded buffer sets the reported channel count to its number of planes
/// (at least 1), and a packet that decoded to nothing (damaged, end of stream,
/// failure) leaves the count as it was.
pub proof fn lemma_decoded_packet_sets_channels<T>(packets: Seq<PacketRecord<T>>, p: PacketRecord<T>)
    ensures
        p.outcome matches Some(DecodeOutcome::Decoded(planes, _)) ==> last_channels(
            packets.push(p),
        ) == planes.len() && reported_channels(packets.push(p)) == (if planes.len() >= 1 {
            planes.len()
        } else {
            1
        }),
        !(p.outcome matches Some(DecodeOutcome::Decoded(_, _))) ==> last_channels(packets.push(p))
            == last_channels(packets),
{
    assert(packets.push(p).drop_last() =~= packets);
}

/// The reported channel count is the plane count of the last decoded buffer of
/// the run (at least 1), whatever packets were read after it; 1 when nothing decoded.
pub proof fn lemma_channels_of_last_decoded<T>(packets: Seq<PacketRecord<T>>, k: int)
    requires
        0 <= k < packets.len(),
        packets[k].outcome matches Some(DecodeOutcome::Decoded(_, _)),
        forall|m: int|
            k < m < packets.len() ==> !(#[trigger] packets[m].outcome matches Some(
                DecodeOutcome::Decoded(_, _),
            )),
    ensures
        packets[k].outcome matches Some(DecodeOutcome::Decoded(planes, _)) && last_channels(
            packets,
        ) == planes.len() && reported_channels(packets) == (if planes.len() >= 1 {
            planes.len()
        } else {
            1
        }),
    decreases packets.len(),
{
    if k < packets.len() - 1 {
        let prev = packets.drop_last();
        assert forall|m: int| k < m < prev.len() implies !(#[trigger] prev[m].outcome matches Some(
            DecodeOutcome::Decoded(_, _),
        )) by {
            assert(prev[m] == packets[m]);
        }
        assert(prev[k] == packets[k]);
        lemma_channels_of_last_decoded(prev, k);
        assert(!(packets[packets.len() - 1].outcome matches Some(DecodeOutcome::Decoded(_, _))));
    }
}

/// A run in which no packet decoded reports one channel and no sample.
pub proof fn lemma_nothing_decoded<T>(track: u32, packets: Seq<PacketRecord<T>>)
    requires
        forall|m: int|
            0 <= m < packets.len() ==> !(#[trigger] packets[m].outcome matches Some(
                DecodeOutcome::Decoded(_, _),
            )),
    ensures
        last_channels(packets) == 0,
        reported_channels(packets) == 1,
        gathered(track, packets).len() == 0,
    decreases packets.len(),
{
    if packets.len() > 0 {
        let prev = packets.drop_last();
        assert forall|m: int| 0 <= m < prev.len() implies !(#[trigger] prev[m].outcome matches Some(
            DecodeOutcome::Decoded(_, _),
        )) by {
            assert(prev[m] == packets[m]);
        }
        lemma_nothing_decoded(track, prev);
        assert(!(packets[packets.len() - 1].outcome matches Some(DecodeOutcome::Decoded(_, _))));
    }
}

/// The samples of frame `f`, one per channel, in channel order.
pub open spec fn frame_samples<T>(planes: Seq<Seq<T>>, f: int) -> Seq<T> {
    Seq::new(planes.len(), |c: int| planes[c][f])
}

/// The first `frames` frames of `planes` laid out frame after frame, the
/// channels of a frame side by side.
pub open spec fn interleaved<T>(planes: Seq<Seq<T>>, frames: nat) -> Seq<T>
    decreases frames,
{
    if frames == 0 {
        Seq::empty()
    } else {
        interleaved(planes, (frames - 1) as nat) + frame_samples(planes, frames - 1)
    }
}

/// The per-channel sample vectors as sequences.
pub open spec fn plane_views<T>(planes: Seq<Vec<T>>) -> Seq<Seq<T>> {
    planes.map_values(|p: Vec<T>| p@)
}

/// Appends the first `frames` frames of the per-channel buffers `planes` to
/// `out`, interleaved (frame after frame, channel after channel).
pub fn append_interleaved<T: Copy>(out: &mut Vec<T>, planes: &Vec<Vec<T>>, frames: usize)
    requires
        forall|c: int| 0 <= c < planes.len() ==> frames <= #[trigger] planes[c].len(),
    ensures
        final(out)@ == old(out)@ + interleaved(plane_views(planes@), frames as nat),
{
    let ghost p = plane_views(planes@);
    let ghost start = out@;
    let channels = planes.len();
    let mut f: usize = 0;
    while f < frames
        invariant
            p == plane_views(planes@),
            channels == planes.len(),
            forall|c: int| 0 <= c < planes.len() ==> frames <= #[trigger] planes[c].len(),
            f <= frames,
            out@ == start + interleaved(p, f as nat),
        decreases frames - f,
    {
        let mut c: usize = 0;
        while c < channels
            invariant
                p == plane_views(planes@),
                channels == planes.len(),
                forall|k: int| 0 <= k < planes.len() ==> frames <= #[trigger] planes[k].len(),
                f < frames,
                c <= channels,
                out@ == start + interleaved(p, f as nat) + frame_samples(p, f as int).take(
                    c as int,
                ),
            decreases channels - c,
        {
            assert(frames <= planes[c as int].len());
            let s = planes[c][f];
            proof {
                assert(p[c as int] == planes[c as int]@);
            }
            out.push(s);
            proof {
                assert(frame_samples(p, f as int).take(c + 1) =~= frame_samples(p, f as int).take(
                    c as int,
                ).push(s));
            }
            c = c + 1;
        }
        proof {
            assert(frame_samples(p, f as int).take(channels as int) =~= frame_samples(p, f as int));
            assert(interleaved(p, (f + 1) as nat) == interleaved(p, f as nat) + frame_samples(
                p,
                f as int,
            ));
        }
        f = f + 1;
    }
}

/// Interleaving keeps every sample: there are `frames * channels` of them, and
/// sample `c` of frame `f` stands at position `f * channels + c`.
pub proof fn lemma_interleaved_position<T>(planes: Seq<Seq<T>>, frames: nat, f: int, c: int)
    requires
        0 <= f < frames,
        0 <= c < planes.len(),
    ensures
        interleaved(planes, frames).len() == frames * planes.len(),
        interleaved(planes, frames)[f * planes.len() + c] == planes[c][f],
    decreases frames,
{
    let n = planes.len();
    lemma_interleaved_len(planes, frames);
    lemma_interleaved_len(planes, (frames - 1) as nat);
    let prev = interleaved(planes, (frames - 1) as nat);
    assert((frames - 1) * n + n == frames * n) by (nonlinear_arith);
    if f < frames - 1 {
        lemma_interleaved_position(planes, (frames - 1) as nat, f, c);
        assert(f * n + c < (frames - 1) * n) by (nonlinear_arith)
            requires
                f < frames - 1,
                0 <= c < n,
        ;
    } else {
        assert(f * n == (frames - 1) * n);
    }
}

/// Interleaving `frames` frames gives `frames * channels` samples.
pub proof fn lemma_interleaved_len<T>(planes: Seq<Seq<T>>, frames: nat)
    ensures
        interleaved(planes, frames).len() == frames * planes.len(),
    decreases frames,
{
    if frames > 0 {
        let n = planes.len() as int;
        let m = frames - 1;
        lemma_interleaved_len(planes, m as nat);
        assert(frame_samples(planes, m).len() == n);
        assert(interleaved(planes, frames).len() == interleaved(planes, m as nat).len() + n);
        let k = frames as int;
        assert(m * n + n == k * n) by (nonlinear_arith)
            requires
                m == k - 1,
        ;
    } else {
        assert(frames * planes.len() == 0) by (nonlinear_arith)
            requires
                frames == 0,
        ;
    }
}

} // verus!
