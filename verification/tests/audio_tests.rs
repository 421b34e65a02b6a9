use whisper_desktop::audio::{
    append_interleaved, require_samples, select_track, AudioError, DecodeEvent, DecodeSession, LoopAction,
    ReadEvent, TrackChoice, TrackInfo,
};

#[test]
fn first_track_with_a_codec_is_chosen() {
    let tracks = vec![
        TrackInfo { id: 3, codec_is_null: true, sample_rate: Some(8000) },
        TrackInfo { id: 5, codec_is_null: false, sample_rate: Some(44100) },
        TrackInfo { id: 7, codec_is_null: false, sample_rate: Some(48000) },
    ];
    let c = select_track(&tracks).ok().unwrap();
    assert_eq!(c.index, 1);
    assert_eq!(c.id, 5);
    assert_eq!(c.sample_rate, 44100);
}

#[test]
fn missing_sample_rate_defaults_to_target() {
    let tracks = vec![TrackInfo { id: 1, codec_is_null: false, sample_rate: None }];
    assert_eq!(select_track(&tracks).ok().unwrap().sample_rate, 16_000);
}

#[test]
fn no_track_with_a_codec_is_an_error() {
    let tracks = vec![TrackInfo { id: 1, codec_is_null: true, sample_rate: None }];
    let e = select_track(&tracks).err().unwrap();
    assert!(matches!(e, AudioError::NoAudioTrack));
    assert_eq!(e.message(), "音声トラックが見つかりません");
    assert!(select_track(&Vec::new()).is_err());
}

fn choice(id: u32, rate: u32) -> TrackChoice {
    TrackChoice { index: 0, id, sample_rate: rate }
}

#[test]
fn read_events_drive_the_loop() {
    let mut s: DecodeSession<i16> = DecodeSession::new(&choice(2, 8000));
    assert!(matches!(s.on_read(ReadEvent::Packet(9)), LoopAction::NextPacket));
    assert!(matches!(s.on_read(ReadEvent::EndOfStream), LoopAction::Finish));
    assert!(matches!(s.on_read(ReadEvent::ResetRequired), LoopAction::Finish));
    match s.on_read(ReadEvent::Failed("bad".to_string())) {
        LoopAction::Fail(e) => assert_eq!(e.message(), "読み込みエラー: bad"),
        _ => panic!("read failure must end decoding"),
    }
    assert!(matches!(s.on_read(ReadEvent::Packet(2)), LoopAction::Decode));
}

#[test]
fn decode_events_drive_the_loop_and_record_channels() {
    let mut s: DecodeSession<i16> = DecodeSession::new(&choice(0, 44100));
    assert_eq!(s.channel_count(), 1);
    assert!(matches!(s.on_read(ReadEvent::Packet(0)), LoopAction::Decode));
    assert!(matches!(
        s.on_decode(DecodeEvent::Decoded(vec![vec![1, 2], vec![3, 4]], 2)),
        LoopAction::NextPacket
    ));
    assert_eq!(s.channel_count(), 2);
    assert!(matches!(s.on_read(ReadEvent::Packet(0)), LoopAction::Decode));
    assert!(matches!(s.on_decode(DecodeEvent::Damaged), LoopAction::NextPacket));
    assert_eq!(s.channel_count(), 2);
    assert!(matches!(s.on_read(ReadEvent::Packet(0)), LoopAction::Decode));
    assert!(matches!(s.on_decode(DecodeEvent::EndOfStream), LoopAction::Finish));
    assert!(matches!(s.on_read(ReadEvent::Packet(0)), LoopAction::Decode));
    match s.on_decode(DecodeEvent::Failed("oops".to_string())) {
        LoopAction::Fail(e) => assert_eq!(e.message(), "デコードエラー: oops"),
        _ => panic!("decode failure must end decoding"),
    }
}

#[test]
fn a_run_gathers_the_decoded_buffers_of_its_track() {
    let mut s: DecodeSession<i16> = DecodeSession::new(&choice(1, 22050));
    // A packet of the track, in stereo.
    assert!(matches!(s.on_read(ReadEvent::Packet(1)), LoopAction::Decode));
    s.on_decode(DecodeEvent::Decoded(vec![vec![1, 2, 99], vec![10, 20, 99]], 2));
    // A packet of another track is skipped.
    assert!(matches!(s.on_read(ReadEvent::Packet(4)), LoopAction::NextPacket));
    // A damaged packet adds nothing.
    s.on_read(ReadEvent::Packet(1));
    s.on_decode(DecodeEvent::Damaged);
    // The next buffer is mono.
    s.on_read(ReadEvent::Packet(1));
    s.on_decode(DecodeEvent::Decoded(vec![vec![7, 8]], 2));
    assert!(matches!(s.on_read(ReadEvent::EndOfStream), LoopAction::Finish));
    let (samples, rate, channels) = s.finish();
    assert_eq!(samples, vec![1, 10, 2, 20, 7, 8]);
    assert_eq!(rate, 22050);
    assert_eq!(channels, 1);
}

#[test]
fn a_run_without_samples_is_empty() {
    let mut s: DecodeSession<i16> = DecodeSession::new(&choice(1, 16000));
    s.on_read(ReadEvent::Packet(3));
    s.on_read(ReadEvent::Packet(1));
    s.on_decode(DecodeEvent::Damaged);
    s.on_read(ReadEvent::EndOfStream);
    let (samples, rate, channels) = s.finish();
    assert!(samples.is_empty());
    assert_eq!(rate, 16000);
    assert_eq!(channels, 1);
    let e = require_samples(&samples).err().unwrap();
    assert!(matches!(e, AudioError::Empty));
    assert!(require_samples(&vec![0i16]).is_ok());
}

#[test]
fn interleaving_lays_frames_side_by_side() {
    let mut out = vec![9];
    let planes = vec![vec![1, 2, 3, 4], vec![10, 20, 30, 40]];
    append_interleaved(&mut out, &planes, 3);
    assert_eq!(out, vec![9, 1, 10, 2, 20, 3, 30]);
}

#[test]
fn interleaving_a_single_channel_copies_it() {
    let mut out: Vec<i16> = Vec::new();
    append_interleaved(&mut out, &vec![vec![5, 6, 7]], 3);
    assert_eq!(out, vec![5, 6, 7]);
    let mut none: Vec<i16> = Vec::new();
    append_interleaved(&mut none, &Vec::new(), 3);
    assert!(none.is_empty());
}

#[test]
fn audio_error_messages() {
    assert_eq!(
        AudioError::Empty.message(),
        "音声データが空でした。対応していないコーデックか、無音の可能性があります。"
    );
    assert_eq!(AudioError::Open("x".to_string()).message(), "ファイルを開けません: x");
    assert_eq!(
        AudioError::UnknownFormat("y".to_string()).message(),
        "フォーマットを判別できません: y"
    );
    assert_eq!(
        AudioError::DecoderInit("z".to_string()).message(),
        "デコーダを初期化できません: z"
    );
}
