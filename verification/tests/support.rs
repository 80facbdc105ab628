use mimir::audio::{
    decode_result, device_infos, packet_step, stream_layout, DecodeError, DecodeStep, PacketDecode,
    PacketRead, PlayerError, QueueView,
};
use mimir::telemetry::{
    civil_from_days, current_timestamp, format_log_line, format_timestamp, rotation_steps,
    should_rotate, size_after_write, RotationStep, MAX_BYTES,
};

#[test]
fn timestamps_are_utc_calendar_dates() {
    assert_eq!(format_timestamp(0), "1970-01-01 00:00:00");
    assert_eq!(format_timestamp(951_782_400), "2000-02-29 00:00:00");
    assert_eq!(format_timestamp(1_700_000_000), "2023-11-14 22:13:20");
    assert_eq!(format_timestamp(4_102_444_800), "2100-01-01 00:00:00");
    assert_eq!(format_timestamp(253_402_300_799), "9999-12-31 23:59:59");
    assert_eq!(format_timestamp(253_402_300_800), "10000-01-01 00:00:00");
    assert_eq!(civil_from_days(19_723), (2024, 1, 1));
    assert_eq!(civil_from_days(0), (1970, 1, 1));
    assert_eq!(civil_from_days(59), (1970, 3, 1));
}

#[test]
fn current_timestamp_has_the_fixed_layout() {
    let ts = current_timestamp();
    assert_eq!(ts.len(), 19);
    let b = ts.as_bytes();
    assert_eq!((b[4], b[7], b[10], b[13], b[16]), (b'-', b'-', b' ', b':', b':'));
    assert!(ts.as_str() >= "2024-01-01 00:00:00");
}

#[test]
fn log_lines_carry_level_and_target() {
    assert_eq!(
        format_log_line("2024-01-01 00:00:00", "INFO", "app", "hello world"),
        "[2024-01-01 00:00:00] [INFO] [app] hello world\n"
    );
}

#[test]
fn rotates_at_max_bytes() {
    let big = 6 * 1024 * 1024u64;
    assert!(should_rotate(0, big));
    assert_eq!(size_after_write(0, big), big);
    assert!(!should_rotate(MAX_BYTES - 10, 10));
    assert!(should_rotate(MAX_BYTES - 10, 11));
    assert_eq!(size_after_write(MAX_BYTES - 10, 11), 11);
    assert_eq!(size_after_write(100, 20), 120);
}

#[test]
fn rotation_shifts_generations() {
    assert_eq!(
        rotation_steps(),
        vec![
            RotationStep::Remove("mimir.log.3.old".into()),
            RotationStep::Rename { from: "mimir.log.2.old".into(), to: "mimir.log.3.old".into() },
            RotationStep::Rename { from: "mimir.log.1.old".into(), to: "mimir.log.2.old".into() },
            RotationStep::Rename { from: "mimir.log".into(), to: "mimir.log.1.old".into() },
        ]
    );
}

#[test]
fn decode_errors_and_layout() {
    assert_eq!(DecodeError::TooManyChannels(70000).message(), "too many channels: 70000");
    assert_eq!(DecodeError::NoTracks.message(), "no audio tracks");
    assert_eq!(DecodeError::Io("denied".into()).message(), "io: denied");
    assert_eq!(PlayerError::worker_gone().message(), "output: worker thread is gone");
    assert_eq!(stream_layout(None, None), Ok((44_100, 2)));
    assert_eq!(stream_layout(Some(48_000), Some(6)), Ok((48_000, 6)));
    assert_eq!(stream_layout(Some(48_000), Some(70_000)), Err(DecodeError::TooManyChannels(70_000)));
}

#[test]
fn demuxer_events_drive_the_loop() {
    assert_eq!(packet_step(PacketRead::Packet(1), 1), DecodeStep::Decode);
    assert_eq!(packet_step(PacketRead::Packet(2), 1), DecodeStep::Skip);
    assert_eq!(packet_step(PacketRead::End, 1), DecodeStep::Finish);
    assert_eq!(packet_step(PacketRead::UnexpectedEof, 1), DecodeStep::Finish);
    assert_eq!(packet_step(PacketRead::ResetRequired, 1), DecodeStep::Finish);
    assert_eq!(
        packet_step(PacketRead::Failed("boom".into()), 1),
        DecodeStep::Fail(DecodeError::Decode("boom".into()))
    );
    assert_eq!(decode_result(PacketDecode::Samples), Ok(true));
    assert_eq!(decode_result(PacketDecode::Recoverable), Ok(false));
    assert_eq!(decode_result(PacketDecode::Fatal("x".into())), Err(DecodeError::Decode("x".into())));
}

#[test]
fn output_devices_mark_the_default() {
    let infos = device_infos(vec!["hw:0".into(), "pulse".into()], Some("pulse".into()));
    assert_eq!(infos.len(), 2);
    assert!(!infos[0].is_default);
    assert!(infos[1].is_default);
    assert_eq!(infos[1].name, "pulse");
    assert!(device_infos(vec!["a".into()], None).iter().all(|d| !d.is_default));
}

#[test]
fn queue_view_drops_stray_playhead() {
    let v = QueueView::new(vec!["/a.mp3".into(), "/b.mp3".into()], Some(1));
    assert_eq!((v.len(), v.playhead), (2, Some(1)));
    let v = QueueView::new(vec!["/a.mp3".into()], Some(3));
    assert_eq!(v.playhead, None);
    assert_eq!(QueueView::default(), QueueView { tracks: vec![], playhead: None });
}
