//! Pipeline tests: capture-session lifecycle, staging views, the encoder
//! adapter's pooling and timestamps, and the pacing loop.

use screen_stream::capture::{CaptureSession, CaptureState};
use screen_stream::display::{device_name_units, DisplayInfo};
use screen_stream::encoder::{default_config, packet_bytes, EncoderAdapter, TICKS_PER_FRAME};
use screen_stream::pacing::{PacingLoop, ShutdownStep, StopReason};
use screen_stream::staging::{RawFrame, StagingView};
use screen_stream::Fault;

fn frame(t: i64) -> RawFrame {
    RawFrame { texture_handle: 7, system_relative_time: t, width: 4, height: 2 }
}

#[test]
fn capture_queue_holds_one_frame_and_drops_the_newest() {
    let mut s = CaptureSession::new();
    assert_eq!(s.current_state(), CaptureState::Idle);
    assert!(s.start_capture().is_ok());
    assert_eq!(s.current_state(), CaptureState::Capturing);

    assert!(s.offer_frame(frame(1)));
    assert!(!s.offer_frame(frame(2)));
    assert_eq!(s.dropped_frames(), 1);

    let got = s.next_frame().unwrap();
    assert_eq!(got.system_relative_time, 1);
    assert!(s.next_frame().is_none());
    assert!(s.offer_frame(frame(3)));
}

#[test]
fn capture_start_twice_is_a_capture_fault() {
    let mut s = CaptureSession::new();
    assert!(s.start_capture().is_ok());
    assert_eq!(s.start_capture().unwrap_err(), Fault::Capture);
}

#[test]
fn capture_close_is_terminal() {
    let mut s = CaptureSession::new();
    s.start_capture().unwrap();
    assert!(s.offer_frame(frame(1)));
    s.close();
    assert_eq!(s.current_state(), CaptureState::Closed);
    assert!(s.next_frame().is_none());
    assert!(!s.offer_frame(frame(2)));
    assert!(s.start_capture().is_err());
}

#[test]
fn staging_view_length_is_row_pitch_times_height() {
    let width: u32 = 3;
    let height: u32 = 2;
    let row_pitch: u32 = 16;
    let bytes = vec![0u8; (row_pitch * height) as usize];
    let v = StagingView::stage(width, height, row_pitch, bytes).unwrap();
    assert_eq!(v.len(), 32);
}

#[test]
fn staging_rejects_wrong_byte_count_or_short_pitch() {
    let bytes = vec![0u8; 31];
    match StagingView::stage(3, 2, 16, bytes) {
        Err(f) => assert_eq!(f, Fault::Readback),
        Ok(_) => panic!("a short map was accepted"),
    }
    let bytes = vec![0u8; 22];
    match StagingView::stage(3, 2, 11, bytes) {
        Err(f) => assert_eq!(f, Fault::Readback),
        Ok(_) => panic!("a narrow pitch was accepted"),
    }
}

#[test]
fn compact_rows_drops_row_padding() {
    let width: u32 = 2;
    let height: u32 = 2;
    let row_pitch: u32 = 10;
    let mut bytes = vec![0u8; 20];
    for (i, b) in bytes.iter_mut().enumerate() {
        *b = i as u8;
    }
    let v = StagingView::stage(width, height, row_pitch, bytes).unwrap();
    let tight = v.compact_rows();
    assert_eq!(tight, vec![0, 1, 2, 3, 4, 5, 6, 7, 10, 11, 12, 13, 14, 15, 16, 17]);
    v.release();
}

#[test]
fn encoder_timestamps_are_strictly_increasing() {
    let mut e = EncoderAdapter::new(4, 2);
    let data = vec![0x42u8; 32];
    let (_, p0) = e.submit_frame(&data);
    let (i1, p1) = e.submit_frame(&data);
    e.release_frame(i1);
    let (_, p2) = e.submit_frame(&data);
    assert_eq!(p0, 0);
    assert_eq!(p1, TICKS_PER_FRAME as i64);
    assert_eq!(p2, 2 * TICKS_PER_FRAME as i64);
    assert!(p0 < p1 && p1 < p2);
}

#[test]
fn pool_reuses_only_released_objects() {
    let mut e = EncoderAdapter::new(4, 2);
    let data = vec![1u8; 32];
    let (i0, _) = e.submit_frame(&data);
    assert_eq!(i0, 0);
    // Still held by the encoder: the next submission gets a fresh object.
    let (i1, _) = e.submit_frame(&data);
    assert_eq!(i1, 1);
    assert_eq!(e.pool_slots(), 2);
    assert!(!e.slot_free(0) && !e.slot_free(1));
    // Released: the next submission reuses it.
    e.release_frame(0);
    assert!(e.slot_free(0));
    let (i2, _) = e.submit_frame(&data);
    assert_eq!(i2, 0);
    assert!(!e.slot_free(0));
}

#[test]
fn submitted_plane_holds_the_raw_bytes() {
    let mut e = EncoderAdapter::new(2, 2);
    let mut data = vec![0u8; 16];
    for (i, b) in data.iter_mut().enumerate() {
        *b = (0x10 + i) as u8;
    }
    let (idx, _) = e.submit_frame(&data);
    assert_eq!(e.plane_copy(idx), data);
}

#[test]
fn packet_bytes_concatenates_in_drain_order() {
    let packets = vec![vec![1u8, 2], vec![], vec![3u8, 4, 5]];
    assert_eq!(packet_bytes(&packets), vec![1, 2, 3, 4, 5]);
    let none: Vec<Vec<u8>> = Vec::new();
    assert_eq!(packet_bytes(&none), Vec::<u8>::new());
}

#[test]
fn three_synthetic_frames_yield_three_stamped_submissions() {
    let width: u32 = 1920;
    let height: u32 = 1080;
    let mut e = EncoderAdapter::new(width, height);
    let frame_size = (width * height * 4) as usize;
    let mut stream: Vec<u8> = Vec::new();
    let mut stamps: Vec<i64> = Vec::new();
    for color in [0x10u8, 0x20, 0x30] {
        let data = vec![color; frame_size];
        let (idx, pts) = e.submit_frame(&data);
        stamps.push(pts);
        assert_eq!(e.plane_copy(idx)[0], color);
        // The hardware encoder drains zero or more packets per submission;
        // one synthetic packet per frame stands in for its output here.
        let drained = vec![vec![color; 8]];
        let mut chunk = packet_bytes(&drained);
        stream.append(&mut chunk);
        e.release_frame(idx);
    }
    assert_eq!(stamps, vec![0, 3000, 6000]);
    assert!(!stream.is_empty());
    assert_eq!(stream.len(), 24);
}

#[test]
fn encoder_config_carries_the_tuning_table() {
    let c = default_config(1920, 1080);
    assert_eq!(c.codec, "h264_nvenc");
    assert_eq!(c.pixel_format, "bgr0");
    assert_eq!(c.width, 1920);
    assert_eq!(c.height, 1080);
    assert_eq!(c.time_base_num, 1);
    assert_eq!(c.time_base_den, 90000);
    let opts: Vec<(String, String)> = c.options;
    assert_eq!(opts.len(), 5);
    assert_eq!(opts[0], ("profile".to_string(), "baseline".to_string()));
    assert_eq!(opts[1], ("preset".to_string(), "p7".to_string()));
    assert_eq!(opts[2], ("tune".to_string(), "ll".to_string()));
    assert_eq!(opts[3], ("zerolatency".to_string(), "true".to_string()));
    assert_eq!(opts[4], ("forced-idr".to_string(), "true".to_string()));
}

#[test]
fn sink_error_on_fifth_call_stops_after_four_packets() {
    let mut p = PacingLoop::new(300);
    for call in 1..=5u64 {
        assert!(p.running());
        let ok = call != 5;
        p.on_sink_result(ok);
    }
    assert_eq!(p.forwarded_packets(), 4);
    assert!(!p.running());
    assert_eq!(p.stop_reason().unwrap(), StopReason::Failed(Fault::Sink));
    let steps = p.shutdown_steps();
    assert_eq!(steps, vec![ShutdownStep::CloseCapture, ShutdownStep::FlushSink]);
}

#[test]
fn pacing_stops_at_the_frame_limit() {
    let mut p = PacingLoop::new(3);
    p.on_sink_result(true);
    p.on_sink_result(true);
    assert!(p.running());
    p.on_sink_result(true);
    assert!(!p.running());
    assert_eq!(p.forwarded_packets(), 3);
    assert_eq!(p.processed_frames(), 3);
    assert_eq!(p.stop_reason().unwrap(), StopReason::LimitReached);
}

#[test]
fn pacing_stops_when_the_source_ends() {
    let mut p = PacingLoop::new(300);
    p.on_sink_result(true);
    p.on_source_ended();
    assert_eq!(p.stop_reason().unwrap(), StopReason::SourceEnded);
    assert_eq!(p.forwarded_packets(), 1);
}

#[test]
fn pacing_stops_on_stage_fault() {
    let mut p = PacingLoop::new(300);
    p.on_fault(Fault::Encode);
    assert_eq!(p.stop_reason().unwrap(), StopReason::Failed(Fault::Encode));
    assert_eq!(p.shutdown_steps().len(), 2);
}

#[test]
fn display_resolution_from_monitor_rect() {
    let d = DisplayInfo::new(11, "DISPLAY1".to_string(), -1920, 0, 0, 1080);
    assert_eq!(d.handle, 11);
    assert_eq!(d.display_name, "DISPLAY1");
    assert_eq!(d.resolution, (1920, 1080));
}

#[test]
fn device_name_trimmed_at_first_nul() {
    let raw: Vec<u16> = vec![68, 73, 83, 80, 0, 0, 0, 0];
    let trimmed = device_name_units(&raw);
    assert_eq!(trimmed, vec![68, 73, 83, 80]);
    assert_eq!(String::from_utf16(&trimmed).unwrap(), "DISP");
    let all: Vec<u16> = vec![65, 66];
    assert_eq!(device_name_units(&all), vec![65, 66]);
}
