//! The voice stream.

use luma_core::frame::Frame;
use luma_core::opcodes::DeviceUpload;
use luma_core::voice::{
    EndCause, OpusBandwidth, OpusMode, OpusToc, REQUESTED_SAMPLE_RATE_HZ, VoiceEvent, VoiceStream,
};



#[test]
fn a_lost_start_loses_no_packet() {
    let payloads = [vec![0x48, 1], vec![0x4B], vec![]];
    let mut seen = VoiceStream::new();
    let mut lost = VoiceStream::new();
    assert_eq!(
        seen.handle(&Frame::new(DeviceUpload::VoiceUploadStart.code(), vec![0x01])),
        vec![VoiceEvent::Started]
    );
    let mut from_seen = Vec::new();
    let mut from_lost = Vec::new();
    for p in &payloads {
        from_seen.extend(seen.handle_upload(DeviceUpload::VoiceData.code(), p));
        from_lost.extend(lost.handle_upload(DeviceUpload::VoiceData.code(), p));
    }
    assert_eq!(from_lost[0], VoiceEvent::StartedRecovered);
    assert_eq!(from_lost[1..], from_seen[..]);
    for (i, (event, payload)) in from_seen.iter().zip(&payloads).enumerate() {
        let VoiceEvent::Packet(p) = event else {
            panic!("expected a packet, got {event:?}");
        };
        assert_eq!((p.index, &p.payload), (i as u64, payload));
    }
    assert_eq!(seen.packets_in_capture(), 3);
}

#[test]
fn a_capture_ends_once() {
    let mut s = VoiceStream::default();
    s.handle_upload(0x97, &[0x01]);
    assert!(s.is_capturing());
    assert_eq!(s.close(EndCause::IdleTimeout), vec![VoiceEvent::Ended(EndCause::IdleTimeout)]);
    assert_eq!(s.close(EndCause::Disconnected), vec![VoiceEvent::Ignored]);
    assert_eq!(s.handle_upload(0x53, &[0x01, 0x31]), vec![VoiceEvent::Ignored]);
    s.reset();
    assert_eq!(s, VoiceStream::new());
}

#[test]
fn a_packet_header_says_what_the_packet_holds() {
    let toc = OpusToc::parse(&[0x48]).unwrap();
    assert_eq!(toc.config, 9);
    assert_eq!(toc.mode(), OpusMode::Silk);
    assert_eq!(toc.bandwidth(), OpusBandwidth::Wide);
    assert_eq!(toc.bandwidth().nominal_rate_hz(), REQUESTED_SAMPLE_RATE_HZ);
    assert_eq!(toc.frame_duration_us(), 20_000);
    assert_eq!(toc.total_duration_us(), Some(20_000));
    assert_eq!(toc.channels(), 1);
    assert_eq!(OpusToc::parse(&[]), None);
    assert_eq!(OpusToc::parse(&[0x4B]), None, "the frame count is missing");
    let many = OpusToc::parse(&[0x4B, 0xC3]).unwrap();
    assert_eq!((many.frames, many.vbr, many.padding), (3, true, true));
    assert_eq!(many.total_duration_us(), Some(60_000));
}
