use mediathumb::convert::{thumbnail, thumbnail_of, THUMB_SIZE};
use mediathumb::driver::{Clip, Collector, Driver, Flow, Still};
use mediathumb::frame::{image, parse, RawFrame};
use mediathumb::pixel::PixelBuffer;
use mediathumb::video::{Action, MediaError, MediaKind, Phase, Pipeline, Video};

fn solid(width: u32, height: u32, value: u8) -> PixelBuffer {
    let len = (width * height * 3) as usize;
    PixelBuffer::from_raw(width, height, vec![value; len]).unwrap()
}

fn gradient(width: u32, height: u32) -> PixelBuffer {
    let mut data = Vec::new();
    for y in 0..height {
        for x in 0..width {
            data.push((x % 256) as u8);
            data.push((y % 256) as u8);
            data.push(((x + y) % 256) as u8);
        }
    }
    PixelBuffer::from_raw(width, height, data).unwrap()
}

fn raw(width: u32, height: u32, stride: usize, len: usize) -> RawFrame {
    RawFrame { data: (0..len).map(|i| i as u8).collect(), stride, width, height }
}

#[test]
fn from_raw_checks_length() {
    assert!(PixelBuffer::from_raw(2, 2, vec![0; 12]).is_some());
    assert!(PixelBuffer::from_raw(2, 2, vec![0; 11]).is_none());
    assert!(PixelBuffer::from_raw(2, 2, vec![0; 13]).is_none());
    assert!(PixelBuffer::from_raw(0, 5, vec![]).is_some());
}

#[test]
fn parse_drops_stride_padding() {
    let frame = raw(2, 3, 8, 24);
    let buf = parse(&frame).unwrap();
    assert_eq!(buf.len(), 2 * 3 * 3);
    assert_eq!(buf, vec![0, 1, 2, 3, 4, 5, 8, 9, 10, 11, 12, 13, 16, 17, 18, 19, 20, 21]);
}

#[test]
fn parse_last_row_without_padding() {
    // the last row may end right after its visible bytes
    let frame = raw(2, 2, 8, 14);
    assert_eq!(parse(&frame).unwrap(), vec![0, 1, 2, 3, 4, 5, 8, 9, 10, 11, 12, 13]);
}

#[test]
fn parse_truncated_frame_fails() {
    let frame = raw(2, 2, 8, 13);
    assert!(parse(&frame).is_none());
    assert!(image(&frame).is_none());
}

#[test]
fn parse_tight_frame_is_copied_whole() {
    let frame = raw(1, 2, 3, 6);
    assert_eq!(parse(&frame).unwrap(), vec![0, 1, 2, 3, 4, 5]);
}

#[test]
fn parse_empty_frame() {
    assert_eq!(parse(&raw(4, 0, 16, 0)).unwrap(), Vec::<u8>::new());
    assert_eq!(parse(&raw(0, 3, 0, 0)).unwrap(), Vec::<u8>::new());
}

#[test]
fn image_has_frame_size() {
    let b = image(&raw(3, 2, 12, 24)).unwrap();
    assert_eq!(b.width(), 3);
    assert_eq!(b.height(), 2);
    assert_eq!(b.data().len(), 3 * 2 * 3);
    assert_eq!(b.data()[9..], [12, 13, 14, 15, 16, 17, 18, 19, 20]);
}

fn clip(n: u8) -> Clip {
    Clip::new((0..n).map(|i| solid(1, 1, i)).collect())
}

fn first_byte(b: &Option<PixelBuffer>) -> u8 {
    b.as_ref().unwrap().data()[0]
}

#[test]
fn frame_zero_and_one_are_the_first() {
    let mut c = clip(5);
    assert_eq!(first_byte(&c.frame(0)), 0);
    assert_eq!(first_byte(&c.frame(1)), 0);
    assert_eq!(first_byte(&c.frame(2)), 1);
    assert_eq!(first_byte(&c.frame(5)), 4);
}

#[test]
fn frame_past_the_end_is_the_last() {
    let mut c = clip(5);
    assert_eq!(first_byte(&c.frame(6)), 4);
    assert_eq!(first_byte(&c.frame(1000)), 4);
    assert_eq!(first_byte(&c.frame(usize::MAX)), 4);
}

#[test]
fn frame_of_empty_clip_is_none() {
    let mut c = clip(0);
    assert!(c.frame(1).is_none());
    assert!(c.img().is_none());
}

#[test]
fn still_gives_its_image_for_every_number() {
    let mut s = Still::new(gradient(3, 2));
    let want = gradient(3, 2);
    for idx in [0usize, 1, 2, 7, usize::MAX] {
        let got = s.frame(idx).unwrap();
        assert_eq!(got.width(), 3);
        assert_eq!(got.height(), 2);
        assert_eq!(got.data(), want.data());
    }
    assert!(s.img().is_some());
}

fn indices_of(sink: &Collector) -> Vec<usize> {
    sink.kept().iter().map(|k| k.1).collect()
}

#[test]
fn clip_stream_stops_on_third_answer() {
    let mut c = clip(10);
    let mut sink = Collector::new(3);
    assert_eq!(c.frames(&mut sink), Ok(false));
    assert_eq!(sink.kept().len(), 3);
    assert_eq!(indices_of(&sink), vec![0, 1, 2]);
}

#[test]
fn clip_stream_indices_count_from_zero() {
    let mut c = clip(4);
    let mut sink = Collector::new(0);
    assert_eq!(c.frames(&mut sink), Ok(true));
    assert_eq!(indices_of(&sink), vec![0, 1, 2, 3]);
    let firsts: Vec<u8> = sink.kept().iter().map(|k| k.0.data()[0]).collect();
    assert_eq!(firsts, vec![0, 1, 2, 3]);
}

#[test]
fn still_streams_nothing() {
    let mut s = Still::new(solid(1, 1, 9));
    let mut sink = Collector::new(0);
    assert_eq!(s.frames(&mut sink), Ok(false));
    assert_eq!(sink.kept().len(), 0);
}

#[test]
fn setup_stream_picks_first_video_track() {
    let mut v = Video::new(vec![MediaKind::Audio, MediaKind::Video, MediaKind::Video]);
    assert_eq!(v.index(), Err(MediaError::TrackNotFound));
    assert_eq!(v.setup_stream(None), Ok(()));
    assert_eq!(v.index(), Ok(1));
    assert_eq!(v.setup_stream(Some(MediaKind::Audio)), Ok(()));
    assert_eq!(v.index(), Ok(0));
}

#[test]
fn absent_track_kind_is_track_not_found() {
    let mut v = Video::new(vec![MediaKind::Video]);
    assert_eq!(v.setup_stream(Some(MediaKind::Audio)), Err(MediaError::TrackNotFound));
    assert_eq!(v.index(), Err(MediaError::TrackNotFound));
    assert!(matches!(v.video(), Err(MediaError::TrackNotFound)));
    let mut empty = Video::new(vec![]);
    assert_eq!(empty.setup_stream(None), Err(MediaError::TrackNotFound));
}

#[test]
fn failed_selection_keeps_previous_track() {
    let mut v = Video::new(vec![MediaKind::Audio, MediaKind::Video]);
    assert_eq!(v.setup_stream(None), Ok(()));
    assert_eq!(v.setup_stream(Some(MediaKind::Subtitle)), Err(MediaError::TrackNotFound));
    assert_eq!(v.index(), Ok(1));
}

fn tiny_raw(value: u8) -> RawFrame {
    RawFrame { data: vec![value; 4], stride: 4, width: 1, height: 1 }
}

/// Runs a walk over `packets` (the track of each), where every packet of the
/// selected track decodes to one frame held back until the next packet, and
/// the decoder holds one trailing frame until end of input.
fn run_walk(packets: &[usize], track: usize, stop_on: usize) -> (Vec<usize>, Option<bool>, usize) {
    let mut v = Video::new(vec![MediaKind::Audio, MediaKind::Video]);
    v.setup_stream(None).unwrap();
    assert_eq!(v.index(), Ok(track));
    let mut p = v.video().unwrap();
    let mut pending: Vec<RawFrame> = vec![];
    let mut next = 0usize;
    let mut indices = vec![];
    let mut decoded = 0u8;
    let mut sent = 0usize;
    let mut action = Action::ReadPacket;
    loop {
        action = match action {
            Action::ReadPacket => {
                if next < packets.len() {
                    next += 1;
                    p.on_packet(packets[next - 1])
                } else {
                    p.on_packets_end()
                }
            }
            Action::SendPacket => {
                sent += 1;
                if sent > 1 {
                    pending.push(tiny_raw(decoded));
                    decoded += 1;
                }
                Action::ReceiveFrame
            }
            Action::SendEof => {
                pending.push(tiny_raw(decoded));
                decoded += 1;
                Action::ReceiveFrame
            }
            Action::ReceiveFrame => {
                if pending.is_empty() {
                    p.on_no_frame()
                } else {
                    let f = pending.remove(0);
                    p.on_frame(&f)
                }
            }
            Action::Deliver(frame, index) => {
                assert_eq!(frame.data()[0] as usize, index);
                indices.push(index);
                let flow = if indices.len() == stop_on { Flow::Stop } else { Flow::Continue };
                p.on_flow(flow)
            }
            Action::Done(completed) => return (indices, Some(completed), sent),
        };
    }
}

#[test]
fn walk_indices_increase_by_one_from_zero() {
    let (indices, done, sent) = run_walk(&[1, 0, 1, 1, 0, 1], 1, 0);
    assert_eq!(indices, vec![0, 1, 2, 3]);
    assert_eq!(done, Some(true));
    assert_eq!(sent, 4);
}

#[test]
fn walk_stops_on_third_answer() {
    let (indices, done, sent) = run_walk(&[1, 1, 1, 1, 1, 1, 1, 1, 1, 1], 1, 3);
    assert_eq!(indices, vec![0, 1, 2]);
    assert_eq!(done, Some(false));
    // no packet is submitted after the stop
    assert_eq!(sent, 4);
}

#[test]
fn walk_skips_frames_that_cannot_be_copied() {
    let mut p = Pipeline::new(0);
    assert!(matches!(p.on_packet(0), Action::SendPacket));
    let broken = RawFrame { data: vec![1, 2], stride: 3, width: 1, height: 1 };
    assert!(matches!(p.on_frame(&broken), Action::ReceiveFrame));
    assert_eq!(p.current_phase(), Phase::Draining);
    assert_eq!(p.next_index_now(), 0);
    match p.on_frame(&tiny_raw(7)) {
        Action::Deliver(b, i) => {
            assert_eq!(i, 0);
            assert_eq!(b.data(), &vec![7, 7, 7]);
        }
        _ => panic!("expected a frame"),
    }
    assert_eq!(p.current_phase(), Phase::Delivering { flushing: false });
    assert!(matches!(p.on_flow(Flow::Continue), Action::ReceiveFrame));
    assert!(matches!(p.on_no_frame(), Action::ReadPacket));
    assert!(matches!(p.on_packet(3), Action::ReadPacket));
    assert!(matches!(p.on_packets_end(), Action::SendEof));
    assert!(matches!(p.on_no_frame(), Action::Done(true)));
    assert_eq!(p.current_phase(), Phase::Finished { completed: true });
}

#[test]
fn thumbnail_of_wide_frame_fills_width() {
    let t = thumbnail_of(&gradient(400, 100)).unwrap();
    assert_eq!((t.width(), t.height()), (200, 50));
    assert_eq!(t.data().len(), 200 * 50 * 3);
}

#[test]
fn thumbnail_of_tall_frame_fills_height() {
    let t = thumbnail_of(&gradient(100, 300)).unwrap();
    assert_eq!((t.width(), t.height()), (67, 200));
    assert_eq!(t.data().len(), 67 * 200 * 3);
}

#[test]
fn thumbnail_of_small_frame_is_scaled_up_to_the_box() {
    let src = solid(10, 5, 128);
    let t = thumbnail_of(&src).unwrap();
    assert_eq!((t.width(), t.height()), (200, 100));
    assert!(t.width() <= THUMB_SIZE && t.height() <= THUMB_SIZE);
    // a flat image stays flat under the filter
    assert!(t.data().iter().all(|&v| v == 128));
}

#[test]
fn thumbnail_of_empty_frame_is_none() {
    assert!(thumbnail_of(&solid(0, 4, 0)).is_none());
    assert!(thumbnail_of(&solid(4, 0, 0)).is_none());
}

#[test]
fn thumbnail_of_sources() {
    let mut s = Still::new(gradient(50, 25));
    let t = thumbnail(&mut s).unwrap();
    assert_eq!((t.width(), t.height()), (200, 100));
    let mut c = Clip::new(vec![gradient(300, 600), gradient(10, 10)]);
    let t = thumbnail(&mut c).unwrap();
    assert_eq!((t.width(), t.height()), (100, 200));
    assert!(thumbnail(&mut clip(0)).is_none());
}

#[test]
fn empty_clip_walk_is_complete() {
    let mut c = clip(0);
    let mut sink = Collector::new(1);
    assert_eq!(c.frames(&mut sink), Ok(true));
    assert_eq!(sink.kept().len(), 0);
}

#[test]
fn same_still_gives_same_thumbnail() {
    let a = thumbnail(&mut Still::new(gradient(30, 70))).unwrap();
    let b = thumbnail(&mut Still::new(gradient(30, 70))).unwrap();
    assert_eq!((a.width(), a.height()), (86, 200));
    assert_eq!(a.data(), b.data());
}
