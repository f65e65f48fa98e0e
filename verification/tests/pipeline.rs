use face_auth::cache::FrameCache;
use face_auth::display::{surface_pixels, DisplayAction, DisplayLoop};
use face_auth::frame::Frame;
use face_auth::sampler::{Sampler, SamplerAction, SamplerEvent, SamplerPhase};
use face_auth::stream::{StreamAction, StreamEvent, StreamReader};

fn pipeline_jpeg(shade: u8) -> Vec<u8> {
    let samples = vec![shade; 8 * 8 * 3];
    let mut bytes = Vec::new();
    image::codecs::jpeg::JpegEncoder::new_with_quality(&mut bytes, 95)
        .encode(&samples, 8, 8, image::ExtendedColorType::Rgb8)
        .unwrap();
    bytes
}

fn pipeline_feed(reader: &mut StreamReader, cache: &mut FrameCache, bytes: &[u8]) -> usize {
    match reader.step(StreamEvent::Read(bytes)) {
        StreamAction::Publish(frames) => {
            let count = frames.len();
            for frame in frames {
                assert!(FrameCache::publish(Some(&mut *cache), frame));
            }
            count
        }
        StreamAction::Stop => panic!("the reader stopped"),
        StreamAction::Backoff(_) => panic!("the reader backed off"),
    }
}

fn pipeline_tick(sampler: &mut Sampler<(Frame, u8)>, cache: &FrameCache) -> SamplerAction {
    match cache.read_for_sample() {
        Some(frame) => {
            let shade = frame.pixels()[0];
            sampler.step(SamplerEvent::Sample((frame, shade)))
        }
        None => sampler.step(SamplerEvent::NoFrame),
    }
}

#[test]
fn five_frames_from_the_source_give_five_samples() {
    let mut reader = StreamReader::new();
    let mut cache = FrameCache::new();
    let (mut sampler, mut action) = Sampler::<(Frame, u8)>::begin(5, 100);
    let mut shutdowns = 0;

    // One frame every tick, one sample every tick.
    for i in 0..5u8 {
        assert_eq!(action, SamplerAction::Collect { wait_millis: 100 });
        assert_eq!(pipeline_feed(&mut reader, &mut cache, &pipeline_jpeg(40 * i + 20)), 1);
        action = pipeline_tick(&mut sampler, &cache);
        if action == SamplerAction::ShutdownThenInfer {
            shutdowns += 1;
        }
    }
    assert_eq!(action, SamplerAction::ShutdownThenInfer);
    assert_eq!(shutdowns, 1);
    assert_eq!(sampler.phase(), SamplerPhase::BatchInference);
    assert_eq!(sampler.samples().len(), 5);
    for (i, (frame, shade)) in sampler.samples().iter().enumerate() {
        assert_eq!((frame.width(), frame.height()), (8, 8));
        assert!((i32::from(*shade) - (40 * i as i32 + 20)).abs() <= 3);
    }

    // Both loops leave at their next poll.
    assert!(matches!(reader.step(StreamEvent::Shutdown), StreamAction::Stop));
    let mut display = DisplayLoop::new();
    assert_eq!(display.poll(true, false, false), DisplayAction::Render);
    assert_eq!(display.rendered(true), DisplayAction::Pause(33));
    assert_eq!(display.poll(true, false, true), DisplayAction::Stop);

    // One embedding for each sample, averaged into one result.
    let lengths = vec![320; sampler.samples().len()];
    assert_eq!(
        sampler.step(SamplerEvent::Embedded(lengths)),
        SamplerAction::Aggregate { count: 5, length: 320 }
    );
    assert_eq!(sampler.step(SamplerEvent::Aggregated), SamplerAction::Finish);
    assert_eq!(sampler.phase(), SamplerPhase::Done);
}

#[test]
fn a_source_without_a_decodable_frame_keeps_the_sampler_collecting() {
    let mut reader = StreamReader::new();
    let mut cache = FrameCache::new();
    let (mut sampler, mut action) = Sampler::<(Frame, u8)>::begin(3, 100);
    let noise = [0xFF, 0xD8, 1, 2, 3, 4, 5, 6, 7, 8, 9, 10, 0xFF, 0xD9];
    for _ in 0..500 {
        assert_eq!(action, SamplerAction::Collect { wait_millis: 100 });
        assert_eq!(pipeline_feed(&mut reader, &mut cache, &noise), 0);
        action = pipeline_tick(&mut sampler, &cache);
    }
    assert_eq!(sampler.phase(), SamplerPhase::Collecting);
    assert!(sampler.samples().is_empty());
    assert!(!sampler.shutdown_raised());
}

#[test]
fn the_sampler_may_take_the_same_frame_twice() {
    let mut reader = StreamReader::new();
    let mut cache = FrameCache::new();
    let (mut sampler, _) = Sampler::<(Frame, u8)>::begin(2, 50);
    assert_eq!(pipeline_feed(&mut reader, &mut cache, &pipeline_jpeg(128)), 1);
    assert_eq!(pipeline_tick(&mut sampler, &cache), SamplerAction::Collect { wait_millis: 50 });
    assert_eq!(pipeline_tick(&mut sampler, &cache), SamplerAction::ShutdownThenInfer);
    assert_eq!(sampler.samples()[0].0.pixels(), sampler.samples()[1].0.pixels());
}

#[test]
fn the_display_shows_the_newest_frame() {
    let mut reader = StreamReader::new();
    let mut cache = FrameCache::new();
    assert!(surface_pixels(FrameCache::peek_for_display(Some(&cache)).as_ref())
        .iter()
        .all(|&pixel| pixel == 0));
    let mut both = pipeline_jpeg(10);
    both.extend_from_slice(&pipeline_jpeg(240));
    assert_eq!(pipeline_feed(&mut reader, &mut cache, &both), 2);
    let shown = FrameCache::peek_for_display(Some(&cache)).unwrap();
    let pixels = surface_pixels(Some(&shown));
    assert_eq!(pixels.len(), 640 * 480);
    let red = (pixels[0] >> 16) as i32;
    assert!((red - 240).abs() <= 3);
}

#[test]
fn a_failing_sampler_still_ends_both_loops() {
    let mut reader = StreamReader::new();
    let mut cache = FrameCache::new();
    let mut display = DisplayLoop::new();
    let (mut sampler, _) = Sampler::<(Frame, u8)>::begin(3, 100);
    assert_eq!(pipeline_feed(&mut reader, &mut cache, &pipeline_jpeg(90)), 1);
    assert_eq!(pipeline_tick(&mut sampler, &cache), SamplerAction::Collect { wait_millis: 100 });
    assert_eq!(display.poll(true, false, false), DisplayAction::Render);
    assert_eq!(display.rendered(true), DisplayAction::Pause(33));

    // The second frame cannot be preprocessed: the sampler gives up, and the
    // signals that it calls for end both loops at their next poll.
    let action = sampler.step(SamplerEvent::PreprocessingFailed);
    assert!(matches!(action, SamplerAction::ShutdownThenFail(_)));
    assert!(sampler.shutdown_raised());
    assert!(matches!(reader.step(StreamEvent::Shutdown), StreamAction::Stop));
    assert!(reader.is_stopped());
    assert_eq!(display.poll(true, false, true), DisplayAction::Stop);
    assert!(display.is_stopped());
}
