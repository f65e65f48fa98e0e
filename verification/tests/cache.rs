use face_auth::cache::FrameCache;
use face_auth::frame::Frame;

fn cache_frame(shade: u8) -> Frame {
    Frame::from_raw(2, 2, vec![shade; 12]).unwrap()
}

#[test]
fn new_cache_is_empty() {
    let cache = FrameCache::new();
    assert!(cache.read_for_sample().is_none());
    assert!(FrameCache::peek_for_display(Some(&cache)).is_none());
}

#[test]
fn published_frame_is_read_back_whole() {
    let mut cache = FrameCache::new();
    assert!(FrameCache::publish(Some(&mut cache), cache_frame(7)));
    let seen = cache.read_for_sample().unwrap();
    assert_eq!((seen.width(), seen.height()), (2, 2));
    assert_eq!(seen.pixels(), &[7u8; 12]);
}

#[test]
fn newer_frame_overwrites_the_older_one() {
    let mut cache = FrameCache::new();
    assert!(FrameCache::publish(Some(&mut cache), cache_frame(1)));
    assert!(FrameCache::publish(Some(&mut cache), cache_frame(2)));
    assert_eq!(cache.read_for_sample().unwrap().pixels(), &[2u8; 12]);
}

#[test]
fn frame_is_dropped_when_the_cache_is_held_elsewhere() {
    let mut cache = FrameCache::new();
    assert!(FrameCache::publish(Some(&mut cache), cache_frame(1)));
    assert!(!FrameCache::publish(None, cache_frame(2)));
    assert_eq!(cache.read_for_sample().unwrap().pixels(), &[1u8; 12]);
}

#[test]
fn display_sees_nothing_when_the_cache_is_held_elsewhere() {
    let mut cache = FrameCache::new();
    assert!(FrameCache::publish(Some(&mut cache), cache_frame(5)));
    assert!(FrameCache::peek_for_display(None).is_none());
    assert_eq!(FrameCache::peek_for_display(Some(&cache)).unwrap().pixels(), &[5u8; 12]);
}

#[test]
fn reading_does_not_empty_the_cache() {
    let mut cache = FrameCache::new();
    assert!(FrameCache::publish(Some(&mut cache), cache_frame(3)));
    for _ in 0..3 {
        assert_eq!(cache.read_for_sample().unwrap().pixels(), &[3u8; 12]);
        assert_eq!(FrameCache::peek_for_display(Some(&cache)).unwrap().pixels(), &[3u8; 12]);
    }
}

#[test]
fn every_frame_read_is_a_complete_raster() {
    let mut cache = FrameCache::new();
    for shade in 0u8..20 {
        let side = u32::from(shade % 4) + 1;
        let frame = Frame::from_raw(side, side, vec![shade; (side * side * 3) as usize]).unwrap();
        assert!(FrameCache::publish(Some(&mut cache), frame));
        let seen = FrameCache::peek_for_display(Some(&cache)).unwrap();
        assert_eq!(seen.pixels().len() as u32, 3 * seen.width() * seen.height());
        assert_eq!(seen.width(), side);
        assert!(seen.pixels().iter().all(|&sample| sample == shade));
    }
}

#[test]
fn cache_works_behind_a_lock() {
    let shared = std::sync::Mutex::new(FrameCache::new());
    {
        let held = shared.lock().unwrap();
        // While a reader holds the cache, the producer's attempt fails and
        // the frame is dropped.
        let mut attempt = shared.try_lock().ok();
        assert!(!FrameCache::publish(attempt.as_deref_mut(), cache_frame(9)));
        assert!(held.read_for_sample().is_none());
    }
    let mut attempt = shared.try_lock().ok();
    assert!(FrameCache::publish(attempt.as_deref_mut(), cache_frame(9)));
    drop(attempt);
    let attempt = shared.try_lock().ok();
    assert_eq!(FrameCache::peek_for_display(attempt.as_deref()).unwrap().pixels(), &[9u8; 12]);
}

#[test]
fn the_cache_holds_the_frame_of_the_last_attempt_that_had_it_in_hand() {
    let mut cache = FrameCache::new();
    let attempts = [false, true, false, false, true, true, false];
    let mut newest: Option<u8> = None;
    for (i, &in_hand) in attempts.iter().enumerate() {
        let shade = 10 * (i as u8 + 1);
        let access = if in_hand { Some(&mut cache) } else { None };
        assert_eq!(FrameCache::publish(access, cache_frame(shade)), in_hand);
        if in_hand {
            newest = Some(shade);
        }
        let seen = cache.read_for_sample();
        assert_eq!(seen.as_ref().map(|frame| frame.pixels()[0]), newest);
        if let Some(frame) = seen {
            assert_eq!(frame.pixels(), vec![newest.unwrap(); 12].as_slice());
        }
    }
    assert_eq!(newest, Some(60));
}
