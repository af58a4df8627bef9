use soundscout::loop_geometry::{
    blend_in_window, candidate_fits, clip_frame_bounds, crossfade_frames_for_clip,
    max_crossfade_frames_for_clip, pitch_synchronous_technique, seam_tail_start, seam_trim_window,
    seam_windows, LoopTechnique,
};

#[test]
fn crossfade_cap_is_just_under_half_the_clip() {
    assert_eq!(max_crossfade_frames_for_clip(3), 0);
    assert_eq!(max_crossfade_frames_for_clip(4), 1);
    assert_eq!(max_crossfade_frames_for_clip(101), 49);
}

#[test]
fn crossfade_frames_are_clamped_to_the_clip() {
    assert_eq!(crossfade_frames_for_clip(None, 3), 0);
    assert_eq!(crossfade_frames_for_clip(None, 1000), 499);
    assert_eq!(crossfade_frames_for_clip(Some(10_000), 1000), 499);
    assert_eq!(crossfade_frames_for_clip(Some(3), 1000), 8);
    assert_eq!(crossfade_frames_for_clip(Some(100), 1000), 100);
    assert_eq!(crossfade_frames_for_clip(Some(0), 10), 2);
    assert_eq!(crossfade_frames_for_clip(Some(0), 4), 1);
}

#[test]
fn seam_trim_window_limits() {
    assert_eq!(seam_trim_window(7, 1, 10), None);
    assert_eq!(seam_trim_window(100, 1, 0), None);
    assert_eq!(seam_trim_window(100, 0, 10), None);
    assert_eq!(seam_trim_window(100, 2, 10), Some((10, 16)));
    assert_eq!(seam_trim_window(10_000, 2, 500), Some((96, 48)));
    assert_eq!(seam_trim_window(8, 1, 5), Some((1, 8)));
}

#[test]
fn seam_tail_start_needs_room() {
    assert_eq!(seam_tail_start(100, 2, 3, 16), Some(81));
    assert_eq!(seam_tail_start(20, 2, 3, 16), None);
    assert_eq!(seam_tail_start(20, 0, 0, 16), Some(4));
    assert_eq!(seam_tail_start(20, 5, 0, 15), None);
}

#[test]
fn clip_bounds_are_clamped_to_the_file() {
    assert_eq!(clip_frame_bounds(200, 2, 10, 50), Ok((10, 50)));
    assert_eq!(clip_frame_bounds(200, 2, -5, 500), Ok((0, 100)));
    assert_eq!(clip_frame_bounds(200, 2, 150, 160), Ok((99, 100)));
    assert_eq!(clip_frame_bounds(200, 2, 40, 40), Ok((40, 41)));
    assert_eq!(clip_frame_bounds(200, 2, 40, -3), Ok((40, 41)));
}

#[test]
fn clip_bounds_errors() {
    assert_eq!(clip_frame_bounds(200, 0, 0, 10), Err("invalid channel count".to_string()));
    assert_eq!(clip_frame_bounds(1, 2, 0, 10), Err("no audio samples".to_string()));
}

#[test]
fn candidate_checks() {
    assert!(candidate_fits(0, 10, 2, 20));
    assert!(!candidate_fits(0, 11, 2, 20));
    assert!(!candidate_fits(5, 5, 2, 20));
    assert!(blend_in_window(10, 100, 110));
    assert!(!blend_in_window(10, 100, 112));
    assert!(!blend_in_window(0, 100, 100));
    assert!(!blend_in_window(50, 100, 100));
    assert_eq!(seam_windows(10, 100, 20), (80, 30));
    assert_eq!(seam_windows(10, 20, 20), (10, 20));
}

#[test]
fn pitch_synchronous_record() {
    assert_eq!(
        pitch_synchronous_technique(1000, 100, 8, 2),
        LoopTechnique::PitchSynchronous { periods: 10, crossfade_samples: 16 }
    );
    assert_eq!(
        pitch_synchronous_technique(50, 100, 8, 1),
        LoopTechnique::PitchSynchronous { periods: 1, crossfade_samples: 8 }
    );
    assert_eq!(
        pitch_synchronous_technique(7, 0, 0, 1),
        LoopTechnique::PitchSynchronous { periods: 7, crossfade_samples: 0 }
    );
}
