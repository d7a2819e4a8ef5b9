use kbc_core::motion_request::{parse_motion_arguments, MotionFormat, MotionKind};

fn values(input: &str) -> Vec<String> {
    input.split_whitespace().map(str::to_owned).collect()
}

#[test]
fn parses_png_and_video_segments_with_optional_form() {
    let png = parse_motion_arguments(&values("png f a 12 --full"), &["f", "c", "s", "u"]).unwrap();
    assert_eq!(png.format, MotionFormat::Png);
    assert_eq!(png.form.as_deref(), Some("f"));
    assert!(png.full);
    assert_eq!(png.segments[0].range.unwrap().start, 12);

    let video = parse_motion_arguments(&values("mp4 w 1~~15 a 4 9 i"), &[]).unwrap();
    assert_eq!(video.segments.len(), 3);
    assert_eq!(video.segments[0].range.unwrap().len(), 15);
    assert!(video.segments[2].range.is_none());
}

#[test]
fn rejects_invalid_ranges_and_unbounded_explicit_output() {
    assert!(parse_motion_arguments(&values("gif a 9 1"), &[]).is_none());
    assert!(parse_motion_arguments(&values("mp4 w 0 900"), &[]).is_none());
    assert!(parse_motion_arguments(&values("png a 0 extra"), &[]).is_none());
}

#[test]
fn accepts_exactly_the_frame_budget_and_uppercase_tokens() {
    let video = parse_motion_arguments(&values("MP4 W 0~~899"), &[]).unwrap();
    assert_eq!(video.segments[0].motion, MotionKind::Move);
    assert_eq!(video.segments[0].range.unwrap().len(), 900);
    assert!(parse_motion_arguments(&values("mp4 w 0~~899 a 1 1"), &[]).is_none());
}

#[test]
fn png_defaults_to_frame_zero_and_rejects_repeated_full() {
    let png = parse_motion_arguments(&values("png k"), &[]).unwrap();
    assert_eq!(png.segments[0].range.unwrap().start, 0);
    assert!(!png.full);
    assert!(parse_motion_arguments(&values("png k --full --FULL"), &[]).is_none());
    assert!(parse_motion_arguments(&values("webm k"), &[]).is_none());
    assert_eq!(MotionKind::Knockback.asset_index(), 3);
    assert_eq!(MotionFormat::Gif.extension(), "gif");
}
