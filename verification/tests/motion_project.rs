use kbc_core::motion_project::{MotionAssets, MotionProject};
use kbc_core::motion_request::MotionKind;

#[test]
fn parses_a_minimal_project() {
    let assets = MotionAssets {
        sprite: Vec::new(),
        imgcut: b"[imgcut]\n1\nsprite.png\n1\n0,0,32,32\n".to_vec(),
        model: b"[mamodel]\n1\n1\n-1,0,0,0,0,0,0,0,1000,1000,0,255,0\n1000,3600,255\n".to_vec(),
        animations: vec![(
            MotionKind::Move,
            b"[modelanim:animation]\n1\n1\n0,4,1,0,0\n2\n0,0,0,0\n1,10,0,0\n".to_vec(),
        )],
    };
    let project = MotionProject::parse(&assets).unwrap();
    assert_eq!(project.cuts.len(), 1);
    assert_eq!(project.max_frame(MotionKind::Move), Some(1));
}

#[test]
fn rejects_a_part_that_points_at_a_missing_cut() {
    let assets = MotionAssets {
        sprite: Vec::new(),
        imgcut: b"[imgcut]\n1\nsprite.png\n1\n0,0,32,32\n".to_vec(),
        model: b"[mamodel]\n1\n1\n-1,0,0,0,0,0,0,0,1000,1000,0,255,0\n1000,3600,255\n".to_vec(),
        animations: vec![],
    };
    assert!(MotionProject::parse(&assets).is_ok());
    let broken = MotionAssets {
        sprite: Vec::new(),
        imgcut: b"[imgcut]\n1\nsprite.png\n1\n0,0,32,32\n".to_vec(),
        model: b"[mamodel]\n1\n1\n-1,0,5,0,0,0,0,0,1000,1000,0,255,0\n1000,3600,255\n".to_vec(),
        animations: vec![],
    };
    assert!(MotionProject::parse(&broken).is_err());
}

#[test]
fn rejects_a_track_on_a_missing_part() {
    let assets = MotionAssets {
        sprite: Vec::new(),
        imgcut: b"[imgcut]\n1\nsprite.png\n1\n0,0,32,32\n".to_vec(),
        model: b"[mamodel]\n1\n1\n-1,0,0,0,0,0,0,0,1000,1000,0,255,0\n1000,3600,255\n".to_vec(),
        animations: vec![(
            MotionKind::Move,
            b"[modelanim:animation]\n1\n1\n3,4,1,0,0\n2\n0,0,0,0\n1,10,0,0\n".to_vec(),
        )],
    };
    assert!(MotionProject::parse(&assets).is_err());
    assert_eq!(MotionProject::parse(&assets).unwrap_err().public_message(), "❌ モーションデータが正しくありません");
}
