use pipes_rs::join::Side;
use pipes_rs::stages::{StageAction, StageEvent, StagePairing};

/// Runs the frames of two stages through a pairing.
fn run(cameras: &[u8], lidars: &[char]) -> (Vec<(u8, char)>, bool) {
    let mut cameras = cameras.iter();
    let mut lidars = lidars.iter();
    let mut pairing = StagePairing::new();
    let mut pairs = Vec::new();
    loop {
        let event = match pairing.listens_to() {
            Side::Camera => cameras
                .next()
                .map_or(StageEvent::Ended, |frame| StageEvent::Camera(*frame)),
            Side::Lidar => lidars
                .next()
                .map_or(StageEvent::Ended, |frame| StageEvent::Lidar(*frame)),
        };
        match pairing.hear(event) {
            StageAction::Wait => {}
            StageAction::Fuse(camera, lidar) => pairs.push((camera, lidar)),
            StageAction::Finish => return (pairs, true),
            StageAction::Fail => return (pairs, false),
        }
    }
}

#[test]
fn frames_are_paired_in_turn() {
    assert_eq!(run(&[1, 2], &['a', 'b']), (vec![(1, 'a'), (2, 'b')], true));
    assert_eq!(run(&[1], &['a', 'b']), (vec![(1, 'a')], true));
    assert_eq!(run(&[], &[]), (vec![], true));
}

#[test]
fn a_lidar_stage_that_ends_first_is_a_failure() {
    assert_eq!(run(&[1, 2], &['a']), (vec![(1, 'a')], false));
    assert_eq!(run(&[1], &[]), (vec![], false));
}
