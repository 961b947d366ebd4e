use road_fighter::session::{FrameStep, GameState, Session};

fn started() -> Session {
    let mut s = Session::new();
    assert_eq!(s.begin_frame(true), FrameStep::NewRun);
    s
}

#[test]
fn new_session_is_on_title() {
    let s = Session::new();
    assert_eq!(s.state(), GameState::Title);
    assert_eq!(s.lives(), 3);
    assert_eq!(s.score(), 0);
    assert_eq!(s.high_score(), 0);
    assert_eq!(s.level(), 1);
    assert_eq!(s.frame_count(), 0);
}

#[test]
fn title_waits_for_space() {
    let mut s = Session::new();
    assert_eq!(s.begin_frame(false), FrameStep::Wait);
    assert_eq!(s.state(), GameState::Title);
    assert_eq!(s.frame_count(), 1);
    assert_eq!(s.begin_frame(true), FrameStep::NewRun);
    assert_eq!(s.state(), GameState::Playing);
    assert_eq!(s.frame_count(), 2);
    assert_eq!(s.begin_frame(true), FrameStep::Play);
    assert_eq!(s.begin_frame(false), FrameStep::Play);
}

#[test]
fn three_crashes_end_the_run() {
    let mut s = started();
    assert!(s.lose_life());
    assert_eq!(s.lives(), 2);
    assert!(s.lose_life());
    assert_eq!(s.state(), GameState::Playing);
    assert!(!s.lose_life());
    assert_eq!(s.lives(), 0);
    assert_eq!(s.state(), GameState::GameOver);
}

#[test]
fn fuel_and_frames_score() {
    let mut s = started();
    s.collect_fuel();
    assert_eq!(s.score(), 50);
    assert!(!s.end_frame());
    assert_eq!(s.score(), 51);
}

#[test]
fn level_rises_past_500_points() {
    let mut s = started();
    for _ in 0..10 {
        s.collect_fuel();
    }
    assert_eq!(s.score(), 500);
    assert!(s.end_frame());
    assert_eq!(s.score(), 501);
    assert_eq!(s.level(), 2);
    assert!(!s.end_frame());
    assert_eq!(s.level(), 2);
}

#[test]
fn level_rises_one_per_frame() {
    let mut s = started();
    for _ in 0..30 {
        s.collect_fuel();
    }
    assert_eq!(s.score(), 1500);
    assert!(s.end_frame());
    assert_eq!(s.level(), 2);
    assert!(s.end_frame());
    assert_eq!(s.level(), 3);
    assert!(s.end_frame());
    assert_eq!(s.level(), 4);
    assert_eq!(s.score(), 1503);
    assert!(!s.end_frame());
    assert_eq!(s.level(), 4);
}

#[test]
fn high_score_kept_and_only_raised() {
    let mut s = started();
    s.collect_fuel();
    s.collect_fuel();
    s.lose_life();
    s.lose_life();
    assert_eq!(s.high_score(), 0);
    s.lose_life();
    assert_eq!(s.high_score(), 100);
    // game over, back to title, new run
    assert_eq!(s.begin_frame(false), FrameStep::Wait);
    assert_eq!(s.state(), GameState::GameOver);
    assert_eq!(s.begin_frame(true), FrameStep::Wait);
    assert_eq!(s.state(), GameState::Title);
    assert_eq!(s.begin_frame(true), FrameStep::NewRun);
    assert_eq!(s.score(), 0);
    assert_eq!(s.lives(), 3);
    assert_eq!(s.level(), 1);
    assert_eq!(s.high_score(), 100);
    s.collect_fuel();
    s.lose_life();
    s.lose_life();
    s.lose_life();
    assert_eq!(s.high_score(), 100);
}

#[test]
fn reset_keeps_high_score() {
    let mut s = started();
    for _ in 0..3 {
        s.collect_fuel();
    }
    s.lose_life();
    s.lose_life();
    s.lose_life();
    assert_eq!(s.high_score(), 150);
    s.reset();
    assert_eq!(s.high_score(), 150);
    assert_eq!(s.score(), 0);
    assert_eq!(s.lives(), 3);
}

#[test]
fn blink_every_thirty_frames() {
    let mut s = Session::new();
    assert!(s.blink_on());
    for _ in 0..29 {
        s.begin_frame(false);
    }
    assert!(s.blink_on());
    s.begin_frame(false);
    assert!(!s.blink_on());
    for _ in 0..30 {
        s.begin_frame(false);
    }
    assert!(s.blink_on());
}

use road_fighter::session::FrameEvents;

#[test]
fn crash_frame_scores_nothing() {
    let mut s = started();
    let out = s.play_frame(FrameEvents { crashed: true, fuel_cans: 3, out_of_fuel: true });
    assert!(out.respawn && !out.refuel && !out.level_up);
    assert_eq!(s.score(), 0);
    assert_eq!(s.lives(), 2);
}

#[test]
fn play_frame_scores_cans_and_frame() {
    let mut s = started();
    let out = s.play_frame(FrameEvents { crashed: false, fuel_cans: 2, out_of_fuel: false });
    assert!(!out.respawn && !out.refuel && !out.level_up);
    assert_eq!(s.score(), 101);
    let out = s.play_frame(FrameEvents { crashed: false, fuel_cans: 8, out_of_fuel: true });
    assert!(out.refuel && out.level_up);
    assert_eq!(s.score(), 502);
    assert_eq!(s.level(), 2);
    assert_eq!(s.lives(), 2);
}

#[test]
fn running_out_of_fuel_on_last_life_ends_run_but_frame_scores() {
    let mut s = started();
    s.lose_life();
    s.lose_life();
    s.collect_fuel();
    let out = s.play_frame(FrameEvents { crashed: false, fuel_cans: 0, out_of_fuel: true });
    assert!(!out.refuel);
    assert_eq!(s.state(), GameState::GameOver);
    assert_eq!(s.high_score(), 50);
    assert_eq!(s.score(), 51);
}

#[test]
fn last_crash_does_not_respawn() {
    let mut s = started();
    s.lose_life();
    s.lose_life();
    let out = s.play_frame(FrameEvents { crashed: true, fuel_cans: 0, out_of_fuel: false });
    assert!(!out.respawn);
    assert_eq!(s.state(), GameState::GameOver);
}
