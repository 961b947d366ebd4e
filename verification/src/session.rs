//! The rules of a game session that do not depend on positions: the screen
//! the game is on, lives, score, level, high score and the frame counter.
//!
//! A run starts with 3 lives, a score of 0 and level 1. Losing a life (by a
//! crash or by running out of fuel) ends the run when no life is left, and
//! the run's score then becomes the high score if it beats it. Every fuel can
//! picked up scores 50 points and every frame played scores 1 point; the
//! level goes up by one when the score passes 500 times the level.

use vstd::prelude::*;

verus! {

/// The screen the game is on.
#[derive(Clone, Copy, PartialEq, Eq, Debug)]
pub enum GameState {
    /// The title screen, waiting for the space key.
    Title,
    /// A run is being played.
    Playing,
    /// The run is over, waiting for the space key.
    GameOver,
}

/// What the rest of a frame has to do after `Session::begin_frame`.
#[derive(Clone, Copy, PartialEq, Eq, Debug)]
pub enum FrameStep {
    /// Nothing moves this frame.
    Wait,
    /// A new run has just started: the road and the cars are set up anew.
    NewRun,
    /// The run goes on: the cars move and collisions are checked.
    Play,
}

/// What happened in a frame of play, as the moving parts of the game found
/// it.
#[derive(Clone, Copy, PartialEq, Eq, Debug)]
pub struct FrameEvents {
    /// The player's car hit an enemy car.
    pub crashed: bool,
    /// Fuel cans picked up (only counted when there was no crash).
    pub fuel_cans: u32,
    /// The fuel ran out after the pick-ups (only counted when there was no
    /// crash).
    pub out_of_fuel: bool,
}

/// What the moving parts of the game have to do after a frame of play.
#[derive(Clone, Copy, PartialEq, Eq, Debug)]
pub struct FrameOutcome {
    /// The player's car goes back to its start position.
    pub respawn: bool,
    /// The fuel is set to half a tank and the car back to the middle of the
    /// road.
    pub refuel: bool,
    /// The level went up: the road scrolls faster.
    pub level_up: bool,
}

/// Lives a run starts with.
pub const START_LIVES: i32 = 3;

/// Points for a fuel can.
pub const FUEL_POINTS: i32 = 50;

/// Points per level: the level goes up when the score passes this many
/// points times the level.
pub const LEVEL_POINTS: i32 = 500;

/// The mathematical state of a session.
pub struct SessionModel {
    pub state: GameState,
    pub lives: int,
    pub score: int,
    pub high_score: int,
    pub level: int,
    pub frame_count: int,
}

/// The state of a session before the first frame.
pub open spec fn initial_model() -> SessionModel {
    SessionModel {
        state: GameState::Title,
        lives: START_LIVES as int,
        score: 0,
        high_score: 0,
        level: 1,
        frame_count: 0,
    }
}

/// The states every session stays in.
pub open spec fn model_wf(m: SessionModel) -> bool {
    &&& 1 <= m.level
    &&& 0 <= m.score
    &&& (m.level - 1) * (LEVEL_POINTS as int) <= m.score
    &&& 0 <= m.high_score
    &&& m.lives <= START_LIVES
    &&& m.state == GameState::Playing ==> m.lives >= 1
    &&& 0 <= m.frame_count <= u32::MAX
}

/// A new run: three lives, no points, level 1; the high score, the screen
/// and the frame counter are kept.
pub open spec fn reset_model(m: SessionModel) -> SessionModel {
    SessionModel { lives: START_LIVES as int, score: 0, level: 1, ..m }
}

/// The start of a frame: the frame counter goes up; on the title screen the
/// space key starts a new run, on the game-over screen it goes back to the
/// title screen.
pub open spec fn begin_frame_model(m: SessionModel, space_pressed: bool) -> (SessionModel, FrameStep) {
    let m1 = SessionModel { frame_count: m.frame_count + 1, ..m };
    match m.state {
        GameState::Title => if space_pressed {
            (reset_model(SessionModel { state: GameState::Playing, ..m1 }), FrameStep::NewRun)
        } else {
            (m1, FrameStep::Wait)
        },
        GameState::Playing => (m1, FrameStep::Play),
        GameState::GameOver => if space_pressed {
            (SessionModel { state: GameState::Title, ..m1 }, FrameStep::Wait)
        } else {
            (m1, FrameStep::Wait)
        },
    }
}

/// Losing a life: with no life left the run is over and its score becomes
/// the high score if it is higher.
pub open spec fn lose_life_model(m: SessionModel) -> SessionModel {
    let lives = m.lives - 1;
    if lives <= 0 {
        SessionModel {
            lives: lives,
            high_score: if m.score > m.high_score { m.score } else { m.high_score },
            state: GameState::GameOver,
            ..m
        }
    } else {
        SessionModel { lives: lives, ..m }
    }
}

/// Picking up a fuel can.
pub open spec fn collect_fuel_model(m: SessionModel) -> SessionModel {
    SessionModel { score: m.score + FUEL_POINTS, ..m }
}

/// Picking up `n` fuel cans.
pub open spec fn collect_fuels_model(m: SessionModel, n: int) -> SessionModel {
    SessionModel { score: m.score + FUEL_POINTS * n, ..m }
}

/// The end of a frame of play: one point, and one level more when the score
/// passes 500 times the level.
pub open spec fn end_frame_model(m: SessionModel) -> SessionModel {
    let score = m.score + 1;
    if score > m.level * (LEVEL_POINTS as int) {
        SessionModel { score: score, level: m.level + 1, ..m }
    } else {
        SessionModel { score: score, ..m }
    }
}

/// A frame of play: a crash costs a life and ends the frame; otherwise the
/// fuel cans picked up score, running out of fuel costs a life, and the
/// frame scores its point.
pub open spec fn play_frame_model(m: SessionModel, e: FrameEvents) -> SessionModel {
    if e.crashed {
        lose_life_model(m)
    } else {
        let m1 = collect_fuels_model(m, e.fuel_cans as int);
        let m2 = if e.out_of_fuel {
            lose_life_model(m1)
        } else {
            m1
        };
        end_frame_model(m2)
    }
}

/// What the moving parts do after the frame `e` played from `m`.
pub open spec fn play_frame_outcome(m: SessionModel, e: FrameEvents) -> FrameOutcome {
    if e.crashed {
        FrameOutcome { respawn: m.lives - 1 > 0, refuel: false, level_up: false }
    } else {
        let m1 = collect_fuels_model(m, e.fuel_cans as int);
        FrameOutcome {
            respawn: false,
            refuel: e.out_of_fuel && m1.lives - 1 > 0,
            level_up: play_frame_model(m, e).level == m.level + 1,
        }
    }
}

/// Blinking prompts show in frame `n`.
pub open spec fn blink_visible(n: int) -> bool {
    (n / 30) % 2 == 0
}

/// The session: screen, lives, score, high score, level and frame counter.
pub struct Session {
    state: GameState,
    lives: i32,
    score: i32,
    high_score: i32,
    level: i32,
    frame_count: u32,
}

impl View for Session {
    type V = SessionModel;

    closed spec fn view(&self) -> SessionModel {
        SessionModel {
            state: self.state,
            lives: self.lives as int,
            score: self.score as int,
            high_score: self.high_score as int,
            level: self.level as int,
            frame_count: self.frame_count as int,
        }
    }
}

impl Session {
    #[verifier::type_invariant]
    spec fn inv(self) -> bool {
        model_wf(self@)
    }

    /// A session on the title screen before its first frame.
    pub fn new() -> (s: Session)
        ensures
            s@ == initial_model(),
    {
        Session {
            state: GameState::Title,
            lives: START_LIVES,
            score: 0,
            high_score: 0,
            level: 1,
            frame_count: 0,
        }
    }

    /// The screen the game is on.
    pub fn state(&self) -> (r: GameState)
        ensures
            r == self@.state,
    {
        self.state
    }

    /// Lives left in the run.
    pub fn lives(&self) -> (r: i32)
        ensures
            r == self@.lives,
    {
        self.lives
    }

    /// Points of the run.
    pub fn score(&self) -> (r: i32)
        ensures
            r == self@.score,
    {
        self.score
    }

    /// The highest score of a finished run.
    pub fn high_score(&self) -> (r: i32)
        ensures
            r == self@.high_score,
    {
        self.high_score
    }

    /// The level of the run.
    pub fn level(&self) -> (r: i32)
        ensures
            r == self@.level,
    {
        self.level
    }

    /// Frames since the session began.
    pub fn frame_count(&self) -> (r: u32)
        ensures
            r == self@.frame_count,
    {
        self.frame_count
    }

    /// Starts a new run: three lives, no points, level 1.
    pub fn reset(&mut self)
        ensures
            final(self)@ == reset_model(old(self)@),
    {
        proof {
            use_type_invariant(&*self);
        }
        *self = Session { lives: START_LIVES, score: 0, level: 1, ..*self };
    }

    /// Begins a frame: counts it and handles the space key on the title and
    /// game-over screens. Returns what the rest of the frame has to do.
    pub fn begin_frame(&mut self, space_pressed: bool) -> (step: FrameStep)
        requires
            old(self)@.frame_count < u32::MAX,
        ensures
            (final(self)@, step) == begin_frame_model(old(self)@, space_pressed),
    {
        proof {
            use_type_invariant(&*self);
        }
        let frame_count = self.frame_count + 1;
        match self.state {
            GameState::Title => {
                if space_pressed {
                    self.reset();
                    *self = Session { state: GameState::Playing, frame_count, ..*self };
                    FrameStep::NewRun
                } else {
                    *self = Session { frame_count, ..*self };
                    FrameStep::Wait
                }
            },
            GameState::Playing => {
                *self = Session { frame_count, ..*self };
                FrameStep::Play
            },
            GameState::GameOver => {
                if space_pressed {
                    *self = Session { state: GameState::Title, frame_count, ..*self };
                } else {
                    *self = Session { frame_count, ..*self };
                }
                FrameStep::Wait
            },
        }
    }

    /// Loses a life (a crash, or the fuel ran out). Returns whether the run
    /// goes on.
    pub fn lose_life(&mut self) -> (alive: bool)
        requires
            old(self)@.lives > i32::MIN,
        ensures
            final(self)@ == lose_life_model(old(self)@),
            alive == (final(self)@.lives > 0),
    {
        proof {
            use_type_invariant(&*self);
        }
        let lives = self.lives - 1;
        if lives <= 0 {
            let high_score = if self.score > self.high_score {
                self.score
            } else {
                self.high_score
            };
            *self = Session { lives, high_score, state: GameState::GameOver, ..*self };
            false
        } else {
            *self = Session { lives, ..*self };
            true
        }
    }

    /// Scores a picked-up fuel can.
    pub fn collect_fuel(&mut self)
        requires
            old(self)@.score + FUEL_POINTS <= i32::MAX,
        ensures
            final(self)@ == collect_fuel_model(old(self)@),
    {
        proof {
            use_type_invariant(&*self);
        }
        *self = Session { score: self.score + FUEL_POINTS, ..*self };
    }

    /// Ends a frame of play: scores a point and raises the level when the
    /// score passes 500 times the level. Returns whether the level went up.
    pub fn end_frame(&mut self) -> (level_up: bool)
        requires
            old(self)@.score < i32::MAX,
            old(self)@.level * (LEVEL_POINTS as int) <= i32::MAX,
        ensures
            final(self)@ == end_frame_model(old(self)@),
            level_up == (final(self)@.level == old(self)@.level + 1),
    {
        proof {
            use_type_invariant(&*self);
        }
        let score = self.score + 1;
        if score > self.level * LEVEL_POINTS {
            *self = Session { score, level: self.level + 1, ..*self };
            true
        } else {
            *self = Session { score, ..*self };
            false
        }
    }

    /// Plays the rules of one frame: a crash costs a life and ends the frame;
    /// otherwise each fuel can picked up scores, running out of fuel costs a
    /// life, and the frame scores its point and may raise the level.
    pub fn play_frame(&mut self, events: FrameEvents) -> (outcome: FrameOutcome)
        requires
            old(self)@.lives > i32::MIN,
            !events.crashed ==> old(self)@.score + FUEL_POINTS * events.fuel_cans + 1 <= i32::MAX,
            !events.crashed ==> old(self)@.level * (LEVEL_POINTS as int) <= i32::MAX,
        ensures
            final(self)@ == play_frame_model(old(self)@, events),
            outcome == play_frame_outcome(old(self)@, events),
    {
        proof {
            use_type_invariant(&*self);
        }
        let ghost start = self@;
        if events.crashed {
            let alive = self.lose_life();
            return FrameOutcome { respawn: alive, refuel: false, level_up: false };
        }
        let mut k: u32 = 0;
        while k < events.fuel_cans
            invariant
                k <= events.fuel_cans,
                self@ == collect_fuels_model(start, k as int),
                start.score + FUEL_POINTS * events.fuel_cans + 1 <= i32::MAX,
                start.score >= 0,
            decreases events.fuel_cans - k,
        {
            proof {
                assert(start.score + FUEL_POINTS * k + FUEL_POINTS <= start.score + FUEL_POINTS
                    * events.fuel_cans) by (nonlinear_arith)
                    requires
                        k < events.fuel_cans,
                ;
            }
            self.collect_fuel();
            k = k + 1;
        }
        let mut refuel = false;
        if events.out_of_fuel {
            refuel = self.lose_life();
        }
        let level_up = self.end_frame();
        FrameOutcome { respawn: false, refuel, level_up }
    }

    /// Whether blinking prompts show in this frame: they show for 30 frames,
    /// then hide for 30.
    pub fn blink_on(&self) -> (on: bool)
        ensures
            on == blink_visible(self@.frame_count),
    {
        (self.frame_count / 30) % 2 == 0
    }
}

/// A session starts in a state of the invariant, and every step keeps it.
pub proof fn lemma_steps_keep_wf(m: SessionModel, space_pressed: bool, e: FrameEvents)
    ensures
        model_wf(initial_model()),
        model_wf(m) ==> model_wf(reset_model(m)),
        model_wf(m) && m.frame_count < u32::MAX ==> model_wf(begin_frame_model(m, space_pressed).0),
        model_wf(m) ==> model_wf(lose_life_model(m)),
        model_wf(m) ==> model_wf(collect_fuel_model(m)),
        model_wf(m) ==> model_wf(end_frame_model(m)),
        model_wf(m) ==> model_wf(play_frame_model(m, e)),
{
}

/// The high score never goes down, and only the end of a run changes it:
/// then it is the higher of the old high score and the run's score.
pub proof fn lemma_high_score_never_decreases(m: SessionModel, space_pressed: bool)
    ensures
        reset_model(m).high_score == m.high_score,
        begin_frame_model(m, space_pressed).0.high_score == m.high_score,
        collect_fuel_model(m).high_score == m.high_score,
        end_frame_model(m).high_score == m.high_score,
        lose_life_model(m).high_score >= m.high_score,
        m.lives <= 1 ==> lose_life_model(m).state == GameState::GameOver
            && lose_life_model(m).high_score == (if m.score > m.high_score {
            m.score
        } else {
            m.high_score
        }),
        m.lives > 1 ==> lose_life_model(m).state == m.state && lose_life_model(m).high_score
            == m.high_score,
{
}

/// Space on the title screen starts a run with three lives, no points and
/// level 1, and keeps the high score.
pub proof fn lemma_new_run(m: SessionModel)
    requires
        m.state == GameState::Title,
    ensures
        ({
            let (n, step) = begin_frame_model(m, true);
            &&& step == FrameStep::NewRun
            &&& n.state == GameState::Playing
            &&& n.lives == START_LIVES
            &&& n.score == 0
            &&& n.level == 1
            &&& n.high_score == m.high_score
        }),
{
}

/// A run has three lives: of the lives lost from a run's start, the first two
/// leave it going and the third ends it. Picking up fuel and playing a frame
/// change neither the lives nor the screen.
pub proof fn lemma_three_lives(m: SessionModel)
    requires
        m.state == GameState::Playing,
        m.lives == START_LIVES,
    ensures
        lose_life_model(m).state == GameState::Playing,
        lose_life_model(lose_life_model(m)).state == GameState::Playing,
        lose_life_model(lose_life_model(lose_life_model(m))).state == GameState::GameOver,
        lose_life_model(lose_life_model(lose_life_model(m))).lives == 0,
        collect_fuel_model(m).lives == m.lives && collect_fuel_model(m).state == m.state,
        end_frame_model(m).lives == m.lives && end_frame_model(m).state == m.state,
{
}

/// The game-over screen is reached only by losing the last life, and left
/// only for the title screen by the space key.
pub proof fn lemma_game_over_screen(m: SessionModel, space_pressed: bool)
    requires
        model_wf(m),
    ensures
        m.state != GameState::GameOver && lose_life_model(m).state == GameState::GameOver ==> m.lives
            <= 1,
        m.state != GameState::GameOver ==> begin_frame_model(m, space_pressed).0.state
            != GameState::GameOver,
        m.state == GameState::GameOver ==> begin_frame_model(m, space_pressed).0.state == (if space_pressed {
            GameState::Title
        } else {
            GameState::GameOver
        }),
{
}

/// Within a run the level never goes down and rises by at most one per
/// frame, and it rises exactly when the score passes 500 times the level.
pub proof fn lemma_level_progress(m: SessionModel)
    ensures
        m.level <= end_frame_model(m).level <= m.level + 1,
        (end_frame_model(m).level == m.level + 1) == (m.score + 1 > m.level * (LEVEL_POINTS as int)),
        collect_fuel_model(m).level == m.level,
        lose_life_model(m).level == m.level,
{
}

/// Points of a frame of play: a crash scores nothing; otherwise the frame
/// scores one point and every fuel can picked up 50, whether or not the fuel
/// ran out.
pub proof fn lemma_frame_points(m: SessionModel, e: FrameEvents)
    ensures
        e.crashed ==> play_frame_model(m, e).score == m.score,
        !e.crashed ==> play_frame_model(m, e).score == m.score + FUEL_POINTS * e.fuel_cans + 1,
        play_frame_model(m, e).high_score >= m.high_score,
{
}

/// A frame of play tells the game to put the car back at its start exactly
/// when a crash leaves the run going, and to refuel exactly when running out
/// of fuel leaves the run going; a crash costs one life and nothing else.
pub proof fn lemma_frame_outcome(m: SessionModel, e: FrameEvents)
    ensures
        e.crashed ==> play_frame_model(m, e).lives == m.lives - 1,
        e.crashed ==> play_frame_model(m, e).score == m.score && play_frame_model(m, e).level == m.level,
        e.crashed ==> play_frame_outcome(m, e).respawn == (play_frame_model(m, e).lives > 0),
        e.crashed && m.state == GameState::Playing ==> play_frame_outcome(m, e).respawn == (play_frame_model(
            m,
            e,
        ).state == GameState::Playing),
        e.crashed ==> !play_frame_outcome(m, e).refuel && !play_frame_outcome(m, e).level_up,
        !e.crashed ==> !play_frame_outcome(m, e).respawn,
        !e.crashed ==> play_frame_model(m, e).lives == m.lives - (if e.out_of_fuel {
            1int
        } else {
            0int
        }),
        !e.crashed ==> play_frame_outcome(m, e).refuel == (e.out_of_fuel && play_frame_model(m, e).lives > 0),
        !e.crashed && m.state == GameState::Playing ==> play_frame_outcome(m, e).refuel == (e.out_of_fuel
            && play_frame_model(m, e).state == GameState::Playing),
        !e.crashed ==> play_frame_outcome(m, e).level_up == (play_frame_model(m, e).level > m.level),
        play_frame_model(m, e).frame_count == m.frame_count,
{
}

/// Beginning a frame counts it and reads the space key only on the title
/// and game-over screens: during play nothing but the frame counter
/// changes, whether or not space is pressed, and without space nothing but
/// the frame counter changes on any screen.
pub proof fn lemma_begin_frame_keys(m: SessionModel, space_pressed: bool)
    ensures
        m.state == GameState::Playing ==> (begin_frame_model(m, space_pressed) == (
            (SessionModel { frame_count: m.frame_count + 1, ..m }),
            FrameStep::Play,
        )),
        !space_pressed ==> (begin_frame_model(m, space_pressed).0 == (SessionModel {
            frame_count: m.frame_count + 1,
            ..m
        })),
        m.state == GameState::GameOver && space_pressed ==> (begin_frame_model(m, space_pressed).0
            == (SessionModel { frame_count: m.frame_count + 1, state: GameState::Title, ..m })),
        (begin_frame_model(m, space_pressed).1 == FrameStep::NewRun) == (m.state == GameState::Title
            && space_pressed),
        (begin_frame_model(m, space_pressed).1 == FrameStep::Play) == (m.state == GameState::Playing),
{
}

/// Each rule of play changes only what it is about: a fuel can adds 50
/// points, a frame's end adds a point and at most a level, losing a life
/// takes one life (and, with none left, ends the run and may raise the high
/// score); starting a run keeps the screen, high score and frame counter.
pub proof fn lemma_rules_change_only_their_part(m: SessionModel)
    ensures
        collect_fuel_model(m) == (SessionModel { score: m.score + 50, ..m }),
        end_frame_model(m).score == m.score + 1,
        (end_frame_model(m).level == m.level + 1) == (m.score + 1 > 500 * m.level),
        (end_frame_model(m).level == m.level) == (m.score + 1 <= 500 * m.level),
        end_frame_model(m) == (SessionModel { score: m.score + 1, level: end_frame_model(m).level, ..m }),
        lose_life_model(m).lives == m.lives - 1,
        lose_life_model(m) == (SessionModel {
            lives: m.lives - 1,
            state: lose_life_model(m).state,
            high_score: lose_life_model(m).high_score,
            ..m
        }),
        reset_model(m) == (SessionModel { lives: 3, score: 0, level: 1, ..m }),
{
}

/// Blinking prompts show for the first 30 frames, hide for the next 30,
/// and repeat every 60 frames.
pub proof fn lemma_blink_period(n: int)
    requires
        n >= 0,
    ensures
        0 <= n < 30 ==> blink_visible(n),
        30 <= n < 60 ==> !blink_visible(n),
        blink_visible(n + 60) == blink_visible(n),
{
    assert((n + 60) / 30 == n / 30 + 2);
}

} // verus!
