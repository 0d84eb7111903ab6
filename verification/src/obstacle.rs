use rand::rngs::StdRng;
use rand::Rng;
use vstd::prelude::*;

verus! {

/// Score from which star obstacles may appear.
pub const BIRD_SCORE_THRESHOLD: u32 = 180;

/// The obstacles that can be spawned.
#[derive(Debug, Clone, Copy, PartialEq, Eq, Structural)]
pub enum ObstacleKind {
    SmallCactus,
    LargeCactus,
    CactusCluster,
    BirdLow,
    BirdHigh,
}

impl ObstacleKind {
    /// The flying (star) obstacles.
    pub open spec fn is_bird(self) -> bool {
        self is BirdLow || self is BirdHigh
    }
}

/// The kind picked for a percent roll in `0..100` at a given score.
pub open spec fn spec_kind_for_roll(roll: int, score: int) -> ObstacleKind {
    if score >= BIRD_SCORE_THRESHOLD && roll >= 74 {
        if roll % 2 == 0 {
            ObstacleKind::BirdLow
        } else {
            ObstacleKind::BirdHigh
        }
    } else if roll >= 48 {
        ObstacleKind::CactusCluster
    } else if roll >= 20 {
        ObstacleKind::LargeCactus
    } else {
        ObstacleKind::SmallCactus
    }
}

#[verifier::external_type_specification]
#[verifier::external_body]
pub struct ExStdRng(StdRng);

/// Calls `rand::Rng::gen_range(0..100)` on the generator. The contract claims
/// only that the sample lies in the half-open range; which value comes out
/// depends on the generator's state and is left unsaid.
#[verifier::external_body]
fn roll_percent(rng: &mut StdRng) -> (roll: i32)
    ensures
        0 <= roll < 100,
{
    rng.gen_range(0..100)
}

/// Picks the obstacle kind for a roll already drawn in `0..100`.
pub fn kind_for_roll(roll: i32, score: u32) -> (kind: ObstacleKind)
    ensures
        kind == spec_kind_for_roll(roll as int, score as int),
        kind.is_bird() <==> score >= 180 && roll >= 74,
        score >= 180 && roll >= 74 && roll % 2 == 0 ==> kind == ObstacleKind::BirdLow,
        score >= 180 && roll >= 74 && roll % 2 != 0 ==> kind == ObstacleKind::BirdHigh,
        !(score >= 180 && roll >= 74) && roll >= 48 ==> kind == ObstacleKind::CactusCluster,
        20 <= roll < 48 ==> kind == ObstacleKind::LargeCactus,
        roll < 20 ==> kind == ObstacleKind::SmallCactus,
{
    let bird_allowed = score >= BIRD_SCORE_THRESHOLD;
    if bird_allowed && roll >= 74 {
        if roll % 2 == 0 {
            ObstacleKind::BirdLow
        } else {
            ObstacleKind::BirdHigh
        }
    } else if roll >= 48 {
        ObstacleKind::CactusCluster
    } else if roll >= 20 {
        ObstacleKind::LargeCactus
    } else {
        ObstacleKind::SmallCactus
    }
}

/// Draws a percent roll from `rng` and picks the next obstacle kind for the
/// current score. Stars never come before `BIRD_SCORE_THRESHOLD`.
pub fn choose_obstacle_kind(rng: &mut StdRng, score: u32) -> (kind: ObstacleKind)
    ensures
        exists|roll: int| 0 <= roll < 100 && kind == #[trigger] spec_kind_for_roll(roll, score as int),
        score < BIRD_SCORE_THRESHOLD ==> !kind.is_bird(),
        score < 180 ==> !(kind is BirdLow) && !(kind is BirdHigh),
{
    let roll = roll_percent(rng);
    let kind = kind_for_roll(roll, score);
    assert(spec_kind_for_roll(roll as int, score as int) == kind);
    kind
}

/// What the spawner does on a frame.
#[derive(Debug, Clone, Copy, PartialEq, Eq, Structural)]
pub enum SpawnStep {
    /// The spawn timer has not run out yet.
    NotYet,
    /// The last obstacle is still too close to the right edge: retry shortly.
    WaitForGap,
    /// Penalty mode: send a wall of stars.
    StarBurst,
    /// Spawn one obstacle of a kind chosen by `choose_obstacle_kind`.
    Single,
}

/// Decides the spawner's step from the frame's checks: whether the spawn
/// timer is still running, whether the last obstacle leaves too small a gap,
/// whether the game is in penalty mode and whether a star burst is due.
pub fn spawn_step(timer_running: bool, gap_too_small: bool, penalty_mode: bool, burst_due: bool) -> (step: SpawnStep)
    ensures
        step == if timer_running {
            SpawnStep::NotYet
        } else if gap_too_small {
            SpawnStep::WaitForGap
        } else if penalty_mode && burst_due {
            SpawnStep::StarBurst
        } else {
            SpawnStep::Single
        },
{
    if timer_running {
        SpawnStep::NotYet
    } else if gap_too_small {
        SpawnStep::WaitForGap
    } else if penalty_mode && burst_due {
        SpawnStep::StarBurst
    } else {
        SpawnStep::Single
    }
}

} // verus!
