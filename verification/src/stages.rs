//! Pairing what two stages hand over, each in its own order.
use vstd::prelude::*;

use crate::join::Side;

verus! {

/// What fusion hears from the stage that it listens to.
pub enum StageEvent<C, L> {
    Camera(C),
    Lidar(L),
    /// The stage has ended.
    Ended,
}

/// What fusion is to do.
#[derive(Debug)]
pub enum StageAction<C, L> {
    /// Listen on.
    Wait,
    Fuse(C, L),
    /// The camera stage has ended: the run is complete.
    Finish,
    /// The LiDAR stage has ended before the camera stage.
    Fail,
}

/// What fusion is at: the camera frame that waits for its LiDAR frame.
pub struct StageState<C> {
    pub waiting: Option<C>,
}

impl<C> StageState<C> {
    /// The stage that fusion listens to: the camera's, and for each of its frames
    /// the LiDAR's.
    pub open spec fn listens_to(self) -> Side {
        if self.waiting is Some {
            Side::Lidar
        } else {
            Side::Camera
        }
    }

    /// The event can come from the stage that fusion listens to.
    pub open spec fn can_hear<L>(self, event: StageEvent<C, L>) -> bool {
        match event {
            StageEvent::Camera(_) => self.listens_to() == Side::Camera,
            StageEvent::Lidar(_) => self.listens_to() == Side::Lidar,
            StageEvent::Ended => true,
        }
    }

    /// The state once an event was heard.
    pub open spec fn heard<L>(self, event: StageEvent<C, L>) -> StageState<C> {
        match event {
            StageEvent::Camera(camera) => StageState { waiting: Some(camera) },
            StageEvent::Lidar(_) => StageState { waiting: None },
            StageEvent::Ended => self,
        }
    }

    /// What an event calls for.
    pub open spec fn action<L>(self, event: StageEvent<C, L>) -> StageAction<C, L> {
        match (event, self.waiting) {
            (StageEvent::Camera(_), _) => StageAction::Wait,
            (StageEvent::Lidar(lidar), Some(camera)) => StageAction::Fuse(camera, lidar),
            (StageEvent::Lidar(_), None) => StageAction::Wait,
            (StageEvent::Ended, Some(_)) => StageAction::Fail,
            (StageEvent::Ended, None) => StageAction::Finish,
        }
    }
}

/// Pairs each camera frame with the LiDAR frame that comes as its turn.
pub struct StagePairing<C> {
    waiting: Option<C>,
}

impl<C> View for StagePairing<C> {
    type V = StageState<C>;

    closed spec fn view(&self) -> StageState<C> {
        StageState { waiting: self.waiting }
    }
}

impl<C> StagePairing<C> {
    pub fn new() -> (pairing: StagePairing<C>)
        ensures
            pairing@ == (StageState::<C> { waiting: None }),
    {
        StagePairing { waiting: None }
    }

    /// The stage to listen to.
    pub fn listens_to(&self) -> (side: Side)
        ensures
            side == self@.listens_to(),
    {
        if self.waiting.is_some() {
            Side::Lidar
        } else {
            Side::Camera
        }
    }

    /// Hears an event of the stage that is listened to, and says what to do.
    pub fn hear<L>(&mut self, event: StageEvent<C, L>) -> (action: StageAction<C, L>)
        requires
            old(self)@.can_hear(event),
        ensures
            final(self)@ == old(self)@.heard(event),
            action == old(self)@.action(event),
    {
        match event {
            StageEvent::Camera(camera) => {
                self.waiting = Some(camera);
                StageAction::Wait
            },
            StageEvent::Lidar(lidar) => match self.waiting.take() {
                Some(camera) => StageAction::Fuse(camera, lidar),
                None => StageAction::Wait,
            },
            StageEvent::Ended => if self.waiting.is_some() {
                StageAction::Fail
            } else {
                StageAction::Finish
            },
        }
    }
}

/// What a stage gives next: the frame at a place, or its end.
pub open spec fn next_event<C, L>(
    state: StageState<C>,
    cameras: Seq<C>,
    lidars: Seq<L>,
    at: int,
) -> StageEvent<C, L> {
    match state.listens_to() {
        Side::Camera => if at < cameras.len() {
            StageEvent::Camera(cameras[at])
        } else {
            StageEvent::Ended
        },
        Side::Lidar => if at < lidars.len() {
            StageEvent::Lidar(lidars[at])
        } else {
            StageEvent::Ended
        },
    }
}

/// How a run ends: what was fused, in turn, and whether it is complete.
pub struct StageRun<C, L> {
    pub pairs: Seq<(C, L)>,
    pub complete: bool,
}

/// The rest of a run over these frames from a place on. Each stage gives its
/// frames in turn, and `fused` was fused before.
pub open spec fn run_from<C, L>(
    cameras: Seq<C>,
    lidars: Seq<L>,
    state: StageState<C>,
    at: int,
    fused: Seq<(C, L)>,
) -> StageRun<C, L>
    decreases 2 * (cameras.len() + lidars.len() - at) + (if state.waiting is Some {
        0int
    } else {
        1
    }),
    when at >= 0
{
    let event = next_event(state, cameras, lidars, at);
    match state.action(event) {
        StageAction::Wait => if event is Camera {
            run_from(cameras, lidars, state.heard(event), at, fused)
        } else {
            StageRun { pairs: fused, complete: false }
        },
        StageAction::Fuse(camera, lidar) => run_from(
            cameras,
            lidars,
            state.heard(event),
            at + 1,
            fused.push((camera, lidar)),
        ),
        StageAction::Finish => StageRun { pairs: fused, complete: true },
        StageAction::Fail => StageRun { pairs: fused, complete: false },
    }
}

/// A run over these frames, from its start.
pub open spec fn run_over<C, L>(cameras: Seq<C>, lidars: Seq<L>) -> StageRun<C, L> {
    run_from(cameras, lidars, StageState { waiting: None }, 0, Seq::empty())
}

/// The first frames of both stages, the first with the first and so on.
pub open spec fn first_pairs<C, L>(cameras: Seq<C>, lidars: Seq<L>, count: nat) -> Seq<(C, L)> {
    Seq::new(count, |k: int| (cameras[k], lidars[k]))
}

/// Frames are fused in their turn, each camera frame with the LiDAR frame of the
/// same number. A run is complete if and only if there is a LiDAR frame for each
/// camera frame; then it has one pair for each camera frame.
pub proof fn law_frames_are_paired_in_turn<C, L>(cameras: Seq<C>, lidars: Seq<L>)
    ensures
        run_over(cameras, lidars).complete <==> cameras.len() <= lidars.len(),
        cameras.len() <= lidars.len() ==> run_over(cameras, lidars).pairs == first_pairs(
            cameras,
            lidars,
            cameras.len(),
        ),
        cameras.len() > lidars.len() ==> run_over(cameras, lidars).pairs == first_pairs(
            cameras,
            lidars,
            lidars.len(),
        ),
{
    assert(first_pairs(cameras, lidars, 0) =~= Seq::empty());
    lemma_run_from(cameras, lidars, 0);
}

proof fn lemma_run_from<C, L>(cameras: Seq<C>, lidars: Seq<L>, at: int)
    requires
        0 <= at <= cameras.len(),
        at <= lidars.len(),
    ensures
        ({
            let run = run_from(
                cameras,
                lidars,
                StageState { waiting: None },
                at,
                first_pairs(cameras, lidars, at as nat),
            );
            &&& run.complete <==> cameras.len() <= lidars.len()
            &&& cameras.len() <= lidars.len() ==> run.pairs == first_pairs(
                cameras,
                lidars,
                cameras.len(),
            )
            &&& cameras.len() > lidars.len() ==> run.pairs == first_pairs(
                cameras,
                lidars,
                lidars.len(),
            )
        }),
    decreases cameras.len() - at,
{
    reveal_with_fuel(run_from, 3);
    if at < cameras.len() && at < lidars.len() {
        lemma_run_from(cameras, lidars, at + 1);
        assert(first_pairs(cameras, lidars, at as nat).push((cameras[at], lidars[at]))
            =~= first_pairs(cameras, lidars, (at + 1) as nat));
    }
}

} // verus!
