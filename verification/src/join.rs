//! Joining what two sensors saw at the same time.
use std::collections::HashMap;
use vstd::prelude::*;

use crate::text;

verus! {

/// One of the two sensors.
#[derive(Clone, Copy, Debug, PartialEq, Eq, Structural)]
pub enum Side {
    Camera,
    Lidar,
}

/// The side that an input of a dataflow belongs to, by its name.
pub open spec fn named_side(id: Seq<char>) -> Option<Side> {
    if id == "detections"@ {
        Some(Side::Camera)
    } else if id == "pointcloud"@ {
        Some(Side::Lidar)
    } else {
        None
    }
}

pub fn side_of(id: &str) -> (side: Option<Side>)
    ensures
        side == named_side(id@),
{
    if text::same_text(id, "detections") {
        Some(Side::Camera)
    } else if text::same_text(id, "pointcloud") {
        Some(Side::Lidar)
    } else {
        None
    }
}

/// What a join hears. Messages come with their timestamp.
pub enum JoinEvent<C, L> {
    Camera(i64, C),
    Lidar(i64, L),
    Closed(Side),
    Stop,
    Other,
}

/// What a join calls for.
#[derive(Debug)]
pub enum JoinAction<C, L> {
    Wait,
    Fuse(C, L),
    Finish,
}

/// What waits on either side, by timestamp, and which sides have ended.
pub struct JoinState<C, L> {
    pub cameras: Map<i64, C>,
    pub lidars: Map<i64, L>,
    pub camera_closed: bool,
    pub lidar_closed: bool,
}

impl<C, L> JoinState<C, L> {
    /// Nothing waits on both sides.
    pub open spec fn valid(self) -> bool {
        self.cameras.dom().disjoint(self.lidars.dom())
    }

    /// A camera message came: it goes out with the LiDAR message of its time, or
    /// waits for it in place of any camera message of that time.
    pub open spec fn with_camera(self, timestamp: i64, camera: C) -> JoinState<C, L> {
        if self.lidars.dom().contains(timestamp) {
            JoinState {
                cameras: self.cameras.remove(timestamp),
                lidars: self.lidars.remove(timestamp),
                ..self
            }
        } else {
            JoinState { cameras: self.cameras.insert(timestamp, camera), ..self }
        }
    }

    /// The same for a LiDAR message.
    pub open spec fn with_lidar(self, timestamp: i64, lidar: L) -> JoinState<C, L> {
        if self.cameras.dom().contains(timestamp) {
            JoinState {
                cameras: self.cameras.remove(timestamp),
                lidars: self.lidars.remove(timestamp),
                ..self
            }
        } else {
            JoinState { lidars: self.lidars.insert(timestamp, lidar), ..self }
        }
    }

    /// No more messages will come on this side.
    pub open spec fn with_closed(self, side: Side) -> JoinState<C, L> {
        match side {
            Side::Camera => JoinState { camera_closed: true, ..self },
            Side::Lidar => JoinState { lidar_closed: true, ..self },
        }
    }

    /// Both sides have ended.
    pub open spec fn finished(self) -> bool {
        self.camera_closed && self.lidar_closed
    }

    /// The state once an event was heard.
    pub open spec fn heard(self, event: JoinEvent<C, L>) -> JoinState<C, L> {
        match event {
            JoinEvent::Camera(timestamp, camera) => self.with_camera(timestamp, camera),
            JoinEvent::Lidar(timestamp, lidar) => self.with_lidar(timestamp, lidar),
            JoinEvent::Closed(side) => self.with_closed(side),
            JoinEvent::Stop => self,
            JoinEvent::Other => self,
        }
    }

    /// What an event calls for: a message goes out with the one of its time where
    /// that waits, and the run ends when it is stopped or both sides have ended.
    pub open spec fn action(self, event: JoinEvent<C, L>) -> JoinAction<C, L> {
        match event {
            JoinEvent::Camera(timestamp, camera) => if self.lidars.dom().contains(timestamp) {
                JoinAction::Fuse(camera, self.lidars[timestamp])
            } else {
                JoinAction::Wait
            },
            JoinEvent::Lidar(timestamp, lidar) => if self.cameras.dom().contains(timestamp) {
                JoinAction::Fuse(self.cameras[timestamp], lidar)
            } else {
                JoinAction::Wait
            },
            JoinEvent::Closed(side) => if self.with_closed(side).finished() {
                JoinAction::Finish
            } else {
                JoinAction::Wait
            },
            JoinEvent::Stop => JoinAction::Finish,
            JoinEvent::Other => JoinAction::Wait,
        }
    }
}

/// Pairs camera and LiDAR messages of one timestamp.
pub struct TimestampJoin<C, L> {
    cameras: HashMap<i64, C>,
    lidars: HashMap<i64, L>,
    camera_closed: bool,
    lidar_closed: bool,
}

impl<C, L> View for TimestampJoin<C, L> {
    type V = JoinState<C, L>;

    closed spec fn view(&self) -> JoinState<C, L> {
        JoinState {
            cameras: self.cameras@,
            lidars: self.lidars@,
            camera_closed: self.camera_closed,
            lidar_closed: self.lidar_closed,
        }
    }
}

impl<C, L> TimestampJoin<C, L> {
    pub fn new() -> (join: TimestampJoin<C, L>)
        ensures
            join@.valid(),
            join@ == (JoinState {
                cameras: Map::<i64, C>::empty(),
                lidars: Map::<i64, L>::empty(),
                camera_closed: false,
                lidar_closed: false,
            }),
    {
        TimestampJoin {
            cameras: HashMap::new(),
            lidars: HashMap::new(),
            camera_closed: false,
            lidar_closed: false,
        }
    }

    /// A camera message came. It goes out with the LiDAR message of its time,
    /// where that waits.
    pub fn camera(&mut self, timestamp: i64, camera: C) -> (pair: Option<(C, L)>)
        requires
            old(self)@.valid(),
        ensures
            final(self)@.valid(),
            final(self)@ == old(self)@.with_camera(timestamp, camera),
            pair == if old(self)@.lidars.dom().contains(timestamp) {
                Some((camera, old(self)@.lidars[timestamp]))
            } else {
                None
            },
    {
        broadcast use vstd::std_specs::hash::group_hash_axioms;

        match self.lidars.remove(&timestamp) {
            Some(lidar) => {
                let _ = self.cameras.remove(&timestamp);
                assert(self.cameras@ =~= old(self).cameras@.remove(timestamp));
                assert(self.lidars@ =~= old(self).lidars@.remove(timestamp));
                Some((camera, lidar))
            },
            None => {
                let _ = self.cameras.insert(timestamp, camera);
                assert(self.lidars@ =~= old(self).lidars@);
                None
            },
        }
    }

    /// A LiDAR message came. It goes out with the camera message of its time,
    /// where that waits.
    pub fn lidar(&mut self, timestamp: i64, lidar: L) -> (pair: Option<(C, L)>)
        requires
            old(self)@.valid(),
        ensures
            final(self)@.valid(),
            final(self)@ == old(self)@.with_lidar(timestamp, lidar),
            pair == if old(self)@.cameras.dom().contains(timestamp) {
                Some((old(self)@.cameras[timestamp], lidar))
            } else {
                None
            },
    {
        broadcast use vstd::std_specs::hash::group_hash_axioms;

        match self.cameras.remove(&timestamp) {
            Some(camera) => {
                let _ = self.lidars.remove(&timestamp);
                assert(self.cameras@ =~= old(self).cameras@.remove(timestamp));
                assert(self.lidars@ =~= old(self).lidars@.remove(timestamp));
                Some((camera, lidar))
            },
            None => {
                let _ = self.lidars.insert(timestamp, lidar);
                assert(self.cameras@ =~= old(self).cameras@);
                None
            },
        }
    }

    /// No more camera messages will come.
    pub fn close_camera(&mut self)
        ensures
            final(self)@ == (JoinState { camera_closed: true, ..old(self)@ }),
    {
        self.camera_closed = true;
    }

    /// No more LiDAR messages will come.
    pub fn close_lidar(&mut self)
        ensures
            final(self)@ == (JoinState { lidar_closed: true, ..old(self)@ }),
    {
        self.lidar_closed = true;
    }

    /// Whether both sides have ended.
    pub fn is_finished(&self) -> (finished: bool)
        ensures
            finished == self@.finished(),
    {
        self.camera_closed && self.lidar_closed
    }

    /// Hears an event, and says what to do about it.
    pub fn hear(&mut self, event: JoinEvent<C, L>) -> (action: JoinAction<C, L>)
        requires
            old(self)@.valid(),
            !old(self)@.finished(),
        ensures
            final(self)@.valid(),
            final(self)@ == old(self)@.heard(event),
            action == old(self)@.action(event),
    {
        let pair: Option<(C, L)> = match event {
            JoinEvent::Camera(timestamp, camera) => self.camera(timestamp, camera),
            JoinEvent::Lidar(timestamp, lidar) => self.lidar(timestamp, lidar),
            JoinEvent::Closed(Side::Camera) => {
                self.close_camera();
                None
            },
            JoinEvent::Closed(Side::Lidar) => {
                self.close_lidar();
                None
            },
            JoinEvent::Stop => return JoinAction::Finish,
            JoinEvent::Other => None,
        };
        match pair {
            Some((camera, lidar)) => JoinAction::Fuse(camera, lidar),
            None => if self.is_finished() {
                JoinAction::Finish
            } else {
                JoinAction::Wait
            },
        }
    }
}

/// What a join that heard these events is left with.
pub open spec fn state_after<C, L>(events: Seq<JoinEvent<C, L>>) -> JoinState<C, L>
    decreases events.len(),
{
    if events.len() == 0 {
        JoinState {
            cameras: Map::empty(),
            lidars: Map::empty(),
            camera_closed: false,
            lidar_closed: false,
        }
    } else {
        state_after(events.drop_last()).heard(events.last())
    }
}

/// The two messages came, and are of one time.
pub open spec fn came_together<C, L>(events: Seq<JoinEvent<C, L>>, camera: C, lidar: L) -> bool {
    exists|timestamp: i64|
        #![trigger events.contains(JoinEvent::Camera(timestamp, camera))]
        events.contains(JoinEvent::Camera(timestamp, camera)) && events.contains(
            JoinEvent::Lidar(timestamp, lidar),
        )
}

proof fn lemma_earlier_events_came<C, L>(events: Seq<JoinEvent<C, L>>)
    requires
        events.len() > 0,
    ensures
        events.contains(events.last()),
        forall|event: JoinEvent<C, L>|
            events.drop_last().contains(event) ==> #[trigger] events.contains(event),
{
    let earlier = events.drop_last();
    assert(events[events.len() - 1] == events.last());
    assert forall|event: JoinEvent<C, L>| earlier.contains(event) implies #[trigger] events.contains(
        event,
    ) by {
        let i = choose|i: int| 0 <= i < earlier.len() && earlier[i] == event;
        assert(events[i] == event);
    }
}

/// What waits has come, under the timestamp that it waits at.
pub proof fn law_what_waits_came<C, L>(events: Seq<JoinEvent<C, L>>, timestamp: i64)
    ensures
        state_after(events).cameras.dom().contains(timestamp) ==> events.contains(
            JoinEvent::Camera(timestamp, state_after(events).cameras[timestamp]),
        ),
        state_after(events).lidars.dom().contains(timestamp) ==> events.contains(
            JoinEvent::Lidar(timestamp, state_after(events).lidars[timestamp]),
        ),
    decreases events.len(),
{
    if events.len() > 0 {
        let earlier = events.drop_last();
        law_what_waits_came(earlier, timestamp);
        lemma_earlier_events_came(events);
    }
}

/// Whatever a join hears, the messages that it fuses came, and are of one time.
pub proof fn law_pairs_are_of_one_time<C, L>(
    events: Seq<JoinEvent<C, L>>,
    camera: C,
    lidar: L,
)
    requires
        events.len() > 0,
        state_after(events.drop_last()).action(events.last()) == JoinAction::Fuse(camera, lidar),
    ensures
        came_together(events, camera, lidar),
{
    let earlier = events.drop_last();
    let timestamp = match events.last() {
        JoinEvent::Camera(timestamp, _) => timestamp,
        JoinEvent::Lidar(timestamp, _) => timestamp,
        _ => 0,
    };
    law_what_waits_came(earlier, timestamp);
    lemma_earlier_events_came(events);
    assert(events.contains(JoinEvent::Camera(timestamp, camera)));
}

/// How many camera messages of a time came.
pub open spec fn cameras_at<C, L>(events: Seq<JoinEvent<C, L>>, timestamp: i64) -> nat
    decreases events.len(),
{
    if events.len() == 0 {
        0
    } else {
        let before = cameras_at(events.drop_last(), timestamp);
        match events.last() {
            JoinEvent::Camera(time, _) => if time == timestamp {
                before + 1
            } else {
                before
            },
            _ => before,
        }
    }
}

/// How many LiDAR messages of a time came.
pub open spec fn lidars_at<C, L>(events: Seq<JoinEvent<C, L>>, timestamp: i64) -> nat
    decreases events.len(),
{
    if events.len() == 0 {
        0
    } else {
        let before = lidars_at(events.drop_last(), timestamp);
        match events.last() {
            JoinEvent::Lidar(time, _) => if time == timestamp {
                before + 1
            } else {
                before
            },
            _ => before,
        }
    }
}

/// The time of a message.
pub open spec fn time_of<C, L>(event: JoinEvent<C, L>) -> Option<i64> {
    match event {
        JoinEvent::Camera(time, _) => Some(time),
        JoinEvent::Lidar(time, _) => Some(time),
        _ => None,
    }
}

/// How many pairs of a time were fused.
pub open spec fn fused_at<C, L>(events: Seq<JoinEvent<C, L>>, timestamp: i64) -> nat
    decreases events.len(),
{
    if events.len() == 0 {
        0
    } else {
        let before = fused_at(events.drop_last(), timestamp);
        if time_of(events.last()) == Some(timestamp) && state_after(events.drop_last()).action(
            events.last(),
        ) is Fuse {
            before + 1
        } else {
            before
        }
    }
}

/// A time that comes at most once on either side is fused exactly once where it
/// came on both and not at all where it did not; where it came on one side only,
/// it waits there.
pub proof fn law_each_time_is_fused_once<C, L>(events: Seq<JoinEvent<C, L>>, timestamp: i64)
    requires
        cameras_at(events, timestamp) <= 1,
        lidars_at(events, timestamp) <= 1,
    ensures
        fused_at(events, timestamp) == if cameras_at(events, timestamp) == 1 && lidars_at(
            events,
            timestamp,
        ) == 1 {
            1nat
        } else {
            0
        },
        state_after(events).cameras.dom().contains(timestamp) <==> cameras_at(events, timestamp)
            == 1 && lidars_at(events, timestamp) == 0,
        state_after(events).lidars.dom().contains(timestamp) <==> cameras_at(events, timestamp)
            == 0 && lidars_at(events, timestamp) == 1,
    decreases events.len(),
{
    if events.len() > 0 {
        law_each_time_is_fused_once(events.drop_last(), timestamp);
    }
}

/// A pair goes out whichever of its messages comes first, and leaves behind what
/// waited before.
pub proof fn law_join_takes_either_order<C, L>(
    state: JoinState<C, L>,
    timestamp: i64,
    camera: C,
    lidar: L,
)
    requires
        state.valid(),
        !state.cameras.dom().contains(timestamp),
        !state.lidars.dom().contains(timestamp),
    ensures
        state.with_camera(timestamp, camera).cameras.dom().contains(timestamp),
        state.with_camera(timestamp, camera).cameras[timestamp] == camera,
        state.with_lidar(timestamp, lidar).lidars.dom().contains(timestamp),
        state.with_lidar(timestamp, lidar).lidars[timestamp] == lidar,
        state.with_camera(timestamp, camera).with_lidar(timestamp, lidar) == state,
        state.with_lidar(timestamp, lidar).with_camera(timestamp, camera) == state,
{
    assert(state.with_camera(timestamp, camera).with_lidar(timestamp, lidar).cameras
        =~= state.cameras);
    assert(state.with_camera(timestamp, camera).with_lidar(timestamp, lidar).lidars
        =~= state.lidars);
    assert(state.with_lidar(timestamp, lidar).with_camera(timestamp, camera).cameras
        =~= state.cameras);
    assert(state.with_lidar(timestamp, lidar).with_camera(timestamp, camera).lidars
        =~= state.lidars);
}

/// Whatever comes, nothing waits on both sides: a pair goes out as soon as its
/// second message comes.
pub proof fn law_no_pair_waits<C, L>(
    state: JoinState<C, L>,
    timestamp: i64,
    camera: C,
    lidar: L,
)
    requires
        state.valid(),
    ensures
        state.with_camera(timestamp, camera).valid(),
        state.with_lidar(timestamp, lidar).valid(),
{
}

/// The input `detections` is the camera's and `pointcloud` the LiDAR's; no other
/// input belongs to a side.
pub proof fn law_inputs_belong_to_sides(id: Seq<char>)
    ensures
        named_side(id) == Some(Side::Camera) <==> id == "detections"@,
        named_side(id) == Some(Side::Lidar) <==> id == "pointcloud"@,
{
    reveal_strlit("detections");
    reveal_strlit("pointcloud");
    assert("detections"@[0] == 'd' && "pointcloud"@[0] == 'p');
}

/// A side has ended exactly where its end was heard.
pub proof fn law_sides_end_when_they_close<C, L>(events: Seq<JoinEvent<C, L>>)
    ensures
        state_after(events).camera_closed <==> events.contains(
            JoinEvent::<C, L>::Closed(Side::Camera),
        ),
        state_after(events).lidar_closed <==> events.contains(
            JoinEvent::<C, L>::Closed(Side::Lidar),
        ),
    decreases events.len(),
{
    if events.len() > 0 {
        let earlier = events.drop_last();
        law_sides_end_when_they_close(earlier);
        lemma_earlier_events_came(events);
        if events.contains(JoinEvent::<C, L>::Closed(Side::Camera)) {
            lemma_came_earlier_or_last(events, JoinEvent::<C, L>::Closed(Side::Camera));
        }
        if events.contains(JoinEvent::<C, L>::Closed(Side::Lidar)) {
            lemma_came_earlier_or_last(events, JoinEvent::<C, L>::Closed(Side::Lidar));
        }
    }
}

proof fn lemma_came_earlier_or_last<C, L>(events: Seq<JoinEvent<C, L>>, event: JoinEvent<C, L>)
    requires
        events.len() > 0,
        events.contains(event),
    ensures
        events.last() == event || events.drop_last().contains(event),
{
    let i = choose|i: int| 0 <= i < events.len() && events[i] == event;
    if i < events.len() - 1 {
        assert(events.drop_last()[i] == event);
    }
}

/// A join ends when it is stopped, or when the second of its two sides ends, and at
/// nothing else.
pub proof fn law_joins_end_with_both_sides<C, L>(state: JoinState<C, L>, event: JoinEvent<C, L>)
    requires
        !(state.camera_closed && state.lidar_closed),
    ensures
        state.action(event) is Finish <==> {
            ||| event is Stop
            ||| event == JoinEvent::<C, L>::Closed(Side::Camera) && state.lidar_closed
            ||| event == JoinEvent::<C, L>::Closed(Side::Lidar) && state.camera_closed
        },
{
}

/// Of several messages of one time the latest waits, and what waits at other times
/// stays.
pub proof fn law_the_latest_message_waits<C, L>(
    state: JoinState<C, L>,
    timestamp: i64,
    first: C,
    latest: C,
    other: i64,
)
    requires
        state.valid(),
        !state.lidars.dom().contains(timestamp),
        other != timestamp,
    ensures
        ({
            let after = state.with_camera(timestamp, first).with_camera(timestamp, latest);
            &&& after.cameras.dom().contains(timestamp) && after.cameras[timestamp] == latest
            &&& after.cameras.dom().contains(other) <==> state.cameras.dom().contains(other)
            &&& state.cameras.dom().contains(other) ==> after.cameras[other]
                == state.cameras[other]
            &&& after.lidars == state.lidars
        }),
{
}

/// The same holds of the LiDAR's messages.
pub proof fn law_the_latest_lidar_message_waits<C, L>(
    state: JoinState<C, L>,
    timestamp: i64,
    first: L,
    latest: L,
    other: i64,
)
    requires
        state.valid(),
        !state.cameras.dom().contains(timestamp),
        other != timestamp,
    ensures
        ({
            let after = state.with_lidar(timestamp, first).with_lidar(timestamp, latest);
            &&& after.lidars.dom().contains(timestamp) && after.lidars[timestamp] == latest
            &&& after.lidars.dom().contains(other) <==> state.lidars.dom().contains(other)
            &&& state.lidars.dom().contains(other) ==> after.lidars[other] == state.lidars[other]
            &&& after.cameras == state.cameras
        }),
{
}

} // verus!
