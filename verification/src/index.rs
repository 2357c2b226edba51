//! What was seen, by timestamp.
use std::collections::HashMap;
use vstd::prelude::*;

use crate::columns::ColumnError;
use crate::frames::LidarFrame;
use crate::fusion::{self, BoxRow, Detection};
#[allow(unused_imports)]
use crate::fusion::BoxColumns;
use crate::table::Batch;

verus! {

/// The range images of a file by timestamp, the last of each.
pub struct FrameIndex {
    frames: HashMap<i64, LidarFrame>,
}

impl View for FrameIndex {
    type V = Map<i64, LidarFrame>;

    closed spec fn view(&self) -> Map<i64, LidarFrame> {
        self.frames@
    }
}

impl FrameIndex {
    pub fn new() -> (index: FrameIndex)
        ensures
            index@ == Map::<i64, LidarFrame>::empty(),
    {
        FrameIndex { frames: HashMap::new() }
    }

    /// Adds a range image, in place of any of its timestamp.
    pub fn insert(&mut self, frame: LidarFrame)
        ensures
            final(self)@ == old(self)@.insert(frame.timestamp, frame),
    {
        broadcast use vstd::std_specs::hash::group_hash_axioms;

        let _ = self.frames.insert(frame.timestamp, frame);
    }

    /// The range image of a timestamp.
    pub fn get(&self, timestamp: i64) -> (frame: Option<&LidarFrame>)
        ensures
            match frame {
                Some(frame) => self@.dom().contains(timestamp) && *frame == self@[timestamp],
                None => !self@.dom().contains(timestamp),
            },
    {
        broadcast use vstd::std_specs::hash::group_hash_axioms;

        self.frames.get(&timestamp)
    }
}

/// The boxes of a file by timestamp, in the order in which they came.
pub struct BoxIndex {
    boxes: HashMap<i64, Vec<Detection>>,
}

impl View for BoxIndex {
    type V = Map<i64, Seq<Detection>>;

    closed spec fn view(&self) -> Map<i64, Seq<Detection>> {
        self.boxes@.map_values(|boxes: Vec<Detection>| boxes@)
    }
}

/// The boxes of a timestamp, none where there is no entry.
pub open spec fn boxes_of(index: Map<i64, Seq<Detection>>, timestamp: i64) -> Seq<Detection> {
    if index.dom().contains(timestamp) {
        index[timestamp]
    } else {
        Seq::empty()
    }
}

impl BoxIndex {
    pub fn new() -> (index: BoxIndex)
        ensures
            index@ == Map::<i64, Seq<Detection>>::empty(),
    {
        let index = BoxIndex { boxes: HashMap::new() };
        assert(index@ =~= Map::<i64, Seq<Detection>>::empty());
        index
    }

    /// Adds a box behind those of its timestamp.
    pub fn add(&mut self, timestamp: i64, found: Detection)
        ensures
            final(self)@ == old(self)@.insert(
                timestamp,
                boxes_of(old(self)@, timestamp).push(found),
            ),
    {
        broadcast use vstd::std_specs::hash::group_hash_axioms;

        let mut boxes: Vec<Detection> = match self.boxes.remove(&timestamp) {
            Some(boxes) => boxes,
            None => Vec::new(),
        };
        assert(boxes@ == boxes_of(old(self)@, timestamp));
        boxes.push(found);
        let _ = self.boxes.insert(timestamp, boxes);
        assert(self@ =~= old(self)@.insert(
            timestamp,
            boxes_of(old(self)@, timestamp).push(found),
        ));
    }

    /// A copy of the boxes of a timestamp.
    pub fn at(&self, timestamp: i64) -> (boxes: Vec<Detection>)
        ensures
            boxes@ == boxes_of(self@, timestamp),
    {
        broadcast use vstd::std_specs::hash::group_hash_axioms;

        match self.boxes.get(&timestamp) {
            Some(boxes) => fusion::copy_detections(boxes),
            None => Vec::new(),
        }
    }
}

/// The detection is the box in a row of the table, with the corner that `near`
/// gives for its center and size.
pub open spec fn is_placed<F: Fn(u64, u64) -> u64>(
    near: F,
    columns: BoxColumns,
    row: int,
    placed: Detection,
) -> bool {
    &&& placed.id@ == columns.ids[row]
    &&& placed.kind@ == fusion::object_type_text(columns.kinds[row])
    &&& call_ensures(near, (columns.center_x[row], columns.width[row]), placed.x)
    &&& call_ensures(near, (columns.center_y[row], columns.height[row]), placed.y)
    &&& placed.width == columns.width[row]
    &&& placed.height == columns.height[row]
    &&& placed.depth_m is None
    &&& placed.depth_points == 0
    &&& placed.score is None
}

/// The detections are the boxes in these rows, in turn.
pub open spec fn are_placed<F: Fn(u64, u64) -> u64>(
    near: F,
    columns: BoxColumns,
    rows: Seq<int>,
    placed: Seq<Detection>,
) -> bool {
    &&& placed.len() == rows.len()
    &&& forall|i: int|
        0 <= i < rows.len() ==> is_placed(near, columns, rows[i], #[trigger] placed[i])
}

/// An index with the boxes of these rows behind those that it had.
pub open spec fn with_boxes(
    index: Map<i64, Seq<Detection>>,
    columns: BoxColumns,
    rows: Seq<int>,
    placed: Seq<Detection>,
) -> Map<i64, Seq<Detection>>
    decreases rows.len(),
{
    if rows.len() == 0 {
        index
    } else {
        let before = with_boxes(index, columns, rows.drop_last(), placed.drop_last());
        let timestamp = columns.timestamps[rows.last()];
        before.insert(timestamp, boxes_of(before, timestamp).push(placed.last()))
    }
}

/// Adds the front camera's boxes in a table to an index. `near` gives the corner
/// of a box along one axis, for its center and its size.
pub fn read_all_boxes<F: Fn(u64, u64) -> u64>(
    index: &mut BoxIndex,
    batch: &Batch,
    near: F,
) -> (read: Result<(), ColumnError>)
    requires
        batch@.valid(),
        forall|center: u64, size: u64| #[trigger] call_requires(near, (center, size)),
    ensures
        match (read, fusion::box_columns(batch@)) {
            (Ok(_), Ok(columns)) => {
                let rows = columns.wanted_rows(None, batch@.rows as int);
                exists|placed: Seq<Detection>| #[trigger]
                    are_placed(near, columns, rows, placed) && final(index)@ == with_boxes(
                        old(index)@,
                        columns,
                        rows,
                        placed,
                    )
            },
            (Err(error), Err(fault)) => error@ == fault && final(index)@ == old(index)@,
            _ => false,
        },
{
    let boxes: Vec<BoxRow> = match fusion::read_boxes(batch, None) {
        Ok(boxes) => boxes,
        Err(error) => return Err(error),
    };
    let ghost columns = fusion::box_columns(batch@)->Ok_0;
    let ghost rows = columns.wanted_rows(None, batch@.rows as int);
    let ghost found = boxes@;
    let ghost mut placed: Seq<Detection> = Seq::empty();
    assert(rows.take(0) =~= Seq::empty());
    for row in iter: boxes
        invariant
            iter.seq() == found,
            found.len() == rows.len(),
            forall|i: int| 0 <= i < rows.len() ==> columns.has_box(rows[i], #[trigger] found[i]),
            forall|center: u64, size: u64| #[trigger] call_requires(near, (center, size)),
            are_placed(near, columns, rows.take(iter.index() as int), placed),
            index@ == with_boxes(
                old(index)@,
                columns,
                rows.take(iter.index() as int),
                placed,
            ),
    {
        let ghost at = iter.index() as int;
        let timestamp: i64 = row.timestamp;
        let x: u64 = near(row.center_x, row.width);
        let y: u64 = near(row.center_y, row.height);
        let detection: Detection = row.into_detection(x, y);
        proof {
            assert(columns.has_box(rows[at], found[at]));
            let before = rows.take(at);
            let after = rows.take(at + 1);
            let more = placed.push(detection);
            assert(after.drop_last() =~= before);
            assert(more.drop_last() =~= placed);
            assert forall|i: int| 0 <= i < after.len() implies is_placed(
                near,
                columns,
                after[i],
                #[trigger] more[i],
            ) by {
                if i < at {
                    assert(more[i] == placed[i]);
                    assert(after[i] == before[i]);
                }
            }
            placed = more;
        }
        index.add(timestamp, detection);
    }
    assert(rows.take(rows.len() as int) =~= rows);
    Ok(())
}

/// The boxes whose rows are of a timestamp, in order.
pub open spec fn boxes_at(
    columns: BoxColumns,
    rows: Seq<int>,
    placed: Seq<Detection>,
    timestamp: i64,
) -> Seq<Detection>
    decreases rows.len(),
{
    if rows.len() == 0 {
        Seq::empty()
    } else {
        let before = boxes_at(columns, rows.drop_last(), placed.drop_last(), timestamp);
        if columns.timestamps[rows.last()] == timestamp {
            before.push(placed.last())
        } else {
            before
        }
    }
}

/// Behind what an index had of a timestamp come the boxes of the rows of that
/// timestamp, in order.
pub proof fn law_boxes_keep_their_order(
    index: Map<i64, Seq<Detection>>,
    columns: BoxColumns,
    rows: Seq<int>,
    placed: Seq<Detection>,
    timestamp: i64,
)
    requires
        placed.len() == rows.len(),
    ensures
        boxes_of(with_boxes(index, columns, rows, placed), timestamp) == boxes_of(
            index,
            timestamp,
        ) + boxes_at(columns, rows, placed, timestamp),
    decreases rows.len(),
{
    let had = boxes_of(index, timestamp);
    if rows.len() > 0 {
        let before = boxes_at(columns, rows.drop_last(), placed.drop_last(), timestamp);
        law_boxes_keep_their_order(
            index,
            columns,
            rows.drop_last(),
            placed.drop_last(),
            timestamp,
        );
        assert((had + before).push(placed.last()) =~= had + before.push(placed.last()));
    } else {
        assert(had + Seq::empty() =~= had);
    }
}

/// The boxes of one time that are read from a table are those that an index of the
/// whole table adds at that time, in the same order.
pub proof fn law_boxes_of_one_time<F: Fn(u64, u64) -> u64>(
    near: F,
    columns: BoxColumns,
    end: int,
    placed: Seq<Detection>,
    timestamp: i64,
)
    requires
        are_placed(near, columns, columns.wanted_rows(None, end), placed),
    ensures
        are_placed(
            near,
            columns,
            columns.wanted_rows(Some(timestamp), end),
            boxes_at(columns, columns.wanted_rows(None, end), placed, timestamp),
        ),
    decreases end,
{
    if end > 0 {
        let rows = columns.wanted_rows(None, end);
        let some = columns.wanted_rows(Some(timestamp), end);
        if columns.wanted(end - 1, None) {
            let fewer = placed.drop_last();
            assert(rows.drop_last() =~= columns.wanted_rows(None, end - 1));
            assert forall|i: int| 0 <= i < fewer.len() implies is_placed(
                near,
                columns,
                columns.wanted_rows(None, end - 1)[i],
                #[trigger] fewer[i],
            ) by {
                assert(fewer[i] == placed[i]);
            }
            law_boxes_of_one_time(near, columns, end - 1, fewer, timestamp);
            assert(is_placed(near, columns, rows[rows.len() - 1], placed[rows.len() - 1]));
            let boxes = boxes_at(columns, rows, placed, timestamp);
            assert forall|i: int| 0 <= i < boxes.len() implies is_placed(
                near,
                columns,
                some[i],
                #[trigger] boxes[i],
            ) by {
                let earlier = boxes_at(columns, rows.drop_last(), fewer, timestamp);
                if i < earlier.len() {
                    assert(boxes[i] == earlier[i]);
                }
            }
        } else {
            law_boxes_of_one_time(near, columns, end - 1, placed, timestamp);
        }
    }
}

/// A box that is read lies at the corner that `near` gives, across for its center
/// and its width, and down for its center and its height; the rest is that of its
/// row, and it has neither depth nor score.
pub proof fn law_boxes_lie_around_their_centers<F: Fn(u64, u64) -> u64>(
    near: F,
    columns: BoxColumns,
    row: int,
    placed: Detection,
)
    requires
        is_placed(near, columns, row, placed),
    ensures
        exists|left: u64|
            placed.x == left && #[trigger] call_ensures(
                near,
                (columns.center_x[row], placed.width),
                left,
            ),
        exists|top: u64|
            placed.y == top && #[trigger] call_ensures(
                near,
                (columns.center_y[row], placed.height),
                top,
            ),
        placed.width == columns.width[row],
        placed.height == columns.height[row],
        placed.id@ == columns.ids[row],
        placed.kind@ == fusion::object_type_text(columns.kinds[row]),
        placed.depth_m is None,
        placed.depth_points == 0,
        placed.score is None,
{
    assert(call_ensures(near, (columns.center_x[row], placed.width), placed.x));
    assert(call_ensures(near, (columns.center_y[row], placed.height), placed.y));
}

/// Boxes are found under the time of their row and under no other.
pub proof fn law_boxes_are_found_at_their_time(
    columns: BoxColumns,
    rows: Seq<int>,
    placed: Seq<Detection>,
    i: int,
    timestamp: i64,
)
    requires
        placed.len() == rows.len(),
        0 <= i < rows.len(),
    ensures
        columns.timestamps[rows[i]] == timestamp ==> boxes_of(
            with_boxes(Map::empty(), columns, rows, placed),
            timestamp,
        ).contains(placed[i]),
        (forall|k: int| 0 <= k < rows.len() ==> columns.timestamps[#[trigger] rows[k]] != timestamp)
            ==> boxes_of(with_boxes(Map::empty(), columns, rows, placed), timestamp).len() == 0,
    decreases rows.len(),
{
    law_boxes_keep_their_order(Map::empty(), columns, rows, placed, timestamp);
    let found = boxes_at(columns, rows, placed, timestamp);
    assert(Seq::<Detection>::empty() + found =~= found);
    lemma_boxes_at(columns, rows, placed, timestamp, i);
}

proof fn lemma_boxes_at(
    columns: BoxColumns,
    rows: Seq<int>,
    placed: Seq<Detection>,
    timestamp: i64,
    i: int,
)
    requires
        placed.len() == rows.len(),
        0 <= i < rows.len(),
    ensures
        columns.timestamps[rows[i]] == timestamp ==> boxes_at(
            columns,
            rows,
            placed,
            timestamp,
        ).contains(placed[i]),
        (forall|k: int| 0 <= k < rows.len() ==> columns.timestamps[#[trigger] rows[k]] != timestamp)
            ==> boxes_at(columns, rows, placed, timestamp).len() == 0,
    decreases rows.len(),
{
    let (fewer, firsts) = (rows.drop_last(), placed.drop_last());
    let before = boxes_at(columns, fewer, firsts, timestamp);
    let all = boxes_at(columns, rows, placed, timestamp);
    let last = rows.len() - 1;
    assert(rows[last] == rows.last());
    if i == last {
        if columns.timestamps[rows[i]] == timestamp {
            assert(all[before.len() as int] == placed[i]);
        }
    } else {
        lemma_boxes_at(columns, fewer, firsts, timestamp, i);
        if before.contains(placed[i]) {
            let k = choose|k: int| 0 <= k < before.len() && before[k] == placed[i];
            assert(all[k] == placed[i]);
        }
    }
    if forall|k: int| 0 <= k < rows.len() ==> columns.timestamps[#[trigger] rows[k]] != timestamp {
        assert forall|k: int| 0 <= k < fewer.len() implies columns.timestamps[#[trigger] fewer[k]]
            != timestamp by {
            assert(fewer[k] == rows[k]);
        }
        if fewer.len() > 0 {
            lemma_boxes_at(columns, fewer, firsts, timestamp, 0);
        }
    }
}

} // verus!
