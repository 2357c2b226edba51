//! What became of the measurements of each sensor.
use vstd::prelude::*;
use vstd::string::StringExecFns;

use crate::measurement::{CameraName, LidarName, SensorId};
use crate::nanos;
use crate::order;
use crate::text;

verus! {

/// What became of a measurement.
#[derive(Clone, Copy, Debug, PartialEq, Eq, Structural)]
pub enum RecordStatus {
    Delivered,
    Dropped,
}

/// One measurement that was delivered or dropped.
#[derive(Clone, Copy, Debug)]
pub struct MeasurementRecord {
    pub sequence: u64,
    pub status: RecordStatus,
    pub sensor_timestamp_ns: i64,
    pub host_arrival_unix_ns: u64,
    pub bytes: u64,
    pub queue_wait_ns: u64,
    pub age_ns: u64,
    pub checksum: u32,
}

/// A measurement that reached its consumer. The waiting time and the age are in
/// nanoseconds.
#[derive(Clone, Copy, Debug)]
pub struct Delivery {
    pub sequence: u64,
    pub sensor_timestamp_ns: i64,
    pub host_arrival_unix_ns: u64,
    pub bytes: u64,
    pub queue_wait: u128,
    pub age: u128,
    pub checksum: u32,
}

/// What became of the measurements of one sensor. Instants are in nanoseconds
/// from the start of the run.
pub struct Metrics {
    submitted: u64,
    accepted: u64,
    delivered: u64,
    dropped: u64,
    sequence_gaps: u64,
    bytes: u64,
    max_depth: usize,
    queue_wait_ns: Vec<u64>,
    age_ns: Vec<u64>,
    first_delivery: Option<u128>,
    last_delivery: Option<u128>,
    last_sequence: Option<u64>,
    checksum_xor: u32,
    records: Vec<MeasurementRecord>,
}

/// What `Metrics` holds.
pub struct MetricsModel {
    pub submitted: int,
    pub accepted: int,
    pub delivered: int,
    pub dropped: int,
    pub sequence_gaps: int,
    pub bytes: int,
    pub max_depth: int,
    pub queue_wait_ns: Seq<u64>,
    pub age_ns: Seq<u64>,
    pub first_delivery: Option<u128>,
    pub last_delivery: Option<u128>,
    pub last_sequence: Option<u64>,
    pub checksum_xor: u32,
    pub records: Seq<MeasurementRecord>,
}

impl View for Metrics {
    type V = MetricsModel;

    closed spec fn view(&self) -> MetricsModel {
        MetricsModel {
            submitted: self.submitted as int,
            accepted: self.accepted as int,
            delivered: self.delivered as int,
            dropped: self.dropped as int,
            sequence_gaps: self.sequence_gaps as int,
            bytes: self.bytes as int,
            max_depth: self.max_depth as int,
            queue_wait_ns: self.queue_wait_ns@,
            age_ns: self.age_ns@,
            first_delivery: self.first_delivery,
            last_delivery: self.last_delivery,
            last_sequence: self.last_sequence,
            checksum_xor: self.checksum_xor,
            records: self.records@,
        }
    }
}

/// Nothing was recorded.
pub open spec fn no_metrics() -> MetricsModel {
    MetricsModel {
        submitted: 0,
        accepted: 0,
        delivered: 0,
        dropped: 0,
        sequence_gaps: 0,
        bytes: 0,
        max_depth: 0,
        queue_wait_ns: Seq::empty(),
        age_ns: Seq::empty(),
        first_delivery: None,
        last_delivery: None,
        last_sequence: None,
        checksum_xor: 0,
        records: Seq::empty(),
    }
}

/// How many sequence numbers were left out before a delivery.
pub open spec fn gap_before(last: Option<u64>, sequence: u64) -> int {
    match last {
        Some(previous) => if sequence > previous {
            sequence - previous - 1
        } else {
            0
        },
        None => 0,
    }
}

/// The record of a dropped measurement.
pub open spec fn dropped_record(
    sequence: u64,
    sensor_timestamp_ns: i64,
    host_arrival_unix_ns: u64,
) -> MeasurementRecord {
    MeasurementRecord {
        sequence,
        status: RecordStatus::Dropped,
        sensor_timestamp_ns,
        host_arrival_unix_ns,
        bytes: 0,
        queue_wait_ns: 0,
        age_ns: 0,
        checksum: 0,
    }
}

/// The record of a delivered measurement.
pub open spec fn delivered_record(delivery: Delivery) -> MeasurementRecord {
    MeasurementRecord {
        sequence: delivery.sequence,
        status: RecordStatus::Delivered,
        sensor_timestamp_ns: delivery.sensor_timestamp_ns,
        host_arrival_unix_ns: delivery.host_arrival_unix_ns,
        bytes: delivery.bytes,
        queue_wait_ns: nanos::clamped(delivery.queue_wait),
        age_ns: nanos::clamped(delivery.age),
        checksum: delivery.checksum,
    }
}

/// What can be recorded of a sensor: a submission, an acceptance at a depth, a drop
/// with its sequence number and times, a delivery at an instant.
pub enum Step {
    Submitted,
    Accepted(usize),
    Dropped(u64, i64, u64),
    Delivered(Delivery, u128),
}

impl MetricsModel {
    pub open spec fn with_submitted(self) -> MetricsModel {
        MetricsModel { submitted: self.submitted + 1, ..self }
    }

    pub open spec fn with_accepted(self, depth: int) -> MetricsModel {
        MetricsModel {
            accepted: self.accepted + 1,
            max_depth: if depth > self.max_depth {
                depth
            } else {
                self.max_depth
            },
            ..self
        }
    }

    pub open spec fn with_dropped(self, record: MeasurementRecord) -> MetricsModel {
        MetricsModel { dropped: self.dropped + 1, records: self.records.push(record), ..self }
    }

    pub open spec fn with_delivered(self, delivery: Delivery, now: u128) -> MetricsModel {
        MetricsModel {
            delivered: self.delivered + 1,
            bytes: self.bytes + delivery.bytes,
            queue_wait_ns: self.queue_wait_ns.push(nanos::clamped(delivery.queue_wait)),
            age_ns: self.age_ns.push(nanos::clamped(delivery.age)),
            first_delivery: match self.first_delivery {
                Some(first) => Some(first),
                None => Some(now),
            },
            last_delivery: Some(now),
            sequence_gaps: self.sequence_gaps + gap_before(self.last_sequence, delivery.sequence),
            last_sequence: Some(delivery.sequence),
            checksum_xor: self.checksum_xor ^ delivery.checksum,
            records: self.records.push(delivered_record(delivery)),
            ..self
        }
    }

    /// What the metrics become when a step is recorded.
    pub open spec fn with(self, step: Step) -> MetricsModel {
        match step {
            Step::Submitted => self.with_submitted(),
            Step::Accepted(depth) => self.with_accepted(depth as int),
            Step::Dropped(sequence, sensor_timestamp_ns, host_arrival_unix_ns) => self.with_dropped(
                dropped_record(sequence, sensor_timestamp_ns, host_arrival_unix_ns),
            ),
            Step::Delivered(delivery, now) => self.with_delivered(delivery, now),
        }
    }

    /// The counters can take the delivery, and the last sequence number has a
    /// successor.
    pub open spec fn has_room_for(self, delivery: Delivery) -> bool {
        &&& self.delivered < u64::MAX
        &&& self.bytes + delivery.bytes <= u64::MAX
        &&& self.sequence_gaps + gap_before(self.last_sequence, delivery.sequence) <= u64::MAX
        &&& self.last_sequence matches Some(previous) ==> previous < u64::MAX
    }
}

impl Default for Metrics {
    fn default() -> (metrics: Metrics)
        ensures
            metrics@ == no_metrics(),
    {
        Metrics {
            submitted: 0,
            accepted: 0,
            delivered: 0,
            dropped: 0,
            sequence_gaps: 0,
            bytes: 0,
            max_depth: 0,
            queue_wait_ns: Vec::new(),
            age_ns: Vec::new(),
            first_delivery: None,
            last_delivery: None,
            last_sequence: None,
            checksum_xor: 0,
            records: Vec::new(),
        }
    }
}

impl Metrics {
    fn submit(&mut self)
        requires
            old(self)@.submitted < u64::MAX,
        ensures
            final(self)@ == old(self)@.with_submitted(),
    {
        self.submitted = self.submitted + 1;
    }

    fn accept(&mut self, depth: usize)
        requires
            old(self)@.accepted < u64::MAX,
        ensures
            final(self)@ == old(self)@.with_accepted(depth as int),
    {
        self.accepted = self.accepted + 1;
        if depth > self.max_depth {
            self.max_depth = depth;
        }
    }

    fn drop_one(&mut self, sequence: u64, sensor_timestamp_ns: i64, host_arrival_unix_ns: u64)
        requires
            old(self)@.dropped < u64::MAX,
        ensures
            final(self)@ == old(self)@.with_dropped(
                dropped_record(sequence, sensor_timestamp_ns, host_arrival_unix_ns),
            ),
    {
        self.dropped = self.dropped + 1;
        self.records.push(
            MeasurementRecord {
                sequence,
                status: RecordStatus::Dropped,
                sensor_timestamp_ns,
                host_arrival_unix_ns,
                bytes: 0,
                queue_wait_ns: 0,
                age_ns: 0,
                checksum: 0,
            },
        );
    }

    fn deliver(&mut self, delivery: Delivery, now: u128)
        requires
            old(self)@.has_room_for(delivery),
        ensures
            final(self)@ == old(self)@.with_delivered(delivery, now),
    {
        self.delivered = self.delivered + 1;
        self.bytes = self.bytes + delivery.bytes;
        let queue_wait_ns: u64 = nanos::clamp_ns(delivery.queue_wait);
        let age_ns: u64 = nanos::clamp_ns(delivery.age);
        self.queue_wait_ns.push(queue_wait_ns);
        self.age_ns.push(age_ns);
        if self.first_delivery.is_none() {
            self.first_delivery = Some(now);
        }
        self.last_delivery = Some(now);
        if let Some(previous) = self.last_sequence {
            self.sequence_gaps = self.sequence_gaps + delivery.sequence.saturating_sub(previous + 1);
        }
        self.last_sequence = Some(delivery.sequence);
        self.checksum_xor = self.checksum_xor ^ delivery.checksum;
        self.records.push(
            MeasurementRecord {
                sequence: delivery.sequence,
                status: RecordStatus::Delivered,
                sensor_timestamp_ns: delivery.sensor_timestamp_ns,
                host_arrival_unix_ns: delivery.host_arrival_unix_ns,
                bytes: delivery.bytes,
                queue_wait_ns,
                age_ns,
                checksum: delivery.checksum,
            },
        );
    }
}

/// What became of the measurements of a run, sensor by sensor.
pub struct RunMetrics {
    /// One slot for each sensor, in the order of the sensors.
    slots: Vec<Option<Metrics>>,
}

/// How many sensors there are.
pub const SENSORS: usize = 10;

impl View for RunMetrics {
    type V = Map<SensorId, MetricsModel>;

    closed spec fn view(&self) -> Map<SensorId, MetricsModel> {
        Map::new(
            |sensor: SensorId| self.slots@[sensor.rank() - 1] is Some,
            |sensor: SensorId| self.slots@[sensor.rank() - 1]->0@,
        )
    }
}

/// What was recorded for a sensor.
pub open spec fn metrics_of(run: Map<SensorId, MetricsModel>, sensor: SensorId) -> MetricsModel {
    if run.dom().contains(sensor) {
        run[sensor]
    } else {
        no_metrics()
    }
}

/// What a run becomes when a step of a sensor is recorded.
pub open spec fn after_step(
    run: Map<SensorId, MetricsModel>,
    sensor: SensorId,
    step: Step,
) -> Map<SensorId, MetricsModel> {
    run.insert(sensor, metrics_of(run, sensor).with(step))
}

/// A step is recorded for its sensor alone, from empty metrics where there were
/// none; nothing changes of any other sensor, not even whether it is there.
pub proof fn law_steps_touch_one_sensor(
    run: Map<SensorId, MetricsModel>,
    sensor: SensorId,
    step: Step,
    other: SensorId,
)
    ensures
        after_step(run, sensor, step).dom().contains(sensor),
        run.dom().contains(sensor) ==> after_step(run, sensor, step)[sensor] == run[sensor].with(
            step,
        ),
        !run.dom().contains(sensor) ==> after_step(run, sensor, step)[sensor] == no_metrics().with(
            step,
        ),
        other != sensor ==> after_step(run, sensor, step).dom().contains(other)
            == run.dom().contains(other) && metrics_of(after_step(run, sensor, step), other)
            == metrics_of(run, other),
{
}

/// The metrics of one sensor in a run, to record one thing in.
pub struct SensorMetrics<'a> {
    pub sensor: SensorId,
    pub run: &'a mut RunMetrics,
}

impl Default for RunMetrics {
    fn default() -> (run: RunMetrics)
        ensures
            run.valid(),
            run@ == Map::<SensorId, MetricsModel>::empty(),
    {
        let mut slots: Vec<Option<Metrics>> = Vec::new();
        let mut i: usize = 0;
        while i < SENSORS
            invariant
                i <= SENSORS,
                slots.len() == i,
                forall|j: int| 0 <= j < i ==> slots@[j] is None,
            decreases SENSORS - i,
        {
            slots.push(None);
            i = i + 1;
        }
        let run = RunMetrics { slots };
        assert(run@ =~= Map::<SensorId, MetricsModel>::empty());
        run
    }
}

impl RunMetrics {
    pub closed spec fn valid(&self) -> bool {
        self.slots@.len() == SENSORS
    }

    /// The metrics of a sensor, empty ones where nothing was recorded yet.
    fn entry(&mut self, sensor: SensorId) -> (metrics: &mut Metrics)
        requires
            old(self).valid(),
        ensures
            metrics@ == metrics_of(old(self)@, sensor),
            final(self).valid(),
            final(self)@ == old(self)@.insert(sensor, final(metrics)@),
    {
        let at: usize = (sensor.position() - 1) as usize;
        if self.slots[at].is_none() {
            self.slots[at] = Some(Metrics::default());
        }
        self.slots[at].as_mut().unwrap()
    }

    /// The metrics of one sensor, to record one thing in. Nothing changes where
    /// nothing is recorded.
    pub fn for_sensor(&mut self, sensor: SensorId) -> (metrics: SensorMetrics<'_>)
        requires
            old(self).valid(),
        ensures
            metrics.sensor == sensor,
            *metrics.run == *old(self),
            *final(self) == *final(metrics.run),
    {
        SensorMetrics { sensor, run: self }
    }
}

impl<'a> SensorMetrics<'a> {
    /// A measurement was submitted.
    pub fn record_submitted(self)
        requires
            self.run.valid(),
            metrics_of(self.run@, self.sensor).submitted < u64::MAX,
        ensures
            final(self.run).valid(),
            final(self.run)@ == after_step(old(self.run)@, self.sensor, Step::Submitted),
    {
        self.run.entry(self.sensor).submit();
    }

    /// A measurement was accepted by its queue, which then held `depth`.
    pub fn record_accepted(self, depth: usize)
        requires
            self.run.valid(),
            metrics_of(self.run@, self.sensor).accepted < u64::MAX,
        ensures
            final(self.run).valid(),
            final(self.run)@ == after_step(old(self.run)@, self.sensor, Step::Accepted(depth)),
    {
        self.run.entry(self.sensor).accept(depth);
    }

    /// A measurement was dropped by its queue.
    pub fn record_dropped(
        self,
        sequence: u64,
        sensor_timestamp_ns: i64,
        host_arrival_unix_ns: u64,
    )
        requires
            self.run.valid(),
            metrics_of(self.run@, self.sensor).dropped < u64::MAX,
        ensures
            final(self.run).valid(),
            final(self.run)@ == after_step(
                old(self.run)@,
                self.sensor,
                Step::Dropped(sequence, sensor_timestamp_ns, host_arrival_unix_ns),
            ),
    {
        self.run.entry(self.sensor).drop_one(sequence, sensor_timestamp_ns, host_arrival_unix_ns);
    }

    /// A measurement was delivered, at the instant `now`.
    pub fn record_delivered(self, delivery: Delivery, now: u128)
        requires
            self.run.valid(),
            metrics_of(self.run@, self.sensor).has_room_for(delivery),
        ensures
            final(self.run).valid(),
            final(self.run)@ == after_step(
                old(self.run)@,
                self.sensor,
                Step::Delivered(delivery, now),
            ),
    {
        self.run.entry(self.sensor).deliver(delivery, now);
    }
}

impl RunMetrics {
    /// What was recorded for a sensor, where anything was.
    fn get(&self, sensor: SensorId) -> (metrics: Option<&Metrics>)
        requires
            self.valid(),
        ensures
            match metrics {
                Some(metrics) => self@.dom().contains(sensor) && metrics@ == self@[sensor],
                None => !self@.dom().contains(sensor),
            },
    {
        self.slots[(sensor.position() - 1) as usize].as_ref()
    }

    /// Whether each counter of a sensor can take one more.
    pub fn can_count(&self, sensor: SensorId) -> (can: bool)
        requires
            self.valid(),
        ensures
            can == ({
                let metrics = metrics_of(self@, sensor);
                metrics.submitted < u64::MAX && metrics.accepted < u64::MAX && metrics.dropped
                    < u64::MAX
            }),
    {
        match self.get(sensor) {
            Some(metrics) => metrics.submitted < u64::MAX && metrics.accepted < u64::MAX
                && metrics.dropped < u64::MAX,
            None => true,
        }
    }

    /// Whether the counters of a sensor can take a delivery.
    pub fn can_deliver(&self, sensor: SensorId, delivery: &Delivery) -> (can: bool)
        requires
            self.valid(),
        ensures
            can == metrics_of(self@, sensor).has_room_for(*delivery),
    {
        match self.get(sensor) {
            Some(metrics) => {
                let gap: u64 = match metrics.last_sequence {
                    Some(previous) => {
                        if previous == u64::MAX {
                            return false;
                        }
                        delivery.sequence.saturating_sub(previous + 1)
                    },
                    None => 0,
                };
                metrics.delivered < u64::MAX && delivery.bytes <= u64::MAX - metrics.bytes && gap
                    <= u64::MAX - metrics.sequence_gaps
            },
            None => true,
        }
    }
}

/// The sensor at a place in the order of all sensors.
pub open spec fn sensor_at(rank: int) -> SensorId {
    if rank == 1 {
        SensorId::Camera(CameraName::Front)
    } else if rank == 2 {
        SensorId::Camera(CameraName::FrontLeft)
    } else if rank == 3 {
        SensorId::Camera(CameraName::FrontRight)
    } else if rank == 4 {
        SensorId::Camera(CameraName::SideLeft)
    } else if rank == 5 {
        SensorId::Camera(CameraName::SideRight)
    } else if rank == 6 {
        SensorId::Lidar(LidarName::Top)
    } else if rank == 7 {
        SensorId::Lidar(LidarName::Front)
    } else if rank == 8 {
        SensorId::Lidar(LidarName::SideLeft)
    } else if rank == 9 {
        SensorId::Lidar(LidarName::SideRight)
    } else {
        SensorId::Lidar(LidarName::Rear)
    }
}

fn sensor_of(rank: usize) -> (sensor: SensorId)
    requires
        1 <= rank <= SENSORS,
    ensures
        sensor == sensor_at(rank as int),
{
    match rank {
        1 => SensorId::Camera(CameraName::Front),
        2 => SensorId::Camera(CameraName::FrontLeft),
        3 => SensorId::Camera(CameraName::FrontRight),
        4 => SensorId::Camera(CameraName::SideLeft),
        5 => SensorId::Camera(CameraName::SideRight),
        6 => SensorId::Lidar(LidarName::Top),
        7 => SensorId::Lidar(LidarName::Front),
        8 => SensorId::Lidar(LidarName::SideLeft),
        9 => SensorId::Lidar(LidarName::SideRight),
        _ => SensorId::Lidar(LidarName::Rear),
    }
}

/// Every sensor has its own place among them all.
pub proof fn law_sensors_are_ranked(sensor: SensorId, rank: int)
    requires
        1 <= rank <= SENSORS,
    ensures
        1 <= sensor.rank() <= SENSORS,
        sensor_at(sensor.rank()) == sensor,
        sensor_at(rank).rank() == rank,
{
}

/// The keys by which records are sorted.
pub open spec fn sequence_keys(records: Seq<MeasurementRecord>) -> Seq<i128> {
    records.map_values(|record: MeasurementRecord| record.sequence as i128)
}

/// The order in which a stable sort by key leaves the items.
pub open spec fn stable_order_of(keys: Seq<i128>) -> Seq<usize> {
    choose|order: Seq<usize>| order::is_stable_order(keys, order)
}

/// The records by sequence number; those of one number keep their order.
pub open spec fn sorted_records(records: Seq<MeasurementRecord>) -> Seq<MeasurementRecord> {
    stable_order_of(sequence_keys(records)).map_values(|at: usize| records[at as int])
}

pub open spec fn status_text(status: RecordStatus) -> Seq<char> {
    match status {
        RecordStatus::Delivered => "delivered"@,
        RecordStatus::Dropped => "dropped"@,
    }
}

/// The fields of a record's row.
pub open spec fn record_fields(sensor: SensorId, record: MeasurementRecord) -> Seq<Seq<char>> {
    seq![
        sensor.text(),
        text::decimal(record.sequence as nat),
        status_text(record.status),
        text::signed_decimal(record.sensor_timestamp_ns as int),
        text::decimal(record.host_arrival_unix_ns as nat),
        text::decimal(record.bytes as nat),
        text::decimal(record.queue_wait_ns as nat),
        text::decimal(record.age_ns as nat),
        text::hex(record.checksum as nat, 8),
    ]
}

/// The columns of the table of records.
pub open spec fn record_columns() -> Seq<Seq<char>> {
    seq![
        "sensor"@,
        "sequence"@,
        "status"@,
        "sensor_timestamp_ns"@,
        "host_arrival_unix_ns"@,
        "payload_bytes"@,
        "queue_wait_ns"@,
        "measurement_age_ns"@,
        "checksum"@,
    ]
}

/// The rows of a sensor's records.
pub open spec fn sensor_rows(sensor: SensorId, records: Seq<MeasurementRecord>) -> Seq<Seq<char>> {
    sorted_records(records).map_values(
        |record: MeasurementRecord| text::comma_joined(record_fields(sensor, record)),
    )
}

/// The rows of all sensors up to a place in their order.
pub open spec fn rows_through(run: Map<SensorId, MetricsModel>, rank: int) -> Seq<Seq<char>>
    decreases rank,
{
    if rank <= 0 {
        Seq::empty()
    } else {
        rows_through(run, rank - 1) + sensor_rows(
            sensor_at(rank),
            metrics_of(run, sensor_at(rank)).records,
        )
    }
}

/// The first line of the table of records.
pub fn records_header() -> (header: String)
    ensures
        header@ == text::comma_joined(record_columns()),
{
    let names: Vec<String> = vec![
        "sensor".to_owned(),
        "sequence".to_owned(),
        "status".to_owned(),
        "sensor_timestamp_ns".to_owned(),
        "host_arrival_unix_ns".to_owned(),
        "payload_bytes".to_owned(),
        "queue_wait_ns".to_owned(),
        "measurement_age_ns".to_owned(),
        "checksum".to_owned(),
    ];
    assert(names@.map_values(|name: String| name@) =~= record_columns());
    text::comma_row(&names)
}

fn status_word(status: RecordStatus) -> (word: &'static str)
    ensures
        word@ == status_text(status),
{
    match status {
        RecordStatus::Delivered => "delivered",
        RecordStatus::Dropped => "dropped",
    }
}

fn record_row(sensor: SensorId, record: &MeasurementRecord) -> (row: String)
    ensures
        row@ == text::comma_joined(record_fields(sensor, *record)),
{
    let fields: Vec<String> = vec![
        sensor.to_text(),
        text::decimal_text(record.sequence as u128),
        status_word(record.status).to_owned(),
        text::signed_text(record.sensor_timestamp_ns),
        text::decimal_text(record.host_arrival_unix_ns as u128),
        text::decimal_text(record.bytes as u128),
        text::decimal_text(record.queue_wait_ns as u128),
        text::decimal_text(record.age_ns as u128),
        text::hex32_text(record.checksum),
    ];
    assert(fields@.map_values(|field: String| field@) =~= record_fields(sensor, *record));
    text::comma_row(&fields)
}

/// The order of records by sequence number.
fn record_order(records: &Vec<MeasurementRecord>) -> (sorted: Vec<usize>)
    ensures
        order::is_stable_order(sequence_keys(records@), sorted@),
        sorted@ == stable_order_of(sequence_keys(records@)),
{
    let mut keys: Vec<i128> = Vec::new();
    let mut i: usize = 0;
    while i < records.len()
        invariant
            i <= records.len(),
            keys@ == sequence_keys(records@.take(i as int)),
        decreases records.len() - i,
    {
        keys.push(records[i].sequence as i128);
        i = i + 1;
        assert(keys@ =~= sequence_keys(records@.take(i as int)));
    }
    assert(records@.take(i as int) =~= records@);
    let sorted: Vec<usize> = order::stable_order(keys.as_slice());
    proof {
        order::law_stable_order_is_unique(keys@, sorted@, stable_order_of(keys@));
    }
    sorted
}

/// The texts of strings.
pub open spec fn texts(rows: Seq<String>) -> Seq<Seq<char>> {
    rows.map_values(|row: String| row@)
}

/// Adds the rows of a sensor's records.
fn push_rows(rows: &mut Vec<String>, sensor: SensorId, records: &Vec<MeasurementRecord>)
    ensures
        texts(final(rows)@) == texts(old(rows)@) + sensor_rows(sensor, records@),
{
    let sorted: Vec<usize> = record_order(records);
    let ghost wanted = sensor_rows(sensor, records@);
    let mut i: usize = 0;
    while i < sorted.len()
        invariant
            i <= sorted.len(),
            order::is_stable_order(sequence_keys(records@), sorted@),
            sorted@ == stable_order_of(sequence_keys(records@)),
            wanted == sensor_rows(sensor, records@),
            texts(rows@) == texts(old(rows)@) + wanted.take(i as int),
        decreases sorted.len() - i,
    {
        let record = &records[sorted[i]];
        let row: String = record_row(sensor, record);
        assert(row@ == wanted[i as int]);
        let ghost before = rows@;
        rows.push(row);
        proof {
            assert(texts(rows@) =~= texts(before).push(wanted[i as int]));
            assert(wanted.take(i + 1) =~= wanted.take(i as int).push(wanted[i as int]));
        }
        i = i + 1;
    }
    assert(wanted.take(i as int) =~= wanted);
}

impl RunMetrics {
    /// One row for each measurement that was delivered or dropped: sensor by
    /// sensor, by sequence number.
    pub fn csv_rows(&self) -> (rows: Vec<String>)
        requires
            self.valid(),
        ensures
            texts(rows@) == rows_through(self@, SENSORS as int),
    {
        let mut rows: Vec<String> = Vec::new();
        let mut rank: usize = 1;
        assert(texts(rows@) =~= Seq::<Seq<char>>::empty());
        while rank <= SENSORS
            invariant
                self.valid(),
                1 <= rank <= SENSORS + 1,
                texts(rows@) == rows_through(self@, rank - 1),
            decreases SENSORS + 1 - rank,
        {
            let sensor: SensorId = sensor_of(rank);
            if let Some(metrics) = self.get(sensor) {
                push_rows(&mut rows, sensor, &metrics.records);
            } else {
                proof {
                    lemma_no_rows(sensor);
                    assert(rows_through(self@, rank as int) =~= rows_through(self@, rank - 1));
                }
            }
            rank = rank + 1;
        }
        rows
    }
}

proof fn lemma_no_rows(sensor: SensorId)
    ensures
        sensor_rows(sensor, Seq::empty()) == Seq::<Seq<char>>::empty(),
{
    let keys = sequence_keys(Seq::empty());
    assert(order::is_stable_order(keys, Seq::<usize>::empty()));
    assert(order::is_stable_order(keys, stable_order_of(keys)));
    assert(sensor_rows(sensor, Seq::empty()) =~= Seq::<Seq<char>>::empty());
}

/// Which of `count` sorted values is the 95th percentile: the one nearest to 0.95
/// of the way from the first to the last, the later one of two.
pub open spec fn p95_index(count: int) -> int {
    ((count - 1) * 19 + 10) / 20
}

pub open spec fn value_keys(values: Seq<u64>) -> Seq<i128> {
    values.map_values(|value: u64| value as i128)
}

/// The value at a rank once the values are sorted.
pub open spec fn ranked(values: Seq<u64>, rank: int) -> u64 {
    values[stable_order_of(value_keys(values))[rank] as int]
}

/// The 95th percentile, zero where there is no value.
pub open spec fn p95(values: Seq<u64>) -> u64 {
    if values.len() == 0 {
        0
    } else {
        ranked(values, p95_index(values.len() as int))
    }
}

/// The value at a rank is one of the values: no more of them than the rank are
/// below it, and more than the rank are not above it.
pub proof fn law_ranked_values_are_counted(values: Seq<u64>, rank: int)
    requires
        values.len() <= usize::MAX,
        0 <= rank < values.len(),
    ensures
        values.contains(ranked(values, rank)),
        order::has_rank(value_keys(values), rank, ranked(values, rank) as int),
{
    let keys = value_keys(values);
    let order = order::law_stable_order_exists(keys);
    order::law_stable_order_is_unique(keys, order, stable_order_of(keys));
    order::law_rank_is_a_count(keys, order, rank);
    assert(order[rank] < keys.len());
}

/// The first rank has the least value, the last one the greatest, and a greater
/// rank never a smaller value.
pub proof fn law_ranks_keep_their_order(values: Seq<u64>, low: int, high: int, i: int)
    requires
        values.len() <= usize::MAX,
        0 <= low <= high < values.len(),
        0 <= i < values.len(),
    ensures
        ranked(values, low) <= ranked(values, high),
        ranked(values, 0) <= values[i] <= ranked(values, values.len() - 1),
{
    let keys = value_keys(values);
    let order = order::law_stable_order_exists(keys);
    order::law_stable_order_is_unique(keys, order, stable_order_of(keys));
    if low < high {
        assert(order::precedes(keys, order[low] as int, order[high] as int));
    }
    assert(order.contains(i as usize));
    let at = choose|at: int| 0 <= at < order.len() && order[at] == i;
    if 0 < at {
        assert(order::precedes(keys, order[0] as int, order[at] as int));
    }
    if at < values.len() - 1 {
        assert(order::precedes(keys, order[at] as int, order[values.len() - 1] as int));
    }
    assert(order[low] < keys.len() && order[high] < keys.len());
    assert(order[0] < keys.len() && order[values.len() - 1] < keys.len());
}

/// The order of the values does not matter to what is at a rank, nor to the
/// percentile.
pub proof fn law_ranks_ignore_the_order(values: Seq<u64>, places: Seq<usize>, rank: int)
    requires
        order::is_permutation(places, values.len()),
        0 <= rank < values.len(),
    ensures
        ranked(order::permuted(values, places), rank) == ranked(values, rank),
        p95(order::permuted(values, places)) == p95(values),
{
    lemma_ranked_again(values, places, rank);
    lemma_ranked_again(values, places, p95_index(values.len() as int));
}

proof fn lemma_ranked_again(values: Seq<u64>, places: Seq<usize>, rank: int)
    requires
        order::is_permutation(places, values.len()),
        0 <= rank < values.len(),
    ensures
        ranked(order::permuted(values, places), rank) == ranked(values, rank),
{
    let again = order::permuted(values, places);
    assert(forall|i: int| 0 <= i < places.len() ==> (#[trigger] places[i]) < values.len());
    assert(value_keys(again) =~= order::permuted(value_keys(values), places));
    law_ranked_values_are_counted(values, rank);
    law_ranked_values_are_counted(again, rank);
    order::law_ranks_ignore_the_order(
        value_keys(values),
        places,
        rank,
        ranked(again, rank) as int,
    );
    order::law_ranks_are_ordered(
        value_keys(values),
        rank,
        rank,
        ranked(again, rank) as int,
        ranked(values, rank) as int,
    );
}

/// The 95th percentile of some values, zero where there is none.
pub fn percentile_95(values: &Vec<u64>) -> (value: u64)
    ensures
        value == p95(values@),
{
    if values.len() == 0 {
        return 0;
    }
    let mut keys: Vec<i128> = Vec::new();
    let mut i: usize = 0;
    while i < values.len()
        invariant
            i <= values.len(),
            keys@ == value_keys(values@.take(i as int)),
        decreases values.len() - i,
    {
        keys.push(values[i] as i128);
        i = i + 1;
        assert(keys@ =~= value_keys(values@.take(i as int)));
    }
    assert(values@.take(i as int) =~= values@);
    let sorted: Vec<usize> = order::stable_order(keys.as_slice());
    proof {
        order::law_stable_order_is_unique(keys@, sorted@, stable_order_of(keys@));
    }
    let index: usize = (((values.len() - 1) as u128 * 19 + 10) / 20) as usize;
    values[sorted[index]]
}

/// Sorted, the values before the percentile do not exceed it and those after it
/// are not below it; it is one of the values, and it stands within half a step of
/// 0.95 of the way from the first to the last, on the later side of two.
pub proof fn law_percentile(values: Seq<u64>, order: Seq<usize>, i: int)
    requires
        values.len() > 0,
        order::is_stable_order(value_keys(values), order),
        0 <= i < values.len(),
    ensures
        0 <= p95_index(values.len() as int) < values.len(),
        values.contains(p95(values)),
        i <= p95_index(values.len() as int) ==> values[order[i] as int] <= p95(values),
        i >= p95_index(values.len() as int) ==> values[order[i] as int] >= p95(values),
        -10 < 20 * p95_index(values.len() as int) - 19 * (values.len() - 1) <= 10,
{
    let keys = value_keys(values);
    order::law_stable_order_is_unique(keys, order, stable_order_of(keys));
    let at = p95_index(values.len() as int);
    assert(order[at] < keys.len());
    if i < at {
        assert(order::precedes(keys, order[i] as int, order[at] as int));
    }
    if i > at {
        assert(order::precedes(keys, order[at] as int, order[i] as int));
    }
    assert(keys[order[i] as int] == values[order[i] as int] as i128);
    assert(keys[order[at] as int] == values[order[at] as int] as i128);
}

/// The totals of one sensor.
pub struct SummaryRow {
    pub sensor: SensorId,
    pub submitted: u64,
    pub accepted: u64,
    pub delivered: u64,
    pub dropped: u64,
    pub sequence_gaps: u64,
    pub bytes: u64,
    pub max_depth: usize,
    /// From the first delivery to the last, in nanoseconds.
    pub span_ns: u128,
    pub p95_wait_ns: u64,
    pub p95_age_ns: u64,
    pub checksum_xor: u32,
}

/// From the first delivery to the last.
pub open spec fn delivery_span(metrics: MetricsModel) -> u128 {
    match (metrics.first_delivery, metrics.last_delivery) {
        (Some(first), Some(last)) => nanos::span(first, last),
        _ => 0,
    }
}

/// The row holds the totals of a sensor.
pub open spec fn is_summary(row: SummaryRow, sensor: SensorId, metrics: MetricsModel) -> bool {
    &&& row.sensor == sensor
    &&& row.submitted == metrics.submitted
    &&& row.accepted == metrics.accepted
    &&& row.delivered == metrics.delivered
    &&& row.dropped == metrics.dropped
    &&& row.sequence_gaps == metrics.sequence_gaps
    &&& row.bytes == metrics.bytes
    &&& row.max_depth == metrics.max_depth
    &&& row.span_ns == delivery_span(metrics)
    &&& row.p95_wait_ns == p95(metrics.queue_wait_ns)
    &&& row.p95_age_ns == p95(metrics.age_ns)
    &&& row.checksum_xor == metrics.checksum_xor
}

/// The places, up to one, of sensors for which something was recorded.
pub open spec fn recorded_through(run: Map<SensorId, MetricsModel>, rank: int) -> Seq<SensorId>
    decreases rank,
{
    if rank <= 0 {
        Seq::empty()
    } else {
        let before = recorded_through(run, rank - 1);
        if run.dom().contains(sensor_at(rank)) {
            before.push(sensor_at(rank))
        } else {
            before
        }
    }
}

impl SummaryRow {
    /// Between how many deliveries the span passed, where that makes a rate.
    pub fn intervals(&self) -> (intervals: Option<u64>)
        ensures
            intervals == if self.span_ns > 0 && self.delivered > 1 {
                Some((self.delivered - 1) as u64)
            } else {
                None
            },
    {
        if self.span_ns > 0 && self.delivered > 1 {
            Some(self.delivered - 1)
        } else {
            None
        }
    }

    pub open spec fn text(self, rate: Seq<char>, wait: Seq<char>, age: Seq<char>) -> Seq<char> {
        self.sensor.text() + ": submitted="@ + text::decimal(self.submitted as nat)
            + " accepted="@ + text::decimal(self.accepted as nat) + " delivered="@
            + text::decimal(self.delivered as nat) + " dropped="@ + text::decimal(
            self.dropped as nat,
        ) + " gaps="@ + text::decimal(self.sequence_gaps as nat) + " rate="@ + rate + "Hz bytes="@
            + text::decimal(self.bytes as nat) + " max_depth="@ + text::decimal(
            self.max_depth as nat,
        ) + " p95_wait="@ + wait + " p95_age="@ + age + " checksum="@ + text::hex(
            self.checksum_xor as nat,
            8,
        )
    }

    /// The line of the summary. The rate and the two spans are given as text.
    pub fn line(&self, rate: &str, wait: &str, age: &str) -> (line: String)
        ensures
            line@ == self.text(rate@, wait@, age@),
    {
        let mut line: String = self.sensor.to_text();
        line.append(": submitted=");
        text::push_decimal(&mut line, self.submitted as u128);
        line.append(" accepted=");
        text::push_decimal(&mut line, self.accepted as u128);
        line.append(" delivered=");
        text::push_decimal(&mut line, self.delivered as u128);
        line.append(" dropped=");
        text::push_decimal(&mut line, self.dropped as u128);
        line.append(" gaps=");
        text::push_decimal(&mut line, self.sequence_gaps as u128);
        line.append(" rate=");
        line.append(rate);
        line.append("Hz bytes=");
        text::push_decimal(&mut line, self.bytes as u128);
        line.append(" max_depth=");
        text::push_decimal(&mut line, self.max_depth as u128);
        line.append(" p95_wait=");
        line.append(wait);
        line.append(" p95_age=");
        line.append(age);
        line.append(" checksum=");
        text::push_hex32(&mut line, self.checksum_xor);
        line
    }
}

impl Metrics {
    fn summary(&self, sensor: SensorId) -> (row: SummaryRow)
        ensures
            is_summary(row, sensor, self@),
    {
        let span_ns: u128 = match (self.first_delivery, self.last_delivery) {
            (Some(first), Some(last)) => nanos::span_ns(first, last),
            _ => 0,
        };
        SummaryRow {
            sensor,
            submitted: self.submitted,
            accepted: self.accepted,
            delivered: self.delivered,
            dropped: self.dropped,
            sequence_gaps: self.sequence_gaps,
            bytes: self.bytes,
            max_depth: self.max_depth,
            span_ns,
            p95_wait_ns: percentile_95(&self.queue_wait_ns),
            p95_age_ns: percentile_95(&self.age_ns),
            checksum_xor: self.checksum_xor,
        }
    }
}

impl RunMetrics {
    /// The totals of every sensor for which something was recorded, in the order
    /// of the sensors.
    pub fn summary(&self) -> (rows: Vec<SummaryRow>)
        requires
            self.valid(),
        ensures
            rows@.len() == recorded_through(self@, SENSORS as int).len(),
            forall|i: int|
                0 <= i < rows@.len() ==> is_summary(
                    #[trigger] rows@[i],
                    recorded_through(self@, SENSORS as int)[i],
                    self@[recorded_through(self@, SENSORS as int)[i]],
                ),
    {
        let mut rows: Vec<SummaryRow> = Vec::new();
        let mut rank: usize = 1;
        while rank <= SENSORS
            invariant
                self.valid(),
                1 <= rank <= SENSORS + 1,
                rows@.len() == recorded_through(self@, rank - 1).len(),
                forall|i: int|
                    0 <= i < rows@.len() ==> is_summary(
                        #[trigger] rows@[i],
                        recorded_through(self@, rank - 1)[i],
                        self@[recorded_through(self@, rank - 1)[i]],
                    ),
            decreases SENSORS + 1 - rank,
        {
            let sensor: SensorId = sensor_of(rank);
            if let Some(metrics) = self.get(sensor) {
                rows.push(metrics.summary(sensor));
            }
            rank = rank + 1;
        }
        rows
    }
}

/// How many of the records are of deliveries.
pub open spec fn deliveries_in(records: Seq<MeasurementRecord>) -> nat {
    order::marks(
        records.map_values(|record: MeasurementRecord| record.status == RecordStatus::Delivered),
    )
}

/// The bytes of all the records.
pub open spec fn bytes_in(records: Seq<MeasurementRecord>) -> int
    decreases records.len(),
{
    if records.len() == 0 {
        0
    } else {
        bytes_in(records.drop_last()) + records.last().bytes
    }
}

/// The checksums of all the records, combined.
pub open spec fn checksums_in(records: Seq<MeasurementRecord>) -> u32
    decreases records.len(),
{
    if records.len() == 0 {
        0
    } else {
        checksums_in(records.drop_last()) ^ records.last().checksum
    }
}

/// The counters agree with the records: a record for each measurement delivered
/// or dropped, a waiting time and an age for each one delivered, the bytes and the
/// checksum of them all. There is a first and a last delivery where there is any,
/// and the first is not after the last.
pub open spec fn counts_match(metrics: MetricsModel) -> bool {
    &&& metrics.records.len() == metrics.delivered + metrics.dropped
    &&& deliveries_in(metrics.records) == metrics.delivered
    &&& metrics.queue_wait_ns.len() == metrics.delivered
    &&& metrics.age_ns.len() == metrics.delivered
    &&& metrics.bytes == bytes_in(metrics.records)
    &&& metrics.checksum_xor == checksums_in(metrics.records)
    &&& metrics.delivered > 0 <==> metrics.last_sequence is Some
    &&& metrics.delivered > 0 <==> metrics.first_delivery is Some
    &&& metrics.delivered > 0 <==> metrics.last_delivery is Some
    &&& metrics.delivered > 0 ==> metrics.first_delivery->0 <= metrics.last_delivery->0
}

/// The step does not come before the last delivery.
pub open spec fn comes_after(metrics: MetricsModel, step: Step) -> bool {
    match (step, metrics.last_delivery) {
        (Step::Delivered(_, now), Some(last)) => last <= now,
        _ => true,
    }
}

proof fn lemma_counts_match_step(metrics: MetricsModel, step: Step)
    requires
        counts_match(metrics),
        comes_after(metrics, step),
    ensures
        counts_match(metrics.with(step)),
{
    let records = metrics.with(step).records;
    if records != metrics.records {
        assert(records.drop_last() =~= metrics.records);
        assert(records.map_values(
            |record: MeasurementRecord| record.status == RecordStatus::Delivered,
        ).drop_last() =~= metrics.records.map_values(
            |record: MeasurementRecord| record.status == RecordStatus::Delivered,
        ));
        let checksum = metrics.checksum_xor;
        assert(checksum ^ 0u32 == checksum) by (bit_vector);
    }
}

/// What a sensor's metrics become when these steps are recorded, from nothing.
pub open spec fn recorded(steps: Seq<Step>) -> MetricsModel
    decreases steps.len(),
{
    if steps.len() == 0 {
        no_metrics()
    } else {
        recorded(steps.drop_last()).with(steps.last())
    }
}

/// The deliveries come in the order of their instants.
pub open spec fn in_time(steps: Seq<Step>) -> bool {
    forall|i: int|
        0 <= i < steps.len() ==> comes_after(recorded(steps.take(i)), #[trigger] steps[i])
}

/// The counters agree with the records, whatever is recorded.
pub proof fn law_counts_match_records(steps: Seq<Step>)
    requires
        in_time(steps),
    ensures
        counts_match(recorded(steps)),
    decreases steps.len(),
{
    if steps.len() == 0 {
        assert(no_metrics().records.map_values(
            |record: MeasurementRecord| record.status == RecordStatus::Delivered,
        ) =~= Seq::empty());
    } else {
        let before = steps.drop_last();
        assert forall|i: int| 0 <= i < before.len() implies comes_after(
            recorded(before.take(i)),
            #[trigger] before[i],
        ) by {
            assert(before.take(i) =~= steps.take(i));
            assert(before[i] == steps[i]);
        }
        law_counts_match_records(before);
        assert(steps.take(steps.len() - 1) =~= before);
        assert(steps[steps.len() - 1] == steps.last());
        lemma_counts_match_step(recorded(before), steps.last());
    }
}

/// Acceptances at these depths.
pub open spec fn acceptances(depths: Seq<usize>) -> Seq<Step> {
    depths.map_values(|depth: usize| Step::Accepted(depth))
}

/// After any acceptances they are counted, the greatest depth is that of one of
/// them and of none more, and nothing else has changed.
pub proof fn law_acceptances_are_counted(depths: Seq<usize>)
    ensures
        recorded(acceptances(depths)) == (MetricsModel {
            accepted: depths.len() as int,
            max_depth: recorded(acceptances(depths)).max_depth,
            ..no_metrics()
        }),
        forall|i: int|
            0 <= i < depths.len() ==> #[trigger] depths[i] <= recorded(
                acceptances(depths),
            ).max_depth,
        depths.len() > 0 ==> exists|i: int|
            0 <= i < depths.len() && #[trigger] depths[i] == recorded(acceptances(depths)).max_depth,
    decreases depths.len(),
{
    if depths.len() > 0 {
        let before = depths.drop_last();
        law_acceptances_are_counted(before);
        assert(acceptances(depths).drop_last() =~= acceptances(before));
        let most = recorded(acceptances(depths)).max_depth;
        assert forall|i: int| 0 <= i < depths.len() implies #[trigger] depths[i] <= most by {
            if i < depths.len() - 1 {
                assert(before[i] <= recorded(acceptances(before)).max_depth);
            }
        }
        assert(depths[depths.len() - 1] == depths.last());
        if most != depths.last() {
            let i = choose|i: int|
                0 <= i < before.len() && #[trigger] before[i] == recorded(
                    acceptances(before),
                ).max_depth;
            assert(depths[i] == most);
        }
    }
}

/// A sensor has one row for each measurement delivered or dropped, and each row
/// is that of one of its records.
pub proof fn law_one_row_per_record(
    sensor: SensorId,
    metrics: MetricsModel,
    order: Seq<usize>,
    i: int,
)
    requires
        counts_match(metrics),
        order::is_stable_order(sequence_keys(metrics.records), order),
        0 <= i < metrics.records.len(),
    ensures
        sensor_rows(sensor, metrics.records).len() == metrics.delivered + metrics.dropped,
        order.no_duplicates(),
        sensor_rows(sensor, metrics.records)[i] == text::comma_joined(
            record_fields(sensor, metrics.records[order[i] as int]),
        ),
{
    let keys = sequence_keys(metrics.records);
    order::law_stable_order_is_unique(keys, order, stable_order_of(keys));
    order::law_stable_order_is_a_permutation(keys, order);
}

/// How many measurements of the sensors up to a place were delivered or dropped.
pub open spec fn settled_through(run: Map<SensorId, MetricsModel>, rank: int) -> int
    decreases rank,
{
    if rank <= 0 {
        0
    } else {
        let metrics = metrics_of(run, sensor_at(rank));
        settled_through(run, rank - 1) + metrics.delivered + metrics.dropped
    }
}

/// A run has one row for each measurement delivered or dropped.
pub proof fn law_one_row_per_measurement(run: Map<SensorId, MetricsModel>, rank: int)
    requires
        forall|sensor: SensorId| #[trigger]
            run.dom().contains(sensor) ==> counts_match(run[sensor]) && run[sensor].records.len()
                <= usize::MAX,
        0 <= rank <= SENSORS,
    ensures
        rows_through(run, rank).len() == settled_through(run, rank),
    decreases rank,
{
    if rank > 0 {
        law_one_row_per_measurement(run, rank - 1);
        let sensor = sensor_at(rank);
        let metrics = metrics_of(run, sensor);
        if run.dom().contains(sensor) {
            let keys = sequence_keys(metrics.records);
            let order = order::law_stable_order_exists(keys);
            assert(order::is_stable_order(keys, order));
        } else {
            lemma_no_rows(sensor);
        }
    }
}

/// What a sensor's metrics become when it delivers these measurements.
pub open spec fn delivered_all(
    start: MetricsModel,
    deliveries: Seq<(Delivery, u128)>,
) -> MetricsModel
    decreases deliveries.len(),
{
    if deliveries.len() == 0 {
        start
    } else {
        delivered_all(start, deliveries.drop_last()).with_delivered(
            deliveries.last().0,
            deliveries.last().1,
        )
    }
}

/// Where sequence numbers only rise, the gaps count the numbers between the first
/// and the last that were not delivered.
pub proof fn law_gaps_count_what_is_missing(deliveries: Seq<(Delivery, u128)>)
    requires
        deliveries.len() > 0,
        forall|i: int, j: int|
            0 <= i < j < deliveries.len() ==> (#[trigger] deliveries[i]).0.sequence < (
            #[trigger] deliveries[j]).0.sequence,
    ensures
        delivered_all(no_metrics(), deliveries).last_sequence == Some(
            deliveries.last().0.sequence,
        ),
        delivered_all(no_metrics(), deliveries).sequence_gaps == deliveries.last().0.sequence
            - deliveries[0].0.sequence + 1 - deliveries.len(),
    decreases deliveries.len(),
{
    let before = deliveries.drop_last();
    if before.len() > 0 {
        law_gaps_count_what_is_missing(before);
        assert(before.last() == deliveries[deliveries.len() - 2]);
    } else {
        assert(delivered_all(no_metrics(), before) == no_metrics());
    }
}

/// A step changes what it records and nothing else.
pub proof fn law_steps_change_what_they_record(metrics: MetricsModel, step: Step)
    ensures
        ({
            let after = metrics.with(step);
            let submitted = step is Submitted;
            let accepted = step is Accepted;
            let dropped = step is Dropped;
            let delivered = step is Delivered;
            &&& after.submitted == metrics.submitted + if submitted {
                1int
            } else {
                0
            }
            &&& after.accepted == metrics.accepted + if accepted {
                1int
            } else {
                0
            }
            &&& after.dropped == metrics.dropped + if dropped {
                1int
            } else {
                0
            }
            &&& after.delivered == metrics.delivered + if delivered {
                1int
            } else {
                0
            }
            &&& !accepted ==> after.max_depth == metrics.max_depth
            &&& !delivered ==> {
                &&& after.bytes == metrics.bytes
                &&& after.sequence_gaps == metrics.sequence_gaps
                &&& after.queue_wait_ns == metrics.queue_wait_ns
                &&& after.age_ns == metrics.age_ns
                &&& after.first_delivery == metrics.first_delivery
                &&& after.last_delivery == metrics.last_delivery
                &&& after.last_sequence == metrics.last_sequence
                &&& after.checksum_xor == metrics.checksum_xor
            }
            &&& submitted || accepted ==> after.records == metrics.records
        }),
{
}

/// A delivery is on record with its number, its times, its size and its checksum.
/// Its wait goes to the waits and its age to the ages, each in full where 64 bits
/// hold it. The first delivery stays the first, and the last is this one.
pub proof fn law_deliveries_are_on_record(metrics: MetricsModel, delivery: Delivery, now: u128)
    ensures
        ({
            let after = metrics.with(Step::Delivered(delivery, now));
            let record = after.records.last();
            &&& after.records.drop_last() == metrics.records
            &&& record.status is Delivered
            &&& record.sequence == delivery.sequence
            &&& record.sensor_timestamp_ns == delivery.sensor_timestamp_ns
            &&& record.host_arrival_unix_ns == delivery.host_arrival_unix_ns
            &&& record.bytes == delivery.bytes
            &&& record.checksum == delivery.checksum
            &&& delivery.queue_wait <= u64::MAX ==> record.queue_wait_ns == delivery.queue_wait
            &&& delivery.queue_wait > u64::MAX ==> record.queue_wait_ns == u64::MAX
            &&& delivery.age <= u64::MAX ==> record.age_ns == delivery.age
            &&& delivery.age > u64::MAX ==> record.age_ns == u64::MAX
            &&& after.queue_wait_ns == metrics.queue_wait_ns.push(record.queue_wait_ns)
            &&& after.age_ns == metrics.age_ns.push(record.age_ns)
            &&& after.bytes - metrics.bytes == delivery.bytes
            &&& after.last_delivery == Some(now)
            &&& after.first_delivery == if metrics.first_delivery is Some {
                metrics.first_delivery
            } else {
                Some(now)
            }
            &&& after.last_sequence == Some(delivery.sequence)
            &&& metrics.last_sequence is Some && metrics.last_sequence->0 < delivery.sequence
                ==> metrics.last_sequence->0 + 1 + (after.sequence_gaps - metrics.sequence_gaps)
                == delivery.sequence
            &&& metrics.last_sequence is None || metrics.last_sequence->0 >= delivery.sequence
                ==> after.sequence_gaps == metrics.sequence_gaps
        }),
{
    assert(metrics.with(Step::Delivered(delivery, now)).records.drop_last() =~= metrics.records);
}

/// A drop is on record with its number and its times, and with nothing that only a
/// delivery has.
pub proof fn law_drops_are_on_record(
    metrics: MetricsModel,
    sequence: u64,
    sensor_timestamp_ns: i64,
    host_arrival_unix_ns: u64,
)
    ensures
        ({
            let after = metrics.with(
                Step::Dropped(sequence, sensor_timestamp_ns, host_arrival_unix_ns),
            );
            let record = after.records.last();
            &&& after.records.drop_last() == metrics.records
            &&& record.status is Dropped
            &&& record.sequence == sequence
            &&& record.sensor_timestamp_ns == sensor_timestamp_ns
            &&& record.host_arrival_unix_ns == host_arrival_unix_ns
            &&& record.bytes == 0 && record.queue_wait_ns == 0 && record.age_ns == 0
                && record.checksum == 0
        }),
{
    assert(metrics.with(
        Step::Dropped(sequence, sensor_timestamp_ns, host_arrival_unix_ns),
    ).records.drop_last() =~= metrics.records);
}

/// The wait in a summary is at the percentile's rank among the waits, and the age
/// among the ages; the rank is within half a step of 0.95 of the way from the first
/// to the last. The span leads from the first delivery to the last, and the counts
/// are those of the sensor.
pub proof fn law_summaries_tell_wait_from_age(
    row: SummaryRow,
    sensor: SensorId,
    metrics: MetricsModel,
    rank: int,
)
    requires
        is_summary(row, sensor, metrics),
        metrics.queue_wait_ns.len() == metrics.age_ns.len(),
        0 < metrics.queue_wait_ns.len() <= usize::MAX,
        -10 < 20 * rank - 19 * (metrics.queue_wait_ns.len() - 1) <= 10,
    ensures
        metrics.queue_wait_ns.contains(row.p95_wait_ns),
        order::has_rank(value_keys(metrics.queue_wait_ns), rank, row.p95_wait_ns as int),
        metrics.age_ns.contains(row.p95_age_ns),
        order::has_rank(value_keys(metrics.age_ns), rank, row.p95_age_ns as int),
        metrics.first_delivery is Some && metrics.last_delivery is Some
            && metrics.first_delivery->0 <= metrics.last_delivery->0
            ==> metrics.first_delivery->0 + row.span_ns == metrics.last_delivery->0,
        row.sensor == sensor,
        row.submitted == metrics.submitted,
        row.accepted == metrics.accepted,
        row.delivered == metrics.delivered,
        row.dropped == metrics.dropped,
        row.sequence_gaps == metrics.sequence_gaps,
        row.bytes == metrics.bytes,
        row.max_depth == metrics.max_depth,
        row.checksum_xor == metrics.checksum_xor,
{
    let count = metrics.queue_wait_ns.len() as int;
    assert(rank == p95_index(count));
    law_ranked_values_are_counted(metrics.queue_wait_ns, rank);
    law_ranked_values_are_counted(metrics.age_ns, rank);
}

/// A sensor without a delivery has no percentile and no span.
pub proof fn law_summaries_without_deliveries(
    row: SummaryRow,
    sensor: SensorId,
    metrics: MetricsModel,
)
    requires
        is_summary(row, sensor, metrics),
    ensures
        metrics.queue_wait_ns.len() == 0 ==> row.p95_wait_ns == 0,
        metrics.age_ns.len() == 0 ==> row.p95_age_ns == 0,
        metrics.first_delivery is None ==> row.span_ns == 0,
{
}

/// Each field of a record's row stands under the column of its name.
pub proof fn law_record_rows_fit_their_columns(sensor: SensorId, record: MeasurementRecord, i: int)
    requires
        0 <= i < record_columns().len(),
    ensures
        record_fields(sensor, record).len() == record_columns().len() == 9,
        ({
            let column = record_columns()[i];
            let field = record_fields(sensor, record)[i];
            &&& column == "sensor"@ ==> field == sensor.text()
            &&& column == "sequence"@ ==> text::decimal_value(field) == record.sequence
            &&& column == "status"@ ==> field == if record.status is Delivered {
                "delivered"@
            } else {
                "dropped"@
            }
            &&& column == "sensor_timestamp_ns"@ ==> field == text::signed_decimal(
                record.sensor_timestamp_ns as int,
            )
            &&& column == "host_arrival_unix_ns"@ ==> text::decimal_value(field)
                == record.host_arrival_unix_ns
            &&& column == "payload_bytes"@ ==> text::decimal_value(field) == record.bytes
            &&& column == "queue_wait_ns"@ ==> text::decimal_value(field) == record.queue_wait_ns
            &&& column == "measurement_age_ns"@ ==> text::decimal_value(field) == record.age_ns
            &&& column == "checksum"@ ==> field.len() == 8 && text::hex_value(field)
                == record.checksum
        }),
        record_columns() == seq![
            "sensor"@,
            "sequence"@,
            "status"@,
            "sensor_timestamp_ns"@,
            "host_arrival_unix_ns"@,
            "payload_bytes"@,
            "queue_wait_ns"@,
            "measurement_age_ns"@,
            "checksum"@,
        ],
{
    reveal_strlit("sensor");
    reveal_strlit("sequence");
    reveal_strlit("status");
    reveal_strlit("sensor_timestamp_ns");
    reveal_strlit("host_arrival_unix_ns");
    reveal_strlit("payload_bytes");
    reveal_strlit("queue_wait_ns");
    reveal_strlit("measurement_age_ns");
    reveal_strlit("checksum");
    assert("sensor"@.len() == 6 && "sequence"@.len() == 8 && "status"@.len() == 6
        && "sensor_timestamp_ns"@.len() == 19 && "host_arrival_unix_ns"@.len() == 20
        && "payload_bytes"@.len() == 13 && "queue_wait_ns"@.len() == 13
        && "measurement_age_ns"@.len() == 18 && "checksum"@.len() == 8);
    assert("sensor"@[1] == 'e' && "status"@[1] == 't' && "sequence"@[0] == 's' && "checksum"@[0]
        == 'c' && "payload_bytes"@[0] == 'p' && "queue_wait_ns"@[0] == 'q');
    text::law_decimal_reads_back(record.sequence as nat);
    text::law_decimal_reads_back(record.host_arrival_unix_ns as nat);
    text::law_decimal_reads_back(record.bytes as nat);
    text::law_decimal_reads_back(record.queue_wait_ns as nat);
    text::law_decimal_reads_back(record.age_ns as nat);
    text::lemma_hex32(record.checksum);
}

/// A sensor's rows come by sequence number.
pub proof fn law_rows_come_by_sequence(records: Seq<MeasurementRecord>, i: int, j: int)
    requires
        records.len() <= usize::MAX,
        0 <= i < j < records.len(),
    ensures
        sorted_records(records).len() == records.len(),
        sorted_records(records)[i].sequence <= sorted_records(records)[j].sequence,
        exists|places: Seq<usize>| #[trigger]
            order::is_permutation(places, records.len()) && sorted_records(records)
                == order::permuted(records, places),
{
    let keys = sequence_keys(records);
    let order = order::law_stable_order_exists(keys);
    order::law_stable_order_is_unique(keys, order, stable_order_of(keys));
    order::law_stable_order_is_a_permutation(keys, order);
    assert(order::precedes(keys, order[i] as int, order[j] as int));
    assert(order[i] < keys.len() && order[j] < keys.len());
    assert(sorted_records(records) =~= order::permuted(records, order));
}

/// The rows come sensor by sensor: those of a sensor stand right behind those of all
/// sensors that are ranked before it, and before those of any other.
pub proof fn law_rows_come_sensor_by_sensor(run: Map<SensorId, MetricsModel>, sensor: SensorId)
    ensures
        (rows_through(run, sensor.rank() - 1) + sensor_rows(
            sensor,
            metrics_of(run, sensor).records,
        )).is_prefix_of(rows_through(run, SENSORS as int)),
        rows_through(run, 0).len() == 0,
{
    law_sensors_are_ranked(sensor, 1);
    lemma_rows_are_prefix(run, sensor.rank(), SENSORS as int);
}

proof fn lemma_rows_are_prefix(run: Map<SensorId, MetricsModel>, rank: int, end: int)
    requires
        0 <= rank <= end,
    ensures
        rows_through(run, rank).is_prefix_of(rows_through(run, end)),
    decreases end,
{
    if rank < end {
        lemma_rows_are_prefix(run, rank, end - 1);
    }
}

/// The summary has every sensor for which something was recorded, and no other, in
/// the order of the sensors.
pub proof fn law_summaries_come_by_rank(run: Map<SensorId, MetricsModel>, end: int)
    requires
        0 <= end <= SENSORS,
    ensures
        forall|sensor: SensorId| #[trigger]
            recorded_through(run, end).contains(sensor) <==> run.dom().contains(sensor)
                && sensor.rank() <= end,
        forall|i: int, j: int|
            0 <= i < j < recorded_through(run, end).len() ==> (#[trigger] recorded_through(
                run,
                end,
            )[i]).rank() < (#[trigger] recorded_through(run, end)[j]).rank(),
    decreases end,
{
    if end > 0 {
        law_summaries_come_by_rank(run, end - 1);
        let before = recorded_through(run, end - 1);
        let all = recorded_through(run, end);
        assert forall|sensor: SensorId| #[trigger] all.contains(sensor) <==> run.dom().contains(
            sensor,
        ) && sensor.rank() <= end by {
            law_sensors_are_ranked(sensor, end);
            if before.contains(sensor) {
                let i = choose|i: int| 0 <= i < before.len() && before[i] == sensor;
                assert(all[i] == sensor);
            }
            if all.contains(sensor) {
                let i = choose|i: int| 0 <= i < all.len() && all[i] == sensor;
                if i < before.len() {
                    assert(before[i] == sensor);
                }
            }
            if all.len() > before.len() {
                assert(all[before.len() as int] == sensor_at(end));
            }
        }
        assert forall|i: int, j: int| 0 <= i < j < all.len() implies (#[trigger] all[i]).rank() < (
        #[trigger] all[j]).rank() by {
            law_sensors_are_ranked(all[i], end);
            assert(all[i] == before[i]);
            assert(before.contains(before[i]));
            if j < before.len() {
                assert(all[j] == before[j]);
            }
        }
    } else {
        assert forall|sensor: SensorId| !(sensor.rank() <= 0) by {
            law_sensors_are_ranked(sensor, 1);
        }
    }
}

/// The line of a summary starts with the sensor and says each number behind its
/// label.
pub proof fn law_summary_lines_label_their_numbers(
    row: SummaryRow,
    rate: Seq<char>,
    wait: Seq<char>,
    age: Seq<char>,
)
    ensures
        row.sensor.text().is_prefix_of(row.text(rate, wait, age)),
        text::says(row.text(rate, wait, age), ": submitted="@, text::decimal(row.submitted as nat)),
        text::says(row.text(rate, wait, age), " accepted="@, text::decimal(row.accepted as nat)),
        text::says(row.text(rate, wait, age), " delivered="@, text::decimal(row.delivered as nat)),
        text::says(row.text(rate, wait, age), " dropped="@, text::decimal(row.dropped as nat)),
        text::says(row.text(rate, wait, age), " gaps="@, text::decimal(row.sequence_gaps as nat)),
        text::says(row.text(rate, wait, age), " rate="@, rate),
        text::says(row.text(rate, wait, age), "Hz bytes="@, text::decimal(row.bytes as nat)),
        text::says(row.text(rate, wait, age), " max_depth="@, text::decimal(row.max_depth as nat)),
        text::says(row.text(rate, wait, age), " p95_wait="@, wait),
        text::says(row.text(rate, wait, age), " p95_age="@, age),
        text::says(row.text(rate, wait, age), " checksum="@, text::hex(row.checksum_xor as nat, 8)),
{
    let line = row.text(rate, wait, age);
    let start = row.sensor.text();
    let labels = seq![
        ": submitted="@,
        " accepted="@,
        " delivered="@,
        " dropped="@,
        " gaps="@,
        " rate="@,
        "Hz bytes="@,
        " max_depth="@,
        " p95_wait="@,
        " p95_age="@,
        " checksum="@,
    ];
    let values = seq![
        text::decimal(row.submitted as nat),
        text::decimal(row.accepted as nat),
        text::decimal(row.delivered as nat),
        text::decimal(row.dropped as nat),
        text::decimal(row.sequence_gaps as nat),
        rate,
        text::decimal(row.bytes as nat),
        text::decimal(row.max_depth as nat),
        wait,
        age,
        text::hex(row.checksum_xor as nat, 8),
    ];
    assert(line == text::labelled(start, labels, values)) by {
        reveal_with_fuel(text::labelled, 12);
        assert(labels.take(11).drop_last() =~= labels.take(10));
        assert(values.take(11).drop_last() =~= values.take(10));
        assert(labels.take(10).drop_last() =~= labels.take(9));
        assert(values.take(10).drop_last() =~= values.take(9));
        assert(labels.take(9).drop_last() =~= labels.take(8));
        assert(values.take(9).drop_last() =~= values.take(8));
        assert(labels.take(8).drop_last() =~= labels.take(7));
        assert(values.take(8).drop_last() =~= values.take(7));
        assert(labels.take(7).drop_last() =~= labels.take(6));
        assert(values.take(7).drop_last() =~= values.take(6));
        assert(labels.take(6).drop_last() =~= labels.take(5));
        assert(values.take(6).drop_last() =~= values.take(5));
        assert(labels.take(5).drop_last() =~= labels.take(4));
        assert(values.take(5).drop_last() =~= values.take(4));
        assert(labels.take(4).drop_last() =~= labels.take(3));
        assert(values.take(4).drop_last() =~= values.take(3));
        assert(labels.take(3).drop_last() =~= labels.take(2));
        assert(values.take(3).drop_last() =~= values.take(2));
        assert(labels.take(2).drop_last() =~= labels.take(1));
        assert(values.take(2).drop_last() =~= values.take(1));
        assert(labels.take(1).drop_last() =~= labels.take(0));
        assert(values.take(1).drop_last() =~= values.take(0));
        assert(labels.take(11) =~= labels);
        assert(values.take(11) =~= values);
    }
    text::lemma_labelled(start, labels, values);
    assert(text::says(line, labels[0], values[0]));
    assert(text::says(line, labels[1], values[1]));
    assert(text::says(line, labels[2], values[2]));
    assert(text::says(line, labels[3], values[3]));
    assert(text::says(line, labels[4], values[4]));
    assert(text::says(line, labels[5], values[5]));
    assert(text::says(line, labels[6], values[6]));
    assert(text::says(line, labels[7], values[7]));
    assert(text::says(line, labels[8], values[8]));
    assert(text::says(line, labels[9], values[9]));
    assert(text::says(line, labels[10], values[10]));
}

/// A delivery can be recorded wherever no counter passes the greatest number, and the
/// last sequence number is not the greatest.
pub proof fn law_counters_have_room_until_they_overflow(metrics: MetricsModel, delivery: Delivery)
    requires
        metrics.delivered + 1 <= u64::MAX,
        metrics.bytes + delivery.bytes <= u64::MAX,
        metrics.sequence_gaps + delivery.sequence <= u64::MAX,
        metrics.last_sequence != Some(u64::MAX),
    ensures
        metrics.has_room_for(delivery),
{
}

} // verus!
