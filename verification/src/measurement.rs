//! Sensors and what they measure.
use arrow::error::ArrowError;
use std::str::FromStr;
use vstd::prelude::*;
use vstd::string::StringExecFns;

use crate::checksum;
use crate::metrics::Delivery;
use crate::nanos;
use crate::order;
use crate::table::{self, Batch};
use crate::text;

verus! {

/// A sensor of the vehicle. Cameras come before LiDARs.
#[derive(Clone, Copy, Debug, Eq, Hash, Ord, PartialEq, PartialOrd, Structural)]
pub enum SensorId {
    Camera(CameraName),
    Lidar(LidarName),
}

#[derive(Clone, Copy, Debug, Eq, Hash, Ord, PartialEq, PartialOrd, Structural)]
pub enum CameraName {
    Front,
    FrontLeft,
    FrontRight,
    SideLeft,
    SideRight,
}

#[derive(Clone, Copy, Debug, Eq, Hash, Ord, PartialEq, PartialOrd, Structural)]
pub enum LidarName {
    Top,
    Front,
    SideLeft,
    SideRight,
    Rear,
}

#[derive(Clone, Copy, Debug, Eq, PartialEq, Structural)]
pub enum SensorKind {
    Camera,
    Lidar,
}

/// Why a text names no sensor.
#[derive(Debug)]
pub enum SensorParseError {
    /// The text has no `:`, where `camera:front` or `lidar:top` was expected.
    MissingSeparator,
    /// No sensor has that name.
    Unsupported(String),
}

/// Why a text names no sensor.
pub enum SensorFault {
    MissingSeparator,
    Unsupported(Seq<char>),
}

impl View for SensorParseError {
    type V = SensorFault;

    open spec fn view(&self) -> SensorFault {
        match self {
            SensorParseError::MissingSeparator => SensorFault::MissingSeparator,
            SensorParseError::Unsupported(value) => SensorFault::Unsupported(value@),
        }
    }
}

impl CameraName {
    /// The camera's number in the dataset.
    pub open spec fn number(self) -> int {
        match self {
            CameraName::Front => 1,
            CameraName::FrontLeft => 2,
            CameraName::FrontRight => 3,
            CameraName::SideLeft => 4,
            CameraName::SideRight => 5,
        }
    }

    pub open spec fn text(self) -> Seq<char> {
        match self {
            CameraName::Front => "front"@,
            CameraName::FrontLeft => "front_left"@,
            CameraName::FrontRight => "front_right"@,
            CameraName::SideLeft => "side_left"@,
            CameraName::SideRight => "side_right"@,
        }
    }

    pub fn as_str(self) -> (text: &'static str)
        ensures
            text@ == self.text(),
    {
        match self {
            CameraName::Front => "front",
            CameraName::FrontLeft => "front_left",
            CameraName::FrontRight => "front_right",
            CameraName::SideLeft => "side_left",
            CameraName::SideRight => "side_right",
        }
    }
}

impl LidarName {
    /// The LiDAR's number in the dataset.
    pub open spec fn number(self) -> int {
        match self {
            LidarName::Top => 1,
            LidarName::Front => 2,
            LidarName::SideLeft => 3,
            LidarName::SideRight => 4,
            LidarName::Rear => 5,
        }
    }

    pub open spec fn text(self) -> Seq<char> {
        match self {
            LidarName::Top => "top"@,
            LidarName::Front => "front"@,
            LidarName::SideLeft => "side_left"@,
            LidarName::SideRight => "side_right"@,
            LidarName::Rear => "rear"@,
        }
    }

    pub fn as_str(self) -> (text: &'static str)
        ensures
            text@ == self.text(),
    {
        match self {
            LidarName::Top => "top",
            LidarName::Front => "front",
            LidarName::SideLeft => "side_left",
            LidarName::SideRight => "side_right",
            LidarName::Rear => "rear",
        }
    }
}

/// How a name is written in lower case and with underscores.
pub open spec fn normal_char(c: char) -> char {
    if 'A' <= c <= 'Z' {
        (c as int + 32) as char
    } else if c == '-' {
        '_'
    } else {
        c
    }
}

pub open spec fn normal_text(text: Seq<char>) -> Seq<char> {
    text.map_values(|c: char| normal_char(c))
}

/// The camera of that name.
pub open spec fn camera_named(name: Seq<char>) -> Option<CameraName> {
    if name == "front"@ {
        Some(CameraName::Front)
    } else if name == "front_left"@ {
        Some(CameraName::FrontLeft)
    } else if name == "front_right"@ {
        Some(CameraName::FrontRight)
    } else if name == "side_left"@ {
        Some(CameraName::SideLeft)
    } else if name == "side_right"@ {
        Some(CameraName::SideRight)
    } else {
        None
    }
}

/// The LiDAR of that name.
pub open spec fn lidar_named(name: Seq<char>) -> Option<LidarName> {
    if name == "top"@ {
        Some(LidarName::Top)
    } else if name == "front"@ {
        Some(LidarName::Front)
    } else if name == "side_left"@ {
        Some(LidarName::SideLeft)
    } else if name == "side_right"@ {
        Some(LidarName::SideRight)
    } else if name == "rear"@ {
        Some(LidarName::Rear)
    } else {
        None
    }
}

/// The sensor of a kind and a name.
pub open spec fn sensor_named(kind: Seq<char>, name: Seq<char>) -> Option<SensorId> {
    if kind == "camera"@ {
        match camera_named(name) {
            Some(camera) => Some(SensorId::Camera(camera)),
            None => None,
        }
    } else if kind == "lidar"@ {
        match lidar_named(name) {
            Some(lidar) => Some(SensorId::Lidar(lidar)),
            None => None,
        }
    } else {
        None
    }
}

/// The text splits at a colon, and no colon comes before it.
pub open spec fn splits_at(value: Seq<char>, at: int) -> bool {
    &&& 0 <= at < value.len()
    &&& value[at] == ':'
    &&& forall|i: int| 0 <= i < at ==> value[i] != ':'
}

/// What a text means as the name of a sensor: before the first colon the kind,
/// after it the name, in any case and with `-` for `_`.
pub open spec fn parses_to(value: Seq<char>, sensor: Result<SensorId, SensorFault>) -> bool {
    match sensor {
        Ok(sensor) => exists|at: int| #[trigger]
            splits_at(value, at) && sensor_named(
                value.take(at),
                normal_text(value.skip(at + 1)),
            ) == Some(sensor),
        Err(SensorFault::MissingSeparator) => !value.contains(':'),
        Err(SensorFault::Unsupported(text)) => text == value && exists|at: int| #[trigger]
            splits_at(value, at) && sensor_named(
                value.take(at),
                normal_text(value.skip(at + 1)),
            ) is None,
    }
}

/// Whether a text from `from` on, in its normal form, is that name.
fn names(chars: &Vec<char>, from: usize, name: &str) -> (same: bool)
    requires
        from <= chars.len(),
    ensures
        same == (normal_text(chars@.skip(from as int)) == name@),
{
    let mut normal: Vec<char> = Vec::new();
    let mut i: usize = from;
    while i < chars.len()
        invariant
            from <= i <= chars.len(),
            normal.len() == i - from,
            forall|j: int|
                0 <= j < normal.len() ==> #[trigger] normal@[j] == normal_char(chars@[from + j]),
        decreases chars.len() - i,
    {
        let c: char = chars[i];
        if 'A' <= c && c <= 'Z' {
            normal.push(((c as u8) + 32) as char);
        } else if c == '-' {
            normal.push('_');
        } else {
            normal.push(c);
        }
        i = i + 1;
    }
    assert(normal@ =~= normal_text(chars@.skip(from as int)));
    assert(normal@.subrange(0, normal@.len() as int) =~= normal@);
    text::chars_are(&normal, 0, normal.len(), name)
}

fn named_camera(chars: &Vec<char>, from: usize) -> (camera: Option<CameraName>)
    requires
        from <= chars.len(),
    ensures
        camera == camera_named(normal_text(chars@.skip(from as int))),
{
    if names(chars, from, "front") {
        Some(CameraName::Front)
    } else if names(chars, from, "front_left") {
        Some(CameraName::FrontLeft)
    } else if names(chars, from, "front_right") {
        Some(CameraName::FrontRight)
    } else if names(chars, from, "side_left") {
        Some(CameraName::SideLeft)
    } else if names(chars, from, "side_right") {
        Some(CameraName::SideRight)
    } else {
        None
    }
}

fn named_lidar(chars: &Vec<char>, from: usize) -> (lidar: Option<LidarName>)
    requires
        from <= chars.len(),
    ensures
        lidar == lidar_named(normal_text(chars@.skip(from as int))),
{
    if names(chars, from, "top") {
        Some(LidarName::Top)
    } else if names(chars, from, "front") {
        Some(LidarName::Front)
    } else if names(chars, from, "side_left") {
        Some(LidarName::SideLeft)
    } else if names(chars, from, "side_right") {
        Some(LidarName::SideRight)
    } else if names(chars, from, "rear") {
        Some(LidarName::Rear)
    } else {
        None
    }
}

impl SensorId {
    pub open spec fn text(self) -> Seq<char> {
        match self {
            SensorId::Camera(name) => "camera:"@ + name.text(),
            SensorId::Lidar(name) => "lidar:"@ + name.text(),
        }
    }

    /// The sensor's number among those of its kind.
    pub open spec fn number(self) -> int {
        match self {
            SensorId::Camera(name) => name.number(),
            SensorId::Lidar(name) => name.number(),
        }
    }

    pub open spec fn is_camera(self) -> bool {
        self is Camera
    }

    /// Where the sensor stands in the order of all sensors.
    pub open spec fn rank(self) -> int {
        match self {
            SensorId::Camera(name) => name.number(),
            SensorId::Lidar(name) => 5 + name.number(),
        }
    }

    pub fn kind(self) -> (kind: SensorKind)
        ensures
            kind == if self.is_camera() {
                SensorKind::Camera
            } else {
                SensorKind::Lidar
            },
    {
        match self {
            SensorId::Camera(_) => SensorKind::Camera,
            SensorId::Lidar(_) => SensorKind::Lidar,
        }
    }

    /// The number that the dataset gives the sensor among those of its kind.
    pub fn waymo_id(self) -> (id: i64)
        ensures
            id == self.number(),
    {
        match self {
            SensorId::Camera(CameraName::Front) => 1,
            SensorId::Camera(CameraName::FrontLeft) => 2,
            SensorId::Camera(CameraName::FrontRight) => 3,
            SensorId::Camera(CameraName::SideLeft) => 4,
            SensorId::Camera(CameraName::SideRight) => 5,
            SensorId::Lidar(LidarName::Top) => 1,
            SensorId::Lidar(LidarName::Front) => 2,
            SensorId::Lidar(LidarName::SideLeft) => 3,
            SensorId::Lidar(LidarName::SideRight) => 4,
            SensorId::Lidar(LidarName::Rear) => 5,
        }
    }

    /// Where the sensor stands in the order of all sensors.
    pub fn position(self) -> (rank: i64)
        ensures
            rank == self.rank(),
    {
        match self {
            SensorId::Camera(_) => self.waymo_id(),
            SensorId::Lidar(_) => 5 + self.waymo_id(),
        }
    }

    /// The sensor as text, such as `camera:front`.
    pub fn to_text(self) -> (text: String)
        ensures
            text@ == self.text(),
    {
        match self {
            SensorId::Camera(name) => {
                let mut text: String = "camera:".to_owned();
                text.append(name.as_str());
                text
            },
            SensorId::Lidar(name) => {
                let mut text: String = "lidar:".to_owned();
                text.append(name.as_str());
                text
            },
        }
    }

    /// The sensor that a text names.
    pub fn parse(value: &str) -> (sensor: Result<SensorId, SensorParseError>)
        ensures
            match sensor {
                Ok(sensor) => parses_to(value@, Ok(sensor)),
                Err(error) => parses_to(value@, Err(error@)),
            },
    {
        let chars: Vec<char> = text::chars_of(value);
        let mut at: usize = 0;
        while at < chars.len() && chars[at] != ':'
            invariant
                at <= chars.len(),
                forall|i: int| 0 <= i < at ==> chars@[i] != ':',
            decreases chars.len() - at,
        {
            at = at + 1;
        }
        if at == chars.len() {
            return Err(SensorParseError::MissingSeparator);
        }
        assert(splits_at(value@, at as int));
        if text::chars_are(&chars, 0, at, "camera") {
            if let Some(name) = named_camera(&chars, at + 1) {
                return Ok(SensorId::Camera(name));
            }
        } else if text::chars_are(&chars, 0, at, "lidar") {
            if let Some(name) = named_lidar(&chars, at + 1) {
                return Ok(SensorId::Lidar(name));
            }
        }
        Err(SensorParseError::Unsupported(value.to_owned()))
    }
}

impl FromStr for SensorId {
    type Err = SensorParseError;

    fn from_str(value: &str) -> (sensor: Result<SensorId, SensorParseError>)
        ensures
            match sensor {
                Ok(sensor) => parses_to(value@, Ok(sensor)),
                Err(error) => parses_to(value@, Err(error@)),
            },
    {
        SensorId::parse(value)
    }
}

/// No two sensors of a kind have one number, and it is from 1 to 5.
pub proof fn law_numbers_tell_sensors_apart(one: SensorId, other: SensorId)
    ensures
        1 <= one.number() <= 5,
        one.is_camera() == other.is_camera() && one.number() == other.number() ==> one == other,
{
}

/// The text of a sensor names that sensor and no other.
pub proof fn law_text_parses_back(sensor: SensorId, other: SensorId)
    ensures
        parses_to(sensor.text(), Ok(sensor)),
        parses_to(sensor.text(), Ok(other)) ==> other == sensor,
{
    reveal_strlit("camera:");
    reveal_strlit("lidar:");
    reveal_strlit("camera");
    reveal_strlit("lidar");
    lemma_names_are_normal();
    let (at, kind, name) = match sensor {
        SensorId::Camera(name) => (6int, "camera"@, name.text()),
        SensorId::Lidar(name) => (5int, "lidar"@, name.text()),
    };
    let value = sensor.text();
    assert(value.take(at) =~= kind);
    assert(value.skip(at + 1) =~= name);
    assert(splits_at(value, at));
    assert(normal_text(name) == name);
    assert forall|split: int| splits_at(value, split) implies split == at by {
        if split < at {
            assert(value[split] != ':');
        }
    }
}

/// The names of the sensors are in their normal form, and differ.
proof fn lemma_names_are_normal()
    ensures
        forall|camera: CameraName| #[trigger]
            normal_text(camera.text()) == camera.text() && camera_named(camera.text()) == Some(
                camera,
            ),
        forall|lidar: LidarName| #[trigger]
            normal_text(lidar.text()) == lidar.text() && lidar_named(lidar.text()) == Some(lidar),
        "camera"@ != "lidar"@,
{
    reveal_strlit("camera");
    reveal_strlit("lidar");
    reveal_strlit("front");
    reveal_strlit("front_left");
    reveal_strlit("front_right");
    reveal_strlit("side_left");
    reveal_strlit("side_right");
    reveal_strlit("top");
    reveal_strlit("rear");
    assert("camera"@.len() != "lidar"@.len());
    assert("side_left"@[0] != "front_left"@[0]);
    assert("side_right"@[0] != "front_right"@[0]);
    assert("side_left"@.len() == 9 && "front_left"@.len() == 10 && "side_right"@.len() == 10
        && "front_right"@.len() == 11 && "front"@.len() == 5 && "top"@.len() == 3 && "rear"@.len()
        == 4);
    assert forall|camera: CameraName| #[trigger]
        normal_text(camera.text()) == camera.text() && camera_named(camera.text()) == Some(
            camera,
        ) by {
        assert(normal_text(camera.text()) =~= camera.text());
    }
    assert forall|lidar: LidarName| #[trigger]
        normal_text(lidar.text()) == lidar.text() && lidar_named(lidar.text()) == Some(lidar) by {
        assert(normal_text(lidar.text()) =~= lidar.text());
    }
}

/// One measurement of a sensor: a table of one row. Instants are in nanoseconds
/// from the start of the run.
#[derive(Debug)]
pub struct Measurement {
    pub sensor: SensorId,
    pub sequence: u64,
    pub sensor_timestamp_ns: i64,
    pub host_arrival_unix_ns: u64,
    pub due_at: u128,
    pub enqueued_at: u128,
    pub payload: Batch,
}

/// The delivery tells of the measurement, received at an instant and encoded in
/// these bytes.
pub open spec fn is_delivery(
    delivery: Delivery,
    measurement: Measurement,
    received_at: u128,
    encoded: Seq<u8>,
) -> bool {
    delivery == (Delivery {
        sequence: measurement.sequence,
        sensor_timestamp_ns: measurement.sensor_timestamp_ns,
        host_arrival_unix_ns: measurement.host_arrival_unix_ns,
        bytes: encoded.len() as u64,
        queue_wait: nanos::span(measurement.enqueued_at, received_at),
        age: nanos::span(measurement.due_at, received_at),
        checksum: checksum::crc32_of(encoded),
    })
}

impl Measurement {
    /// The payload in the Arrow IPC stream format.
    pub fn encode_ipc(&self) -> (bytes: Result<Vec<u8>, ArrowError>)
        requires
            table::fits_message(self.payload@.schema, self.payload@.columns),
        ensures
            match bytes {
                Ok(bytes) => table::ipc_stream_bytes(
                    self.payload@.schema,
                    self.payload@.columns,
                ) == Some(bytes@),
                Err(_) => table::ipc_stream_bytes(
                    self.payload@.schema,
                    self.payload@.columns,
                ) is None,
            },
    {
        self.payload.encode_ipc()
    }

    /// What there is to record of the measurement once it is encoded.
    pub fn delivery(&self, received_at: u128, encoded: &[u8]) -> (delivery: Delivery)
        ensures
            is_delivery(delivery, *self, received_at, encoded@),
    {
        Delivery {
            sequence: self.sequence,
            sensor_timestamp_ns: self.sensor_timestamp_ns,
            host_arrival_unix_ns: self.host_arrival_unix_ns,
            bytes: encoded.len() as u64,
            queue_wait: nanos::span_ns(self.enqueued_at, received_at),
            age: nanos::span_ns(self.due_at, received_at),
            checksum: checksum::crc32(encoded),
        }
    }

    /// Encodes the measurement, received at an instant, and says what there is to
    /// record of it.
    pub fn deliver(&self, received_at: u128) -> (delivery: Result<Delivery, ArrowError>)
        requires
            table::fits_message(self.payload@.schema, self.payload@.columns),
        ensures
            match delivery {
                Ok(delivery) => table::ipc_stream_bytes(
                    self.payload@.schema,
                    self.payload@.columns,
                ) matches Some(encoded) && is_delivery(delivery, *self, received_at, encoded),
                Err(_) => table::ipc_stream_bytes(
                    self.payload@.schema,
                    self.payload@.columns,
                ) is None,
            },
    {
        match self.encode_ipc() {
            Ok(encoded) => Ok(self.delivery(received_at, encoded.as_slice())),
            Err(error) => Err(error),
        }
    }
}

/// The keys by which measurements are replayed: by time, and by sensor where the
/// times are equal.
pub open spec fn replay_keys(measurements: Seq<Measurement>) -> Seq<i128> {
    measurements.map_values(
        |m: Measurement| (m.sensor_timestamp_ns * 16 + m.sensor.rank()) as i128,
    )
}

/// The measurements in the order in which they are replayed.
pub open spec fn is_replay_order(measurements: Seq<Measurement>, sorted: Seq<Measurement>) -> bool {
    exists|order: Seq<usize>| #[trigger]
        order::is_stable_order(replay_keys(measurements), order) && sorted == order.map_values(
            |at: usize| measurements[at as int],
        )
}

/// Sorts measurements by time and then by sensor; those that agree in both keep
/// their order.
pub fn order_measurements(measurements: Vec<Measurement>) -> (sorted: Vec<Measurement>)
    ensures
        is_replay_order(measurements@, sorted@),
{
    let ghost all = measurements@;
    let mut keys: Vec<i128> = Vec::new();
    let mut i: usize = 0;
    while i < measurements.len()
        invariant
            i <= measurements.len(),
            keys@ == replay_keys(measurements@.take(i as int)),
        decreases measurements.len() - i,
    {
        let time: i128 = measurements[i].sensor_timestamp_ns as i128;
        keys.push(time * 16 + measurements[i].sensor.position() as i128);
        i = i + 1;
        assert(keys@ =~= replay_keys(measurements@.take(i as int)));
    }
    assert(measurements@.take(i as int) =~= measurements@);
    let order: Vec<usize> = order::stable_order(keys.as_slice());
    proof {
        order::law_stable_order_is_a_permutation(keys@, order@);
    }
    let mut slots: Vec<Option<Measurement>> = Vec::new();
    for measurement in iter: measurements
        invariant
            iter.seq() == all,
            slots.len() == iter.index(),
            forall|j: int| 0 <= j < slots.len() ==> #[trigger] slots@[j] == Some(all[j]),
    {
        slots.push(Some(measurement));
    }
    let mut sorted: Vec<Measurement> = Vec::new();
    let mut at: usize = 0;
    while at < order.len()
        invariant
            at <= order.len(),
            slots.len() == all.len(),
            order::is_stable_order(replay_keys(all), order@),
            order@.no_duplicates(),
            forall|k: int|
                at <= k < order.len() ==> slots@[#[trigger] order@[k] as int] == Some(
                    all[order@[k] as int],
                ),
            sorted@ == order@.take(at as int).map_values(|at: usize| all[at as int]),
        decreases order.len() - at,
    {
        let taken = slots[order[at]].take();
        if let Some(measurement) = taken {
            sorted.push(measurement);
        }
        at = at + 1;
    }
    assert(order@.take(at as int) =~= order@);
    assert(sorted@ =~= order@.map_values(|at: usize| all[at as int]));
    sorted
}

/// Replayed measurements come by time, and by sensor where the times are equal,
/// and none is lost or repeated.
pub proof fn law_replay_order(
    measurements: Seq<Measurement>,
    sorted: Seq<Measurement>,
    i: int,
    j: int,
)
    requires
        is_replay_order(measurements, sorted),
        0 <= i < j < sorted.len(),
    ensures
        sorted.len() == measurements.len(),
        sorted[i].sensor_timestamp_ns <= sorted[j].sensor_timestamp_ns,
        sorted[i].sensor_timestamp_ns == sorted[j].sensor_timestamp_ns
            ==> sorted[i].sensor.rank() <= sorted[j].sensor.rank(),
{
    let order = choose|order: Seq<usize>| #[trigger]
        order::is_stable_order(replay_keys(measurements), order) && sorted == order.map_values(
            |at: usize| measurements[at as int],
        );
    assert(order::precedes(replay_keys(measurements), order[i] as int, order[j] as int));
}

/// A measurement waits from when it came into its queue, and ages from when it was
/// due, until it is received. So the wait does not depend on when it was due, nor
/// the age on when it came in; where it came in late, it is older than it waited.
pub proof fn law_deliveries_tell_wait_from_age(
    delivery: Delivery,
    measurement: Measurement,
    received_at: u128,
    encoded: Seq<u8>,
)
    requires
        is_delivery(delivery, measurement, received_at, encoded),
    ensures
        measurement.enqueued_at <= received_at ==> measurement.enqueued_at + delivery.queue_wait
            == received_at,
        measurement.enqueued_at >= received_at ==> delivery.queue_wait == 0,
        measurement.due_at <= received_at ==> measurement.due_at + delivery.age == received_at,
        measurement.due_at >= received_at ==> delivery.age == 0,
        measurement.due_at <= measurement.enqueued_at ==> delivery.queue_wait <= delivery.age,
{
}

/// A delivery names its measurement: its number, when the sensor took it and when
/// it arrived, and it tells the size and the checksum of what was encoded.
pub proof fn law_deliveries_name_their_measurement(
    delivery: Delivery,
    measurement: Measurement,
    received_at: u128,
    encoded: Seq<u8>,
)
    requires
        is_delivery(delivery, measurement, received_at, encoded),
        encoded.len() <= u64::MAX,
    ensures
        delivery.sequence == measurement.sequence,
        delivery.sensor_timestamp_ns == measurement.sensor_timestamp_ns,
        delivery.host_arrival_unix_ns == measurement.host_arrival_unix_ns,
        delivery.bytes == encoded.len(),
        delivery.checksum == checksum::crc32_of(encoded),
{
}

/// The dataset numbers the cameras from the front one over the front left and right
/// to the side left and right, and the LiDARs from the top one over the front and
/// the sides to the rear.
pub proof fn law_sensors_have_their_numbers(sensor: SensorId)
    ensures
        sensor.number() == match sensor {
            SensorId::Camera(CameraName::Front) | SensorId::Lidar(LidarName::Top) => 1int,
            SensorId::Camera(CameraName::FrontLeft) | SensorId::Lidar(LidarName::Front) => 2,
            SensorId::Camera(CameraName::FrontRight) | SensorId::Lidar(LidarName::SideLeft) => 3,
            SensorId::Camera(CameraName::SideLeft) | SensorId::Lidar(LidarName::SideRight) => 4,
            SensorId::Camera(CameraName::SideRight) | SensorId::Lidar(LidarName::Rear) => 5,
        },
        sensor.rank() == if sensor is Camera {
            sensor.number()
        } else {
            sensor.number() + 5
        },
{
}

/// A sensor's text is its kind, a colon, and its name, in which the place comes
/// before the side.
pub proof fn law_sensors_have_their_texts(camera: CameraName, lidar: LidarName)
    ensures
        SensorId::Camera(camera).text() == "camera:"@ + match camera {
            CameraName::Front => "front"@,
            CameraName::FrontLeft => "front"@ + "_left"@,
            CameraName::FrontRight => "front"@ + "_right"@,
            CameraName::SideLeft => "side"@ + "_left"@,
            CameraName::SideRight => "side"@ + "_right"@,
        },
        SensorId::Lidar(lidar).text() == "lidar:"@ + match lidar {
            LidarName::Top => "top"@,
            LidarName::Front => "front"@,
            LidarName::SideLeft => "side"@ + "_left"@,
            LidarName::SideRight => "side"@ + "_right"@,
            LidarName::Rear => "rear"@,
        },
{
    reveal_strlit("front");
    reveal_strlit("side");
    reveal_strlit("_left");
    reveal_strlit("_right");
    reveal_strlit("front_left");
    reveal_strlit("front_right");
    reveal_strlit("side_left");
    reveal_strlit("side_right");
    assert("front_left"@ =~= "front"@ + "_left"@);
    assert("front_right"@ =~= "front"@ + "_right"@);
    assert("side_left"@ =~= "side"@ + "_left"@);
    assert("side_right"@ =~= "side"@ + "_right"@);
}

/// A sensor's name can be written in capitals, and with hyphens for underscores: a
/// text that differs from the sensor's own only so, behind the colon, names it too.
pub proof fn law_names_can_be_written_in_capitals(sensor: SensorId, value: Seq<char>, colon: int)
    requires
        0 <= colon < sensor.text().len(),
        sensor.text()[colon] == ':',
        value.len() == sensor.text().len(),
        value.take(colon + 1) == sensor.text().take(colon + 1),
        forall|i: int|
            colon < i < value.len() ==> {
                ||| #[trigger] value[i] == sensor.text()[i]
                ||| 'A' <= value[i] <= 'Z' && value[i] as int + 32 == sensor.text()[i] as int
                ||| value[i] == '-' && sensor.text()[i] == '_'
            },
    ensures
        parses_to(value, Ok(sensor)),
{
    let text = sensor.text();
    law_text_parses_back(sensor, sensor);
    let at = choose|at: int| #[trigger]
        splits_at(text, at) && sensor_named(text.take(at), normal_text(text.skip(at + 1)))
            == Some(sensor);
    lemma_one_colon(sensor, at, colon);
    assert(value.take(colon + 1)[colon] == text.take(colon + 1)[colon]);
    assert forall|i: int| 0 <= i < colon implies value[i] != ':' by {
        assert(value.take(colon + 1)[i] == text.take(colon + 1)[i]);
    }
    assert(splits_at(value, colon));
    assert(value.take(colon) =~= text.take(colon)) by {
        assert forall|i: int| 0 <= i < colon implies value[i] == text[i] by {
            assert(value.take(colon + 1)[i] == text.take(colon + 1)[i]);
        }
    }
    lemma_texts_are_normal(sensor, colon);
    assert(normal_text(value.skip(colon + 1)) =~= normal_text(text.skip(colon + 1))) by {
        let (new, old) = (value.skip(colon + 1), text.skip(colon + 1));
        assert forall|i: int| 0 <= i < new.len() implies normal_char(#[trigger] new[i])
            == normal_char(old[i]) by {
            assert(new[i] == value[colon + 1 + i]);
            assert(normal_text(old)[i] == old[i]);
        }
    }
}

proof fn lemma_texts_are_normal(sensor: SensorId, colon: int)
    requires
        splits_at(sensor.text(), colon),
    ensures
        normal_text(sensor.text().skip(colon + 1)) == sensor.text().skip(colon + 1),
{
    reveal_strlit("camera:");
    reveal_strlit("lidar:");
    lemma_names_are_normal();
    let (at, name) = match sensor {
        SensorId::Camera(name) => (6int, name.text()),
        SensorId::Lidar(name) => (5int, name.text()),
    };
    assert(sensor.text()[at] == ':');
    if at < colon {
        assert(sensor.text()[at] != ':');
    }
    assert(colon == at);
    assert(sensor.text().skip(colon + 1) =~= name);
}

proof fn lemma_one_colon(sensor: SensorId, at: int, colon: int)
    requires
        splits_at(sensor.text(), at),
        0 <= colon < sensor.text().len(),
        sensor.text()[colon] == ':',
    ensures
        colon == at,
{
    lemma_texts_are_normal(sensor, at);
    let text = sensor.text();
    if colon < at {
        assert(text[colon] != ':');
    }
    if colon > at {
        lemma_names_have_no_colon(sensor, at, colon);
    }
}

proof fn lemma_names_have_no_colon(sensor: SensorId, at: int, i: int)
    requires
        splits_at(sensor.text(), at),
        at < i < sensor.text().len(),
    ensures
        sensor.text()[i] != ':',
{
    reveal_strlit("camera:");
    reveal_strlit("lidar:");
    reveal_strlit("front");
    reveal_strlit("front_left");
    reveal_strlit("front_right");
    reveal_strlit("side_left");
    reveal_strlit("side_right");
    reveal_strlit("top");
    reveal_strlit("rear");
    let start = match sensor {
        SensorId::Camera(_) => 6int,
        SensorId::Lidar(_) => 5int,
    };
    assert(sensor.text()[start] == ':');
    if start < at {
        assert(sensor.text()[start] != ':');
    }
}

/// Replaying loses nothing and repeats nothing, and measurements of one time and one
/// sensor keep the order in which they were loaded.
pub proof fn law_replay_keeps_every_measurement(
    measurements: Seq<Measurement>,
    sorted: Seq<Measurement>,
)
    requires
        is_replay_order(measurements, sorted),
        measurements.len() <= usize::MAX,
    ensures
        exists|places: Seq<usize>|
            {
                &&& #[trigger] order::is_permutation(places, measurements.len())
                &&& sorted == order::permuted(measurements, places)
                &&& forall|i: int, j: int|
                    0 <= i < j < places.len() && sorted[i].sensor_timestamp_ns
                        == sorted[j].sensor_timestamp_ns && sorted[i].sensor == sorted[j].sensor
                        ==> #[trigger] places[i] < #[trigger] places[j]
            },
{
    let keys = replay_keys(measurements);
    let places = choose|order: Seq<usize>| #[trigger]
        order::is_stable_order(keys, order) && sorted == order.map_values(
            |at: usize| measurements[at as int],
        );
    order::law_stable_order_is_a_permutation(keys, places);
    assert forall|i: int, j: int|
        0 <= i < j < places.len() && sorted[i].sensor_timestamp_ns == sorted[j].sensor_timestamp_ns
            && sorted[i].sensor == sorted[j].sensor implies #[trigger] places[i]
        < #[trigger] places[j] by {
        assert(order::precedes(keys, places[i] as int, places[j] as int));
    }
    assert(sorted =~= order::permuted(measurements, places));
    assert(order::is_permutation(places, measurements.len()));
}

/// A text that names a sensor reads as the sensor's own text, but for capitals and
/// hyphens behind the colon.
pub proof fn law_texts_name_no_other_sensor(value: Seq<char>, sensor: SensorId)
    requires
        parses_to(value, Ok(sensor)),
    ensures
        value.len() == sensor.text().len(),
        forall|i: int|
            0 <= i < value.len() ==> {
                ||| #[trigger] value[i] == sensor.text()[i]
                ||| 'A' <= value[i] <= 'Z' && value[i] as int + 32 == sensor.text()[i] as int
                ||| value[i] == '-' && sensor.text()[i] == '_'
            },
{
    reveal_strlit("camera:");
    reveal_strlit("lidar:");
    reveal_strlit("camera");
    reveal_strlit("lidar");
    let at = choose|at: int| #[trigger]
        splits_at(value, at) && sensor_named(value.take(at), normal_text(value.skip(at + 1)))
            == Some(sensor);
    let name = normal_text(value.skip(at + 1));
    let own = match sensor {
        SensorId::Camera(camera) => camera.text(),
        SensorId::Lidar(lidar) => lidar.text(),
    };
    assert(name == own);
    assert("camera"@ != "lidar"@) by {
        assert("camera"@.len() != "lidar"@.len());
    }
    assert(value.take(at).len() == at);
    assert(value.len() == at + 1 + name.len());
    assert forall|i: int| 0 <= i < value.len() implies {
        ||| #[trigger] value[i] == sensor.text()[i]
        ||| 'A' <= value[i] <= 'Z' && value[i] as int + 32 == sensor.text()[i] as int
        ||| value[i] == '-' && sensor.text()[i] == '_'
    } by {
        if i < at {
            assert(value.take(at)[i] == value[i]);
        } else if i > at {
            assert(value.skip(at + 1)[i - at - 1] == value[i]);
            assert(name[i - at - 1] == normal_char(value[i]));
        }
    }
}

} // verus!
