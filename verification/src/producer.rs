//! What a push into a sensor's queue comes to in the metrics.
use vstd::prelude::*;

use crate::measurement::{Measurement, SensorId};
use crate::metrics::{self, RunMetrics};
#[allow(unused_imports)]
use crate::metrics::{Delivery, MetricsModel};
use crate::queue::PushResult;
#[allow(unused_imports)]
use crate::queue::QueueState;

verus! {

/// What a run has recorded once a measurement was accepted.
pub open spec fn with_accepted(
    run: Map<SensorId, MetricsModel>,
    sensor: SensorId,
    depth: int,
) -> Map<SensorId, MetricsModel> {
    run.insert(sensor, metrics::metrics_of(run, sensor).with_accepted(depth))
}

/// What a run has recorded once a measurement was dropped.
pub open spec fn with_dropped(
    run: Map<SensorId, MetricsModel>,
    dropped: Measurement,
) -> Map<SensorId, MetricsModel> {
    run.insert(
        dropped.sensor,
        metrics::metrics_of(run, dropped.sensor).with_dropped(
            metrics::dropped_record(
                dropped.sequence,
                dropped.sensor_timestamp_ns,
                dropped.host_arrival_unix_ns,
            ),
        ),
    )
}

/// What a run has recorded once a push was answered.
pub open spec fn after_push(
    run: Map<SensorId, MetricsModel>,
    sensor: SensorId,
    result: PushResult<Measurement>,
) -> Map<SensorId, MetricsModel> {
    match result {
        PushResult::Accepted { depth, dropped: None } => with_accepted(run, sensor, depth as int),
        PushResult::Accepted { depth, dropped: Some(dropped) } => with_dropped(
            with_accepted(run, sensor, depth as int),
            dropped,
        ),
        PushResult::Closed => run,
    }
}

/// Records how a push for a sensor was answered. The queue takes no more once it
/// is closed.
pub fn record_push(
    run: &mut RunMetrics,
    sensor: SensorId,
    result: PushResult<Measurement>,
) -> (open: bool)
    requires
        old(run).valid(),
        metrics::metrics_of(old(run)@, sensor).accepted < u64::MAX,
        result matches PushResult::Accepted { dropped: Some(dropped), .. } ==> metrics::metrics_of(
            old(run)@,
            dropped.sensor,
        ).dropped < u64::MAX,
    ensures
        final(run).valid(),
        final(run)@ == after_push(old(run)@, sensor, result),
        open == (result is Accepted),
{
    match result {
        PushResult::Accepted { depth, dropped } => {
            run.for_sensor(sensor).record_accepted(depth);
            if let Some(dropped) = dropped {
                run.for_sensor(dropped.sensor).record_dropped(
                    dropped.sequence,
                    dropped.sensor_timestamp_ns,
                    dropped.host_arrival_unix_ns,
                );
            }
            true
        },
        PushResult::Closed => false,
    }
}

/// Every measurement of a sensor that was accepted was delivered, was dropped, or
/// waits in its queue.
pub open spec fn accounted_for(metrics: MetricsModel, queue: QueueState<Measurement>) -> bool {
    metrics.accepted == metrics.delivered + metrics.dropped + queue.items.len()
}

/// The queue holds measurements of one sensor.
pub open spec fn holds_only(queue: QueueState<Measurement>, sensor: SensorId) -> bool {
    forall|i: int| 0 <= i < queue.items.len() ==> (#[trigger] queue.items[i]).sensor == sensor
}

/// Recording a push leaves every accepted measurement accounted for.
pub proof fn law_pushes_are_accounted_for(
    run: Map<SensorId, MetricsModel>,
    queue: QueueState<Measurement>,
    measurement: Measurement,
    depth: usize,
)
    requires
        queue.valid(),
        !queue.closed,
        !queue.push_waits(),
        holds_only(queue, measurement.sensor),
        accounted_for(metrics::metrics_of(run, measurement.sensor), queue),
    ensures
        holds_only(queue.after_push(measurement), measurement.sensor),
        accounted_for(
            metrics::metrics_of(
                after_push(
                    run,
                    measurement.sensor,
                    PushResult::Accepted { depth, dropped: queue.makes_room() },
                ),
                measurement.sensor,
            ),
            queue.after_push(measurement),
        ),
{
    if let Some(dropped) = queue.makes_room() {
        assert(dropped == queue.items[0]);
    }
}

/// Delivering what leaves the queue leaves every accepted measurement accounted
/// for.
pub proof fn law_deliveries_are_accounted_for(
    metrics: MetricsModel,
    queue: QueueState<Measurement>,
    delivery: Delivery,
    now: u128,
)
    requires
        queue.valid(),
        queue.items.len() > 0,
        accounted_for(metrics, queue),
    ensures
        queue.head() is Some,
        accounted_for(metrics.with_delivered(delivery, now), queue.after_pop()),
{
}

/// A push that was accepted counts once for its sensor, at the depth that the queue
/// then had. What it dropped counts once for the sensor of what was dropped, and is
/// on record with its number and its times. A closed queue changes nothing.
pub proof fn law_pushes_are_recorded(
    run: Map<SensorId, MetricsModel>,
    sensor: SensorId,
    result: PushResult<Measurement>,
)
    ensures
        ({
            let before = metrics::metrics_of(run, sensor);
            let after = metrics::metrics_of(after_push(run, sensor, result), sensor);
            match result {
                PushResult::Closed => after_push(run, sensor, result) == run,
                PushResult::Accepted { depth, dropped } => {
                    &&& after.accepted == before.accepted + 1
                    &&& after.delivered == before.delivered
                    &&& after.submitted == before.submitted
                    &&& after.max_depth >= depth && after.max_depth >= before.max_depth
                    &&& after.max_depth == depth || after.max_depth == before.max_depth
                    &&& dropped is None ==> after.dropped == before.dropped && after.records
                        == before.records
                },
            }
        }),
        result matches PushResult::Accepted { dropped: Some(dropped), .. } ==> {
            let before = metrics::metrics_of(run, dropped.sensor);
            let after = metrics::metrics_of(after_push(run, sensor, result), dropped.sensor);
            &&& after.dropped == before.dropped + 1
            &&& after.records.len() == before.records.len() + 1
            &&& after.records.drop_last() == before.records
            &&& after.records.last().status is Dropped
            &&& after.records.last().sequence == dropped.sequence
            &&& after.records.last().sensor_timestamp_ns == dropped.sensor_timestamp_ns
            &&& after.records.last().host_arrival_unix_ns == dropped.host_arrival_unix_ns
            &&& dropped.sensor != sensor ==> after.accepted == before.accepted
        },
{
    if let PushResult::Accepted { dropped: Some(dropped), .. } = result {
        let before = metrics::metrics_of(run, dropped.sensor);
        let after = metrics::metrics_of(after_push(run, sensor, result), dropped.sensor);
        assert(after.records.drop_last() =~= before.records);
    }
}

} // verus!
