use vstd::prelude::*;

use crate::errors::TickError;

verus! {

/// The all-or-nothing combination of one tick's three concurrently started
/// operations: the sensor read, the forecast lookup-or-refresh, and the
/// cadence delay. The first failure, taken in the fixed order sensor,
/// forecast, delay, aborts the whole tick; only when all three succeeded does
/// the tick carry data onward to the render step.
pub open spec fn spec_join(
    sensor: Result<i64, TickError>,
    forecast: Result<Vec<i64>, TickError>,
    delay: Result<(), TickError>,
) -> Result<(i64, Vec<i64>), TickError> {
    match sensor {
        Err(e) => Err(e),
        Ok(t) => match forecast {
            Err(e) => Err(e),
            Ok(v) => match delay {
                Err(e) => Err(e),
                Ok(_) => Ok((t, v)),
            },
        },
    }
}

/// Join the results of the tick's three concurrent operations once all of
/// them have completed. On success the temperature and the forecast series
/// pass through unchanged; on any failure the whole tick fails and the other
/// two results, even if successfully obtained, are discarded.
pub fn join_tick(
    sensor: Result<i64, TickError>,
    forecast: Result<Vec<i64>, TickError>,
    delay: Result<(), TickError>,
) -> (r: Result<(i64, Vec<i64>), TickError>)
    ensures
        r == spec_join(sensor, forecast, delay),
{
    match sensor {
        Err(e) => Err(e),
        Ok(t) => match forecast {
            Err(e) => Err(e),
            Ok(v) => match delay {
                Err(e) => Err(e),
                Ok(_) => Ok((t, v)),
            },
        },
    }
}

/// Atomicity across the join: when exactly one of the three operations
/// fails, the joined tick fails with that operation's error, so the tick
/// never reaches the render step.
pub proof fn lemma_join_atomic(
    sensor: Result<i64, TickError>,
    forecast: Result<Vec<i64>, TickError>,
    delay: Result<(), TickError>,
)
    requires
        (sensor is Err && forecast is Ok && delay is Ok) || (sensor is Ok && forecast is Err
            && delay is Ok) || (sensor is Ok && forecast is Ok && delay is Err),
    ensures
        spec_join(sensor, forecast, delay) is Err,
        sensor is Err ==> spec_join(sensor, forecast, delay) == Err::<(i64, Vec<i64>), TickError>(
            sensor->Err_0,
        ),
        forecast is Err ==> spec_join(sensor, forecast, delay) == Err::<(i64, Vec<i64>), TickError>(
            forecast->Err_0,
        ),
        delay is Err ==> spec_join(sensor, forecast, delay) == Err::<(i64, Vec<i64>), TickError>(
            delay->Err_0,
        ),
{
}

} // verus!
