use weatherpanel::errors::TickError;
use weatherpanel::orchestrator::join_tick;

#[test]
fn all_three_successes_carry_data_through() {
    let r = join_tick(Ok(21500), Ok(vec![5000, 5100]), Ok(()));
    assert_eq!(r.unwrap(), (21500, vec![5000, 5100]));
}

#[test]
fn sensor_failure_aborts_the_tick() {
    // The other two results are discarded: the tick must not render.
    let r = join_tick(Err(TickError::IoError), Ok(vec![5000]), Ok(()));
    assert_eq!(r.unwrap_err(), TickError::IoError);
}

#[test]
fn forecast_failure_aborts_the_tick() {
    let r = join_tick(Ok(21500), Err(TickError::ProtocolError), Ok(()));
    assert_eq!(r.unwrap_err(), TickError::ProtocolError);
}

#[test]
fn delay_failure_aborts_the_tick() {
    let r = join_tick(Ok(21500), Ok(vec![5000]), Err(TickError::DisplayError));
    assert_eq!(r.unwrap_err(), TickError::DisplayError);
}

#[test]
fn earlier_failure_wins_when_several_fail() {
    let r = join_tick(
        Err(TickError::IoError),
        Err(TickError::DecodeError),
        Err(TickError::DisplayError),
    );
    assert_eq!(r.unwrap_err(), TickError::IoError);
    let r = join_tick(Ok(0), Err(TickError::DecodeError), Err(TickError::DisplayError));
    assert_eq!(r.unwrap_err(), TickError::DecodeError);
}
