use weatherpanel::met::{Data, Details, Instant, Properties, Response, Timeseries};

fn document(samples: Vec<(i64, i64)>) -> Response {
    let timeseries = samples
        .into_iter()
        .map(|(time, milli)| Timeseries {
            time,
            data: Data {
                instant: Instant {
                    details: Details {
                        air_temperature: milli,
                    },
                },
            },
        })
        .collect();
    Response {
        properties: Properties { timeseries },
    }
}

const HOUR: i64 = 3600;

#[test]
fn hourly_document_fills_the_horizon() {
    let now = 1_700_000_000;
    let mut samples = Vec::new();
    for k in 1..=72 {
        samples.push((now + k * HOUR, 5000));
    }
    let doc = document(samples);
    let series = doc.next_n_hours(now, 48);
    assert_eq!(series.len(), 48);
    assert!(series.iter().all(|&milli| milli == 5000));
}

#[test]
fn samples_at_or_before_now_are_excluded() {
    let now = 1_700_000_000;
    let doc = document(vec![
        (now - HOUR, 1000),
        (now, 2000),
        (now + HOUR, 3000),
    ]);
    let series = doc.next_n_hours(now, 48);
    assert_eq!(series, vec![3000]);
}

#[test]
fn order_is_preserved_and_truncated() {
    let now = 100;
    let doc = document(vec![
        (200, 7),
        (300, -3),
        (400, 12),
        (500, 8),
    ]);
    assert_eq!(doc.next_n_hours(now, 3), vec![7, -3, 12]);
    assert_eq!(doc.next_n_hours(now, 0), Vec::<i64>::new());
}

#[test]
fn short_series_is_valid_output() {
    let now = 100;
    let doc = document(vec![(50, 1), (200, 4), (300, 9)]);
    assert_eq!(doc.next_n_hours(now, 48), vec![4, 9]);
}

#[test]
fn empty_document_projects_to_nothing() {
    let doc = document(Vec::new());
    assert_eq!(doc.next_n_hours(0, 48), Vec::<i64>::new());
}

#[test]
fn projection_is_idempotent() {
    let now = 1_700_000_000;
    let doc = document(vec![
        (now + HOUR, 2500),
        (now + 2 * HOUR, 2600),
        (now + 3 * HOUR, 2400),
    ]);
    let first = doc.next_n_hours(now, 48);
    let second = doc.next_n_hours(now, 48);
    assert_eq!(first, second);
}
