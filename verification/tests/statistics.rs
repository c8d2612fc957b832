use async_in_embedded::statistics::Statistics;

fn json(s: &Statistics) -> String {
    String::from_utf8(s.to_json()).unwrap()
}

#[test]
fn new_statistics() {
    let s = Statistics::new();
    assert_eq!((s.min(), s.max(), s.mean(), s.count()), (255, 0, 0, 0));
    assert_eq!(json(&s), "{\"min\": 255, \"max\": 0, \"mean\": 0, \"count\": 0}");
}

#[test]
fn update_tracks_extremes_count_and_mean() {
    let mut s = Statistics::new();
    s.update_statistics(10);
    assert_eq!((s.min(), s.max(), s.mean(), s.count()), (10, 10, 10, 1));
    s.update_statistics(20);
    assert_eq!((s.min(), s.max(), s.mean(), s.count()), (10, 20, 15, 2));
    s.update_statistics(0);
    assert_eq!((s.min(), s.max(), s.mean(), s.count()), (0, 20, 10, 3));
    assert_eq!(json(&s), "{\"min\": 0, \"max\": 20, \"mean\": 10, \"count\": 3}");
}

#[test]
fn running_mean_rounds_down_at_each_sample() {
    // true mean of [1, 2, 0] is 1, the running mean ends at 0
    let mut s = Statistics::new();
    for e in [1u8, 2, 0] {
        s.update_statistics(e);
    }
    assert_eq!(s.mean(), 0);
    assert_eq!((s.min(), s.max(), s.count()), (0, 2, 3));
}

#[test]
fn mean_stays_between_extremes_and_below_true_mean() {
    let samples: Vec<u8> = (0..1000u32).map(|i| ((i * 37 + 11) % 256) as u8).collect();
    let mut s = Statistics::new();
    let mut sum: u64 = 0;
    for (n, e) in samples.iter().enumerate() {
        s.update_statistics(*e);
        sum += *e as u64;
        let count = n as u64 + 1;
        assert_eq!(s.count() as u64, count);
        assert!(s.min() <= s.mean() && s.mean() <= s.max());
        assert!(s.mean() as u64 * count <= sum);
        assert_eq!(s.min(), *samples[..=n].iter().min().unwrap());
        assert_eq!(s.max(), *samples[..=n].iter().max().unwrap());
    }
}

#[test]
fn json_of_large_values() {
    let mut s = Statistics::new();
    s.update_statistics(255);
    s.update_statistics(255);
    assert_eq!(json(&s), "{\"min\": 255, \"max\": 255, \"mean\": 255, \"count\": 2}");
}

#[test]
fn clone_keeps_fields() {
    let mut s = Statistics::new();
    s.update_statistics(7);
    let c = s.clone();
    assert_eq!((c.min(), c.max(), c.mean(), c.count()), (7, 7, 7, 1));
}
