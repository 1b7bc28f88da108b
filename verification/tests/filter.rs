use bevy_webcam_facial::filter::{SmoothingFilterType, WebcamFacialDataFiltered};

#[derive(Default, Clone, Copy, Debug, PartialEq)]
struct Sample {
    x: f32,
    score: f32,
}

fn mean(samples: &[Sample]) -> Sample {
    let n = samples.len() as f32;
    let mut sum = Sample::default();
    for s in samples {
        sum.x += s.x;
        sum.score += s.score;
    }
    Sample { x: sum.x / n, score: sum.score / n }
}

fn low_pass(samples: &[Sample], alpha: f32) -> Sample {
    let mut out = Sample::default();
    for s in samples {
        out.x += alpha * (s.x - out.x);
        out.score += alpha * (s.score - out.score);
    }
    out
}

fn all(samples: &[i64]) -> i64 {
    let mut v = 0;
    for s in samples {
        v = v * 10 + *s;
    }
    v
}

fn unused(_: &[i64], _: u8) -> i64 {
    -1
}

#[test]
fn window_keeps_only_the_latest_samples() {
    let mut w: WebcamFacialDataFiltered<i64, u8> =
        WebcamFacialDataFiltered::new(3, SmoothingFilterType::MeanMedian);
    for v in 1..=5 {
        w.push(v);
    }
    // oldest first: 3, 4, 5
    assert_eq!(w.len(), 3);
    assert_eq!(w.get(all, unused), 345);
}

#[test]
fn window_shorter_than_capacity_keeps_everything() {
    let mut w: WebcamFacialDataFiltered<i64, u8> =
        WebcamFacialDataFiltered::new(10, SmoothingFilterType::MeanMedian);
    w.push(1);
    w.push(2);
    assert_eq!(w.get(all, unused), 12);
}

#[test]
fn capacity_one_keeps_newest() {
    let mut w: WebcamFacialDataFiltered<i64, u8> =
        WebcamFacialDataFiltered::new(1, SmoothingFilterType::MeanMedian);
    w.push(7);
    w.push(8);
    w.push(9);
    assert_eq!(w.get(all, unused), 9);
}

#[test]
fn no_filter_returns_newest_sample() {
    let mut w: WebcamFacialDataFiltered<i64, u8> =
        WebcamFacialDataFiltered::new(4, SmoothingFilterType::NoFilter);
    w.push(3);
    w.push(-2);
    assert_eq!(w.get(all, unused), -2);
}

#[test]
fn empty_window_is_seeded_with_default() {
    let mut w: WebcamFacialDataFiltered<i64, u8> =
        WebcamFacialDataFiltered::new(4, SmoothingFilterType::NoFilter);
    assert_eq!(w.get(all, unused), 0);
    assert_eq!(w.len(), 1);
    let mut m: WebcamFacialDataFiltered<i64, u8> =
        WebcamFacialDataFiltered::new(4, SmoothingFilterType::MeanMedian);
    assert_eq!(m.get(all, unused), 0);
    m.push(5);
    assert_eq!(m.get(all, unused), 5);
}

#[test]
fn get_does_not_change_a_filled_window() {
    let mut w: WebcamFacialDataFiltered<i64, u8> =
        WebcamFacialDataFiltered::new(2, SmoothingFilterType::MeanMedian);
    w.push(1);
    w.push(2);
    assert_eq!(w.get(all, unused), 12);
    assert_eq!(w.get(all, unused), 12);
    w.push(3);
    assert_eq!(w.get(all, unused), 23);
}

#[test]
fn low_pass_receives_alpha_and_window() {
    let mut w: WebcamFacialDataFiltered<i64, u8> =
        WebcamFacialDataFiltered::new(3, SmoothingFilterType::LowPass(7));
    w.push(1);
    w.push(2);
    let r = w.get(|_: &[i64]| -1, |s: &[i64], a: u8| all(s) * 100 + a as i64);
    assert_eq!(r, 1207);
}

#[test]
fn mean_median_of_float_samples() {
    let mut w = WebcamFacialDataFiltered::new(2, SmoothingFilterType::MeanMedian);
    w.push(Sample { x: 10.0, score: 1.0 });
    w.push(Sample { x: 20.0, score: 3.0 });
    w.push(Sample { x: 40.0, score: 5.0 });
    let r = w.get(mean, low_pass);
    assert_eq!(r, Sample { x: 30.0, score: 4.0 });
}

#[test]
fn low_pass_of_float_samples() {
    let mut w = WebcamFacialDataFiltered::new(10, SmoothingFilterType::LowPass(0.5));
    w.push(Sample { x: 8.0, score: 4.0 });
    w.push(Sample { x: 8.0, score: 4.0 });
    let r = w.get(mean, low_pass);
    assert_eq!(r, Sample { x: 6.0, score: 3.0 });
}

#[test]
fn get_twice_same_sample_and_window() {
    let mut w = WebcamFacialDataFiltered::new(3, SmoothingFilterType::LowPass(0.5));
    w.push(Sample { x: 4.0, score: 2.0 });
    let a = w.get(mean, low_pass);
    let b = w.get(mean, low_pass);
    assert_eq!(a, b);
    assert_eq!(w.len(), 1);
}

#[test]
fn push_then_get_without_filter_gives_pushed_sample() {
    let mut w: WebcamFacialDataFiltered<i64, u8> =
        WebcamFacialDataFiltered::new(2, SmoothingFilterType::NoFilter);
    for v in [9, 8, 7, 6] {
        w.push(v);
        assert_eq!(w.get(all, unused), v);
    }
}

#[test]
fn len_grows_to_capacity_and_stays() {
    let mut w: WebcamFacialDataFiltered<i64, u8> =
        WebcamFacialDataFiltered::new(2, SmoothingFilterType::NoFilter);
    assert_eq!(w.len(), 0);
    w.push(1);
    assert_eq!(w.len(), 1);
    w.push(2);
    w.push(3);
    assert_eq!(w.len(), 2);
}
