use minesweeper::duration::TimeSpan;
use minesweeper::egui_fps::FpsCounter;
use minesweeper::time_sampler::{SampleHolder, Sampler};

/// Gives the numbers of a script, one per start and stop.
#[derive(Default)]
struct Scripted {
    started: bool,
    script: Vec<u32>,
    next: usize,
}

impl Sampler for Scripted {
    type Output = u32;

    fn start(&mut self) {
        self.started = true;
    }

    fn stop(&mut self) -> Option<u32> {
        if !self.started {
            return None;
        }
        self.started = false;
        let v = self.script[self.next % self.script.len()];
        self.next += 1;
        Some(v)
    }
}

fn scripted(script: &[u32]) -> Scripted {
    Scripted { started: false, script: script.to_vec(), next: 0 }
}

fn sample_once<const N: usize>(h: &mut SampleHolder<N, Scripted>) {
    h.start();
    h.stop();
}

#[test]
fn holder_starts_empty() {
    let h: SampleHolder<4, Scripted> = SampleHolder::new_default_copy();
    assert_eq!(h.end(), 0);
    assert_eq!(h.get_max(), None);
    assert_eq!(h.get_min(), None);
    for i in 0..4 {
        assert_eq!(*h.sample(i), 0);
    }
}

#[test]
fn holder_constructors() {
    let h: SampleHolder<3, Scripted> = SampleHolder::new_from_fn(|i| (i as u32) * 10, scripted(&[1]));
    assert_eq!(*h.sample(0), 0);
    assert_eq!(*h.sample(2), 20);
    let h: SampleHolder<3, Scripted> = SampleHolder::new_clone(7, scripted(&[1]));
    assert_eq!(*h.sample(1), 7);
}

#[test]
fn holder_keeps_samples_in_a_ring() {
    let mut h: SampleHolder<3, Scripted> = SampleHolder::new_clone(0, scripted(&[5, 9, 2, 9, 4]));
    // a stop without a start takes nothing
    h.stop();
    assert_eq!(h.end(), 0);
    sample_once(&mut h);
    assert_eq!(h.end(), 1);
    assert_eq!(h.get_max(), Some(&5));
    sample_once(&mut h);
    sample_once(&mut h);
    assert_eq!((*h.sample(0), *h.sample(1), *h.sample(2)), (5, 9, 2));
    // once the ring is full only the first N - 1 places count
    assert_eq!(h.end(), 2);
    assert_eq!(h.get_max(), Some(&9));
    assert_eq!(h.get_min(), Some(&5));
    sample_once(&mut h);
    assert_eq!(*h.sample(0), 9);
    assert_eq!(h.end(), 2);
    assert_eq!(h.get_min(), Some(&9));
}

#[test]
fn fps_counter_average_and_max() {
    let mut c: FpsCounter<4> = FpsCounter::new();
    assert_eq!(c.get_average(), TimeSpan::zero());
    assert_eq!(c.get_max(), TimeSpan::zero());
    // a stop without a start takes nothing
    c.stop_timer();
    assert_eq!(c.get_average(), TimeSpan::zero());
    c.start_timer();
    c.stop_timer();
    let one = c.get_average();
    assert_eq!(c.get_max(), one);
    assert!(one.nanos < 1_000_000_000);
    assert!(one.secs < 5);
}

#[test]
fn holder_records_given_samples() {
    let mut h: SampleHolder<2, Scripted> = SampleHolder::new_clone(0, scripted(&[1]));
    h.record_sample(None);
    assert_eq!(h.end(), 0);
    h.record_sample(Some(4));
    assert_eq!(*h.sample(0), 4);
    assert_eq!(h.end(), 1);
    h.record_sample(Some(6));
    assert_eq!((*h.sample(0), *h.sample(1)), (4, 6));
    // the ring is full: only the first place counts
    assert_eq!(h.end(), 1);
    h.record_sample(Some(8));
    assert_eq!(*h.sample(0), 8);
}

#[test]
fn fps_counter_records_given_samples() {
    let mut c: FpsCounter<3> = FpsCounter::new();
    c.record_sample(TimeSpan { secs: 1, nanos: 500_000_000 });
    c.record_sample(TimeSpan { secs: 0, nanos: 700_000_000 });
    // two samples: the average of both
    assert_eq!(c.get_average(), TimeSpan { secs: 1, nanos: 100_000_000 });
    assert_eq!(c.get_max(), TimeSpan { secs: 1, nanos: 500_000_000 });
    c.record_sample(TimeSpan { secs: 3, nanos: 0 });
    // the ring is full: the average is over the first two places
    assert_eq!(c.get_average(), TimeSpan { secs: 1, nanos: 100_000_000 });
    assert_eq!(c.get_max(), TimeSpan { secs: 3, nanos: 0 });
}
