use stardust::executor::{Delay, Executor, Poll, Poller};

enum Job {
    Forever,
    Wait(Delay),
}

struct Clock {
    now: u64,
    step: u64,
}

impl Poller<Job> for Clock {
    fn poll(&mut self, task: &mut Job) -> Poll {
        self.now += self.step;
        match task {
            Job::Forever => Poll::Pending,
            Job::Wait(d) => d.poll(self.now),
        }
    }
}

#[test]
fn delay_is_pending_before_its_deadline() {
    let d = Delay::new(1_000, 500);
    assert_eq!(d.expiration_timestamp, 1_500);
    assert_eq!(d.poll(1_000), Poll::Pending);
    assert_eq!(d.poll(1_499), Poll::Pending);
    assert_eq!(d.poll(1_500), Poll::Ready);
    assert_eq!(d.poll(9_999), Poll::Ready);
}

#[test]
fn run_ends_only_when_every_task_is_ready() {
    let mut ex = Executor::new();
    ex.spawn(Job::Forever);
    ex.spawn(Job::Wait(Delay::new(0, 100)));
    let mut clock = Clock { now: 0, step: 10 };
    assert!(!ex.run(&mut clock, 4));
    assert_eq!(ex.len(), 2);
    assert!(!ex.run(&mut clock, 1000));
    assert_eq!(ex.len(), 1);
    assert!(clock.now >= 100);
    assert!(!ex.run(&mut clock, 1000));
    assert_eq!(ex.len(), 1);
}

#[test]
fn run_ends_when_the_delays_expire() {
    let mut ex = Executor::new();
    ex.spawn(Job::Wait(Delay::new(0, 50)));
    ex.spawn(Job::Wait(Delay::new(0, 80)));
    let mut clock = Clock { now: 0, step: 10 };
    assert!(ex.run(&mut clock, 1000));
    assert!(ex.is_empty());
    assert!(clock.now >= 80);
}

#[test]
fn queue_is_first_in_first_out() {
    let mut ex = Executor::new();
    ex.spawn(1u32);
    ex.spawn(2u32);
    assert_eq!(ex.next_task(), Some(1));
    ex.settle(1, Poll::Pending);
    assert_eq!(ex.next_task(), Some(2));
    ex.settle(2, Poll::Ready);
    assert_eq!(ex.next_task(), Some(1));
    ex.settle(1, Poll::Ready);
    assert_eq!(ex.next_task(), None);
    assert!(ex.is_empty());
}
