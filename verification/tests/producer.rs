use database::client::{Amount, Client, Frequency, RunPeriod, Step, Tick};

#[test]
fn a_limited_client_counts_from_zero() {
    let c = Client::new(Amount::Limited(3), RunPeriod::Indefinite, Frequency::Immediate);
    assert_eq!(c.produced, Some(0));
    let c = Client::new(Amount::Unlimited, RunPeriod::Indefinite, Frequency::Immediate);
    assert_eq!(c.produced, None);
}

#[test]
fn an_unbounded_client_asks_its_producer() {
    let c = Client::new(Amount::Unlimited, RunPeriod::Indefinite, Frequency::Immediate);
    assert_eq!(c.poll(0), Step::PollProducer);
    assert_eq!(c.poll(u128::MAX), Step::PollProducer);
}

#[test]
fn a_delayed_client_waits_for_its_timer() {
    let c = Client::new(Amount::Unlimited, RunPeriod::Indefinite, Frequency::Delayed);
    assert_eq!(c.poll(5), Step::AwaitTick);
    assert_eq!(c.on_tick(Tick::NotReady), Step::Wait);
    assert_eq!(c.on_tick(Tick::Failed), Step::Fail);
    assert_eq!(c.on_tick(Tick::Ready), Step::PollProducer);
}

#[test]
fn the_run_period_ends_the_stream() {
    let c = Client::new(Amount::Unlimited, RunPeriod::Finite(1_000), Frequency::Delayed);
    assert_eq!(c.poll(999), Step::AwaitTick);
    assert_eq!(c.poll(1_000), Step::Finish);
    assert_eq!(c.poll(1_001), Step::Finish);
}

#[test]
fn the_amount_ends_the_stream() {
    let mut c = Client::new(Amount::Limited(2), RunPeriod::Finite(1_000), Frequency::Immediate);
    assert_eq!(c.poll(0), Step::PollProducer);
    c.on_item();
    assert_eq!(c.produced, Some(1));
    assert_eq!(c.poll(1), Step::PollProducer);
    c.on_item();
    assert_eq!(c.poll(2), Step::Finish);
}

#[test]
fn an_amount_of_nothing_ends_at_once() {
    let c = Client::new(Amount::Limited(0), RunPeriod::Indefinite, Frequency::Immediate);
    assert_eq!(c.poll(0), Step::Finish);
}

#[test]
fn an_unlimited_client_keeps_no_count() {
    let mut c = Client::new(Amount::Unlimited, RunPeriod::Indefinite, Frequency::Immediate);
    c.on_item();
    assert_eq!(c.produced, None);
    assert_eq!(c.amount, Amount::Unlimited);
}

#[test]
fn the_count_stops_at_the_largest_number() {
    let mut c = Client::new(Amount::Limited(u64::MAX), RunPeriod::Indefinite, Frequency::Delayed);
    c.produced = Some(u64::MAX - 1);
    assert_eq!(c.poll(0), Step::AwaitTick);
    c.on_item();
    assert_eq!(c.produced, Some(u64::MAX));
    c.on_item();
    assert_eq!(c.produced, Some(u64::MAX));
    assert_eq!(c.poll(0), Step::Finish);
    assert_eq!(c.frequency, Frequency::Delayed);
    assert_eq!(c.run_period, RunPeriod::Indefinite);
}
