use crab_code::hook::HookTrigger;




#[test]
fn dispatched_events_are_a_subset() {
    let dispatched = HookTrigger::ALL
        .iter()
        .filter(|t| t.is_dispatched())
        .count();
    assert_eq!(dispatched, 10);
}
