use crab_code::remote::RemoteSessionId;
use std::collections::HashSet;

#[test]
fn id_is_hashable() {
    let mut set = HashSet::new();
    set.insert(RemoteSessionId("abc".into()));
    assert!(set.contains(&RemoteSessionId("abc".into())));
}
