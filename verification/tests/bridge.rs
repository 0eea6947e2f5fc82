use crab_code::bridge::{BridgeStatus, ClientSource};

#[test]
fn client_source_equality() {
    assert_eq!(ClientSource::VsCode, ClientSource::VsCode);
    assert_ne!(ClientSource::VsCode, ClientSource::Web);
}

#[test]
fn bridge_status_equality() {
    assert_eq!(BridgeStatus::Listening { port: 4180 }, BridgeStatus::Listening { port: 4180 });
    assert_ne!(BridgeStatus::Connected(1), BridgeStatus::Connected(2));
}
