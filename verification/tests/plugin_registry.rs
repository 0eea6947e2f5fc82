use crab_code::plugin_registry::{
    default_enabled, default_state, plugin_config_dir, plugin_config_path, plugins_dir, PluginEntry, PluginRegistry,
    PluginState,
};


fn sample_entry(name: &str) -> PluginEntry {
    PluginEntry {
        name: name.to_string(),
        version: "1.0.0".to_string(),
        description: format!("Test plugin {name}"),
        author: "dev".to_string(),
        permissions: vec!["fs:read".to_string()],
        enabled: true,
        state: PluginState::Registered,
    }
}

// ── PluginState ─────────────────────────────────────────────────────


#[test]
fn plugin_state_display() {
    assert_eq!(PluginState::Registered.to_string(), "registered");
    assert_eq!(PluginState::Initialized.to_string(), "initialized");
    assert_eq!(PluginState::Running.to_string(), "running");
    assert_eq!(PluginState::Stopped.to_string(), "stopped");
    assert_eq!(PluginState::Disabled.to_string(), "disabled");
}

// ── PluginEntry ─────────────────────────────────────────────────────



// ── PluginRegistry basic ops ────────────────────────────────────────

#[test]
fn registry_new_is_empty() {
    let reg = PluginRegistry::new();
    assert!(reg.is_empty());
    assert_eq!(reg.len(), 0);
    assert!(reg.list().is_empty());
}

#[test]
fn registry_register_and_get() {
    let mut reg = PluginRegistry::new();
    reg.register(sample_entry("alpha"));
    assert_eq!(reg.len(), 1);
    assert!(reg.contains("alpha"));
    assert!(!reg.contains("beta"));

    let entry = reg.get("alpha").unwrap();
    assert_eq!(entry.version, "1.0.0");
}

#[test]
fn registry_register_overwrites() {
    let mut reg = PluginRegistry::new();
    reg.register(sample_entry("alpha"));

    let mut updated = sample_entry("alpha");
    updated.version = "2.0.0".to_string();
    reg.register(updated);

    assert_eq!(reg.len(), 1);
    assert_eq!(reg.get("alpha").unwrap().version, "2.0.0");
}

#[test]
fn registry_unregister() {
    let mut reg = PluginRegistry::new();
    reg.register(sample_entry("alpha"));
    reg.register(sample_entry("beta"));

    let removed = reg.unregister("alpha");
    assert!(removed.is_some());
    assert_eq!(removed.unwrap().name, "alpha");
    assert_eq!(reg.len(), 1);
    assert!(!reg.contains("alpha"));
}

#[test]
fn registry_unregister_nonexistent() {
    let mut reg = PluginRegistry::new();
    assert!(reg.unregister("ghost").is_none());
}

#[test]
fn registry_list_all() {
    let mut reg = PluginRegistry::new();
    reg.register(sample_entry("alpha"));
    reg.register(sample_entry("beta"));
    reg.register(sample_entry("gamma"));

    let all = reg.list();
    assert_eq!(all.len(), 3);
}

#[test]
fn registry_list_enabled() {
    let mut reg = PluginRegistry::new();
    reg.register(sample_entry("alpha"));
    reg.register(sample_entry("beta"));
    reg.disable("beta");

    let enabled = reg.list_enabled();
    assert_eq!(enabled.len(), 1);
    assert_eq!(enabled[0].name, "alpha");
}

// ── Enable / Disable ────────────────────────────────────────────────

#[test]
fn registry_disable_and_enable() {
    let mut reg = PluginRegistry::new();
    reg.register(sample_entry("alpha"));

    assert!(reg.disable("alpha"));
    let entry = reg.get("alpha").unwrap();
    assert!(!entry.enabled);
    assert_eq!(entry.state, PluginState::Disabled);

    assert!(reg.enable("alpha"));
    let entry = reg.get("alpha").unwrap();
    assert!(entry.enabled);
    assert_eq!(entry.state, PluginState::Registered);
}

#[test]
fn registry_enable_nonexistent_returns_false() {
    let mut reg = PluginRegistry::new();
    assert!(!reg.enable("ghost"));
    assert!(!reg.disable("ghost"));
}

// ── Lifecycle transitions ───────────────────────────────────────────

#[test]
fn lifecycle_registered_to_initialized() {
    let mut reg = PluginRegistry::new();
    reg.register(sample_entry("alpha"));
    assert!(reg.transition("alpha", PluginState::Initialized).is_ok());
    assert_eq!(reg.get("alpha").unwrap().state, PluginState::Initialized);
}

#[test]
fn lifecycle_initialized_to_running() {
    let mut reg = PluginRegistry::new();
    reg.register(sample_entry("alpha"));
    reg.transition("alpha", PluginState::Initialized).unwrap();
    assert!(reg.transition("alpha", PluginState::Running).is_ok());
    assert_eq!(reg.get("alpha").unwrap().state, PluginState::Running);
}

#[test]
fn lifecycle_running_to_stopped() {
    let mut reg = PluginRegistry::new();
    reg.register(sample_entry("alpha"));
    reg.transition("alpha", PluginState::Initialized).unwrap();
    reg.transition("alpha", PluginState::Running).unwrap();
    assert!(reg.transition("alpha", PluginState::Stopped).is_ok());
    assert_eq!(reg.get("alpha").unwrap().state, PluginState::Stopped);
}

#[test]
fn lifecycle_stopped_to_running_restart() {
    let mut reg = PluginRegistry::new();
    reg.register(sample_entry("alpha"));
    reg.transition("alpha", PluginState::Initialized).unwrap();
    reg.transition("alpha", PluginState::Running).unwrap();
    reg.transition("alpha", PluginState::Stopped).unwrap();
    assert!(reg.transition("alpha", PluginState::Running).is_ok());
    assert_eq!(reg.get("alpha").unwrap().state, PluginState::Running);
}

#[test]
fn lifecycle_stopped_to_registered_reinit() {
    let mut reg = PluginRegistry::new();
    reg.register(sample_entry("alpha"));
    reg.transition("alpha", PluginState::Initialized).unwrap();
    reg.transition("alpha", PluginState::Running).unwrap();
    reg.transition("alpha", PluginState::Stopped).unwrap();
    assert!(reg.transition("alpha", PluginState::Registered).is_ok());
}

#[test]
fn lifecycle_invalid_transition() {
    let mut reg = PluginRegistry::new();
    reg.register(sample_entry("alpha"));
    // Registered → Running (skipping Initialized) should fail
    let result = reg.transition("alpha", PluginState::Running);
    assert!(result.is_err());
}

#[test]
fn lifecycle_nonexistent_plugin() {
    let mut reg = PluginRegistry::new();
    let result = reg.transition("ghost", PluginState::Initialized);
    assert!(result.is_err());
}

// ── Persistence ─────────────────────────────────────────────────────






// ── Plugin config helpers ───────────────────────────────────────────



#[test]
fn get_mut_modifies_entry() {
    let mut reg = PluginRegistry::new();
    reg.register(sample_entry("alpha"));
    if let Some(entry) = reg.get_mut("alpha") {
        entry.version = "9.9.9".to_string();
    }
    assert_eq!(reg.get("alpha").unwrap().version, "9.9.9");
}

#[test]
fn default_registry_is_empty() {
    let reg = PluginRegistry::default();
    assert!(reg.is_empty());
}

#[test]
fn list_order_is_deterministic() {
    let mut reg = PluginRegistry::new();
    reg.register(sample_entry("gamma"));
    reg.register(sample_entry("alpha"));
    reg.register(sample_entry("beta"));

    let names: Vec<&str> = reg.list().iter().map(|e| e.name.as_str()).collect();
    // BTreeMap keeps sorted order
    assert_eq!(names, vec!["alpha", "beta", "gamma"]);
}

#[test]
fn enable_from_non_disabled_state() {
    let mut reg = PluginRegistry::new();
    reg.register(sample_entry("alpha"));
    reg.transition("alpha", PluginState::Initialized).unwrap();
    // Enable a plugin that's not disabled — should keep its state
    assert!(reg.enable("alpha"));
    assert_eq!(reg.get("alpha").unwrap().state, PluginState::Initialized);
}

#[test]
fn full_lifecycle_flow() {
    let mut reg = PluginRegistry::new();
    reg.register(sample_entry("my-tool"));

    // init → start → stop → restart → stop → re-init
    reg.transition("my-tool", PluginState::Initialized).unwrap();
    reg.transition("my-tool", PluginState::Running).unwrap();
    reg.transition("my-tool", PluginState::Stopped).unwrap();
    reg.transition("my-tool", PluginState::Running).unwrap();
    reg.transition("my-tool", PluginState::Stopped).unwrap();
    reg.transition("my-tool", PluginState::Registered).unwrap();

    assert_eq!(reg.get("my-tool").unwrap().state, PluginState::Registered);
}

#[test]
fn plugins_dir_under_global_config() {
    let dir = plugins_dir("/home/user");
    assert!(dir.contains("plugins"));
}

#[test]
fn plugin_config_path_structure() {
    let path = plugin_config_path("/home/user", "my-plugin");
    assert!(path.contains("plugins"));
    assert!(path.contains("my-plugin"));
    assert!(path.ends_with("config.json"));
}

#[test]
fn plugin_paths_exact() {
    assert_eq!(plugins_dir("/home/u"), "/home/u/.crab/plugins");
    assert_eq!(plugin_config_dir("/home/u", "p"), "/home/u/.crab/plugins/p");
    assert_eq!(PluginRegistry::registry_path("/home/u"), "/home/u/.crab/plugins/registry.json");
}

#[test]
fn entries_default_to_enabled_and_registered() {
    assert!(default_enabled());
    assert_eq!(default_state(), PluginState::Registered);
}
