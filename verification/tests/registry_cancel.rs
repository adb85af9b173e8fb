use agent_stream::registry::ProcessRegistry;

#[test]
fn register_lookup_unregister() {
    let mut reg = ProcessRegistry::new();
    assert!(!reg.is_process_running("s1"));
    reg.register_process("s1".to_string(), 100);
    assert!(reg.is_process_running("s1"));
    assert!(!reg.is_process_running("s2"));
    reg.unregister_process("s1");
    assert!(!reg.is_process_running("s1"));
}

#[test]
fn unregister_twice_is_noop() {
    let mut reg = ProcessRegistry::new();
    reg.register_process("s1".to_string(), 100);
    reg.unregister_process("s1");
    // The second removal has nothing to remove and changes nothing.
    reg.unregister_process("s1");
    assert!(!reg.is_process_running("s1"));
}

#[test]
fn register_again_replaces_mapping() {
    let mut reg = ProcessRegistry::new();
    reg.register_process("s1".to_string(), 100);
    reg.register_process("s1".to_string(), 200);
    assert!(reg.is_process_running("s1"));
    // Only one entry remains: removing once leaves nothing.
    reg.unregister_process("s1");
    assert!(!reg.is_process_running("s1"));
}

#[test]
fn independent_sessions() {
    let mut reg = ProcessRegistry::new();
    reg.register_process("a".to_string(), 1);
    reg.register_process("b".to_string(), 2);
    reg.unregister_process("a");
    assert!(!reg.is_process_running("a"));
    assert!(reg.is_process_running("b"));
}
