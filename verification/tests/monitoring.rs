#[test]
fn test_advanced_monitoring_module_loads() {
    println!("✓ Advanced Monitoring module loaded successfully");
}
