use arewefastyet::system::cpu_model_from;
use arewefastyet::system::SystemInfo;

fn sample_cpuinfo() -> String {
    let mut s = String::new();
    s.push_str("processor\t: 0\n");
    s.push_str("vendor_id\t: GenuineIntel\n");
    s.push_str("model\t\t: 85\n");
    s.push_str("model name\t: Intel(R) Xeon(R) Gold 6140 CPU @ 2.30GHz\n");
    s.push_str("stepping\t: 4\n");
    s
}

#[test]
fn test_fill_system_info() {
    let info = SystemInfo::new(sample_cpuinfo().as_str()).expect("listing names a model");
    println!("{:?}", info);
    assert!(info.num_cores >= 1);
    assert!(info.num_physical_cores >= 1);
    assert_eq!(info.cpu_model, "Intel(R) Xeon(R) Gold 6140 CPU @ 2.30GHz");
}

#[test]
fn model_is_read_after_the_last_colon_of_the_line() {
    assert_eq!(
        cpu_model_from("model name\t: AMD EPYC 7571\nflags\t: fpu vme\n"),
        Some("AMD EPYC 7571".to_string())
    );
    // Only the first model line counts.
    assert_eq!(
        cpu_model_from("model name\t: first\nmodel name\t: second\n"),
        Some("first".to_string())
    );
    // A listing without a model line gives nothing.
    assert_eq!(cpu_model_from("processor: 0\nvendor: x\n"), None);
    assert_eq!(cpu_model_from(""), None);
}
