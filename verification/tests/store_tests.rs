use arewefastyet::cargo::Bytes;
use arewefastyet::profile::Profile;
use arewefastyet::repo::Repo;
use arewefastyet::rustup::Version;
use arewefastyet::store::get_result_file_path;
use arewefastyet::store::ProfileSet;
use arewefastyet::system::SystemInfo;

fn host(cores: usize, physical: usize, model: &str) -> SystemInfo {
    SystemInfo { num_cores: cores, num_physical_cores: physical, cpu_model: model.to_string() }
}

#[test]
fn test_file_path() {
    let system_info = host(2, 2, "Intel(R) Xeon(R) Gold 6140 CPU @ 2.30GHz");
    let file_path = get_result_file_path("/tmp/", &system_info);
    assert_eq!(file_path, "/tmp/results-2-4397104837942437864.json");
}

#[test]
fn same_host_same_file_across_runs() {
    let a = host(8, 4, "model-x");
    let b = host(8, 4, "model-x");
    assert_eq!(get_result_file_path("/data", &a), get_result_file_path("/data", &b));
}

#[test]
fn different_hosts_different_files() {
    let a = host(8, 4, "model-x");
    let more_cores = host(16, 4, "model-x");
    let other_model = host(8, 4, "model-y");
    let other_physical = host(8, 8, "model-x");
    assert_ne!(
        get_result_file_path("/data", &a),
        get_result_file_path("/data", &more_cores)
    );
    assert_ne!(
        get_result_file_path("/data", &a),
        get_result_file_path("/data", &other_model)
    );
    assert_ne!(
        get_result_file_path("/data", &a),
        get_result_file_path("/data", &other_physical)
    );
}

fn repo(name: &str) -> Repo {
    Repo {
        name: name.to_string(),
        sub_directory: String::new(),
        url: format!("https://example.invalid/{}", name),
        touch_file: "src/main.rs".to_string(),
        output: name.to_string(),
        commit_hash: "0ee163a".to_string(),
        min_version: Version::V1_45,
    }
}

#[test]
fn merge_catalog_adds_new_names_and_keeps_records() {
    let mut set = ProfileSet::new();
    let mut p = Profile::new();
    p.add_output_sizes(Version::V1_45, Bytes(5), Bytes(3));
    set.insert("alpha".to_string(), p);

    let repos = vec![repo("alpha"), repo("beta")];
    set.merge_catalog(&repos);

    assert!(set.contains("alpha"));
    assert!(set.contains("beta"));
    assert!(!set.contains("gamma"));
    // The existing record is untouched by the merge.
    let alpha = set.get("alpha").unwrap();
    assert!(alpha.version_profiled(&Version::V1_45) == false);
    assert_eq!(
        alpha.get_output_size(arewefastyet::profile::SizeKey {
            version: Version::V1_45,
            compiler_mode: arewefastyet::cargo::CompilerMode::Debug,
        }),
        Some(Bytes(5))
    );
    // The new record starts empty.
    let beta = set.get("beta").unwrap();
    assert_eq!(beta.versions_to_profile(Version::V1_53).len(), 1);
}

#[test]
fn take_and_insert_round_a_record_through_mutation() {
    let mut set = ProfileSet::new();
    set.insert("alpha".to_string(), Profile::new());
    let mut p = set.take("alpha").unwrap();
    assert!(set.take("alpha").is_none());
    p.add_output_sizes(Version::V1_50, Bytes(9), Bytes(4));
    set.insert("alpha".to_string(), p);
    let back = set.get("alpha").unwrap();
    assert_eq!(
        back.get_output_size(arewefastyet::profile::SizeKey {
            version: Version::V1_50,
            compiler_mode: arewefastyet::cargo::CompilerMode::Release,
        }),
        Some(Bytes(4))
    );
}
