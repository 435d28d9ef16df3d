use arewefastyet::cargo::Bytes;
use arewefastyet::cargo::CompilerMode;
use arewefastyet::cargo::Milliseconds;
use arewefastyet::cargo::ProfileMode;
use arewefastyet::codec::decode_result_file;
use arewefastyet::codec::encode_result_file;
use arewefastyet::profile::CompileTimeKey;
use arewefastyet::profile::Profile;
use arewefastyet::profile::SizeKey;
use arewefastyet::rustup::Version;
use arewefastyet::store::ProfileSet;
use arewefastyet::system::SystemInfo;

fn sample_host() -> SystemInfo {
    SystemInfo {
        num_cores: 8,
        num_physical_cores: 4,
        cpu_model: "Intel(R) Xeon(R) Gold 6140 CPU @ 2.30GHz".to_string(),
    }
}

fn sample_set() -> ProfileSet {
    let mut set = ProfileSet::new();
    let mut p = Profile::new();
    p.insert_compile_times(
        CompileTimeKey {
            version: Version::V1_45,
            compiler_mode: CompilerMode::Check,
            profile_mode: ProfileMode::Clean,
        },
        vec![Milliseconds(860), Milliseconds(910)],
    );
    p.insert_compile_times(
        CompileTimeKey {
            version: Version::V1_45,
            compiler_mode: CompilerMode::Release,
            profile_mode: ProfileMode::PatchIncremental,
        },
        vec![],
    );
    p.add_output_sizes(Version::V1_45, Bytes(412000), Bytes(298000));
    set.insert("helloworld".to_string(), p);
    set.insert("empty_one".to_string(), Profile::new());
    set
}

#[test]
fn persist_then_load_restores_the_records() {
    let si = sample_host();
    let set = sample_set();
    let text = encode_result_file(&si, &set);
    let (si2, set2) = decode_result_file(text.as_str()).expect("own encoding must load");

    assert_eq!(si2.num_cores, 8);
    assert_eq!(si2.num_physical_cores, 4);
    assert_eq!(si2.cpu_model, si.cpu_model);

    assert!(set2.contains("helloworld"));
    assert!(set2.contains("empty_one"));
    let p2 = set2.get("helloworld").unwrap();
    let clean = p2
        .get_compile_times(CompileTimeKey {
            version: Version::V1_45,
            compiler_mode: CompilerMode::Check,
            profile_mode: ProfileMode::Clean,
        })
        .unwrap();
    assert_eq!(clean.len(), 2);
    assert_eq!(clean[0], Milliseconds(860));
    assert_eq!(clean[1], Milliseconds(910));
    let patch = p2
        .get_compile_times(CompileTimeKey {
            version: Version::V1_45,
            compiler_mode: CompilerMode::Release,
            profile_mode: ProfileMode::PatchIncremental,
        })
        .unwrap();
    assert_eq!(patch.len(), 0);
    assert_eq!(
        p2.get_output_size(SizeKey {
            version: Version::V1_45,
            compiler_mode: CompilerMode::Debug,
        }),
        Some(Bytes(412000))
    );
    assert_eq!(
        p2.get_output_size(SizeKey {
            version: Version::V1_45,
            compiler_mode: CompilerMode::Release,
        }),
        Some(Bytes(298000))
    );

    // Loading again what the loaded set encodes gives the same text.
    let text2 = encode_result_file(&si2, &set2);
    assert_eq!(text, text2);
}

#[test]
fn quotes_and_backslashes_in_texts_round_trip() {
    let si = SystemInfo {
        num_cores: 2,
        num_physical_cores: 1,
        cpu_model: "odd \"model\" with \\ slashes".to_string(),
    };
    let mut set = ProfileSet::new();
    let mut p = Profile::new();
    p.add_output_sizes(Version::V1_50, Bytes(2), Bytes(1));
    set.insert("na\\me\"quoted".to_string(), p);
    let text = encode_result_file(&si, &set);
    let (si2, set2) = decode_result_file(text.as_str()).expect("own encoding must load");
    assert_eq!(si2.cpu_model, si.cpu_model);
    assert!(set2.contains("na\\me\"quoted"));
    // The escapes keep the file well-formed structured text.
    let value: serde_json::Value = serde_json::from_str(text.as_str()).expect("valid");
    let model = value.get("system_info").unwrap().get("cpu_model").unwrap();
    assert_eq!(model.as_str(), Some("odd \"model\" with \\ slashes"));
    assert!(value.get("profiles").unwrap().get("na\\me\"quoted").is_some());
}

#[test]
fn empty_record_set_round_trips() {
    let si = sample_host();
    let set = ProfileSet::new();
    let text = encode_result_file(&si, &set);
    let (_, set2) = decode_result_file(text.as_str()).expect("own encoding must load");
    assert_eq!(set2.len(), 0);
}

#[test]
fn garbage_is_no_prior_data() {
    assert!(decode_result_file("").is_none());
    assert!(decode_result_file("{}").is_none());
    assert!(decode_result_file("not a result file").is_none());
}

#[test]
fn encoding_is_wellformed_structured_text() {
    let si = sample_host();
    let set = sample_set();
    let text = encode_result_file(&si, &set);
    let value: serde_json::Value = serde_json::from_str(text.as_str()).expect("valid");
    let info = value.get("system_info").expect("host identity present");
    assert_eq!(info.get("num_cores").unwrap().as_u64(), Some(8));
    assert_eq!(info.get("num_physical_cores").unwrap().as_u64(), Some(4));
    let profiles = value.get("profiles").expect("records present");
    let hello = profiles.get("helloworld").expect("repo present");
    let times = hello.get("compile_times").unwrap();
    let bucket = times.get("1.45.0,Check,Clean").expect("flattened key present");
    assert_eq!(bucket.get(0).unwrap().as_u64(), Some(860));
    let sizes = hello.get("output_sizes").unwrap();
    assert_eq!(sizes.get("1.45.0,Debug").unwrap().as_u64(), Some(412000));
}
