use arewefastyet::cargo::compiler_modes;
use arewefastyet::cargo::profile_modes;
use arewefastyet::cargo::Bytes;
use arewefastyet::cargo::CompilerMode;
use arewefastyet::cargo::Milliseconds;
use arewefastyet::cargo::ProfileMode;
use arewefastyet::profile::CompileTimeKey;
use arewefastyet::profile::Profile;
use arewefastyet::profile::SizeKey;
use arewefastyet::rustup::Version;

/// Fills every timing bucket and both size entries of one version, with
/// empty sample lists, as a record loaded from an old sweep might hold.
fn fill_version(p: &mut Profile, v: Version) {
    for cm in compiler_modes() {
        for pm in profile_modes() {
            p.insert_compile_times(
                CompileTimeKey { version: v, compiler_mode: cm, profile_mode: pm },
                vec![],
            );
        }
    }
    p.add_output_sizes(v, Bytes(0), Bytes(0));
}

#[test]
fn test_versions_to_profile() {
    // An empty record owes the whole catalog suffix from the minimum on.
    let profile = Profile::new();
    assert_eq!(
        profile.versions_to_profile(Version::V1_43),
        vec![
            Version::V1_43,
            Version::V1_44,
            Version::V1_45,
            Version::V1_46,
            Version::V1_47,
            Version::V1_48,
            Version::V1_49,
            Version::V1_50,
            Version::V1_51,
            Version::V1_52,
            Version::V1_53,
        ]
    );

    // A version with all nine buckets and both sizes, even with empty sample
    // lists, is fully profiled and drops out of the plan.
    let mut profile = Profile::new();
    fill_version(&mut profile, Version::V1_43);
    assert_eq!(
        profile.versions_to_profile(Version::V1_43),
        vec![
            Version::V1_44,
            Version::V1_45,
            Version::V1_46,
            Version::V1_47,
            Version::V1_48,
            Version::V1_49,
            Version::V1_50,
            Version::V1_51,
            Version::V1_52,
            Version::V1_53,
        ]
    );
}

#[test]
fn missing_one_bucket_keeps_the_version_owed() {
    let mut profile = Profile::new();
    fill_version(&mut profile, Version::V1_43);
    // Overwrite nothing; build a second record missing one bucket instead.
    let mut partial = Profile::new();
    for cm in compiler_modes() {
        for pm in profile_modes() {
            if cm == CompilerMode::Release && pm == ProfileMode::PatchIncremental {
                continue;
            }
            partial.insert_compile_times(
                CompileTimeKey { version: Version::V1_43, compiler_mode: cm, profile_mode: pm },
                vec![Milliseconds(5)],
            );
        }
    }
    partial.add_output_sizes(Version::V1_43, Bytes(10), Bytes(7));
    assert!(!partial.version_profiled(&Version::V1_43));
    let plan = partial.versions_to_profile(Version::V1_43);
    assert_eq!(plan[0], Version::V1_43);
    assert_eq!(plan.len(), 11);

    // One size entry missing also keeps the version owed.
    let mut sizeless = Profile::new();
    for cm in compiler_modes() {
        for pm in profile_modes() {
            sizeless.insert_compile_times(
                CompileTimeKey { version: Version::V1_43, compiler_mode: cm, profile_mode: pm },
                vec![Milliseconds(5)],
            );
        }
    }
    assert!(!sizeless.version_profiled(&Version::V1_43));

    assert!(profile.version_profiled(&Version::V1_43));
}

#[test]
fn minimum_version_bounds_the_plan() {
    let profile = Profile::new();
    let plan = profile.versions_to_profile(Version::V1_53);
    assert_eq!(plan, vec![Version::V1_53]);
    let plan = profile.versions_to_profile(Version::V1_34);
    assert_eq!(plan.len(), 20);
}

#[test]
fn getters_see_inserted_entries() {
    let mut p = Profile::new();
    let k = CompileTimeKey {
        version: Version::V1_40,
        compiler_mode: CompilerMode::Debug,
        profile_mode: ProfileMode::Clean,
    };
    assert!(p.get_compile_times(k).is_none());
    p.insert_compile_times(k, vec![Milliseconds(11), Milliseconds(12)]);
    assert_eq!(p.get_compile_times(k).unwrap().len(), 2);
    assert_eq!(p.get_compile_times(k).unwrap()[0], Milliseconds(11));
    // Overwriting replaces the bucket.
    p.insert_compile_times(k, vec![Milliseconds(9)]);
    assert_eq!(p.get_compile_times(k).unwrap().len(), 1);

    p.add_output_sizes(Version::V1_40, Bytes(100), Bytes(60));
    let dk = SizeKey { version: Version::V1_40, compiler_mode: CompilerMode::Debug };
    let rk = SizeKey { version: Version::V1_40, compiler_mode: CompilerMode::Release };
    assert_eq!(p.get_output_size(dk), Some(Bytes(100)));
    assert_eq!(p.get_output_size(rk), Some(Bytes(60)));
}
