//! The toolchain version catalog: a statically known, totally ordered range of
//! compiler releases, with the canonical string form used on the wire and in
//! stored result files.

use vstd::prelude::*;

verus! {

/// One toolchain release in the benchmark's ordered range.
#[derive(Debug, Clone, Copy, PartialEq, Eq, Structural)]
pub enum Version {
    V1_34,
    V1_35,
    V1_36,
    V1_37,
    V1_38,
    V1_39,
    V1_40,
    V1_41,
    V1_42,
    V1_43,
    V1_44,
    V1_45,
    V1_46,
    V1_47,
    V1_48,
    V1_49,
    V1_50,
    V1_51,
    V1_52,
    V1_53,
}

impl Version {
    /// Position of a release in the total order: its minor version number.
    pub open spec fn spec_ordinal(self) -> int {
        match self {
            Version::V1_34 => 34,
            Version::V1_35 => 35,
            Version::V1_36 => 36,
            Version::V1_37 => 37,
            Version::V1_38 => 38,
            Version::V1_39 => 39,
            Version::V1_40 => 40,
            Version::V1_41 => 41,
            Version::V1_42 => 42,
            Version::V1_43 => 43,
            Version::V1_44 => 44,
            Version::V1_45 => 45,
            Version::V1_46 => 46,
            Version::V1_47 => 47,
            Version::V1_48 => 48,
            Version::V1_49 => 49,
            Version::V1_50 => 50,
            Version::V1_51 => 51,
            Version::V1_52 => 52,
            Version::V1_53 => 53,
        }
    }

    pub fn ordinal(self) -> (n: u8)
        ensures
            n as int == self.spec_ordinal(),
    {
        match self {
            Version::V1_34 => 34,
            Version::V1_35 => 35,
            Version::V1_36 => 36,
            Version::V1_37 => 37,
            Version::V1_38 => 38,
            Version::V1_39 => 39,
            Version::V1_40 => 40,
            Version::V1_41 => 41,
            Version::V1_42 => 42,
            Version::V1_43 => 43,
            Version::V1_44 => 44,
            Version::V1_45 => 45,
            Version::V1_46 => 46,
            Version::V1_47 => 47,
            Version::V1_48 => 48,
            Version::V1_49 => 49,
            Version::V1_50 => 50,
            Version::V1_51 => 51,
            Version::V1_52 => 52,
            Version::V1_53 => 53,
        }
    }

    /// The canonical string form of a release, e.g. `"1.45.0"`.
    pub open spec fn spec_string(self) -> Seq<char> {
        match self {
            Version::V1_34 => "1.34.0"@,
            Version::V1_35 => "1.35.0"@,
            Version::V1_36 => "1.36.0"@,
            Version::V1_37 => "1.37.0"@,
            Version::V1_38 => "1.38.0"@,
            Version::V1_39 => "1.39.0"@,
            Version::V1_40 => "1.40.0"@,
            Version::V1_41 => "1.41.0"@,
            Version::V1_42 => "1.42.0"@,
            Version::V1_43 => "1.43.0"@,
            Version::V1_44 => "1.44.0"@,
            Version::V1_45 => "1.45.0"@,
            Version::V1_46 => "1.46.0"@,
            Version::V1_47 => "1.47.0"@,
            Version::V1_48 => "1.48.0"@,
            Version::V1_49 => "1.49.0"@,
            Version::V1_50 => "1.50.0"@,
            Version::V1_51 => "1.51.0"@,
            Version::V1_52 => "1.52.0"@,
            Version::V1_53 => "1.53.0"@,
        }
    }

    pub fn get_string(self) -> (s: &'static str)
        ensures
            s@ == self.spec_string(),
    {
        match self {
            Version::V1_34 => "1.34.0",
            Version::V1_35 => "1.35.0",
            Version::V1_36 => "1.36.0",
            Version::V1_37 => "1.37.0",
            Version::V1_38 => "1.38.0",
            Version::V1_39 => "1.39.0",
            Version::V1_40 => "1.40.0",
            Version::V1_41 => "1.41.0",
            Version::V1_42 => "1.42.0",
            Version::V1_43 => "1.43.0",
            Version::V1_44 => "1.44.0",
            Version::V1_45 => "1.45.0",
            Version::V1_46 => "1.46.0",
            Version::V1_47 => "1.47.0",
            Version::V1_48 => "1.48.0",
            Version::V1_49 => "1.49.0",
            Version::V1_50 => "1.50.0",
            Version::V1_51 => "1.51.0",
            Version::V1_52 => "1.52.0",
            Version::V1_53 => "1.53.0",
        }
    }
}

/// Reads a canonical version string back; inverse of `get_string` on its
/// image.
pub open spec fn spec_version_from_str(s: Seq<char>) -> Option<Version> {
    if s == "1.34.0"@ {
        Some(Version::V1_34)
    } else if s == "1.35.0"@ {
        Some(Version::V1_35)
    } else if s == "1.36.0"@ {
        Some(Version::V1_36)
    } else if s == "1.37.0"@ {
        Some(Version::V1_37)
    } else if s == "1.38.0"@ {
        Some(Version::V1_38)
    } else if s == "1.39.0"@ {
        Some(Version::V1_39)
    } else if s == "1.40.0"@ {
        Some(Version::V1_40)
    } else if s == "1.41.0"@ {
        Some(Version::V1_41)
    } else if s == "1.42.0"@ {
        Some(Version::V1_42)
    } else if s == "1.43.0"@ {
        Some(Version::V1_43)
    } else if s == "1.44.0"@ {
        Some(Version::V1_44)
    } else if s == "1.45.0"@ {
        Some(Version::V1_45)
    } else if s == "1.46.0"@ {
        Some(Version::V1_46)
    } else if s == "1.47.0"@ {
        Some(Version::V1_47)
    } else if s == "1.48.0"@ {
        Some(Version::V1_48)
    } else if s == "1.49.0"@ {
        Some(Version::V1_49)
    } else if s == "1.50.0"@ {
        Some(Version::V1_50)
    } else if s == "1.51.0"@ {
        Some(Version::V1_51)
    } else if s == "1.52.0"@ {
        Some(Version::V1_52)
    } else if s == "1.53.0"@ {
        Some(Version::V1_53)
    } else {
        None
    }
}

pub fn version_from_str(s: &str) -> (r: Option<Version>)
    ensures
        r == spec_version_from_str(s@),
{
    if crate::text::str_eq(s, "1.34.0") {
        Some(Version::V1_34)
    } else if crate::text::str_eq(s, "1.35.0") {
        Some(Version::V1_35)
    } else if crate::text::str_eq(s, "1.36.0") {
        Some(Version::V1_36)
    } else if crate::text::str_eq(s, "1.37.0") {
        Some(Version::V1_37)
    } else if crate::text::str_eq(s, "1.38.0") {
        Some(Version::V1_38)
    } else if crate::text::str_eq(s, "1.39.0") {
        Some(Version::V1_39)
    } else if crate::text::str_eq(s, "1.40.0") {
        Some(Version::V1_40)
    } else if crate::text::str_eq(s, "1.41.0") {
        Some(Version::V1_41)
    } else if crate::text::str_eq(s, "1.42.0") {
        Some(Version::V1_42)
    } else if crate::text::str_eq(s, "1.43.0") {
        Some(Version::V1_43)
    } else if crate::text::str_eq(s, "1.44.0") {
        Some(Version::V1_44)
    } else if crate::text::str_eq(s, "1.45.0") {
        Some(Version::V1_45)
    } else if crate::text::str_eq(s, "1.46.0") {
        Some(Version::V1_46)
    } else if crate::text::str_eq(s, "1.47.0") {
        Some(Version::V1_47)
    } else if crate::text::str_eq(s, "1.48.0") {
        Some(Version::V1_48)
    } else if crate::text::str_eq(s, "1.49.0") {
        Some(Version::V1_49)
    } else if crate::text::str_eq(s, "1.50.0") {
        Some(Version::V1_50)
    } else if crate::text::str_eq(s, "1.51.0") {
        Some(Version::V1_51)
    } else if crate::text::str_eq(s, "1.52.0") {
        Some(Version::V1_52)
    } else if crate::text::str_eq(s, "1.53.0") {
        Some(Version::V1_53)
    } else {
        None
    }
}

/// Canonical version strings read back as the version they were written
/// for.
pub proof fn lemma_version_string_round_trip(v: Version)
    ensures
        spec_version_from_str(v.spec_string()) == Some(v),
{
    reveal_strlit("1.34.0");
    reveal_strlit("1.35.0");
    reveal_strlit("1.36.0");
    reveal_strlit("1.37.0");
    reveal_strlit("1.38.0");
    reveal_strlit("1.39.0");
    reveal_strlit("1.40.0");
    reveal_strlit("1.41.0");
    reveal_strlit("1.42.0");
    reveal_strlit("1.43.0");
    reveal_strlit("1.44.0");
    reveal_strlit("1.45.0");
    reveal_strlit("1.46.0");
    reveal_strlit("1.47.0");
    reveal_strlit("1.48.0");
    reveal_strlit("1.49.0");
    reveal_strlit("1.50.0");
    reveal_strlit("1.51.0");
    reveal_strlit("1.52.0");
    reveal_strlit("1.53.0");
    assert("1.34.0"@[2] == '3' && "1.34.0"@[3] == '4');
    assert("1.35.0"@[2] == '3' && "1.35.0"@[3] == '5');
    assert("1.36.0"@[2] == '3' && "1.36.0"@[3] == '6');
    assert("1.37.0"@[2] == '3' && "1.37.0"@[3] == '7');
    assert("1.38.0"@[2] == '3' && "1.38.0"@[3] == '8');
    assert("1.39.0"@[2] == '3' && "1.39.0"@[3] == '9');
    assert("1.40.0"@[2] == '4' && "1.40.0"@[3] == '0');
    assert("1.41.0"@[2] == '4' && "1.41.0"@[3] == '1');
    assert("1.42.0"@[2] == '4' && "1.42.0"@[3] == '2');
    assert("1.43.0"@[2] == '4' && "1.43.0"@[3] == '3');
    assert("1.44.0"@[2] == '4' && "1.44.0"@[3] == '4');
    assert("1.45.0"@[2] == '4' && "1.45.0"@[3] == '5');
    assert("1.46.0"@[2] == '4' && "1.46.0"@[3] == '6');
    assert("1.47.0"@[2] == '4' && "1.47.0"@[3] == '7');
    assert("1.48.0"@[2] == '4' && "1.48.0"@[3] == '8');
    assert("1.49.0"@[2] == '4' && "1.49.0"@[3] == '9');
    assert("1.50.0"@[2] == '5' && "1.50.0"@[3] == '0');
    assert("1.51.0"@[2] == '5' && "1.51.0"@[3] == '1');
    assert("1.52.0"@[2] == '5' && "1.52.0"@[3] == '2');
    assert("1.53.0"@[2] == '5' && "1.53.0"@[3] == '3');
}

/// Canonical version strings are six characters of digits and dots: no
/// comma, no quote, no newline.
pub proof fn lemma_version_string_shape(v: Version)
    ensures
        v.spec_string().len() == 6,
        forall|t: int|
            0 <= t < 6 ==> #[trigger] v.spec_string()[t] != ',' && v.spec_string()[t] != '"'
                && v.spec_string()[t] != '\n',
{
    reveal_strlit("1.34.0");
    reveal_strlit("1.35.0");
    reveal_strlit("1.36.0");
    reveal_strlit("1.37.0");
    reveal_strlit("1.38.0");
    reveal_strlit("1.39.0");
    reveal_strlit("1.40.0");
    reveal_strlit("1.41.0");
    reveal_strlit("1.42.0");
    reveal_strlit("1.43.0");
    reveal_strlit("1.44.0");
    reveal_strlit("1.45.0");
    reveal_strlit("1.46.0");
    reveal_strlit("1.47.0");
    reveal_strlit("1.48.0");
    reveal_strlit("1.49.0");
    reveal_strlit("1.50.0");
    reveal_strlit("1.51.0");
    reveal_strlit("1.52.0");
    reveal_strlit("1.53.0");
}

/// The full catalog, in ascending order of release.
pub open spec fn spec_catalog() -> Seq<Version> {
    seq![
        Version::V1_34,
        Version::V1_35,
        Version::V1_36,
        Version::V1_37,
        Version::V1_38,
        Version::V1_39,
        Version::V1_40,
        Version::V1_41,
        Version::V1_42,
        Version::V1_43,
        Version::V1_44,
        Version::V1_45,
        Version::V1_46,
        Version::V1_47,
        Version::V1_48,
        Version::V1_49,
        Version::V1_50,
        Version::V1_51,
        Version::V1_52,
        Version::V1_53,
    ]
}

pub fn catalog() -> (v: Vec<Version>)
    ensures
        v@ == spec_catalog(),
{
    let mut v: Vec<Version> = Vec::new();
    v.push(Version::V1_34);
    v.push(Version::V1_35);
    v.push(Version::V1_36);
    v.push(Version::V1_37);
    v.push(Version::V1_38);
    v.push(Version::V1_39);
    v.push(Version::V1_40);
    v.push(Version::V1_41);
    v.push(Version::V1_42);
    v.push(Version::V1_43);
    v.push(Version::V1_44);
    v.push(Version::V1_45);
    v.push(Version::V1_46);
    v.push(Version::V1_47);
    v.push(Version::V1_48);
    v.push(Version::V1_49);
    v.push(Version::V1_50);
    v.push(Version::V1_51);
    v.push(Version::V1_52);
    v.push(Version::V1_53);
    proof {
        assert(v@ =~= spec_catalog());
    }
    v
}

/// Every catalog position carries the version whose ordinal is 34 more than
/// the position, so ordinals are dense in the observed range.
pub proof fn lemma_catalog_ordinals()
    ensures
        spec_catalog().len() == 20,
        forall|i: int|
            0 <= i < spec_catalog().len() ==> (#[trigger] spec_catalog()[i]).spec_ordinal() == 34
                + i,
{
}

/// The arguments handed to the toolchain manager to install and then activate
/// one release, in order.
pub open spec fn spec_switch_commands(v: Version) -> Seq<Seq<Seq<char>>> {
    seq![
        seq!["toolchain"@, "install"@, v.spec_string()],
        seq!["default"@, v.spec_string()],
    ]
}

/// Argument lists, in order, for the two toolchain-manager invocations that
/// install and then activate `v`. The caller runs them against the manager
/// and treats a non-zero exit of either as failing the whole switch.
pub fn switch_commands(v: Version) -> (cmds: Vec<Vec<String>>)
    ensures
        cmds.deep_view() == spec_switch_commands(v),
{
    let mut install: Vec<String> = Vec::new();
    install.push(String::from_str("toolchain"));
    install.push(String::from_str("install"));
    install.push(String::from_str(v.get_string()));
    let mut activate: Vec<String> = Vec::new();
    activate.push(String::from_str("default"));
    activate.push(String::from_str(v.get_string()));
    let mut cmds: Vec<Vec<String>> = Vec::new();
    cmds.push(install);
    cmds.push(activate);
    proof {
        assert(cmds.deep_view() =~~= spec_switch_commands(v));
    }
    cmds
}

/// The arguments that set the toolchain manager's install profile to the
/// minimal one before a sweep begins.
pub open spec fn spec_minimal_profile_args() -> Seq<Seq<char>> {
    seq!["set"@, "profile"@, "minimal"@]
}

pub fn minimal_profile_args() -> (args: Vec<String>)
    ensures
        args.deep_view() == spec_minimal_profile_args(),
{
    let mut args: Vec<String> = Vec::new();
    args.push(String::from_str("set"));
    args.push(String::from_str("profile"));
    args.push(String::from_str("minimal"));
    proof {
        assert(args.deep_view() =~~= spec_minimal_profile_args());
    }
    args
}

} // verus!
