//! Pool configuration.
use worktree_pool::cli::{InitArgs, SubmoduleMirrorMode};
use worktree_pool::config::{load, ConfigError, PoolConfig};
use worktree_pool::text::IntError;
use worktree_pool::types::{CommitIsh, GroupName};

fn sample_args() -> InitArgs {
    InitArgs {
        source: "/tmp/pool/source".into(),
        default_commit: "refs/remotes/origin/main".into(),
        max_slots: 16,
        groups: vec!["ios".into(), "android".into()],
        submodule_mirror_mode: Some(SubmoduleMirrorMode::SourceSubmodules),
        submodule_mirror_base: Some("/tmp/pool/source".into()),
    }
}

#[test]
fn round_trip() {
    let cfg = PoolConfig::from_init_args(&sample_args(), true).unwrap();
    let s = cfg.serialize();
    let parsed = PoolConfig::parse(&s).unwrap();
    assert_eq!(parsed.max_slots, 16);
    assert_eq!(parsed.groups, vec![GroupName::from("ios"), GroupName::from("android")]);
    assert_eq!(parsed.default_commit, CommitIsh::from("refs/remotes/origin/main"));
    assert_eq!(
        parsed.submodule_mirror_mode,
        Some(SubmoduleMirrorMode::SourceSubmodules)
    );
}

#[test]
fn rejects_zero_max_slots() {
    let mut args = sample_args();
    args.max_slots = 0;
    assert!(PoolConfig::from_init_args(&args, true).is_err());
}

#[test]
fn rejects_unset_source() {
    let mut args = sample_args();
    args.source = "/tmp/pool/does-not-exist".into();
    assert!(PoolConfig::from_init_args(&args, false).is_err());
}

#[test]
fn rejects_partial_submodule_mirror() {
    let mut args = sample_args();
    args.submodule_mirror_base = None;
    assert!(PoolConfig::from_init_args(&args, true).is_err());
}

#[test]
fn write_then_load() {
    let pool = "/tmp/pool";
    let cfg = PoolConfig::from_init_args(&sample_args(), true).unwrap();
    let file = worktree_pool::config::write(pool, &cfg);
    assert_eq!(file.path, "/tmp/pool/.meta/config.yaml");
    let loaded = load(pool, Ok(file.content)).unwrap();
    assert_eq!(loaded.max_slots, cfg.max_slots);
    assert_eq!(loaded.groups, cfg.groups);
}

#[test]
fn written_text_is_exact() {
    let cfg = PoolConfig::from_init_args(&sample_args(), true).unwrap();
    assert_eq!(
        cfg.serialize(),
        "schema_version: 1\nsource: /tmp/pool/source\ndefault_commit: refs/remotes/origin/main\n\
         max_slots: 16\ngroups: ios,android\nsubmodule_mirror_mode: source-submodules\n\
         submodule_mirror_base: /tmp/pool/source\n"
    );
    let mut bare = sample_args();
    bare.groups = vec![];
    bare.submodule_mirror_mode = None;
    bare.submodule_mirror_base = None;
    assert_eq!(
        PoolConfig::from_init_args(&bare, true).unwrap().serialize(),
        "schema_version: 1\nsource: /tmp/pool/source\ndefault_commit: refs/remotes/origin/main\n\
         max_slots: 16\n"
    );
}

#[test]
fn refusals_of_arguments_come_in_order() {
    let mut args = sample_args();
    args.max_slots = 0;
    args.submodule_mirror_base = None;
    let e = PoolConfig::from_init_args(&args, false).unwrap_err();
    assert!(matches!(e, ConfigError::ZeroMaxSlots));
    assert_eq!(e.message(), "--max-slots must be > 0");
    args.max_slots = 1;
    let e = PoolConfig::from_init_args(&args, false).unwrap_err();
    assert_eq!(e.message(), "--source path does not exist: /tmp/pool/source");
    let e = PoolConfig::from_init_args(&args, true).unwrap_err();
    assert!(matches!(e, ConfigError::MirrorFlagsHalved));
    assert_eq!(
        e.message(),
        "--submodule-mirror-mode and --submodule-mirror-base must be set together"
    );
}

fn fault(text: &str) -> ConfigError {
    PoolConfig::parse(text).unwrap_err()
}

#[test]
fn each_fault_of_a_file_is_told() {
    assert_eq!(fault("").message(), "config missing `schema_version`");
    assert_eq!(
        fault("schema_version: x\n").message(),
        "config has invalid `schema_version` (want a u32): invalid digit found in string"
    );
    assert!(matches!(
        fault("schema_version:\n"),
        ConfigError::SchemaVersionInvalid(IntError::Empty)
    ));
    assert_eq!(
        fault("schema_version: 4294967296\n").message(),
        "config has invalid `schema_version` (want a u32): number too large to fit in target type"
    );
    assert_eq!(
        fault("schema_version: 2\n").message(),
        "config schema_version 2 unsupported (expected 1)"
    );
    let v = "schema_version: 1\n";
    assert_eq!(fault(v).message(), "config missing `source`");
    assert_eq!(
        fault(&format!("{v}source: /s\n")).message(),
        "config missing `default_commit`"
    );
    let vsd = "schema_version: 1\nsource: /s\ndefault_commit: main\n";
    assert_eq!(fault(vsd).message(), "config missing `max_slots`");
    assert_eq!(
        fault(&format!("{vsd}max_slots: -1\n")).message(),
        "config has invalid `max_slots` (want a u32): invalid digit found in string"
    );
    let full = format!("{vsd}max_slots: 4\n");
    assert_eq!(
        fault(&format!("{full}submodule_mirror_mode: other\nsubmodule_mirror_base: /b\n")).message(),
        "invalid submodule_mirror_mode: \"other\""
    );
    assert_eq!(
        fault(&format!("{full}submodule_mirror_mode: bare-mirror\n")).message(),
        "submodule_mirror_mode and submodule_mirror_base must be set together"
    );
    assert!(matches!(
        fault(&format!("{full}submodule_mirror_base: /b\n")),
        ConfigError::MirrorKeysHalved
    ));
}

#[test]
fn groups_are_split_and_trimmed() {
    let cfg = PoolConfig::parse(
        "schema_version: 1\nsource: /s\ndefault_commit: main\nmax_slots: 4\ngroups: ios , android\n",
    )
    .unwrap();
    assert_eq!(cfg.groups, vec![GroupName::from("ios"), GroupName::from("android")]);
    assert!(cfg.submodule_mirror_mode.is_none());
}

#[test]
fn the_older_mode_name_is_read() {
    let cfg = PoolConfig::parse(
        "schema_version: 1\nsource: /s\ndefault_commit: main\nmax_slots: 4\n\
         submodule_mirror_mode: git-modules\nsubmodule_mirror_base: /s\n",
    )
    .unwrap();
    assert_eq!(
        cfg.submodule_mirror_mode,
        Some(SubmoduleMirrorMode::SourceSubmodules)
    );
    assert_eq!(cfg.submodule_mirror_mode.unwrap().as_str(), "source-submodules");
    assert_eq!(cfg.submodule_mirror_base.as_deref(), Some("/s"));
}

#[test]
fn load_names_the_file() {
    let e = load("/p", Err("gone".into())).unwrap_err();
    assert_eq!(e.message, "reading config /p/.meta/config.yaml: gone");
    let e = load("/p", Ok(String::new())).unwrap_err();
    assert_eq!(
        e.message,
        "parsing config /p/.meta/config.yaml: config missing `schema_version`"
    );
}
