//! Pool configuration, kept in `<pool>/.meta/config.yaml`.
use crate::cli;
use crate::cli::{InitArgs, SubmoduleMirrorMode};
use crate::debug;
use crate::error::Error;
use crate::fs_paths;
use crate::text;
use crate::text::IntError;
use crate::text_lemmas;
use crate::types;
use crate::types::{CommitIsh, GroupName};
use crate::yaml;
use vstd::prelude::*;

verus! {

/// The only config schema there is.
pub const SCHEMA_VERSION: u32 = 1;

/// A pool's configuration.
#[derive(Debug)]
pub struct PoolConfig {
    pub schema_version: u32,
    /// Path of the source git repo.
    pub source: String,
    pub default_commit: CommitIsh,
    pub max_slots: u32,
    pub groups: Vec<GroupName>,
    pub submodule_mirror_mode: Option<SubmoduleMirrorMode>,
    pub submodule_mirror_base: Option<String>,
}

/// A pool's configuration as text and numbers.
#[verifier::ext_equal]
pub struct PoolConfigView {
    pub schema_version: u32,
    pub source: Seq<char>,
    pub default_commit: Seq<char>,
    pub max_slots: u32,
    pub groups: Seq<Seq<char>>,
    pub submodule_mirror_mode: Option<SubmoduleMirrorMode>,
    pub submodule_mirror_base: Option<Seq<char>>,
}

impl View for PoolConfig {
    type V = PoolConfigView;

    open spec fn view(&self) -> PoolConfigView {
        PoolConfigView {
            schema_version: self.schema_version,
            source: self.source@,
            default_commit: self.default_commit@,
            max_slots: self.max_slots,
            groups: types::group_texts(self.groups@),
            submodule_mirror_mode: self.submodule_mirror_mode,
            submodule_mirror_base: text::opt_text(self.submodule_mirror_base),
        }
    }
}

/// Why a configuration is refused.
#[derive(Debug)]
pub enum ConfigError {
    ZeroMaxSlots,
    SourceAbsent(String),
    MirrorFlagsHalved,
    SchemaVersionMissing,
    SchemaVersionInvalid(IntError),
    SchemaVersionUnsupported(u32),
    SourceMissing,
    DefaultCommitMissing,
    MaxSlotsMissing,
    MaxSlotsInvalid(IntError),
    MirrorModeInvalid(String),
    MirrorKeysHalved,
}

/// Why a configuration is refused, as text and numbers.
pub enum ConfigFault {
    ZeroMaxSlots,
    SourceAbsent(Seq<char>),
    MirrorFlagsHalved,
    SchemaVersionMissing,
    SchemaVersionInvalid(IntError),
    SchemaVersionUnsupported(u32),
    SourceMissing,
    DefaultCommitMissing,
    MaxSlotsMissing,
    MaxSlotsInvalid(IntError),
    MirrorModeInvalid(Seq<char>),
    MirrorKeysHalved,
}

impl View for ConfigError {
    type V = ConfigFault;

    open spec fn view(&self) -> ConfigFault {
        match *self {
            ConfigError::ZeroMaxSlots => ConfigFault::ZeroMaxSlots,
            ConfigError::SourceAbsent(p) => ConfigFault::SourceAbsent(p@),
            ConfigError::MirrorFlagsHalved => ConfigFault::MirrorFlagsHalved,
            ConfigError::SchemaVersionMissing => ConfigFault::SchemaVersionMissing,
            ConfigError::SchemaVersionInvalid(e) => ConfigFault::SchemaVersionInvalid(e),
            ConfigError::SchemaVersionUnsupported(v) => ConfigFault::SchemaVersionUnsupported(v),
            ConfigError::SourceMissing => ConfigFault::SourceMissing,
            ConfigError::DefaultCommitMissing => ConfigFault::DefaultCommitMissing,
            ConfigError::MaxSlotsMissing => ConfigFault::MaxSlotsMissing,
            ConfigError::MaxSlotsInvalid(e) => ConfigFault::MaxSlotsInvalid(e),
            ConfigError::MirrorModeInvalid(m) => ConfigFault::MirrorModeInvalid(m@),
            ConfigError::MirrorKeysHalved => ConfigFault::MirrorKeysHalved,
        }
    }
}

/// What is wrong with a number.
pub open spec fn int_fault(e: IntError) -> Seq<char> {
    match e {
        IntError::Empty => "cannot parse integer from empty string"@,
        IntError::InvalidDigit => "invalid digit found in string"@,
        IntError::Overflow => "number too large to fit in target type"@,
    }
}

fn int_error_text(e: IntError) -> (r: &'static str)
    ensures
        r@ == int_fault(e),
{
    match e {
        IntError::Empty => "cannot parse integer from empty string",
        IntError::InvalidDigit => "invalid digit found in string",
        IntError::Overflow => "number too large to fit in target type",
    }
}

/// What the operator is told.
pub open spec fn fault_message(f: ConfigFault) -> Seq<char> {
    match f {
        ConfigFault::ZeroMaxSlots => "--max-slots must be > 0"@,
        ConfigFault::SourceAbsent(p) => "--source path does not exist: "@ + p,
        ConfigFault::MirrorFlagsHalved =>
            "--submodule-mirror-mode and --submodule-mirror-base must be set together"@,
        ConfigFault::SchemaVersionMissing => "config missing `schema_version`"@,
        ConfigFault::SchemaVersionInvalid(e) =>
            "config has invalid `schema_version` (want a u32): "@ + int_fault(e),
        ConfigFault::SchemaVersionUnsupported(v) => "config schema_version "@ + text::decimal(
            v as nat,
        ) + " unsupported (expected 1)"@,
        ConfigFault::SourceMissing => "config missing `source`"@,
        ConfigFault::DefaultCommitMissing => "config missing `default_commit`"@,
        ConfigFault::MaxSlotsMissing => "config missing `max_slots`"@,
        ConfigFault::MaxSlotsInvalid(e) => "config has invalid `max_slots` (want a u32): "@
            + int_fault(e),
        ConfigFault::MirrorModeInvalid(m) => "invalid submodule_mirror_mode: "@
            + debug::debug_form(m),
        ConfigFault::MirrorKeysHalved =>
            "submodule_mirror_mode and submodule_mirror_base must be set together"@,
    }
}

impl ConfigError {
    /// What the operator is told.
    pub fn message(&self) -> (r: String)
        ensures
            r@ == fault_message(self@),
    {
        match self {
            ConfigError::ZeroMaxSlots => text::own("--max-slots must be > 0"),
            ConfigError::SourceAbsent(p) => {
                let mut m = text::own("--source path does not exist: ");
                m.append(p.as_str());
                m
            },
            ConfigError::MirrorFlagsHalved => text::own(
                "--submodule-mirror-mode and --submodule-mirror-base must be set together",
            ),
            ConfigError::SchemaVersionMissing => text::own("config missing `schema_version`"),
            ConfigError::SchemaVersionInvalid(e) => {
                let mut m = text::own("config has invalid `schema_version` (want a u32): ");
                m.append(int_error_text(*e));
                m
            },
            ConfigError::SchemaVersionUnsupported(v) => {
                let mut m = text::own("config schema_version ");
                m.append(text::to_decimal(*v as u64).as_str());
                m.append(" unsupported (expected 1)");
                m
            },
            ConfigError::SourceMissing => text::own("config missing `source`"),
            ConfigError::DefaultCommitMissing => text::own("config missing `default_commit`"),
            ConfigError::MaxSlotsMissing => text::own("config missing `max_slots`"),
            ConfigError::MaxSlotsInvalid(e) => {
                let mut m = text::own("config has invalid `max_slots` (want a u32): ");
                m.append(int_error_text(*e));
                m
            },
            ConfigError::MirrorModeInvalid(mode) => {
                let mut m = text::own("invalid submodule_mirror_mode: ");
                m.append(debug::debug_text(mode.as_str()).as_str());
                m
            },
            ConfigError::MirrorKeysHalved => text::own(
                "submodule_mirror_mode and submodule_mirror_base must be set together",
            ),
        }
    }
}

// ---------------------------------------------------------------------------
// From the command line
// ---------------------------------------------------------------------------

/// The configuration that `init` asks for.
pub open spec fn requested(args: InitArgs, source_exists: bool) -> Result<
    PoolConfigView,
    ConfigFault,
> {
    if args.max_slots == 0 {
        Err(ConfigFault::ZeroMaxSlots)
    } else if !source_exists {
        Err(ConfigFault::SourceAbsent(args.source@))
    } else if (args.submodule_mirror_mode is Some) != (args.submodule_mirror_base is Some) {
        Err(ConfigFault::MirrorFlagsHalved)
    } else {
        Ok(
            PoolConfigView {
                schema_version: SCHEMA_VERSION,
                source: args.source@,
                default_commit: args.default_commit@,
                max_slots: args.max_slots,
                groups: text::texts(args.groups@),
                submodule_mirror_mode: args.submodule_mirror_mode,
                submodule_mirror_base: text::opt_text(args.submodule_mirror_base),
            },
        )
    }
}

fn group_names(names: &Vec<String>) -> (r: Vec<GroupName>)
    ensures
        types::group_texts(r@) == text::texts(names@),
{
    let mut out: Vec<GroupName> = Vec::new();
    let mut i: usize = 0;
    while i < names.len()
        invariant
            i <= names.len(),
            types::group_texts(out@) == text::texts(names@).take(i as int),
        decreases names.len() - i,
    {
        let ghost before = types::group_texts(out@);
        out.push(GroupName::from(names[i].as_str()));
        assert(types::group_texts(out@) =~= before.push(names@[i as int]@));
        assert(text::texts(names@).take(i + 1) =~= text::texts(names@).take(i as int).push(
            names@[i as int]@,
        ));
        i = i + 1;
    }
    assert(text::texts(names@).take(i as int) =~= text::texts(names@));
    out
}

/// Owned copies of group names.
pub fn group_strings(groups: &Vec<GroupName>) -> (r: Vec<String>)
    ensures
        text::texts(r@) == types::group_texts(groups@),
{
    let mut out: Vec<String> = Vec::new();
    let mut i: usize = 0;
    while i < groups.len()
        invariant
            i <= groups.len(),
            text::texts(out@) == types::group_texts(groups@).take(i as int),
        decreases groups.len() - i,
    {
        let ghost before = text::texts(out@);
        out.push(groups[i].to_string());
        assert(text::texts(out@) =~= before.push(groups@[i as int]@));
        assert(types::group_texts(groups@).take(i + 1) =~= types::group_texts(groups@).take(
            i as int,
        ).push(groups@[i as int]@));
        i = i + 1;
    }
    assert(types::group_texts(groups@).take(i as int) =~= types::group_texts(groups@));
    out
}

// ---------------------------------------------------------------------------
// As a file
// ---------------------------------------------------------------------------

/// The value written for an optional mode.
pub open spec fn mode_text(m: Option<SubmoduleMirrorMode>) -> Seq<char> {
    match m {
        Some(mode) => cli::mode_name(mode),
        None => seq![],
    }
}

/// The value written for an optional path.
pub open spec fn path_text(p: Option<Seq<char>>) -> Seq<char> {
    match p {
        Some(t) => t,
        None => seq![],
    }
}

/// The pairs that a configuration is written as.
pub open spec fn config_entries(c: PoolConfigView) -> Seq<yaml::Entry> {
    seq![
        ("schema_version"@, text::decimal(c.schema_version as nat)),
        ("source"@, c.source),
        ("default_commit"@, c.default_commit),
        ("max_slots"@, text::decimal(c.max_slots as nat)),
        ("groups"@, text::joined(c.groups, ","@)),
        ("submodule_mirror_mode"@, mode_text(c.submodule_mirror_mode)),
        ("submodule_mirror_base"@, path_text(c.submodule_mirror_base)),
    ]
}

/// The text that a configuration is written as.
pub open spec fn config_text(c: PoolConfigView) -> Seq<char> {
    yaml::document(config_entries(c))
}

/// The value of a key that counts only where it is not empty.
pub open spec fn filled(m: Map<Seq<char>, Seq<char>>, key: Seq<char>) -> Option<Seq<char>> {
    if m.contains_key(key) && m[key].len() > 0 {
        Some(m[key])
    } else {
        None
    }
}

/// The number that a key holds: `None` where the key is missing.
pub open spec fn counted(m: Map<Seq<char>, Seq<char>>, key: Seq<char>) -> Option<
    Result<nat, IntError>,
> {
    if m.contains_key(key) {
        Some(text::number(m[key]))
    } else {
        None
    }
}

/// The groups that a config names: comma-separated, white space around them ignored.
pub open spec fn groups_in(m: Map<Seq<char>, Seq<char>>) -> Seq<Seq<char>> {
    match filled(m, "groups"@) {
        Some(g) => text::pieces(g, ',').map_values(|p: Seq<char>| text::trimmed(p)),
        None => seq![],
    }
}

/// The mirror mode that a config names. `git-modules` is an older spelling of
/// `source-submodules`.
pub open spec fn mode_in(m: Map<Seq<char>, Seq<char>>) -> Result<
    Option<SubmoduleMirrorMode>,
    ConfigFault,
> {
    match filled(m, "submodule_mirror_mode"@) {
        None => Ok(None),
        Some(t) => if t == "bare-mirror"@ {
            Ok(Some(SubmoduleMirrorMode::BareMirror))
        } else if t == "source-submodules"@ || t == "git-modules"@ {
            Ok(Some(SubmoduleMirrorMode::SourceSubmodules))
        } else {
            Err(ConfigFault::MirrorModeInvalid(t))
        },
    }
}

/// The configuration that a mapping holds, or the first fault in it.
pub open spec fn config_in(m: Map<Seq<char>, Seq<char>>) -> Result<PoolConfigView, ConfigFault> {
    match counted(m, "schema_version"@) {
        None => Err(ConfigFault::SchemaVersionMissing),
        Some(Err(e)) => Err(ConfigFault::SchemaVersionInvalid(e)),
        Some(Ok(version)) => if version != SCHEMA_VERSION {
            Err(ConfigFault::SchemaVersionUnsupported(version as u32))
        } else {
            match (filled(m, "source"@), filled(m, "default_commit"@), counted(m, "max_slots"@)) {
                (None, _, _) => Err(ConfigFault::SourceMissing),
                (_, None, _) => Err(ConfigFault::DefaultCommitMissing),
                (_, _, None) => Err(ConfigFault::MaxSlotsMissing),
                (_, _, Some(Err(e))) => Err(ConfigFault::MaxSlotsInvalid(e)),
                (Some(source), Some(default_commit), Some(Ok(max_slots))) => match mode_in(m) {
                    Err(f) => Err(f),
                    Ok(mode) => {
                        let base = filled(m, "submodule_mirror_base"@);
                        if (mode is Some) != (base is Some) {
                            Err(ConfigFault::MirrorKeysHalved)
                        } else {
                            Ok(
                                PoolConfigView {
                                    schema_version: SCHEMA_VERSION,
                                    source,
                                    default_commit,
                                    max_slots: max_slots as u32,
                                    groups: groups_in(m),
                                    submodule_mirror_mode: mode,
                                    submodule_mirror_base: base,
                                },
                            )
                        }
                    },
                },
            }
        },
    }
}

/// The configuration that a text holds, or the first fault in it.
pub open spec fn config_read(text: Seq<char>) -> Result<PoolConfigView, ConfigFault> {
    config_in(yaml::parsed(text))
}

fn get_filled(map: &yaml::Scalars, key: &str) -> (r: Option<String>)
    ensures
        text::opt_text(r) == filled(map@, key@),
{
    match map.get(key) {
        Some(v) => {
            if v.as_str().is_empty() {
                None
            } else {
                Some(text::own(v.as_str()))
            }
        },
        None => None,
    }
}

fn get_counted(map: &yaml::Scalars, key: &str) -> (r: Option<Result<u32, IntError>>)
    ensures
        match (r, counted(map@, key@)) {
            (None, None) => true,
            (Some(Ok(a)), Some(Ok(b))) => a == b,
            (Some(Err(a)), Some(Err(b))) => a == b,
            _ => false,
        },
{
    match map.get(key) {
        Some(v) => Some(text::parse_u32(v.as_str())),
        None => None,
    }
}

fn get_groups(map: &yaml::Scalars) -> (r: Vec<GroupName>)
    ensures
        types::group_texts(r@) == groups_in(map@),
{
    let mut out: Vec<GroupName> = Vec::new();
    match get_filled(map, "groups") {
        None => {
            assert(types::group_texts(out@) =~= groups_in(map@));
            out
        },
        Some(g) => {
            let parts = text::split(g.as_str(), ',');
            let ghost want = text::pieces(g@, ',').map_values(|p: Seq<char>| text::trimmed(p));
            let mut i: usize = 0;
            while i < parts.len()
                invariant
                    i <= parts.len(),
                    text::slices(parts@) == text::pieces(g@, ','),
                    want == text::pieces(g@, ',').map_values(|p: Seq<char>| text::trimmed(p)),
                    types::group_texts(out@) == want.take(i as int),
                decreases parts.len() - i,
            {
                let ghost before = types::group_texts(out@);
                assert(text::slices(parts@)[i as int] == parts@[i as int]@);
                out.push(GroupName::from(text::trim(parts[i])));
                assert(types::group_texts(out@) =~= before.push(want[i as int]));
                assert(want.take(i + 1) =~= want.take(i as int).push(want[i as int]));
                i = i + 1;
            }
            assert(parts@.len() == text::slices(parts@).len());
            assert(want.take(i as int) =~= want);
            out
        },
    }
}

fn get_mode(map: &yaml::Scalars) -> (r: Result<Option<SubmoduleMirrorMode>, ConfigError>)
    ensures
        match (r, mode_in(map@)) {
            (Ok(a), Ok(b)) => a == b,
            (Err(a), Err(b)) => a@ == b,
            _ => false,
        },
{
    match get_filled(map, "submodule_mirror_mode") {
        None => Ok(None),
        Some(t) => {
            if text::same(t.as_str(), "bare-mirror") {
                Ok(Some(SubmoduleMirrorMode::BareMirror))
            } else if text::same(t.as_str(), "source-submodules") || text::same(
                t.as_str(),
                "git-modules",
            ) {
                Ok(Some(SubmoduleMirrorMode::SourceSubmodules))
            } else {
                Err(ConfigError::MirrorModeInvalid(t))
            }
        },
    }
}

impl PoolConfig {
    /// The configuration that `init` asks for. `source_exists` says whether the
    /// source path is there.
    pub fn from_init_args(args: &InitArgs, source_exists: bool) -> (r: Result<
        PoolConfig,
        ConfigError,
    >)
        ensures
            match (r, requested(*args, source_exists)) {
                (Ok(c), Ok(v)) => c@ == v,
                (Err(e), Err(f)) => e@ == f,
                _ => false,
            },
    {
        if args.max_slots == 0 {
            return Err(ConfigError::ZeroMaxSlots);
        }
        if !source_exists {
            return Err(ConfigError::SourceAbsent(text::own(args.source.as_str())));
        }
        if args.submodule_mirror_mode.is_some() != args.submodule_mirror_base.is_some() {
            return Err(ConfigError::MirrorFlagsHalved);
        }
        Ok(
            PoolConfig {
                schema_version: SCHEMA_VERSION,
                source: text::own(args.source.as_str()),
                default_commit: CommitIsh::from(args.default_commit.as_str()),
                max_slots: args.max_slots,
                groups: group_names(&args.groups),
                submodule_mirror_mode: args.submodule_mirror_mode,
                submodule_mirror_base: text::own_opt(text::borrow_opt(&args.submodule_mirror_base)),
            },
        )
    }

    /// The text that the configuration is written as.
    pub fn serialize(&self) -> (r: String)
        ensures
            r@ == config_text(self@),
    {
        let mode = match self.submodule_mirror_mode {
            Some(m) => text::own(m.as_str()),
            None => String::new(),
        };
        let base = match &self.submodule_mirror_base {
            Some(b) => text::own(b.as_str()),
            None => String::new(),
        };
        let names = group_strings(&self.groups);
        let pairs: [(&str, String); 7] = [
            ("schema_version", text::to_decimal(self.schema_version as u64)),
            ("source", text::own(self.source.as_str())),
            ("default_commit", self.default_commit.to_string()),
            ("max_slots", text::to_decimal(self.max_slots as u64)),
            ("groups", text::join(&names, ",")),
            ("submodule_mirror_mode", mode),
            ("submodule_mirror_base", base),
        ];
        assert(yaml::entries(pairs@) =~= config_entries(self@));
        yaml::serialize(&pairs)
    }

    /// The configuration that a text holds, or the first fault in it.
    pub fn parse(text: &str) -> (r: Result<PoolConfig, ConfigError>)
        ensures
            match (r, config_read(text@)) {
                (Ok(c), Ok(v)) => c@ == v,
                (Err(e), Err(f)) => e@ == f,
                _ => false,
            },
    {
        let map = yaml::parse(text);
        let version: u32 = match get_counted(&map, "schema_version") {
            None => {
                return Err(ConfigError::SchemaVersionMissing);
            },
            Some(Err(e)) => {
                return Err(ConfigError::SchemaVersionInvalid(e));
            },
            Some(Ok(v)) => v,
        };
        if version != SCHEMA_VERSION {
            return Err(ConfigError::SchemaVersionUnsupported(version));
        }
        let source = match get_filled(&map, "source") {
            None => {
                return Err(ConfigError::SourceMissing);
            },
            Some(s) => s,
        };
        let default_commit = match get_filled(&map, "default_commit") {
            None => {
                return Err(ConfigError::DefaultCommitMissing);
            },
            Some(s) => CommitIsh::from(s),
        };
        let max_slots: u32 = match get_counted(&map, "max_slots") {
            None => {
                return Err(ConfigError::MaxSlotsMissing);
            },
            Some(Err(e)) => {
                return Err(ConfigError::MaxSlotsInvalid(e));
            },
            Some(Ok(v)) => v,
        };
        let groups = get_groups(&map);
        let submodule_mirror_mode = match get_mode(&map) {
            Err(e) => {
                return Err(e);
            },
            Ok(m) => m,
        };
        let submodule_mirror_base = get_filled(&map, "submodule_mirror_base");
        if submodule_mirror_mode.is_some() != submodule_mirror_base.is_some() {
            return Err(ConfigError::MirrorKeysHalved);
        }
        Ok(
            PoolConfig {
                schema_version: version,
                source,
                default_commit,
                max_slots,
                groups,
                submodule_mirror_mode,
                submodule_mirror_base,
            },
        )
    }
}

/// A file to be written atomically: a temporary file in the same directory,
/// flushed, then renamed over the target.
#[derive(Debug)]
pub struct FileWrite {
    pub path: String,
    pub content: String,
}

/// The write that stores a pool's configuration.
pub fn write(pool_path: &str, cfg: &PoolConfig) -> (r: FileWrite)
    ensures
        r.path@ == fs_paths::config_path(pool_path@),
        r.content@ == config_text(cfg@),
{
    FileWrite { path: fs_paths::pool_config(pool_path), content: cfg.serialize() }
}

/// What the operator is told of a config file that does not load.
pub open spec fn load_failure(doing: Seq<char>, pool_path: Seq<char>, why: Seq<char>) -> Seq<char> {
    doing + fs_paths::config_path(pool_path) + ": "@ + why
}

/// The configuration of a pool, from what reading its config file gave: the text,
/// or the reason why there is none.
pub fn load(pool_path: &str, content: Result<String, String>) -> (r: Result<PoolConfig, Error>)
    ensures
        match (r, content) {
            (Ok(c), Ok(t)) => config_read(t@) == Ok::<PoolConfigView, ConfigFault>(c@),
            (Err(e), Ok(t)) => e.kind is None && (config_read(t@) matches Err(f) && e.message@
                == load_failure("parsing config "@, pool_path@, fault_message(f))),
            (Err(e), Err(why)) => e.kind is None && e.message@ == load_failure(
                "reading config "@,
                pool_path@,
                why@,
            ),
            (Ok(_), Err(_)) => false,
        },
{
    let path = fs_paths::pool_config(pool_path);
    match content {
        Err(why) => {
            let mut doing = text::own("reading config ");
            doing.append(path.as_str());
            Err(Error::new(why).context(doing.as_str()))
        },
        Ok(t) => match PoolConfig::parse(t.as_str()) {
            Ok(c) => Ok(c),
            Err(f) => {
                let mut doing = text::own("parsing config ");
                doing.append(path.as_str());
                Err(Error::new(f.message()).context(doing.as_str()))
            },
        },
    }
}

// ---------------------------------------------------------------------------
// Laws
// ---------------------------------------------------------------------------

/// A value that survives being written: no line breaks, no white space around it.
pub open spec fn plain(v: Seq<char>) -> bool {
    text_lemmas::tight(v) && text_lemmas::lacks(v, '\n')
}

/// A configuration that a file can hold: the known schema, a source and a default
/// commit, groups without commas of which not all are empty, and the mirror's mode
/// and base both or neither.
pub open spec fn storable(c: PoolConfigView) -> bool {
    &&& c.schema_version == SCHEMA_VERSION
    &&& c.source.len() > 0 && plain(c.source)
    &&& c.default_commit.len() > 0 && plain(c.default_commit)
    &&& forall|i: int|
        0 <= i < c.groups.len() ==> plain(#[trigger] c.groups[i]) && text_lemmas::lacks(
            c.groups[i],
            ',',
        )
    &&& c.groups.len() > 0 ==> text::joined(c.groups, ","@).len() > 0
    &&& match (c.submodule_mirror_mode, c.submodule_mirror_base) {
        (None, None) => true,
        (Some(_), Some(b)) => b.len() > 0 && plain(b),
        _ => false,
    }
}

proof fn lemma_config_keys(c: PoolConfigView)
    ensures
        forall|i: int, j: int|
            0 <= i < j < config_entries(c).len() ==> config_entries(c)[i].0 != config_entries(
                c,
            )[j].0,
{
    reveal_strlit("schema_version");
    reveal_strlit("source");
    reveal_strlit("default_commit");
    reveal_strlit("max_slots");
    reveal_strlit("groups");
    reveal_strlit("submodule_mirror_mode");
    reveal_strlit("submodule_mirror_base");
    assert("schema_version"@[0] != "default_commit"@[0]);
    assert("source"@[0] != "groups"@[0]);
    assert("submodule_mirror_mode"@[17] != "submodule_mirror_base"@[17]);
    let e = config_entries(c);
    assert(e[0].0.len() == 14 && e[1].0.len() == 6 && e[2].0.len() == 14 && e[3].0.len() == 9);
    assert(e[4].0.len() == 6 && e[5].0.len() == 21 && e[6].0.len() == 21);
    assert(e[0].0 != e[2].0 && e[1].0 != e[4].0 && e[5].0 != e[6].0);
    assert forall|i: int, j: int| 0 <= i < j < e.len() implies e[i].0 != e[j].0 by {
        assert(i == 0 || i == 1 || i == 2 || i == 3 || i == 4 || i == 5);
        assert(j == 1 || j == 2 || j == 3 || j == 4 || j == 5 || j == 6);
    }
}

proof fn lemma_config_writable(c: PoolConfigView)
    requires
        storable(c),
    ensures
        forall|i: int|
            0 <= i < config_entries(c).len() ==> yaml::writable(#[trigger] config_entries(c)[i]),
{
    reveal_strlit("schema_version");
    reveal_strlit("source");
    reveal_strlit("default_commit");
    reveal_strlit("max_slots");
    reveal_strlit("groups");
    reveal_strlit("submodule_mirror_mode");
    reveal_strlit("submodule_mirror_base");
    reveal_strlit("bare-mirror");
    reveal_strlit("source-submodules");
    text_lemmas::lemma_decimal_digits(c.schema_version as nat);
    text_lemmas::lemma_decimal_digits(c.max_slots as nat);
    let v = text::decimal(c.schema_version as nat);
    let m = text::decimal(c.max_slots as nat);
    assert(text::is_digit(v[0]) && text::is_digit(v[v.len() - 1]));
    assert(text::is_digit(m[0]) && text::is_digit(m[m.len() - 1]));
    assert(text_lemmas::lacks(v, '\n')) by {
        assert forall|i: int| 0 <= i < v.len() implies v[i] != '\n' by {
            assert(text::is_digit(v[i]));
        }
    }
    assert(text_lemmas::lacks(m, '\n')) by {
        assert forall|i: int| 0 <= i < m.len() implies m[i] != '\n' by {
            assert(text::is_digit(m[i]));
        }
    }
    reveal_strlit(",");
    text_lemmas::lemma_joined_tight(c.groups, ","@);
    let e = config_entries(c);
    assert(yaml::writable(e[0]));
    assert(yaml::writable(e[1]));
    assert(yaml::writable(e[2]));
    assert(yaml::writable(e[3]));
    assert(yaml::writable(e[4]));
    assert(yaml::writable(e[5]));
    assert(yaml::writable(e[6]));
}

/// Reading a configuration that was written gives it back.
pub proof fn config_reads_back(c: PoolConfigView)
    requires
        storable(c),
    ensures
        config_read(config_text(c)) == Ok::<PoolConfigView, ConfigFault>(c),
{
    let e = config_entries(c);
    lemma_config_keys(c);
    lemma_config_writable(c);
    yaml::parse_undoes_serialize(e);
    yaml::lemma_kept(e);
    let m = yaml::kept(e);
    assert(e[0].0 == "schema_version"@ && e[1].0 == "source"@ && e[2].0 == "default_commit"@);
    assert(e[3].0 == "max_slots"@ && e[4].0 == "groups"@);
    assert(e[5].0 == "submodule_mirror_mode"@ && e[6].0 == "submodule_mirror_base"@);
    text_lemmas::lemma_decimal_digits(c.schema_version as nat);
    text_lemmas::lemma_decimal_digits(c.max_slots as nat);
    text_lemmas::lemma_number_decimal(c.schema_version as nat);
    text_lemmas::lemma_number_decimal(c.max_slots as nat);
    assert(groups_in(m) == c.groups) by {
        reveal_strlit(",");
        if c.groups.len() > 0 {
            assert(","@ =~= seq![',']);
            text_lemmas::lemma_pieces_joined(c.groups, ',');
            assert forall|i: int| 0 <= i < c.groups.len() implies text::trimmed(c.groups[i])
                == c.groups[i] by {
                assert(plain(c.groups[i]));
                text_lemmas::lemma_tight_trimmed(c.groups[i]);
            }
            assert(groups_in(m) =~= c.groups);
        } else {
            assert(groups_in(m) =~= c.groups);
        }
    }
    assert(mode_in(m) == Ok::<Option<SubmoduleMirrorMode>, ConfigFault>(
        c.submodule_mirror_mode,
    )) by {
        reveal_strlit("bare-mirror");
        reveal_strlit("source-submodules");
        reveal_strlit("git-modules");
        assert("bare-mirror"@[0] != "source-submodules"@[0]);
    }
}

} // verus!
