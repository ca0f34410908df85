//! Laws of the configuration as it is called.
use crate::cli::{InitArgs, SubmoduleMirrorMode};
use crate::config;
use crate::config::{ConfigError, FileWrite, PoolConfig};
use crate::error::Error;
use crate::fs_paths;
use crate::laws::config as config_laws;
use crate::laws::config::holdable;
use crate::text;
use crate::text_lemmas::lacks;
use crate::types::GroupName;
use vstd::prelude::*;

verus! {

/// Each field of the configuration that `init` makes is the argument of the same name.
pub proof fn arguments_are_kept(
    args: &InitArgs,
    source_exists: bool,
    r: Result<PoolConfig, ConfigError>,
)
    requires
        call_ensures(PoolConfig::from_init_args, (args, source_exists), r),
    ensures
        r is Ok <==> args.max_slots > 0 && source_exists && (args.submodule_mirror_mode is Some
            <==> args.submodule_mirror_base is Some),
        r matches Ok(c) ==> {
            &&& c.schema_version == 1
            &&& c.source@ == args.source@
            &&& c.default_commit@ == args.default_commit@
            &&& c.max_slots == args.max_slots
            &&& c.groups@.len() == args.groups@.len()
            &&& forall|i: int|
                0 <= i < c.groups@.len() ==> (#[trigger] c.groups@[i])@ == args.groups@[i]@
            &&& c.submodule_mirror_mode == args.submodule_mirror_mode
            &&& text::opt_text(c.submodule_mirror_base) == text::opt_text(
                args.submodule_mirror_base,
            )
        },
{
    config_laws::accepted_arguments_are_kept(*args, source_exists);
    if let Ok(c) = r {
        assert(c@.groups.len() == c.groups@.len());
        assert forall|i: int| 0 <= i < c.groups@.len() implies (#[trigger] c.groups@[i])@
            == args.groups@[i]@ by {
            assert(c@.groups[i] == c.groups@[i]@);
        }
    }
}

/// Reading what was written gives each field back, where a file can hold them.
pub proof fn a_written_configuration_reads_back(
    c: &PoolConfig,
    written: String,
    t: &str,
    r: Result<PoolConfig, ConfigError>,
    pool: &str,
    w: FileWrite,
)
    requires
        call_ensures(PoolConfig::serialize, (c,), written),
        call_ensures(PoolConfig::parse, (t,), r),
        call_ensures(config::write, (pool, c), w),
        t@ == written@,
        c.schema_version == 1,
        holdable(c.source@),
        holdable(c.default_commit@),
        forall|i: int| 0 <= i < c.groups@.len() ==> holdable((#[trigger] c.groups@[i])@) && lacks(
            c.groups@[i]@,
            ',',
        ),
        c.submodule_mirror_mode is Some <==> c.submodule_mirror_base is Some,
        c.submodule_mirror_base matches Some(b) ==> holdable(b@),
    ensures
        r matches Ok(d) && d.source@ == c.source@ && d.default_commit@ == c.default_commit@
            && d.max_slots == c.max_slots && d.groups@.len() == c.groups@.len() && (forall|i: int|
            0 <= i < c.groups@.len() ==> (#[trigger] d.groups@[i])@ == c.groups@[i]@)
            && d.submodule_mirror_mode == c.submodule_mirror_mode && text::opt_text(
            d.submodule_mirror_base,
        ) == text::opt_text(c.submodule_mirror_base),
        w.content@ == written@,
        w.path@ == fs_paths::path_in(pool@, ".meta/config.yaml"@),
{
    let v = c@;
    assert(v.groups.len() == c.groups@.len());
    assert forall|i: int| 0 <= i < v.groups.len() implies config::plain(#[trigger] v.groups[i])
        && lacks(v.groups[i], ',') by {
        assert(v.groups[i] == c.groups@[i]@);
        assert(holdable(c.groups@[i]@));
    }
    if v.groups.len() > 0 {
        assert(holdable(c.groups@[0]@));
        assert(v.groups[0] == c.groups@[0]@);
        if v.groups.len() > 1 {
            crate::text_lemmas::lemma_joined_front(v.groups, ","@);
        } else {
            assert(v.groups =~= seq![v.groups[0]]);
        }
    }
    config::config_reads_back(v);
    let d = r->Ok_0;
    assert(d@.groups.len() == d.groups@.len());
    assert forall|i: int| 0 <= i < c.groups@.len() implies (#[trigger] d.groups@[i])@
        == c.groups@[i]@ by {
        assert(d@.groups[i] == d.groups@[i]@);
        assert(v.groups[i] == c.groups@[i]@);
    }
}

/// A configuration that is read has the known version, a source, a commit, and the mirror's
/// mode and base both or neither.
pub proof fn a_read_configuration_is_sound(t: &str, r: Result<PoolConfig, ConfigError>)
    requires
        call_ensures(PoolConfig::parse, (t,), r),
    ensures
        r matches Ok(c) ==> c.schema_version == 1 && c.source@.len() > 0 && c.default_commit@.len()
            > 0 && (c.submodule_mirror_mode is Some <==> c.submodule_mirror_base is Some),
        r matches Ok(c) ==> ({
            let m = crate::yaml::parsed(t@);
            &&& c.source@ == m["source"@]
            &&& c.default_commit@ == m["default_commit"@]
            &&& text::number(m["max_slots"@]) == Ok::<nat, text::IntError>(c.max_slots as nat)
            &&& c.submodule_mirror_mode == Some(SubmoduleMirrorMode::BareMirror)
                ==> m["submodule_mirror_mode"@] == "bare-mirror"@
            &&& c.submodule_mirror_base matches Some(b) ==> b@ == m["submodule_mirror_base"@]
        }),
{
    config_laws::a_configuration_holds_what_its_keys_say(crate::yaml::parsed(t@));
}

/// A configuration that cannot be read or parsed is told with its file.
pub proof fn an_unloadable_configuration_is_told(
    pool: &str,
    content: Result<String, String>,
    r: Result<PoolConfig, Error>,
)
    requires
        call_ensures(config::load, (pool, content), r),
    ensures
        content matches Err(why) ==> (r matches Err(e) && e.kind is None && e.message@
            == "reading config "@ + fs_paths::path_in(pool@, ".meta/config.yaml"@) + ": "@ + why@),
        content matches Ok(t) ==> (config::config_read(t@) matches Err(f) ==> (r matches Err(e)
            && e.kind is None && e.message@ == "parsing config "@ + fs_paths::path_in(
            pool@,
            ".meta/config.yaml"@,
        ) + ": "@ + config::fault_message(f))),
        content matches Ok(t) ==> (config::config_read(t@) matches Ok(c) ==> (r matches Ok(d)
            && d@ == c)),
{
}

/// The names of groups and modes, and the message of a fault.
pub proof fn names_and_messages(
    groups: &Vec<GroupName>,
    names: Vec<String>,
    mode: SubmoduleMirrorMode,
    name: &'static str,
    f: &ConfigError,
    message: String,
    i: int,
)
    requires
        call_ensures(config::group_strings, (groups,), names),
        call_ensures(SubmoduleMirrorMode::as_str, (mode,), name),
        call_ensures(ConfigError::message, (f,), message),
    ensures
        names@.len() == groups@.len(),
        0 <= i < names@.len() ==> names@[i]@ == groups@[i]@,
        mode == SubmoduleMirrorMode::BareMirror ==> name@ == "bare-mirror"@,
        mode == SubmoduleMirrorMode::SourceSubmodules ==> name@ == "source-submodules"@,
        message@ == config::fault_message(f@),
{
    assert(text::texts(names@).len() == names@.len());
    if 0 <= i < names@.len() {
        assert(text::texts(names@)[i] == names@[i]@);
    }
}

} // verus!
