//! Laws of the pool's configuration.
use crate::cli::{InitArgs, SubmoduleMirrorMode};
use crate::commands;
use crate::commands::{NewPool, Pool};
use crate::config;
use crate::config::{ConfigFault, PoolConfigView};
use crate::git::GitReply;
use crate::text;
use crate::text_lemmas::lacks;
use vstd::prelude::*;

verus! {

/// `init` accepts its arguments exactly where there may be a slot, the source is there, and
/// the mirror's mode and base are given together; each field of the configuration is then the
/// argument of the same name.
pub proof fn accepted_arguments_are_kept(args: InitArgs, source_exists: bool)
    ensures
        config::requested(args, source_exists) is Ok <==> args.max_slots > 0 && source_exists && (
        args.submodule_mirror_mode is Some <==> args.submodule_mirror_base is Some),
        config::requested(args, source_exists) matches Ok(c) ==> {
            &&& c.schema_version == 1
            &&& c.source == args.source@
            &&& c.default_commit == args.default_commit@
            &&& c.max_slots == args.max_slots
            &&& c.groups.len() == args.groups@.len()
            &&& forall|i: int| 0 <= i < c.groups.len() ==> #[trigger] c.groups[i] == args.groups@[i]@
            &&& c.submodule_mirror_mode == args.submodule_mirror_mode
            &&& args.submodule_mirror_base is None ==> c.submodule_mirror_base is None
            &&& args.submodule_mirror_base matches Some(b) ==> c.submodule_mirror_base == Some(b@)
        },
{
}

/// The first fault of `init`'s arguments is what is told: no slots, then a source that is not
/// there, then half a mirror.
pub proof fn refused_arguments_are_told(args: InitArgs, source_exists: bool)
    ensures
        args.max_slots == 0 ==> config::requested(args, source_exists) == Err::<
            PoolConfigView,
            ConfigFault,
        >(ConfigFault::ZeroMaxSlots),
        args.max_slots > 0 && !source_exists ==> config::requested(args, source_exists) == Err::<
            PoolConfigView,
            ConfigFault,
        >(ConfigFault::SourceAbsent(args.source@)),
        args.max_slots > 0 && source_exists && (args.submodule_mirror_mode is Some) != (
        args.submodule_mirror_base is Some) ==> config::requested(args, source_exists) == Err::<
            PoolConfigView,
            ConfigFault,
        >(ConfigFault::MirrorFlagsHalved),
{
}

/// A text that a line of the file can hold: no white space at its ends, no line break in it.
pub open spec fn holdable(t: Seq<char>) -> bool {
    &&& lacks(t, '\n')
    &&& t.len() > 0
    &&& !text::white(t[0])
    &&& !text::white(t.last())
}

/// Reading the file that `init` wrote gives each argument back, where the file can hold them:
/// the source, the default commit, the slots, the groups, and the mirror's mode and base.
pub proof fn init_writes_its_arguments(
    p: Pool,
    args: InitArgs,
    source_exists: bool,
    modules: GitReply,
    made: NewPool,
)
    requires
        commands::initializes(p, args, false, source_exists, modules, Ok(made)),
        holdable(args.source@),
        holdable(args.default_commit@),
        forall|i: int| 0 <= i < args.groups@.len() ==> holdable((#[trigger] args.groups@[i])@)
            && lacks(args.groups@[i]@, ','),
        args.submodule_mirror_base matches Some(b) ==> holdable(b@),
    ensures
        config::config_read(made.write.content@) matches Ok(c) && {
            &&& c.schema_version == 1
            &&& c.source == args.source@
            &&& c.default_commit == args.default_commit@
            &&& c.max_slots == args.max_slots
            &&& c.groups.len() == args.groups@.len()
            &&& forall|i: int| 0 <= i < c.groups.len() ==> #[trigger] c.groups[i] == args.groups@[i]@
            &&& c.submodule_mirror_mode == args.submodule_mirror_mode
            &&& args.submodule_mirror_base is None ==> c.submodule_mirror_base is None
            &&& args.submodule_mirror_base matches Some(b) ==> c.submodule_mirror_base == Some(b@)
        },
{
    accepted_arguments_are_kept(args, source_exists);
    let c = config::requested(args, source_exists)->Ok_0;
    if c.groups.len() > 0 {
        assert(holdable(args.groups@[0]@));
        assert(c.groups[0].len() > 0);
        if c.groups.len() > 1 {
            crate::text_lemmas::lemma_joined_front(c.groups, ","@);
        } else {
            assert(c.groups =~= seq![c.groups[0]]);
        }
    }
    assert forall|i: int| 0 <= i < c.groups.len() implies config::plain(#[trigger] c.groups[i])
        && lacks(c.groups[i], ',') by {
        assert(holdable(args.groups@[i]@));
    }
    config::config_reads_back(c);
}

/// A configuration is read from its keys: each field is the value of the key of the same
/// name. It needs the known version, a source, a default commit, a number of slots, and the
/// mirror's mode and base both or neither; an empty value is none.
pub proof fn a_configuration_holds_what_its_keys_say(m: Map<Seq<char>, Seq<char>>)
    ensures
        config::config_in(m) matches Ok(c) ==> {
            &&& m.contains_key("schema_version"@) && text::number(m["schema_version"@]) == Ok::<
                nat,
                text::IntError,
            >(1)
            &&& c.schema_version == 1
            &&& m.contains_key("source"@) && m["source"@].len() > 0 && c.source == m["source"@]
            &&& m.contains_key("default_commit"@) && m["default_commit"@].len() > 0
                && c.default_commit == m["default_commit"@]
            &&& m.contains_key("max_slots"@) && text::number(m["max_slots"@]) == Ok::<
                nat,
                text::IntError,
            >(c.max_slots as nat)
            &&& c.submodule_mirror_mode is Some <==> m.contains_key("submodule_mirror_mode"@)
                && m["submodule_mirror_mode"@].len() > 0
            &&& c.submodule_mirror_mode == Some(SubmoduleMirrorMode::BareMirror)
                ==> m["submodule_mirror_mode"@] == "bare-mirror"@
            &&& c.submodule_mirror_mode == Some(SubmoduleMirrorMode::SourceSubmodules) ==> (
            m["submodule_mirror_mode"@] == "source-submodules"@ || m["submodule_mirror_mode"@]
                == "git-modules"@)
            &&& c.submodule_mirror_base is Some <==> m.contains_key("submodule_mirror_base"@)
                && m["submodule_mirror_base"@].len() > 0
            &&& c.submodule_mirror_base matches Some(b) ==> b == m["submodule_mirror_base"@]
            &&& c.submodule_mirror_mode is Some <==> c.submodule_mirror_base is Some
            &&& !(m.contains_key("groups"@) && m["groups"@].len() > 0) ==> c.groups.len() == 0
            &&& m.contains_key("groups"@) && m["groups"@].len() > 0 ==> {
                &&& c.groups.len() == text::pieces(m["groups"@], ',').len()
                &&& forall|i: int|
                    0 <= i < c.groups.len() ==> #[trigger] c.groups[i] == text::trimmed(
                        text::pieces(m["groups"@], ',')[i],
                    )
            }
        },
{
    if let Ok(_) = text::number(m["max_slots"@]) {
        crate::text_lemmas::lemma_number_bound(m["max_slots"@]);
    }
}

/// A configuration is refused for its first fault, in this order: the version, the source, the
/// default commit, the slots, the mirror.
pub proof fn a_configuration_is_refused_for(m: Map<Seq<char>, Seq<char>>)
    ensures
        ({
            let r = config::config_in(m);
            let versioned = m.contains_key("schema_version"@) && text::number(m["schema_version"@])
                == Ok::<nat, text::IntError>(1);
            let sourced = m.contains_key("source"@) && m["source"@].len() > 0;
            let pinned = m.contains_key("default_commit"@) && m["default_commit"@].len() > 0;
            let sized = m.contains_key("max_slots"@);
            let mode = m.contains_key("submodule_mirror_mode"@) && m["submodule_mirror_mode"@].len()
                > 0;
            let based = m.contains_key("submodule_mirror_base"@) && m["submodule_mirror_base"@].len()
                > 0;
            let known = m["submodule_mirror_mode"@] == "bare-mirror"@ || m["submodule_mirror_mode"@]
                == "source-submodules"@ || m["submodule_mirror_mode"@] == "git-modules"@;
            &&& r is Ok <==> versioned && sourced && pinned && sized && text::number(
                m["max_slots"@],
            ) is Ok && (mode ==> known) && (mode <==> based)
            &&& !m.contains_key("schema_version"@) ==> r == Err::<PoolConfigView, ConfigFault>(
                ConfigFault::SchemaVersionMissing,
            )
            &&& m.contains_key("schema_version"@) && (text::number(
                m["schema_version"@],
            ) matches Err(_)) ==> r == Err::<PoolConfigView, ConfigFault>(
                ConfigFault::SchemaVersionInvalid(text::number(m["schema_version"@])->Err_0),
            )
            &&& versioned && !sourced ==> r == Err::<PoolConfigView, ConfigFault>(
                ConfigFault::SourceMissing,
            )
            &&& versioned && sourced && !pinned ==> r == Err::<PoolConfigView, ConfigFault>(
                ConfigFault::DefaultCommitMissing,
            )
            &&& versioned && sourced && pinned && !sized ==> r == Err::<PoolConfigView, ConfigFault>(
                ConfigFault::MaxSlotsMissing,
            )
            &&& versioned && sourced && pinned && sized && text::number(m["max_slots"@]) is Err
                ==> r == Err::<PoolConfigView, ConfigFault>(
                ConfigFault::MaxSlotsInvalid(text::number(m["max_slots"@])->Err_0),
            )
            &&& versioned && sourced && pinned && sized && text::number(m["max_slots"@]) is Ok
                && mode && !known ==> r == Err::<PoolConfigView, ConfigFault>(
                ConfigFault::MirrorModeInvalid(m["submodule_mirror_mode"@]),
            )
            &&& versioned && sourced && pinned && sized && text::number(m["max_slots"@]) is Ok && (
            mode ==> known) && mode != based ==> r == Err::<PoolConfigView, ConfigFault>(
                ConfigFault::MirrorKeysHalved,
            )
        }),
{
}

/// A version that is not the known one is told by its number.
pub proof fn another_version_is_refused(m: Map<Seq<char>, Seq<char>>, n: u32)
    requires
        n != 1,
        m.contains_key("schema_version"@),
        m["schema_version"@] == text::decimal(n as nat),
    ensures
        config::config_in(m) == Err::<PoolConfigView, ConfigFault>(
            ConfigFault::SchemaVersionUnsupported(n),
        ),
        config::fault_message(ConfigFault::SchemaVersionUnsupported(n)) == "config schema_version "@
            + text::decimal(n as nat) + " unsupported (expected 1)"@,
{
    crate::text_lemmas::lemma_number_decimal(n as nat);
}

/// What each fault is told as.
pub proof fn faults_are_told_as(p: Seq<char>)
    ensures
        config::fault_message(ConfigFault::ZeroMaxSlots) == "--max-slots must be > 0"@,
        config::fault_message(ConfigFault::SourceAbsent(p)) == "--source path does not exist: "@ + p,
        config::fault_message(ConfigFault::MirrorFlagsHalved)
            == "--submodule-mirror-mode and --submodule-mirror-base must be set together"@,
        config::fault_message(ConfigFault::SchemaVersionMissing)
            == "config missing `schema_version`"@,
        config::fault_message(ConfigFault::SourceMissing) == "config missing `source`"@,
        config::fault_message(ConfigFault::DefaultCommitMissing)
            == "config missing `default_commit`"@,
        config::fault_message(ConfigFault::MaxSlotsMissing) == "config missing `max_slots`"@,
        config::fault_message(ConfigFault::MirrorKeysHalved)
            == "submodule_mirror_mode and submodule_mirror_base must be set together"@,
        config::int_fault(text::IntError::Empty) == "cannot parse integer from empty string"@,
        config::int_fault(text::IntError::InvalidDigit) == "invalid digit found in string"@,
        config::int_fault(text::IntError::Overflow) == "number too large to fit in target type"@,
{
}

/// The modes go by their names in the file and on the command line.
pub proof fn modes_go_by_name(mode: SubmoduleMirrorMode)
    ensures
        mode == SubmoduleMirrorMode::BareMirror ==> crate::cli::mode_name(mode) == "bare-mirror"@,
        mode == SubmoduleMirrorMode::SourceSubmodules ==> crate::cli::mode_name(mode)
            == "source-submodules"@,
{
}

/// A number that cannot be read is told with what is wrong with it, and a mode that there is
/// not by its text.
pub proof fn unreadable_values_are_told(e: text::IntError, mode: Seq<char>)
    ensures
        config::fault_message(ConfigFault::SchemaVersionInvalid(e))
            == "config has invalid `schema_version` (want a u32): "@ + config::int_fault(e),
        config::fault_message(ConfigFault::MaxSlotsInvalid(e))
            == "config has invalid `max_slots` (want a u32): "@ + config::int_fault(e),
        config::fault_message(ConfigFault::MirrorModeInvalid(mode))
            == "invalid submodule_mirror_mode: "@ + crate::debug::debug_form(mode),
{
}

} // verus!
