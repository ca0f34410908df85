//! Laws of what the types stand for: each field for itself.
use crate::admin::MutexState;
use crate::config::{ConfigError, ConfigFault, PoolConfig};
use crate::dashboard::Row;
use crate::doctor::Check;
use crate::git::GitCommand;
use crate::slot::{Look, Seen, SlotEntry};
use crate::submodules::SubmoduleEntry;
use crate::text;
use vstd::prelude::*;

verus! {

/// A slot, what was seen of it and what a look at it showed.
pub proof fn slots_stand_for(e: SlotEntry, s: Seen, l: Look)
    ensures
        e@.id == e.id@ && e@.path == e.path@ && e@.group == text::opt_text(e.group) && e@.n == e.n
            && e@.head == text::opt_text(e.head) && e@.branch == text::opt_text(e.branch),
        s@.name == s.name@ && s@.is_dir == s.is_dir && s@.head == text::opt_text(s.head) && s@.branch
            == text::opt_text(s.branch),
        l@.exists == l.exists && l@.head == text::opt_text(l.head),
{
}

/// A configuration.
pub proof fn configurations_stand_for(c: PoolConfig, i: int)
    ensures
        c@.schema_version == c.schema_version && c@.source == c.source@ && c@.default_commit
            == c.default_commit@ && c@.max_slots == c.max_slots,
        c@.submodule_mirror_mode == c.submodule_mirror_mode && c@.submodule_mirror_base
            == text::opt_text(c.submodule_mirror_base),
        c@.groups.len() == c.groups@.len(),
        0 <= i < c.groups@.len() ==> c@.groups[i] == c.groups@[i]@,
{
}

/// What is wrong with one.
pub proof fn faults_stand_for(p: String, n: u32, e: text::IntError)
    ensures
        ConfigError::ZeroMaxSlots@ == ConfigFault::ZeroMaxSlots,
        ConfigError::SourceAbsent(p)@ == ConfigFault::SourceAbsent(p@),
        ConfigError::MirrorFlagsHalved@ == ConfigFault::MirrorFlagsHalved,
        ConfigError::SchemaVersionMissing@ == ConfigFault::SchemaVersionMissing,
        ConfigError::SchemaVersionInvalid(e)@ == ConfigFault::SchemaVersionInvalid(e),
        ConfigError::SchemaVersionUnsupported(n)@ == ConfigFault::SchemaVersionUnsupported(n),
        ConfigError::SourceMissing@ == ConfigFault::SourceMissing,
        ConfigError::DefaultCommitMissing@ == ConfigFault::DefaultCommitMissing,
        ConfigError::MaxSlotsMissing@ == ConfigFault::MaxSlotsMissing,
        ConfigError::MaxSlotsInvalid(e)@ == ConfigFault::MaxSlotsInvalid(e),
        ConfigError::MirrorModeInvalid(p)@ == ConfigFault::MirrorModeInvalid(p@),
        ConfigError::MirrorKeysHalved@ == ConfigFault::MirrorKeysHalved,
{
}

/// A submodule, a row, a check, the state of a mutex and a command.
pub proof fn reports_stand_for(
    m: SubmoduleEntry,
    r: Row,
    c: Check,
    s: MutexState,
    g: GitCommand,
    i: int,
)
    ensures
        m@.name == m.name@ && m@.path == m.path@ && m@.url == m.url@ && m@.tags.len()
            == m.tags@.len(),
        0 <= i < m.tags@.len() ==> m@.tags[i] == m.tags@[i]@,
        r@.id == r.id@ && r@.state == r.state && r@.lease == text::opt_text(r.lease) && r@.group
            == text::opt_text(r.group) && r@.sha == text::opt_text(r.sha) && r@.git == r.git
            && r@.path == text::opt_text(r.path),
        c@.name == c.name@ && c@.status == c.status && c@.message == c.message@,
        s@.slot == s.slot@ && s@.path == s.path@ && s@.held == s.held,
        g@.cwd == g.cwd@ && g@.args.len() == g.args@.len() && g@.overrides.len()
            == g.overrides@.len(),
        0 <= i < g.args@.len() ==> g@.args[i] == g.args@[i]@,
        0 <= i < g.overrides@.len() ==> g@.overrides[i] == (
            g.overrides@[i].0@,
            g.overrides@[i].1@,
        ),
{
}

/// Texts that may be missing, and lists of texts.
pub proof fn texts_stand_for(v: Vec<String>, w: Vec<&str>, s: String, t: &str, i: int)
    ensures
        text::texts(v@).len() == v@.len(),
        0 <= i < v@.len() ==> text::texts(v@)[i] == v@[i]@,
        text::slices(w@).len() == w@.len(),
        0 <= i < w@.len() ==> text::slices(w@)[i] == w@[i]@,
        text::opt_text(Some(s)) == Some(s@),
        text::opt_text(None) is None,
        text::opt_slice(Some(t)) == Some(t@),
        text::opt_slice(None) is None,
{
}

} // verus!
