//! Domain-key newtypes, so that a slot id, a branch, a lease, a group and a
//! commit cannot be passed for one another. Thin wrappers over `String`; they
//! become plain text again through `as_str`.
use crate::debug;
use crate::error::Error;
use crate::text;
use vstd::prelude::*;

verus! {

/// Canonical slot id: `{group}-{N}` (grouped) or `slot-{N}` (groupless).
#[derive(Debug, PartialEq, Eq, Hash, PartialOrd, Ord)]
pub struct SlotId(String);

impl View for SlotId {
    type V = Seq<char>;

    closed spec fn view(&self) -> Seq<char> {
        self.0@
    }
}

impl SlotId {
    /// The text.
    pub fn as_str(&self) -> (r: &str)
        ensures
            r@ == self@,
    {
        self.0.as_str()
    }

    /// The text, given up by its owner.
    pub fn into_string(self) -> (r: String)
        ensures
            r@ == self@,
    {
        self.0
    }

    /// A copy of the text.
    pub fn to_string(&self) -> (r: String)
        ensures
            r@ == self@,
    {
        text::own(self.0.as_str())
    }
}

impl Clone for SlotId {
    fn clone(&self) -> (r: Self)
        ensures
            r@ == self@,
    {
        SlotId(text::own(self.0.as_str()))
    }
}

impl From<String> for SlotId {
    fn from(s: String) -> (r: Self)
        ensures
            r@ == s@,
    {
        SlotId(s)
    }
}

impl vstd::std_specs::convert::FromSpecImpl<String> for SlotId {
    open spec fn obeys_from_spec() -> bool {
        true
    }

    closed spec fn from_spec(s: String) -> Self {
        SlotId(s)
    }
}

impl From<&str> for SlotId {
    fn from(s: &str) -> (r: Self)
        ensures
            r@ == s@,
    {
        SlotId(text::own(s))
    }
}

impl vstd::std_specs::convert::FromSpecImpl<&str> for SlotId {
    open spec fn obeys_from_spec() -> bool {
        false
    }

    open spec fn from_spec(s: &str) -> Self {
        arbitrary()
    }
}

/// A feature branch, held in the slot's branch ref.
#[derive(Debug, PartialEq, Eq, Hash, PartialOrd, Ord)]
pub struct BranchName(String);

impl View for BranchName {
    type V = Seq<char>;

    closed spec fn view(&self) -> Seq<char> {
        self.0@
    }
}

impl BranchName {
    /// The text.
    pub fn as_str(&self) -> (r: &str)
        ensures
            r@ == self@,
    {
        self.0.as_str()
    }

    /// The text, given up by its owner.
    pub fn into_string(self) -> (r: String)
        ensures
            r@ == self@,
    {
        self.0
    }

    /// A copy of the text.
    pub fn to_string(&self) -> (r: String)
        ensures
            r@ == self@,
    {
        text::own(self.0.as_str())
    }
}

impl Clone for BranchName {
    fn clone(&self) -> (r: Self)
        ensures
            r@ == self@,
    {
        BranchName(text::own(self.0.as_str()))
    }
}

impl From<String> for BranchName {
    fn from(s: String) -> (r: Self)
        ensures
            r@ == s@,
    {
        BranchName(s)
    }
}

impl vstd::std_specs::convert::FromSpecImpl<String> for BranchName {
    open spec fn obeys_from_spec() -> bool {
        true
    }

    closed spec fn from_spec(s: String) -> Self {
        BranchName(s)
    }
}

impl From<&str> for BranchName {
    fn from(s: &str) -> (r: Self)
        ensures
            r@ == s@,
    {
        BranchName(text::own(s))
    }
}

impl vstd::std_specs::convert::FromSpecImpl<&str> for BranchName {
    open spec fn obeys_from_spec() -> bool {
        false
    }

    open spec fn from_spec(s: &str) -> Self {
        arbitrary()
    }
}

/// A caller's claim on a slot, held as the slot's branch.
#[derive(Debug, PartialEq, Eq, Hash, PartialOrd, Ord)]
pub struct LeaseName(String);

impl View for LeaseName {
    type V = Seq<char>;

    closed spec fn view(&self) -> Seq<char> {
        self.0@
    }
}

impl LeaseName {
    /// The text.
    pub fn as_str(&self) -> (r: &str)
        ensures
            r@ == self@,
    {
        self.0.as_str()
    }

    /// The text, given up by its owner.
    pub fn into_string(self) -> (r: String)
        ensures
            r@ == self@,
    {
        self.0
    }

    /// A copy of the text.
    pub fn to_string(&self) -> (r: String)
        ensures
            r@ == self@,
    {
        text::own(self.0.as_str())
    }
}

impl Clone for LeaseName {
    fn clone(&self) -> (r: Self)
        ensures
            r@ == self@,
    {
        LeaseName(text::own(self.0.as_str()))
    }
}

impl From<String> for LeaseName {
    fn from(s: String) -> (r: Self)
        ensures
            r@ == s@,
    {
        LeaseName(s)
    }
}

impl vstd::std_specs::convert::FromSpecImpl<String> for LeaseName {
    open spec fn obeys_from_spec() -> bool {
        true
    }

    closed spec fn from_spec(s: String) -> Self {
        LeaseName(s)
    }
}

impl From<&str> for LeaseName {
    fn from(s: &str) -> (r: Self)
        ensures
            r@ == s@,
    {
        LeaseName(text::own(s))
    }
}

impl vstd::std_specs::convert::FromSpecImpl<&str> for LeaseName {
    open spec fn obeys_from_spec() -> bool {
        false
    }

    open spec fn from_spec(s: &str) -> Self {
        arbitrary()
    }
}

/// A pool group (e.g. `ios`, `android`). Persisted in `config.yaml`'s `groups`.
#[derive(Debug, PartialEq, Eq, Hash, PartialOrd, Ord)]
pub struct GroupName(String);

impl View for GroupName {
    type V = Seq<char>;

    closed spec fn view(&self) -> Seq<char> {
        self.0@
    }
}

impl GroupName {
    /// The text.
    pub fn as_str(&self) -> (r: &str)
        ensures
            r@ == self@,
    {
        self.0.as_str()
    }

    /// The text, given up by its owner.
    pub fn into_string(self) -> (r: String)
        ensures
            r@ == self@,
    {
        self.0
    }

    /// A copy of the text.
    pub fn to_string(&self) -> (r: String)
        ensures
            r@ == self@,
    {
        text::own(self.0.as_str())
    }
}

impl Clone for GroupName {
    fn clone(&self) -> (r: Self)
        ensures
            r@ == self@,
    {
        GroupName(text::own(self.0.as_str()))
    }
}

impl From<String> for GroupName {
    fn from(s: String) -> (r: Self)
        ensures
            r@ == s@,
    {
        GroupName(s)
    }
}

impl vstd::std_specs::convert::FromSpecImpl<String> for GroupName {
    open spec fn obeys_from_spec() -> bool {
        true
    }

    closed spec fn from_spec(s: String) -> Self {
        GroupName(s)
    }
}

impl From<&str> for GroupName {
    fn from(s: &str) -> (r: Self)
        ensures
            r@ == s@,
    {
        GroupName(text::own(s))
    }
}

impl vstd::std_specs::convert::FromSpecImpl<&str> for GroupName {
    open spec fn obeys_from_spec() -> bool {
        false
    }

    open spec fn from_spec(s: &str) -> Self {
        arbitrary()
    }
}

/// Anything that `git rev-parse` resolves to a commit.
#[derive(Debug, PartialEq, Eq, Hash, PartialOrd, Ord)]
pub struct CommitIsh(String);

impl View for CommitIsh {
    type V = Seq<char>;

    closed spec fn view(&self) -> Seq<char> {
        self.0@
    }
}

impl CommitIsh {
    /// The text.
    pub fn as_str(&self) -> (r: &str)
        ensures
            r@ == self@,
    {
        self.0.as_str()
    }

    /// The text, given up by its owner.
    pub fn into_string(self) -> (r: String)
        ensures
            r@ == self@,
    {
        self.0
    }

    /// A copy of the text.
    pub fn to_string(&self) -> (r: String)
        ensures
            r@ == self@,
    {
        text::own(self.0.as_str())
    }
}

impl Clone for CommitIsh {
    fn clone(&self) -> (r: Self)
        ensures
            r@ == self@,
    {
        CommitIsh(text::own(self.0.as_str()))
    }
}

impl From<String> for CommitIsh {
    fn from(s: String) -> (r: Self)
        ensures
            r@ == s@,
    {
        CommitIsh(s)
    }
}

impl vstd::std_specs::convert::FromSpecImpl<String> for CommitIsh {
    open spec fn obeys_from_spec() -> bool {
        true
    }

    closed spec fn from_spec(s: String) -> Self {
        CommitIsh(s)
    }
}

impl From<&str> for CommitIsh {
    fn from(s: &str) -> (r: Self)
        ensures
            r@ == s@,
    {
        CommitIsh(text::own(s))
    }
}

impl vstd::std_specs::convert::FromSpecImpl<&str> for CommitIsh {
    open spec fn obeys_from_spec() -> bool {
        false
    }

    open spec fn from_spec(s: &str) -> Self {
        arbitrary()
    }
}

/// The texts of a sequence of groups.
pub open spec fn group_texts(v: Seq<GroupName>) -> Seq<Seq<char>> {
    v.map_values(|g: GroupName| g@)
}

/// ASCII hexadecimal digit.
pub open spec fn is_hex(c: char) -> bool {
    ||| '0' <= c <= '9'
    ||| 'a' <= c <= 'f'
    ||| 'A' <= c <= 'F'
}

/// Forty hexadecimal digits.
pub open spec fn is_full_sha(s: Seq<char>) -> bool {
    &&& s.len() == 40
    &&& forall|i: int| 0 <= i < s.len() ==> is_hex(#[trigger] s[i])
}

/// A full 40-hex-char git commit SHA. Validated at construction so that
/// `short` always has its eight characters.
#[derive(Debug, PartialEq, Eq, Hash)]
pub struct FullSha(String);

impl View for FullSha {
    type V = Seq<char>;

    closed spec fn view(&self) -> Seq<char> {
        self.0@
    }
}

impl FullSha {
    #[verifier::type_invariant]
    spec fn valid(self) -> bool {
        is_full_sha(self.0@)
    }

    /// Accepts exactly forty hexadecimal digits.
    pub fn parse(s: &str) -> (r: Result<FullSha, Error>)
        ensures
            match r {
                Ok(sha) => is_full_sha(s@) && sha@ == s@,
                Err(e) => !is_full_sha(s@) && e.kind is None && e.message@
                    == "not a full 40-char hex SHA: "@ + debug::debug_form(s@),
            },
    {
        let cs = text::chars(s);
        let mut ok: bool = cs.len() == 40;
        let mut i: usize = 0;
        while i < cs.len()
            invariant
                i <= cs.len(),
                cs@ == s@,
                ok == (cs.len() == 40 && forall|k: int| 0 <= k < i ==> is_hex(#[trigger] s@[k])),
            decreases cs.len() - i,
        {
            let c = cs[i];
            let hex: bool = ('0' <= c && c <= '9') || ('a' <= c && c <= 'f') || ('A' <= c && c
                <= 'F');
            assert(hex == is_hex(s@[i as int]));
            ok = ok && hex;
            i = i + 1;
        }
        if ok {
            Ok(FullSha(text::own(s)))
        } else {
            let mut m = text::own("not a full 40-char hex SHA: ");
            m.append(debug::debug_text(s).as_str());
            Err(Error::new(m))
        }
    }

    /// The text.
    pub fn as_str(&self) -> (r: &str)
        ensures
            r@ == self@,
            is_full_sha(r@),
    {
        proof {
            use_type_invariant(self);
        }
        self.0.as_str()
    }

    /// 8-char display prefix.
    pub fn short(&self) -> (r: &str)
        ensures
            r@ == self@.take(8),
            r@.len() == 8,
    {
        proof {
            use_type_invariant(self);
        }
        assert(self.0@.subrange(0, 8) =~= self.0@.take(8));
        self.0.as_str().substring_char(0, 8)
    }
}

} // verus!
