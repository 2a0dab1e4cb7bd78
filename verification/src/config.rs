//! The per-object policy: which system calls an object may make.

use std::collections::BTreeSet;
use vstd::prelude::*;

verus! {

/// What the policy says about one system call made from one object.
#[derive(Debug, Clone, Copy, PartialEq, Eq, Structural)]
pub enum Check {
    Allowed,
    Blocked,
    Unknown,
}

/// The allow set and the block set of one object, each optional.
#[derive(Debug, Clone, PartialEq, Eq)]
pub struct ConfigEntry {
    pub allow: Option<BTreeSet<u32>>,
    pub block: Option<BTreeSet<u32>>,
}

/// The mathematical content of a [`ConfigEntry`].
pub struct EntryView {
    pub allow: Option<Set<u32>>,
    pub block: Option<Set<u32>>,
}

impl View for ConfigEntry {
    type V = EntryView;

    open spec fn view(&self) -> EntryView {
        EntryView {
            allow: match self.allow {
                Some(s) => Some(s@),
                None => None,
            },
            block: match self.block {
                Some(s) => Some(s@),
                None => None,
            },
        }
    }
}

/// The entry has an allow set, and `syscall` is in it.
pub open spec fn allows(entry: EntryView, syscall: u32) -> bool {
    entry.allow matches Some(set) && set.contains(syscall)
}

/// The entry has a block set, and `syscall` is in it.
pub open spec fn blocks(entry: EntryView, syscall: u32) -> bool {
    entry.block matches Some(set) && set.contains(syscall)
}

/// The verdict of one entry on one system call: the allow set wins over the
/// block set.
pub open spec fn entry_verdict(entry: EntryView, syscall: u32) -> Check {
    if allows(entry, syscall) {
        Check::Allowed
    } else if blocks(entry, syscall) {
        Check::Blocked
    } else {
        Check::Unknown
    }
}

impl ConfigEntry {
    /// The verdict of this entry on `syscall`: `Allowed` if and only if the
    /// allow set holds it, else `Blocked` if and only if the block set holds
    /// it, else `Unknown`.
    pub fn check(&self, syscall: u32) -> (r: Check)
        ensures
            r == entry_verdict(self@, syscall),
            r == Check::Allowed <==> allows(self@, syscall),
            r == Check::Blocked <==> !allows(self@, syscall) && blocks(self@, syscall),
            r == Check::Unknown <==> !allows(self@, syscall) && !blocks(self@, syscall),
    {
        let allowed = match &self.allow {
            Some(a) => a.contains(&syscall),
            None => false,
        };
        if allowed {
            return Check::Allowed;
        }
        let blocked = match &self.block {
            Some(b) => b.contains(&syscall),
            None => false,
        };
        if blocked {
            Check::Blocked
        } else {
            Check::Unknown
        }
    }
}

/// The policy: for each object path, its entry. The entries are kept in a
/// vector, since nothing can be proved of a map of std that is keyed by
/// strings; where a path occurs more than once, its first entry counts.
#[derive(Debug, Clone, PartialEq, Eq)]
pub struct Config {
    pub shared_objects: Vec<(String, ConfigEntry)>,
}

/// The mapping from object path to entry that a list of entries stands for.
pub open spec fn policy_of(entries: Seq<(String, ConfigEntry)>) -> Map<Seq<char>, EntryView>
    decreases entries.len(),
{
    if entries.len() == 0 {
        Map::empty()
    } else {
        policy_of(entries.drop_first()).insert(entries[0].0@, entries[0].1@)
    }
}

/// The verdict of a policy on a system call made from the object at `path`.
pub open spec fn verdict(
    policy: Map<Seq<char>, EntryView>,
    path: Seq<char>,
    syscall: u32,
) -> Check {
    if policy.contains_key(path) {
        entry_verdict(policy[path], syscall)
    } else {
        Check::Unknown
    }
}

/// The first entry for a path is the one that the policy holds for it.
proof fn lemma_policy_first_match(entries: Seq<(String, ConfigEntry)>, path: Seq<char>, i: int)
    requires
        0 <= i < entries.len(),
        entries[i].0@ == path,
        forall|j: int| 0 <= j < i ==> entries[j].0@ != path,
    ensures
        policy_of(entries).contains_key(path),
        policy_of(entries)[path] == entries[i].1@,
    decreases entries.len(),
{
    if i > 0 {
        let rest = entries.drop_first();
        assert forall|j: int| 0 <= j < i - 1 implies rest[j].0@ != path by {
            assert(rest[j] == entries[j + 1]);
        }
        lemma_policy_first_match(rest, path, i - 1);
    }
}

/// A path that no entry names is not in the policy.
proof fn lemma_policy_absent(entries: Seq<(String, ConfigEntry)>, path: Seq<char>)
    requires
        forall|j: int| 0 <= j < entries.len() ==> entries[j].0@ != path,
    ensures
        !policy_of(entries).contains_key(path),
    decreases entries.len(),
{
    if entries.len() > 0 {
        let rest = entries.drop_first();
        assert forall|j: int| 0 <= j < rest.len() implies rest[j].0@ != path by {
            assert(rest[j] == entries[j + 1]);
        }
        lemma_policy_absent(rest, path);
    }
}

/// Replacing the first entry for a path by another entry for it puts that
/// entry into the policy.
proof fn lemma_policy_update(entries: Seq<(String, ConfigEntry)>, i: int, e: (String, ConfigEntry))
    requires
        0 <= i < entries.len(),
        entries[i].0@ == e.0@,
        forall|j: int| 0 <= j < i ==> entries[j].0@ != e.0@,
    ensures
        policy_of(entries.update(i, e)) == policy_of(entries).insert(e.0@, e.1@),
    decreases entries.len(),
{
    let rest = entries.drop_first();
    if i == 0 {
        assert(entries.update(0, e).drop_first() == rest);
        assert(policy_of(rest).insert(entries[0].0@, entries[0].1@).insert(e.0@, e.1@)
            == policy_of(rest).insert(e.0@, e.1@));
    } else {
        assert forall|j: int| 0 <= j < i - 1 implies rest[j].0@ != e.0@ by {
            assert(rest[j] == entries[j + 1]);
        }
        lemma_policy_update(rest, i - 1, e);
        assert(entries.update(i, e).drop_first() == rest.update(i - 1, e));
        assert(policy_of(rest).insert(e.0@, e.1@).insert(entries[0].0@, entries[0].1@)
            == policy_of(rest).insert(entries[0].0@, entries[0].1@).insert(e.0@, e.1@));
    }
}

/// Adding an entry for a path that no entry names puts that entry into the
/// policy.
proof fn lemma_policy_push(entries: Seq<(String, ConfigEntry)>, e: (String, ConfigEntry))
    requires
        forall|j: int| 0 <= j < entries.len() ==> entries[j].0@ != e.0@,
    ensures
        policy_of(entries.push(e)) == policy_of(entries).insert(e.0@, e.1@),
    decreases entries.len(),
{
    if entries.len() == 0 {
        assert(entries.push(e).drop_first() == entries);
    } else {
        let rest = entries.drop_first();
        assert forall|j: int| 0 <= j < rest.len() implies rest[j].0@ != e.0@ by {
            assert(rest[j] == entries[j + 1]);
        }
        lemma_policy_push(rest, e);
        assert(entries.push(e).drop_first() == rest.push(e));
        assert(policy_of(rest).insert(e.0@, e.1@).insert(entries[0].0@, entries[0].1@)
            == policy_of(rest).insert(entries[0].0@, entries[0].1@).insert(e.0@, e.1@));
    }
}

impl View for Config {
    type V = Map<Seq<char>, EntryView>;

    open spec fn view(&self) -> Map<Seq<char>, EntryView> {
        policy_of(self.shared_objects@)
    }
}

impl Config {
    /// No path occurs in two entries.
    pub open spec fn wf(&self) -> bool {
        forall|i: int, j: int|
            0 <= i < j < self.shared_objects@.len() ==> self.shared_objects@[i].0@
                != self.shared_objects@[j].0@
    }

    /// The empty policy: every verdict is `Unknown`.
    pub fn new() -> (r: Config)
        ensures
            r@ == Map::<Seq<char>, EntryView>::empty(),
            r.wf(),
    {
        Config { shared_objects: Vec::new() }
    }

    /// The place of the first entry for `loc`, if there is one.
    fn position(&self, loc: &str) -> (r: Option<usize>)
        ensures
            match r {
                Some(i) => i < self.shared_objects@.len() && self.shared_objects@[i as int].0@
                    == loc@ && forall|j: int| 0 <= j < i ==> self.shared_objects@[j].0@ != loc@,
                None => forall|j: int|
                    0 <= j < self.shared_objects@.len() ==> self.shared_objects@[j].0@ != loc@,
            },
    {
        let key = loc.to_owned();
        let mut i: usize = 0;
        while i < self.shared_objects.len()
            invariant
                i <= self.shared_objects@.len(),
                key@ == loc@,
                forall|j: int| 0 <= j < i ==> self.shared_objects@[j].0@ != loc@,
            decreases self.shared_objects@.len() - i,
        {
            if self.shared_objects[i].0 == key {
                return Some(i);
            }
            i += 1;
        }
        None
    }

    /// Sets the entry for `path`, in place of the one it had, if any.
    pub fn insert(&mut self, path: String, entry: ConfigEntry)
        ensures
            final(self)@ == old(self)@.insert(path@, entry@),
            old(self).wf() ==> final(self).wf(),
    {
        let found = self.position(path.as_str());
        let ghost before = self.shared_objects@;
        let ghost e = (path, entry);
        match found {
            Some(i) => {
                proof {
                    lemma_policy_update(before, i as int, e);
                }
                self.shared_objects[i] = (path, entry);
            },
            None => {
                proof {
                    lemma_policy_push(before, e);
                }
                self.shared_objects.push((path, entry));
            },
        }
    }

    /// The verdict on `syscall` made from the object at `loc`: `Allowed` if
    /// and only if the policy has an entry for `loc` whose allow set holds
    /// `syscall`; else `Blocked` if and only if it has an entry for `loc`
    /// whose block set holds `syscall`; else `Unknown`. So a system call
    /// that stands in both sets of an entry is allowed.
    pub fn check(&self, loc: &str, syscall: u32) -> (r: Check)
        ensures
            r == verdict(self@, loc@, syscall),
            r == Check::Allowed <==> self@.contains_key(loc@) && allows(self@[loc@], syscall),
            r == Check::Blocked <==> self@.contains_key(loc@) && !allows(self@[loc@], syscall)
                && blocks(self@[loc@], syscall),
            r == Check::Unknown <==> !(self@.contains_key(loc@) && (allows(self@[loc@], syscall)
                || blocks(self@[loc@], syscall))),
            self@.contains_key(loc@) && allows(self@[loc@], syscall) && blocks(
                self@[loc@],
                syscall,
            ) ==> r == Check::Allowed,
    {
        match self.position(loc) {
            Some(i) => {
                proof {
                    lemma_policy_first_match(self.shared_objects@, loc@, i as int);
                }
                self.shared_objects[i].1.check(syscall)
            },
            None => {
                proof {
                    lemma_policy_absent(self.shared_objects@, loc@);
                }
                Check::Unknown
            },
        }
    }
}

} // verus!
