//! The namespace flags of an unshare call, as a set over a fixed list of
//! named bits.

use vstd::prelude::*;
use vstd::string::StringExecFns;

verus! {

/// Bit of a new mount namespace.
pub const CLONE_NEWNS: u64 = 0x0002_0000;

/// Bit of a new cgroup namespace.
pub const CLONE_NEWCGROUP: u64 = 0x0200_0000;

/// Bit of a new UTS namespace.
pub const CLONE_NEWUTS: u64 = 0x0400_0000;

/// Bit of a new IPC namespace.
pub const CLONE_NEWIPC: u64 = 0x0800_0000;

/// Bit of a new user namespace.
pub const CLONE_NEWUSER: u64 = 0x1000_0000;

/// Bit of a new PID namespace.
pub const CLONE_NEWPID: u64 = 0x2000_0000;

/// Bit of a new network namespace.
pub const CLONE_NEWNET: u64 = 0x4000_0000;

/// Bit of a new time namespace.
pub const CLONE_NEWTIME: u64 = 0x0000_0080;

/// All named bits together.
pub const KNOWN_BITS: u64 = 0x7e02_0080;

/// Number of named bits.
pub const NAMESPACE_COUNT: usize = 8;

/// A kind of namespace that an unshare call can ask for. The order of the
/// variants is the order in which a set of flags is written out.
#[derive(Clone, Copy, Debug, PartialEq, Eq)]
pub enum Namespace {
    Mount,
    Cgroup,
    Uts,
    Ipc,
    User,
    Pid,
    Net,
    Time,
}

impl Namespace {
    /// All kinds, in the order in which they are written out.
    pub open spec fn declared() -> Seq<Namespace> {
        seq![
            Namespace::Mount,
            Namespace::Cgroup,
            Namespace::Uts,
            Namespace::Ipc,
            Namespace::User,
            Namespace::Pid,
            Namespace::Net,
            Namespace::Time,
        ]
    }

    /// The bit that stands for this kind.
    pub open spec fn bit(self) -> u64 {
        match self {
            Namespace::Mount => CLONE_NEWNS,
            Namespace::Cgroup => CLONE_NEWCGROUP,
            Namespace::Uts => CLONE_NEWUTS,
            Namespace::Ipc => CLONE_NEWIPC,
            Namespace::User => CLONE_NEWUSER,
            Namespace::Pid => CLONE_NEWPID,
            Namespace::Net => CLONE_NEWNET,
            Namespace::Time => CLONE_NEWTIME,
        }
    }

    /// The name under which this kind is written out.
    pub open spec fn name(self) -> Seq<char> {
        match self {
            Namespace::Mount => "CLONE_NEWNS"@,
            Namespace::Cgroup => "CLONE_NEWCGROUP"@,
            Namespace::Uts => "CLONE_NEWUTS"@,
            Namespace::Ipc => "CLONE_NEWIPC"@,
            Namespace::User => "CLONE_NEWUSER"@,
            Namespace::Pid => "CLONE_NEWPID"@,
            Namespace::Net => "CLONE_NEWNET"@,
            Namespace::Time => "CLONE_NEWTIME"@,
        }
    }

    /// The kind at position `index` of the declared order.
    pub fn at(index: usize) -> (kind: Namespace)
        requires
            index < NAMESPACE_COUNT,
        ensures
            kind == Namespace::declared()[index as int],
    {
        if index == 0 {
            Namespace::Mount
        } else if index == 1 {
            Namespace::Cgroup
        } else if index == 2 {
            Namespace::Uts
        } else if index == 3 {
            Namespace::Ipc
        } else if index == 4 {
            Namespace::User
        } else if index == 5 {
            Namespace::Pid
        } else if index == 6 {
            Namespace::Net
        } else {
            Namespace::Time
        }
    }

    /// The bit that stands for this kind.
    pub fn mask(&self) -> (bit: u64)
        ensures
            bit == self.bit(),
    {
        match self {
            Namespace::Mount => CLONE_NEWNS,
            Namespace::Cgroup => CLONE_NEWCGROUP,
            Namespace::Uts => CLONE_NEWUTS,
            Namespace::Ipc => CLONE_NEWIPC,
            Namespace::User => CLONE_NEWUSER,
            Namespace::Pid => CLONE_NEWPID,
            Namespace::Net => CLONE_NEWNET,
            Namespace::Time => CLONE_NEWTIME,
        }
    }

    /// The name under which this kind is written out.
    pub fn label(&self) -> (name: &'static str)
        ensures
            name@ == self.name(),
    {
        match self {
            Namespace::Mount => "CLONE_NEWNS",
            Namespace::Cgroup => "CLONE_NEWCGROUP",
            Namespace::Uts => "CLONE_NEWUTS",
            Namespace::Ipc => "CLONE_NEWIPC",
            Namespace::User => "CLONE_NEWUSER",
            Namespace::Pid => "CLONE_NEWPID",
            Namespace::Net => "CLONE_NEWNET",
            Namespace::Time => "CLONE_NEWTIME",
        }
    }
}

/// The names of the kinds among the first `count` declared ones whose bit is
/// set in `bits`, in declared order.
pub open spec fn names_among(bits: u64, count: int) -> Seq<Seq<char>>
    decreases count,
{
    if count <= 0 {
        Seq::empty()
    } else {
        let kind = Namespace::declared()[count - 1];
        if bits & kind.bit() != 0 {
            names_among(bits, count - 1).push(kind.name())
        } else {
            names_among(bits, count - 1)
        }
    }
}

/// `parts` written one after another with `separator` between neighbours.
pub open spec fn joined(parts: Seq<Seq<char>>, separator: Seq<char>) -> Seq<char>
    decreases parts.len(),
{
    if parts.len() == 0 {
        Seq::empty()
    } else if parts.len() == 1 {
        parts[0]
    } else {
        joined(parts.drop_last(), separator) + separator + parts.last()
    }
}

/// How a set of flags with the bits `bits` is written out: the names of its
/// kinds in declared order with ` | ` between them, or `(empty)`.
pub open spec fn flags_text(bits: u64) -> Seq<char> {
    let names = names_among(bits, NAMESPACE_COUNT as int);
    if names.len() == 0 {
        "(empty)"@
    } else {
        joined(names, " | "@)
    }
}

/// Dropping the unnamed bits changes no named bit, and a second dropping
/// changes nothing.
pub proof fn lemma_truncation(raw: u64)
    by (bit_vector)
    ensures
        (raw & KNOWN_BITS) & KNOWN_BITS == raw & KNOWN_BITS,
        (raw & KNOWN_BITS) & CLONE_NEWNS == raw & CLONE_NEWNS,
        (raw & KNOWN_BITS) & CLONE_NEWCGROUP == raw & CLONE_NEWCGROUP,
        (raw & KNOWN_BITS) & CLONE_NEWUTS == raw & CLONE_NEWUTS,
        (raw & KNOWN_BITS) & CLONE_NEWIPC == raw & CLONE_NEWIPC,
        (raw & KNOWN_BITS) & CLONE_NEWUSER == raw & CLONE_NEWUSER,
        (raw & KNOWN_BITS) & CLONE_NEWPID == raw & CLONE_NEWPID,
        (raw & KNOWN_BITS) & CLONE_NEWNET == raw & CLONE_NEWNET,
        (raw & KNOWN_BITS) & CLONE_NEWTIME == raw & CLONE_NEWTIME,
{
}

/// A set of namespace kinds, held as the bits that stand for them. No bit
/// without a name is ever set.
#[derive(Clone, Copy, Debug, PartialEq, Eq)]
pub struct CloneFlags {
    bits: u64,
}

impl View for CloneFlags {
    type V = Set<Namespace>;

    open spec fn view(&self) -> Set<Namespace> {
        Set::new(|kind: Namespace| self.has(kind))
    }
}

impl CloneFlags {
    /// The bits of the set.
    pub closed spec fn spec_bits(&self) -> u64 {
        self.bits
    }

    #[verifier::type_invariant]
    spec fn only_named_bits(self) -> bool {
        self.bits & KNOWN_BITS == self.bits
    }

    /// Whether `kind` is in the set.
    pub open spec fn has(&self, kind: Namespace) -> bool {
        self.spec_bits() & kind.bit() != 0
    }

    /// The set of the kinds whose bit is set in `raw`; bits without a name
    /// are dropped.
    pub fn from_bits_truncate(raw: u64) -> (flags: CloneFlags)
        ensures
            flags.spec_bits() == raw & KNOWN_BITS,
            forall|kind: Namespace| flags.has(kind) == (raw & kind.bit() != 0),
            forall|kind: Namespace| flags@.contains(kind) == (raw & kind.bit() != 0),
    {
        proof {
            lemma_truncation(raw);
        }
        CloneFlags { bits: raw & KNOWN_BITS }
    }

    /// The bits of the set.
    #[verifier::when_used_as_spec(spec_bits)]
    pub fn bits(&self) -> (bits: u64)
        ensures
            bits == self.spec_bits(),
            bits & KNOWN_BITS == bits,
    {
        proof {
            use_type_invariant(self);
        }
        self.bits
    }

    /// Whether `kind` is in the set.
    pub fn contains(&self, kind: Namespace) -> (found: bool)
        ensures
            found == self.has(kind),
    {
        self.bits & kind.mask() != 0
    }

    /// Whether the set has no kind at all.
    pub fn is_empty(&self) -> (empty: bool)
        ensures
            empty == (self.spec_bits() == 0),
            empty == (forall|kind: Namespace| !self.has(kind)),
    {
        proof {
            use_type_invariant(self);
            lemma_empty_set(self.bits);
            if self.bits != 0 {
                let bits = self.bits;
                let kind = if bits & CLONE_NEWNS != 0 {
                    Namespace::Mount
                } else if bits & CLONE_NEWCGROUP != 0 {
                    Namespace::Cgroup
                } else if bits & CLONE_NEWUTS != 0 {
                    Namespace::Uts
                } else if bits & CLONE_NEWIPC != 0 {
                    Namespace::Ipc
                } else if bits & CLONE_NEWUSER != 0 {
                    Namespace::User
                } else if bits & CLONE_NEWPID != 0 {
                    Namespace::Pid
                } else if bits & CLONE_NEWNET != 0 {
                    Namespace::Net
                } else {
                    Namespace::Time
                };
                assert(self.has(kind));
            }
        }
        self.bits == 0
    }

    /// The kinds of the set, in declared order.
    pub fn kinds(&self) -> (kinds: Vec<Namespace>)
        ensures
            kinds@ == Namespace::declared().filter(|kind: Namespace| self.has(kind)),
    {
        let mut kinds: Vec<Namespace> = Vec::new();
        let mut i: usize = 0;
        let ghost wanted = |kind: Namespace| self.has(kind);
        while i < NAMESPACE_COUNT
            invariant
                i <= NAMESPACE_COUNT,
                wanted == |kind: Namespace| self.has(kind),
                kinds@ == Namespace::declared().subrange(0, i as int).filter(wanted),
            decreases NAMESPACE_COUNT - i,
        {
            let kind = Namespace::at(i);
            let ghost before = Namespace::declared().subrange(0, i as int);
            proof {
                let after = Namespace::declared().subrange(0, i as int + 1);
                assert(after.drop_last() =~= before);
                assert(after.last() == kind);
                reveal(Seq::filter);
            }
            if self.contains(kind) {
                kinds.push(kind);
            }
            i += 1;
        }
        assert(Namespace::declared().subrange(0, NAMESPACE_COUNT as int)
            =~= Namespace::declared());
        kinds
    }

    /// Writes the set out: the names of its kinds in declared order with
    /// ` | ` between them, or `(empty)` for the empty set.
    pub fn describe(&self) -> (text: String)
        ensures
            text@ == flags_text(self.spec_bits()),
    {
        let mut out = String::new();
        let mut written: usize = 0;
        let mut i: usize = 0;
        while i < NAMESPACE_COUNT
            invariant
                i <= NAMESPACE_COUNT,
                written <= i,
                written == names_among(self.bits, i as int).len(),
                out@ == joined(names_among(self.bits, i as int), " | "@),
            decreases NAMESPACE_COUNT - i,
        {
            let kind = Namespace::at(i);
            let ghost before = names_among(self.bits, i as int);
            if self.contains(kind) {
                if written > 0 {
                    out.append(" | ");
                }
                out.append(kind.label());
                written += 1;
                proof {
                    let after = names_among(self.bits, i as int + 1);
                    assert(after == before.push(kind.name()));
                    assert(after.drop_last() =~= before);
                    assert(out@ =~= joined(after, " | "@));
                }
            }
            i += 1;
        }
        if written == 0 {
            out.append("(empty)");
            assert(out@ =~= "(empty)"@);
        }
        out
    }
}

/// A set of named bits is empty exactly when no named bit is set.
pub proof fn lemma_empty_set(bits: u64)
    by (bit_vector)
    requires
        bits & KNOWN_BITS == bits,
    ensures
        bits == 0 <==> (bits & CLONE_NEWNS == 0 && bits & CLONE_NEWCGROUP == 0 && bits
            & CLONE_NEWUTS == 0 && bits & CLONE_NEWIPC == 0 && bits & CLONE_NEWUSER == 0 && bits
            & CLONE_NEWPID == 0 && bits & CLONE_NEWNET == 0 && bits & CLONE_NEWTIME == 0),
{
}

} // verus!
