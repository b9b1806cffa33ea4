//! Acyclic support-graph validation.
//!
//! A support graph relates declarations, subjects, calls and receipts to
//! what they rest on. Nodes and the supports of each node are kept in name
//! order; validation walks the nodes in that order, depth first, and either
//! proves the graph acyclic or reports a cycle it found.

use vstd::prelude::*;

use crate::text::{append_str, debug_list, debug_literal, debug_strings, str_debug, text, lemma_seq_lt_asym, lemma_seq_lt_irreflexive, lemma_seq_lt_total, lemma_seq_lt_trans, seq_lt, str_eq, str_lt};

verus! {

/// A typed refusal from the neutral conformance layer.
#[derive(Clone, Debug, PartialEq, Eq)]
pub enum ConformanceError {
    /// A semantic record used the wrong canonical tag.
    WrongIdentityDomain,
    /// A name was not a valid plain or one-level qualified symbol.
    InvalidSymbol,
    /// Two fields had the same key.
    DuplicateField(String),
    /// Kernel canonicalization refused the value.
    NoncanonicalDatum,
    /// Retrieved bytes did not match their byte address.
    StorageDigestMismatch,
    /// A support path contains a direct or indirect cycle.
    SupportCycle(Vec<String>),
    /// A binding or packet contains an unresolved design decision.
    UnresolvedBinding,
    /// A declared surface or dependency is absent.
    MissingSurface(String),
    /// A target is owned by another binding.
    WrongOwner,
    /// A target is scheduled for another producing phase.
    WrongProducingPhase,
    /// A dependency has no current qualification at the required scope.
    UnqualifiedDependency(String),
    /// An activation-only receipt was offered as produced evidence.
    ActivationIsNotProductionEvidence,
    /// A check scope was not authorized by its static binding.
    UnauthorizedScope,
    /// A template slot was missing or duplicated.
    InvalidTemplate(&'static str),
    /// Invocation and receipt identities or fields disagree.
    InvocationMismatch(&'static str),
    /// The result does not represent a passing check.
    CheckFailed,
    /// Revocation authority is absent or explicitly revokes this result.
    RevocationUnknownOrActive,
    /// A bounded collection or text value exceeded its ceiling.
    BoundExceeded(&'static str),
    /// A digest-construction key or source anchor was duplicated.
    DuplicateConstruction(String),
    /// A construction has no funded disposition.
    UnfundedConstruction(String),
}

/// How a refusal is written: its variant name, with its payload as `{:?}`
/// writes it.
pub open spec fn conformance_message(e: ConformanceError) -> Seq<char> {
    match e {
        ConformanceError::WrongIdentityDomain => "WrongIdentityDomain"@,
        ConformanceError::InvalidSymbol => "InvalidSymbol"@,
        ConformanceError::NoncanonicalDatum => "NoncanonicalDatum"@,
        ConformanceError::StorageDigestMismatch => "StorageDigestMismatch"@,
        ConformanceError::UnresolvedBinding => "UnresolvedBinding"@,
        ConformanceError::WrongOwner => "WrongOwner"@,
        ConformanceError::WrongProducingPhase => "WrongProducingPhase"@,
        ConformanceError::ActivationIsNotProductionEvidence => "ActivationIsNotProductionEvidence"@,
        ConformanceError::UnauthorizedScope => "UnauthorizedScope"@,
        ConformanceError::CheckFailed => "CheckFailed"@,
        ConformanceError::RevocationUnknownOrActive => "RevocationUnknownOrActive"@,
        ConformanceError::DuplicateField(x) => "DuplicateField("@ + str_debug(x@) + ")"@,
        ConformanceError::MissingSurface(x) => "MissingSurface("@ + str_debug(x@) + ")"@,
        ConformanceError::UnqualifiedDependency(x) => "UnqualifiedDependency("@ + str_debug(x@) + ")"@,
        ConformanceError::InvalidTemplate(x) => "InvalidTemplate("@ + str_debug(x@) + ")"@,
        ConformanceError::InvocationMismatch(x) => "InvocationMismatch("@ + str_debug(x@) + ")"@,
        ConformanceError::BoundExceeded(x) => "BoundExceeded("@ + str_debug(x@) + ")"@,
        ConformanceError::DuplicateConstruction(x) => "DuplicateConstruction("@ + str_debug(x@) + ")"@,
        ConformanceError::UnfundedConstruction(x) => "UnfundedConstruction("@ + str_debug(x@) + ")"@,
        ConformanceError::SupportCycle(c) => "SupportCycle("@ + debug_list(c@.map_values(|x: String| x@)) + ")"@,
    }
}

/// `head`, then `body`, then `)`.
fn wrapped(head: &str, body: String) -> (r: String)
    ensures
        r@ == head@ + body@ + ")"@,
{
    let mut r = text(head);
    append_str(&mut r, body.as_str());
    append_str(&mut r, ")");
    r
}

impl ConformanceError {
    /// The text of this refusal, as its debug form writes it.
    pub fn message(&self) -> (r: String)
        ensures
            r@ == conformance_message(*self),
    {
        match self {
            ConformanceError::WrongIdentityDomain => text("WrongIdentityDomain"),
            ConformanceError::InvalidSymbol => text("InvalidSymbol"),
            ConformanceError::NoncanonicalDatum => text("NoncanonicalDatum"),
            ConformanceError::StorageDigestMismatch => text("StorageDigestMismatch"),
            ConformanceError::UnresolvedBinding => text("UnresolvedBinding"),
            ConformanceError::WrongOwner => text("WrongOwner"),
            ConformanceError::WrongProducingPhase => text("WrongProducingPhase"),
            ConformanceError::ActivationIsNotProductionEvidence => text("ActivationIsNotProductionEvidence"),
            ConformanceError::UnauthorizedScope => text("UnauthorizedScope"),
            ConformanceError::CheckFailed => text("CheckFailed"),
            ConformanceError::RevocationUnknownOrActive => text("RevocationUnknownOrActive"),
            ConformanceError::DuplicateField(x) => wrapped("DuplicateField(", debug_literal(x)),
            ConformanceError::MissingSurface(x) => wrapped("MissingSurface(", debug_literal(x)),
            ConformanceError::UnqualifiedDependency(x) => wrapped("UnqualifiedDependency(", debug_literal(x)),
            ConformanceError::InvalidTemplate(x) => wrapped("InvalidTemplate(", debug_literal(x)),
            ConformanceError::InvocationMismatch(x) => wrapped("InvocationMismatch(", debug_literal(x)),
            ConformanceError::BoundExceeded(x) => wrapped("BoundExceeded(", debug_literal(x)),
            ConformanceError::DuplicateConstruction(x) => wrapped("DuplicateConstruction(", debug_literal(x)),
            ConformanceError::UnfundedConstruction(x) => wrapped("UnfundedConstruction(", debug_literal(x)),
            ConformanceError::SupportCycle(c) => wrapped("SupportCycle(", debug_strings(c)),
        }
    }
}

/// Stable graph node name.
#[derive(Clone, Debug, PartialEq, Eq, PartialOrd, Ord, Hash)]
pub struct SupportNode(pub String);

/// Directed support relationships among declarations, subjects, calls and
/// receipts.
#[derive(Debug, PartialEq, Eq)]
pub struct SupportGraph {
    nodes: Vec<String>,
    supports: Vec<Vec<String>>,
}

/// Names in strictly increasing order.
pub open spec fn names_sorted(s: Seq<Seq<char>>) -> bool {
    forall|a: int, b: int| 0 <= a < b < s.len() ==> seq_lt(#[trigger] s[a], #[trigger] s[b])
}

/// Values of a list of texts.
pub open spec fn texts(v: Seq<String>) -> Seq<Seq<char>> {
    v.map_values(|s: String| s@)
}

/// `c` walks the graph: each name supports... is supported by the next.
pub open spec fn is_walk(g: SupportGraph, c: Seq<Seq<char>>) -> bool {
    forall|k: int| 0 <= k < c.len() - 1 ==> g.edge(#[trigger] c[k], c[k + 1])
}

/// `c` is a cycle of the graph: a walk of at least one edge that ends where
/// it starts.
pub open spec fn is_cycle(g: SupportGraph, c: Seq<Seq<char>>) -> bool {
    &&& c.len() >= 2
    &&& c[0] == c[c.len() - 1]
    &&& is_walk(g, c)
}

/// The graph has no cycle.
pub open spec fn acyclic(g: SupportGraph) -> bool {
    forall|c: Seq<Seq<char>>| !is_cycle(g, c)
}

impl SupportGraph {
    /// The node names, in order.
    pub closed spec fn names(self) -> Seq<Seq<char>> {
        texts(self.nodes@)
    }

    /// The supports of the node at a position, in order.
    pub closed spec fn supports_at(self, i: int) -> Seq<Seq<char>> {
        texts(self.supports@[i]@)
    }

    /// `a` is a node.
    pub open spec fn has_node(self, a: Seq<char>) -> bool {
        self.names().contains(a)
    }

    /// `a` is supported by `b`.
    pub open spec fn edge(self, a: Seq<char>, b: Seq<char>) -> bool {
        exists|i: int| 0 <= i < self.names().len() && self.names()[i] == a && #[trigger] self.supports_at(i).contains(b)
    }

    /// Node names are sorted and distinct, each node has one support list,
    /// each list is sorted and distinct, every support is a node, and no
    /// node supports itself.
    pub open spec fn wf(self) -> bool {
        &&& names_sorted(self.names())
        &&& self.count() == self.names().len()
        &&& forall|i: int| 0 <= i < self.names().len() ==> names_sorted(#[trigger] self.supports_at(i))
        &&& forall|i: int, b: Seq<char>|
            0 <= i < self.names().len() && #[trigger] self.supports_at(i).contains(b) ==> self.has_node(b)
        &&& forall|i: int| 0 <= i < self.names().len() ==> !(#[trigger] self.supports_at(i)).contains(self.names()[i])
    }

    /// Number of support lists.
    pub closed spec fn count(self) -> int {
        self.supports@.len() as int
    }

    /// An empty graph.
    pub fn new() -> (g: SupportGraph)
        ensures
            g.wf(),
            g.names().len() == 0,
    {
        SupportGraph { nodes: Vec::new(), supports: Vec::new() }
    }


}

impl Default for SupportGraph {
    /// An empty graph.
    fn default() -> (g: SupportGraph)
        ensures
            g.wf(),
            g.names().len() == 0,
    {
        SupportGraph::new()
    }
}

impl SupportGraph {
    /// Adds a node, keeping its supports if it is already present.
    fn ensure_node(&mut self, name: &str)
        requires
            old(self).wf(),
        ensures
            final(self).wf(),
            forall|a: Seq<char>| #[trigger] final(self).has_node(a) <==> (old(self).has_node(a) || a == name@),
            forall|a: Seq<char>, b: Seq<char>| #[trigger] final(self).edge(a, b) <==> old(self).edge(a, b),
    {
        let (p, found) = self.position(name);
        if found {
            return;
        }
        let ghost s = self.names();
        let ghost old_g = *self;
        self.nodes.insert(p, name.to_owned());
        self.supports.insert(p, Vec::new());
        proof {
            assert(self.names() =~= s.insert(p as int, name@));
            assert forall|i: int| 0 <= i < self.names().len() implies #[trigger] self.supports_at(i)
                == (if i < p {
                old_g.supports_at(i)
            } else if i == p {
                Seq::<Seq<char>>::empty()
            } else {
                old_g.supports_at(i - 1)
            }) by {
                if i == p {
                    assert(self.supports_at(i) =~= Seq::<Seq<char>>::empty());
                }
            }
            lemma_insert_sorted_name(s, p as int, name@);
            assert forall|a: Seq<char>| #[trigger] self.has_node(a) <==> (old_g.has_node(a) || a == name@) by {
                if self.has_node(a) {
                    let q = choose|q: int| 0 <= q < self.names().len() && self.names()[q] == a;
                    if q < p {
                        assert(s[q] == a);
                    } else if q > p {
                        assert(s[q - 1] == a);
                    }
                }
                if old_g.has_node(a) {
                    let q = choose|q: int| 0 <= q < s.len() && s[q] == a;
                    if q < p {
                        assert(self.names()[q] == a);
                    } else {
                        assert(self.names()[q + 1] == a);
                    }
                }
                if a == name@ {
                    assert(self.names()[p as int] == a);
                }
            }
            assert forall|a: Seq<char>, b: Seq<char>| #[trigger] self.edge(a, b) <==> old_g.edge(a, b) by {
                if self.edge(a, b) {
                    let i = choose|i: int| 0 <= i < self.names().len() && self.names()[i] == a && #[trigger] self.supports_at(i).contains(b);
                    if i < p {
                        assert(old_g.supports_at(i).contains(b));
                    } else if i > p {
                        assert(old_g.supports_at(i - 1).contains(b));
                        assert(s[i - 1] == a);
                    }
                }
                if old_g.edge(a, b) {
                    let i = choose|i: int| 0 <= i < s.len() && s[i] == a && #[trigger] old_g.supports_at(i).contains(b);
                    if i < p {
                        assert(self.supports_at(i).contains(b));
                    } else {
                        assert(self.supports_at(i + 1).contains(b));
                        assert(self.names()[i + 1] == a);
                    }
                }
            }
            assert forall|i: int| 0 <= i < self.names().len() implies names_sorted(#[trigger] self.supports_at(i)) by {
                if i < p {
                    assert(names_sorted(old_g.supports_at(i)));
                } else if i > p {
                    assert(names_sorted(old_g.supports_at(i - 1)));
                }
            }
            assert forall|i: int, b: Seq<char>|
                0 <= i < self.names().len() && #[trigger] self.supports_at(i).contains(b) implies self.has_node(b) by {
                if i < p {
                    assert(old_g.supports_at(i).contains(b));
                    assert(old_g.has_node(b));
                } else if i > p {
                    assert(old_g.supports_at(i - 1).contains(b));
                    assert(old_g.has_node(b));
                }
            }
            assert forall|i: int| 0 <= i < self.names().len() implies !(#[trigger] self.supports_at(i)).contains(self.names()[i]) by {
                if i < p {
                    assert(self.names()[i] == s[i]);
                    assert(!old_g.supports_at(i).contains(old_g.names()[i]));
                } else if i > p {
                    assert(self.names()[i] == s[i - 1]);
                    assert(!old_g.supports_at(i - 1).contains(old_g.names()[i - 1]));
                }
            }
        }
    }

    /// Adds a node; a node already present keeps its supports.
    pub fn add_node(&mut self, node: SupportNode)
        requires
            old(self).wf(),
        ensures
            final(self).wf(),
            forall|a: Seq<char>| #[trigger] final(self).has_node(a) <==> (old(self).has_node(a) || a == node.0@),
            forall|a: Seq<char>, b: Seq<char>| #[trigger] final(self).edge(a, b) <==> old(self).edge(a, b),
    {
        self.ensure_node(node.0.as_str());
    }

    /// Adds `subject -> support`; direct self-support is refused at once.
    pub fn add_support(&mut self, subject: SupportNode, support: SupportNode) -> (r: Result<
        (),
        ConformanceError,
    >)
        requires
            old(self).wf(),
        ensures
            final(self).wf(),
            r is Err <==> subject.0@ == support.0@,
            r is Err ==> (r matches Err(ConformanceError::SupportCycle(c)) && c@.len() == 1 && c@[0]@
                == subject.0@),
            r is Err ==> *final(self) == *old(self),
            r is Ok ==> forall|a: Seq<char>| #[trigger] final(self).has_node(a) <==> (old(self).has_node(a)
                || a == subject.0@ || a == support.0@),
            r is Ok ==> forall|a: Seq<char>, b: Seq<char>| #[trigger] final(self).edge(a, b) <==> (old(
                self,
            ).edge(a, b) || (a == subject.0@ && b == support.0@)),
    {
        if str_eq(subject.0.as_str(), support.0.as_str()) {
            let mut c: Vec<String> = Vec::new();
            c.push(subject.0);
            return Err(ConformanceError::SupportCycle(c));
        }
        let ghost g0 = *self;
        self.ensure_node(support.0.as_str());
        let ghost gm = *self;
        self.ensure_node(subject.0.as_str());
        let ghost g1 = *self;
        assert forall|a: Seq<char>| #[trigger] g1.has_node(a) <==> (g0.has_node(a) || a == subject.0@
            || a == support.0@) by {
            assert(g1.has_node(a) <==> (gm.has_node(a) || a == subject.0@));
            assert(gm.has_node(a) <==> (g0.has_node(a) || a == support.0@));
        }
        assert forall|a: Seq<char>, b: Seq<char>| #[trigger] g1.edge(a, b) <==> g0.edge(a, b) by {
            assert(g1.edge(a, b) <==> gm.edge(a, b));
            assert(gm.edge(a, b) <==> g0.edge(a, b));
        }
        let (i, found) = self.position(subject.0.as_str());
        assert(found) by {
            assert(g1.has_node(subject.0@));
        }
        let ghost sup0 = self.supports@;
        let mut list = self.supports.remove(i);
        let ghost before = texts(list@);
        assert(list == sup0[i as int]);
        assert(before == g1.supports_at(i as int));
        let mut p: usize = 0;
        while p < list.len() && str_lt(list[p].as_str(), support.0.as_str())
            invariant
                p <= list@.len(),
                before == texts(list@),
                forall|q: int| 0 <= q < p ==> seq_lt(#[trigger] before[q], support.0@),
            decreases list@.len() - p,
        {
            assert(before[p as int] == list@[p as int]@);
            p += 1;
        }
        let present = p < list.len() && str_eq(list[p].as_str(), support.0.as_str());
        if !present {
            proof {
                if p < before.len() {
                    assert(before[p as int] == list@[p as int]@);
                    lemma_seq_lt_total(before[p as int], support.0@);
                }
                assert(names_sorted(g1.supports_at(i as int)));
                lemma_insert_sorted_name(before, p as int, support.0@);
            }
            list.insert(p, support.0);
            assert(texts(list@) =~= before.insert(p as int, support.0@));
        } else {
            assert(before[p as int] == list@[p as int]@);
        }
        let ghost after = texts(list@);
        self.supports.insert(i, list);
        proof {
            assert(self.names() == g1.names());
            assert forall|a: Seq<char>| #[trigger] self.has_node(a) <==> g1.has_node(a) by {}
            assert forall|j: int| 0 <= j < self.names().len() && j != i implies #[trigger] self.supports_at(j) == g1.supports_at(j) by {}
            assert(self.supports_at(i as int) == after);
            assert(forall|b: Seq<char>| #[trigger] after.contains(b) <==> (before.contains(b) || b == support.0@)) by {
                assert forall|b: Seq<char>| #[trigger] after.contains(b) <==> (before.contains(b) || b == support.0@) by {
                    if present {
                        assert(after == before);
                        if b == support.0@ {
                            assert(before[p as int] == b);
                        }
                    } else {
                        if after.contains(b) {
                            let q = choose|q: int| 0 <= q < after.len() && after[q] == b;
                            if q < p {
                                assert(before[q] == b);
                            } else if q > p {
                                assert(before[q - 1] == b);
                            }
                        }
                        if before.contains(b) {
                            let q = choose|q: int| 0 <= q < before.len() && before[q] == b;
                            if q < p {
                                assert(after[q] == b);
                            } else {
                                assert(after[q + 1] == b);
                            }
                        }
                        if b == support.0@ {
                            assert(after[p as int] == b);
                        }
                    }
                }
            }
            assert(names_sorted(after)) by {
                if present {
                    assert(after == before);
                }
            }
            assert(g1.has_node(support.0@));
            assert forall|j: int| 0 <= j < self.names().len() implies names_sorted(#[trigger] self.supports_at(j)) by {
                if j != i {
                    assert(names_sorted(g1.supports_at(j)));
                }
            }
            assert forall|j: int, b: Seq<char>|
                0 <= j < self.names().len() && #[trigger] self.supports_at(j).contains(b) implies self.has_node(b) by {
                if j != i {
                    assert(g1.supports_at(j).contains(b));
                } else if before.contains(b) {
                    assert(g1.supports_at(j).contains(b));
                }
            }
            assert forall|j: int| 0 <= j < self.names().len() implies !(#[trigger] self.supports_at(j)).contains(self.names()[j]) by {
                if j != i {
                    assert(!g1.supports_at(j).contains(g1.names()[j]));
                } else {
                    assert(self.names()[j] == subject.0@);
                    assert(!g1.supports_at(j).contains(g1.names()[j]));
                }
            }
            assert forall|a: Seq<char>, b: Seq<char>| #[trigger] self.edge(a, b) <==> (g0.edge(a, b) || (
            a == subject.0@ && b == support.0@)) by {
                if self.edge(a, b) {
                    let j = choose|j: int| 0 <= j < self.names().len() && self.names()[j] == a && #[trigger] self.supports_at(j).contains(b);
                    if j != i {
                        assert(g1.edge(a, b));
                    } else if before.contains(b) {
                        assert(g1.supports_at(j).contains(b));
                        assert(g1.edge(a, b));
                    }
                }
                if g0.edge(a, b) {
                    assert(g1.edge(a, b));
                    let j = choose|j: int| 0 <= j < g1.names().len() && g1.names()[j] == a && #[trigger] g1.supports_at(j).contains(b);
                    if j == i {
                        assert(after.contains(b));
                    }
                    assert(self.supports_at(j).contains(b));
                }
                if a == subject.0@ && b == support.0@ {
                    assert(self.supports_at(i as int).contains(b));
                }
            }
        }
        Ok(())
    }


    /// Verifies that no support path returns to where it started. On a
    /// cycle, reports one cycle it found, as the names along it.
    pub fn validate(&self) -> (r: Result<(), ConformanceError>)
        requires
            self.wf(),
        ensures
            r is Ok <==> acyclic(*self),
            r is Err ==> (r matches Err(ConformanceError::SupportCycle(c)) && is_cycle(*self, texts(c@))
                && c@.len() >= 3),
    {
        let n = self.nodes.len();
        let mut adj: Vec<Vec<usize>> = Vec::new();
        let mut i: usize = 0;
        while i < n
            invariant
                self.wf(),
                n == self.names().len(),
                i <= n,
                adj@.len() == i,
                forall|x: int| 0 <= x < i ==> (#[trigger] succ(adj@)[x]).len() == self.supports_at(x).len(),
                forall|x: int, k: int|
                    0 <= x < i && 0 <= k < succ(adj@)[x].len() ==> (#[trigger] succ(adj@)[x][k]) < n
                        && self.names()[succ(adj@)[x][k] as int] == self.supports_at(x)[k],
            decreases n - i,
        {
            let mut row: Vec<usize> = Vec::new();
            let mut k: usize = 0;
            assert(self.supports_at(i as int).len() == self.supports@[i as int]@.len());
            while k < self.supports[i].len()
                invariant
                    self.wf(),
                    n == self.names().len(),
                    i < n,
                    k <= self.supports@[i as int]@.len(),
                    row@.len() == k,
                    forall|q: int| 0 <= q < k ==> (#[trigger] row@[q]) < n && self.names()[row@[q] as int]
                        == self.supports_at(i as int)[q],
                decreases self.supports@[i as int]@.len() - k,
            {
                assert(self.supports_at(i as int)[k as int] == self.supports@[i as int]@[k as int]@);
                assert(self.supports_at(i as int).contains(self.supports@[i as int]@[k as int]@));
                let (j, found) = self.position(self.supports[i][k].as_str());
                row.push(j);
                k += 1;
            }
            let ghost before = adj@;
            adj.push(row);
            proof {
                assert forall|x: int| 0 <= x < i + 1 implies (#[trigger] succ(adj@)[x]).len() == self.supports_at(x).len() by {
                    if x < i {
                        assert(succ(adj@)[x] == succ(before)[x]);
                    }
                }
                assert forall|x: int, k: int|
                    0 <= x < i + 1 && 0 <= k < succ(adj@)[x].len() implies (#[trigger] succ(adj@)[x][k]) < n
                        && self.names()[succ(adj@)[x][k] as int] == self.supports_at(x)[k] by {
                    if x < i {
                        assert(succ(adj@)[x] == succ(before)[x]);
                    }
                }
            }
            i += 1;
        }
        let ghost a = succ(adj@);
        assert(adj_ok(*self, a));
        let mut color: Vec<u8> = Vec::new();
        let mut q: usize = 0;
        while q < n
            invariant
                q <= n,
                color@.len() == q,
                forall|x: int| 0 <= x < q ==> #[trigger] color@[x] == 0,
            decreases n - q,
        {
            color.push(0);
            q += 1;
        }
        let mut path: Vec<usize> = Vec::new();
        let mut fin: Ghost<Seq<int>> = Ghost(Seq::new(n as nat, |x: int| 0int));
        let mut clock: Ghost<int> = Ghost(0int);
        let mut i: usize = 0;
        while i < n
            invariant
                self.wf(),
                n == self.names().len(),
                a == succ(adj@),
                adj_ok(*self, a),
                i <= n,
                self.nodes@.len() == n,
                dfs_ok(a, color@, path@, fin@, clock@),
                path@.len() == 0,
                forall|x: int| 0 <= x < i ==> #[trigger] color@[x] == 2,
            decreases n - i,
        {
            let (res, f2, t2) = visit(&adj, &self.nodes, i, &mut color, &mut path, fin, clock);
            match res {
                Ok(()) => {},
                Err(e) => {
                    proof {
                        if let ConformanceError::SupportCycle(c) = &e {
                            let cyc = choose|cyc: Seq<usize>|
                                idx_cycle(a, cyc) && c@.len() == cyc.len() && forall|k: int|
                                    0 <= k < cyc.len() ==> (#[trigger] c@[k])@ == self.nodes@[cyc[k] as int]@;
                            lemma_idx_cycle_names(*self, a, cyc, texts(c@));
                            lemma_cycle_len(*self, texts(c@));
                            assert(!acyclic(*self));
                        }
                    }
                    return Err(e);
                },
            }
            fin = f2;
            clock = t2;
            i += 1;
        }
        proof {
            assert forall|c: Seq<Seq<char>>| !is_cycle(*self, c) by {
                if is_cycle(*self, c) {
                    let cyc = lemma_names_cycle_idx(*self, a, c);
                    lemma_no_idx_cycle(a, color@, fin@, clock@, cyc);
                }
            }
        }
        Ok(())
    }

    /// Position of a node name, if present.
    fn position(&self, name: &str) -> (r: (usize, bool))
        requires
            self.wf(),
        ensures
            r.0 <= self.names().len(),
            r.1 ==> r.0 < self.names().len() && self.names()[r.0 as int] == name@,
            !r.1 ==> !self.has_node(name@),
            !r.1 ==> forall|q: int| 0 <= q < r.0 ==> seq_lt(#[trigger] self.names()[q], name@),
            !r.1 ==> r.0 < self.names().len() ==> seq_lt(name@, self.names()[r.0 as int]),
    {
        let ghost s = self.names();
        let mut p: usize = 0;
        while p < self.nodes.len() && str_lt(self.nodes[p].as_str(), name)
            invariant
                p <= self.nodes@.len(),
                s == self.names(),
                s.len() == self.nodes@.len(),
                forall|q: int| 0 <= q < p ==> seq_lt(#[trigger] s[q], name@),
            decreases self.nodes@.len() - p,
        {
            assert(s[p as int] == self.nodes@[p as int]@);
            p += 1;
        }
        if p < self.nodes.len() && str_eq(self.nodes[p].as_str(), name) {
            assert(s[p as int] == self.nodes@[p as int]@);
            return (p, true);
        }
        proof {
            if p < s.len() {
                assert(s[p as int] == self.nodes@[p as int]@);
                lemma_seq_lt_total(s[p as int], name@);
            }
            if s.contains(name@) {
                let q = choose|q: int| 0 <= q < s.len() && s[q] == name@;
                if q < p {
                    lemma_seq_lt_irreflexive(name@);
                } else if q > p {
                    assert(seq_lt(s[p as int], s[q]));
                    lemma_seq_lt_asym(name@, s[p as int]);
                    lemma_seq_lt_trans(name@, s[p as int], s[q]);
                    lemma_seq_lt_irreflexive(name@);
                }
            }
        }
        (p, false)
    }
}


/// Support lists by position.
pub open spec fn succ(adj: Seq<Vec<usize>>) -> Seq<Seq<usize>> {
    adj.map_values(|v: Vec<usize>| v@)
}

/// The positional adjacency matches the graph's support lists.
pub open spec fn adj_ok(g: SupportGraph, a: Seq<Seq<usize>>) -> bool {
    &&& a.len() == g.names().len()
    &&& forall|i: int| 0 <= i < a.len() ==> (#[trigger] a[i]).len() == g.supports_at(i).len()
    &&& forall|i: int, k: int|
        0 <= i < a.len() && 0 <= k < a[i].len() ==> (#[trigger] a[i][k]) < a.len() && g.names()[a[i][k] as int]
            == g.supports_at(i)[k]
}

/// `c` is a cycle by positions.
pub open spec fn idx_cycle(a: Seq<Seq<usize>>, c: Seq<usize>) -> bool {
    &&& c.len() >= 2
    &&& c[0] == c[c.len() - 1]
    &&& forall|k: int| 0 <= k < c.len() - 1 ==> (#[trigger] c[k]) < a.len() && a[c[k] as int].contains(c[k + 1])
}

/// Number of unvisited positions.
pub open spec fn whites(color: Seq<u8>) -> nat
    decreases color.len(),
{
    if color.len() == 0 {
        0
    } else {
        whites(color.drop_last()) + (if color.last() == 0 {
            1nat
        } else {
            0nat
        })
    }
}

proof fn lemma_whites_update(color: Seq<u8>, i: int, x: u8)
    requires
        0 <= i < color.len(),
    ensures
        whites(color.update(i, x)) + (if color[i] == 0 {
            1int
        } else {
            0int
        }) == whites(color) + (if x == 0 {
            1int
        } else {
            0int
        }),
    decreases color.len(),
{
    let t = color.update(i, x);
    if i == color.len() - 1 {
        assert(t.drop_last() =~= color.drop_last());
    } else {
        assert(t.drop_last() =~= color.drop_last().update(i, x));
        lemma_whites_update(color.drop_last(), i, x);
    }
}

/// The depth-first search state: colors (0 unvisited, 1 on the current
/// path, 2 finished), the current path, and finishing ranks that decrease
/// along every support of a finished node.
pub open spec fn dfs_ok(a: Seq<Seq<usize>>, color: Seq<u8>, path: Seq<usize>, fin: Seq<int>, clock: int) -> bool {
    &&& color.len() == a.len()
    &&& fin.len() == a.len()
    &&& forall|i: int, k: int| 0 <= i < a.len() && 0 <= k < a[i].len() ==> (#[trigger] a[i][k]) < a.len()
    &&& forall|x: int| 0 <= x < a.len() ==> #[trigger] color[x] <= 2
    &&& forall|k: int| 0 <= k < path.len() ==> (#[trigger] path[k]) < a.len() && color[path[k] as int] == 1
    &&& forall|x: int| 0 <= x < a.len() && #[trigger] color[x] == 1 ==> exists|q: int| 0 <= q < path.len() && path[q] as int == x
    &&& forall|k: int| 0 <= k < path.len() - 1 ==> a[(#[trigger] path[k]) as int].contains(path[k + 1])
    &&& forall|x: int| 0 <= x < a.len() && #[trigger] color[x] == 2 ==> fin[x] < clock
    &&& forall|x: int, k: int|
        0 <= x < a.len() && color[x] == 2 && 0 <= k < a[x].len() ==> color[(#[trigger] a[x][k]) as int] == 2
            && fin[a[x][k] as int] < fin[x]
}


/// The names along the current path from `u` back to `u`.
fn cycle_through(
    adj: &Vec<Vec<usize>>,
    names: &Vec<String>,
    path: &Vec<usize>,
    u: usize,
    color: Ghost<Seq<u8>>,
    fin: Ghost<Seq<int>>,
    clock: Ghost<int>,
) -> (c: Vec<String>)
    requires
        names@.len() == adj@.len(),
        dfs_ok(succ(adj@), color@, path@, fin@, clock@),
        u < adj@.len(),
        color@[u as int] == 1,
        path@.len() > 0 ==> succ(adj@)[path@.last() as int].contains(u),
    ensures
        exists|cyc: Seq<usize>|
            idx_cycle(succ(adj@), cyc) && c@.len() == cyc.len() && forall|k: int|
                0 <= k < cyc.len() ==> (#[trigger] c@[k])@ == names@[cyc[k] as int]@,
{
    let ghost a = succ(adj@);
    assert(path@.contains(u)) by {
        let q = choose|q: int| 0 <= q < path@.len() && path@[q] as int == u as int;
        assert(path@[q] == u);
    }
    let mut start: usize = 0;
    while start < path.len() && path[start] != u
        invariant
            start <= path@.len(),
            path@.contains(u),
            forall|q: int| 0 <= q < start ==> path@[q] != u,
        decreases path@.len() - start,
    {
        start += 1;
    }
    assert(start < path@.len());
    let mut c: Vec<String> = Vec::new();
    let mut k: usize = start;
    while k < path.len()
        invariant
            start <= k <= path@.len(),
            dfs_ok(a, color@, path@, fin@, clock@),
            names@.len() == a.len(),
            c@.len() == k - start,
            forall|q: int| 0 <= q < c@.len() ==> (#[trigger] c@[q])@ == names@[path@[start + q] as int]@,
        decreases path@.len() - k,
    {
        c.push(names[path[k]].clone());
        k += 1;
    }
    c.push(names[u].clone());
    let ghost cyc = path@.subrange(start as int, path@.len() as int).push(u);
    proof {
        assert(cyc[0] == u);
        assert forall|q: int| 0 <= q < cyc.len() - 1 implies (#[trigger] cyc[q]) < a.len() && a[cyc[q] as int].contains(cyc[q + 1]) by {
            if q < cyc.len() - 2 {
                assert(cyc[q] == path@[start + q]);
                assert(cyc[q + 1] == path@[start + q + 1]);
            } else {
                assert(cyc[q] == path@.last());
            }
        }
        assert forall|q: int| 0 <= q < cyc.len() implies (#[trigger] c@[q])@ == names@[cyc[q] as int]@ by {
            if q < cyc.len() - 1 {
                assert(cyc[q] == path@[start + q]);
            }
        }
        assert(idx_cycle(a, cyc));
    }
    c
}

proof fn lemma_enter(a: Seq<Seq<usize>>, color: Seq<u8>, path: Seq<usize>, fin: Seq<int>, clock: int, u: usize)
    requires
        dfs_ok(a, color, path, fin, clock),
        u < a.len(),
        color[u as int] == 0,
        path.len() > 0 ==> a[path.last() as int].contains(u),
    ensures
        dfs_ok(a, color.update(u as int, 1), path.push(u), fin, clock),
{
    let c2 = color.update(u as int, 1);
    let p2 = path.push(u);
    assert forall|x: int| 0 <= x < a.len() && #[trigger] c2[x] == 1 implies exists|q: int| 0 <= q < p2.len() && p2[q] as int == x by {
        if x == u {
            assert(p2[p2.len() - 1] == u);
        } else {
            assert(color[x] == 1);
            let q = choose|q: int| 0 <= q < path.len() && path[q] as int == x;
            assert(p2[q] == path[q]);
        }
    }
    assert forall|k: int| 0 <= k < p2.len() implies (#[trigger] p2[k]) < a.len() && c2[p2[k] as int] == 1 by {
        if k < path.len() {
            assert(p2[k] == path[k]);
            assert(color[path[k] as int] == 1);
        }
    }
    assert forall|k: int| 0 <= k < p2.len() - 1 implies a[(#[trigger] p2[k]) as int].contains(p2[k + 1]) by {
        assert(p2[k] == path[k]);
        if k < path.len() - 1 {
            assert(p2[k + 1] == path[k + 1]);
        }
    }
    assert forall|x: int, k: int|
        0 <= x < a.len() && c2[x] == 2 && 0 <= k < a[x].len() implies c2[(#[trigger] a[x][k]) as int] == 2
            && fin[a[x][k] as int] < fin[x] by {
        assert(color[x] == 2);
    }
}

#[verifier::rlimit(40)]
proof fn lemma_leave(
    a: Seq<Seq<usize>>,
    color: Seq<u8>,
    path0: Seq<usize>,
    fin: Seq<int>,
    clock: int,
    u: usize,
)
    requires
        dfs_ok(a, color, path0.push(u), fin, clock),
        u < a.len(),
        color[u as int] == 1,
        !path0.contains(u),
        forall|q: int| 0 <= q < a[u as int].len() ==> color[(#[trigger] a[u as int][q]) as int] == 2,
    ensures
        dfs_ok(a, color.update(u as int, 2), path0, fin.update(u as int, clock), clock + 1),
{
    let p1 = path0.push(u);
    let cf = color.update(u as int, 2);
    let f_new = fin.update(u as int, clock);
    assert forall|x: int| 0 <= x < a.len() && #[trigger] cf[x] == 1 implies exists|q: int| 0 <= q < path0.len() && path0[q] as int == x by {
        assert(color[x] == 1);
        let q = choose|q: int| 0 <= q < p1.len() && p1[q] as int == x;
        if q == path0.len() {
            assert(p1[q] == u);
        } else {
            assert(path0[q] == p1[q]);
        }
    }
    assert forall|q: int| 0 <= q < path0.len() implies (#[trigger] path0[q]) < a.len() && cf[path0[q] as int] == 1 by {
        assert(p1[q] == path0[q]);
        if path0[q] == u {
            assert(path0.contains(u));
        }
    }
    assert forall|q: int| 0 <= q < path0.len() - 1 implies a[(#[trigger] path0[q]) as int].contains(path0[q + 1]) by {
        assert(p1[q] == path0[q]);
        assert(p1[q + 1] == path0[q + 1]);
    }
    assert forall|x: int| 0 <= x < a.len() && #[trigger] cf[x] == 2 implies f_new[x] < clock + 1 by {
        if x != u {
            assert(color[x] == 2);
        }
    }
    assert forall|x: int, j: int|
        0 <= x < a.len() && cf[x] == 2 && 0 <= j < a[x].len() implies cf[(#[trigger] a[x][j]) as int] == 2
            && f_new[a[x][j] as int] < f_new[x] by {
        if x == u {
            assert(color[a[x][j] as int] == 2);
            assert(a[x][j] != u);
        } else {
            assert(color[x] == 2);
            assert(color[a[x][j] as int] == 2);
            assert(a[x][j] != u);
        }
    }
}

#[verifier::spinoff_prover]
#[verifier::rlimit(40)]
fn visit(
    adj: &Vec<Vec<usize>>,
    names: &Vec<String>,
    u: usize,
    color: &mut Vec<u8>,
    path: &mut Vec<usize>,
    fin: Ghost<Seq<int>>,
    clock: Ghost<int>,
) -> (r: (Result<(), ConformanceError>, Ghost<Seq<int>>, Ghost<int>))
    requires
        names@.len() == adj@.len(),
        dfs_ok(succ(adj@), old(color)@, old(path)@, fin@, clock@),
        u < adj@.len(),
        old(path)@.len() > 0 ==> succ(adj@)[old(path)@.last() as int].contains(u),
    ensures
        r.0 is Ok ==> dfs_ok(succ(adj@), final(color)@, final(path)@, r.1@, r.2@),
        r.0 is Ok ==> final(color)@[u as int] == 2 && final(path)@ == old(path)@,
        r.0 is Ok ==> forall|x: int|
            0 <= x < adj@.len() && old(color)@[x] == 2 ==> #[trigger] final(color)@[x] == 2 && r.1@[x] == fin@[x],
        r.0 is Ok ==> forall|x: int| 0 <= x < adj@.len() ==> (#[trigger] final(color)@[x] == 1) == (old(color)@[x] == 1),
        r.0 is Ok ==> whites(final(color)@) <= whites(old(color)@),
        r.0 is Ok ==> r.2@ >= clock@ && r.1@.len() == fin@.len(),
        r.0 is Err ==> (r.0 matches Err(ConformanceError::SupportCycle(c)) && exists|cyc: Seq<usize>|
            idx_cycle(succ(adj@), cyc) && c@.len() == cyc.len() && forall|k: int|
                0 <= k < cyc.len() ==> (#[trigger] c@[k])@ == names@[cyc[k] as int]@),
    decreases whites(old(color)@),
{
    let ghost a = succ(adj@);
    if color[u] == 2 {
        return (Ok(()), fin, clock);
    }
    if color[u] == 1 {
        assert(color@[u as int] == 1);
        let c = cycle_through(adj, names, path, u, Ghost(color@), fin, clock);
        return (Err(ConformanceError::SupportCycle(c)), fin, clock);
    }
    let ghost color0 = color@;
    let ghost path0 = path@;
    proof {
        lemma_whites_update(color@, u as int, 1);
        lemma_enter(a, color@, path@, fin@, clock@, u);
        assert(!path0.contains(u)) by {
            if path0.contains(u) {
                let q = choose|q: int| 0 <= q < path0.len() && path0[q] == u;
                assert(color@[path0[q] as int] == 1);
            }
        }
    }
    color.set(u, 1);
    path.push(u);
    let mut f = fin;
    let mut t = clock;
    let mut k: usize = 0;
    while k < adj[u].len()
        invariant
            names@.len() == adj@.len(),
            a == succ(adj@),
            u < adj@.len(),
            k <= a[u as int].len(),
            dfs_ok(a, color@, path@, f@, t@),
            path@ == path0.push(u),
            !path0.contains(u),
            color@[u as int] == 1,
            color0[u as int] == 0,
            color0.len() == a.len(),
            fin@.len() == a.len(),
            forall|q: int| 0 <= q < k ==> color@[(#[trigger] a[u as int][q]) as int] == 2,
            forall|x: int| 0 <= x < a.len() && color0[x] == 2 ==> #[trigger] color@[x] == 2 && f@[x] == fin@[x],
            forall|x: int| 0 <= x < a.len() ==> (#[trigger] color@[x] == 1) == (color0[x] == 1 || x == u),
            whites(color@) < whites(color0),
            color0 == old(color)@,
            clock@ <= t@,
        decreases a[u as int].len() - k,
    {
        let v = adj[u][k];
        assert(a[u as int][k as int] == v);
        assert(path@.last() == u);
        let ghost cb = color@;
        let (res, f2, t2) = visit(adj, names, v, color, path, f, t);
        match res {
            Ok(()) => {},
            Err(e) => {
                return (Err(e), f2, t2);
            },
        }
        proof {
            assert forall|q: int| 0 <= q < k + 1 implies color@[(#[trigger] a[u as int][q]) as int] == 2 by {
                if q < k {
                    assert(cb[a[u as int][q] as int] == 2);
                }
            }
        }
        f = f2;
        t = t2;
        k += 1;
    }
    let ghost cl = color@;
    let ghost fl = f@;
    assert(forall|x: int| 0 <= x < a.len() && color0[x] == 2 ==> #[trigger] cl[x] == 2 && fl[x] == fin@[x]);
    proof {
        lemma_leave(a, color@, path0, f@, t@, u);
        lemma_whites_update(color@, u as int, 2);
    }
    path.pop();
    color.set(u, 2);
    assert(path@ =~= path0);
    let ghost f_new = f@.update(u as int, t@);
    proof {
        assert forall|x: int| 0 <= x < adj@.len() && color0[x] == 2 implies #[trigger] color@[x] == 2 && f_new[x] == fin@[x] by {
            assert(x != u);
            assert(a.len() == adj@.len());
            assert(0 <= x < a.len());
            assert(color0[x] == 2);
            assert(cl[x] == 2);
            assert(fl[x] == fin@[x]);
            assert(color@[x] == cl[x]);
        }
        assert forall|x: int| 0 <= x < adj@.len() implies (#[trigger] color@[x] == 1) == (color0[x] == 1) by {
            if x == u {
            } else {
                assert(color@[x] == cl[x]);
            }
        }
    }
    (Ok(()), Ghost(f_new), Ghost(t@ + 1))
}

proof fn lemma_no_idx_cycle(a: Seq<Seq<usize>>, color: Seq<u8>, fin: Seq<int>, clock: int, c: Seq<usize>)
    requires
        dfs_ok(a, color, Seq::empty(), fin, clock),
        forall|x: int| 0 <= x < a.len() ==> #[trigger] color[x] == 2,
    ensures
        !idx_cycle(a, c),
{
    if idx_cycle(a, c) {
        lemma_fin_descends(a, color, fin, clock, c, c.len() - 1);
    }
}

proof fn lemma_fin_descends(a: Seq<Seq<usize>>, color: Seq<u8>, fin: Seq<int>, clock: int, c: Seq<usize>, m: int)
    requires
        dfs_ok(a, color, Seq::empty(), fin, clock),
        forall|x: int| 0 <= x < a.len() ==> #[trigger] color[x] == 2,
        idx_cycle(a, c),
        1 <= m < c.len(),
    ensures
        fin[c[m] as int] < fin[c[0] as int],
    decreases m,
{
    let x = c[m - 1] as int;
    assert(c[m - 1] < a.len());
    assert(a[x].contains(c[m]));
    let j = choose|j: int| 0 <= j < a[x].len() && a[x][j] == c[m];
    assert(color[x] == 2);
    assert(a[x][j] == c[m]);
    assert(fin[a[x][j] as int] < fin[x]);
    if m > 1 {
        lemma_fin_descends(a, color, fin, clock, c, m - 1);
    }
}

/// A position of a name in a list.
pub open spec fn pos_of(s: Seq<Seq<char>>, x: Seq<char>) -> int {
    choose|i: int| 0 <= i < s.len() && s[i] == x
}

proof fn lemma_pos_of(s: Seq<Seq<char>>, x: Seq<char>)
    requires
        s.contains(x),
    ensures
        0 <= pos_of(s, x) < s.len(),
        s[pos_of(s, x)] == x,
{
}

proof fn lemma_names_distinct(s: Seq<Seq<char>>, x: int, y: int)
    requires
        names_sorted(s),
        0 <= x < s.len(),
        0 <= y < s.len(),
        s[x] == s[y],
    ensures
        x == y,
{
    if x < y {
        assert(seq_lt(s[x], s[y]));
        lemma_seq_lt_irreflexive(s[x]);
    } else if y < x {
        assert(seq_lt(s[y], s[x]));
        lemma_seq_lt_irreflexive(s[x]);
    }
}

proof fn lemma_idx_cycle_names(g: SupportGraph, a: Seq<Seq<usize>>, cyc: Seq<usize>, c: Seq<Seq<char>>)
    requires
        g.wf(),
        adj_ok(g, a),
        idx_cycle(a, cyc),
        c.len() == cyc.len(),
        forall|k: int| 0 <= k < cyc.len() ==> (#[trigger] c[k]) == g.names()[cyc[k] as int],
    ensures
        is_cycle(g, c),
{
    assert(cyc[cyc.len() - 1] < a.len()) by {
        assert(cyc[cyc.len() - 2] < a.len());
        let row = a[cyc[cyc.len() - 2] as int];
        assert(row.contains(cyc[cyc.len() - 1]));
        let j = choose|j: int| 0 <= j < row.len() && #[trigger] row[j] == cyc[cyc.len() - 1];
        assert(a[cyc[cyc.len() - 2] as int][j] < a.len());
    }
    assert(c[0] == c[c.len() - 1]);
    assert forall|k: int| 0 <= k < c.len() - 1 implies g.edge(#[trigger] c[k], c[k + 1]) by {
        let i = cyc[k] as int;
        assert(a[i].contains(cyc[k + 1]));
        let j = choose|j: int| 0 <= j < a[i].len() && a[i][j] == cyc[k + 1];
        assert(g.names()[a[i][j] as int] == g.supports_at(i)[j]);
        assert(g.supports_at(i).contains(c[k + 1]));
    }
}

proof fn lemma_names_cycle_idx(g: SupportGraph, a: Seq<Seq<usize>>, c: Seq<Seq<char>>) -> (cyc: Seq<usize>)
    requires
        g.wf(),
        g.names().len() <= usize::MAX,
        adj_ok(g, a),
        is_cycle(g, c),
    ensures
        idx_cycle(a, cyc),
{
    assert forall|k: int| 0 <= k < c.len() implies g.has_node(#[trigger] c[k]) by {
        if k < c.len() - 1 {
            assert(g.edge(c[k], c[k + 1]));
        } else {
            assert(g.edge(c[k - 1], c[k]));
            let i = choose|i: int| 0 <= i < g.names().len() && g.names()[i] == c[k - 1] && #[trigger] g.supports_at(i).contains(c[k]);
        }
    }
    let cyc = Seq::new(c.len(), |k: int| pos_of(g.names(), c[k]) as usize);
    assert forall|k: int| 0 <= k < c.len() implies (#[trigger] cyc[k]) < a.len() && g.names()[cyc[k] as int] == c[k] by {
        assert(g.has_node(c[k]));
        lemma_pos_of(g.names(), c[k]);
        assert(cyc[k] == pos_of(g.names(), c[k]) as usize);
    }
    assert(cyc[0] == cyc[cyc.len() - 1]) by {
        lemma_names_distinct(g.names(), cyc[0] as int, cyc[cyc.len() - 1] as int);
    }
    assert forall|k: int| 0 <= k < cyc.len() - 1 implies (#[trigger] cyc[k]) < a.len() && a[cyc[k] as int].contains(cyc[k + 1]) by {
        assert(g.edge(c[k], c[k + 1]));
        let i = choose|i: int| 0 <= i < g.names().len() && g.names()[i] == c[k] && #[trigger] g.supports_at(i).contains(c[k + 1]);
        lemma_names_distinct(g.names(), i, cyc[k] as int);
        let j = choose|j: int| 0 <= j < g.supports_at(i).len() && g.supports_at(i)[j] == c[k + 1];
        assert(a[i][j] < a.len());
        assert(g.names()[a[i][j] as int] == c[k + 1]);
        lemma_names_distinct(g.names(), a[i][j] as int, cyc[k + 1] as int);
        assert(a[i][j] == cyc[k + 1]);
    }
    cyc
}

proof fn lemma_insert_sorted_name(s: Seq<Seq<char>>, p: int, x: Seq<char>)
    requires
        names_sorted(s),
        0 <= p <= s.len(),
        forall|q: int| 0 <= q < p ==> seq_lt(#[trigger] s[q], x),
        p < s.len() ==> seq_lt(x, s[p]),
    ensures
        names_sorted(s.insert(p, x)),
{
    let t = s.insert(p, x);
    assert forall|a: int, b: int| 0 <= a < b < t.len() implies seq_lt(#[trigger] t[a], #[trigger] t[b]) by {
        if a < p && b == p {
        } else if a < p && b > p {
            assert(t[b] == s[b - 1]);
            if b - 1 > p {
                lemma_seq_lt_trans(x, s[p], s[b - 1]);
            }
            lemma_seq_lt_trans(s[a], x, s[b - 1]);
        } else if a == p {
            assert(t[b] == s[b - 1]);
            if b - 1 > p {
                lemma_seq_lt_trans(x, s[p], s[b - 1]);
            }
        } else if b < p {
        } else {
            assert(t[a] == s[a - 1]);
            assert(t[b] == s[b - 1]);
        }
    }
}


/// In a well-formed graph every cycle passes through at least two nodes,
/// so its name list has at least three entries.
proof fn lemma_cycle_len(g: SupportGraph, c: Seq<Seq<char>>)
    requires
        g.wf(),
        is_cycle(g, c),
    ensures
        c.len() >= 3,
{
    if c.len() == 2 {
        assert(g.edge(c[0], c[1]));
        let i = choose|i: int| 0 <= i < g.names().len() && g.names()[i] == c[0] && #[trigger] g.supports_at(i).contains(c[1]);
        assert(!g.supports_at(i).contains(g.names()[i]));
    }
}

} // verus!
