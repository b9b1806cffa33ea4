//! Executor-neutral, explicitly owned cancellation for bounded work.
//!
//! All cancellation lifetimes that can affect one another live in one
//! [`CancellationTree`]; a [`Cancellation`] is a handle naming one lifetime
//! in it. Hosts construct a root, derive children for owned work, and pass
//! those handles explicitly; there is no global token.
//!
//! A lifetime is open until its single terminal transition to cancelled,
//! which records an immutable [`CancellationReason`]. Cancelling a lifetime
//! cancels every open lifetime derived from it, with the same reason; it
//! never affects the lifetime it was derived from. A child derived from a
//! cancelled lifetime starts cancelled with its parent's reason.
//!
//! Waiters are registrations on one lifetime: polling an open lifetime
//! registers (once) and stays pending; the terminal transition releases
//! every registration and reports them so the host can wake its tasks.

use vstd::prelude::*;

use crate::text::{append_str, decimal, is_ws, push_decimal, skip_ws, skip_ws_exec, lemma_skip_ws_bounds, chars_of, text};

verus! {

/// Maximum UTF-8 byte length accepted for a cancellation reason.
pub const MAX_REASON_BYTES: usize = 256;

/// The immutable explanation attached to the terminal transition.
#[derive(Clone, Debug, PartialEq, Eq)]
pub struct CancellationReason {
    text: String,
}

/// Why construction of a cancellation reason failed.
#[derive(Clone, Debug, PartialEq, Eq)]
pub enum InvalidReason {
    /// Whitespace-only and empty reasons carry no useful evidence.
    Empty,
    /// The reason exceeded the fixed memory and disclosure bound.
    TooLong {
        /// Supplied UTF-8 byte count.
        actual: usize,
        /// Accepted UTF-8 byte count.
        maximum: usize,
    },
}

/// The text of a rejected reason: a fixed lead, then the refusal as its
/// debug form writes it.
pub open spec fn invalid_reason_message(e: InvalidReason) -> Seq<char> {
    "invalid cancellation reason: "@ + match e {
        InvalidReason::Empty => "Empty"@,
        InvalidReason::TooLong { actual, maximum } => "TooLong { actual: "@ + decimal(actual as nat)
            + ", maximum: "@ + decimal(maximum as nat) + " }"@,
    }
}

impl InvalidReason {
    /// The text of this refusal.
    pub fn message(&self) -> (r: String)
        ensures
            r@ == invalid_reason_message(*self),
    {
        let mut r = text("invalid cancellation reason: ");
        match self {
            InvalidReason::Empty => append_str(&mut r, "Empty"),
            InvalidReason::TooLong { actual, maximum } => {
                append_str(&mut r, "TooLong { actual: ");
                push_decimal(&mut r, *actual as u64);
                append_str(&mut r, ", maximum: ");
                push_decimal(&mut r, *maximum as u64);
                append_str(&mut r, " }");
            },
        }
        r
    }
}

impl View for CancellationReason {
    type V = Seq<char>;

    closed spec fn view(&self) -> Seq<char> {
        self.text@
    }
}

/// Every character of `s` is whitespace.
pub open spec fn all_ws(s: Seq<char>) -> bool {
    forall|i: int| 0 <= i < s.len() ==> is_ws(#[trigger] s[i])
}

/// UTF-8 byte length of a text, as `str::len` reports it.
pub open spec fn utf8_len(s: Seq<char>) -> usize {
    vstd::utf8::encode_utf8(s).len() as usize
}

impl CancellationReason {
    /// Validates and constructs a bounded, non-empty reason: it is refused
    /// when it is only whitespace, or longer than [`MAX_REASON_BYTES`]
    /// UTF-8 bytes.
    pub fn new(reason: String) -> (r: Result<CancellationReason, InvalidReason>)
        ensures
            all_ws(reason@) ==> r == Err::<CancellationReason, InvalidReason>(InvalidReason::Empty),
            !all_ws(reason@) && utf8_len(reason@) > MAX_REASON_BYTES ==> r == Err::<
                CancellationReason,
                InvalidReason,
            >(InvalidReason::TooLong { actual: utf8_len(reason@), maximum: MAX_REASON_BYTES }),
            !all_ws(reason@) && utf8_len(reason@) <= MAX_REASON_BYTES ==> (r matches Ok(c) && c@
                == reason@),
    {
        let v = chars_of(reason.as_str());
        let k = skip_ws_exec(&v, 0, v.len());
        proof {
            lemma_skip_ws_prefix(v@, 0, v.len() as int);
        }
        if k == v.len() {
            return Err(InvalidReason::Empty);
        }
        let n = reason.as_str().len();
        if n > MAX_REASON_BYTES {
            return Err(InvalidReason::TooLong { actual: n, maximum: MAX_REASON_BYTES });
        }
        Ok(CancellationReason { text: reason })
    }

    /// Returns the validated reason text.
    pub fn as_str(&self) -> (s: &str)
        ensures
            s@ == self@,
    {
        self.text.as_str()
    }

    /// A copy of this reason.
    pub fn copy(&self) -> (r: CancellationReason)
        ensures
            r@ == self@,
    {
        CancellationReason { text: self.text.clone() }
    }
}

proof fn lemma_skip_ws_prefix(s: Seq<char>, i: int, hi: int)
    requires
        0 <= i <= hi <= s.len(),
    ensures
        forall|j: int| i <= j < skip_ws(s, i, hi) ==> is_ws(#[trigger] s[j]),
        skip_ws(s, i, hi) < hi ==> !is_ws(s[skip_ws(s, i, hi)]),
        i <= skip_ws(s, i, hi) <= hi,
    decreases hi - i,
{
    if i < hi && is_ws(s[i]) {
        lemma_skip_ws_prefix(s, i + 1, hi);
    }
}

/// One lifetime, viewed.
pub struct NodeV {
    /// The lifetime it was derived from; always an earlier one.
    pub parent: Option<int>,
    /// The terminal reason, once cancelled.
    pub reason: Option<Seq<char>>,
    /// The next waiter registration number.
    pub next_waiter: u64,
    /// Live waiter registrations, in registration order.
    pub waiters: Seq<u64>,
}

struct Node {
    parent: Option<usize>,
    reason: Option<CancellationReason>,
    next_waiter: u64,
    waiters: Vec<u64>,
}

impl View for Node {
    type V = NodeV;

    closed spec fn view(&self) -> NodeV {
        NodeV {
            parent: match self.parent {
                Some(p) => Some(p as int),
                None => None,
            },
            reason: match self.reason {
                Some(r) => Some(r@),
                None => None,
            },
            next_waiter: self.next_waiter,
            waiters: self.waiters@,
        }
    }
}

/// All cancellation lifetimes that can reach one another.
pub struct CancellationTree {
    nodes: Vec<Node>,
}

impl View for CancellationTree {
    type V = Seq<NodeV>;

    closed spec fn view(&self) -> Seq<NodeV> {
        self.nodes@.map_values(|n: Node| n@)
    }
}

/// `n` is `t` or was derived, directly or not, from `t`.
pub open spec fn is_desc(s: Seq<NodeV>, n: int, t: int) -> bool
    decreases n,
{
    if n == t {
        true
    } else if n < 0 || n >= s.len() {
        false
    } else {
        match s[n].parent {
            Some(p) => if 0 <= p < n {
                is_desc(s, p, t)
            } else {
                false
            },
            None => false,
        }
    }
}

/// Well-formed lifetimes: parents come first, and a cancelled lifetime's
/// children are cancelled too.
pub open spec fn tree_wf(s: Seq<NodeV>) -> bool {
    &&& forall|i: int| 0 <= i < s.len() ==> ((#[trigger] s[i]).parent matches Some(p) ==> 0 <= p < i)
    &&& forall|i: int|
        0 <= i < s.len() ==> ((#[trigger] s[i]).parent matches Some(p) && s[p].reason is Some)
            ==> s[i].reason is Some
    &&& forall|i: int| 0 <= i < s.len() ==> (#[trigger] s[i]).reason is Some ==> s[i].waiters.len() == 0
    &&& forall|i: int| 0 <= i < s.len() ==> registrations_distinct((#[trigger] s[i]).waiters)
}

/// No registration is live twice.
pub open spec fn registrations_distinct(w: Seq<u64>) -> bool {
    forall|a: int, b: int| 0 <= a < b < w.len() ==> #[trigger] w[a] != #[trigger] w[b]
}

/// The live registrations after registering `g`: a registration already
/// live stays live once.
pub open spec fn with_registration(w: Seq<u64>, g: u64) -> Seq<u64> {
    if w.contains(g) {
        w
    } else {
        w.push(g)
    }
}

/// The lifetimes after cancelling `t` with `r`: every open lifetime derived
/// from `t` (and `t` itself) gets reason `r` and loses its waiters; the
/// rest are unchanged.
pub open spec fn after_cancel(s: Seq<NodeV>, t: int, r: Seq<char>) -> Seq<NodeV> {
    Seq::new(
        s.len(),
        |i: int|
            if is_desc(s, i, t) && s[i].reason is None {
                NodeV { reason: Some(r), waiters: Seq::empty(), ..s[i] }
            } else {
                s[i]
            },
    )
}

/// The registrations released by cancelling `t`, among lifetimes `t..n`:
/// `(lifetime, registration)` pairs, by lifetime then registration order.
pub open spec fn released(s: Seq<NodeV>, t: int, n: int) -> Seq<(int, u64)>
    decreases n - t,
{
    if n <= t {
        Seq::empty()
    } else {
        let prev = released(s, t, n - 1);
        let i = n - 1;
        if is_desc(s, i, t) && s[i].reason is None {
            prev + s[i].waiters.map_values(|w: u64| (i, w))
        } else {
            prev
        }
    }
}

/// A handle naming one cancellation lifetime of a [`CancellationTree`].
#[derive(Clone, Copy, Debug, PartialEq, Eq)]
pub struct Cancellation {
    id: usize,
}

/// A waiter for the terminal reason of one lifetime.
#[derive(Clone, Copy, Debug, PartialEq, Eq)]
pub struct CancellationWaiter {
    token: usize,
    registration: Option<u64>,
}

/// What one poll of a waiter found.
#[derive(Debug, PartialEq, Eq)]
pub enum WaiterPoll {
    /// The lifetime is cancelled with this reason; `released` is the
    /// waiter's registration that was dropped, if it had one.
    Ready { reason: CancellationReason, released: Option<u64> },
    /// Still open; the waiter is registered under `registration`, which is
    /// `fresh` when this poll created it.
    Pending { registration: u64, fresh: bool },
}

impl CancellationTree {
    /// A tree holding no lifetimes yet.
    pub fn empty() -> (t: CancellationTree)
        ensures
            t@ == Seq::<NodeV>::empty(),
    {
        let t = CancellationTree { nodes: Vec::new() };
        assert(t@ =~= Seq::<NodeV>::empty());
        t
    }

    /// The number of lifetimes.
    pub fn len(&self) -> (n: usize)
        ensures
            n == self@.len(),
    {
        self.nodes.len()
    }
}

impl Cancellation {
    /// The index of the named lifetime.
    pub closed spec fn index(&self) -> int {
        self.id as int
    }

    /// Whether the handle names a lifetime of `tree`.
    pub open spec fn valid(&self, tree: Seq<NodeV>) -> bool {
        self.index() < tree.len()
    }

    /// Constructs an open, independent cancellation lifetime.
    pub fn new(tree: &mut CancellationTree) -> (c: Cancellation)
        requires
            tree_wf(old(tree)@),
            old(tree)@.len() < usize::MAX,
        ensures
            tree_wf(final(tree)@),
            c.index() == old(tree)@.len(),
            final(tree)@ == old(tree)@.push(
                NodeV { parent: None, reason: None, next_waiter: 0, waiters: Seq::empty() },
            ),
    {
        let id = tree.nodes.len();
        let ghost before = tree@;
        tree.nodes.push(Node { parent: None, reason: None, next_waiter: 0, waiters: Vec::new() });
        assert(tree@ =~= before.push(
            NodeV { parent: None, reason: None, next_waiter: 0, waiters: Seq::empty() },
        ));
        Cancellation { id }
    }

    /// Constructs a child which follows this lifetime's terminal state: it
    /// starts cancelled, with the same reason, if this lifetime already is.
    pub fn child(&self, tree: &mut CancellationTree) -> (c: Cancellation)
        requires
            tree_wf(old(tree)@),
            self.valid(old(tree)@),
            old(tree)@.len() < usize::MAX,
        ensures
            tree_wf(final(tree)@),
            c.index() == old(tree)@.len(),
            final(tree)@ == old(tree)@.push(
                NodeV {
                    parent: Some(self.index()),
                    reason: old(tree)@[self.index()].reason,
                    next_waiter: 0,
                    waiters: Seq::empty(),
                },
            ),
    {
        let id = tree.nodes.len();
        let reason = match &tree.nodes[self.id].reason {
            Some(r) => Some(r.copy()),
            None => None,
        };
        let ghost before = tree@;
        tree.nodes.push(Node { parent: Some(self.id), reason, next_waiter: 0, waiters: Vec::new() });
        assert(tree@ =~= before.push(
            NodeV {
                parent: Some(self.index()),
                reason: before[self.index()].reason,
                next_waiter: 0,
                waiters: Seq::empty(),
            },
        ));
        Cancellation { id }
    }

    /// Performs the sole open-to-cancelled transition, returning true only to
    /// its winner. Every open lifetime derived from this one is cancelled
    /// with the same reason; `woken` receives every released waiter
    /// registration as `(lifetime index, registration)`.
    pub fn cancel(
        &self,
        tree: &mut CancellationTree,
        reason: CancellationReason,
        woken: &mut Vec<(usize, u64)>,
    ) -> (won: bool)
        requires
            tree_wf(old(tree)@),
            self.valid(old(tree)@),
        ensures
            tree_wf(final(tree)@),
            won == (old(tree)@[self.index()].reason is None),
            won ==> final(tree)@ == after_cancel(old(tree)@, self.index(), reason@),
            !won ==> final(tree)@ == old(tree)@,
            won ==> final(woken)@.map_values(|x: (usize, u64)| (x.0 as int, x.1)) == old(woken)@.map_values(|x: (usize, u64)| (x.0 as int, x.1)) + released(
                old(tree)@,
                self.index(),
                old(tree)@.len() as int,
            ),
            !won ==> final(woken)@ == old(woken)@,
    {
        if tree.nodes[self.id].reason.is_some() {
            return false;
        }
        let ghost s = tree@;
        let ghost r = reason@;
        let ghost w0 = woken@.map_values(|x: (usize, u64)| (x.0 as int, x.1));
        let t = self.id;
        let n = tree.nodes.len();
        let mut in_sub: Vec<bool> = Vec::new();
        let mut i: usize = 0;
        while i < t
            invariant
                i <= t < n,
                in_sub.len() == i,
                forall|k: int| 0 <= k < i ==> !in_sub@[k],
            decreases t - i,
        {
            in_sub.push(false);
            i += 1;
        }
        assert(tree@ == s);
        proof {
            assert forall|k: int| 0 <= k < t implies !is_desc(s, k, t as int) && after_cancel(
                s,
                t as int,
                r,
            )[k] == s[k] by {
                lemma_desc_below(s, k, t as int);
            }
        }
        while i < n
            invariant
                t <= i <= n == s.len(),
                t == self.index(),
                s[t as int].reason is None,
                tree_wf(s),
                r == reason@,
                in_sub.len() == i,
                forall|k: int| 0 <= k < i ==> in_sub@[k] == is_desc(s, k, t as int),
                tree@.len() == n,
                forall|k: int|
                    0 <= k < n ==> (#[trigger] tree@[k]) == if k < i {
                        after_cancel(s, t as int, r)[k]
                    } else {
                        s[k]
                    },
                woken@.map_values(|x: (usize, u64)| (x.0 as int, x.1)) == w0 + released(
                    s,
                    t as int,
                    i as int,
                ),
            decreases n - i,
        {
            assert(tree@[i as int] == s[i as int]);
            let sub = if i == t {
                true
            } else {
                match tree.nodes[i].parent {
                    Some(p) => p >= t && in_sub[p],
                    None => false,
                }
            };
            proof {
                if i != t {
                    match s[i as int].parent {
                        Some(p) => {
                            if p < t {
                                lemma_desc_below(s, p, t as int);
                            }
                        },
                        None => {},
                    }
                }
            }
            assert(sub == is_desc(s, i as int, t as int));
            in_sub.push(sub);
            if sub && tree.nodes[i].reason.is_none() {
                let ghost before_w = woken@.map_values(|x: (usize, u64)| (x.0 as int, x.1));
                let ghost ws = s[i as int].waiters;
                let ghost pre = tree.nodes@;
                let ghost pre_v = tree@;
                let mut node = tree.nodes.remove(i);
                assert(node@ == s[i as int]);
                let mut k: usize = 0;
                while k < node.waiters.len()
                    invariant
                        k <= node.waiters.len(),
                        node.waiters@ == ws,
                        woken@.map_values(|x: (usize, u64)| (x.0 as int, x.1)) == before_w
                            + ws.take(k as int).map_values(|w: u64| (i as int, w)),
                    decreases node.waiters.len() - k,
                {
                    let ghost wb = woken@;
                    woken.push((i, node.waiters[k]));
                    assert(woken@.map_values(|x: (usize, u64)| (x.0 as int, x.1)) =~= wb.map_values(
                        |x: (usize, u64)| (x.0 as int, x.1),
                    ).push((i as int, ws[k as int])));
                    assert(ws.take(k + 1).map_values(|w: u64| (i as int, w)) =~= ws.take(
                        k as int,
                    ).map_values(|w: u64| (i as int, w)).push((i as int, ws[k as int])));
                    k += 1;
                }
                assert(ws.take(k as int) =~= ws);
                node.reason = Some(reason.copy());
                node.waiters = Vec::new();
                let ghost before_t = tree.nodes@;
                tree.nodes.insert(i, node);
                proof {
                    assert(tree.nodes@ =~= pre.update(i as int, node));
                    assert(node@ == NodeV { reason: Some(r), waiters: Seq::empty(), ..s[i as int] });
                    assert(after_cancel(s, t as int, r)[i as int] == NodeV {
                        reason: Some(r),
                        waiters: Seq::empty(),
                        ..s[i as int]
                    });
                    assert forall|k: int| 0 <= k < n implies (#[trigger] tree@[k]) == if k < i
                        + 1 {
                        after_cancel(s, t as int, r)[k]
                    } else {
                        s[k]
                    } by {
                        if k == i {
                            assert(tree@[k] == node@);
                        } else {
                            assert(tree.nodes@[k] == pre[k]);
                            assert(tree@[k] == pre_v[k]);
                        }
                    }
                }
            } else {
                proof {
                    assert forall|k: int| 0 <= k < n implies (#[trigger] tree@[k]) == if k < i
                        + 1 {
                        after_cancel(s, t as int, r)[k]
                    } else {
                        s[k]
                    } by {
                        if k == i {
                            assert(after_cancel(s, t as int, r)[k] == s[k]);
                        }
                    }
                }
            }
            i += 1;
        }
        proof {
            assert(tree@ =~= after_cancel(s, t as int, r));
            lemma_after_cancel_wf(s, t as int, r);
        }
        true
    }

    /// Observes the terminal reason without blocking.
    pub fn reason(&self, tree: &CancellationTree) -> (r: Option<CancellationReason>)
        requires
            self.valid(tree@),
        ensures
            match (r, tree@[self.index()].reason) {
                (Some(a), Some(b)) => a@ == b,
                (None, None) => true,
                _ => false,
            },
    {
        match &tree.nodes[self.id].reason {
            Some(r) => Some(r.copy()),
            None => None,
        }
    }

    /// Returns whether the terminal transition has occurred.
    pub fn is_cancelled(&self, tree: &CancellationTree) -> (b: bool)
        requires
            self.valid(tree@),
        ensures
            b == (tree@[self.index()].reason is Some),
    {
        tree.nodes[self.id].reason.is_some()
    }

    /// A new, unregistered waiter for the terminal reason.
    pub fn cancelled(&self) -> (w: CancellationWaiter)
        ensures
            w.token_index() == self.index(),
            w.registration() is None,
    {
        CancellationWaiter { token: self.id, registration: None }
    }
}

proof fn lemma_desc_below(s: Seq<NodeV>, n: int, t: int)
    requires
        tree_wf(s),
        0 <= n < t,
    ensures
        !is_desc(s, n, t),
    decreases n,
{
    match s[n].parent {
        Some(p) => {
            if 0 <= p < n {
                lemma_desc_below(s, p, t);
            }
        },
        None => {},
    }
}

proof fn lemma_after_cancel_wf(s: Seq<NodeV>, t: int, r: Seq<char>)
    requires
        tree_wf(s),
        0 <= t < s.len(),
    ensures
        tree_wf(after_cancel(s, t, r)),
{
    let a = after_cancel(s, t, r);
    assert forall|i: int| 0 <= i < a.len() implies ((#[trigger] a[i]).parent matches Some(p)
        && a[p].reason is Some) ==> a[i].reason is Some by {
        if a[i].parent is Some {
            let p = a[i].parent->0;
            assert(s[i].parent == Some(p));
            if a[p].reason is Some && s[i].reason is None {
                if s[p].reason is None {
                    assert(is_desc(s, p, t));
                    assert(is_desc(s, i, t));
                }
            }
        }
    }
}

impl CancellationWaiter {
    /// The index of the lifetime this waiter waits for.
    pub closed spec fn token_index(&self) -> int {
        self.token as int
    }

    /// The waiter's registration, once it has one.
    pub closed spec fn registration(&self) -> Option<u64> {
        self.registration
    }

    /// The position of the lifetime this waiter waits for in its tree, as
    /// reported with released registrations.
    pub fn lifetime(&self) -> (i: usize)
        ensures
            i == self.token_index(),
    {
        self.token
    }

    /// Polls the waiter: cancelled lifetimes resolve to their reason,
    /// dropping this waiter's registration; open lifetimes register the
    /// waiter once and stay pending.
    pub fn poll(&mut self, tree: &mut CancellationTree) -> (p: WaiterPoll)
        requires
            tree_wf(old(tree)@),
            old(self).token_index() < old(tree)@.len(),
            old(self).registration() matches Some(g) ==> old(tree)@[old(self).token_index()].reason is Some
                || old(tree)@[old(self).token_index()].waiters.contains(g),
        ensures
            tree_wf(final(tree)@),
            final(self).token_index() == old(self).token_index(),
            final(tree)@.len() == old(tree)@.len(),
            ({
                let t = old(self).token_index();
                let s = old(tree)@;
                match p {
                    WaiterPoll::Ready { reason, released } => s[t].reason == Some(reason@)
                        && released == old(self).registration() && final(tree)@ == s
                        && final(self).registration() is None,
                    WaiterPoll::Pending { registration, fresh } => s[t].reason is None
                        && final(self).registration() == Some(registration) && final(tree)@[t].waiters.contains(registration) && (fresh <==> old(self).registration() is None) && (fresh ==> final(tree)@ == s.update(
                        t,
                        NodeV {
                            next_waiter: s[t].next_waiter.wrapping_add(1),
                            waiters: with_registration(s[t].waiters, registration),
                            ..s[t]
                        },
                    ) && registration == s[t].next_waiter) && (!fresh ==> final(tree)@ == s),
                }
            }),
    {
        let t = self.token;
        match &tree.nodes[t].reason {
            Some(r) => {
                let reason = r.copy();
                let released = self.registration;
                self.registration = None;
                return WaiterPoll::Ready { reason, released };
            },
            None => {},
        }
        match self.registration {
            Some(g) => WaiterPoll::Pending { registration: g, fresh: false },
            None => {
                let ghost s = tree@;
                let mut node = tree.nodes.remove(t);
                assert(node@ == s[t as int]);
                let g = node.next_waiter;
                node.next_waiter = node.next_waiter.wrapping_add(1);
                let mut live = false;
                let mut k: usize = 0;
                while k < node.waiters.len()
                    invariant
                        k <= node.waiters.len(),
                        node.waiters@ == s[t as int].waiters,
                        live == exists|j: int| 0 <= j < k && node.waiters@[j] == g,
                    decreases node.waiters.len() - k,
                {
                    if node.waiters[k] == g {
                        live = true;
                    }
                    k += 1;
                }
                if !live {
                    node.waiters.push(g);
                }
                proof {
                    assert(live == s[t as int].waiters.contains(g));
                    assert(node.waiters@ == with_registration(s[t as int].waiters, g));
                    let w = node.waiters@;
                    assert(registrations_distinct(s[t as int].waiters));
                    assert forall|a: int, b: int| 0 <= a < b < w.len() implies #[trigger] w[a] != #[trigger] w[b] by {
                        if !live && b == w.len() - 1 {
                            assert(w[a] == s[t as int].waiters[a]);
                        } else {
                            assert(w[a] == s[t as int].waiters[a] && w[b] == s[t as int].waiters[b]);
                        }
                    }
                    assert(w.contains(g)) by {
                        if !live {
                            assert(w[w.len() - 1] == g);
                        }
                    }
                }
                let ghost before_t = tree.nodes@;
                tree.nodes.insert(t, node);
                proof {
                    assert(tree@ =~= s.update(
                        t as int,
                        NodeV {
                            next_waiter: s[t as int].next_waiter.wrapping_add(1),
                            waiters: with_registration(s[t as int].waiters, g),
                            ..s[t as int]
                        },
                    ));
                }
                self.registration = Some(g);
                WaiterPoll::Pending { registration: g, fresh: true }
            },
        }
    }

    /// Drops the waiter: its registration, if it still has one, is removed
    /// from its lifetime and returned so the host can release its task.
    pub fn release(self, tree: &mut CancellationTree) -> (g: Option<u64>)
        requires
            tree_wf(old(tree)@),
            self.token_index() < old(tree)@.len(),
        ensures
            tree_wf(final(tree)@),
            g == self.registration(),
            final(tree)@.len() == old(tree)@.len(),
            forall|k: int|
                0 <= k < old(tree)@.len() && k != self.token_index() ==> final(tree)@[k] == old(tree)@[k],
            g matches Some(x) ==> !final(tree)@[self.token_index()].waiters.contains(x),
    {
        let t = self.token;
        match self.registration {
            None => None,
            Some(g) => {
                let ghost s = tree@;
                let mut node = tree.nodes.remove(t);
                assert(node@ == s[t as int]);
                let mut kept: Vec<u64> = Vec::new();
                let mut k: usize = 0;
                while k < node.waiters.len()
                    invariant
                        k <= node.waiters.len(),
                        node.waiters@ == s[t as int].waiters,
                        registrations_distinct(node.waiters@),
                        kept.len() <= k,
                        forall|j: int| 0 <= j < kept.len() ==> kept@[j] != g,
                        forall|j: int|
                            0 <= j < kept.len() ==> exists|m: int| 0 <= m < k && node.waiters@[m] == #[trigger] kept@[j],
                        registrations_distinct(kept@),
                    decreases node.waiters.len() - k,
                {
                    proof {
                        assert forall|j: int| 0 <= j < kept.len() implies kept@[j] != node.waiters@[k as int] by {
                            let m = choose|m: int| 0 <= m < k && node.waiters@[m] == kept@[j];
                            assert(node.waiters@[m] != node.waiters@[k as int]);
                        }
                    }
                    let ghost kb = kept@;
                    if node.waiters[k] != g {
                        kept.push(node.waiters[k]);
                        proof {
                            assert forall|a: int, b: int| 0 <= a < b < kept@.len() implies #[trigger] kept@[a] != #[trigger] kept@[b] by {
                                if b < kb.len() {
                                    assert(kb[a] != kb[b]);
                                } else {
                                    assert(kept@[a] == kb[a]);
                                }
                            }
                            assert forall|j: int| 0 <= j < kept@.len() implies exists|m: int| 0 <= m < k + 1 && node.waiters@[m] == #[trigger] kept@[j] by {
                                if j < kb.len() {
                                    let m = choose|m: int| 0 <= m < k && node.waiters@[m] == kb[j];
                                    assert(kept@[j] == kb[j]);
                                } else {
                                    assert(node.waiters@[k as int] == kept@[j]);
                                }
                            }
                        }
                    }
                    k += 1;
                }
                proof {
                    assert forall|j: int| 0 <= j < kept@.len() implies node.waiters@.contains(#[trigger] kept@[j]) by {
                        let m = choose|m: int| 0 <= m < k && node.waiters@[m] == kept@[j];
                    }
                }
                proof {
                    if s[t as int].reason is Some {
                        assert(node.waiters@.len() == 0);
                        assert(kept@.len() == 0);
                    }
                }
                node.waiters = kept;
                let ghost before_t = tree.nodes@;
                tree.nodes.insert(t, node);
                proof {
                    assert(tree.nodes@ =~= before_t.insert(t as int, node));
                    assert forall|k: int|
                        0 <= k < s.len() && k != t implies #[trigger] tree@[k] == s[k] by {
                        if k < t {
                            assert(tree.nodes@[k] == before_t[k]);
                        } else {
                            assert(tree.nodes@[k] == before_t[k - 1]);
                        }
                    }
                    assert(tree@[t as int].parent == s[t as int].parent);
                    assert(tree@[t as int].reason == s[t as int].reason);
                }
                Some(g)
            },
        }
    }
}

/// How many times `x` occurs in a list of released registrations.
pub open spec fn times_released(v: Seq<(int, u64)>, x: (int, u64)) -> nat
    decreases v.len(),
{
    if v.len() == 0 {
        0
    } else {
        times_released(v.drop_last(), x) + if v.last() == x {
            1nat
        } else {
            0nat
        }
    }
}

proof fn lemma_times_released_concat(a: Seq<(int, u64)>, b: Seq<(int, u64)>, x: (int, u64))
    ensures
        times_released(a + b, x) == times_released(a, x) + times_released(b, x),
    decreases b.len(),
{
    if b.len() == 0 {
        assert(a + b =~= a);
    } else {
        lemma_times_released_concat(a, b.drop_last(), x);
        assert((a + b).drop_last() =~= a + b.drop_last());
        assert((a + b).last() == b.last());
    }
}

proof fn lemma_times_released_tagged(w: Seq<u64>, i: int, x: (int, u64))
    requires
        registrations_distinct(w),
    ensures
        times_released(w.map_values(|v: u64| (i, v)), x) == if x.0 == i && w.contains(x.1) {
            1nat
        } else {
            0nat
        },
    decreases w.len(),
{
    let m = w.map_values(|v: u64| (i, v));
    if w.len() > 0 {
        let init = w.drop_last();
        assert(registrations_distinct(init)) by {
            assert forall|a: int, b: int| 0 <= a < b < init.len() implies #[trigger] init[a] != #[trigger] init[b] by {
                assert(w[a] != w[b]);
            }
        }
        lemma_times_released_tagged(init, i, x);
        assert(m.drop_last() =~= init.map_values(|v: u64| (i, v)));
        assert(m.last() == (i, w.last()));
        if x.0 == i && w.last() == x.1 {
            assert(!init.contains(x.1)) by {
                if init.contains(x.1) {
                    let j = choose|j: int| 0 <= j < init.len() && init[j] == x.1;
                    assert(w[j] != w[w.len() - 1]);
                }
            }
        }
        assert(w.contains(x.1) <==> init.contains(x.1) || w.last() == x.1) by {
            if w.contains(x.1) {
                let j = choose|j: int| 0 <= j < w.len() && w[j] == x.1;
                if j < init.len() {
                    assert(init[j] == x.1);
                }
            }
            if init.contains(x.1) {
                let j = choose|j: int| 0 <= j < init.len() && init[j] == x.1;
                assert(w[j] == x.1);
            }
            if w.last() == x.1 {
                assert(w[w.len() - 1] == x.1);
            }
        }
    }
}

proof fn lemma_times_released_upto(s: Seq<NodeV>, c: int, n: int, x: (int, u64))
    requires
        tree_wf(s),
        0 <= c <= n <= s.len(),
    ensures
        times_released(released(s, c, n), x) == if c <= x.0 < n && is_desc(s, x.0, c) && s[x.0].reason is None
            && s[x.0].waiters.contains(x.1) {
            1nat
        } else {
            0nat
        },
    decreases n - c,
{
    if n > c {
        let i = n - 1;
        lemma_times_released_upto(s, c, n - 1, x);
        assert(registrations_distinct(s[i].waiters));
        lemma_times_released_tagged(s[i].waiters, i, x);
        if is_desc(s, i, c) && s[i].reason is None {
            lemma_times_released_concat(released(s, c, n - 1), s[i].waiters.map_values(|w: u64| (i, w)), x);
        }
    }
}

/// A registration lives on until one winning cancel releases it, exactly
/// once: a cancel that reaches the waiter's lifetime releases each of its
/// live registrations once and clears them, one that does not reach it
/// leaves it alone, and once the lifetime is cancelled no later cancel
/// releases anything of it.
pub proof fn lemma_registration_released_once(s: Seq<NodeV>, c: int, r: Seq<char>, t: int, g: u64)
    requires
        tree_wf(s),
        0 <= c < s.len(),
        0 <= t < s.len(),
        s[t].waiters.contains(g),
    ensures
        s[c].reason is None && is_desc(s, t, c) ==> times_released(released(s, c, s.len() as int), (t, g)) == 1,
        s[c].reason is None && is_desc(s, t, c) ==> after_cancel(s, c, r)[t].reason is Some
            && after_cancel(s, c, r)[t].waiters.len() == 0,
        !is_desc(s, t, c) ==> times_released(released(s, c, s.len() as int), (t, g)) == 0 && after_cancel(
            s,
            c,
            r,
        )[t] == s[t],
        s[c].reason is None && is_desc(s, t, c) ==> forall|c2: int, x: u64|
            0 <= c2 < s.len() ==> #[trigger] times_released(released(after_cancel(s, c, r), c2, s.len() as int), (t, x)) == 0,
{
    lemma_times_released_upto(s, c, s.len() as int, (t, g));
    assert(s[t].reason is None) by {
        if s[t].reason is Some {
            assert(s[t].waiters.len() == 0);
        }
    }
    if is_desc(s, t, c) {
        if t < c {
            lemma_desc_below(s, t, c);
        }
        if s[c].reason is None {
            let a = after_cancel(s, c, r);
            lemma_after_cancel_wf(s, c, r);
            assert forall|c2: int, x: u64| 0 <= c2 < s.len() implies #[trigger] times_released(
                released(a, c2, s.len() as int),
                (t, x),
            ) == 0 by {
                lemma_times_released_upto(a, c2, s.len() as int, (t, x));
            }
        }
    }
}

/// Cancelling a lifetime never affects a lifetime that it was not derived
/// from: in particular, cancelling a child leaves its parent open.
pub proof fn lemma_no_reverse_authority(s: Seq<NodeV>, t: int, r: Seq<char>, k: int)
    requires
        tree_wf(s),
        0 <= t < s.len(),
        0 <= k < s.len(),
        !is_desc(s, k, t),
    ensures
        after_cancel(s, t, r)[k] == s[k],
{
}

/// After a winning cancel, every lifetime derived from the cancelled one is
/// cancelled, and those that were open carry its reason.
pub proof fn lemma_cancel_reaches_descendants(s: Seq<NodeV>, t: int, r: Seq<char>, k: int)
    requires
        tree_wf(s),
        0 <= t < s.len(),
        0 <= k < s.len(),
        is_desc(s, k, t),
    ensures
        after_cancel(s, t, r)[k].reason is Some,
        s[k].reason is None ==> after_cancel(s, t, r)[k].reason == Some(r),
        s[k].reason is Some ==> after_cancel(s, t, r)[k].reason == s[k].reason,
{
}

/// The first reason wins: a lifetime's reason, once set, is never replaced
/// by a later cancel of it or of any lifetime it was derived from.
pub proof fn lemma_first_reason_wins(s: Seq<NodeV>, t: int, r: Seq<char>, k: int)
    requires
        tree_wf(s),
        0 <= t < s.len(),
        0 <= k < s.len(),
        s[k].reason is Some,
    ensures
        after_cancel(s, t, r)[k] == s[k],
{
}

} // verus!
