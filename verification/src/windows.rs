//! Open-window snapshot: entries from the compositor query, the recursive
//! walk of a tree-shaped window report, and a short-lived cache that bounds
//! how often the compositor is asked.  The compositor call itself is I/O
//! and happens outside the crate; its parsed report is handed in.

use vstd::prelude::*;

use crate::text::{i64_to_dec, spec_dec_int, string_from_chars};

verus! {

/// One open window as the query engine sees it.
#[derive(Clone, Debug)]
pub struct WindowEntry {
    pub title: String,
    pub class: String,
    pub address: String,
    pub workspace: String,
}

/// Window properties reported for windows running under a compatibility
/// layer.
pub struct SwayWindowProperties {
    pub class: Option<String>,
    pub title: Option<String>,
}

/// One node of the tree-shaped window report: a container or a window,
/// with nested and floating children.
pub struct SwayNode {
    pub id: i64,
    pub name: Option<String>,
    pub app_id: Option<String>,
    pub window_properties: Option<SwayWindowProperties>,
    pub nodes: Vec<SwayNode>,
    pub floating_nodes: Vec<SwayNode>,
    pub pid: Option<i32>,
    pub focused: bool,
}

/// The class a node reports: its application id, else the compatibility
/// class, else empty.
pub open spec fn spec_node_class(n: SwayNode) -> Seq<char> {
    match n.app_id {
        Some(a) => a@,
        None => match n.window_properties {
            Some(p) => match p.class {
                Some(c) => c@,
                None => Seq::<char>::empty(),
            },
            None => Seq::<char>::empty(),
        },
    }
}

/// Whether a node itself yields a window entry: it carries a process id
/// and a non-empty name.
pub open spec fn spec_node_yields(n: SwayNode) -> bool {
    n.pid is Some && n.name is Some && n.name->0@.len() > 0
}

/// The windows collected from one node, depth first, abstractly: title,
/// class and decimal address of the node itself when it yields one, then
/// of its nested children, then of its floating children.
pub open spec fn spec_collect(n: SwayNode) -> Seq<(Seq<char>, Seq<char>, Seq<char>)>
    decreases n,
{
    (if spec_node_yields(n) {
        seq![(n.name->0@, spec_node_class(n), spec_dec_int(n.id as int))]
    } else {
        Seq::<(Seq<char>, Seq<char>, Seq<char>)>::empty()
    }) + spec_collect_list(n.nodes@) + spec_collect_list(n.floating_nodes@)
}

pub open spec fn spec_collect_list(ns: Seq<SwayNode>) -> Seq<(Seq<char>, Seq<char>, Seq<char>)>
    decreases ns,
{
    if ns.len() == 0 {
        Seq::<(Seq<char>, Seq<char>, Seq<char>)>::empty()
    } else {
        spec_collect(ns[0]) + spec_collect_list(ns.drop_first())
    }
}

proof fn lemma_collect_list_push(ns: Seq<SwayNode>, x: SwayNode)
    ensures
        spec_collect_list(ns.push(x)) == spec_collect_list(ns) + spec_collect(x),
    decreases ns.len(),
{
    if ns.len() == 0 {
        assert(ns.push(x)[0] == x);
        assert(ns.push(x).drop_first() =~= Seq::<SwayNode>::empty());
        assert(ns.push(x).len() == 1);
        assert(spec_collect_list(ns.push(x)) == spec_collect(ns.push(x)[0]) + spec_collect_list(
            ns.push(x).drop_first(),
        ));
        assert(spec_collect_list(ns.push(x).drop_first()) =~= Seq::<
            (Seq<char>, Seq<char>, Seq<char>),
        >::empty());
        assert(spec_collect_list(ns) =~= Seq::<(Seq<char>, Seq<char>, Seq<char>)>::empty());
        assert(spec_collect_list(ns.push(x)) =~= spec_collect_list(ns) + spec_collect(x));
    } else {
        assert(ns.push(x)[0] == ns[0]);
        assert(ns.push(x).drop_first() =~= ns.drop_first().push(x));
        lemma_collect_list_push(ns.drop_first(), x);
        assert(spec_collect_list(ns.push(x)) =~= spec_collect_list(ns) + spec_collect(x));
    }
}

/// `w` is the entry owed for the collected triple `t`: the workspace is
/// not tracked in this report and is rendered as unknown.
pub open spec fn spec_window_of(w: WindowEntry, t: (Seq<char>, Seq<char>, Seq<char>)) -> bool {
    &&& w.title@ == t.0
    &&& w.class@ == t.1
    &&& w.address@ == t.2
    &&& w.workspace@ == "Unknown"@
}

/// Collects window entries from a window-report tree: exactly the windows
/// of [`spec_collect`], in its depth-first order, appended to `windows`;
/// what was already there stays untouched.
pub fn collect_sway_windows(node: &SwayNode, windows: &mut Vec<WindowEntry>)
    ensures
        final(windows)@.len() == old(windows)@.len() + spec_collect(*node).len(),
        forall|k: int| 0 <= k < old(windows)@.len() ==> final(windows)@[k] == old(windows)@[k],
        forall|k: int|
            0 <= k < spec_collect(*node).len() ==> spec_window_of(
                #[trigger] final(windows)@[old(windows)@.len() + k],
                spec_collect(*node)[k],
            ),
    decreases *node,
{
    let ghost base = windows@;
    let ghost own = (if spec_node_yields(*node) {
        seq![((*node).name->0@, spec_node_class(*node), spec_dec_int((*node).id as int))]
    } else {
        Seq::<(Seq<char>, Seq<char>, Seq<char>)>::empty()
    });
    match (&node.pid, &node.name) {
        (Some(_), Some(name)) => {
            if !name.as_str().is_empty() {
                let class: String = match &node.app_id {
                    Some(a) => a.clone(),
                    None => match &node.window_properties {
                        Some(p) => match &p.class {
                            Some(c) => c.clone(),
                            None => String::new(),
                        },
                        None => String::new(),
                    },
                };
                let addr = string_from_chars(i64_to_dec(node.id).as_slice());
                let w = WindowEntry {
                    title: name.clone(),
                    class,
                    address: addr,
                    workspace: "Unknown".to_owned(),
                };
                proof {
                    assert(spec_node_yields(*node));
                    assert(spec_window_of(w, own[0]));
                }
                windows.push(w);
            } else {
                proof {
                    assert(!spec_node_yields(*node));
                }
            }
        },
        _ => {
            proof {
                assert(!spec_node_yields(*node));
            }
        },
    }
    let mut i: usize = 0;
    while i < node.nodes.len()
        invariant
            0 <= i <= node.nodes@.len(),
            own == (if spec_node_yields(*node) {
                seq![((*node).name->0@, spec_node_class(*node), spec_dec_int((*node).id as int))]
            } else {
                Seq::<(Seq<char>, Seq<char>, Seq<char>)>::empty()
            }),
            windows@.len() == base.len() + own.len() + spec_collect_list(
                node.nodes@.subrange(0, i as int),
            ).len(),
            forall|k: int| 0 <= k < base.len() ==> windows@[k] == base[k],
            forall|k: int|
                0 <= k < own.len() + spec_collect_list(node.nodes@.subrange(0, i as int)).len()
                    ==> spec_window_of(
                    #[trigger] windows@[base.len() + k],
                    (own + spec_collect_list(node.nodes@.subrange(0, i as int)))[k],
                ),
        decreases node.nodes@.len() - i,
    {
        let ghost before = windows@;
        let ghost done = spec_collect_list(node.nodes@.subrange(0, i as int));
        collect_sway_windows(&node.nodes[i], windows);
        proof {
            let child = spec_collect(node.nodes@[i as int]);
            assert(node.nodes@.subrange(0, i as int + 1) =~= node.nodes@.subrange(
                0,
                i as int,
            ).push(node.nodes@[i as int]));
            lemma_collect_list_push(node.nodes@.subrange(0, i as int), node.nodes@[i as int]);
            let done2 = spec_collect_list(node.nodes@.subrange(0, i as int + 1));
            assert(done2 == done + child);
            assert forall|k: int| 0 <= k < own.len() + done2.len() implies spec_window_of(
                #[trigger] windows@[base.len() + k],
                (own + done2)[k],
            ) by {
                if k < own.len() + done.len() {
                    assert(windows@[base.len() + k] == before[base.len() + k]);
                    assert(spec_window_of(before[base.len() + k], (own + done)[k]));
                    assert((own + done2)[k] == (own + done)[k]);
                } else {
                    let c = k - own.len() - done.len();
                    assert(windows@[before.len() + c] == windows@[base.len() + k]);
                    assert(spec_window_of(windows@[before.len() + c], child[c]));
                    assert((own + done2)[k] == child[c]);
                }
            }
        }
        i = i + 1;
    }
    proof {
        assert(node.nodes@.subrange(0, node.nodes@.len() as int) =~= node.nodes@);
    }
    let ghost mid = own + spec_collect_list(node.nodes@);
    let mut j: usize = 0;
    while j < node.floating_nodes.len()
        invariant
            0 <= j <= node.floating_nodes@.len(),
            mid == own + spec_collect_list(node.nodes@),
            windows@.len() == base.len() + mid.len() + spec_collect_list(
                node.floating_nodes@.subrange(0, j as int),
            ).len(),
            forall|k: int| 0 <= k < base.len() ==> windows@[k] == base[k],
            forall|k: int|
                0 <= k < mid.len() + spec_collect_list(
                    node.floating_nodes@.subrange(0, j as int),
                ).len() ==> spec_window_of(
                    #[trigger] windows@[base.len() + k],
                    (mid + spec_collect_list(node.floating_nodes@.subrange(0, j as int)))[k],
                ),
        decreases node.floating_nodes@.len() - j,
    {
        let ghost before = windows@;
        let ghost done = spec_collect_list(node.floating_nodes@.subrange(0, j as int));
        collect_sway_windows(&node.floating_nodes[j], windows);
        proof {
            let child = spec_collect(node.floating_nodes@[j as int]);
            assert(node.floating_nodes@.subrange(0, j as int + 1) =~= node.floating_nodes@.subrange(
                0,
                j as int,
            ).push(node.floating_nodes@[j as int]));
            lemma_collect_list_push(
                node.floating_nodes@.subrange(0, j as int),
                node.floating_nodes@[j as int],
            );
            let done2 = spec_collect_list(node.floating_nodes@.subrange(0, j as int + 1));
            assert(done2 == done + child);
            assert forall|k: int| 0 <= k < mid.len() + done2.len() implies spec_window_of(
                #[trigger] windows@[base.len() + k],
                (mid + done2)[k],
            ) by {
                if k < mid.len() + done.len() {
                    assert(windows@[base.len() + k] == before[base.len() + k]);
                    assert(spec_window_of(before[base.len() + k], (mid + done)[k]));
                    assert((mid + done2)[k] == (mid + done)[k]);
                } else {
                    let c = k - mid.len() - done.len();
                    assert(windows@[before.len() + c] == windows@[base.len() + k]);
                    assert(spec_window_of(windows@[before.len() + c], child[c]));
                    assert((mid + done2)[k] == child[c]);
                }
            }
        }
        j = j + 1;
    }
    proof {
        assert(node.floating_nodes@.subrange(0, node.floating_nodes@.len() as int)
            =~= node.floating_nodes@);
        assert(spec_collect(*node) == mid + spec_collect_list(node.floating_nodes@));
        assert forall|k: int| 0 <= k < spec_collect(*node).len() implies spec_window_of(
            #[trigger] windows@[base.len() + k],
            spec_collect(*node)[k],
        ) by {
            assert(spec_collect(*node)[k] == (mid + spec_collect_list(node.floating_nodes@))[k]);
        }
    }
}

/// How long a window snapshot stays fresh, in milliseconds./// How long a window snapshot stays fresh, in milliseconds.
pub open spec fn window_ttl_ms() -> u64 {
    400
}

/// The cached window snapshot with its last-refresh time.  A read within
/// the time-to-live returns the cached list; an older cache must be
/// refreshed by the caller, who queries the compositor and stores the
/// fresh list.
pub struct WindowsCache {
    /// The cached window list.
    pub entries: Vec<WindowEntry>,
    /// Clock reading when the list was stored.
    pub updated_at_ms: u64,
}

impl WindowsCache {
    /// An empty cache that is immediately stale.
    pub fn new() -> (r: WindowsCache)
        ensures
            r.entries@.len() == 0,
            r.updated_at_ms == 0,
    {
        WindowsCache { entries: Vec::new(), updated_at_ms: 0 }
    }

    /// Whether the cached list is still fresh at `now_ms`: less than the
    /// time-to-live has passed since the last store.
    pub fn is_fresh(&self, now_ms: u64) -> (r: bool)
        ensures
            r == !(now_ms >= self.updated_at_ms && now_ms - self.updated_at_ms
                >= window_ttl_ms()),
    {
        !(now_ms >= self.updated_at_ms && now_ms - self.updated_at_ms >= 400)
    }

    /// Replaces the snapshot wholesale with a freshly queried list.
    pub fn store(&mut self, entries: Vec<WindowEntry>, now_ms: u64)
        ensures
            final(self).entries@ == entries@,
            final(self).updated_at_ms == now_ms,
    {
        self.entries = entries;
        self.updated_at_ms = now_ms;
    }

    /// The cached list.
    pub fn read(&self) -> (r: &Vec<WindowEntry>)
        ensures
            r@ == self.entries@,
    {
        &self.entries
    }
}

/// The open-window list as of `now_ms`: the cached list while it is
/// fresh, and nothing when the cache has gone stale — the caller must
/// then query the compositor and store the fresh list.
pub fn list_windows(cache: &WindowsCache, now_ms: u64) -> (r: Option<&Vec<WindowEntry>>)
    ensures
        r is Some <==> !(now_ms >= cache.updated_at_ms && now_ms - cache.updated_at_ms
            >= window_ttl_ms()),
        r is Some ==> r->0@ == cache.entries@,
{
    if cache.is_fresh(now_ms) {
        Some(&cache.entries)
    } else {
        None
    }
}

} // verus!
