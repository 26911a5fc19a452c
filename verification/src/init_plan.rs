//! Runtime initialization planning from the plugin dependency graph: a
//! plugin is started when some non-provider plugin depends on it, directly
//! or through other plugins; providers that nothing reaches are skipped.

use vstd::prelude::*;
use crate::text::chars_of;

verus! {

/// Role of a plugin in the dependency graph.
#[derive(Debug, Clone, Copy, PartialEq, Eq, Structural)]
pub enum DependencyKind {
    /// Supplies data (rule sets, address lists) to other plugins.
    Provider,
    /// Matches requests.
    Matcher,
    /// Acts on requests.
    Executor,
    /// Accepts requests from clients.
    Server,
}

/// A plugin in the dependency graph.
#[derive(Debug)]
pub struct DependencyGraphNode {
    pub tag: String,
    pub plugin_type: String,
    pub kind: DependencyKind,
}

/// `source_tag` depends on `target_tag` through its config field `field`.
#[derive(Debug)]
pub struct DependencyGraphEdge {
    pub source_tag: String,
    pub target_tag: String,
    pub field: String,
}

/// A sequence of steps run by the plugin `tag`.
#[derive(Debug)]
pub struct SequenceFlow {
    pub tag: String,
}

/// The analysed dependency graph.
#[derive(Debug)]
pub struct DependencyGraphReport {
    pub nodes: Vec<DependencyGraphNode>,
    pub edges: Vec<DependencyGraphEdge>,
    pub init_order: Vec<String>,
    pub sequence_flows: Vec<SequenceFlow>,
}

/// A provider left out of the runtime because nothing depends on it.
#[derive(Debug)]
pub struct SkippedProvider {
    pub tag: String,
    pub plugin_type: String,
}

/// The graph restricted to the plugins to start, and the providers left
/// out.
#[derive(Debug)]
pub struct RuntimeInitPlan {
    pub report: DependencyGraphReport,
    pub skipped_providers: Vec<SkippedProvider>,
}

/// `t` is the tag of a plugin that is not a provider: a start of the walk.
pub open spec fn spec_is_root(r: DependencyGraphReport, t: Seq<char>) -> bool {
    exists|i: int| 0 <= i < r.nodes@.len() && r.nodes@[i].kind != DependencyKind::Provider && #[trigger] r.nodes@[i].tag@ == t
}

/// Some plugin `s` depends on `t`.
pub open spec fn spec_has_edge(r: DependencyGraphReport, s: Seq<char>, t: Seq<char>) -> bool {
    exists|i: int| 0 <= i < r.edges@.len() && #[trigger] r.edges@[i].source_tag@ == s && r.edges@[i].target_tag@ == t
}

/// `p` is a chain of dependencies starting at a non-provider plugin.
pub open spec fn spec_is_path(r: DependencyGraphReport, p: Seq<Seq<char>>) -> bool {
    &&& p.len() > 0
    &&& spec_is_root(r, p[0])
    &&& forall|i: int| 0 <= i < p.len() - 1 ==> spec_has_edge(r, #[trigger] p[i], p[i + 1])
}

/// The plugin `t` is live: a chain of dependencies leads to it from a
/// plugin that is not a provider.
pub open spec fn spec_live(r: DependencyGraphReport, t: Seq<char>) -> bool {
    exists|p: Seq<Seq<char>>| #[trigger] spec_is_path(r, p) && p.last() == t
}

/// Nodes of `ns` whose tag is live, in order.
pub open spec fn spec_live_nodes(r: DependencyGraphReport, ns: Seq<DependencyGraphNode>) -> Seq<DependencyGraphNode>
    decreases ns.len(),
{
    if ns.len() == 0 {
        ns
    } else if spec_live(r, ns.last().tag@) {
        spec_live_nodes(r, ns.drop_last()).push(ns.last())
    } else {
        spec_live_nodes(r, ns.drop_last())
    }
}

/// Edges of `es` whose two ends are live, in order.
pub open spec fn spec_live_edges(r: DependencyGraphReport, es: Seq<DependencyGraphEdge>) -> Seq<DependencyGraphEdge>
    decreases es.len(),
{
    if es.len() == 0 {
        es
    } else if spec_live(r, es.last().source_tag@) && spec_live(r, es.last().target_tag@) {
        spec_live_edges(r, es.drop_last()).push(es.last())
    } else {
        spec_live_edges(r, es.drop_last())
    }
}

/// Tags of `ts` that are live, in order.
pub open spec fn spec_live_tags(r: DependencyGraphReport, ts: Seq<String>) -> Seq<String>
    decreases ts.len(),
{
    if ts.len() == 0 {
        ts
    } else if spec_live(r, ts.last()@) {
        spec_live_tags(r, ts.drop_last()).push(ts.last())
    } else {
        spec_live_tags(r, ts.drop_last())
    }
}

/// Sequence flows of `fs` whose plugin is live, in order.
pub open spec fn spec_live_flows(r: DependencyGraphReport, fs: Seq<SequenceFlow>) -> Seq<SequenceFlow>
    decreases fs.len(),
{
    if fs.len() == 0 {
        fs
    } else if spec_live(r, fs.last().tag@) {
        spec_live_flows(r, fs.drop_last()).push(fs.last())
    } else {
        spec_live_flows(r, fs.drop_last())
    }
}

/// Tag and plugin type of every provider of `ns` that is not live, in
/// order.
pub open spec fn spec_skipped(r: DependencyGraphReport, ns: Seq<DependencyGraphNode>) -> Seq<(Seq<char>, Seq<char>)>
    decreases ns.len(),
{
    if ns.len() == 0 {
        Seq::empty()
    } else if ns.last().kind == DependencyKind::Provider && !spec_live(r, ns.last().tag@) {
        spec_skipped(r, ns.drop_last()).push((ns.last().tag@, ns.last().plugin_type@))
    } else {
        spec_skipped(r, ns.drop_last())
    }
}

/// Strict lexicographic order of character sequences by code point (the
/// order of `String`).
pub open spec fn spec_str_lt(a: Seq<char>, b: Seq<char>) -> bool
    decreases a.len(),
{
    if a.len() == 0 {
        b.len() > 0
    } else if b.len() == 0 {
        false
    } else if a[0] < b[0] {
        true
    } else if a[0] > b[0] {
        false
    } else {
        spec_str_lt(a.drop_first(), b.drop_first())
    }
}

/// Strict order of (tag, plugin type) pairs: by tag, then by type.
pub open spec fn spec_pair_lt(x: (Seq<char>, Seq<char>), y: (Seq<char>, Seq<char>)) -> bool {
    spec_str_lt(x.0, y.0) || (x.0 == y.0 && spec_str_lt(x.1, y.1))
}

/// `s` is in ascending pair order.
pub open spec fn spec_pairs_sorted(s: Seq<(Seq<char>, Seq<char>)>) -> bool {
    forall|i: int, j: int| 0 <= i < j < s.len() ==> !spec_pair_lt(#[trigger] s[j], #[trigger] s[i])
}

/// Tag and plugin type of skipped providers.
pub open spec fn spec_skipped_views(s: Seq<SkippedProvider>) -> Seq<(Seq<char>, Seq<char>)> {
    s.map_values(|x: SkippedProvider| (x.tag@, x.plugin_type@))
}

proof fn lemma_str_lt_trans(a: Seq<char>, b: Seq<char>, c: Seq<char>)
    requires
        spec_str_lt(a, b),
        spec_str_lt(b, c),
    ensures
        spec_str_lt(a, c),
    decreases a.len(),
{
    if a.len() > 0 && b.len() > 0 && c.len() > 0 && a[0] == b[0] && b[0] == c[0] {
        lemma_str_lt_trans(a.drop_first(), b.drop_first(), c.drop_first());
    }
}

proof fn lemma_str_lt_total(a: Seq<char>, b: Seq<char>)
    ensures
        spec_str_lt(a, b) || spec_str_lt(b, a) || a == b,
        !(spec_str_lt(a, b) && spec_str_lt(b, a)),
    decreases a.len(),
{
    if a.len() > 0 && b.len() > 0 && a[0] == b[0] {
        lemma_str_lt_total(a.drop_first(), b.drop_first());
        if a.drop_first() == b.drop_first() {
            assert(a =~= seq![a[0]] + a.drop_first());
            assert(b =~= seq![b[0]] + b.drop_first());
        }
    } else if a.len() > 0 && b.len() > 0 {
        assert(a[0] != b[0]);
    } else if a.len() == 0 && b.len() == 0 {
        assert(a =~= b);
    }
}

proof fn lemma_pair_order(x: (Seq<char>, Seq<char>), y: (Seq<char>, Seq<char>), z: (Seq<char>, Seq<char>))
    ensures
        spec_pair_lt(x, y) || spec_pair_lt(y, x) || x == y,
        spec_pair_lt(x, y) && spec_pair_lt(y, z) ==> spec_pair_lt(x, z),
        !(spec_pair_lt(x, y) && spec_pair_lt(y, x)),
{
    lemma_str_lt_total(x.0, y.0);
    lemma_str_lt_total(x.1, y.1);
    lemma_str_lt_total(y.0, z.0);
    lemma_str_lt_total(x.0, z.0);
    if spec_pair_lt(x, y) && spec_pair_lt(y, z) {
        if spec_str_lt(x.0, y.0) && spec_str_lt(y.0, z.0) {
            lemma_str_lt_trans(x.0, y.0, z.0);
        } else if x.0 == y.0 && y.0 == z.0 {
            lemma_str_lt_trans(x.1, y.1, z.1);
        }
    }
}

/// `a` comes before `b` in `String` order.
pub(crate) fn str_lt(a: &String, b: &String) -> (r: bool)
    ensures
        r == spec_str_lt(a@, b@),
{
    let x = chars_of(a.as_str());
    let y = chars_of(b.as_str());
    let mut i: usize = 0;
    proof {
        assert(x@.skip(0) =~= x@);
        assert(y@.skip(0) =~= y@);
    }
    while i < x.len() && i < y.len()
        invariant
            i <= x@.len(),
            i <= y@.len(),
            x@ == a@,
            y@ == b@,
            x@.subrange(0, i as int) == y@.subrange(0, i as int),
            spec_str_lt(a@, b@) == spec_str_lt(x@.skip(i as int), y@.skip(i as int)),
        decreases x.len() - i,
    {
        let p = x[i];
        let q = y[i];
        proof {
            assert(x@.skip(i as int)[0] == x@[i as int]);
            assert(y@.skip(i as int)[0] == y@[i as int]);
        }
        if p < q {
            return true;
        }
        if p > q {
            return false;
        }
        proof {
            assert(x@.skip(i as int).drop_first() =~= x@.skip(i + 1));
            assert(y@.skip(i as int).drop_first() =~= y@.skip(i + 1));
            assert(x@[i as int] == y@[i as int]);
            assert(x@.subrange(0, i + 1) =~= x@.subrange(0, i as int).push(x@[i as int]));
            assert(y@.subrange(0, i + 1) =~= y@.subrange(0, i as int).push(y@[i as int]));
        }
        i = i + 1;
    }
    i == x.len() && i < y.len()
}

/// `(tag, plugin_type)` of `a` comes before that of `b`.
fn pair_lt(a: &SkippedProvider, b: &SkippedProvider) -> (r: bool)
    ensures
        r == spec_pair_lt((a.tag@, a.plugin_type@), (b.tag@, b.plugin_type@)),
{
    if str_lt(&a.tag, &b.tag) {
        return true;
    }
    a.tag == b.tag && str_lt(&a.plugin_type, &b.plugin_type)
}

/// Tags held in `v`.
pub open spec fn spec_tags(v: Seq<String>) -> Seq<Seq<char>> {
    v.map_values(|s: String| s@)
}

fn contains_tag(v: &Vec<String>, t: &String) -> (r: bool)
    ensures
        r == spec_tags(v@).contains(t@),
{
    let mut i: usize = 0;
    while i < v.len()
        invariant
            i <= v@.len(),
            forall|j: int| 0 <= j < i ==> v@[j]@ != t@,
        decreases v.len() - i,
    {
        if v[i] == *t {
            proof {
                assert(spec_tags(v@)[i as int] == t@);
            }
            return true;
        }
        i = i + 1;
    }
    proof {
        if spec_tags(v@).contains(t@) {
            let k = choose|k: int| 0 <= k < spec_tags(v@).len() && spec_tags(v@)[k] == t@;
            assert(v@[k]@ == t@);
        }
    }
    false
}

/// Every edge leaving `x` ends at a tag in `live`.
pub open spec fn spec_done(r: DependencyGraphReport, live: Seq<Seq<char>>, x: Seq<char>) -> bool {
    forall|i: int| 0 <= i < r.edges@.len() && #[trigger] r.edges@[i].source_tag@ == x ==> live.contains(r.edges@[i].target_tag@)
}

/// Tags a walk can meet: node tags and edge targets.
pub open spec fn spec_universe(r: DependencyGraphReport) -> Set<Seq<char>> {
    Set::new(|t: Seq<char>| (exists|i: int| 0 <= i < r.nodes@.len() && #[trigger] r.nodes@[i].tag@ == t) || (exists|
        i: int,
    | 0 <= i < r.edges@.len() && #[trigger] r.edges@[i].target_tag@ == t))
}

proof fn lemma_universe_finite(r: DependencyGraphReport)
    ensures
        spec_universe(r).finite(),
{
    let a = r.nodes@.map_values(|n: DependencyGraphNode| n.tag@);
    let b = r.edges@.map_values(|e: DependencyGraphEdge| e.target_tag@);
    let s = (a + b).to_set();
    assert forall|t: Seq<char>| spec_universe(r).contains(t) implies s.contains(t) by {
        if exists|i: int| 0 <= i < r.nodes@.len() && #[trigger] r.nodes@[i].tag@ == t {
            let i = choose|i: int| 0 <= i < r.nodes@.len() && #[trigger] r.nodes@[i].tag@ == t;
            assert((a + b)[i] == t);
        } else {
            let i = choose|i: int| 0 <= i < r.edges@.len() && #[trigger] r.edges@[i].target_tag@ == t;
            assert((a + b)[a.len() + i] == t);
        }
    }
    vstd::seq_lib::seq_to_set_is_finite(a + b);
    vstd::set_lib::lemma_len_subset(spec_universe(r), s);
}

proof fn lemma_live_bounded(r: DependencyGraphReport, live: Seq<Seq<char>>)
    requires
        live.no_duplicates(),
        forall|x: Seq<char>| live.contains(x) ==> spec_universe(r).contains(x),
    ensures
        live.len() <= spec_universe(r).len(),
{
    lemma_universe_finite(r);
    live.unique_seq_to_set();
    assert(live.to_set().subset_of(spec_universe(r)));
    vstd::set_lib::lemma_len_subset(live.to_set(), spec_universe(r));
}

/// Every live tag is in `live` once it holds the roots and is closed
/// under edges.
proof fn lemma_closed_holds_live(r: DependencyGraphReport, live: Seq<Seq<char>>, p: Seq<Seq<char>>, k: int)
    requires
        spec_is_path(r, p),
        0 <= k < p.len(),
        forall|x: Seq<char>| spec_is_root(r, x) ==> live.contains(x),
        forall|x: Seq<char>| live.contains(x) ==> spec_done(r, live, x),
    ensures
        live.contains(p[k]),
    decreases k,
{
    if k > 0 {
        lemma_closed_holds_live(r, live, p, k - 1);
        assert(spec_has_edge(r, p[k - 1], p[k]));
        let i = choose|i: int| 0 <= i < r.edges@.len() && #[trigger] r.edges@[i].source_tag@ == p[k - 1] && r.edges@[i].target_tag@ == p[k];
        assert(spec_done(r, live, p[k - 1]));
    }
}

proof fn lemma_path_extend(r: DependencyGraphReport, t: Seq<char>, e: int)
    requires
        spec_live(r, t),
        0 <= e < r.edges@.len(),
        r.edges@[e].source_tag@ == t,
    ensures
        spec_live(r, r.edges@[e].target_tag@),
{
    let p = choose|p: Seq<Seq<char>>| #[trigger] spec_is_path(r, p) && p.last() == t;
    let q = p.push(r.edges@[e].target_tag@);
    assert(spec_has_edge(r, p.last(), r.edges@[e].target_tag@));
    assert forall|i: int| 0 <= i < q.len() - 1 implies spec_has_edge(r, #[trigger] q[i], q[i + 1]) by {
        if i < p.len() - 1 {
            assert(q[i] == p[i] && q[i + 1] == p[i + 1]);
            assert(spec_has_edge(r, p[i], p[i + 1]));
        }
    }
    assert(spec_is_path(r, q));
}

proof fn lemma_root_live(r: DependencyGraphReport, t: Seq<char>)
    requires
        spec_is_root(r, t),
    ensures
        spec_live(r, t),
{
    let p = seq![t];
    assert(spec_is_path(r, p));
}

/// Tags that non-provider plugins lead to, found by a depth-first walk;
/// exactly the live tags.
fn live_tags(report: &DependencyGraphReport) -> (live: Vec<String>)
    ensures
        forall|t: Seq<char>| spec_tags(live@).contains(t) <==> spec_live(*report, t),
{
    let ghost r = *report;
    let mut live: Vec<String> = Vec::new();
    let mut stack: Vec<String> = Vec::new();
    let mut i: usize = 0;
    while i < report.nodes.len()
        invariant
            r == *report,
            i <= report.nodes@.len(),
            spec_tags(live@).no_duplicates(),
            spec_tags(stack@) == spec_tags(live@),
            forall|x: Seq<char>| spec_tags(live@).contains(x) ==> spec_live(r, x),
            forall|x: Seq<char>| spec_tags(live@).contains(x) ==> spec_universe(r).contains(x),
            forall|j: int| 0 <= j < i && report.nodes@[j].kind != DependencyKind::Provider ==> spec_tags(
                live@,
            ).contains(#[trigger] report.nodes@[j].tag@),
        decreases report.nodes.len() - i,
    {
        let node = &report.nodes[i];
        if node.kind != DependencyKind::Provider && !contains_tag(&live, &node.tag) {
            let ghost before = spec_tags(live@);
            proof {
                assert(r.nodes@[i as int].tag@ == node.tag@);
                assert(spec_is_root(r, node.tag@));
                lemma_root_live(r, node.tag@);
                assert(spec_universe(r).contains(report.nodes@[i as int].tag@));
            }
            live.push(node.tag.clone());
            stack.push(node.tag.clone());
            proof {
                assert(spec_tags(live@) =~= before.push(node.tag@));
                assert(spec_tags(stack@) =~= before.push(node.tag@));
                assert forall|x: Seq<char>| spec_tags(live@).contains(x) implies before.contains(x) || x == node.tag@ by {
                    let k = choose|k: int| 0 <= k < spec_tags(live@).len() && spec_tags(live@)[k] == x;
                    if k < before.len() {
                        assert(before[k] == x);
                    }
                }
                assert forall|x: Seq<char>| before.contains(x) implies spec_tags(live@).contains(x) by {
                    let k = choose|k: int| 0 <= k < before.len() && before[k] == x;
                    assert(spec_tags(live@)[k] == x);
                }
                assert(spec_tags(live@)[before.len() as int] == node.tag@);
            }
        }
        i = i + 1;
    }
    proof {
        assert forall|x: Seq<char>| spec_tags(live@).contains(x) implies spec_tags(stack@).contains(x) || spec_done(
            r,
            spec_tags(live@),
            x,
        ) by {}
        assert forall|x: Seq<char>| spec_is_root(r, x) implies spec_tags(live@).contains(x) by {
            let j = choose|j: int| 0 <= j < r.nodes@.len() && r.nodes@[j].kind != DependencyKind::Provider && #[trigger] r.nodes@[j].tag@ == x;
        }
    }
    while stack.len() > 0
        invariant
            r == *report,
            spec_tags(live@).no_duplicates(),
            forall|x: Seq<char>| spec_tags(stack@).contains(x) ==> spec_tags(live@).contains(x),
            forall|x: Seq<char>| spec_tags(live@).contains(x) ==> spec_live(r, x),
            forall|x: Seq<char>| spec_tags(live@).contains(x) ==> spec_universe(r).contains(x),
            forall|x: Seq<char>| spec_is_root(r, x) ==> spec_tags(live@).contains(x),
            forall|x: Seq<char>| spec_tags(live@).contains(x) ==> spec_tags(stack@).contains(x) || spec_done(
                r,
                spec_tags(live@),
                x,
            ),
        decreases spec_universe(r).len() - live@.len(), stack@.len(),
    {
        proof {
            lemma_live_bounded(r, spec_tags(live@));
        }
        let ghost st_before = spec_tags(stack@);
        let t = stack.pop().unwrap();
        let ghost live0 = live@.len();
        let ghost stack0 = stack@.len();
        proof {
            assert(st_before[st_before.len() - 1] == t@);
            assert(st_before.contains(t@));
            assert forall|x: Seq<char>| st_before.contains(x) implies spec_tags(stack@).contains(x) || x == t@ by {
                let q = choose|q: int| 0 <= q < st_before.len() && st_before[q] == x;
                if q < st_before.len() - 1 {
                    assert(spec_tags(stack@)[q] == x);
                }
            }
            assert forall|x: Seq<char>| spec_tags(stack@).contains(x) implies st_before.contains(x) by {
                let q = choose|q: int| 0 <= q < spec_tags(stack@).len() && spec_tags(stack@)[q] == x;
                assert(st_before[q] == x);
            }
        }
        let mut k: usize = 0;
        while k < report.edges.len()
            invariant
                r == *report,
                k <= report.edges@.len(),
                live0 <= live@.len(),
                stack0 + (live@.len() - live0) == stack@.len(),
                spec_tags(live@).contains(t@),
                spec_tags(live@).no_duplicates(),
                forall|x: Seq<char>| spec_tags(stack@).contains(x) ==> spec_tags(live@).contains(x),
                forall|x: Seq<char>| spec_tags(live@).contains(x) ==> spec_live(r, x),
                forall|x: Seq<char>| spec_tags(live@).contains(x) ==> spec_universe(r).contains(x),
                forall|x: Seq<char>| spec_is_root(r, x) ==> spec_tags(live@).contains(x),
                forall|x: Seq<char>| spec_tags(live@).contains(x) ==> spec_tags(stack@).contains(x) || x == t@
                    || spec_done(r, spec_tags(live@), x),
                forall|j: int| 0 <= j < k && #[trigger] report.edges@[j].source_tag@ == t@ ==> spec_tags(live@).contains(
                    report.edges@[j].target_tag@,
                ),
            decreases report.edges.len() - k,
        {
            let edge = &report.edges[k];
            if edge.source_tag == t && !contains_tag(&live, &edge.target_tag) {
                let ghost lb = spec_tags(live@);
                let ghost sb = spec_tags(stack@);
                proof {
                    lemma_path_extend(r, t@, k as int);
                    assert(spec_universe(r).contains(report.edges@[k as int].target_tag@));
                }
                live.push(edge.target_tag.clone());
                stack.push(edge.target_tag.clone());
                proof {
                    let y = edge.target_tag@;
                    assert(spec_tags(live@) =~= lb.push(y));
                    assert(spec_tags(stack@) =~= sb.push(y));
                    assert forall|x: Seq<char>| lb.contains(x) implies spec_tags(live@).contains(x) by {
                        let q = choose|q: int| 0 <= q < lb.len() && lb[q] == x;
                        assert(spec_tags(live@)[q] == x);
                    }
                    assert forall|x: Seq<char>| sb.contains(x) implies spec_tags(stack@).contains(x) by {
                        let q = choose|q: int| 0 <= q < sb.len() && sb[q] == x;
                        assert(spec_tags(stack@)[q] == x);
                    }
                    assert(spec_tags(live@)[lb.len() as int] == y);
                    assert(spec_tags(stack@)[sb.len() as int] == y);
                    assert(spec_tags(live@).contains(y));
                    assert(spec_tags(stack@).contains(y));
                    assert forall|x: Seq<char>| spec_tags(live@).contains(x) implies lb.contains(x) || x == y by {
                        let q = choose|q: int| 0 <= q < spec_tags(live@).len() && spec_tags(live@)[q] == x;
                        if q < lb.len() {
                            assert(lb[q] == x);
                        }
                    }
                    assert forall|x: Seq<char>| spec_tags(stack@).contains(x) implies sb.contains(x) || x == y by {
                        let q = choose|q: int| 0 <= q < spec_tags(stack@).len() && spec_tags(stack@)[q] == x;
                        if q < sb.len() {
                            assert(sb[q] == x);
                        }
                    }
                    assert forall|x: Seq<char>| spec_done(r, lb, x) implies spec_done(r, spec_tags(live@), x) by {
                        assert forall|e: int| 0 <= e < r.edges@.len() && #[trigger] r.edges@[e].source_tag@ == x implies spec_tags(
                            live@,
                        ).contains(r.edges@[e].target_tag@) by {
                            assert(lb.contains(r.edges@[e].target_tag@));
                        }
                    }
                    assert forall|x: Seq<char>| spec_tags(stack@).contains(x) implies spec_tags(live@).contains(x) by {
                        if x != y {
                            assert(sb.contains(x));
                            assert(lb.contains(x));
                        }
                    }
                    assert forall|x: Seq<char>| spec_tags(live@).contains(x) implies spec_tags(stack@).contains(x) || x
                        == t@ || spec_done(r, spec_tags(live@), x) by {
                        if x != y {
                            assert(lb.contains(x));
                            if !sb.contains(x) && x != t@ {
                                assert(spec_done(r, lb, x));
                            }
                        }
                    }
                }
            }
            k = k + 1;
        }
        proof {
            assert(spec_done(r, spec_tags(live@), t@));
            let st = spec_tags(stack@);
            assert forall|x: Seq<char>| spec_tags(live@).contains(x) implies st.contains(x) || spec_done(
                r,
                spec_tags(live@),
                x,
            ) by {}
            lemma_live_bounded(r, spec_tags(live@));
        }
    }
    proof {
        assert forall|t: Seq<char>| spec_live(r, t) implies spec_tags(live@).contains(t) by {
            let p = choose|p: Seq<Seq<char>>| #[trigger] spec_is_path(r, p) && p.last() == t;
            assert forall|x: Seq<char>| spec_tags(live@).contains(x) implies spec_done(r, spec_tags(live@), x) by {
                assert(!spec_tags(stack@).contains(x));
            }
            lemma_closed_holds_live(r, spec_tags(live@), p, p.len() - 1);
        }
    }
    live
}

/// Insert `item` after every provider ordered no later than it.
fn insert_sorted(v: &mut Vec<SkippedProvider>, item: SkippedProvider)
    requires
        spec_pairs_sorted(spec_skipped_views(old(v)@)),
    ensures
        spec_pairs_sorted(spec_skipped_views(final(v)@)),
        spec_skipped_views(final(v)@).to_multiset() == spec_skipped_views(old(v)@).to_multiset().insert(
            (item.tag@, item.plugin_type@),
        ),
{
    let ghost s = spec_skipped_views(v@);
    let ghost x = (item.tag@, item.plugin_type@);
    let mut j: usize = 0;
    while j < v.len() && !pair_lt(&item, &v[j])
        invariant
            j <= v@.len(),
            s == spec_skipped_views(v@),
            spec_pairs_sorted(s),
            x == (item.tag@, item.plugin_type@),
            forall|a: int| 0 <= a < j ==> !spec_pair_lt(x, #[trigger] s[a]),
        decreases v.len() - j,
    {
        j = j + 1;
    }
    v.insert(j, item);
    proof {
        let n = spec_skipped_views(v@);
        assert(n =~= s.insert(j as int, x));
        vstd::seq_lib::to_multiset_insert(s, j as int, x);
        assert forall|a: int, b: int| 0 <= a < b < n.len() implies !spec_pair_lt(#[trigger] n[b], #[trigger] n[a]) by {
            if b == j {
                assert(n[a] == s[a]);
            } else if a == j {
                assert(n[b] == s[b - 1]);
                assert(spec_pair_lt(x, s[j as int]));
                lemma_pair_order(s[b - 1], x, s[j as int]);
                if b - 1 > j {
                    assert(!spec_pair_lt(s[b - 1], s[j as int]));
                }
            } else {
                let oa = if a < j { a } else { a - 1 };
                let ob = if b < j { b } else { b - 1 };
                assert(n[a] == s[oa] && n[b] == s[ob]);
                assert(oa < ob);
            }
        }
    }
}

/// A copy of `s`.
fn copy_string(s: &String) -> (r: String)
    ensures
        r == *s,
{
    s.clone()
}

/// Restrict the dependency graph to the plugins that non-provider plugins
/// need, and list the providers left out, ordered by tag and plugin type.
pub fn build_runtime_init_plan(report: &DependencyGraphReport) -> (plan: RuntimeInitPlan)
    ensures
        plan.report.nodes@ == spec_live_nodes(*report, report.nodes@),
        plan.report.edges@ == spec_live_edges(*report, report.edges@),
        plan.report.init_order@ == spec_live_tags(*report, report.init_order@),
        plan.report.sequence_flows@ == spec_live_flows(*report, report.sequence_flows@),
        spec_pairs_sorted(spec_skipped_views(plan.skipped_providers@)),
        spec_skipped_views(plan.skipped_providers@).to_multiset() == spec_skipped(*report, report.nodes@).to_multiset(),
{
    let ghost r = *report;
    let live = live_tags(report);
    let mut skipped: Vec<SkippedProvider> = Vec::new();
    let mut nodes: Vec<DependencyGraphNode> = Vec::new();
    let mut i: usize = 0;
    proof {
        assert(spec_skipped_views(skipped@) =~= Seq::<(Seq<char>, Seq<char>)>::empty());
        assert(report.nodes@.take(0).len() == 0);
        assert(spec_skipped(r, report.nodes@.take(0)) =~= Seq::<(Seq<char>, Seq<char>)>::empty());
    }
    while i < report.nodes.len()
        invariant
            r == *report,
            i <= report.nodes@.len(),
            forall|t: Seq<char>| spec_tags(live@).contains(t) <==> spec_live(r, t),
            nodes@ == spec_live_nodes(r, report.nodes@.take(i as int)),
            spec_pairs_sorted(spec_skipped_views(skipped@)),
            spec_skipped_views(skipped@).to_multiset() == spec_skipped(r, report.nodes@.take(i as int)).to_multiset(),
        decreases report.nodes.len() - i,
    {
        let node = &report.nodes[i];
        let is_live = contains_tag(&live, &node.tag);
        proof {
            assert(report.nodes@.take(i + 1).drop_last() =~= report.nodes@.take(i as int));
            assert(report.nodes@.take(i + 1).last() == *node);
        }
        if node.kind == DependencyKind::Provider && !is_live {
            let item = SkippedProvider { tag: copy_string(&node.tag), plugin_type: copy_string(&node.plugin_type) };
            proof {
                let prev = spec_skipped(r, report.nodes@.take(i as int));
                vstd::seq_lib::to_multiset_build(prev, (node.tag@, node.plugin_type@));
            }
            insert_sorted(&mut skipped, item);
        }
        if is_live {
            nodes.push(
                DependencyGraphNode {
                    tag: copy_string(&node.tag),
                    plugin_type: copy_string(&node.plugin_type),
                    kind: node.kind,
                },
            );
        }
        i = i + 1;
    }
    proof {
        assert(report.nodes@.take(report.nodes@.len() as int) =~= report.nodes@);
    }
    let mut edges: Vec<DependencyGraphEdge> = Vec::new();
    let mut k: usize = 0;
    while k < report.edges.len()
        invariant
            r == *report,
            k <= report.edges@.len(),
            forall|t: Seq<char>| spec_tags(live@).contains(t) <==> spec_live(r, t),
            edges@ == spec_live_edges(r, report.edges@.take(k as int)),
        decreases report.edges.len() - k,
    {
        let edge = &report.edges[k];
        proof {
            assert(report.edges@.take(k + 1).drop_last() =~= report.edges@.take(k as int));
            assert(report.edges@.take(k + 1).last() == *edge);
        }
        if contains_tag(&live, &edge.source_tag) && contains_tag(&live, &edge.target_tag) {
            edges.push(
                DependencyGraphEdge {
                    source_tag: copy_string(&edge.source_tag),
                    target_tag: copy_string(&edge.target_tag),
                    field: copy_string(&edge.field),
                },
            );
        }
        k = k + 1;
    }
    proof {
        assert(report.edges@.take(report.edges@.len() as int) =~= report.edges@);
    }
    let mut init_order: Vec<String> = Vec::new();
    let mut k: usize = 0;
    while k < report.init_order.len()
        invariant
            r == *report,
            k <= report.init_order@.len(),
            forall|t: Seq<char>| spec_tags(live@).contains(t) <==> spec_live(r, t),
            init_order@ == spec_live_tags(r, report.init_order@.take(k as int)),
        decreases report.init_order.len() - k,
    {
        let tag = &report.init_order[k];
        proof {
            assert(report.init_order@.take(k + 1).drop_last() =~= report.init_order@.take(k as int));
            assert(report.init_order@.take(k + 1).last() == *tag);
        }
        if contains_tag(&live, tag) {
            init_order.push(copy_string(tag));
        }
        k = k + 1;
    }
    proof {
        assert(report.init_order@.take(report.init_order@.len() as int) =~= report.init_order@);
    }
    let mut flows: Vec<SequenceFlow> = Vec::new();
    let mut k: usize = 0;
    while k < report.sequence_flows.len()
        invariant
            r == *report,
            k <= report.sequence_flows@.len(),
            forall|t: Seq<char>| spec_tags(live@).contains(t) <==> spec_live(r, t),
            flows@ == spec_live_flows(r, report.sequence_flows@.take(k as int)),
        decreases report.sequence_flows.len() - k,
    {
        let flow = &report.sequence_flows[k];
        proof {
            assert(report.sequence_flows@.take(k + 1).drop_last() =~= report.sequence_flows@.take(k as int));
            assert(report.sequence_flows@.take(k + 1).last() == *flow);
        }
        if contains_tag(&live, &flow.tag) {
            flows.push(SequenceFlow { tag: copy_string(&flow.tag) });
        }
        k = k + 1;
    }
    proof {
        assert(report.sequence_flows@.take(report.sequence_flows@.len() as int) =~= report.sequence_flows@);
    }
    RuntimeInitPlan {
        report: DependencyGraphReport { nodes, edges, init_order, sequence_flows: flows },
        skipped_providers: skipped,
    }
}

/// A plugin that depends on another: its tag, type and kind, and the config
/// field holding the dependency.
#[derive(Debug)]
pub struct PluginDependent {
    pub tag: String,
    pub plugin_type: String,
    pub kind: DependencyKind,
    pub field: String,
}

/// What a plugin learns when it is created: the plugins that depend on it.
#[derive(Debug)]
pub struct PluginCreateContext {
    pub dependents: Vec<PluginDependent>,
}

/// Plain form of a dependent: tag, plugin type, kind and field.
pub open spec fn spec_dependent_view(d: PluginDependent) -> (Seq<char>, Seq<char>, DependencyKind, Seq<char>) {
    (d.tag@, d.plugin_type@, d.kind, d.field@)
}

/// Plain forms of a list of dependents.
pub open spec fn spec_dependent_views(ds: Seq<PluginDependent>) -> Seq<(Seq<char>, Seq<char>, DependencyKind, Seq<char>)> {
    ds.map_values(|d: PluginDependent| spec_dependent_view(d))
}

/// Strict order of dependents: by tag, then field, then plugin type.
pub open spec fn spec_dependent_lt(
    x: (Seq<char>, Seq<char>, DependencyKind, Seq<char>),
    y: (Seq<char>, Seq<char>, DependencyKind, Seq<char>),
) -> bool {
    spec_str_lt(x.0, y.0) || (x.0 == y.0 && (spec_str_lt(x.3, y.3) || (x.3 == y.3 && spec_str_lt(x.1, y.1))))
}

/// `s` is in ascending dependent order.
pub open spec fn spec_dependents_sorted(s: Seq<(Seq<char>, Seq<char>, DependencyKind, Seq<char>)>) -> bool {
    forall|i: int, j: int| 0 <= i < j < s.len() ==> !spec_dependent_lt(#[trigger] s[j], #[trigger] s[i])
}

proof fn lemma_dependent_order(
    x: (Seq<char>, Seq<char>, DependencyKind, Seq<char>),
    y: (Seq<char>, Seq<char>, DependencyKind, Seq<char>),
    z: (Seq<char>, Seq<char>, DependencyKind, Seq<char>),
)
    ensures
        spec_dependent_lt(x, y) && spec_dependent_lt(y, z) ==> spec_dependent_lt(x, z),
        !(spec_dependent_lt(x, y) && spec_dependent_lt(y, x)),
{
    lemma_pair_order((x.0, x.3), (y.0, y.3), (z.0, z.3));
    lemma_str_lt_total(x.1, y.1);
    lemma_str_lt_total(x.0, y.0);
    lemma_str_lt_total(x.3, y.3);
    if spec_dependent_lt(x, y) && spec_dependent_lt(y, z) {
        if x.0 == y.0 && y.0 == z.0 && x.3 == y.3 && y.3 == z.3 {
            lemma_str_lt_trans(x.1, y.1, z.1);
        }
        lemma_str_lt_total(y.0, z.0);
        lemma_str_lt_total(x.0, z.0);
        if spec_str_lt(x.0, y.0) && spec_str_lt(y.0, z.0) {
            lemma_str_lt_trans(x.0, y.0, z.0);
        }
        if x.0 == y.0 && y.0 == z.0 && spec_str_lt(x.3, y.3) && spec_str_lt(y.3, z.3) {
            lemma_str_lt_trans(x.3, y.3, z.3);
        }
    }
}

fn dependent_lt(a: &PluginDependent, b: &PluginDependent) -> (r: bool)
    ensures
        r == spec_dependent_lt(spec_dependent_view(*a), spec_dependent_view(*b)),
{
    if str_lt(&a.tag, &b.tag) {
        return true;
    }
    if a.tag != b.tag {
        return false;
    }
    if str_lt(&a.field, &b.field) {
        return true;
    }
    a.field == b.field && str_lt(&a.plugin_type, &b.plugin_type)
}

/// Insert `item` after every dependent ordered no later than it.
fn insert_dependent_sorted(v: &mut Vec<PluginDependent>, item: PluginDependent)
    requires
        spec_dependents_sorted(spec_dependent_views(old(v)@)),
    ensures
        spec_dependents_sorted(spec_dependent_views(final(v)@)),
        spec_dependent_views(final(v)@).to_multiset() == spec_dependent_views(old(v)@).to_multiset().insert(
            spec_dependent_view(item),
        ),
{
    let ghost s = spec_dependent_views(v@);
    let ghost x = spec_dependent_view(item);
    let mut j: usize = 0;
    while j < v.len() && !dependent_lt(&item, &v[j])
        invariant
            j <= v@.len(),
            s == spec_dependent_views(v@),
            spec_dependents_sorted(s),
            x == spec_dependent_view(item),
            forall|a: int| 0 <= a < j ==> !spec_dependent_lt(x, #[trigger] s[a]),
        decreases v.len() - j,
    {
        j = j + 1;
    }
    v.insert(j, item);
    proof {
        let n = spec_dependent_views(v@);
        assert(n =~= s.insert(j as int, x));
        vstd::seq_lib::to_multiset_insert(s, j as int, x);
        assert forall|a: int, b: int| 0 <= a < b < n.len() implies !spec_dependent_lt(#[trigger] n[b], #[trigger] n[a]) by {
            if b == j {
                assert(n[a] == s[a]);
            } else if a == j {
                assert(n[b] == s[b - 1]);
                assert(spec_dependent_lt(x, s[j as int]));
                lemma_dependent_order(s[b - 1], x, s[j as int]);
                if b - 1 > j {
                    assert(!spec_dependent_lt(s[b - 1], s[j as int]));
                }
            } else {
                let oa = if a < j { a } else { a - 1 };
                let ob = if b < j { b } else { b - 1 };
                assert(n[a] == s[oa] && n[b] == s[ob]);
                assert(oa < ob);
            }
        }
    }
}

/// The last node of `ns` with tag `t` (a later node of the same tag
/// replaces an earlier one).
pub open spec fn spec_node_for(ns: Seq<DependencyGraphNode>, t: Seq<char>) -> Option<DependencyGraphNode>
    decreases ns.len(),
{
    if ns.len() == 0 {
        None
    } else if ns.last().tag@ == t {
        Some(ns.last())
    } else {
        spec_node_for(ns.drop_last(), t)
    }
}

/// Dependents that the edges of `es` give to the plugin `t`, in edge
/// order; an edge whose source is not a node gives none.
pub open spec fn spec_dependents_of(
    ns: Seq<DependencyGraphNode>,
    es: Seq<DependencyGraphEdge>,
    t: Seq<char>,
) -> Seq<(Seq<char>, Seq<char>, DependencyKind, Seq<char>)>
    decreases es.len(),
{
    if es.len() == 0 {
        Seq::empty()
    } else {
        let e = es.last();
        let rest = spec_dependents_of(ns, es.drop_last(), t);
        match spec_node_for(ns, e.source_tag@) {
            Some(n) => if e.target_tag@ == t {
                rest.push((e.source_tag@, n.plugin_type@, n.kind, e.field@))
            } else {
                rest
            },
            None => rest,
        }
    }
}

/// Some edge of `es` whose source is a node ends at `t`.
pub open spec fn spec_has_dependents(ns: Seq<DependencyGraphNode>, es: Seq<DependencyGraphEdge>, t: Seq<char>) -> bool {
    exists|i: int| 0 <= i < es.len() && #[trigger] es[i].target_tag@ == t && spec_node_for(ns, es[i].source_tag@) is Some
}

proof fn lemma_no_dependents(ns: Seq<DependencyGraphNode>, es: Seq<DependencyGraphEdge>, t: Seq<char>)
    requires
        !spec_has_dependents(ns, es, t),
    ensures
        spec_dependents_of(ns, es, t) == Seq::<(Seq<char>, Seq<char>, DependencyKind, Seq<char>)>::empty(),
    decreases es.len(),
{
    if es.len() > 0 {
        assert forall|i: int| 0 <= i < es.drop_last().len() && #[trigger] es.drop_last()[i].target_tag@ == t implies spec_node_for(ns, es.drop_last()[i].source_tag@) is None by {
            assert(es[i] == es.drop_last()[i]);
        }
        lemma_no_dependents(ns, es.drop_last(), t);
        assert(es[es.len() - 1] == es.last());
    }
}

/// Index of the last node of `ns` with tag `t`.
fn find_node(ns: &Vec<DependencyGraphNode>, t: &String) -> (r: Option<usize>)
    ensures
        match spec_node_for(ns@, t@) {
            Some(n) => r matches Some(i) && i < ns@.len() && ns@[i as int] == n,
            None => r is None,
        },
{
    let mut i: usize = ns.len();
    proof {
        assert(ns@.take(ns@.len() as int) =~= ns@);
    }
    while i > 0
        invariant
            i <= ns@.len(),
            spec_node_for(ns@, t@) == spec_node_for(ns@.take(i as int), t@),
        decreases i,
    {
        proof {
            assert(ns@.take(i as int).drop_last() =~= ns@.take(i - 1));
            assert(ns@.take(i as int).last() == ns@[i - 1]);
        }
        if ns[i - 1].tag == *t {
            return Some(i - 1);
        }
        i = i - 1;
    }
    None
}

/// Tags of context entries.
pub open spec fn spec_entry_keys(es: Seq<(String, PluginCreateContext)>) -> Seq<Seq<char>> {
    es.map_values(|e: (String, PluginCreateContext)| e.0@)
}

/// The entries hold, for each tag, its dependents sorted, and as many of
/// each as the edges of `es` give.
pub open spec fn spec_entries_ok(
    ns: Seq<DependencyGraphNode>,
    es: Seq<DependencyGraphEdge>,
    entries: Seq<(String, PluginCreateContext)>,
) -> bool {
    &&& spec_entry_keys(entries).no_duplicates()
    &&& forall|t: Seq<char>| spec_entry_keys(entries).contains(t) <==> spec_has_dependents(ns, es, t)
    &&& forall|g: int| 0 <= g < entries.len() ==> spec_dependents_sorted(spec_dependent_views(#[trigger] entries[g].1.dependents@))
    &&& forall|g: int| 0 <= g < entries.len() ==> spec_dependent_views(#[trigger] entries[g].1.dependents@).to_multiset()
        == spec_dependents_of(ns, es, entries[g].0@).to_multiset()
}

/// For every plugin that others depend on, those dependents ordered by tag,
/// field and plugin type; one entry per plugin, in order of first mention.
pub fn build_create_contexts(report: &DependencyGraphReport) -> (r: Vec<(String, PluginCreateContext)>)
    ensures
        spec_entries_ok(report.nodes@, report.edges@, r@),
{
    let ghost ns = report.nodes@;
    let mut entries: Vec<(String, PluginCreateContext)> = Vec::new();
    let mut k: usize = 0;
    proof {
        assert(spec_entry_keys(entries@) =~= Seq::<Seq<char>>::empty());
        assert forall|t: Seq<char>| !spec_has_dependents(ns, report.edges@.take(0), t) by {}
    }
    while k < report.edges.len()
        invariant
            ns == report.nodes@,
            k <= report.edges@.len(),
            spec_entries_ok(ns, report.edges@.take(k as int), entries@),
        decreases report.edges.len() - k,
    {
        let edge = &report.edges[k];
        let ghost es0 = report.edges@.take(k as int);
        let ghost es1 = report.edges@.take(k + 1);
        let ghost before = entries@;
        proof {
            assert(es1.drop_last() =~= es0);
            assert(es1.last() == *edge);
        }
        match find_node(&report.nodes, &edge.source_tag) {
            None => {
                proof {
                    assert forall|t: Seq<char>| spec_has_dependents(ns, es1, t) <==> spec_has_dependents(ns, es0, t) by {
                        if spec_has_dependents(ns, es1, t) {
                            let i = choose|i: int| 0 <= i < es1.len() && #[trigger] es1[i].target_tag@ == t && spec_node_for(ns, es1[i].source_tag@) is Some;
                            assert(i != k);
                            assert(es0[i] == es1[i]);
                        }
                        if spec_has_dependents(ns, es0, t) {
                            let i = choose|i: int| 0 <= i < es0.len() && #[trigger] es0[i].target_tag@ == t && spec_node_for(ns, es0[i].source_tag@) is Some;
                            assert(es0[i] == es1[i]);
                        }
                    }
                    assert forall|u: Seq<char>| spec_dependents_of(ns, es1, u) == spec_dependents_of(ns, es0, u) by {}
                }
            },
            Some(ni) => {
                let node = &report.nodes[ni];
                let dep = PluginDependent {
                    tag: copy_string(&edge.source_tag),
                    plugin_type: copy_string(&node.plugin_type),
                    kind: node.kind,
                    field: copy_string(&edge.field),
                };
                let ghost d = spec_dependent_view(dep);
                let ghost t = edge.target_tag@;
                let mut g: usize = 0;
                while g < entries.len() && entries[g].0 != edge.target_tag
                    invariant
                        g <= entries@.len(),
                        forall|h: int| 0 <= h < g ==> entries@[h].0@ != edge.target_tag@,
                    decreases entries.len() - g,
                {
                    g = g + 1;
                }
                proof {
                    assert forall|u: Seq<char>| spec_has_dependents(ns, es1, u) <==> (spec_has_dependents(ns, es0, u) || u == t) by {
                        if spec_has_dependents(ns, es1, u) {
                            let i = choose|i: int| 0 <= i < es1.len() && #[trigger] es1[i].target_tag@ == u && spec_node_for(ns, es1[i].source_tag@) is Some;
                            if i < k {
                                assert(es0[i] == es1[i]);
                            }
                        }
                        if spec_has_dependents(ns, es0, u) {
                            let i = choose|i: int| 0 <= i < es0.len() && #[trigger] es0[i].target_tag@ == u && spec_node_for(ns, es0[i].source_tag@) is Some;
                            assert(es0[i] == es1[i]);
                        }
                        if u == t {
                            assert(es1[k as int].target_tag@ == u);
                        }
                    }
                    assert(spec_dependents_of(ns, es1, t) == spec_dependents_of(ns, es0, t).push(d));
                    assert forall|u: Seq<char>| u != t implies spec_dependents_of(ns, es1, u) == spec_dependents_of(ns, es0, u) by {}
                    vstd::seq_lib::to_multiset_build(spec_dependents_of(ns, es0, t), d);
                }
                if g < entries.len() {
                    let (key, ctx) = entries.remove(g);
                    let mut group = ctx.dependents;
                    insert_dependent_sorted(&mut group, dep);
                    entries.insert(g, (key, PluginCreateContext { dependents: group }));
                    proof {
                        let ks = spec_entry_keys(entries@);
                        assert(before[g as int].0@ == t);
                        assert forall|h: int| 0 <= h < entries@.len() && h != g implies #[trigger] entries@[h] == before[h] by {}
                        assert(ks =~= spec_entry_keys(before));
                        assert forall|h: int| 0 <= h < entries@.len() implies spec_dependents_sorted(spec_dependent_views(#[trigger] entries@[h].1.dependents@)) by {
                            if h != g {
                                assert(entries@[h] == before[h]);
                            }
                        }
                        assert forall|h: int| 0 <= h < entries@.len() implies spec_dependent_views(#[trigger] entries@[h].1.dependents@).to_multiset()
                            == spec_dependents_of(ns, es1, entries@[h].0@).to_multiset() by {
                            if h != g {
                                assert(entries@[h] == before[h]);
                                assert(ks[h] != ks[g as int]);
                            }
                        }
                        assert forall|u: Seq<char>| ks.contains(u) <==> spec_has_dependents(ns, es1, u) by {
                            if u == t {
                                assert(ks[g as int] == t);
                            }
                        }
                    }
                } else {
                    let ghost kb = spec_entry_keys(entries@);
                    proof {
                        assert(!kb.contains(t)) by {
                            if kb.contains(t) {
                                let h = choose|h: int| 0 <= h < kb.len() && kb[h] == t;
                                assert(entries@[h].0@ == t);
                            }
                        }
                        lemma_no_dependents(ns, es0, t);
                    }
                    let mut group: Vec<PluginDependent> = Vec::new();
                    proof {
                        assert(spec_dependent_views(group@) =~= Seq::<(Seq<char>, Seq<char>, DependencyKind, Seq<char>)>::empty());
                    }
                    insert_dependent_sorted(&mut group, dep);
                    entries.push((copy_string(&edge.target_tag), PluginCreateContext { dependents: group }));
                    proof {
                        let ks = spec_entry_keys(entries@);
                        assert(ks =~= kb.push(t));
                        assert forall|h: int| 0 <= h < before.len() implies #[trigger] entries@[h] == before[h] by {}
                        assert forall|h: int| 0 <= h < entries@.len() implies spec_dependents_sorted(spec_dependent_views(#[trigger] entries@[h].1.dependents@)) by {
                            if h < before.len() {
                                assert(entries@[h] == before[h]);
                            }
                        }
                        assert forall|h: int| 0 <= h < entries@.len() implies spec_dependent_views(#[trigger] entries@[h].1.dependents@).to_multiset()
                            == spec_dependents_of(ns, es1, entries@[h].0@).to_multiset() by {
                            if h < before.len() {
                                assert(entries@[h] == before[h]);
                                assert(kb[h] != t);
                            } else {
                                assert(spec_dependents_of(ns, es0, t) =~= Seq::<(Seq<char>, Seq<char>, DependencyKind, Seq<char>)>::empty());
                            }
                        }
                        assert forall|u: Seq<char>| ks.contains(u) <==> spec_has_dependents(ns, es1, u) by {
                            if u == t {
                                assert(ks[kb.len() as int] == t);
                            }
                            if ks.contains(u) && u != t {
                                let h = choose|h: int| 0 <= h < ks.len() && ks[h] == u;
                                assert(kb[h] == u);
                            }
                            if kb.contains(u) {
                                let h = choose|h: int| 0 <= h < kb.len() && kb[h] == u;
                                assert(ks[h] == u);
                            }
                        }
                    }
                }
            },
        }
        k = k + 1;
    }
    proof {
        assert(report.edges@.take(report.edges@.len() as int) =~= report.edges@);
    }
    entries
}

} // verus!
