//! Reconciling the labels that edge extracts name with the labels of the
//! node extracts.
use vstd::prelude::*;
use crate::text::{lower_of, lowercase, split_on, split_text, contains_char};
use crate::records::{Row, field_value};

verus! {

/// Node labels with their case-folded forms.
pub type NodeFolds = Seq<(Seq<char>, Seq<char>)>;

/// An edge label with its case-folded form and the case-folded forms of its
/// colon-separated parts.
pub type EdgeFold = (Seq<char>, Seq<char>, Seq<Seq<char>>);

/// An edge label prepared for reconciliation.
pub struct EdgeLabel {
    pub label: String,
    pub folded: String,
    pub part_folds: Vec<String>,
}

impl EdgeLabel {
    pub open spec fn view(&self) -> EdgeFold {
        (self.label@, self.folded@, self.part_folds.deep_view())
    }
}

/// How one edge label resolves against the node labels.
pub enum LabelMatch {
    /// The label is itself a node label.
    Exact,
    /// The label case-insensitively matches exactly one node label.
    Mapped(String),
    /// The label is a colon-joined list whose every part matches a node
    /// label case-insensitively; it is used as it stands.
    Composite,
    /// None of the above.
    Missing,
}

/// The outcome of resolution on the level of values.
pub enum Resolution {
    Exact,
    Mapped(Seq<char>),
    Composite,
    Missing,
}

impl LabelMatch {
    pub open spec fn view(&self) -> Resolution {
        match self {
            LabelMatch::Exact => Resolution::Exact,
            LabelMatch::Mapped(l) => Resolution::Mapped(l@),
            LabelMatch::Composite => Resolution::Composite,
            LabelMatch::Missing => Resolution::Missing,
        }
    }
}

pub open spec fn is_node_label(nodes: NodeFolds, l: Seq<char>) -> bool {
    exists|i: int| 0 <= i < nodes.len() && #[trigger] nodes[i].0 == l
}

/// Some node label folds to `f`.
pub open spec fn fold_hit(nodes: NodeFolds, f: Seq<char>) -> bool {
    exists|i: int| 0 <= i < nodes.len() && #[trigger] nodes[i].1 == f
}

/// `l` is the one node label that folds to `f`.
pub open spec fn sole_fold_match(nodes: NodeFolds, f: Seq<char>, l: Seq<char>) -> bool {
    &&& exists|i: int| 0 <= i < nodes.len() && #[trigger] nodes[i].1 == f && nodes[i].0 == l
    &&& forall|i: int| 0 <= i < nodes.len() && #[trigger] nodes[i].1 == f ==> nodes[i].0 == l
}

/// Resolution of an edge label: exact match first, then a sole
/// case-insensitive match, then a composite of matching parts.
pub open spec fn resolution(nodes: NodeFolds, e: EdgeFold) -> Resolution {
    if is_node_label(nodes, e.0) {
        Resolution::Exact
    } else if exists|l: Seq<char>| sole_fold_match(nodes, e.1, l) {
        Resolution::Mapped(choose|l: Seq<char>| sole_fold_match(nodes, e.1, l))
    } else if e.0.contains(':') && forall|j: int| 0 <= j < e.2.len() ==> fold_hit(nodes, #[trigger] e.2[j]) {
        Resolution::Composite
    } else {
        Resolution::Missing
    }
}

/// The mapping entry that a resolution gives an edge label, if any.
pub open spec fn entry_of(r: Resolution, e: Seq<char>) -> Option<(Seq<char>, Seq<char>)> {
    match r {
        Resolution::Exact => Some((e, e)),
        Resolution::Mapped(l) => Some((e, l)),
        _ => None,
    }
}

/// The mapping entries of the edge labels, in their order.
pub open spec fn label_entries(nodes: NodeFolds, edges: Seq<EdgeFold>) -> Seq<(Seq<char>, Seq<char>)>
    decreases edges.len(),
{
    if edges.len() == 0 {
        Seq::empty()
    } else {
        let rest = label_entries(nodes, edges.drop_last());
        match entry_of(resolution(nodes, edges.last()), edges.last().0) {
            Some(p) => rest.push(p),
            None => rest,
        }
    }
}

/// The edge labels that resolve to nothing, in their order.
pub open spec fn missing_labels(nodes: NodeFolds, edges: Seq<EdgeFold>) -> Seq<Seq<char>>
    decreases edges.len(),
{
    if edges.len() == 0 {
        Seq::empty()
    } else {
        let rest = missing_labels(nodes, edges.drop_last());
        if resolution(nodes, edges.last()) is Missing {
            rest.push(edges.last().0)
        } else {
            rest
        }
    }
}

/// Whether some node label folds to `f`.
pub fn has_fold(nodes: &Vec<(String, String)>, f: &String) -> (r: bool)
    ensures
        r == fold_hit(nodes.deep_view(), f@),
{
    let ghost nv = nodes.deep_view();
    for i in 0..nodes.len()
        invariant
            nv == nodes.deep_view(),
            forall|k: int| 0 <= k < i ==> nv[k].1 != f@,
    {
        if nodes[i].1 == *f {
            assert(nv[i as int].1 == f@);
            return true;
        }
    }
    false
}

/// Resolves one edge label against node labels given with their folds.
pub fn resolve_edge_label(nodes: &Vec<(String, String)>, edge: &EdgeLabel) -> (r: LabelMatch)
    ensures
        r@ == resolution(nodes.deep_view(), edge@),
{
    let ghost nv = nodes.deep_view();
    let n = nodes.len();
    for i in 0..n
        invariant
            n == nodes.len(),
            nv == nodes.deep_view(),
            forall|k: int| 0 <= k < i ==> nv[k].0 != edge.label@,
    {
        if nodes[i].0 == edge.label {
            assert(nv[i as int].0 == edge.label@);
            return LabelMatch::Exact;
        }
    }
    assert(!is_node_label(nv, edge@.0));
    let mut found: Option<usize> = None;
    let mut ambiguous = false;
    for i in 0..n
        invariant
            n == nodes.len(),
            nv == nodes.deep_view(),
            found is None ==> !ambiguous && forall|k: int| 0 <= k < i ==> nv[k].1 != edge.folded@,
            found matches Some(j) ==> j < i && nv[j as int].1 == edge.folded@,
            found is Some && !ambiguous ==> forall|k: int|
                0 <= k < i && nv[k].1 == edge.folded@ ==> nv[k].0 == nv[found->0 as int].0,
            found is Some && ambiguous ==> exists|k: int|
                0 <= k < i && #[trigger] nv[k].1 == edge.folded@ && nv[k].0 != nv[found->0 as int].0,
    {
        if nodes[i].1 == edge.folded {
            match found {
                None => {
                    found = Some(i);
                },
                Some(j) => {
                    if nodes[i].0 != nodes[j].0 {
                        ambiguous = true;
                        assert(nv[i as int].1 == edge.folded@);
                    }
                },
            }
        }
    }
    match found {
        Some(j) => {
            if !ambiguous {
                let l = nodes[j].0.clone();
                let ghost lv = nv[j as int].0;
                assert(sole_fold_match(nv, edge@.1, lv));
                assert forall|l2: Seq<char>| sole_fold_match(nv, edge@.1, l2) implies l2 == lv by {
                    assert(nv[j as int].1 == edge@.1);
                }
                return LabelMatch::Mapped(l);
            }
            assert forall|l2: Seq<char>| !sole_fold_match(nv, edge@.1, l2) by {
                let k = choose|k: int| 0 <= k < n && #[trigger] nv[k].1 == edge.folded@ && nv[k].0 != nv[j as int].0;
                assert(nv[j as int].1 == edge@.1);
            }
        },
        None => {
            assert forall|l2: Seq<char>| !sole_fold_match(nv, edge@.1, l2) by {}
        },
    }
    if !contains_char(edge.label.as_str(), ':') {
        return LabelMatch::Missing;
    }
    let parts = &edge.part_folds;
    let ghost pv = parts.deep_view();
    for p in 0..parts.len()
        invariant
            n == nodes.len(),
            nv == nodes.deep_view(),
            pv == parts.deep_view(),
            pv == edge@.2,
            edge@.0.contains(':'),
            !is_node_label(nv, edge@.0),
            forall|l2: Seq<char>| !sole_fold_match(nv, edge@.1, l2),
            forall|q: int| 0 <= q < p ==> fold_hit(nv, #[trigger] pv[q]),
    {
        let hit = has_fold(nodes, &parts[p]);
        if !hit {
            assert(!fold_hit(nv, pv[p as int]));
            return LabelMatch::Missing;
        }
    }
    LabelMatch::Composite
}

/// Reconciles edge labels with node labels, both given with their folds.
/// Fails with every missing label when any label resolves to nothing;
/// otherwise gives the entries of the exact and case-insensitive matches.
pub fn reconcile_folded(nodes: &Vec<(String, String)>, edges: &Vec<EdgeLabel>) -> (r: Result<
    Vec<(String, String)>,
    Vec<String>,
>)
    ensures
        match r {
            Ok(entries) => missing_labels(nodes.deep_view(), edges@.map_values(|e: EdgeLabel| e@))
                .len() == 0 && entries.deep_view() == label_entries(
                nodes.deep_view(),
                edges@.map_values(|e: EdgeLabel| e@),
            ),
            Err(missing) => missing.len() > 0 && missing.deep_view() == missing_labels(
                nodes.deep_view(),
                edges@.map_values(|e: EdgeLabel| e@),
            ),
        },
{
    let ghost nv = nodes.deep_view();
    let ghost ev = edges@.map_values(|e: EdgeLabel| e@);
    let mut entries: Vec<(String, String)> = Vec::new();
    let mut missing: Vec<String> = Vec::new();
    for i in 0..edges.len()
        invariant
            nv == nodes.deep_view(),
            ev == edges@.map_values(|e: EdgeLabel| e@),
            entries.deep_view() == label_entries(nv, ev.take(i as int)),
            missing.deep_view() == missing_labels(nv, ev.take(i as int)),
    {
        let e = &edges[i];
        assert(ev.take(i + 1).drop_last() == ev.take(i as int));
        assert(ev.take(i + 1).last() == e@);
        let ghost before_entries = entries.deep_view();
        let ghost before_missing = missing.deep_view();
        match resolve_edge_label(nodes, e) {
            LabelMatch::Exact => {
                entries.push((e.label.clone(), e.label.clone()));
                assert(entries.deep_view() =~= before_entries.push((e.label@, e.label@)));
            },
            LabelMatch::Mapped(l) => {
                let ghost lv = l@;
                entries.push((e.label.clone(), l));
                assert(entries.deep_view() =~= before_entries.push((e.label@, lv)));
            },
            LabelMatch::Composite => {},
            LabelMatch::Missing => {
                missing.push(e.label.clone());
                assert(missing.deep_view() =~= before_missing.push(e.label@));
            },
        }
    }
    assert(ev.take(edges.len() as int) == ev);
    if missing.len() > 0 {
        Err(missing)
    } else {
        assert(missing.deep_view().len() == 0);
        Ok(entries)
    }
}

/// Node labels paired with their lower-case forms.
pub open spec fn folded_nodes(ls: Seq<Seq<char>>) -> NodeFolds {
    ls.map_values(|l: Seq<char>| (l, lower_of(l)))
}

/// An edge label with its lower-case form and the lower-case forms of its
/// colon-separated parts.
pub open spec fn folded_edge(l: Seq<char>) -> EdgeFold {
    (l, lower_of(l), split_on(l, ':').map_values(|p: Seq<char>| lower_of(p)))
}

pub open spec fn folded_edges(ls: Seq<Seq<char>>) -> Seq<EdgeFold> {
    ls.map_values(|l: Seq<char>| folded_edge(l))
}

/// Prepares an edge label: its lower-case form and those of its parts.
pub fn fold_edge_label(label: &String) -> (r: EdgeLabel)
    ensures
        r@ == folded_edge(label@),
{
    let parts = split_text(label.as_str(), ':');
    let mut part_folds: Vec<String> = Vec::new();
    for i in 0..parts.len()
        invariant
            parts.deep_view() == split_on(label@, ':'),
            part_folds.deep_view() == parts.deep_view().take(i as int).map_values(
                |p: Seq<char>| lower_of(p),
            ),
    {
        let ghost before = part_folds.deep_view();
        assert(parts.deep_view()[i as int] == parts@[i as int]@);
        let low = lowercase(parts[i].as_str());
        part_folds.push(low);
        assert(part_folds.deep_view() =~= before.push(lower_of(parts@[i as int]@)));
        assert(parts.deep_view().take(i + 1).map_values(|p: Seq<char>| lower_of(p))
            =~= parts.deep_view().take(i as int).map_values(|p: Seq<char>| lower_of(p)).push(
            lower_of(parts@[i as int]@),
        ));
    }
    assert(parts.deep_view().take(parts.len() as int) == parts.deep_view());
    EdgeLabel { label: label.clone(), folded: lowercase(label.as_str()), part_folds }
}

/// Reconciles the labels that edge extracts name with the node labels: each
/// edge label maps to itself when it is a node label, to the one node label
/// that equals it up to case, or stands as a composite of node labels; any
/// other label fails the whole reconciliation, which then names them all.
pub fn reconcile_labels(node_labels: &Vec<String>, edge_labels: &Vec<String>) -> (r: Result<
    Vec<(String, String)>,
    Vec<String>,
>)
    ensures
        match r {
            Ok(entries) => missing_labels(
                folded_nodes(node_labels.deep_view()),
                folded_edges(edge_labels.deep_view()),
            ).len() == 0 && entries.deep_view() == label_entries(
                folded_nodes(node_labels.deep_view()),
                folded_edges(edge_labels.deep_view()),
            ),
            Err(missing) => missing.len() > 0 && missing.deep_view() == missing_labels(
                folded_nodes(node_labels.deep_view()),
                folded_edges(edge_labels.deep_view()),
            ),
        },
{
    let mut nodes: Vec<(String, String)> = Vec::new();
    for i in 0..node_labels.len()
        invariant
            nodes.deep_view() == folded_nodes(node_labels.deep_view().take(i as int)),
    {
        let ghost before = nodes.deep_view();
        let l = &node_labels[i];
        assert(node_labels.deep_view()[i as int] == l@);
        let low = lowercase(l.as_str());
        nodes.push((l.clone(), low));
        assert(nodes.deep_view() =~= before.push((l@, lower_of(l@))));
        assert(folded_nodes(node_labels.deep_view().take(i + 1)) =~= folded_nodes(
            node_labels.deep_view().take(i as int),
        ).push((l@, lower_of(l@))));
    }
    assert(node_labels.deep_view().take(node_labels.len() as int) == node_labels.deep_view());
    let mut edges: Vec<EdgeLabel> = Vec::new();
    for i in 0..edge_labels.len()
        invariant
            edges@.map_values(|e: EdgeLabel| e@) == folded_edges(edge_labels.deep_view().take(i as int)),
    {
        let ghost before = edges@.map_values(|e: EdgeLabel| e@);
        assert(edge_labels.deep_view()[i as int] == edge_labels@[i as int]@);
        let e = fold_edge_label(&edge_labels[i]);
        let ghost ef = e@;
        edges.push(e);
        assert(edges@.map_values(|e: EdgeLabel| e@) =~= before.push(ef));
        assert(folded_edges(edge_labels.deep_view().take(i + 1)) =~= folded_edges(
            edge_labels.deep_view().take(i as int),
        ).push(ef));
    }
    assert(edge_labels.deep_view().take(edge_labels.len() as int) == edge_labels.deep_view());
    reconcile_folded(&nodes, &edges)
}

proof fn lemma_same_members<T>(a: Seq<T>, b: Seq<T>, x: T)
    requires
        a.to_set() == b.to_set(),
        a.contains(x),
    ensures
        b.contains(x),
{
    assert(a.to_set().contains(x));
}

proof fn lemma_resolution_by_set(n1: Seq<Seq<char>>, n2: Seq<Seq<char>>, e: Seq<char>)
    requires
        n1.to_set() == n2.to_set(),
    ensures
        resolution(folded_nodes(n1), folded_edge(e)) == resolution(folded_nodes(n2), folded_edge(e)),
{
    let f1 = folded_nodes(n1);
    let f2 = folded_nodes(n2);
    assert forall|l: Seq<char>| is_node_label(f1, l) <==> is_node_label(f2, l) by {
        if is_node_label(f1, l) {
            let i = choose|i: int| 0 <= i < f1.len() && #[trigger] f1[i].0 == l;
            assert(n1.contains(n1[i]));
            lemma_same_members(n1, n2, n1[i]);
            let k = choose|k: int| 0 <= k < n2.len() && n2[k] == n1[i];
            assert(f2[k].0 == l);
        }
        if is_node_label(f2, l) {
            let i = choose|i: int| 0 <= i < f2.len() && #[trigger] f2[i].0 == l;
            assert(n2.contains(n2[i]));
            lemma_same_members(n2, n1, n2[i]);
            let k = choose|k: int| 0 <= k < n1.len() && n1[k] == n2[i];
            assert(f1[k].0 == l);
        }
    }
    assert forall|f: Seq<char>| fold_hit(f1, f) <==> fold_hit(f2, f) by {
        if fold_hit(f1, f) {
            let i = choose|i: int| 0 <= i < f1.len() && #[trigger] f1[i].1 == f;
            assert(n1.contains(n1[i]));
            lemma_same_members(n1, n2, n1[i]);
            let k = choose|k: int| 0 <= k < n2.len() && n2[k] == n1[i];
            assert(f2[k].1 == f);
        }
        if fold_hit(f2, f) {
            let i = choose|i: int| 0 <= i < f2.len() && #[trigger] f2[i].1 == f;
            assert(n2.contains(n2[i]));
            lemma_same_members(n2, n1, n2[i]);
            let k = choose|k: int| 0 <= k < n1.len() && n1[k] == n2[i];
            assert(f1[k].1 == f);
        }
    }
    assert forall|f: Seq<char>, l: Seq<char>| sole_fold_match(f1, f, l) <==> sole_fold_match(f2, f, l) by {
        if sole_fold_match(f1, f, l) {
            lemma_sole_by_set(n1, n2, f, l);
        }
        if sole_fold_match(f2, f, l) {
            lemma_sole_by_set(n2, n1, f, l);
        }
    }
    let fe = folded_edge(e);
    assert((exists|l: Seq<char>| sole_fold_match(f1, fe.1, l)) <==> (exists|l: Seq<char>| sole_fold_match(f2, fe.1, l)));
    assert((forall|j: int| 0 <= j < fe.2.len() ==> fold_hit(f1, #[trigger] fe.2[j])) <==> (forall|j: int|
        0 <= j < fe.2.len() ==> fold_hit(f2, #[trigger] fe.2[j])));
}

proof fn lemma_sole_by_set(n1: Seq<Seq<char>>, n2: Seq<Seq<char>>, f: Seq<char>, l: Seq<char>)
    requires
        n1.to_set() == n2.to_set(),
        sole_fold_match(folded_nodes(n1), f, l),
    ensures
        sole_fold_match(folded_nodes(n2), f, l),
{
    let f1 = folded_nodes(n1);
    let f2 = folded_nodes(n2);
    let i = choose|i: int| 0 <= i < f1.len() && #[trigger] f1[i].1 == f && f1[i].0 == l;
    assert(n1.to_set().contains(n1[i]));
    assert(n2.to_set().contains(n1[i]));
    let k = choose|k: int| 0 <= k < n2.len() && n2[k] == n1[i];
    assert(f2[k].1 == f && f2[k].0 == l);
    assert forall|j: int| 0 <= j < f2.len() && #[trigger] f2[j].1 == f implies f2[j].0 == l by {
        assert(n2.to_set().contains(n2[j]));
        assert(n1.to_set().contains(n2[j]));
        let m = choose|m: int| 0 <= m < n1.len() && n1[m] == n2[j];
        assert(f1[m].1 == f);
    }
}

proof fn lemma_entries_members(nodes: NodeFolds, es: Seq<Seq<char>>, x: (Seq<char>, Seq<char>))
    ensures
        label_entries(nodes, folded_edges(es)).contains(x) <==> exists|i: int|
            0 <= i < es.len() && entry_of(resolution(nodes, folded_edge(#[trigger] es[i])), es[i]) == Some(x),
    decreases es.len(),
{
    if es.len() > 0 {
        let pre = es.drop_last();
        assert(folded_edges(es).drop_last() =~= folded_edges(pre));
        lemma_entries_members(nodes, pre, x);
        let last = es.last();
        assert(folded_edges(es).last() == folded_edge(last));
        let rest = label_entries(nodes, folded_edges(pre));
        let ent = entry_of(resolution(nodes, folded_edge(last)), last);
        assert(label_entries(nodes, folded_edges(es)) == match ent {
            Some(p) => rest.push(p),
            None => rest,
        });
        if ent is Some {
            let p = ent->0;
            assert(rest.push(p).contains(x) <==> (rest.contains(x) || p == x)) by {
                if rest.push(p).contains(x) {
                    let j = choose|j: int| 0 <= j < rest.len() + 1 && rest.push(p)[j] == x;
                    if j < rest.len() {
                        assert(rest[j] == x);
                    }
                }
                if rest.contains(x) {
                    let j = choose|j: int| 0 <= j < rest.len() && rest[j] == x;
                    assert(rest.push(p)[j] == x);
                }
                assert(rest.push(p)[rest.len() as int] == p);
            }
        }
        assert(es[es.len() - 1] == last);
        if exists|i: int| 0 <= i < pre.len() && entry_of(resolution(nodes, folded_edge(#[trigger] pre[i])), pre[i]) == Some(x) {
            let i = choose|i: int| 0 <= i < pre.len() && entry_of(resolution(nodes, folded_edge(#[trigger] pre[i])), pre[i]) == Some(x);
            assert(es[i] == pre[i]);
        }
        if exists|i: int| 0 <= i < es.len() && entry_of(resolution(nodes, folded_edge(#[trigger] es[i])), es[i]) == Some(x) {
            let i = choose|i: int| 0 <= i < es.len() && entry_of(resolution(nodes, folded_edge(#[trigger] es[i])), es[i]) == Some(x);
            if i < pre.len() {
                assert(pre[i] == es[i]);
            }
        }
    }
}

proof fn lemma_missing_members(nodes: NodeFolds, es: Seq<Seq<char>>, x: Seq<char>)
    ensures
        missing_labels(nodes, folded_edges(es)).contains(x) <==> es.contains(x) && resolution(
            nodes,
            folded_edge(x),
        ) is Missing,
    decreases es.len(),
{
    if es.len() > 0 {
        let pre = es.drop_last();
        assert(folded_edges(es).drop_last() =~= folded_edges(pre));
        lemma_missing_members(nodes, pre, x);
        let last = es.last();
        assert(folded_edges(es).last() == folded_edge(last));
        let rest = missing_labels(nodes, folded_edges(pre));
        if resolution(nodes, folded_edge(last)) is Missing {
            assert(missing_labels(nodes, folded_edges(es)) == rest.push(last));
            assert(rest.push(last).contains(x) <==> (rest.contains(x) || last == x)) by {
                if rest.push(last).contains(x) {
                    let j = choose|j: int| 0 <= j < rest.len() + 1 && rest.push(last)[j] == x;
                    if j < rest.len() {
                        assert(rest[j] == x);
                    }
                }
                if rest.contains(x) {
                    let j = choose|j: int| 0 <= j < rest.len() && rest[j] == x;
                    assert(rest.push(last)[j] == x);
                }
                assert(rest.push(last)[rest.len() as int] == last);
            }
        } else {
            assert(missing_labels(nodes, folded_edges(es)) == rest);
        }
        assert(es[es.len() - 1] == last);
        if pre.contains(x) {
            let i = choose|i: int| 0 <= i < pre.len() && pre[i] == x;
            assert(es[i] == x);
        }
        if es.contains(x) {
            let i = choose|i: int| 0 <= i < es.len() && es[i] == x;
            if i < pre.len() {
                assert(pre[i] == x);
            }
        }
    }
}

/// Reconciliation depends on the node labels and the edge labels as sets
/// only: listed in any order and with any repetition, the same labels give
/// the same entries and the same missing labels, and so fail or succeed
/// together; being a function of its inputs, a second run gives the same
/// result as the first.
pub proof fn lemma_reconcile_order_independent(
    n1: Seq<Seq<char>>,
    n2: Seq<Seq<char>>,
    e1: Seq<Seq<char>>,
    e2: Seq<Seq<char>>,
)
    requires
        n1.to_set() == n2.to_set(),
        e1.to_set() == e2.to_set(),
    ensures
        label_entries(folded_nodes(n1), folded_edges(e1)).to_set() == label_entries(
            folded_nodes(n2),
            folded_edges(e2),
        ).to_set(),
        missing_labels(folded_nodes(n1), folded_edges(e1)).to_set() == missing_labels(
            folded_nodes(n2),
            folded_edges(e2),
        ).to_set(),
        (missing_labels(folded_nodes(n1), folded_edges(e1)).len() == 0) == (missing_labels(
            folded_nodes(n2),
            folded_edges(e2),
        ).len() == 0),
{
    let f1 = folded_nodes(n1);
    let f2 = folded_nodes(n2);
    assert forall|e: Seq<char>| #[trigger] resolution(f1, folded_edge(e)) == resolution(f2, folded_edge(e)) by {
        lemma_resolution_by_set(n1, n2, e);
    }
    let l1 = label_entries(f1, folded_edges(e1));
    let l2 = label_entries(f2, folded_edges(e2));
    assert forall|x: (Seq<char>, Seq<char>)| l1.contains(x) implies l2.contains(x) by {
        lemma_entries_members(f1, e1, x);
        lemma_entries_members(f2, e2, x);
        let i = choose|i: int| 0 <= i < e1.len() && entry_of(resolution(f1, folded_edge(#[trigger] e1[i])), e1[i]) == Some(x);
        assert(e1.contains(e1[i]));
        lemma_same_members(e1, e2, e1[i]);
        let k = choose|k: int| 0 <= k < e2.len() && e2[k] == e1[i];
        assert(entry_of(resolution(f2, folded_edge(e2[k])), e2[k]) == Some(x));
    }
    assert forall|x: (Seq<char>, Seq<char>)| l2.contains(x) implies l1.contains(x) by {
        lemma_entries_members(f1, e1, x);
        lemma_entries_members(f2, e2, x);
        let i = choose|i: int| 0 <= i < e2.len() && entry_of(resolution(f2, folded_edge(#[trigger] e2[i])), e2[i]) == Some(x);
        assert(e2.contains(e2[i]));
        lemma_same_members(e2, e1, e2[i]);
        let k = choose|k: int| 0 <= k < e1.len() && e1[k] == e2[i];
        assert(entry_of(resolution(f1, folded_edge(e1[k])), e1[k]) == Some(x));
    }
    assert(l1.to_set() =~= l2.to_set());
    let m1 = missing_labels(f1, folded_edges(e1));
    let m2 = missing_labels(f2, folded_edges(e2));
    assert forall|x: Seq<char>| m1.contains(x) <==> m2.contains(x) by {
        lemma_missing_members(f1, e1, x);
        lemma_missing_members(f2, e2, x);
        if e1.contains(x) {
            lemma_same_members(e1, e2, x);
        }
        if e2.contains(x) {
            lemma_same_members(e2, e1, x);
        }
    }
    assert(m1.to_set() =~= m2.to_set());
    if m1.len() > 0 {
        assert(m1.contains(m1[0]));
    }
    if m2.len() > 0 {
        assert(m2.contains(m2[0]));
    }
}

proof fn lemma_node_labels_map_to_themselves(nodes: NodeFolds, ts: Seq<Seq<char>>)
    requires
        forall|j: int| 0 <= j < ts.len() ==> is_node_label(nodes, #[trigger] ts[j]),
    ensures
        label_entries(nodes, folded_edges(ts)) == ts.map_values(|t: Seq<char>| (t, t)),
        missing_labels(nodes, folded_edges(ts)).len() == 0,
    decreases ts.len(),
{
    if ts.len() > 0 {
        let pre = ts.drop_last();
        assert(folded_edges(ts).drop_last() =~= folded_edges(pre));
        assert(folded_edges(ts).last() == folded_edge(ts.last()));
        assert forall|j: int| 0 <= j < pre.len() implies is_node_label(nodes, #[trigger] pre[j]) by {
            assert(pre[j] == ts[j]);
        }
        lemma_node_labels_map_to_themselves(nodes, pre);
        assert(is_node_label(nodes, ts[ts.len() - 1]));
        assert(ts.map_values(|t: Seq<char>| (t, t)) =~= pre.map_values(|t: Seq<char>| (t, t)).push(
            (ts.last(), ts.last()),
        ));
    }
}

/// Reconciliation is idempotent: every label that an entry maps to is a
/// node label, so reconciling the mapped labels again maps each to itself
/// and finds nothing missing.
pub proof fn lemma_reconcile_idempotent(n: Seq<Seq<char>>, e: Seq<Seq<char>>)
    ensures
        ({
            let nodes = folded_nodes(n);
            let targets = label_entries(nodes, folded_edges(e)).map_values(
                |x: (Seq<char>, Seq<char>)| x.1,
            );
            &&& label_entries(nodes, folded_edges(targets)) == targets.map_values(
                |t: Seq<char>| (t, t),
            )
            &&& missing_labels(nodes, folded_edges(targets)).len() == 0
        }),
{
    let nodes = folded_nodes(n);
    let entries = label_entries(nodes, folded_edges(e));
    let targets = entries.map_values(|x: (Seq<char>, Seq<char>)| x.1);
    assert forall|j: int| 0 <= j < targets.len() implies is_node_label(nodes, #[trigger] targets[j]) by {
        let x = entries[j];
        assert(entries.contains(x));
        lemma_entries_members(nodes, e, x);
        let i = choose|i: int|
            0 <= i < e.len() && entry_of(resolution(nodes, folded_edge(#[trigger] e[i])), e[i]) == Some(x);
        let r = resolution(nodes, folded_edge(e[i]));
        if r is Mapped {
            let l = r->Mapped_0;
            assert(sole_fold_match(nodes, folded_edge(e[i]).1, l));
            let k = choose|k: int| 0 <= k < nodes.len() && #[trigger] nodes[k].1 == folded_edge(e[i]).1 && nodes[k].0 == l;
            assert(nodes[k].0 == l);
        }
    }
    lemma_node_labels_map_to_themselves(nodes, targets);
}

/// Appends a label unless the list holds it already.
pub open spec fn add_distinct(ls: Seq<Seq<char>>, l: Seq<char>) -> Seq<Seq<char>> {
    if ls.contains(l) {
        ls
    } else {
        ls.push(l)
    }
}

/// The distinct endpoint labels that edge extracts name, read from the
/// first record of each: its source and target labels, when it has both.
pub open spec fn edge_labels_of(first_rows: Seq<Seq<(Seq<char>, Seq<char>)>>) -> Seq<Seq<char>>
    decreases first_rows.len(),
{
    if first_rows.len() == 0 {
        Seq::empty()
    } else {
        let rest = edge_labels_of(first_rows.drop_last());
        let f = first_rows.last();
        match (field_value(f, "source_label"@), field_value(f, "target_label"@)) {
            (Some(s), Some(t)) => add_distinct(add_distinct(rest, s), t),
            _ => rest,
        }
    }
}

fn push_distinct(ls: &mut Vec<String>, l: &String)
    ensures
        final(ls).deep_view() == add_distinct(old(ls).deep_view(), l@),
{
    let ghost before = ls.deep_view();
    for k in 0..ls.len()
        invariant
            before == ls.deep_view(),
            forall|q: int| 0 <= q < k ==> before[q] != l@,
    {
        assert(before[k as int] == ls@[k as int]@);
        if ls[k] == *l {
            assert(before.contains(l@));
            return;
        }
    }
    ls.push(l.clone());
    assert(ls.deep_view() =~= before.push(l@));
}

/// Collects the distinct endpoint labels from the first record of each
/// edge extract.
pub fn collect_edge_labels(first_rows: &Vec<Row>) -> (r: Vec<String>)
    ensures
        r.deep_view() == edge_labels_of(first_rows@.map_values(|x: Row| x@)),
{
    let ghost rv = first_rows@.map_values(|x: Row| x@);
    let mut labels: Vec<String> = Vec::new();
    for i in 0..first_rows.len()
        invariant
            rv == first_rows@.map_values(|x: Row| x@),
            labels.deep_view() == edge_labels_of(rv.take(i as int)),
    {
        let row = &first_rows[i];
        assert(rv.take(i + 1).drop_last() == rv.take(i as int));
        assert(rv.take(i + 1).last() == row@);
        match (row.get("source_label"), row.get("target_label")) {
            (Some(s), Some(t)) => {
                push_distinct(&mut labels, s);
                push_distinct(&mut labels, t);
            },
            _ => {},
        }
    }
    assert(rv.take(first_rows.len() as int) == rv);
    labels
}

} // verus!
