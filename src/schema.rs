//! Schema setup: the index and constraint statements derived from the node
//! labels and from the index and constraint descriptor tables.
use vstd::prelude::*;
use crate::records::{Row, field_value, field_or_empty};
use crate::engine::FalkorDBCSVLoader;
use crate::text::{
    trim_of, trim, upper_of, uppercase, split_on, split_text, has_infix, contains_text, between,
    strip_affixes, replaced, replace_char,
};

verus! {

/// The node label that a node file name carries: `nodes_<label>.csv`, with
/// each colon of the label written as an underscore.
pub open spec fn node_file_label(name: Seq<char>) -> Option<Seq<char>> {
    match between(name, "nodes_"@, ".csv"@) {
        Some(l) => Some(replaced(l, ':', '_')),
        None => None,
    }
}

/// The relationship type that an edge file name carries: `edges_<type>.csv`.
pub open spec fn edge_file_type(name: Seq<char>) -> Option<Seq<char>> {
    between(name, "edges_"@, ".csv"@)
}

/// A label with each colon written as an underscore.
pub fn sanitize_label(label: &str) -> (r: String)
    ensures
        r@ == replaced(label@, ':', '_'),
{
    replace_char(label, ':', '_')
}

/// The node label of a node file name, if it is one.
pub fn node_label_from_file_name(name: &str) -> (r: Option<String>)
    ensures
        match r {
            Some(l) => node_file_label(name@) == Some(l@),
            None => node_file_label(name@) is None,
        },
{
    match strip_affixes(name, "nodes_", ".csv") {
        Some(raw) => Some(sanitize_label(raw.as_str())),
        None => None,
    }
}

/// The relationship type of an edge file name, if it is one.
pub fn edge_type_from_file_name(name: &str) -> (r: Option<String>)
    ensures
        match r {
            Some(t) => edge_file_type(name@) == Some(t@),
            None => edge_file_type(name@) is None,
        },
{
    strip_affixes(name, "edges_", ".csv")
}

/// The distinct node labels of a list of file names, in order of first
/// appearance.
pub open spec fn node_labels_of(names: Seq<Seq<char>>) -> Seq<Seq<char>>
    decreases names.len(),
{
    if names.len() == 0 {
        Seq::empty()
    } else {
        let rest = node_labels_of(names.drop_last());
        match node_file_label(names.last()) {
            Some(l) => if rest.contains(l) {
                rest
            } else {
                rest.push(l)
            },
            None => rest,
        }
    }
}

/// Collects the distinct node labels that the node files among the given
/// file names carry.
pub fn discover_node_labels(names: &Vec<String>) -> (r: Vec<String>)
    ensures
        r.deep_view() == node_labels_of(names.deep_view()),
{
    let mut labels: Vec<String> = Vec::new();
    for i in 0..names.len()
        invariant
            labels.deep_view() == node_labels_of(names.deep_view().take(i as int)),
    {
        let ghost before = labels.deep_view();
        assert(names.deep_view().take(i + 1).drop_last() == names.deep_view().take(i as int));
        assert(names.deep_view().take(i + 1).last() == names@[i as int]@);
        match node_label_from_file_name(names[i].as_str()) {
            Some(l) => {
                let mut seen = false;
                for k in 0..labels.len()
                    invariant
                        before == labels.deep_view(),
                        seen == (exists|q: int| 0 <= q < k && before[q] == l@),
                {
                    assert(before[k as int] == labels@[k as int]@);
                    if labels[k] == l {
                        seen = true;
                    }
                }
                if !seen {
                    labels.push(l);
                    assert(labels.deep_view() =~= before.push(l@));
                } else {
                    assert(before.contains(l@));
                }
            },
            None => {},
        }
    }
    assert(names.deep_view().take(names.len() as int) == names.deep_view());
    labels
}

/// The identifier index statement of a node label.
pub open spec fn id_index_text(label: Seq<char>) -> Seq<char> {
    "CREATE INDEX ON :"@ + label + "(id)"@
}


/// The items of a semicolon-separated list: trimmed, empty ones left out.
pub open spec fn list_items(s: Seq<char>) -> Seq<Seq<char>> {
    nonempty_trimmed(split_on(trim_of(s), ';'))
}

pub open spec fn nonempty_trimmed(parts: Seq<Seq<char>>) -> Seq<Seq<char>>
    decreases parts.len(),
{
    if parts.len() == 0 {
        Seq::empty()
    } else {
        let rest = nonempty_trimmed(parts.drop_last());
        let t = trim_of(parts.last());
        if t.len() > 0 {
            rest.push(t)
        } else {
            rest
        }
    }
}

/// Splits a semicolon-separated list.
pub fn split_list(s: &str) -> (r: Vec<String>)
    ensures
        r.deep_view() == list_items(s@),
{
    let parts = split_text(trim(s), ';');
    let ghost pv = parts.deep_view();
    let mut items: Vec<String> = Vec::new();
    for i in 0..parts.len()
        invariant
            pv == parts.deep_view(),
            items.deep_view() == nonempty_trimmed(pv.take(i as int)),
    {
        let ghost before = items.deep_view();
        assert(pv.take(i + 1).drop_last() == pv.take(i as int));
        assert(pv.take(i + 1).last() == parts@[i as int]@);
        let t = trim(parts[i].as_str());
        if !t.is_empty() {
            items.push(String::from_str(t));
            assert(items.deep_view() =~= before.push(t@));
        }
    }
    assert(pv.take(parts.len() as int) == pv);
    items
}

/// Whether an index row is left out: no labels or properties, a lookup
/// index, or a unique one (uniqueness comes with the constraints).
pub open spec fn index_row_skipped(fields: Seq<(Seq<char>, Seq<char>)>) -> bool {
    ||| list_items(field_or_empty(fields, "labels"@)).len() == 0
    ||| list_items(field_or_empty(fields, "properties"@)).len() == 0
    ||| upper_of(field_or_empty(fields, "type"@)) == "LOOKUP"@
    ||| field_or_empty(fields, "uniqueness"@) == "UNIQUE"@
}

/// The statement of an index on one property of a label.
pub open spec fn index_text(label: Seq<char>, prop: Seq<char>) -> Seq<char> {
    "CREATE INDEX ON :"@ + label + "("@ + prop + ")"@
}

/// One index statement per (label, property) pair, label by label.
pub open spec fn index_product(labels: Seq<Seq<char>>, props: Seq<Seq<char>>) -> Seq<Seq<char>>
    decreases labels.len(),
{
    if labels.len() == 0 {
        Seq::empty()
    } else {
        index_product(labels.drop_last(), props) + props.map_values(|p: Seq<char>| index_text(labels.last(), p))
    }
}

/// The index statements of the rows of an index table, row by row.
pub open spec fn index_statements(rows: Seq<Seq<(Seq<char>, Seq<char>)>>) -> Seq<Seq<char>>
    decreases rows.len(),
{
    if rows.len() == 0 {
        Seq::empty()
    } else {
        let f = rows.last();
        index_statements(rows.drop_last()) + if index_row_skipped(f) {
            Seq::empty()
        } else {
            index_product(
                list_items(field_or_empty(f, "labels"@)),
                list_items(field_or_empty(f, "properties"@)),
            )
        }
    }
}

/// Adds without passing the largest `usize`.
pub open spec fn sat_add(a: nat, b: nat) -> nat {
    if a + b > usize::MAX {
        usize::MAX as nat
    } else {
        a + b
    }
}

/// The number of index rows left out, counted up to the largest `usize`.
pub open spec fn index_skips(rows: Seq<Seq<(Seq<char>, Seq<char>)>>) -> nat
    decreases rows.len(),
{
    if rows.len() == 0 {
        0
    } else {
        sat_add(
            index_skips(rows.drop_last()),
            if index_row_skipped(rows.last()) {
                1nat
            } else {
                0nat
            },
        )
    }
}

/// The statements of a schema step and the number of rows it left out.
pub struct SchemaPlan {
    pub statements: Vec<String>,
    pub skipped: usize,
}

fn push_index_product(out: &mut Vec<String>, labels: &Vec<String>, props: &Vec<String>)
    ensures
        final(out).deep_view() == old(out).deep_view() + index_product(labels.deep_view(), props.deep_view()),
{
    let ghost start = out.deep_view();
    let ghost lv = labels.deep_view();
    let ghost pv = props.deep_view();
    for i in 0..labels.len()
        invariant
            lv == labels.deep_view(),
            pv == props.deep_view(),
            out.deep_view() == start + index_product(lv.take(i as int), pv),
    {
        assert(lv.take(i + 1).drop_last() == lv.take(i as int));
        assert(lv.take(i + 1).last() == labels@[i as int]@);
        let ghost mid = out.deep_view();
        for j in 0..props.len()
            invariant
                lv == labels.deep_view(),
                pv == props.deep_view(),
                i < labels.len(),
                out.deep_view() == mid + pv.take(j as int).map_values(|p: Seq<char>| index_text(labels@[i as int]@, p)),
        {
            let ghost before = out.deep_view();
            let mut q = String::from_str("CREATE INDEX ON :");
            q.append(labels[i].as_str());
            q.append("(");
            q.append(props[j].as_str());
            q.append(")");
            assert(pv[j as int] == props@[j as int]@);
            assert(q@ =~= index_text(labels@[i as int]@, pv[j as int]));
            let ghost qv = q@;
            out.push(q);
            assert(out.deep_view() =~= before.push(qv));
            assert(pv.take(j + 1).map_values(|p: Seq<char>| index_text(labels@[i as int]@, p)) =~= pv.take(
                j as int,
            ).map_values(|p: Seq<char>| index_text(labels@[i as int]@, p)).push(qv));
            assert(out.deep_view() =~= mid + pv.take(j + 1).map_values(|p: Seq<char>| index_text(labels@[i as int]@, p)));
        }
        assert(pv.take(props.len() as int) == pv);
        assert(out.deep_view() =~= start + index_product(lv.take(i + 1), pv));
    }
    assert(lv.take(labels.len() as int) == lv);
}

/// Whether an index row is left out.
fn index_row_is_skipped(row: &Row, labels: &Vec<String>, props: &Vec<String>) -> (r: bool)
    requires
        labels.deep_view() == list_items(field_or_empty(row@, "labels"@)),
        props.deep_view() == list_items(field_or_empty(row@, "properties"@)),
    ensures
        r == index_row_skipped(row@),
{
    let kind = uppercase(row.get_or_empty("type").as_str());
    let uniqueness = row.get_or_empty("uniqueness");
    labels.len() == 0 || props.len() == 0 || kind == String::from_str("LOOKUP") || uniqueness
        == String::from_str("UNIQUE")
}


/// Properties as `n.<p>`, separated by commas.
pub open spec fn qualified_props(props: Seq<Seq<char>>) -> Seq<char>
    decreases props.len(),
{
    if props.len() == 0 {
        Seq::empty()
    } else if props.len() == 1 {
        "n."@ + props[0]
    } else {
        qualified_props(props.drop_last()) + ", n."@ + props.last()
    }
}

/// Appends a qualified property list.
pub fn push_qualified_props(out: &mut String, props: &Vec<String>)
    ensures
        final(out)@ == old(out)@ + qualified_props(props.deep_view()),
{
    let ghost start = out@;
    let ghost pv = props.deep_view();
    for i in 0..props.len()
        invariant
            pv == props.deep_view(),
            out@ == start + qualified_props(pv.take(i as int)),
    {
        assert(pv.take(i + 1).drop_last() == pv.take(i as int));
        assert(pv.take(i + 1).last() == props@[i as int]@);
        assert(pv.take(i + 1)[0] == pv[0]);
        assert(pv[i as int] == props@[i as int]@);
        if i == 0 {
            out.append("n.");
        } else {
            out.append(", n.");
        }
        out.append(props[i].as_str());
    }
    assert(pv.take(props.len() as int) == pv);
}

/// A constraint row of the uniqueness kind.
pub open spec fn is_unique_kind(fields: Seq<(Seq<char>, Seq<char>)>) -> bool {
    has_infix(upper_of(field_or_empty(fields, "type"@)), "UNIQUE"@)
}

/// A constraint row on nodes: its entity type column is absent, or reads
/// `NODE` in any case.
pub open spec fn is_node_entity(fields: Seq<(Seq<char>, Seq<char>)>) -> bool {
    match field_value(fields, "entity_type"@) {
        None => true,
        Some(e) => upper_of(e) == "NODE"@,
    }
}

/// Whether a constraint row has labels and properties.
pub open spec fn constraint_row_filled(fields: Seq<(Seq<char>, Seq<char>)>) -> bool {
    list_items(field_or_empty(fields, "labels"@)).len() > 0 && list_items(
        field_or_empty(fields, "properties"@),
    ).len() > 0
}

/// The backing index of a uniqueness constraint on a label.
pub open spec fn supporting_index_text(label: Seq<char>, props: Seq<Seq<char>>) -> Seq<char> {
    "CREATE INDEX FOR (n:"@ + label + ") ON ("@ + qualified_props(props) + ")"@
}

/// The uniqueness constraint on a label over all the row's properties.
pub open spec fn constraint_text(label: Seq<char>, props: Seq<Seq<char>>) -> Seq<char> {
    if props.len() == 1 {
        "CREATE CONSTRAINT FOR (n:"@ + label + ") REQUIRE n."@ + props[0] + " IS UNIQUE"@
    } else {
        "CREATE CONSTRAINT FOR (n:"@ + label + ") REQUIRE ("@ + qualified_props(props) + ") IS UNIQUE"@
    }
}

/// The supporting index statements of a constraint table: one per label of
/// each filled uniqueness row.
pub open spec fn supporting_statements(rows: Seq<Seq<(Seq<char>, Seq<char>)>>) -> Seq<Seq<char>>
    decreases rows.len(),
{
    if rows.len() == 0 {
        Seq::empty()
    } else {
        let f = rows.last();
        let props = list_items(field_or_empty(f, "properties"@));
        supporting_statements(rows.drop_last()) + if constraint_row_filled(f) && is_unique_kind(f) {
            list_items(field_or_empty(f, "labels"@)).map_values(|l: Seq<char>| supporting_index_text(l, props))
        } else {
            Seq::empty()
        }
    }
}

/// The constraint statements of a constraint table: one per label of each
/// filled uniqueness row on nodes.
pub open spec fn constraint_statements(rows: Seq<Seq<(Seq<char>, Seq<char>)>>) -> Seq<Seq<char>>
    decreases rows.len(),
{
    if rows.len() == 0 {
        Seq::empty()
    } else {
        let f = rows.last();
        let props = list_items(field_or_empty(f, "properties"@));
        constraint_statements(rows.drop_last()) + if constraint_row_filled(f) && is_unique_kind(f)
            && is_node_entity(f) {
            list_items(field_or_empty(f, "labels"@)).map_values(|l: Seq<char>| constraint_text(l, props))
        } else {
            Seq::empty()
        }
    }
}

/// What a constraint table leaves out, counted up to the largest `usize`:
/// a row without labels or properties counts once, each label of any other
/// row that is not a uniqueness constraint on nodes counts once.
pub open spec fn constraint_skips(rows: Seq<Seq<(Seq<char>, Seq<char>)>>) -> nat
    decreases rows.len(),
{
    if rows.len() == 0 {
        0
    } else {
        let f = rows.last();
        sat_add(
            constraint_skips(rows.drop_last()),
            if !constraint_row_filled(f) {
                1nat
            } else if is_unique_kind(f) && is_node_entity(f) {
                0nat
            } else {
                list_items(field_or_empty(f, "labels"@)).len()
            },
        )
    }
}

/// Whether a constraint row is of the uniqueness kind, and whether it is
/// on nodes.
fn constraint_kind(row: &Row) -> (r: (bool, bool))
    ensures
        r.0 == is_unique_kind(row@),
        r.1 == is_node_entity(row@),
{
    let kind = uppercase(row.get_or_empty("type").as_str());
    let unique = contains_text(kind.as_str(), "UNIQUE");
    let node = match row.get("entity_type") {
        None => true,
        Some(entity) => uppercase(entity.as_str()) == String::from_str("NODE"),
    };
    (unique, node)
}



impl FalkorDBCSVLoader {
    /// One identifier index statement per node label.
    pub fn create_id_indexes_for_all_labels(labels: &Vec<String>) -> (r: Vec<String>)
        ensures
            r.len() == labels.len(),
            forall|i: int| 0 <= i < r.len() ==> #[trigger] r@[i]@ == id_index_text(labels@[i]@),
    {
        let mut out: Vec<String> = Vec::new();
        for i in 0..labels.len()
            invariant
                out.len() == i,
                forall|k: int| 0 <= k < i ==> #[trigger] out@[k]@ == id_index_text(labels@[k]@),
        {
            let mut q = String::from_str("CREATE INDEX ON :");
            q.append(labels[i].as_str());
            q.append("(id)");
            out.push(q);
        }
        out
    }

    /// The index statements of an index table: for each row not left out, one
    /// per (label, property) pair of its lists.
    pub fn create_indexes_from_csv(rows: &Vec<Row>) -> (r: SchemaPlan)
        ensures
            r.statements.deep_view() == index_statements(rows@.map_values(|x: Row| x@)),
            r.skipped == index_skips(rows@.map_values(|x: Row| x@)),
    {
        let ghost rv = rows@.map_values(|x: Row| x@);
        let mut statements: Vec<String> = Vec::new();
        let mut skipped: usize = 0;
        for i in 0..rows.len()
            invariant
                rv == rows@.map_values(|x: Row| x@),
                statements.deep_view() == index_statements(rv.take(i as int)),
                skipped == index_skips(rv.take(i as int)),
        {
            let row = &rows[i];
            assert(rv.take(i + 1).drop_last() == rv.take(i as int));
            assert(rv.take(i + 1).last() == row@);
            let labels = split_list(row.get_or_empty("labels").as_str());
            let props = split_list(row.get_or_empty("properties").as_str());
            if index_row_is_skipped(row, &labels, &props) {
                skipped = skipped.saturating_add(1);
                assert(statements.deep_view() =~= index_statements(rv.take(i + 1)));
            } else {
                push_index_product(&mut statements, &labels, &props);
            }
        }
        assert(rv.take(rows.len() as int) == rv);
        SchemaPlan { statements, skipped }
    }

    /// The supporting index statements of a constraint table.
    pub fn create_supporting_indexes_for_constraints(rows: &Vec<Row>) -> (r: Vec<String>)
        ensures
            r.deep_view() == supporting_statements(rows@.map_values(|x: Row| x@)),
    {
        let ghost rv = rows@.map_values(|x: Row| x@);
        let mut out: Vec<String> = Vec::new();
        for i in 0..rows.len()
            invariant
                rv == rows@.map_values(|x: Row| x@),
                out.deep_view() == supporting_statements(rv.take(i as int)),
        {
            let row = &rows[i];
            assert(rv.take(i + 1).drop_last() == rv.take(i as int));
            assert(rv.take(i + 1).last() == row@);
            let labels = split_list(row.get_or_empty("labels").as_str());
            let props = split_list(row.get_or_empty("properties").as_str());
            let (unique, _) = constraint_kind(row);
            let ghost mid = out.deep_view();
            if labels.len() > 0 && props.len() > 0 && unique {
                let ghost lv = labels.deep_view();
                for k in 0..labels.len()
                    invariant
                        lv == labels.deep_view(),
                        out.deep_view() == mid + lv.take(k as int).map_values(|l: Seq<char>| supporting_index_text(l, props.deep_view())),
                {
                    let ghost before = out.deep_view();
                    let mut q = String::from_str("CREATE INDEX FOR (n:");
                    q.append(labels[k].as_str());
                    q.append(") ON (");
                    push_qualified_props(&mut q, &props);
                    q.append(")");
                    assert(lv[k as int] == labels@[k as int]@);
                    assert(q@ =~= supporting_index_text(lv[k as int], props.deep_view()));
                    let ghost qv = q@;
                    out.push(q);
                    assert(out.deep_view() =~= before.push(qv));
                    assert(lv.take(k + 1).map_values(|l: Seq<char>| supporting_index_text(l, props.deep_view()))
                        =~= lv.take(k as int).map_values(|l: Seq<char>| supporting_index_text(l, props.deep_view())).push(qv));
                }
                assert(lv.take(labels.len() as int) == lv);
            }
            assert(out.deep_view() =~= supporting_statements(rv.take(i + 1)));
        }
        assert(rv.take(rows.len() as int) == rv);
        out
    }

    /// The constraint statements of a constraint table and what it leaves out.
    pub fn create_constraints_from_csv(rows: &Vec<Row>) -> (r: SchemaPlan)
        ensures
            r.statements.deep_view() == constraint_statements(rows@.map_values(|x: Row| x@)),
            r.skipped == constraint_skips(rows@.map_values(|x: Row| x@)),
    {
        let ghost rv = rows@.map_values(|x: Row| x@);
        let mut out: Vec<String> = Vec::new();
        let mut skipped: usize = 0;
        for i in 0..rows.len()
            invariant
                rv == rows@.map_values(|x: Row| x@),
                out.deep_view() == constraint_statements(rv.take(i as int)),
                skipped == constraint_skips(rv.take(i as int)),
        {
            let row = &rows[i];
            assert(rv.take(i + 1).drop_last() == rv.take(i as int));
            assert(rv.take(i + 1).last() == row@);
            let labels = split_list(row.get_or_empty("labels").as_str());
            let props = split_list(row.get_or_empty("properties").as_str());
            let (unique, node) = constraint_kind(row);
            let ghost mid = out.deep_view();
            if labels.len() == 0 || props.len() == 0 {
                skipped = skipped.saturating_add(1);
            } else if unique && node {
                let ghost lv = labels.deep_view();
                for k in 0..labels.len()
                    invariant
                        lv == labels.deep_view(),
                        props.len() > 0,
                        out.deep_view() == mid + lv.take(k as int).map_values(|l: Seq<char>| constraint_text(l, props.deep_view())),
                {
                    let ghost before = out.deep_view();
                    let mut q = String::from_str("CREATE CONSTRAINT FOR (n:");
                    q.append(labels[k].as_str());
                    if props.len() == 1 {
                        q.append(") REQUIRE n.");
                        q.append(props[0].as_str());
                        q.append(" IS UNIQUE");
                        assert(props.deep_view()[0] == props@[0]@);
                    } else {
                        q.append(") REQUIRE (");
                        push_qualified_props(&mut q, &props);
                        q.append(") IS UNIQUE");
                    }
                    assert(lv[k as int] == labels@[k as int]@);
                    assert(q@ =~= constraint_text(lv[k as int], props.deep_view()));
                    let ghost qv = q@;
                    out.push(q);
                    assert(out.deep_view() =~= before.push(qv));
                    assert(lv.take(k + 1).map_values(|l: Seq<char>| constraint_text(l, props.deep_view()))
                        =~= lv.take(k as int).map_values(|l: Seq<char>| constraint_text(l, props.deep_view())).push(qv));
                }
                assert(lv.take(labels.len() as int) == lv);
            } else {
                skipped = skipped.saturating_add(labels.len());
            }
            assert(out.deep_view() =~= constraint_statements(rv.take(i + 1)));
        }
        assert(rv.take(rows.len() as int) == rv);
        SchemaPlan { statements: out, skipped }
    }
}

} // verus!
