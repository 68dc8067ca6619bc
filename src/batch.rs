//! Building the statements that load a batch of records: one bulk statement
//! with a list parameter, and the equivalent single-record statements used
//! when the bulk statement fails.
use vstd::prelude::*;
use crate::encode::{
    ParamValue, encodes_param, encodes_id_param, parse_value_to_json, parse_id_to_json,
    property_literal, quoted, parse_value_for_property, push_quoted, StoredValue, param_meaning,
    literal_meaning, is_plain_text, lemma_quoted_meaning, items_literal, push_items,
};
use crate::records::{Row, field_value, field_or_empty, lookup};
use crate::text::{push_char, split_on, split_text, trim_of, trim};

verus! {

/// A bulk statement: a query over `$batch` and the list bound to it.
pub struct BulkStatement {
    pub query: String,
    pub batch: Vec<ParamValue>,
}

impl BulkStatement {
    /// The literal of the list bound to `$batch`.
    pub fn batch_literal(&self) -> (r: String)
        ensures
            r@ == seq!['['] + items_literal(self.batch@) + seq![']'],
    {
        let mut out = String::new();
        push_char(&mut out, '[');
        push_items(&mut out, &self.batch);
        push_char(&mut out, ']');
        out
    }
}

/// A node field that becomes a property: not the identifier, not the label
/// column, and not empty.
pub open spec fn is_node_property(f: (Seq<char>, Seq<char>)) -> bool {
    f.0 != "id"@ && f.0 != "labels"@ && f.1.len() > 0
}

/// The property fields of a node row, in column order.
pub open spec fn node_props(fields: Seq<(Seq<char>, Seq<char>)>) -> Seq<(Seq<char>, Seq<char>)>
    decreases fields.len(),
{
    if fields.len() == 0 {
        Seq::empty()
    } else {
        let rest = node_props(fields.drop_last());
        if is_node_property(fields.last()) {
            rest.push(fields.last())
        } else {
            rest
        }
    }
}

/// The identifier of a node row; empty when the row has none.
pub open spec fn node_id(fields: Seq<(Seq<char>, Seq<char>)>) -> Seq<char> {
    field_or_empty(fields, "id"@)
}

/// A map parameter whose entries encode the given properties, in order.
pub open spec fn encodes_props(v: ParamValue, props: Seq<(Seq<char>, Seq<char>)>) -> bool {
    &&& v is Object
    &&& v->Object_0@.len() == props.len()
    &&& forall|j: int|
        0 <= j < props.len() ==> (#[trigger] v->Object_0@[j]).0@ == props[j].0 && encodes_param(
            v->Object_0@[j].1,
            props[j].1,
        )
}

/// The bulk list item of a node row: `{id: <id>, props: {<properties>}}`.
pub open spec fn encodes_node_item(v: ParamValue, fields: Seq<(Seq<char>, Seq<char>)>) -> bool {
    &&& v is Object
    &&& v->Object_0@.len() == 2
    &&& v->Object_0@[0].0@ == "id"@
    &&& encodes_id_param(v->Object_0@[0].1, node_id(fields))
    &&& v->Object_0@[1].0@ == "props"@
    &&& encodes_props(v->Object_0@[1].1, node_props(fields))
}

/// Whether two texts are equal.
fn same_text(a: &String, b: &str) -> (r: bool)
    ensures
        r == (a@ == b@),
{
    *a == String::from_str(b)
}

/// The property fields of a node row.
pub fn node_properties(row: &Row) -> (r: Vec<(String, String)>)
    ensures
        r.deep_view() == node_props(row@),
{
    let mut props: Vec<(String, String)> = Vec::new();
    for i in 0..row.fields.len()
        invariant
            props.deep_view() == node_props(row@.take(i as int)),
    {
        let f = &row.fields[i];
        let ghost before = props.deep_view();
        assert(row@.take(i + 1).drop_last() == row@.take(i as int));
        assert(row@.take(i + 1).last() == (f.0@, f.1@));
        if !same_text(&f.0, "id") && !same_text(&f.0, "labels") && !f.1.as_str().is_empty() {
            props.push((f.0.clone(), f.1.clone()));
            assert(props.deep_view() =~= before.push((f.0@, f.1@)));
        }
    }
    assert(row@.take(row.fields.len() as int) == row@);
    props
}

/// The map parameter of a list of properties.
pub fn props_param(props: &Vec<(String, String)>) -> (r: ParamValue)
    ensures
        encodes_props(r, props.deep_view()),
{
    let mut entries: Vec<(String, ParamValue)> = Vec::new();
    for i in 0..props.len()
        invariant
            entries.len() == i,
            forall|j: int|
                0 <= j < i ==> (#[trigger] entries@[j]).0@ == props.deep_view()[j].0 && encodes_param(
                    entries@[j].1,
                    props.deep_view()[j].1,
                ),
    {
        let p = &props[i];
        assert(props.deep_view()[i as int] == (p.0@, p.1@));
        entries.push((p.0.clone(), parse_value_to_json(p.1.as_str())));
    }
    ParamValue::Object(entries)
}

/// The bulk list item of a node row.
pub fn node_item(row: &Row) -> (r: ParamValue)
    ensures
        encodes_node_item(r, row@),
{
    let id = row.get_or_empty("id");
    let props = node_properties(row);
    let mut entries: Vec<(String, ParamValue)> = Vec::new();
    entries.push((String::from_str("id"), parse_id_to_json(id.as_str())));
    entries.push((String::from_str("props"), props_param(&props)));
    ParamValue::Object(entries)
}

/// The bulk query that loads nodes with a label: merging on the identifier
/// and then setting the properties, or creating each node.
pub open spec fn node_bulk_query(label: Seq<char>, merge: bool) -> Seq<char> {
    if merge {
        "UNWIND $batch AS row MERGE (n:"@ + label + " {id: row.id}) SET n += row.props"@
    } else {
        "UNWIND $batch AS row CREATE (n:"@ + label + ") SET n.id = row.id, n += row.props"@
    }
}

/// Builds the bulk statement for rows `start..end` of a node extract.
pub fn build_node_bulk(label: &str, merge: bool, rows: &Vec<Row>, start: usize, end: usize) -> (r:
    BulkStatement)
    requires
        start <= end <= rows.len(),
    ensures
        r.query@ == node_bulk_query(label@, merge),
        r.batch.len() == end - start,
        forall|j: int| 0 <= j < end - start ==> encodes_node_item(#[trigger] r.batch@[j], rows@[start + j]@),
{
    let mut query = if merge {
        String::from_str("UNWIND $batch AS row MERGE (n:")
    } else {
        String::from_str("UNWIND $batch AS row CREATE (n:")
    };
    query.append(label);
    if merge {
        query.append(" {id: row.id}) SET n += row.props");
    } else {
        query.append(") SET n.id = row.id, n += row.props");
    }
    let mut batch: Vec<ParamValue> = Vec::new();
    for i in start..end
        invariant
            start <= end <= rows.len(),
            batch.len() == i - start,
            forall|j: int| 0 <= j < i - start ==> encodes_node_item(#[trigger] batch@[j], rows@[start + j]@),
    {
        batch.push(node_item(&rows[i]));
    }
    BulkStatement { query, batch }
}

/// One `<prefix><key><sep><literal>` entry of a property list.
pub open spec fn prop_entry(prefix: Seq<char>, sep: Seq<char>, p: (Seq<char>, Seq<char>)) -> Seq<char> {
    prefix + p.0 + sep + property_literal(p.1)
}

/// Property entries separated by commas.
pub open spec fn prop_list(prefix: Seq<char>, sep: Seq<char>, props: Seq<(Seq<char>, Seq<char>)>) -> Seq<char>
    decreases props.len(),
{
    if props.len() == 0 {
        Seq::empty()
    } else if props.len() == 1 {
        prop_entry(prefix, sep, props[0])
    } else {
        prop_list(prefix, sep, props.drop_last()) + ", "@ + prop_entry(prefix, sep, props.last())
    }
}

/// Appends a comma-separated property list.
pub fn push_prop_list(out: &mut String, prefix: &str, sep: &str, props: &Vec<(String, String)>)
    ensures
        final(out)@ == old(out)@ + prop_list(prefix@, sep@, props.deep_view()),
{
    let ghost start = out@;
    let ghost pv = props.deep_view();
    for i in 0..props.len()
        invariant
            pv == props.deep_view(),
            out@ == start + prop_list(prefix@, sep@, pv.take(i as int)),
    {
        let p = &props[i];
        assert(pv[i as int] == (p.0@, p.1@));
        assert(pv.take(i + 1).drop_last() == pv.take(i as int));
        assert(pv.take(i + 1).last() == pv[i as int]);
        assert(pv.take(i + 1)[0] == pv[0]);
        if i > 0 {
            out.append(", ");
        }
        out.append(prefix);
        out.append(p.0.as_str());
        out.append(sep);
        let lit = parse_value_for_property(p.1.as_str());
        out.append(lit.as_str());
    }
    assert(pv.take(props.len() as int) == pv);
}

/// The single-record statement for a node row. Create mode writes the node
/// with its identifier and properties; merge mode merges on label and
/// identifier and then sets the properties, as the bulk statement does.
pub open spec fn node_fallback_text(label: Seq<char>, merge: bool, fields: Seq<(Seq<char>, Seq<char>)>) -> Seq<char> {
    let props = node_props(fields);
    let id = quoted(node_id(fields));
    if merge {
        "MERGE (n:"@ + label + " {id: "@ + id + "})"@ + if props.len() == 0 {
            Seq::empty()
        } else {
            " SET "@ + prop_list("n."@, " = "@, props)
        }
    } else {
        "CREATE (n:"@ + label + " {id: "@ + id + if props.len() == 0 {
            Seq::empty()
        } else {
            ", "@ + prop_list(Seq::empty(), ": "@, props)
        } + "})"@
    }
}

/// Builds the single-record statement for a node row.
pub fn build_node_fallback(label: &str, merge: bool, row: &Row) -> (r: String)
    ensures
        r@ == node_fallback_text(label@, merge, row@),
{
    let props = node_properties(row);
    let id = row.get_or_empty("id");
    let mut out = if merge {
        String::from_str("MERGE (n:")
    } else {
        String::from_str("CREATE (n:")
    };
    out.append(label);
    out.append(" {id: ");
    push_quoted(&mut out, id.as_str());
    if merge {
        out.append("})");
        if props.len() > 0 {
            out.append(" SET ");
            push_prop_list(&mut out, "n.", " = ", &props);
        }
    } else {
        if props.len() > 0 {
            out.append(", ");
            push_prop_list(&mut out, "", ": ", &props);
        }
        out.append("})");
    }
    proof {
        reveal_strlit("");
    }
    assert(""@ =~= Seq::<char>::empty());
    out
}

/// An edge field that becomes a property: not one of the endpoint, type or
/// label columns, and not empty.
pub open spec fn is_edge_property(f: (Seq<char>, Seq<char>)) -> bool {
    &&& f.0 != "source"@
    &&& f.0 != "target"@
    &&& f.0 != "type"@
    &&& f.0 != "source_label"@
    &&& f.0 != "target_label"@
    &&& f.1.len() > 0
}

/// A property key of the form `X:X` stands for `X`; any other key stands
/// as it is.
pub open spec fn clean_key(k: Seq<char>) -> Seq<char> {
    let parts = split_on(k, ':');
    if parts.len() == 2 && parts[0] == parts[1] {
        parts[0]
    } else {
        k
    }
}

/// The property fields of an edge row, with their keys cleaned, in column
/// order.
pub open spec fn edge_props(fields: Seq<(Seq<char>, Seq<char>)>) -> Seq<(Seq<char>, Seq<char>)>
    decreases fields.len(),
{
    if fields.len() == 0 {
        Seq::empty()
    } else {
        let rest = edge_props(fields.drop_last());
        if is_edge_property(fields.last()) {
            rest.push((clean_key(fields.last().0), fields.last().1))
        } else {
            rest
        }
    }
}

/// The source and target identifiers of an edge row; a row lacking either
/// has none and is dropped.
pub open spec fn edge_endpoints(fields: Seq<(Seq<char>, Seq<char>)>) -> Option<(Seq<char>, Seq<char>)> {
    let s = field_or_empty(fields, "source"@);
    let t = field_or_empty(fields, "target"@);
    if s.len() > 0 && t.len() > 0 {
        Some((s, t))
    } else {
        None
    }
}

/// An endpoint label as the edge loader uses it: trimmed, mapped through
/// the label mapping when it has an entry, and cut to its first
/// colon-separated part.
pub open spec fn endpoint_label(mapping: Seq<(Seq<char>, Seq<char>)>, raw: Seq<char>) -> Seq<char> {
    let t = trim_of(raw);
    let l = match field_value(mapping, t) {
        Some(m) => m,
        None => t,
    };
    split_on(l, ':')[0]
}

/// Cleans a property key.
pub fn clean_property_key(k: &String) -> (r: String)
    ensures
        r@ == clean_key(k@),
{
    let parts = split_text(k.as_str(), ':');
    if parts.len() == 2 && parts[0] == parts[1] {
        assert(parts.deep_view()[0] == parts@[0]@);
        parts[0].clone()
    } else {
        assert(parts.deep_view().len() == parts.len());
        assert(parts.len() == 2 ==> parts.deep_view()[0] == parts@[0]@ && parts.deep_view()[1] == parts@[1]@);
        k.clone()
    }
}

/// The property fields of an edge row.
pub fn edge_properties(row: &Row) -> (r: Vec<(String, String)>)
    ensures
        r.deep_view() == edge_props(row@),
{
    let mut props: Vec<(String, String)> = Vec::new();
    for i in 0..row.fields.len()
        invariant
            props.deep_view() == edge_props(row@.take(i as int)),
    {
        let f = &row.fields[i];
        let ghost before = props.deep_view();
        assert(row@.take(i + 1).drop_last() == row@.take(i as int));
        assert(row@.take(i + 1).last() == (f.0@, f.1@));
        if !same_text(&f.0, "source") && !same_text(&f.0, "target") && !same_text(&f.0, "type")
            && !same_text(&f.0, "source_label") && !same_text(&f.0, "target_label")
            && !f.1.as_str().is_empty() {
            let key = clean_property_key(&f.0);
            props.push((key, f.1.clone()));
            assert(props.deep_view() =~= before.push((clean_key(f.0@), f.1@)));
        }
    }
    assert(row@.take(row.fields.len() as int) == row@);
    props
}

/// The source and target identifiers of an edge row.
pub fn endpoints(row: &Row) -> (r: Option<(String, String)>)
    ensures
        match r {
            Some(p) => edge_endpoints(row@) == Some((p.0@, p.1@)),
            None => edge_endpoints(row@) is None,
        },
{
    let s = row.get_or_empty("source");
    let t = row.get_or_empty("target");
    if s.as_str().is_empty() || t.as_str().is_empty() {
        None
    } else {
        Some((s, t))
    }
}

/// Looks a label up in the label mapping.
pub fn mapped_label(mapping: &Vec<(String, String)>, label: &String) -> (r: String)
    ensures
        r@ == match field_value(mapping.deep_view(), label@) {
            Some(m) => m,
            None => label@,
        },
{
    match lookup(mapping, label.as_str()) {
        Some(m) => m.clone(),
        None => label.clone(),
    }
}

/// The label that the edge loader records for an endpoint.
pub fn resolve_endpoint_label(mapping: &Vec<(String, String)>, raw: &String) -> (r: String)
    ensures
        r@ == endpoint_label(mapping.deep_view(), raw@),
{
    let t = String::from_str(trim(raw.as_str()));
    let l = mapped_label(mapping, &t);
    let parts = split_text(l.as_str(), ':');
    proof {
        crate::text::lemma_split_nonempty(l@, ':');
    }
    assert(parts.deep_view()[0] == parts@[0]@);
    parts[0].clone()
}

/// The bulk list item of an edge row with both endpoints:
/// `{source_id, target_id, source_label, target_label, props}`.
pub open spec fn encodes_edge_item(v: ParamValue, mapping: Seq<(Seq<char>, Seq<char>)>, fields: Seq<(Seq<char>, Seq<char>)>) -> bool {
    let e = v->Object_0@;
    let ends = edge_endpoints(fields)->0;
    &&& v is Object
    &&& e.len() == 5
    &&& e[0].0@ == "source_id"@ && encodes_param(e[0].1, ends.0)
    &&& e[1].0@ == "target_id"@ && encodes_param(e[1].1, ends.1)
    &&& e[2].0@ == "source_label"@ && e[2].1 is Str
    &&& e[2].1->Str_0@ == endpoint_label(mapping, field_or_empty(fields, "source_label"@))
    &&& e[3].0@ == "target_label"@ && e[3].1 is Str
    &&& e[3].1->Str_0@ == endpoint_label(mapping, field_or_empty(fields, "target_label"@))
    &&& e[4].0@ == "props"@ && encodes_props(e[4].1, edge_props(fields))
}

/// The bulk list item of an edge row, or nothing for a row without both
/// endpoints.
pub fn edge_item(mapping: &Vec<(String, String)>, row: &Row) -> (r: Option<ParamValue>)
    ensures
        r is Some <==> edge_endpoints(row@) is Some,
        r matches Some(v) ==> encodes_edge_item(v, mapping.deep_view(), row@),
{
    match endpoints(row) {
        None => None,
        Some((s, t)) => {
            let sl = resolve_endpoint_label(mapping, &row.get_or_empty("source_label"));
            let tl = resolve_endpoint_label(mapping, &row.get_or_empty("target_label"));
            let props = edge_properties(row);
            let mut entries: Vec<(String, ParamValue)> = Vec::new();
            entries.push((String::from_str("source_id"), parse_value_to_json(s.as_str())));
            entries.push((String::from_str("target_id"), parse_value_to_json(t.as_str())));
            entries.push((String::from_str("source_label"), ParamValue::Str(sl)));
            entries.push((String::from_str("target_label"), ParamValue::Str(tl)));
            entries.push((String::from_str("props"), props_param(&props)));
            Some(ParamValue::Object(entries))
        },
    }
}

/// The views of rows `start..end` of an extract.
pub open spec fn rows_view(rows: Seq<Row>, start: int, end: int) -> Seq<Seq<(Seq<char>, Seq<char>)>> {
    rows.subrange(start, end).map_values(|r: Row| r@)
}

/// The edge rows that have both endpoints, in order.
pub open spec fn kept_edge_rows(rows: Seq<Seq<(Seq<char>, Seq<char>)>>) -> Seq<Seq<(Seq<char>, Seq<char>)>>
    decreases rows.len(),
{
    if rows.len() == 0 {
        Seq::empty()
    } else {
        let rest = kept_edge_rows(rows.drop_last());
        if edge_endpoints(rows.last()) is Some {
            rest.push(rows.last())
        } else {
            rest
        }
    }
}

/// The bulk query that loads edges of a type: endpoints are found by
/// identifier alone, merged or matched, and the relationship merged or
/// created before its properties are set.
pub open spec fn edge_bulk_query(rel_type: Seq<char>, merge: bool) -> Seq<char> {
    if merge {
        "UNWIND $batch AS row MERGE (a {id: row.source_id}) MERGE (b {id: row.target_id}) MERGE (a)-[r:"@
            + rel_type + "]->(b) SET r += row.props"@
    } else {
        "UNWIND $batch AS row MATCH (a {id: row.source_id}) MATCH (b {id: row.target_id}) CREATE (a)-[r:"@
            + rel_type + "]->(b) SET r += row.props"@
    }
}

/// Builds the bulk statement for rows `start..end` of an edge extract, or
/// nothing when none of them has both endpoints.
pub fn build_edge_bulk(
    rel_type: &str,
    merge: bool,
    mapping: &Vec<(String, String)>,
    rows: &Vec<Row>,
    start: usize,
    end: usize,
) -> (r: Option<BulkStatement>)
    requires
        start <= end <= rows.len(),
    ensures
        r is None <==> kept_edge_rows(rows_view(rows@, start as int, end as int)).len() == 0,
        r matches Some(b) ==> {
            &&& b.query@ == edge_bulk_query(rel_type@, merge)
            &&& b.batch.len() == kept_edge_rows(rows_view(rows@, start as int, end as int)).len()
            &&& forall|j: int|
                0 <= j < b.batch.len() ==> encodes_edge_item(
                    #[trigger] b.batch@[j],
                    mapping.deep_view(),
                    kept_edge_rows(rows_view(rows@, start as int, end as int))[j],
                )
        },
{
    let ghost rv = rows_view(rows@, start as int, end as int);
    let mut batch: Vec<ParamValue> = Vec::new();
    for i in start..end
        invariant
            start <= end <= rows.len(),
            rv == rows_view(rows@, start as int, end as int),
            batch.len() == kept_edge_rows(rv.take(i - start)).len(),
            forall|j: int|
                0 <= j < batch.len() ==> encodes_edge_item(
                    #[trigger] batch@[j],
                    mapping.deep_view(),
                    kept_edge_rows(rv.take(i - start))[j],
                ),
    {
        let ghost pre = rv.take(i - start);
        let ghost next = rv.take(i + 1 - start);
        assert(next.drop_last() == pre);
        assert(next.last() == rows@[i as int]@);
        match edge_item(mapping, &rows[i]) {
            Some(v) => {
                batch.push(v);
            },
            None => {},
        }
    }
    assert(rv.take(end - start) == rv);
    if batch.len() == 0 {
        return None;
    }
    let mut query = if merge {
        String::from_str(
            "UNWIND $batch AS row MERGE (a {id: row.source_id}) MERGE (b {id: row.target_id}) MERGE (a)-[r:",
        )
    } else {
        String::from_str(
            "UNWIND $batch AS row MATCH (a {id: row.source_id}) MATCH (b {id: row.target_id}) CREATE (a)-[r:",
        )
    };
    query.append(rel_type);
    query.append("]->(b) SET r += row.props");
    Some(BulkStatement { query, batch })
}

/// The single-record statement for an edge row with both endpoints,
/// matching endpoints by identifier alone.
pub open spec fn edge_fallback_text(rel_type: Seq<char>, merge: bool, fields: Seq<(Seq<char>, Seq<char>)>) -> Seq<char> {
    let props = edge_props(fields);
    let ends = edge_endpoints(fields)->0;
    if merge {
        "MERGE (a {id: "@ + quoted(ends.0) + "}) MERGE (b {id: "@ + quoted(ends.1) + "}) MERGE (a)-[r:"@
            + rel_type + "]->(b)"@ + if props.len() == 0 {
            Seq::empty()
        } else {
            " SET "@ + prop_list("r."@, " = "@, props)
        }
    } else {
        "MATCH (a {id: "@ + quoted(ends.0) + "}), (b {id: "@ + quoted(ends.1) + "}) CREATE (a)-[:"@
            + rel_type + if props.len() == 0 {
            Seq::empty()
        } else {
            " {"@ + prop_list(Seq::empty(), ": "@, props) + "}"@
        } + "]->(b)"@
    }
}

/// Builds the single-record statement for an edge row, or nothing for a
/// row without both endpoints.
pub fn build_edge_fallback(rel_type: &str, merge: bool, row: &Row) -> (r: Option<String>)
    ensures
        r is Some <==> edge_endpoints(row@) is Some,
        r matches Some(t) ==> t@ == edge_fallback_text(rel_type@, merge, row@),
{
    let (s, t) = match endpoints(row) {
        Some(p) => p,
        None => {
            return None;
        },
    };
    let props = edge_properties(row);
    let mut out = if merge {
        String::from_str("MERGE (a {id: ")
    } else {
        String::from_str("MATCH (a {id: ")
    };
    push_quoted(&mut out, s.as_str());
    if merge {
        out.append("}) MERGE (b {id: ");
    } else {
        out.append("}), (b {id: ");
    }
    push_quoted(&mut out, t.as_str());
    if merge {
        out.append("}) MERGE (a)-[r:");
        out.append(rel_type);
        out.append("]->(b)");
        if props.len() > 0 {
            out.append(" SET ");
            push_prop_list(&mut out, "r.", " = ", &props);
        }
    } else {
        out.append("}) CREATE (a)-[:");
        out.append(rel_type);
        if props.len() > 0 {
            out.append(" {");
            push_prop_list(&mut out, "", ": ", &props);
            out.append("}");
        }
        out.append("]->(b)");
    }
    proof {
        reveal_strlit("");
    }
    assert(""@ =~= Seq::<char>::empty());
    Some(out)
}

/// The property fields of a node row all hold text.
pub proof fn lemma_node_props_nonempty(fields: Seq<(Seq<char>, Seq<char>)>)
    ensures
        forall|j: int| 0 <= j < node_props(fields).len() ==> (#[trigger] node_props(fields)[j]).1.len() > 0,
    decreases fields.len(),
{
    if fields.len() > 0 {
        lemma_node_props_nonempty(fields.drop_last());
        let rest = node_props(fields.drop_last());
        assert forall|j: int| 0 <= j < node_props(fields).len() implies (#[trigger] node_props(fields)[j]).1.len() > 0 by {
            if j < rest.len() {
                assert(node_props(fields)[j] == rest[j]);
            }
        }
    }
}

/// The property fields of an edge row all hold text.
pub proof fn lemma_edge_props_nonempty(fields: Seq<(Seq<char>, Seq<char>)>)
    ensures
        forall|j: int| 0 <= j < edge_props(fields).len() ==> (#[trigger] edge_props(fields)[j]).1.len() > 0,
    decreases fields.len(),
{
    if fields.len() > 0 {
        lemma_edge_props_nonempty(fields.drop_last());
        let rest = edge_props(fields.drop_last());
        assert forall|j: int| 0 <= j < edge_props(fields).len() implies (#[trigger] edge_props(fields)[j]).1.len() > 0 by {
            if j < rest.len() {
                assert(edge_props(fields)[j] == rest[j]);
            }
        }
    }
}

/// An empty field never becomes a property of a node or an edge, in either
/// kind of statement; an empty node identifier is kept as the empty string,
/// both as a parameter and as the literal `''`.
pub proof fn lemma_empty_fields_left_out(fields: Seq<(Seq<char>, Seq<char>)>, id_param: ParamValue)
    requires
        encodes_id_param(id_param, node_id(fields)),
    ensures
        forall|j: int| 0 <= j < node_props(fields).len() ==> (#[trigger] node_props(fields)[j]).1.len() > 0,
        forall|j: int| 0 <= j < edge_props(fields).len() ==> (#[trigger] edge_props(fields)[j]).1.len() > 0,
        node_id(fields).len() == 0 ==> id_param is Str && id_param->Str_0@.len() == 0,
        node_id(fields).len() == 0 ==> quoted(node_id(fields)) == seq!['\'', '\''],
{
    lemma_node_props_nonempty(fields);
    lemma_edge_props_nonempty(fields);
    if node_id(fields).len() == 0 {
        assert(quoted(node_id(fields)) =~= seq!['\'', '\'']);
    }
}

/// What a node write stores: its identifier and its properties.
pub type NodeWrite = (StoredValue, Seq<(Seq<char>, StoredValue)>);

/// What the bulk statement stores for one list item.
pub open spec fn bulk_node_write(v: ParamValue) -> NodeWrite {
    let e = v->Object_0@;
    (
        param_meaning(e[0].1),
        e[1].1->Object_0@.map_values(|p: (String, ParamValue)| (p.0@, param_meaning(p.1))),
    )
}

/// What the single-record statement of a node row stores: the literals in
/// `node_fallback_text`.
pub open spec fn fallback_node_write(fields: Seq<(Seq<char>, Seq<char>)>) -> NodeWrite {
    (
        literal_meaning(quoted(node_id(fields))),
        node_props(fields).map_values(
            |p: (Seq<char>, Seq<char>)| (p.0, literal_meaning(property_literal(p.1))),
        ),
    )
}

/// A node row whose identifier and property values are all plain text.
pub open spec fn plain_node_row(fields: Seq<(Seq<char>, Seq<char>)>) -> bool {
    &&& is_plain_text(node_id(fields))
    &&& forall|j: int| 0 <= j < node_props(fields).len() ==> is_plain_text(#[trigger] node_props(fields)[j].1)
}

proof fn lemma_props_agree(props: Seq<(Seq<char>, Seq<char>)>, v: ParamValue)
    requires
        encodes_props(v, props),
        forall|j: int| 0 <= j < props.len() ==> (#[trigger] props[j]).1.len() > 0,
        forall|j: int| 0 <= j < props.len() ==> is_plain_text(#[trigger] props[j].1),
    ensures
        v->Object_0@.map_values(|p: (String, ParamValue)| (p.0@, param_meaning(p.1))) == props.map_values(
            |p: (Seq<char>, Seq<char>)| (p.0, literal_meaning(property_literal(p.1))),
        ),
{
    let e = v->Object_0@;
    assert forall|j: int| 0 <= j < props.len() implies (e[j].0@, param_meaning(e[j].1)) == (
        props[j].0,
        literal_meaning(property_literal(props[j].1)),
    ) by {
        assert(encodes_param(e[j].1, props[j].1));
        assert(is_plain_text(props[j].1));
        lemma_quoted_meaning(props[j].1);
    }
    assert(e.map_values(|p: (String, ParamValue)| (p.0@, param_meaning(p.1))) =~= props.map_values(
        |p: (Seq<char>, Seq<char>)| (p.0, literal_meaning(property_literal(p.1))),
    ));
}

/// For a batch of node rows whose values are all plain text, each item of
/// the bulk statement stores the same identifier and properties as the
/// single-record statement of its row. The two statements of a mode write
/// alike: create makes one node per record, merge upserts on label and
/// identifier and then sets the properties.
pub proof fn lemma_node_fallback_equivalent(rows: Seq<Seq<(Seq<char>, Seq<char>)>>, items: Seq<ParamValue>)
    requires
        items.len() == rows.len(),
        forall|j: int| 0 <= j < rows.len() ==> encodes_node_item(#[trigger] items[j], rows[j]),
        forall|j: int| 0 <= j < rows.len() ==> plain_node_row(#[trigger] rows[j]),
    ensures
        forall|j: int| 0 <= j < rows.len() ==> bulk_node_write(#[trigger] items[j]) == fallback_node_write(rows[j]),
{
    assert forall|j: int| 0 <= j < rows.len() implies bulk_node_write(#[trigger] items[j]) == fallback_node_write(rows[j]) by {
        let f = rows[j];
        let v = items[j];
        assert(encodes_node_item(v, f));
        assert(plain_node_row(f));
        lemma_node_props_nonempty(f);
        lemma_props_agree(node_props(f), v->Object_0@[1].1);
        lemma_quoted_meaning(node_id(f));
    }
}

/// What an edge write stores: source and target identifiers, and the
/// properties.
pub type EdgeWrite = (StoredValue, StoredValue, Seq<(Seq<char>, StoredValue)>);

/// What the bulk statement stores for one edge list item.
pub open spec fn bulk_edge_write(v: ParamValue) -> EdgeWrite {
    let e = v->Object_0@;
    (
        param_meaning(e[0].1),
        param_meaning(e[1].1),
        e[4].1->Object_0@.map_values(|p: (String, ParamValue)| (p.0@, param_meaning(p.1))),
    )
}

/// What the single-record statement of an edge row stores: the literals in
/// `edge_fallback_text`.
pub open spec fn fallback_edge_write(fields: Seq<(Seq<char>, Seq<char>)>) -> EdgeWrite {
    let ends = edge_endpoints(fields)->0;
    (
        literal_meaning(quoted(ends.0)),
        literal_meaning(quoted(ends.1)),
        edge_props(fields).map_values(
            |p: (Seq<char>, Seq<char>)| (p.0, literal_meaning(property_literal(p.1))),
        ),
    )
}

/// An edge row with both endpoints whose identifiers and property values
/// are all plain text.
pub open spec fn plain_edge_row(fields: Seq<(Seq<char>, Seq<char>)>) -> bool {
    &&& edge_endpoints(fields) is Some
    &&& is_plain_text((edge_endpoints(fields)->0).0)
    &&& is_plain_text((edge_endpoints(fields)->0).1)
    &&& forall|j: int| 0 <= j < edge_props(fields).len() ==> is_plain_text(#[trigger] edge_props(fields)[j].1)
}

/// For a batch of edge rows whose values are all plain text, each item of
/// the bulk statement stores the same endpoints and properties as the
/// single-record statement of its row; both find endpoints by identifier
/// alone and, in a mode, create or merge the relationship alike.
pub proof fn lemma_edge_fallback_equivalent(
    mapping: Seq<(Seq<char>, Seq<char>)>,
    rows: Seq<Seq<(Seq<char>, Seq<char>)>>,
    items: Seq<ParamValue>,
)
    requires
        items.len() == rows.len(),
        forall|j: int| 0 <= j < rows.len() ==> encodes_edge_item(#[trigger] items[j], mapping, rows[j]),
        forall|j: int| 0 <= j < rows.len() ==> plain_edge_row(#[trigger] rows[j]),
    ensures
        forall|j: int| 0 <= j < rows.len() ==> bulk_edge_write(#[trigger] items[j]) == fallback_edge_write(rows[j]),
{
    assert forall|j: int| 0 <= j < rows.len() implies bulk_edge_write(#[trigger] items[j]) == fallback_edge_write(rows[j]) by {
        let f = rows[j];
        let v = items[j];
        assert(encodes_edge_item(v, mapping, f));
        assert(plain_edge_row(f));
        lemma_edge_props_nonempty(f);
        lemma_props_agree(edge_props(f), v->Object_0@[4].1);
        let ends = edge_endpoints(f)->0;
        lemma_quoted_meaning(ends.0);
        lemma_quoted_meaning(ends.1);
    }
}

} // verus!
