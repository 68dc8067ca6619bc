//! The load orchestration: the abort signal, error classification, and the
//! per-file state machine that drives bulk statements and their per-record
//! fallback. The caller performs each statement and reports its outcome.
use vstd::prelude::*;
use crate::text::{lower_of, lowercase, has_infix, contains_text, int_digits, push_int_digits};
use crate::labels::{reconcile_labels, missing_labels, label_entries, folded_nodes, folded_edges};
use crate::records::Row;
use crate::batch::{
    BulkStatement, build_node_bulk, build_edge_bulk, build_node_fallback, build_edge_fallback,
    node_bulk_query, edge_bulk_query, node_fallback_text, edge_fallback_text, encodes_node_item,
    encodes_edge_item, kept_edge_rows, rows_view, edge_endpoints, node_props, edge_props, node_id,
    lemma_node_props_nonempty, lemma_edge_props_nonempty,
};
use crate::encode::quoted;

verus! {

/// The class of a failed statement, read from its error text.
#[derive(Clone, Copy, Debug, PartialEq, Eq, Structural)]
pub enum ErrorClass {
    /// The store may be unusable: stop all work.
    Connectivity,
    /// The schema object exists already: benign.
    AlreadyExists,
    /// Any other failure.
    Generic,
}

/// Error text of the connectivity class, in lower case.
pub open spec fn is_connectivity_text(t: Seq<char>) -> bool {
    has_infix(t, "connection"@) || has_infix(t, "broken pipe"@) || has_infix(t, "reset"@)
}

/// Error text of the already-exists class, in lower case.
pub open spec fn is_already_exists_text(t: Seq<char>) -> bool {
    has_infix(t, "already exists"@) || has_infix(t, "equivalent"@) || has_infix(t, "already indexed"@)
        || has_infix(t, "index exists"@)
}

/// The class of a lower-case error text; connectivity comes first.
pub open spec fn error_class(t: Seq<char>) -> ErrorClass {
    if is_connectivity_text(t) {
        ErrorClass::Connectivity
    } else if is_already_exists_text(t) {
        ErrorClass::AlreadyExists
    } else {
        ErrorClass::Generic
    }
}

/// Classifies an error text that is already in lower case.
pub fn classify_folded(lowered: &str) -> (r: ErrorClass)
    ensures
        r == error_class(lowered@),
{
    if contains_text(lowered, "connection") || contains_text(lowered, "broken pipe") || contains_text(
        lowered,
        "reset",
    ) {
        ErrorClass::Connectivity
    } else if contains_text(lowered, "already exists") || contains_text(lowered, "equivalent")
        || contains_text(lowered, "already indexed") || contains_text(lowered, "index exists") {
        ErrorClass::AlreadyExists
    } else {
        ErrorClass::Generic
    }
}

/// Classifies an error text, ignoring case.
pub fn classify_error(message: &str) -> (r: ErrorClass)
    ensures
        r == error_class(lower_of(message@)),
{
    let lowered = lowercase(message);
    classify_folded(lowered.as_str())
}

/// Why a load stopped.
pub enum LoadError {
    /// Edge labels without a matching node label, all of them.
    LabelValidation(Vec<String>),
    /// The abort signal was set by an earlier failure.
    Aborted,
    /// A store failure of the connectivity class, with its text.
    Connectivity(String),
    /// An extract could not be read as a table, with what was said of it.
    Unreadable(String),
}

/// The abort signal of a run: created clear, set by a fatal failure, never
/// cleared, and read before every statement. Raising it takes `&mut`, so
/// no read can overlap the write.
pub struct AbortSignal {
    set: bool,
}

impl AbortSignal {
    pub closed spec fn is_set(&self) -> bool {
        self.set
    }

    /// A clear signal.
    pub fn new() -> (r: Self)
        ensures
            !r.is_set(),
    {
        AbortSignal { set: false }
    }

    /// Whether the signal is set.
    pub fn is_raised(&self) -> (r: bool)
        ensures
            r == self.is_set(),
    {
        self.set
    }

    /// Sets the signal.
    pub fn raise(&mut self)
        ensures
            final(self).is_set(),
    {
        self.set = true;
    }
}

/// The state the load keeps for the whole run: its settings, the label
/// mapping, and the abort signal.
pub struct FalkorDBCSVLoader {
    pub graph_name: String,
    pub merge_mode: bool,
    pub progress_interval: usize,
    pub label_mapping: Vec<(String, String)>,
    pub abort: AbortSignal,
}

impl FalkorDBCSVLoader {
    /// Whether the abort signal is set.
    pub open spec fn aborted(&self) -> bool {
        self.abort.is_set()
    }

    /// A loader for a graph, with no label mapping and the abort signal
    /// clear.
    pub fn new(graph_name: String, merge_mode: bool, progress_interval: usize) -> (r: Self)
        ensures
            r.graph_name@ == graph_name@,
            r.merge_mode == merge_mode,
            r.progress_interval == progress_interval,
            r.label_mapping@.len() == 0,
            !r.aborted(),
    {
        FalkorDBCSVLoader {
            graph_name,
            merge_mode,
            progress_interval,
            label_mapping: Vec::new(),
            abort: AbortSignal::new(),
        }
    }

    /// Whether the abort signal is set.
    pub fn is_aborted(&self) -> (r: bool)
        ensures
            r == self.aborted(),
    {
        self.abort.is_raised()
    }

    /// The check made before any statement reaches the store: refused once
    /// the abort signal is set.
    pub fn admit_statement(&self) -> (r: Result<(), LoadError>)
        ensures
            r is Ok <==> !self.aborted(),
            r matches Err(e) ==> e is Aborted,
    {
        if self.abort.is_raised() {
            Err(LoadError::Aborted)
        } else {
            Ok(())
        }
    }

    /// Records a failed statement: a failure of the connectivity class sets
    /// the abort signal, whichever statement it came from.
    pub fn statement_failed(&mut self, message: &str) -> (r: ErrorClass)
        ensures
            r == error_class(lower_of(message@)),
            final(self).aborted() == (old(self).aborted() || r == ErrorClass::Connectivity),
            final(self).graph_name == old(self).graph_name,
            final(self).merge_mode == old(self).merge_mode,
            final(self).progress_interval == old(self).progress_interval,
            final(self).label_mapping == old(self).label_mapping,
    {
        let class = classify_error(message);
        if class == ErrorClass::Connectivity {
            self.abort.raise();
        }
        class
    }

    /// Reconciles the labels that edge extracts name with the node labels,
    /// before any edge is loaded; fails with every missing label.
    pub fn validate_label_consistency(node_labels: &Vec<String>, edge_labels: &Vec<String>) -> (r:
        Result<Vec<(String, String)>, LoadError>)
        ensures
            match r {
                Ok(entries) => missing_labels(
                    folded_nodes(node_labels.deep_view()),
                    folded_edges(edge_labels.deep_view()),
                ).len() == 0 && entries.deep_view() == label_entries(
                    folded_nodes(node_labels.deep_view()),
                    folded_edges(edge_labels.deep_view()),
                ),
                Err(e) => e matches LoadError::LabelValidation(missing) && missing.len() > 0
                    && missing.deep_view() == missing_labels(
                    folded_nodes(node_labels.deep_view()),
                    folded_edges(edge_labels.deep_view()),
                ),
            },
    {
        match reconcile_labels(node_labels, edge_labels) {
            Ok(entries) => Ok(entries),
            Err(missing) => Err(LoadError::LabelValidation(missing)),
        }
    }
}

/// What an extract holds.
#[derive(Clone, Copy, PartialEq, Eq, Structural)]
pub enum FileKind {
    Nodes,
    Edges,
}

/// Where the load of one extract stands.
#[derive(Clone, Copy, PartialEq, Eq, Structural)]
pub enum Phase {
    /// Between batches.
    Idle,
    /// The bulk statement of the current batch is out.
    Bulk,
    /// The single-record statement of this row is out.
    Row(usize),
    /// Every batch is done.
    Finished,
    /// The load stopped on the abort signal or a connectivity failure.
    Stopped,
}

/// A statement to run against the store.
pub enum Statement {
    Bulk(BulkStatement),
    Single(String),
}

/// What the caller is to do next.
pub enum Action {
    /// Run the statement and report its outcome.
    Execute(Statement),
    /// The extract is loaded; the number of records loaded.
    Finished(usize),
    /// The load stopped.
    Stop(LoadError),
}

/// How a statement went.
pub enum Outcome {
    Succeeded,
    Failed(String),
}

/// The load of one extract, batch by batch.
pub struct FileRun {
    pub kind: FileKind,
    /// The node label or the relationship type of the extract.
    pub name: String,
    pub merge: bool,
    pub mapping: Vec<(String, String)>,
    pub rows: Vec<Row>,
    pub batch_size: usize,
    /// The current batch is `start..end`.
    pub start: usize,
    pub end: usize,
    pub phase: Phase,
    /// Records in the bulk statement that is out.
    pub pending: usize,
    /// Records loaded so far.
    pub loaded: usize,
    /// Records whose single-record statement failed.
    pub failed: usize,
}

/// The end of the batch that begins at `start`.
pub open spec fn batch_end(start: int, batch_size: int, len: int) -> int {
    if len - start > batch_size {
        start + batch_size
    } else {
        len
    }
}

impl FileRun {
    /// What a node run does next from the end of a batch: finish after the
    /// last row, else send the bulk statement of the following batch.
    pub open spec fn next_batch(&self, old_run: &FileRun, r: &Action) -> bool {
        if old_run.end == old_run.rows.len() {
            r is Finished
        } else {
            &&& r matches Action::Execute(st) && st is Bulk
            &&& self.start == old_run.end
            &&& self.end == batch_end(old_run.end as int, old_run.batch_size as int, old_run.rows.len() as int)
        }
    }

    /// Rows `a..b` hold nothing to load: they are edge rows without both
    /// endpoints. In a node run only an empty range does.
    pub open spec fn skippable(&self, a: int, b: int) -> bool {
        forall|k: int|
            a <= k < b ==> self.kind == FileKind::Edges && edge_endpoints(#[trigger] self.rows@[k]@) is None
    }

    /// What a run does next from row `p` on: the first statement it sends
    /// passes over skippable rows only, and it finishes only when all rows
    /// from `p` are skippable.
    pub open spec fn continues_from(&self, old_run: &FileRun, p: int, r: &Action) -> bool {
        match r {
            Action::Execute(Statement::Single(_)) => {
                &&& self.phase matches Phase::Row(j) && p <= j && self.skippable(p, j as int)
                &&& self.start == old_run.start
                &&& self.end == old_run.end
            },
            Action::Execute(Statement::Bulk(_)) => {
                &&& old_run.end <= self.start
                &&& p <= self.start
                &&& self.skippable(p, self.start as int)
                &&& self.end == batch_end(self.start as int, self.batch_size as int, self.rows.len() as int)
            },
            Action::Finished(_) => self.skippable(p, self.rows.len() as int),
            Action::Stop(_) => false,
        }
    }

    /// Rows whose fate is settled.
    pub open spec fn settled(&self) -> int {
        match self.phase {
            Phase::Bulk => self.start as int,
            Phase::Row(i) => i as int,
            _ => self.end as int,
        }
    }

    pub open spec fn wf(&self) -> bool {
        &&& self.shape()
        &&& self.loaded + self.failed <= self.settled()
    }

    /// The bounds of a run, leaving aside its counters.
    pub open spec fn shape(&self) -> bool {
        &&& self.batch_size > 0
        &&& self.start <= self.end <= self.rows.len()
        &&& self.pending <= self.end - self.start
        &&& (self.phase is Bulk ==> self.start < self.end)
        &&& (self.phase matches Phase::Row(i) ==> self.start <= i < self.end)
        &&& (self.phase is Finished ==> self.end == self.rows.len())
    }

    /// The statement is the one this run owes for its current phase: the
    /// bulk statement of the batch, or the single-record statement of the
    /// row.
    pub open spec fn owes(&self, st: &Statement) -> bool {
        match st {
            Statement::Bulk(b) => {
                &&& self.phase is Bulk
                &&& b.batch.len() == self.pending
                &&& match self.kind {
                    FileKind::Nodes => {
                        &&& b.query@ == node_bulk_query(self.name@, self.merge)
                        &&& self.pending == self.end - self.start
                        &&& forall|j: int|
                            0 <= j < self.end - self.start ==> encodes_node_item(
                                #[trigger] b.batch@[j],
                                self.rows@[self.start + j]@,
                            )
                    },
                    FileKind::Edges => {
                        let kept = kept_edge_rows(rows_view(self.rows@, self.start as int, self.end as int));
                        &&& b.query@ == edge_bulk_query(self.name@, self.merge)
                        &&& self.pending == kept.len()
                        &&& forall|j: int|
                            0 <= j < kept.len() ==> encodes_edge_item(
                                #[trigger] b.batch@[j],
                                self.mapping.deep_view(),
                                kept[j],
                            )
                    },
                }
            },
            Statement::Single(t) => match self.phase {
                Phase::Row(i) => match self.kind {
                    FileKind::Nodes => t@ == node_fallback_text(self.name@, self.merge, self.rows@[i as int]@),
                    FileKind::Edges => edge_endpoints(self.rows@[i as int]@) is Some && t@
                        == edge_fallback_text(self.name@, self.merge, self.rows@[i as int]@),
                },
                _ => false,
            },
        }
    }

    /// The fixed parts of a run stay as they were.
    pub open spec fn same_extract(&self, other: &FileRun) -> bool {
        &&& self.kind == other.kind
        &&& self.name == other.name
        &&& self.merge == other.merge
        &&& self.mapping == other.mapping
        &&& self.rows == other.rows
        &&& self.batch_size == other.batch_size
    }

    /// What an action says of the run that gave it.
    pub open spec fn gives(&self, loader_aborted: bool, r: &Action) -> bool {
        &&& (loader_aborted ==> r is Stop)
        &&& (r matches Action::Execute(st) ==> self.owes(&st))
        &&& (r matches Action::Finished(n) ==> self.phase is Finished && n == self.loaded)
        &&& (r is Stop ==> self.phase is Stopped)
    }

    /// A run over the rows of one extract, before its first batch.
    pub fn new(kind: FileKind, name: String, merge: bool, mapping: Vec<(String, String)>, rows: Vec<Row>, batch_size: usize) -> (r: Self)
        requires
            batch_size > 0,
        ensures
            r.wf(),
            r.kind == kind,
            r.name == name,
            r.merge == merge,
            r.mapping == mapping,
            r.rows == rows,
            r.batch_size == batch_size,
            r.phase is Idle,
            r.end == 0,
            r.loaded == 0,
    {
        FileRun {
            kind,
            name,
            merge,
            mapping,
            rows,
            batch_size,
            start: 0,
            end: 0,
            phase: Phase::Idle,
            pending: 0,
            loaded: 0,
            failed: 0,
        }
    }

    /// Goes on from the end of a batch (`from` is none) or from a row of the
    /// current batch's fallback, to the next statement or to the end.
    fn resume(&mut self, loader: &FalkorDBCSVLoader, from: Option<usize>) -> (r: Action)
        requires
            old(self).shape(),
            from is None ==> old(self).phase is Idle && old(self).loaded + old(self).failed <= old(self).end,
            from matches Some(i) ==> old(self).start <= i <= old(self).end && ((old(self).phase is Row
                && old(self).phase->Row_0 + 1 == i) || (i == old(self).start && old(self).phase is Bulk)),
            from matches Some(i) ==> old(self).loaded + old(self).failed <= i,
        ensures
            final(self).wf(),
            final(self).same_extract(old(self)),
            final(self).loaded == old(self).loaded,
            final(self).failed == old(self).failed,
            final(self).gives(loader.aborted(), &r),
            !loader.aborted() && old(self).kind == FileKind::Nodes ==> match from {
                Some(i) => if i < old(self).end {
                    &&& r matches Action::Execute(st) && st is Single
                    &&& final(self).phase == Phase::Row(i)
                    &&& final(self).start == old(self).start
                    &&& final(self).end == old(self).end
                } else {
                    final(self).next_batch(old(self), &r)
                },
                None => final(self).next_batch(old(self), &r),
            },
            !loader.aborted() && from is None && old(self).end == old(self).rows.len() ==> r is Finished,
            !loader.aborted() ==> final(self).continues_from(
                old(self),
                match from {
                    Some(i) => i as int,
                    None => old(self).end as int,
                },
                &r,
            ),
            from is None ==> !(r matches Action::Execute(st) && st is Single),
    {
        if loader.is_aborted() {
            self.phase = Phase::Stopped;
            return Action::Stop(LoadError::Aborted);
        }
        let mut cursor = from;
        if cursor.is_none() {
            self.phase = Phase::Idle;
        }
        loop
            invariant
                self.shape(),
                cursor is None ==> self.loaded + self.failed <= self.end,
                self.same_extract(old(self)),
                self.loaded == old(self).loaded,
                self.failed == old(self).failed,
                !loader.aborted(),
                cursor is None ==> self.phase is Idle,
                cursor matches Some(i) ==> self.start <= i <= self.end && self.loaded + self.failed <= i
                    && !(self.phase is Idle) && !(self.phase is Finished),
                self.kind == FileKind::Nodes ==> self.start == old(self).start && self.end == old(self).end
                    && (cursor == from || (cursor is None && from == Some(old(self).end))),
                from is None && old(self).end == old(self).rows.len() ==> self.end == old(self).end && cursor is None,
                old(self).end <= self.end,
                from matches Some(i) ==> i <= old(self).end,
                self.skippable(
                    match from {
                        Some(i) => i as int,
                        None => old(self).end as int,
                    },
                    match cursor {
                        Some(c) => c as int,
                        None => self.end as int,
                    },
                ),
                cursor matches Some(c) ==> self.end == old(self).end,
                cursor is Some ==> from is Some && from->0 <= cursor->0,
                cursor is Some ==> self.start == old(self).start,
                from is None ==> cursor is None,
            decreases (self.rows.len() - self.end) * 2 + match cursor {
                Some(i) => self.end - i + 1,
                None => 0,
            },
        {
            match cursor {
                None => {
                    if self.end >= self.rows.len() {
                        self.phase = Phase::Finished;
                        return Action::Finished(self.loaded);
                    }
                    let start = self.end;
                    let end = if self.rows.len() - start > self.batch_size {
                        start + self.batch_size
                    } else {
                        self.rows.len()
                    };
                    self.start = start;
                    self.end = end;
                    match self.kind {
                        FileKind::Nodes => {
                            let b = build_node_bulk(self.name.as_str(), self.merge, &self.rows, start, end);
                            self.pending = end - start;
                            self.phase = Phase::Bulk;
                            return Action::Execute(Statement::Bulk(b));
                        },
                        FileKind::Edges => {
                            match build_edge_bulk(self.name.as_str(), self.merge, &self.mapping, &self.rows, start, end) {
                                Some(b) => {
                                    proof {
                                        lemma_kept_len(rows_view(self.rows@, start as int, end as int));
                                    }
                                    self.pending = b.batch.len();
                                    self.phase = Phase::Bulk;
                                    return Action::Execute(Statement::Bulk(b));
                                },
                                None => {
                                    self.pending = 0;
                                    proof {
                                        lemma_nothing_kept(self.rows@, start as int, end as int);
                                    }
                                },
                            }
                        },
                    }
                },
                Some(i) => {
                    if i >= self.end {
                        self.phase = Phase::Idle;
                        cursor = None;
                    } else {
                        match self.kind {
                            FileKind::Nodes => {
                                let t = build_node_fallback(self.name.as_str(), self.merge, &self.rows[i]);
                                self.phase = Phase::Row(i);
                                return Action::Execute(Statement::Single(t));
                            },
                            FileKind::Edges => {
                                match build_edge_fallback(self.name.as_str(), self.merge, &self.rows[i]) {
                                    Some(t) => {
                                        self.phase = Phase::Row(i);
                                        return Action::Execute(Statement::Single(t));
                                    },
                                    None => {
                                        self.phase = Phase::Row(i);
                                        cursor = Some(i + 1);
                                    },
                                }
                            },
                        }
                    }
                },
            }
        }
    }

    /// The first statement of the run, or its end.
    pub fn start(&mut self, loader: &FalkorDBCSVLoader) -> (r: Action)
        requires
            old(self).wf(),
            old(self).phase is Idle,
        ensures
            final(self).wf(),
            final(self).same_extract(old(self)),
            final(self).loaded == old(self).loaded,
            final(self).gives(loader.aborted(), &r),
            !loader.aborted() ==> final(self).continues_from(old(self), old(self).end as int, &r),
            !loader.aborted() && old(self).end == old(self).rows.len() ==> r is Finished,
            !loader.aborted() && old(self).kind == FileKind::Nodes ==> final(self).next_batch(old(self), &r),
            !(r matches Action::Execute(st) && st is Single),
    {
        self.resume(loader, None)
    }

    /// Takes the outcome of the statement that is out and gives the next
    /// action. A failed bulk statement falls back to one statement per
    /// record of its batch; a failed record is skipped; a failure of the
    /// connectivity class sets the abort signal and stops the run.
    pub fn on_outcome(&mut self, loader: &mut FalkorDBCSVLoader, outcome: Outcome) -> (r: Action)
        requires
            old(self).wf(),
            old(self).phase is Bulk || old(self).phase is Row,
        ensures
            final(self).wf(),
            final(self).same_extract(old(self)),
            final(loader).graph_name == old(loader).graph_name,
            final(loader).merge_mode == old(loader).merge_mode,
            final(loader).label_mapping == old(loader).label_mapping,
            final(loader).aborted() == (old(loader).aborted() || (outcome matches Outcome::Failed(m)
                && error_class(lower_of(m@)) == ErrorClass::Connectivity)),
            final(self).gives(final(loader).aborted(), &r),
            final(self).loaded >= old(self).loaded,
            outcome is Succeeded && old(self).phase is Bulk ==> final(self).loaded == old(self).loaded
                + old(self).pending,
            outcome is Succeeded && old(self).phase is Row ==> final(self).loaded == old(self).loaded
                + 1,
            outcome is Failed && old(self).phase is Row && !final(loader).aborted() ==> final(self).failed
                == old(self).failed + 1,
            outcome is Failed && old(self).phase is Bulk ==> final(self).loaded == old(self).loaded,
            (outcome matches Outcome::Failed(m) && error_class(lower_of(m@)) == ErrorClass::Connectivity)
                ==> (r matches Action::Stop(e) && e is Connectivity),
            outcome is Succeeded && old(self).phase is Bulk ==> !(r matches Action::Execute(st) && st is Single),
            !final(loader).aborted() ==> final(self).continues_from(
                old(self),
                match old(self).phase {
                    Phase::Bulk => if outcome is Succeeded {
                        old(self).end as int
                    } else {
                        old(self).start as int
                    },
                    Phase::Row(i) => i + 1,
                    _ => 0,
                },
                &r,
            ),
            !final(loader).aborted() && old(self).kind == FileKind::Nodes ==> match old(self).phase {
                Phase::Bulk => if outcome is Succeeded {
                    final(self).next_batch(old(self), &r)
                } else {
                    &&& r matches Action::Execute(st) && st is Single
                    &&& final(self).phase == Phase::Row(old(self).start)
                    &&& final(self).start == old(self).start
                    &&& final(self).end == old(self).end
                },
                Phase::Row(i) => if i + 1 < old(self).end {
                    &&& r matches Action::Execute(st) && st is Single
                    &&& final(self).phase == Phase::Row((i + 1) as usize)
                    &&& final(self).start == old(self).start
                    &&& final(self).end == old(self).end
                } else {
                    final(self).next_batch(old(self), &r)
                },
                _ => true,
            },
    {
        match outcome {
            Outcome::Succeeded => match self.phase {
                Phase::Bulk => {
                    self.loaded = self.loaded + self.pending;
                    self.phase = Phase::Idle;
                    self.resume(loader, None)
                },
                Phase::Row(i) => {
                    self.loaded = self.loaded + 1;
                    self.resume(loader, Some(i + 1))
                },
                _ => Action::Stop(LoadError::Aborted),
            },
            Outcome::Failed(message) => {
                let class = loader.statement_failed(message.as_str());
                if class == ErrorClass::Connectivity {
                    self.phase = Phase::Stopped;
                    return Action::Stop(LoadError::Connectivity(message));
                }
                match self.phase {
                    Phase::Bulk => {
                        let s = self.start;
                        self.resume(loader, Some(s))
                    },
                    Phase::Row(i) => {
                        self.failed = self.failed + 1;
                        self.resume(loader, Some(i + 1))
                    },
                    _ => Action::Stop(LoadError::Aborted),
                }
            },
        }
    }
}

/// No property of a row comes from an empty field.
pub open spec fn no_empty_property(f: Seq<(Seq<char>, Seq<char>)>) -> bool {
    &&& forall|m: int| 0 <= m < node_props(f).len() ==> (#[trigger] node_props(f)[m]).1.len() > 0
    &&& forall|m: int| 0 <= m < edge_props(f).len() ==> (#[trigger] edge_props(f)[m]).1.len() > 0
}

/// Every statement that a run sends leaves empty fields out of the
/// properties of the records it carries, and carries an empty node
/// identifier as the empty string: `''` in a single-record statement, an
/// empty string parameter in a bulk one.
pub proof fn lemma_run_sends_no_empty_property(run: FileRun, st: Statement)
    requires
        run.wf(),
        run.owes(&st),
    ensures
        st matches Statement::Bulk(b) ==> forall|j: int|
            0 <= j < b.batch.len() ==> {
                let f = if run.kind == FileKind::Nodes {
                    run.rows@[run.start + j]@
                } else {
                    kept_edge_rows(rows_view(run.rows@, run.start as int, run.end as int))[j]
                };
                &&& no_empty_property(f)
                &&& run.kind == FileKind::Nodes && node_id(f).len() == 0 ==> (#[trigger] b.batch@[j])->Object_0@[0].1 is Str
                    && b.batch@[j]->Object_0@[0].1->Str_0@.len() == 0
            },
        st is Single ==> run.phase is Row && no_empty_property(run.rows@[run.phase->Row_0 as int]@) && (
        run.kind == FileKind::Nodes && node_id(run.rows@[run.phase->Row_0 as int]@).len() == 0 ==> quoted(
            node_id(run.rows@[run.phase->Row_0 as int]@),
        ) == seq!['\'', '\'']),
{
    match st {
        Statement::Bulk(b) => {
            assert forall|j: int| 0 <= j < b.batch.len() implies {
                let f = if run.kind == FileKind::Nodes {
                    run.rows@[run.start + j]@
                } else {
                    kept_edge_rows(rows_view(run.rows@, run.start as int, run.end as int))[j]
                };
                &&& no_empty_property(f)
                &&& run.kind == FileKind::Nodes && node_id(f).len() == 0 ==> (#[trigger] b.batch@[j])->Object_0@[0].1 is Str
                    && b.batch@[j]->Object_0@[0].1->Str_0@.len() == 0
            } by {
                let f = if run.kind == FileKind::Nodes {
                    run.rows@[run.start + j]@
                } else {
                    kept_edge_rows(rows_view(run.rows@, run.start as int, run.end as int))[j]
                };
                lemma_empty_fields_left_out_of(f);
                if run.kind == FileKind::Nodes {
                    assert(encodes_node_item(b.batch@[j], f));
                }
            }
        },
        Statement::Single(_) => {
            let f = run.rows@[run.phase->Row_0 as int]@;
            lemma_empty_fields_left_out_of(f);
            if node_id(f).len() == 0 {
                assert(quoted(node_id(f)) =~= seq!['\'', '\'']);
            }
        },
    }
}

proof fn lemma_empty_fields_left_out_of(f: Seq<(Seq<char>, Seq<char>)>)
    ensures
        no_empty_property(f),
{
    lemma_node_props_nonempty(f);
    lemma_edge_props_nonempty(f);
}

proof fn lemma_nothing_kept(rows: Seq<Row>, a: int, b: int)
    requires
        0 <= a <= b <= rows.len(),
        kept_edge_rows(rows_view(rows, a, b)).len() == 0,
    ensures
        forall|k: int| a <= k < b ==> edge_endpoints(#[trigger] rows[k]@) is None,
    decreases b - a,
{
    if a < b {
        let v = rows_view(rows, a, b);
        assert(v.drop_last() =~= rows_view(rows, a, b - 1));
        assert(v.last() == rows[b - 1]@);
        lemma_kept_len(v.drop_last());
        lemma_nothing_kept(rows, a, b - 1);
    }
}

proof fn lemma_kept_len(rows: Seq<Seq<(Seq<char>, Seq<char>)>>)
    ensures
        kept_edge_rows(rows).len() <= rows.len(),
    decreases rows.len(),
{
    if rows.len() > 0 {
        lemma_kept_len(rows.drop_last());
    }
}

/// The address of the store: `falkor://[user[:password]@]host:port`; a
/// password without a user is left out.
pub open spec fn connection_url_text(
    host: Seq<char>,
    port: u16,
    username: Option<Seq<char>>,
    password: Option<Seq<char>>,
) -> Seq<char> {
    let credentials = match (username, password) {
        (Some(u), Some(p)) => u + ":"@ + p + "@"@,
        (Some(u), None) => u + "@"@,
        _ => Seq::empty(),
    };
    "falkor://"@ + credentials + host + ":"@ + int_digits(port as int)
}

/// Builds the address of the store.
pub fn connection_url(host: &str, port: u16, username: &Option<String>, password: &Option<String>) -> (r:
    String)
    ensures
        r@ == connection_url_text(
            host@,
            port,
            match username {
                Some(u) => Some(u@),
                None => None,
            },
            match password {
                Some(p) => Some(p@),
                None => None,
            },
        ),
{
    let mut out = String::from_str("falkor://");
    match (username, password) {
        (Some(u), Some(p)) => {
            out.append(u.as_str());
            out.append(":");
            out.append(p.as_str());
            out.append("@");
        },
        (Some(u), None) => {
            out.append(u.as_str());
            out.append("@");
        },
        _ => {},
    }
    out.append(host);
    out.append(":");
    push_int_digits(&mut out, port as i64);
    proof {
        reveal_strlit("");
    }
    assert(""@ =~= Seq::<char>::empty());
    out
}

/// The steps of the health check: a round trip, a test write, and the
/// removal of what it wrote.
#[derive(Clone, Copy, Debug, PartialEq, Eq, Structural)]
pub enum HealthStep {
    RoundTrip,
    TestWrite,
    Cleanup,
}

/// What follows a health-check step.
pub enum HealthNext {
    /// Run this step next.
    Run(HealthStep),
    /// The check is over; whether the test write succeeded.
    Done(bool),
    /// The store did not answer the round trip: stop before any data.
    Unreachable,
}

/// The statement of a health-check step.
pub fn health_statement(step: HealthStep) -> (r: &'static str)
    ensures
        step == HealthStep::RoundTrip ==> r@ == "RETURN 1 as test"@,
        step == HealthStep::TestWrite ==> r@ == "CREATE (test:TestNode {id: 'health_check', timestamp: timestamp()}) RETURN test"@,
        step == HealthStep::Cleanup ==> r@ == "MATCH (test:TestNode {id: 'health_check'}) DELETE test"@,
{
    match step {
        HealthStep::RoundTrip => "RETURN 1 as test",
        HealthStep::TestWrite => "CREATE (test:TestNode {id: 'health_check', timestamp: timestamp()}) RETURN test",
        HealthStep::Cleanup => "MATCH (test:TestNode {id: 'health_check'}) DELETE test",
    }
}

/// The health check goes on from a step and its outcome: a failed round
/// trip is fatal; a failed test write is only a warning and needs no
/// cleanup; the cleanup's own outcome does not matter.
pub fn health_next(step: HealthStep, succeeded: bool) -> (r: HealthNext)
    ensures
        step == HealthStep::RoundTrip ==> if succeeded {
            r matches HealthNext::Run(s) && s == HealthStep::TestWrite
        } else {
            r is Unreachable
        },
        step == HealthStep::TestWrite ==> if succeeded {
            r matches HealthNext::Run(s) && s == HealthStep::Cleanup
        } else {
            r matches HealthNext::Done(w) && !w
        },
        step == HealthStep::Cleanup ==> (r matches HealthNext::Done(w) && w),
{
    match step {
        HealthStep::RoundTrip => if succeeded {
            HealthNext::Run(HealthStep::TestWrite)
        } else {
            HealthNext::Unreachable
        },
        HealthStep::TestWrite => if succeeded {
            HealthNext::Run(HealthStep::Cleanup)
        } else {
            HealthNext::Done(false)
        },
        HealthStep::Cleanup => HealthNext::Done(true),
    }
}

/// The phases of a run.
#[derive(Clone, Copy, Debug, PartialEq, Eq, Structural)]
pub enum RunPhase {
    Init,
    /// Label reconciliation, before anything is written.
    Validate,
    HealthCheck,
    SchemaSetup,
    LoadNodes,
    LoadEdges,
    Done,
    Aborted,
}

/// The phase after one ends: the next in order when it went well and the
/// abort signal is clear, else the aborted state, which is final as the
/// done state is.
pub fn next_phase(phase: RunPhase, ok: bool, loader: &FalkorDBCSVLoader) -> (r: RunPhase)
    ensures
        phase == RunPhase::Done ==> r == RunPhase::Done,
        phase != RunPhase::Done && (loader.aborted() || !ok || phase == RunPhase::Aborted) ==> r
            == RunPhase::Aborted,
        ok && !loader.aborted() ==> match phase {
            RunPhase::Init => r == RunPhase::Validate,
            RunPhase::Validate => r == RunPhase::HealthCheck,
            RunPhase::HealthCheck => r == RunPhase::SchemaSetup,
            RunPhase::SchemaSetup => r == RunPhase::LoadNodes,
            RunPhase::LoadNodes => r == RunPhase::LoadEdges,
            RunPhase::LoadEdges => r == RunPhase::Done,
            RunPhase::Done => r == RunPhase::Done,
            RunPhase::Aborted => r == RunPhase::Aborted,
        },
{
    if phase == RunPhase::Done {
        return RunPhase::Done;
    }
    if phase == RunPhase::Aborted || !ok || loader.is_aborted() {
        return RunPhase::Aborted;
    }
    match phase {
        RunPhase::Init => RunPhase::Validate,
        RunPhase::Validate => RunPhase::HealthCheck,
        RunPhase::HealthCheck => RunPhase::SchemaSetup,
        RunPhase::SchemaSetup => RunPhase::LoadNodes,
        RunPhase::LoadNodes => RunPhase::LoadEdges,
        _ => RunPhase::Done,
    }
}

/// Counts of a schema step: statements that created something, that found
/// it there already, and that failed otherwise.
pub struct SchemaTally {
    pub created: usize,
    pub existing: usize,
    pub failed: usize,
}

impl SchemaTally {
    pub fn new() -> (r: Self)
        ensures
            r.created == 0 && r.existing == 0 && r.failed == 0,
    {
        SchemaTally { created: 0, existing: 0, failed: 0 }
    }

    /// Counts one schema statement: success, or the class of its failure.
    /// An already-existing object is benign; every other failure is counted
    /// and the setup goes on. Counts stop at the largest `usize`.
    pub fn record(&mut self, failure: Option<ErrorClass>)
        ensures
            final(self).created == if failure is None {
                old(self).created.saturating_add(1)
            } else {
                old(self).created
            },
            final(self).existing == if failure == Some(ErrorClass::AlreadyExists) {
                old(self).existing.saturating_add(1)
            } else {
                old(self).existing
            },
            final(self).failed == if failure is Some && failure != Some(ErrorClass::AlreadyExists) {
                old(self).failed.saturating_add(1)
            } else {
                old(self).failed
            },
    {
        match failure {
            None => {
                self.created = self.created.saturating_add(1);
            },
            Some(ErrorClass::AlreadyExists) => {
                self.existing = self.existing.saturating_add(1);
            },
            Some(_) => {
                self.failed = self.failed.saturating_add(1);
            },
        }
    }
}

/// Whether records are counted ahead of the load for progress reports: an
/// interval of zero turns counting and reports off.
pub fn counts_progress(loader: &FalkorDBCSVLoader) -> (r: bool)
    ensures
        r == (loader.progress_interval > 0),
{
    loader.progress_interval > 0
}

/// Whether a report is due after a batch: when the count of loaded records
/// has just passed a multiple of the interval, or all are loaded.
pub fn progress_due(interval: usize, loaded: usize, batch_len: usize, total: usize) -> (r: bool)
    ensures
        r == (interval > 0 && (loaded % interval <= batch_len || loaded == total)),
{
    interval > 0 && (loaded % interval <= batch_len || loaded == total)
}

/// A copy of a list of text pairs.
pub fn clone_pairs(v: &Vec<(String, String)>) -> (r: Vec<(String, String)>)
    ensures
        r.deep_view() == v.deep_view(),
{
    let mut out: Vec<(String, String)> = Vec::new();
    for i in 0..v.len()
        invariant
            out.deep_view() == v.deep_view().take(i as int),
    {
        let ghost before = out.deep_view();
        let a = v[i].0.clone();
        let b = v[i].1.clone();
        out.push((a, b));
        assert(v.deep_view()[i as int] == (v@[i as int].0@, v@[i as int].1@));
        assert(out.deep_view() =~= before.push((v@[i as int].0@, v@[i as int].1@)));
        assert(out.deep_view() =~= v.deep_view().take(i + 1));
    }
    assert(v.deep_view().take(v.len() as int) == v.deep_view());
    out
}

impl FalkorDBCSVLoader {
    /// The check made before each extract is loaded: refused once the abort
    /// signal is set.
    pub fn begin_file(&self) -> (r: Result<(), LoadError>)
        ensures
            r is Ok <==> !self.aborted(),
            r matches Err(e) ==> e is Aborted,
    {
        self.admit_statement()
    }

    /// Takes the end of one extract's load. A failure sets the abort signal
    /// and ends the phase with that failure; a success adds the extract's
    /// count to the phase total, up to the largest `usize`.
    pub fn file_finished(&mut self, total: usize, outcome: Result<usize, LoadError>) -> (r: Result<
        usize,
        LoadError,
    >)
        ensures
            final(self).graph_name == old(self).graph_name,
            final(self).merge_mode == old(self).merge_mode,
            final(self).progress_interval == old(self).progress_interval,
            final(self).label_mapping == old(self).label_mapping,
            match outcome {
                Ok(n) => final(self).aborted() == old(self).aborted() && r == Ok::<usize, LoadError>(
                    total.saturating_add(n),
                ),
                Err(_) => final(self).aborted() && r is Err,
            },
    {
        match outcome {
            Ok(n) => Ok(total.saturating_add(n)),
            Err(e) => {
                self.abort.raise();
                Err(e)
            },
        }
    }

    /// The load of a node extract with a label, in batches of `batch_size`
    /// records, in this loader's mode.
    pub fn load_nodes_batch(&self, label: String, rows: Vec<Row>, batch_size: usize) -> (r: FileRun)
        requires
            batch_size > 0,
        ensures
            r.wf(),
            r.kind == FileKind::Nodes,
            r.name == label,
            r.merge == self.merge_mode,
            r.rows == rows,
            r.batch_size == batch_size,
            r.phase is Idle,
            r.end == 0,
            r.loaded == 0,
    {
        FileRun::new(FileKind::Nodes, label, self.merge_mode, Vec::new(), rows, batch_size)
    }

    /// The load of an edge extract of a relationship type, in batches of
    /// `batch_size` records, in this loader's mode and with its label
    /// mapping.
    pub fn load_edges_batch(&self, rel_type: String, rows: Vec<Row>, batch_size: usize) -> (r: FileRun)
        requires
            batch_size > 0,
        ensures
            r.wf(),
            r.kind == FileKind::Edges,
            r.name == rel_type,
            r.merge == self.merge_mode,
            r.mapping.deep_view() == self.label_mapping.deep_view(),
            r.rows == rows,
            r.batch_size == batch_size,
            r.phase is Idle,
            r.end == 0,
            r.loaded == 0,
    {
        let mapping = clone_pairs(&self.label_mapping);
        FileRun::new(FileKind::Edges, rel_type, self.merge_mode, mapping, rows, batch_size)
    }

    /// The query that samples up to `limit` nodes of a label.
    pub fn verify_node_attributes(&self, label: &str, limit: u32) -> (r: String)
        ensures
            r@ == "MATCH (n:"@ + label@ + ") RETURN n LIMIT "@ + int_digits(limit as int),
    {
        let mut q = String::from_str("MATCH (n:");
        q.append(label);
        q.append(") RETURN n LIMIT ");
        push_int_digits(&mut q, limit as i64);
        q
    }

    /// The queries that count nodes by label and relationships by type.
    pub fn get_graph_stats(&self) -> (r: (&'static str, &'static str))
        ensures
            r.0@ == "MATCH (n) RETURN labels(n) as labels, count(n) as count"@,
            r.1@ == "MATCH ()-[r]->() RETURN type(r) as type, count(r) as count"@,
    {
        (
            "MATCH (n) RETURN labels(n) as labels, count(n) as count",
            "MATCH ()-[r]->() RETURN type(r) as type, count(r) as count",
        )
    }
}

} // verus!
