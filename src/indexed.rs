//! Checking a query's structural invariants and building the indices that an
//! execution engine walks.
use std::collections::BTreeMap;
use vstd::prelude::*;
use crate::ir::{
    Argument, Component, ComponentId, Edge, Eid, Filter, Fold, OutputField, Query, ValueType,
    Vertex, Vid, wrap_in_lists,
};

verus! {

broadcast use {vstd::laws_cmp::group_laws_cmp, vstd::std_specs::btree::group_btree_axioms};

/// What an edge id stands for: a regular edge or a fold.
#[derive(Debug, Clone, PartialEq, Eq)]
pub enum EdgeKind {
    Regular(Edge),
    Fold(Fold),
}

impl From<Edge> for EdgeKind {
    fn from(edge: Edge) -> (r: EdgeKind)
        ensures
            r == EdgeKind::Regular(edge),
    {
        EdgeKind::Regular(edge)
    }
}

impl vstd::std_specs::convert::FromSpecImpl<Edge> for EdgeKind {
    open spec fn obeys_from_spec() -> bool {
        true
    }

    open spec fn from_spec(edge: Edge) -> EdgeKind {
        EdgeKind::Regular(edge)
    }
}

impl From<Fold> for EdgeKind {
    fn from(fold: Fold) -> (r: EdgeKind)
        ensures
            r == EdgeKind::Fold(fold),
    {
        EdgeKind::Fold(fold)
    }
}

impl vstd::std_specs::convert::FromSpecImpl<Fold> for EdgeKind {
    open spec fn obeys_from_spec() -> bool {
        true
    }

    open spec fn from_spec(fold: Fold) -> EdgeKind {
        EdgeKind::Fold(fold)
    }
}

/// An output of the whole query, with its type wrapped once per enclosing fold.
#[derive(Debug, Clone, PartialEq, Eq)]
pub struct Output {
    pub name: String,
    pub value_type: ValueType,
    pub vid: Vid,
}

/// The first structural invariant that a query breaks, with the ids involved.
#[derive(Debug, Clone, PartialEq, Eq)]
pub enum InvalidIRQueryError {
    /// A component's root vertex is not among its vertices.
    MissingRoot(Vid),
    /// A vertex id is declared twice, in one component or in two.
    DuplicateVertexId(Vid),
    /// An output reads from a vertex that is not (yet) known.
    DanglingOutputVertex(Vid),
    /// An output reads from a vertex of another component.
    OutputVertexWrongComponent(Vid),
    /// Two outputs of the query share a name.
    DuplicateOutputName(String),
    /// An edge's `to` vertex id is not its edge id plus one.
    EdgeIdVertexIdMismatch(Eid, Vid),
    /// An edge endpoint is not a known vertex.
    EdgeEndpointMissing(Eid, Vid),
    /// An edge endpoint belongs to another component.
    EdgeEndpointWrongComponent(Eid, Vid),
    /// An edge id is used twice.
    DuplicateEdgeId(Eid),
    /// A fold's `to` vertex id is not its edge id plus one.
    FoldIdVertexIdMismatch(Eid, Vid),
    /// A fold's `from` vertex is not a vertex of the component that holds the fold.
    FoldFromEndpointWrongComponent(Eid, Vid),
    /// A fold's `to` vertex is not the root of the component it leads into.
    FoldToVertexNotFoldRoot(Eid, Vid),
    /// A fold's edge id is used twice.
    DuplicateFoldId(Eid),
    /// The edge ids of the component with this root vertex, its nested
    /// components' included, do not form a gap-free interval that starts right
    /// after the id of the fold that leads into it.
    EdgeIdsNotContiguous(Vid),
}

/// The four indices, as they stand part way through a walk.
pub struct IndexView {
    pub vids: Map<Vid, ComponentId>,
    pub eids: Map<Eid, EdgeKind>,
    pub required_arguments: Seq<String>,
    pub outputs: Seq<Output>,
}

pub type Step = Result<IndexView, InvalidIRQueryError>;

/// Whether `names` holds a string equal to `n`.
pub open spec fn has_name(names: Seq<String>, n: String) -> bool {
    exists|i: int| 0 <= i < names.len() && (#[trigger] names[i])@ == n@
}

/// `names` with `n` added at the end, unless it is there already.
pub open spec fn add_name(names: Seq<String>, n: String) -> Seq<String> {
    if has_name(names, n) {
        names
    } else {
        names.push(n)
    }
}

/// `names` with the variable of each filter of `fs` added, in order.
pub open spec fn add_filter_variables(names: Seq<String>, fs: Seq<Filter>) -> Seq<String>
    decreases fs.len(),
{
    if fs.len() == 0 {
        names
    } else {
        let prev = add_filter_variables(names, fs.drop_last());
        match fs.last().right {
            Some(Argument::Variable(n)) => add_name(prev, n),
            _ => prev,
        }
    }
}

/// Registering one vertex of component `cid`.
pub open spec fn vertex_step(s: IndexView, cid: ComponentId, v: Vertex) -> Step {
    if s.vids.contains_key(v.vid) {
        Err(InvalidIRQueryError::DuplicateVertexId(v.vid))
    } else {
        Ok(
            IndexView {
                vids: s.vids.insert(v.vid, cid),
                required_arguments: add_filter_variables(s.required_arguments, v.filters@),
                ..s
            },
        )
    }
}

/// Whether some output in `outs` is named `n`.
pub open spec fn has_output(outs: Seq<Output>, n: String) -> bool {
    exists|i: int| 0 <= i < outs.len() && (#[trigger] outs[i]).name@ == n@
}

/// Registering one output of component `cid`, which lies `depth` folds deep.
pub open spec fn output_step(s: IndexView, cid: ComponentId, depth: nat, o: OutputField) -> Step {
    if !s.vids.contains_key(o.vertex_id) {
        Err(InvalidIRQueryError::DanglingOutputVertex(o.vertex_id))
    } else if s.vids[o.vertex_id] != cid {
        Err(InvalidIRQueryError::OutputVertexWrongComponent(o.vertex_id))
    } else if has_output(s.outputs, o.name) {
        Err(InvalidIRQueryError::DuplicateOutputName(o.name))
    } else {
        Ok(
            IndexView {
                outputs: s.outputs.push(
                    Output {
                        name: o.name,
                        value_type: wrap_in_lists(o.field_type, depth),
                        vid: o.vertex_id,
                    },
                ),
                ..s
            },
        )
    }
}

/// Registering one regular edge of component `cid`.
pub open spec fn edge_step(s: IndexView, cid: ComponentId, e: Edge) -> Step {
    if e.to_vid != e.eid + 1 {
        Err(InvalidIRQueryError::EdgeIdVertexIdMismatch(e.eid, e.to_vid))
    } else if !s.vids.contains_key(e.from_vid) {
        Err(InvalidIRQueryError::EdgeEndpointMissing(e.eid, e.from_vid))
    } else if s.vids[e.from_vid] != cid {
        Err(InvalidIRQueryError::EdgeEndpointWrongComponent(e.eid, e.from_vid))
    } else if !s.vids.contains_key(e.to_vid) {
        Err(InvalidIRQueryError::EdgeEndpointMissing(e.eid, e.to_vid))
    } else if s.vids[e.to_vid] != cid {
        Err(InvalidIRQueryError::EdgeEndpointWrongComponent(e.eid, e.to_vid))
    } else if s.eids.contains_key(e.eid) {
        Err(InvalidIRQueryError::DuplicateEdgeId(e.eid))
    } else {
        Ok(IndexView { eids: s.eids.insert(e.eid, EdgeKind::Regular(e)), ..s })
    }
}

/// Registering one fold of component `cid`, before its nested component is walked.
pub open spec fn fold_step(s: IndexView, q: Query, cid: ComponentId, f: Fold) -> Step {
    if f.to_vid != f.eid + 1 {
        Err(InvalidIRQueryError::FoldIdVertexIdMismatch(f.eid, f.to_vid))
    } else if !s.vids.contains_key(f.from_vid) || s.vids[f.from_vid] != cid {
        Err(InvalidIRQueryError::FoldFromEndpointWrongComponent(f.eid, f.from_vid))
    } else if f.to_vid != q.components[f.component as int].root {
        Err(InvalidIRQueryError::FoldToVertexNotFoldRoot(f.eid, f.to_vid))
    } else if s.eids.contains_key(f.eid) {
        Err(InvalidIRQueryError::DuplicateFoldId(f.eid))
    } else {
        Ok(IndexView { eids: s.eids.insert(f.eid, EdgeKind::Fold(f)), ..s })
    }
}

/// The vertices of component `cid` registered in order, stopping at the first failure.
pub open spec fn vertex_steps(s: IndexView, cid: ComponentId, vs: Seq<Vertex>) -> Step
    decreases vs.len(),
{
    if vs.len() == 0 {
        Ok(s)
    } else {
        match vertex_steps(s, cid, vs.drop_last()) {
            Ok(t) => vertex_step(t, cid, vs.last()),
            Err(e) => Err(e),
        }
    }
}

/// The outputs of component `cid` registered in order, stopping at the first failure.
pub open spec fn output_steps(s: IndexView, cid: ComponentId, depth: nat, os: Seq<OutputField>) -> Step
    decreases os.len(),
{
    if os.len() == 0 {
        Ok(s)
    } else {
        match output_steps(s, cid, depth, os.drop_last()) {
            Ok(t) => output_step(t, cid, depth, os.last()),
            Err(e) => Err(e),
        }
    }
}

/// The edges of component `cid` registered in order, stopping at the first failure.
pub open spec fn edge_steps(s: IndexView, cid: ComponentId, es: Seq<Edge>) -> Step
    decreases es.len(),
{
    if es.len() == 0 {
        Ok(s)
    } else {
        match edge_steps(s, cid, es.drop_last()) {
            Ok(t) => edge_step(t, cid, es.last()),
            Err(e) => Err(e),
        }
    }
}

/// Whether `ids` is a gap-free interval; when `entry` is the id of the fold
/// that leads into the component, the interval starts right after it.
pub open spec fn ids_form_interval(ids: Set<u64>, entry: Option<u64>) -> bool {
    &&& forall|a: u64, b: u64, x: u64|
        #![trigger ids.contains(a), ids.contains(b), ids.contains(x)]
        ids.contains(a) && ids.contains(b) && a <= x <= b ==> ids.contains(x)
    &&& match entry {
        Some(f) => (forall|a: u64| #[trigger] ids.contains(a) ==> f < a) && (ids.len() > 0
            ==> ids.contains((f + 1) as u64)),
        None => true,
    }
}

/// The edge ids that a walk from `s` to `t` added.
pub open spec fn added_eids(s: IndexView, t: IndexView) -> Set<u64> {
    t.eids.dom().difference(s.eids.dom())
}

/// Whether component `c` declares a vertex with id `vid`.
pub open spec fn has_vertex(c: Component, vid: Vid) -> bool {
    exists|k: int| 0 <= k < c.vertices.len() && (#[trigger] c.vertices[k]).vid == vid
}

/// Walking component `cid`, `depth` folds deep and entered through the fold
/// `entry` (none for the root component): its root check, its vertices, its
/// outputs, its edges, then each fold followed by the fold's own component,
/// and last the check that the edge ids it added form an interval.
pub open spec fn walk(s: IndexView, q: Query, cid: ComponentId, depth: nat, entry: Option<u64>) -> Step
    decreases q.components.len() - cid, 1int, 0int,
{
    if cid >= q.components.len() {
        Ok(s)
    } else {
        let c = q.components[cid as int];
        if !has_vertex(c, c.root) {
            Err(InvalidIRQueryError::MissingRoot(c.root))
        } else {
            match vertex_steps(s, cid, c.vertices@) {
                Err(e) => Err(e),
                Ok(s1) => match output_steps(s1, cid, depth, c.outputs@) {
                    Err(e) => Err(e),
                    Ok(s2) => match edge_steps(s2, cid, c.edges@) {
                        Err(e) => Err(e),
                        Ok(s3) => match fold_steps(s3, q, cid, depth, c.folds.len() as int) {
                            Err(e) => Err(e),
                            Ok(s4) => if ids_form_interval(added_eids(s, s4), entry) {
                                Ok(s4)
                            } else {
                                Err(InvalidIRQueryError::EdgeIdsNotContiguous(c.root))
                            },
                        },
                    },
                },
            }
        }
    }
}

/// The first `n` folds of component `cid`, each registered and then walked into.
pub open spec fn fold_steps(s: IndexView, q: Query, cid: ComponentId, depth: nat, n: int) -> Step
    decreases q.components.len() - cid, 0int, n,
{
    if cid >= q.components.len() || n <= 0 || n > q.components[cid as int].folds.len() {
        Ok(s)
    } else {
        match fold_steps(s, q, cid, depth, n - 1) {
            Err(e) => Err(e),
            Ok(t) => {
                let f = q.components[cid as int].folds[n - 1];
                if f.component <= cid || f.component >= q.components.len() {
                    Ok(t)
                } else {
                    match fold_step(t, q, cid, f) {
                        Err(e) => Err(e),
                        Ok(u) => walk(u, q, f.component, depth + 1, Some(f.eid)),
                    }
                }
            },
        }
    }
}

/// The empty indices.
pub open spec fn empty_indices() -> IndexView {
    IndexView { vids: Map::empty(), eids: Map::empty(), required_arguments: seq![], outputs: seq![] }
}


/// A failed prefix of the vertices leaves the whole run failed in the same way.
proof fn lemma_vertex_steps_stop(s: IndexView, cid: ComponentId, vs: Seq<Vertex>, i: int)
    requires
        0 <= i <= vs.len(),
        vertex_steps(s, cid, vs.take(i)) is Err,
    ensures
        vertex_steps(s, cid, vs) == vertex_steps(s, cid, vs.take(i)),
    decreases vs.len() - i,
{
    if i < vs.len() {
        assert(vs.take(i + 1).drop_last() =~= vs.take(i));
        lemma_vertex_steps_stop(s, cid, vs, i + 1);
    } else {
        assert(vs.take(i) =~= vs);
    }
}

/// A failed prefix of the outputs leaves the whole run failed in the same way.
proof fn lemma_output_steps_stop(
    s: IndexView,
    cid: ComponentId,
    depth: nat,
    os: Seq<OutputField>,
    i: int,
)
    requires
        0 <= i <= os.len(),
        output_steps(s, cid, depth, os.take(i)) is Err,
    ensures
        output_steps(s, cid, depth, os) == output_steps(s, cid, depth, os.take(i)),
    decreases os.len() - i,
{
    if i < os.len() {
        assert(os.take(i + 1).drop_last() =~= os.take(i));
        lemma_output_steps_stop(s, cid, depth, os, i + 1);
    } else {
        assert(os.take(i) =~= os);
    }
}

/// A failed prefix of the edges leaves the whole run failed in the same way.
proof fn lemma_edge_steps_stop(s: IndexView, cid: ComponentId, es: Seq<Edge>, i: int)
    requires
        0 <= i <= es.len(),
        edge_steps(s, cid, es.take(i)) is Err,
    ensures
        edge_steps(s, cid, es) == edge_steps(s, cid, es.take(i)),
    decreases es.len() - i,
{
    if i < es.len() {
        assert(es.take(i + 1).drop_last() =~= es.take(i));
        lemma_edge_steps_stop(s, cid, es, i + 1);
    } else {
        assert(es.take(i) =~= es);
    }
}

/// A failed prefix of the folds leaves the whole run failed in the same way.
proof fn lemma_fold_steps_stop(s: IndexView, q: Query, cid: ComponentId, depth: nat, i: int, n: int)
    requires
        cid < q.components.len(),
        0 <= i <= n <= q.components[cid as int].folds.len(),
        fold_steps(s, q, cid, depth, i) is Err,
    ensures
        fold_steps(s, q, cid, depth, n) == fold_steps(s, q, cid, depth, i),
    decreases n - i,
{
    if i < n {
        lemma_fold_steps_stop(s, q, cid, depth, i, n - 1);
    }
}

/// The `u64`s from `lo` to `hi`, both included.
pub open spec fn id_range(lo: u64, hi: u64) -> Set<u64> {
    Set::new(|x: u64| lo <= x <= hi)
}

proof fn lemma_id_range_len(lo: u64, hi: u64)
    requires
        lo <= hi,
    ensures
        id_range(lo, hi).finite(),
        id_range(lo, hi).len() == hi - lo + 1,
    decreases hi - lo,
{
    if lo == hi {
        assert(id_range(lo, hi) =~= set![lo]);
    } else {
        let h = (hi - 1) as u64;
        lemma_id_range_len(lo, h);
        assert(id_range(lo, hi) =~= id_range(lo, h).insert(hi));
    }
}

/// With `lo` and `hi` the least and greatest ids of `a`, `a` forms an
/// interval exactly when it has `hi - lo + 1` ids.
proof fn lemma_interval_by_count(a: Set<u64>, lo: u64, hi: u64, entry: Option<u64>)
    requires
        a.finite(),
        a.contains(lo),
        a.contains(hi),
        forall|x: u64| #[trigger] a.contains(x) ==> lo <= x <= hi,
    ensures
        ids_form_interval(a, entry) == (a.len() == hi - lo + 1 && match entry {
            Some(f) => f < lo && lo == f + 1,
            None => true,
        }),
{
    let r = id_range(lo, hi);
    lemma_id_range_len(lo, hi);
    assert(a.subset_of(r));
    if ids_form_interval(a, entry) {
        assert forall|x: u64| r.contains(x) implies a.contains(x) by {
            assert(a.contains(lo) && a.contains(hi) && a.contains(x));
        }
        assert(a =~= r);
        match entry {
            Some(f) => {
                assert(a.contains((f + 1) as u64));
                assert(a.contains(lo));
            },
            None => {},
        }
    }
    if a.len() == hi - lo + 1 && match entry {
        Some(f) => f < lo && lo == f + 1,
        None => true,
    } {
        vstd::set_lib::lemma_subset_equality(a, r);
        assert(a =~= r);
    }
}

/// The four indices while they are being built.
#[derive(Debug)]
pub struct Indices {
    pub vids: BTreeMap<Vid, ComponentId>,
    pub eids: BTreeMap<Eid, EdgeKind>,
    pub required_arguments: Vec<String>,
    pub outputs: Vec<Output>,
}

impl View for Indices {
    type V = IndexView;

    open spec fn view(&self) -> IndexView {
        IndexView {
            vids: self.vids@,
            eids: self.eids@,
            required_arguments: self.required_arguments@,
            outputs: self.outputs@,
        }
    }
}

impl Indices {
    /// Indices with nothing in them.
    pub fn new() -> (r: Indices)
        ensures
            r@ == empty_indices(),
    {
        let r = Indices {
            vids: BTreeMap::new(),
            eids: BTreeMap::new(),
            required_arguments: Vec::new(),
            outputs: Vec::new(),
        };
        assert(r@.required_arguments =~= seq![]);
        assert(r@.outputs =~= seq![]);
        r
    }
}

/// Adds `n` to `names` unless a string equal to it is there already.
fn add_argument(names: &mut Vec<String>, n: &String)
    ensures
        final(names)@ == add_name(old(names)@, *n),
{
    let mut i: usize = 0;
    while i < names.len()
        invariant
            i <= names.len(),
            forall|j: int| 0 <= j < i ==> (#[trigger] names@[j])@ != n@,
        decreases names.len() - i,
    {
        if names[i] == *n {
            return;
        }
        i += 1;
    }
    names.push(n.clone());
}

/// Registers vertex `v` of component `cid` and the variables its filters use.
fn register_vertex(st: &mut Indices, cid: ComponentId, v: &Vertex) -> (r: Result<(), InvalidIRQueryError>)
    ensures
        match vertex_step(old(st)@, cid, *v) {
            Ok(t) => r is Ok && final(st)@ == t,
            Err(e) => r == Err::<(), InvalidIRQueryError>(e),
        },
{
    if st.vids.contains_key(&v.vid) {
        return Err(InvalidIRQueryError::DuplicateVertexId(v.vid));
    }
    st.vids.insert(v.vid, cid);
    let ghost names0 = st.required_arguments@;
    let mut k: usize = 0;
    while k < v.filters.len()
        invariant
            k <= v.filters.len(),
            st.required_arguments@ == add_filter_variables(names0, v.filters@.take(k as int)),
            st.vids@ == old(st)@.vids.insert(v.vid, cid),
            names0 == old(st)@.required_arguments,
            st.eids@ == old(st)@.eids,
            st.outputs@ == old(st)@.outputs,
        decreases v.filters.len() - k,
    {
        assert(v.filters@.take(k + 1).drop_last() =~= v.filters@.take(k as int));
        match &v.filters[k].right {
            Some(Argument::Variable(name)) => add_argument(&mut st.required_arguments, name),
            _ => {},
        }
        k += 1;
    }
    assert(v.filters@.take(k as int) =~= v.filters@);
    Ok(())
}

/// `t` wrapped in `n` non-nullable list layers.
fn wrap_type(t: ValueType, n: usize) -> (r: ValueType)
    ensures
        r == wrap_in_lists(t, n as nat),
{
    let mut r = t;
    let mut i: usize = 0;
    while i < n
        invariant
            i <= n,
            r == wrap_in_lists(t, i as nat),
        decreases n - i,
    {
        r = ValueType::List { inner: Box::new(r), nullable: false };
        i += 1;
    }
    r
}

/// Registers output `o` of component `cid`, which lies `depth` folds deep.
fn register_output(st: &mut Indices, cid: ComponentId, depth: usize, o: &OutputField) -> (r: Result<(), InvalidIRQueryError>)
    ensures
        match output_step(old(st)@, cid, depth as nat, *o) {
            Ok(t) => r is Ok && final(st)@ == t,
            Err(e) => r == Err::<(), InvalidIRQueryError>(e),
        },
{
    match st.vids.get(&o.vertex_id) {
        None => {
            return Err(InvalidIRQueryError::DanglingOutputVertex(o.vertex_id));
        },
        Some(owner) => {
            if *owner != cid {
                return Err(InvalidIRQueryError::OutputVertexWrongComponent(o.vertex_id));
            }
        },
    }
    let mut i: usize = 0;
    while i < st.outputs.len()
        invariant
            i <= st.outputs.len(),
            forall|j: int| 0 <= j < i ==> (#[trigger] st.outputs@[j]).name@ != o.name@,
            st@ == old(st)@,
            st.vids@.contains_key(o.vertex_id) && st.vids@[o.vertex_id] == cid,
        decreases st.outputs.len() - i,
    {
        if st.outputs[i].name == o.name {
            return Err(InvalidIRQueryError::DuplicateOutputName(o.name.clone()));
        }
        i += 1;
    }
    let value_type = wrap_type(o.field_type.duplicate(), depth);
    st.outputs.push(Output { name: o.name.clone(), value_type, vid: o.vertex_id });
    Ok(())
}

/// Registers regular edge `e` of component `cid`.
fn register_edge(st: &mut Indices, cid: ComponentId, e: &Edge) -> (r: Result<(), InvalidIRQueryError>)
    ensures
        match edge_step(old(st)@, cid, *e) {
            Ok(t) => r is Ok && final(st)@ == t,
            Err(e) => r == Err::<(), InvalidIRQueryError>(e),
        },
{
    if e.eid == u64::MAX || e.to_vid != e.eid + 1 {
        return Err(InvalidIRQueryError::EdgeIdVertexIdMismatch(e.eid, e.to_vid));
    }
    match st.vids.get(&e.from_vid) {
        None => {
            return Err(InvalidIRQueryError::EdgeEndpointMissing(e.eid, e.from_vid));
        },
        Some(owner) => {
            if *owner != cid {
                return Err(InvalidIRQueryError::EdgeEndpointWrongComponent(e.eid, e.from_vid));
            }
        },
    }
    match st.vids.get(&e.to_vid) {
        None => {
            return Err(InvalidIRQueryError::EdgeEndpointMissing(e.eid, e.to_vid));
        },
        Some(owner) => {
            if *owner != cid {
                return Err(InvalidIRQueryError::EdgeEndpointWrongComponent(e.eid, e.to_vid));
            }
        },
    }
    if st.eids.contains_key(&e.eid) {
        return Err(InvalidIRQueryError::DuplicateEdgeId(e.eid));
    }
    st.eids.insert(e.eid, EdgeKind::Regular(e.duplicate()));
    Ok(())
}

/// Registers fold `f` of component `cid`, without walking its nested component.
fn register_fold(st: &mut Indices, q: &Query, cid: ComponentId, f: &Fold) -> (r: Result<(), InvalidIRQueryError>)
    requires
        f.component < q.components.len(),
    ensures
        match fold_step(old(st)@, *q, cid, *f) {
            Ok(t) => r is Ok && final(st)@ == t,
            Err(e) => r == Err::<(), InvalidIRQueryError>(e),
        },
{
    if f.eid == u64::MAX || f.to_vid != f.eid + 1 {
        return Err(InvalidIRQueryError::FoldIdVertexIdMismatch(f.eid, f.to_vid));
    }
    match st.vids.get(&f.from_vid) {
        None => {
            return Err(InvalidIRQueryError::FoldFromEndpointWrongComponent(f.eid, f.from_vid));
        },
        Some(owner) => {
            if *owner != cid {
                return Err(InvalidIRQueryError::FoldFromEndpointWrongComponent(f.eid, f.from_vid));
            }
        },
    }
    if f.to_vid != q.components[f.component].root {
        return Err(InvalidIRQueryError::FoldToVertexNotFoldRoot(f.eid, f.to_vid));
    }
    if st.eids.contains_key(&f.eid) {
        return Err(InvalidIRQueryError::DuplicateFoldId(f.eid));
    }
    st.eids.insert(f.eid, EdgeKind::Fold(f.duplicate()));
    Ok(())
}


/// Whether `b` holds the least and greatest ids of `a`, or nothing when `a` is empty.
pub open spec fn bounds_of(a: Set<u64>, b: Option<(u64, u64)>) -> bool {
    match b {
        None => a == Set::<u64>::empty(),
        Some((lo, hi)) => a.contains(lo) && a.contains(hi) && forall|x: u64|
            #[trigger] a.contains(x) ==> lo <= x <= hi,
    }
}

proof fn lemma_bounds_union(a: Set<u64>, b: Set<u64>, ba: Option<(u64, u64)>, lo: u64, hi: u64)
    requires
        bounds_of(a, ba),
        bounds_of(b, Some((lo, hi))),
    ensures
        bounds_of(a.union(b), widen_spec(ba, lo, hi)),
{
}

/// `b` widened to take in `lo` and `hi`.
pub open spec fn widen_spec(b: Option<(u64, u64)>, lo: u64, hi: u64) -> Option<(u64, u64)> {
    match b {
        None => Some((lo, hi)),
        Some((l, h)) => Some((if l < lo { l } else { lo }, if h > hi { h } else { hi })),
    }
}

fn widen(b: Option<(u64, u64)>, lo: u64, hi: u64) -> (r: Option<(u64, u64)>)
    ensures
        r == widen_spec(b, lo, hi),
{
    match b {
        None => Some((lo, hi)),
        Some((l, h)) => Some((if l < lo { l } else { lo }, if h > hi { h } else { hi })),
    }
}

/// Walks component `cid`, `fold_depth` folds deep and entered through the
/// fold `entry`, into the indices `st`: it checks the component, registers its
/// vertices, outputs, edges and folds, walks each fold's component right after
/// the fold is registered, and checks that the edge ids it added form an
/// interval. On success it returns the least and greatest of those ids.
fn add_data_from_component(
    st: &mut Indices,
    q: &Query,
    cid: ComponentId,
    fold_depth: usize,
    entry: Option<u64>,
) -> (r: Result<Option<(u64, u64)>, InvalidIRQueryError>)
    requires
        q.well_formed(),
        cid < q.components.len(),
        fold_depth <= cid,
    ensures
        match walk(old(st)@, *q, cid, fold_depth as nat, entry) {
            Ok(t) => {
                &&& r is Ok
                &&& final(st)@ == t
                &&& old(st)@.eids.dom().subset_of(t.eids.dom())
                &&& bounds_of(added_eids(old(st)@, t), r->Ok_0)
            },
            Err(e) => r == Err::<Option<(u64, u64)>, InvalidIRQueryError>(e),
        },
        !has_vertex(q.components[cid as int], q.components[cid as int].root) ==> final(st)@ == old(
            st,
        )@,
    decreases q.components.len() - cid,
{
    let c = &q.components[cid];
    let mut found = false;
    let mut k: usize = 0;
    while k < c.vertices.len()
        invariant
            k <= c.vertices.len(),
            found == exists|j: int| 0 <= j < k && (#[trigger] c.vertices@[j]).vid == c.root,
        decreases c.vertices.len() - k,
    {
        if c.vertices[k].vid == c.root {
            found = true;
        }
        k += 1;
    }
    if !found {
        return Err(InvalidIRQueryError::MissingRoot(c.root));
    }
    assert(has_vertex(*c, c.root));
    let ghost s0 = st@;

    let mut i: usize = 0;
    while i < c.vertices.len()
        invariant
            i <= c.vertices.len(),
            vertex_steps(s0, cid, c.vertices@.take(i as int)) == Ok::<IndexView, InvalidIRQueryError>(st@),
            cid < q.components.len(),
            c == q.components[cid as int],
            has_vertex(*c, c.root),
            s0 == old(st)@,
            st@.eids == s0.eids,
        decreases c.vertices.len() - i,
    {
        assert(c.vertices@.take(i + 1).drop_last() =~= c.vertices@.take(i as int));
        let r = register_vertex(st, cid, &c.vertices[i]);
        if let Err(e) = r {
            proof {
                lemma_vertex_steps_stop(s0, cid, c.vertices@, i + 1);
            }
            return Err(e);
        }
        i += 1;
    }
    assert(c.vertices@.take(i as int) =~= c.vertices@);
    let ghost s1 = st@;

    let mut i: usize = 0;
    while i < c.outputs.len()
        invariant
            i <= c.outputs.len(),
            output_steps(s1, cid, fold_depth as nat, c.outputs@.take(i as int)) == Ok::<IndexView, InvalidIRQueryError>(st@),
            st@.eids == s0.eids,
            s1.eids == s0.eids,
            cid < q.components.len(),
            c == q.components[cid as int],
            has_vertex(*c, c.root),
            s0 == old(st)@,
            vertex_steps(s0, cid, c.vertices@) == Ok::<IndexView, InvalidIRQueryError>(s1),
        decreases c.outputs.len() - i,
    {
        assert(c.outputs@.take(i + 1).drop_last() =~= c.outputs@.take(i as int));
        let r = register_output(st, cid, fold_depth, &c.outputs[i]);
        if let Err(e) = r {
            proof {
                lemma_output_steps_stop(s1, cid, fold_depth as nat, c.outputs@, i + 1);
            }
            return Err(e);
        }
        i += 1;
    }
    assert(c.outputs@.take(i as int) =~= c.outputs@);
    let ghost s2 = st@;
    let before_len = st.eids.len();
    let mut bnd: Option<(u64, u64)> = None;
    assert(added_eids(s0, st@) =~= Set::empty());

    let mut i: usize = 0;
    while i < c.edges.len()
        invariant
            i <= c.edges.len(),
            edge_steps(s2, cid, c.edges@.take(i as int)) == Ok::<IndexView, InvalidIRQueryError>(st@),
            s2.eids == s0.eids,
            s0.eids.dom().subset_of(st@.eids.dom()),
            bounds_of(added_eids(s0, st@), bnd),
            cid < q.components.len(),
            c == q.components[cid as int],
            has_vertex(*c, c.root),
            s0 == old(st)@,
            vertex_steps(s0, cid, c.vertices@) == Ok::<IndexView, InvalidIRQueryError>(s1),
            output_steps(s1, cid, fold_depth as nat, c.outputs@) == Ok::<IndexView, InvalidIRQueryError>(s2),
        decreases c.edges.len() - i,
    {
        assert(c.edges@.take(i + 1).drop_last() =~= c.edges@.take(i as int));
        let ghost prev = st@;
        let r = register_edge(st, cid, &c.edges[i]);
        if let Err(e) = r {
            proof {
                lemma_edge_steps_stop(s2, cid, c.edges@, i + 1);
            }
            return Err(e);
        }
        proof {
            assert(added_eids(s0, st@) =~= added_eids(s0, prev).union(set![c.edges@[i as int].eid]));
            lemma_bounds_union(added_eids(s0, prev), set![c.edges@[i as int].eid], bnd, c.edges[i as int].eid, c.edges[i as int].eid);
        }
        bnd = widen(bnd, c.edges[i].eid, c.edges[i].eid);
        i += 1;
    }
    assert(c.edges@.take(i as int) =~= c.edges@);
    let ghost s3 = st@;

    let mut i: usize = 0;
    while i < c.folds.len()
        invariant
            q.well_formed(),
            cid < q.components.len(),
            fold_depth <= cid,
            c == q.components[cid as int],
            i <= c.folds.len(),
            walk(s0, *q, cid, fold_depth as nat, entry) == match fold_steps(s3, *q, cid, fold_depth as nat, c.folds.len() as int) {
                Err(e) => Err(e),
                Ok(s4) => if ids_form_interval(added_eids(s0, s4), entry) {
                    Ok(s4)
                } else {
                    Err(InvalidIRQueryError::EdgeIdsNotContiguous(c.root))
                },
            },
            fold_steps(s3, *q, cid, fold_depth as nat, i as int) == Ok::<IndexView, InvalidIRQueryError>(st@),
            has_vertex(*c, c.root),
            s0 == old(st)@,
            vertex_steps(s0, cid, c.vertices@) == Ok::<IndexView, InvalidIRQueryError>(s1),
            output_steps(s1, cid, fold_depth as nat, c.outputs@) == Ok::<IndexView, InvalidIRQueryError>(s2),
            edge_steps(s2, cid, c.edges@) == Ok::<IndexView, InvalidIRQueryError>(s3),
            s0.eids.dom().subset_of(st@.eids.dom()),
            bounds_of(added_eids(s0, st@), bnd),
            before_len == s0.eids.len(),
        decreases c.folds.len() - i,
    {
        let f = &c.folds[i];
        assert(cid < f.component < q.components.len());
        let ghost prev = st@;
        let r = register_fold(st, q, cid, f);
        let ghost u = st@;
        if let Err(e) = r {
            proof {
                lemma_fold_steps_stop(s3, *q, cid, fold_depth as nat, i + 1, c.folds.len() as int);
            }
            return Err(e);
        }
        proof {
            assert(added_eids(s0, st@) =~= added_eids(s0, prev).union(set![f.eid]));
            lemma_bounds_union(added_eids(s0, prev), set![f.eid], bnd, f.eid, f.eid);
        }
        bnd = widen(bnd, f.eid, f.eid);
        let r = add_data_from_component(st, q, f.component, fold_depth + 1, Some(f.eid));
        match r {
            Err(e) => {
                proof {
                    lemma_fold_steps_stop(s3, *q, cid, fold_depth as nat, i + 1, c.folds.len() as int);
                }
                return Err(e);
            },
            Ok(inner) => {
                proof {
                    assert(added_eids(s0, st@) =~= added_eids(s0, u).union(added_eids(u, st@)));
                }
                match inner {
                    None => {
                        assert(added_eids(s0, st@) =~= added_eids(s0, u));
                    },
                    Some((lo, hi)) => {
                        proof {
                            lemma_bounds_union(added_eids(s0, u), added_eids(u, st@), bnd, lo, hi);
                        }
                        bnd = widen(bnd, lo, hi);
                    },
                }
            },
        }
        i += 1;
    }
    let after_len = st.eids.len();
    proof {
        let a = st@.eids.dom();
        let b = s0.eids.dom();
        vstd::set_lib::lemma_set_difference_len(a, b);
        assert(a.intersect(b) =~= b);
    }
    let count = after_len - before_len;
    let fits = match bnd {
        None => true,
        Some((lo, hi)) => {
            proof {
                lemma_interval_by_count(added_eids(s0, st@), lo, hi, entry);
            }
            let enters_right = match entry {
                None => true,
                Some(f) => f < lo && lo == f + 1,
            };
            (hi - lo) as u128 + 1 == count as u128 && enters_right
        },
    };
    if !fits {
        return Err(InvalidIRQueryError::EdgeIdsNotContiguous(c.root));
    }
    Ok(bnd)
}

/// A query together with the indices that execution walks.
#[derive(Debug, Clone, PartialEq, Eq)]
pub struct IndexedQuery {
    pub ir_query: Query,
    /// Each vertex id, with the component that declares it.
    pub vids: BTreeMap<Vid, ComponentId>,
    /// Each edge id, with the regular edge or fold that carries it.
    pub eids: BTreeMap<Eid, EdgeKind>,
    /// The distinct names of the variables that filters use, in order of first use.
    pub required_arguments: Vec<String>,
    /// The outputs of the whole query, in the order of the walk: by name within
    /// each component, and components depth first.
    pub outputs: Vec<Output>,
}

impl IndexedQuery {
    /// The indices of this query.
    pub open spec fn indices(&self) -> IndexView {
        IndexView {
            vids: self.vids@,
            eids: self.eids@,
            required_arguments: self.required_arguments@,
            outputs: self.outputs@,
        }
    }

    /// Checks `ir_query` and indexes it; fails with the first invariant that
    /// it breaks, in the order of a depth-first walk from the root component.
    pub fn try_from(ir_query: Query) -> (r: Result<IndexedQuery, InvalidIRQueryError>)
        requires
            ir_query.well_formed(),
        ensures
            match walk(empty_indices(), ir_query, ir_query.root_component, 0, None) {
                Ok(t) => r is Ok && r->Ok_0.ir_query == ir_query && r->Ok_0.indices() == t,
                Err(e) => r == Err::<IndexedQuery, InvalidIRQueryError>(e),
            },
    {
        let mut st = Indices::new();
        let r = add_data_from_component(&mut st, &ir_query, ir_query.root_component, 0, None);
        match r {
            Err(e) => Err(e),
            Ok(_) => Ok(
                IndexedQuery {
                    ir_query,
                    vids: st.vids,
                    eids: st.eids,
                    required_arguments: st.required_arguments,
                    outputs: st.outputs,
                },
            ),
        }
    }
}

} // verus!
