//! What holds of the indices of every query that the walk accepts.
use vstd::prelude::*;
use crate::indexed::{
    add_filter_variables, add_name, added_eids, ids_form_interval, edge_step, edge_steps, empty_indices, fold_step, fold_steps,
    has_name, has_vertex, output_step, output_steps, vertex_steps, walk, EdgeKind, IndexView, IndexedQuery,
    InvalidIRQueryError, Output,
};
use crate::ir::{wrap_in_lists, Argument, ComponentId, Edge, Filter, OutputField, Query, Vertex};

verus! {

/// No two names of `names` are equal.
pub open spec fn names_distinct(names: Seq<String>) -> bool {
    forall|i: int, j: int| 0 <= i < j < names.len() ==> (#[trigger] names[i])@ != (#[trigger] names[j])@
}

/// No two outputs of `outs` share a name.
pub open spec fn outputs_distinct(outs: Seq<Output>) -> bool {
    forall|i: int, j: int|
        0 <= i < j < outs.len() ==> (#[trigger] outs[i]).name@ != (#[trigger] outs[j]).name@
}

/// Each edge id is carried by an edge or fold of that id whose `to` vertex id
/// is one more than it.
pub open spec fn edge_ids_match(eids: Map<u64, EdgeKind>) -> bool {
    forall|e: u64|
        #[trigger] eids.contains_key(e) ==> match eids[e] {
            EdgeKind::Regular(ed) => ed.eid == e && ed.to_vid == e + 1,
            EdgeKind::Fold(f) => f.eid == e && f.to_vid == e + 1,
        }
}

/// Whether filter `f` compares against the variable named `n`.
pub open spec fn filter_uses_variable(f: Filter, n: Seq<char>) -> bool {
    match f.right {
        Some(Argument::Variable(v)) => v@ == n,
        _ => false,
    }
}

/// Whether some filter of some vertex of `q` compares against the variable named `n`.
pub open spec fn query_uses_variable(q: Query, n: Seq<char>) -> bool {
    exists|c: int, k: int, j: int|
        0 <= c < q.components.len() && 0 <= k < q.components[c].vertices.len() && 0 <= j
            < q.components[c].vertices[k].filters.len() && filter_uses_variable(
            #[trigger] q.components[c].vertices[k].filters[j],
            n,
        )
}

/// Whether `names` holds every variable that a filter of component `c` uses.
pub open spec fn covers_component(q: Query, c: ComponentId, names: Seq<String>) -> bool {
    forall|k: int, j: int, n: String|
        0 <= k < q.components[c as int].vertices.len() && 0 <= j
            < q.components[c as int].vertices[k].filters.len() && filter_uses_variable(
            #[trigger] q.components[c as int].vertices[k].filters[j],
            n@,
        ) ==> #[trigger] has_name(names, n)
}

/// Whether component `c` of `q` lies `n` folds below the root component.
pub open spec fn fold_depth_is(q: Query, c: ComponentId, n: nat) -> bool
    decreases n,
{
    if n == 0 {
        c == q.root_component
    } else {
        exists|p: ComponentId, k: int|
            p < q.components.len() && 0 <= k < q.components[p as int].folds.len()
                && (#[trigger] q.components[p as int].folds[k]).component == c && fold_depth_is(
                q,
                p,
                (n - 1) as nat,
            )
    }
}

/// Whether `o` is an output that some component of `q` declares, `n` folds
/// deep, with the declared type wrapped in `n` lists.
pub open spec fn output_declared(q: Query, o: Output) -> bool {
    exists|c: ComponentId, k: int, n: nat|
        #![trigger q.components[c as int].outputs[k], fold_depth_is(q, c, n)]
        c < q.components.len() && 0 <= k < q.components[c as int].outputs.len() && fold_depth_is(
            q,
            c,
            n,
        ) && q.components[c as int].outputs[k].name == o.name
            && q.components[c as int].outputs[k].vertex_id == o.vid && o.value_type
            == wrap_in_lists(q.components[c as int].outputs[k].field_type, n)
}

/// What every stage of the walk keeps.
pub open spec fn index_invariant(s: IndexView, q: Query) -> bool {
    &&& names_distinct(s.required_arguments)
    &&& outputs_distinct(s.outputs)
    &&& edge_ids_match(s.eids)
    &&& forall|i: int|
        0 <= i < s.required_arguments.len() ==> query_uses_variable(
            q,
            (#[trigger] s.required_arguments[i])@,
        )
    &&& forall|v: u64| #[trigger]
        s.vids.contains_key(v) ==> covers_component(q, s.vids[v], s.required_arguments)
    &&& forall|i: int| 0 <= i < s.outputs.len() ==> output_declared(q, #[trigger] s.outputs[i])
    &&& vids_declared(s.vids, q)
    &&& vids_complete(s.vids, q)
}

/// Every vertex of every component that the vertex index names is indexed,
/// under that component.
pub open spec fn vids_complete(vids: Map<u64, ComponentId>, q: Query) -> bool {
    forall|v: u64, k: int|
        #![trigger vids.contains_key(v), q.components[vids[v] as int].vertices[k]]
        vids.contains_key(v) && 0 <= k < q.components[vids[v] as int].vertices.len() ==> {
            let w = q.components[vids[v] as int].vertices[k].vid;
            vids.contains_key(w) && vids[w] == vids[v]
        }
}

/// Each indexed vertex id maps to a component of `q` that declares a vertex of that id.
pub open spec fn vids_declared(vids: Map<u64, ComponentId>, q: Query) -> bool {
    forall|v: u64| #[trigger]
        vids.contains_key(v) ==> vids[v] < q.components.len() && has_vertex(
            q.components[vids[v] as int],
            v,
        )
}

proof fn lemma_add_name(names: Seq<String>, n: String)
    requires
        names_distinct(names),
    ensures
        names_distinct(add_name(names, n)),
        has_name(add_name(names, n), n),
        forall|m: String| has_name(names, m) ==> #[trigger] has_name(add_name(names, n), m),
        forall|i: int|
            0 <= i < add_name(names, n).len() ==> has_name(names, #[trigger] add_name(names, n)[i])
                || add_name(names, n)[i]@ == n@,
{
    let r = add_name(names, n);
    if !has_name(names, n) {
        assert(r[names.len() as int] == n);
        assert forall|m: String| has_name(names, m) implies #[trigger] has_name(r, m) by {
            let i = choose|i: int| 0 <= i < names.len() && (#[trigger] names[i])@ == m@;
            assert(r[i] == names[i]);
        }
        assert forall|i: int| 0 <= i < r.len() implies has_name(names, #[trigger] r[i]) || r[i]@ == n@ by {
            if i < names.len() {
                assert(r[i] == names[i]);
            }
        }
    } else {
        assert forall|i: int| 0 <= i < r.len() implies has_name(names, #[trigger] r[i]) || r[i]@ == n@ by {
            assert(names[i]@ == r[i]@);
        }
    }
}

proof fn lemma_add_filter_variables(names: Seq<String>, fs: Seq<Filter>)
    requires
        names_distinct(names),
    ensures
        names_distinct(add_filter_variables(names, fs)),
        forall|m: String| has_name(names, m) ==> #[trigger] has_name(add_filter_variables(names, fs), m),
        forall|j: int, m: String|
            0 <= j < fs.len() && filter_uses_variable(#[trigger] fs[j], m@) ==> #[trigger] has_name(
                add_filter_variables(names, fs),
                m,
            ),
        forall|i: int|
            0 <= i < add_filter_variables(names, fs).len() ==> has_name(
                names,
                #[trigger] add_filter_variables(names, fs)[i],
            ) || exists|j: int|
                0 <= j < fs.len() && filter_uses_variable(
                    #[trigger] fs[j],
                    add_filter_variables(names, fs)[i]@,
                ),
    decreases fs.len(),
{
    if fs.len() > 0 {
        let d = fs.drop_last();
        lemma_add_filter_variables(names, d);
        let prev = add_filter_variables(names, d);
        let r = add_filter_variables(names, fs);
        match fs.last().right {
            Some(Argument::Variable(n)) => {
                lemma_add_name(prev, n);
            },
            _ => {},
        }
        assert forall|j: int, m: String|
            0 <= j < fs.len() && filter_uses_variable(#[trigger] fs[j], m@) implies #[trigger] has_name(
            r,
            m,
        ) by {
            if j < fs.len() - 1 {
                assert(d[j] == fs[j]);
                assert(has_name(prev, m));
            } else {
                match fs.last().right {
                    Some(Argument::Variable(n)) => {
                        let i = choose|i: int| 0 <= i < r.len() && (#[trigger] r[i])@ == n@;
                        assert(r[i]@ == m@);
                    },
                    _ => {},
                }
            }
        }
        assert forall|i: int| 0 <= i < r.len() implies has_name(names, #[trigger] r[i]) || exists|j: int|
            0 <= j < fs.len() && filter_uses_variable(#[trigger] fs[j], r[i]@) by {
            let x = r[i];
            if has_name(prev, x) {
                let i2 = choose|i2: int| 0 <= i2 < prev.len() && (#[trigger] prev[i2])@ == x@;
                if !has_name(names, prev[i2]) {
                    let j = choose|j: int| 0 <= j < d.len() && filter_uses_variable(#[trigger] d[j], prev[i2]@);
                    assert(d[j] == fs[j]);
                }
            } else {
                assert(filter_uses_variable(fs[fs.len() - 1], x@));
            }
        }
    }
}

proof fn lemma_vertex_steps(s: IndexView, q: Query, cid: ComponentId, vs: Seq<Vertex>)
    requires
        index_invariant(s, q),
        cid < q.components.len(),
        vs.len() <= q.components[cid as int].vertices.len(),
        forall|k: int| 0 <= k < vs.len() ==> vs[k] == #[trigger] q.components[cid as int].vertices[k],
        vertex_steps(s, cid, vs) is Ok,
    ensures
        ({
            let t = vertex_steps(s, cid, vs)->Ok_0;
            &&& names_distinct(t.required_arguments)
            &&& forall|i: int|
                0 <= i < t.required_arguments.len() ==> query_uses_variable(
                    q,
                    (#[trigger] t.required_arguments[i])@,
                )
            &&& forall|m: String| has_name(s.required_arguments, m) ==> #[trigger] has_name(t.required_arguments, m)
            &&& forall|k: int, j: int, m: String|
                0 <= k < vs.len() && 0 <= j < q.components[cid as int].vertices[k].filters.len()
                    && filter_uses_variable(
                    #[trigger] q.components[cid as int].vertices[k].filters[j],
                    m@,
                ) ==> #[trigger] has_name(t.required_arguments, m)
            &&& forall|v: u64| #[trigger]
                t.vids.contains_key(v) ==> (s.vids.contains_key(v) && t.vids[v] == s.vids[v]) || (
                t.vids[v] == cid && has_vertex(q.components[cid as int], v))
            &&& t.eids == s.eids
            &&& t.outputs == s.outputs
            &&& forall|v: u64| #[trigger]
                s.vids.contains_key(v) ==> t.vids.contains_key(v) && t.vids[v] == s.vids[v]
            &&& forall|k: int|
                0 <= k < vs.len() ==> t.vids.contains_key(#[trigger] vs[k].vid) && t.vids[vs[k].vid]
                    == cid
        }),
    decreases vs.len(),
{
    if vs.len() > 0 {
        let d = vs.drop_last();
        lemma_vertex_steps(s, q, cid, d);
        let t = vertex_steps(s, cid, d)->Ok_0;
        let v = vs.last();
        let k0 = vs.len() - 1;
        lemma_add_filter_variables(t.required_arguments, v.filters@);
        let u = vertex_steps(s, cid, vs)->Ok_0;
        assert(q.components[cid as int].vertices[k0] == v);
        assert forall|k: int| 0 <= k < vs.len() implies u.vids.contains_key(#[trigger] vs[k].vid)
            && u.vids[vs[k].vid] == cid by {
            if k < vs.len() - 1 {
                assert(d[k] == vs[k]);
            }
        }
        assert forall|i: int| 0 <= i < u.required_arguments.len() implies query_uses_variable(
            q,
            (#[trigger] u.required_arguments[i])@,
        ) by {
            let x = u.required_arguments[i];
            if has_name(t.required_arguments, x) {
                let i2 = choose|i2: int| 0 <= i2 < t.required_arguments.len() && (#[trigger] t.required_arguments[i2])@ == x@;
                assert(query_uses_variable(q, t.required_arguments[i2]@));
            } else {
                let j = choose|j: int| 0 <= j < v.filters@.len() && filter_uses_variable(#[trigger] v.filters@[j], x@);
                assert(q.components[cid as int].vertices[k0].filters[j] == v.filters@[j]);
            }
        }
        assert forall|k: int, j: int, m: String|
            0 <= k < vs.len() && 0 <= j < q.components[cid as int].vertices[k].filters.len()
                && filter_uses_variable(
                #[trigger] q.components[cid as int].vertices[k].filters[j],
                m@,
            ) implies #[trigger] has_name(u.required_arguments, m) by {
            if k < vs.len() - 1 {
                assert(has_name(t.required_arguments, m));
            } else {
                assert(v.filters@[j] == q.components[cid as int].vertices[k].filters[j]);
            }
        }
    }
}

proof fn lemma_output_steps(s: IndexView, q: Query, cid: ComponentId, depth: nat, os: Seq<OutputField>)
    requires
        index_invariant(s, q),
        cid < q.components.len(),
        fold_depth_is(q, cid, depth),
        os.len() <= q.components[cid as int].outputs.len(),
        forall|k: int| 0 <= k < os.len() ==> os[k] == #[trigger] q.components[cid as int].outputs[k],
        output_steps(s, cid, depth, os) is Ok,
    ensures
        index_invariant(output_steps(s, cid, depth, os)->Ok_0, q),
        output_steps(s, cid, depth, os)->Ok_0.vids == s.vids,
        output_steps(s, cid, depth, os)->Ok_0.required_arguments == s.required_arguments,
    decreases os.len(),
{
    if os.len() > 0 {
        lemma_output_steps(s, q, cid, depth, os.drop_last());
        let t = output_steps(s, cid, depth, os.drop_last())->Ok_0;
        let u = output_step(t, cid, depth, os.last())->Ok_0;
        let k0 = os.len() - 1;
        assert forall|i: int, j: int| 0 <= i < j < u.outputs.len() implies (#[trigger] u.outputs[i]).name@
            != (#[trigger] u.outputs[j]).name@ by {
            if j == u.outputs.len() - 1 {
                assert(t.outputs[i] == u.outputs[i]);
            } else {
                assert(t.outputs[i] == u.outputs[i] && t.outputs[j] == u.outputs[j]);
            }
        }
        assert forall|i: int| 0 <= i < u.outputs.len() implies output_declared(q, #[trigger] u.outputs[i]) by {
            if i < t.outputs.len() {
                assert(t.outputs[i] == u.outputs[i]);
            } else {
                assert(q.components[cid as int].outputs[k0] == os[k0]);
                assert(fold_depth_is(q, cid, depth));
            }
        }
    }
}

proof fn lemma_edge_steps(s: IndexView, q: Query, cid: ComponentId, es: Seq<Edge>)
    requires
        index_invariant(s, q),
        edge_steps(s, cid, es) is Ok,
    ensures
        index_invariant(edge_steps(s, cid, es)->Ok_0, q),
        edge_steps(s, cid, es)->Ok_0.vids == s.vids,
        edge_steps(s, cid, es)->Ok_0.required_arguments == s.required_arguments,
    decreases es.len(),
{
    if es.len() > 0 {
        lemma_edge_steps(s, q, cid, es.drop_last());
        let t = edge_steps(s, cid, es.drop_last())->Ok_0;
        let u = edge_step(t, cid, es.last())->Ok_0;
        assert forall|e: u64| #[trigger] u.eids.contains_key(e) implies match u.eids[e] {
            EdgeKind::Regular(ed) => ed.eid == e && ed.to_vid == e + 1,
            EdgeKind::Fold(f) => f.eid == e && f.to_vid == e + 1,
        } by {
            if e != es.last().eid {
                assert(t.eids.contains_key(e));
            }
        }
    }
}

proof fn lemma_walk(s: IndexView, q: Query, cid: ComponentId, depth: nat, entry: Option<u64>)
    requires
        q.well_formed(),
        index_invariant(s, q),
        fold_depth_is(q, cid, depth),
        walk(s, q, cid, depth, entry) is Ok,
    ensures
        index_invariant(walk(s, q, cid, depth, entry)->Ok_0, q),
    decreases q.components.len() - cid, 1int, 0int,
{
    if cid < q.components.len() {
        let c = q.components[cid as int];
        lemma_vertex_steps(s, q, cid, c.vertices@);
        let s1 = vertex_steps(s, cid, c.vertices@)->Ok_0;
        assert forall|v: u64| #[trigger] s1.vids.contains_key(v) implies covers_component(
            q,
            s1.vids[v],
            s1.required_arguments,
        ) by {
            if s.vids.contains_key(v) && s1.vids[v] == s.vids[v] {
                assert(covers_component(q, s.vids[v], s.required_arguments));
            }
        }
        assert forall|v: u64, k: int|
            s1.vids.contains_key(v) && 0 <= k < q.components[s1.vids[v] as int].vertices.len() implies {
            let w = #[trigger] q.components[s1.vids[v] as int].vertices[k].vid;
            s1.vids.contains_key(w) && s1.vids[w] == s1.vids[v]
        } by {
            if s.vids.contains_key(v) && s1.vids[v] == s.vids[v] {
                let w = q.components[s.vids[v] as int].vertices[k].vid;
                assert(s.vids.contains_key(w));
            } else {
                assert(c.vertices@[k] == q.components[cid as int].vertices[k]);
            }
        }
        assert forall|v: u64| #[trigger] s1.vids.contains_key(v) implies s1.vids[v] < q.components.len()
            && has_vertex(q.components[s1.vids[v] as int], v) by {
            if s.vids.contains_key(v) && s1.vids[v] == s.vids[v] {
                assert(s.vids.contains_key(v));
            }
        }
        lemma_output_steps(s1, q, cid, depth, c.outputs@);
        let s2 = output_steps(s1, cid, depth, c.outputs@)->Ok_0;
        lemma_edge_steps(s2, q, cid, c.edges@);
        let s3 = edge_steps(s2, cid, c.edges@)->Ok_0;
        lemma_fold_steps(s3, q, cid, depth, c.folds.len() as int);
    }
}

proof fn lemma_fold_steps(s: IndexView, q: Query, cid: ComponentId, depth: nat, n: int)
    requires
        q.well_formed(),
        index_invariant(s, q),
        fold_depth_is(q, cid, depth),
        fold_steps(s, q, cid, depth, n) is Ok,
    ensures
        index_invariant(fold_steps(s, q, cid, depth, n)->Ok_0, q),
    decreases q.components.len() - cid, 0int, n,
{
    if cid < q.components.len() && 0 < n <= q.components[cid as int].folds.len() {
        lemma_fold_steps(s, q, cid, depth, n - 1);
        let t = fold_steps(s, q, cid, depth, n - 1)->Ok_0;
        let f = q.components[cid as int].folds[n - 1];
        if cid < f.component < q.components.len() {
            let u = fold_step(t, q, cid, f)->Ok_0;
            assert forall|e: u64| #[trigger] u.eids.contains_key(e) implies match u.eids[e] {
                EdgeKind::Regular(ed) => ed.eid == e && ed.to_vid == e + 1,
                EdgeKind::Fold(f) => f.eid == e && f.to_vid == e + 1,
            } by {
                if e != f.eid {
                    assert(t.eids.contains_key(e));
                }
            }
            assert(fold_depth_is(q, f.component, depth + 1)) by {
                assert(q.components[cid as int].folds[n - 1].component == f.component);
            }
            lemma_walk(u, q, f.component, depth + 1, Some(f.eid));
        }
    }
}

/// Every edge id of an accepted query is carried by an edge or fold of that
/// id, and that edge's or fold's `to` vertex id is the edge id plus one.
pub proof fn lemma_edge_ids_point_to_next_vertex(q: Query, iq: IndexedQuery)
    requires
        q.well_formed(),
        walk(empty_indices(), q, q.root_component, 0, None) == Ok::<IndexView, InvalidIRQueryError>(iq.indices()),
    ensures
        edge_ids_match(iq.eids@),
{
    lemma_walk(empty_indices(), q, q.root_component, 0, None);
}

/// Vertex ids, edge ids and output names are each unique in an accepted
/// query's indices: the vertex and edge indices are maps, each vertex id maps
/// to a component that declares that vertex, every vertex of each component
/// so named is indexed under it, no two outputs share a name, and no variable
/// name is listed twice.
pub proof fn lemma_indices_unique(q: Query, iq: IndexedQuery)
    requires
        q.well_formed(),
        walk(empty_indices(), q, q.root_component, 0, None) == Ok::<IndexView, InvalidIRQueryError>(iq.indices()),
    ensures
        outputs_distinct(iq.outputs@),
        names_distinct(iq.required_arguments@),
        vids_declared(iq.vids@, q),
        vids_complete(iq.vids@, q),
{
    lemma_walk(empty_indices(), q, q.root_component, 0, None);
}

/// Each output of an accepted query is declared by a component that lies some
/// number `n` of folds below the root component, and its type is the declared
/// field type wrapped in exactly `n` non-nullable lists (none at the root).
pub proof fn lemma_output_types_follow_fold_depth(q: Query, iq: IndexedQuery)
    requires
        q.well_formed(),
        walk(empty_indices(), q, q.root_component, 0, None) == Ok::<IndexView, InvalidIRQueryError>(iq.indices()),
    ensures
        forall|i: int| 0 <= i < iq.outputs@.len() ==> output_declared(q, #[trigger] iq.outputs@[i]),
{
    lemma_walk(empty_indices(), q, q.root_component, 0, None);
}

/// The required arguments of an accepted query are exactly the variables that
/// its filters use: each listed name is a variable of some filter (a tag never
/// is), and every variable of every filter of every indexed component is listed.
pub proof fn lemma_required_arguments_exact(q: Query, iq: IndexedQuery)
    requires
        q.well_formed(),
        walk(empty_indices(), q, q.root_component, 0, None) == Ok::<IndexView, InvalidIRQueryError>(iq.indices()),
    ensures
        forall|i: int|
            0 <= i < iq.required_arguments@.len() ==> query_uses_variable(
                q,
                (#[trigger] iq.required_arguments@[i])@,
            ),
        forall|v: u64| #[trigger]
            iq.vids@.contains_key(v) ==> covers_component(q, iq.vids@[v], iq.required_arguments@),
{
    lemma_walk(empty_indices(), q, q.root_component, 0, None);
    let t = iq.indices();
    assert forall|v: u64| #[trigger] iq.vids@.contains_key(v) implies covers_component(
        q,
        iq.vids@[v],
        iq.required_arguments@,
    ) by {
        assert(t.vids.contains_key(v));
    }
}

/// Walking any component of a query, from any indices, and succeeding adds
/// edge ids that form a gap-free interval, which starts right after the id of
/// the fold that led into the component. Every component of an accepted query
/// is walked this way, the nested ones from within the walk of their parent.
pub proof fn lemma_component_edge_ids_contiguous(
    s: IndexView,
    q: Query,
    cid: ComponentId,
    depth: nat,
    entry: Option<u64>,
)
    requires
        walk(s, q, cid, depth, entry) is Ok,
        cid < q.components.len(),
    ensures
        ids_form_interval(added_eids(s, walk(s, q, cid, depth, entry)->Ok_0), entry),
{
}

/// The edge ids of an accepted query form a gap-free interval.
pub proof fn lemma_edge_ids_contiguous(q: Query, iq: IndexedQuery)
    requires
        q.well_formed(),
        walk(empty_indices(), q, q.root_component, 0, None) == Ok::<IndexView, InvalidIRQueryError>(iq.indices()),
    ensures
        ids_form_interval(iq.eids@.dom(), None),
{
    lemma_component_edge_ids_contiguous(empty_indices(), q, q.root_component, 0, None);
    assert(added_eids(empty_indices(), iq.indices()) =~= iq.eids@.dom());
}

} // verus!
