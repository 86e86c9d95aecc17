use std::collections::BTreeMap;
use trustfall_core::indexed::{EdgeKind, IndexedQuery, Indices, InvalidIRQueryError};
use trustfall_core::ir::{
    name_before, Argument, Component, Edge, Filter, Fold, OutputField, Query, ValueType, Vertex,
};

fn string_type() -> ValueType {
    ValueType::Named { name: "String".to_string(), nullable: true }
}

fn vertex(vid: u64) -> Vertex {
    Vertex { vid, vertex_type: "Node".to_string(), filters: vec![] }
}

fn vertex_with(vid: u64, args: Vec<Option<Argument>>) -> Vertex {
    let filters = args
        .into_iter()
        .map(|right| Filter { field: "value".to_string(), operation: "=".to_string(), right })
        .collect();
    Vertex { vid, vertex_type: "Node".to_string(), filters }
}

fn edge(eid: u64, from_vid: u64, to_vid: u64) -> Edge {
    Edge { eid, from_vid, to_vid, edge_name: "next".to_string() }
}

fn fold(eid: u64, from_vid: u64, to_vid: u64, component: usize) -> Fold {
    Fold { eid, from_vid, to_vid, edge_name: "children".to_string(), component }
}

fn output(name: &str, vid: u64) -> OutputField {
    OutputField { name: name.to_string(), vertex_id: vid, field_type: string_type() }
}

fn component(root: u64, vertices: Vec<Vertex>) -> Component {
    Component { root, vertices, edges: vec![], folds: vec![], outputs: vec![] }
}

fn single(c: Component) -> Query {
    Query { root_component: 0, components: vec![c] }
}

fn index(q: Query) -> Result<IndexedQuery, InvalidIRQueryError> {
    assert!(q.is_well_formed());
    IndexedQuery::try_from(q)
}

fn list_of(t: ValueType) -> ValueType {
    ValueType::List { inner: Box::new(t), nullable: false }
}

#[test]
fn single_vertex_with_one_output() {
    let mut c = component(1, vec![vertex(1)]);
    c.outputs.push(output("name", 1));
    let iq = index(single(c)).unwrap();
    assert_eq!(iq.outputs.len(), 1);
    assert_eq!(iq.outputs[0].name, "name");
    assert_eq!(iq.outputs[0].vid, 1);
    assert_eq!(iq.outputs[0].value_type, string_type());
    assert!(iq.required_arguments.is_empty());
    assert!(iq.eids.is_empty());
    let mut vids = BTreeMap::new();
    vids.insert(1u64, 0usize);
    assert_eq!(iq.vids, vids);
}

#[test]
fn regular_edge_and_variable_filter() {
    let x = Some(Argument::Variable("x".to_string()));
    let mut c = component(1, vec![vertex(1), vertex_with(2, vec![x])]);
    c.edges.push(edge(1, 1, 2));
    let iq = index(single(c)).unwrap();
    let mut eids = BTreeMap::new();
    eids.insert(1u64, EdgeKind::Regular(edge(1, 1, 2)));
    assert_eq!(iq.eids, eids);
    assert_eq!(iq.required_arguments, vec!["x".to_string()]);
}

#[test]
fn edge_to_wrong_vertex_id() {
    let mut c = component(1, vec![vertex(1), vertex(3)]);
    c.edges.push(edge(1, 1, 3));
    assert_eq!(index(single(c)).unwrap_err(), InvalidIRQueryError::EdgeIdVertexIdMismatch(1, 3));
}

fn folded_query() -> Query {
    let mut root = component(1, vec![vertex(1)]);
    root.folds.push(fold(1, 1, 2, 1));
    let mut nested = component(2, vec![vertex(2)]);
    nested.outputs.push(output("tags", 2));
    Query { root_component: 0, components: vec![root, nested] }
}

#[test]
fn fold_output_is_wrapped_in_a_list() {
    let iq = index(folded_query()).unwrap();
    assert_eq!(iq.outputs.len(), 1);
    assert_eq!(iq.outputs[0].name, "tags");
    assert_eq!(iq.outputs[0].value_type, list_of(string_type()));
    assert_eq!(iq.vids.get(&2), Some(&1));
    assert_eq!(iq.eids.get(&1), Some(&EdgeKind::Fold(fold(1, 1, 2, 1))));
}

#[test]
fn nested_folds_wrap_once_per_level() {
    let mut root = component(1, vec![vertex(1)]);
    root.folds.push(fold(1, 1, 2, 1));
    let mut middle = component(2, vec![vertex(2)]);
    middle.folds.push(fold(2, 2, 3, 2));
    let mut inner = component(3, vec![vertex(3)]);
    inner.outputs.push(output("deep", 3));
    let q = Query { root_component: 0, components: vec![root, middle, inner] };
    let iq = index(q).unwrap();
    assert_eq!(iq.outputs[0].value_type, list_of(list_of(string_type())));
}

#[test]
fn vertex_id_declared_in_two_components() {
    let mut root = component(1, vec![vertex(1), vertex(2)]);
    root.folds.push(fold(1, 1, 2, 1));
    let nested = component(2, vec![vertex(2)]);
    let q = Query { root_component: 0, components: vec![root, nested] };
    assert_eq!(index(q).unwrap_err(), InvalidIRQueryError::DuplicateVertexId(2));
}

#[test]
fn root_output_on_nested_vertex() {
    let mut root = component(1, vec![vertex(1)]);
    root.folds.push(fold(1, 1, 2, 1));
    root.outputs.push(output("inner", 2));
    let nested = component(2, vec![vertex(2)]);
    let q = Query { root_component: 0, components: vec![root, nested] };
    // Outputs are checked before folds are walked: the nested vertex is not indexed yet.
    assert_eq!(index(q).unwrap_err(), InvalidIRQueryError::DanglingOutputVertex(2));
}

#[test]
fn output_on_vertex_of_an_earlier_component() {
    // The root's first fold indexes vertex 2; the second fold's component then
    // declares an output on it.
    let mut root = component(1, vec![vertex(1)]);
    root.folds.push(fold(1, 1, 2, 1));
    root.folds.push(fold(2, 1, 3, 2));
    let nested = component(2, vec![vertex(2)]);
    let mut second = component(3, vec![vertex(3)]);
    second.outputs.push(output("other", 2));
    let q = Query { root_component: 0, components: vec![root, nested, second] };
    assert_eq!(index(q).unwrap_err(), InvalidIRQueryError::OutputVertexWrongComponent(2));
}

#[test]
fn missing_root_vertex() {
    let c = component(5, vec![vertex(1)]);
    assert_eq!(index(single(c)).unwrap_err(), InvalidIRQueryError::MissingRoot(5));
}

#[test]
fn duplicate_output_name_across_folds() {
    let mut q = folded_query();
    q.components[0].outputs.push(output("tags", 1));
    assert_eq!(
        index(q).unwrap_err(),
        InvalidIRQueryError::DuplicateOutputName("tags".to_string())
    );
}

#[test]
fn edge_from_unknown_vertex() {
    let mut c = component(1, vec![vertex(1), vertex(2)]);
    c.edges.push(edge(1, 9, 2));
    assert_eq!(index(single(c)).unwrap_err(), InvalidIRQueryError::EdgeEndpointMissing(1, 9));
}

#[test]
fn edge_to_unknown_vertex() {
    let c = {
        let mut c = component(1, vec![vertex(1)]);
        c.edges.push(edge(1, 1, 2));
        c
    };
    assert_eq!(index(single(c)).unwrap_err(), InvalidIRQueryError::EdgeEndpointMissing(1, 2));
}

#[test]
fn edge_into_another_component() {
    let mut root = component(1, vec![vertex(1)]);
    root.folds.push(fold(1, 1, 2, 1));
    root.folds.push(fold(3, 1, 4, 2));
    let mut nested = component(2, vec![vertex(2), vertex(3), vertex(5)]);
    nested.edges.push(edge(2, 2, 3));
    let mut second = component(4, vec![vertex(4)]);
    second.edges.push(edge(4, 4, 5));
    let q = Query { root_component: 0, components: vec![root, nested, second] };
    assert_eq!(index(q).unwrap_err(), InvalidIRQueryError::EdgeEndpointWrongComponent(4, 5));
}

#[test]
fn repeated_ids_within_a_component_are_out_of_order() {
    let mut c = component(1, vec![vertex(1), vertex(2)]);
    c.edges.push(edge(1, 1, 2));
    c.edges.push(edge(1, 2, 2));
    assert!(!single(c).is_well_formed());
    let c = component(1, vec![vertex(1), vertex(1)]);
    assert!(!single(c).is_well_formed());
}

#[test]
fn fold_to_wrong_vertex_id() {
    let mut q = folded_query();
    q.components[0].folds[0].to_vid = 7;
    assert_eq!(index(q).unwrap_err(), InvalidIRQueryError::FoldIdVertexIdMismatch(1, 7));
}

#[test]
fn fold_from_unknown_vertex() {
    let mut q = folded_query();
    q.components[0].folds[0].from_vid = 8;
    assert_eq!(
        index(q).unwrap_err(),
        InvalidIRQueryError::FoldFromEndpointWrongComponent(1, 8)
    );
}

#[test]
fn fold_not_into_the_nested_root() {
    let mut root = component(1, vec![vertex(1)]);
    root.folds.push(fold(1, 1, 2, 1));
    let nested = component(3, vec![vertex(2), vertex(3)]);
    let q = Query { root_component: 0, components: vec![root, nested] };
    assert_eq!(index(q).unwrap_err(), InvalidIRQueryError::FoldToVertexNotFoldRoot(1, 2));
}

#[test]
fn fold_id_shared_with_an_edge() {
    let mut root = component(1, vec![vertex(1), vertex(2)]);
    root.edges.push(edge(1, 1, 2));
    root.folds.push(fold(1, 1, 2, 1));
    let nested = component(2, vec![vertex(2)]);
    let q = Query { root_component: 0, components: vec![root, nested] };
    assert_eq!(index(q).unwrap_err(), InvalidIRQueryError::DuplicateFoldId(1));
}

#[test]
fn tags_are_not_required_and_variables_are_listed_once() {
    let filters = vec![
        Some(Argument::Variable("a".to_string())),
        Some(Argument::Tag("t".to_string())),
        None,
        Some(Argument::Variable("a".to_string())),
    ];
    let mut root = component(1, vec![vertex_with(1, filters)]);
    root.folds.push(fold(1, 1, 2, 1));
    let nested = component(2, vec![vertex_with(2, vec![Some(Argument::Variable("b".to_string()))])]);
    let q = Query { root_component: 0, components: vec![root, nested] };
    let iq = index(q).unwrap();
    assert_eq!(iq.required_arguments, vec!["a".to_string(), "b".to_string()]);
}

#[test]
fn every_edge_points_to_the_next_vertex_id() {
    let mut root = component(1, vec![vertex(1), vertex(2), vertex(4)]);
    root.edges.push(edge(1, 1, 2));
    root.folds.push(fold(2, 2, 3, 1));
    root.edges.push(edge(3, 2, 4));
    let nested = component(3, vec![vertex(3)]);
    let q = Query { root_component: 0, components: vec![root, nested] };
    // Edges come before folds within a component.
    let iq = index(q).unwrap();
    assert_eq!(iq.eids.len(), 3);
    for (eid, kind) in &iq.eids {
        let to_vid = match kind {
            EdgeKind::Regular(e) => e.to_vid,
            EdgeKind::Fold(f) => f.to_vid,
        };
        assert_eq!(to_vid, eid + 1);
    }
}

#[test]
fn gaps_in_edge_ids_are_rejected() {
    let mut c = component(1, vec![vertex(1), vertex(2), vertex(4)]);
    c.edges.push(edge(1, 1, 2));
    c.edges.push(edge(3, 1, 4));
    assert_eq!(index(single(c)).unwrap_err(), InvalidIRQueryError::EdgeIdsNotContiguous(1));
}

#[test]
fn nested_edge_ids_start_after_the_fold() {
    let mut root = component(1, vec![vertex(1)]);
    root.folds.push(fold(1, 1, 2, 1));
    let mut nested = component(2, vec![vertex(2), vertex(4)]);
    nested.edges.push(edge(3, 2, 4));
    let q = Query { root_component: 0, components: vec![root, nested] };
    assert_eq!(index(q).unwrap_err(), InvalidIRQueryError::EdgeIdsNotContiguous(2));
}

#[test]
fn interleaved_edge_ids_form_one_interval() {
    // Root edges 1 and 4 around fold 2, whose component holds edge 3.
    let mut root = component(1, vec![vertex(1), vertex(2), vertex(5)]);
    root.edges.push(edge(1, 1, 2));
    root.edges.push(edge(4, 2, 5));
    root.folds.push(fold(2, 2, 3, 1));
    let mut nested = component(3, vec![vertex(3), vertex(4)]);
    nested.edges.push(edge(3, 3, 4));
    let q = Query { root_component: 0, components: vec![root, nested] };
    let iq = index(q).unwrap();
    assert_eq!(iq.eids.keys().copied().collect::<Vec<u64>>(), vec![1, 2, 3, 4]);
}

#[test]
fn errors_follow_id_order_within_a_component() {
    let mut c = component(1, vec![vertex(1), vertex(2), vertex(5)]);
    c.edges.push(edge(1, 9, 2));
    c.edges.push(edge(2, 1, 5));
    assert_eq!(index(single(c)).unwrap_err(), InvalidIRQueryError::EdgeEndpointMissing(1, 9));
    let mut c = component(1, vec![vertex(1)]);
    c.edges.push(edge(2, 1, 5));
    c.edges.push(edge(1, 9, 2));
    assert!(!single(c).is_well_formed());
}

#[test]
fn outputs_in_name_order() {
    let mut c = component(1, vec![vertex(1)]);
    c.outputs.push(output("b", 1));
    c.outputs.push(output("a", 1));
    assert!(!single(c).is_well_formed());
    let mut c = component(1, vec![vertex(1)]);
    c.outputs.push(output("a", 1));
    c.outputs.push(output("b", 1));
    assert!(single(c).is_well_formed());
}

#[test]
fn names_compare_by_bytes() {
    let s = |x: &str| x.to_string();
    assert!(name_before(&s("a"), &s("b")));
    assert!(name_before(&s("a"), &s("ab")));
    assert!(name_before(&s("ab"), &s("b")));
    assert!(name_before(&s("B"), &s("a")));
    assert!(!name_before(&s("b"), &s("a")));
    assert!(!name_before(&s("a"), &s("a")));
    assert!(name_before(&s(""), &s("a")));
}

#[test]
fn well_formedness_of_the_component_layout() {
    let q = folded_query();
    assert!(q.is_well_formed());
    let mut bad = folded_query();
    bad.components[0].folds[0].component = 0;
    assert!(!bad.is_well_formed());
    let mut bad = folded_query();
    bad.components[0].folds[0].component = 5;
    assert!(!bad.is_well_formed());
    let bad = Query { root_component: 1, components: vec![component(1, vec![vertex(1)])] };
    assert!(!bad.is_well_formed());
}

#[test]
fn edge_kind_from_edge_and_fold() {
    assert_eq!(EdgeKind::from(edge(1, 1, 2)), EdgeKind::Regular(edge(1, 1, 2)));
    assert_eq!(EdgeKind::from(fold(1, 1, 2, 1)), EdgeKind::Fold(fold(1, 1, 2, 1)));
}

#[test]
fn value_type_copies() {
    let t = list_of(string_type());
    assert_eq!(t.duplicate(), t);
}

#[test]
fn empty_indices() {
    let st = Indices::new();
    assert!(st.vids.is_empty() && st.eids.is_empty());
    assert!(st.required_arguments.is_empty() && st.outputs.is_empty());
}
