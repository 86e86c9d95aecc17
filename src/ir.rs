//! The tree of components that a query is made of.
use vstd::prelude::*;

verus! {

/// A vertex id.
pub type Vid = u64;

/// An edge id, shared by regular edges and folds.
pub type Eid = u64;

/// A component's identifier: its position in the query's component list.
pub type ComponentId = usize;

/// The type of a value: a named leaf type, or a list of values of an inner type.
#[derive(Debug, PartialEq, Eq)]
pub enum ValueType {
    Named { name: String, nullable: bool },
    List { inner: Box<ValueType>, nullable: bool },
}

/// `t` wrapped in `n` non-nullable list layers.
pub open spec fn wrap_in_lists(t: ValueType, n: nat) -> ValueType
    decreases n,
{
    if n == 0 {
        t
    } else {
        ValueType::List { inner: Box::new(wrap_in_lists(t, (n - 1) as nat)), nullable: false }
    }
}

impl Clone for ValueType {
    fn clone(&self) -> (r: ValueType)
        ensures
            r == *self,
    {
        self.duplicate()
    }
}

impl ValueType {
    /// A copy of this type.
    pub fn duplicate(&self) -> (r: ValueType)
        ensures
            r == *self,
        decreases self,
    {
        match self {
            ValueType::Named { name, nullable } => ValueType::Named {
                name: name.clone(),
                nullable: *nullable,
            },
            ValueType::List { inner, nullable } => {
                let i = inner.duplicate();
                ValueType::List { inner: Box::new(i), nullable: *nullable }
            },
        }
    }
}

/// The right-hand side of a filter.
#[derive(Debug, Clone, PartialEq, Eq)]
pub enum Argument {
    /// A variable that the caller supplies when the query runs.
    Variable(String),
    /// A value that an earlier vertex of the query produces, named by its tag.
    Tag(String),
}

/// A filter on one of a vertex's fields.
#[derive(Debug, Clone, PartialEq, Eq)]
pub struct Filter {
    pub field: String,
    pub operation: String,
    pub right: Option<Argument>,
}

/// A vertex of the query graph.
#[derive(Debug, Clone, PartialEq, Eq)]
pub struct Vertex {
    pub vid: Vid,
    pub vertex_type: String,
    pub filters: Vec<Filter>,
}

/// A traversal between two vertices of one component.
#[derive(Debug, Clone, PartialEq, Eq)]
pub struct Edge {
    pub eid: Eid,
    pub from_vid: Vid,
    pub to_vid: Vid,
    pub edge_name: String,
}

/// A traversal from a vertex into a nested component, whose root is `to_vid`.
#[derive(Debug, Clone, PartialEq, Eq)]
pub struct Fold {
    pub eid: Eid,
    pub from_vid: Vid,
    pub to_vid: Vid,
    pub edge_name: String,
    pub component: ComponentId,
}

/// A declared output: a field of a vertex, with the field's own type.
#[derive(Debug, Clone, PartialEq, Eq)]
pub struct OutputField {
    pub name: String,
    pub vertex_id: Vid,
    pub field_type: ValueType,
}

/// A sub-graph with one root vertex and its own vertices, edges, folds and outputs.
#[derive(Debug, Clone, PartialEq, Eq)]
pub struct Component {
    pub root: Vid,
    pub vertices: Vec<Vertex>,
    pub edges: Vec<Edge>,
    pub folds: Vec<Fold>,
    pub outputs: Vec<OutputField>,
}

/// Whether byte string `x` comes before `y` in lexicographic order.
pub open spec fn bytes_lt(x: Seq<u8>, y: Seq<u8>) -> bool
    decreases x.len(),
{
    if y.len() == 0 {
        false
    } else if x.len() == 0 {
        true
    } else if x[0] != y[0] {
        x[0] < y[0]
    } else {
        bytes_lt(x.drop_first(), y.drop_first())
    }
}

/// Whether name `a` comes before `b`, comparing their UTF-8 bytes as `String`'s order does.
pub open spec fn name_lt(a: String, b: String) -> bool {
    bytes_lt(vstd::utf8::encode_utf8(a@), vstd::utf8::encode_utf8(b@))
}

/// Whether `a` comes before `b`, comparing their UTF-8 bytes.
pub fn name_before(a: &String, b: &String) -> (r: bool)
    ensures
        r == name_lt(*a, *b),
{
    let x = a.as_str().as_bytes();
    let y = b.as_str().as_bytes();
    assert(x@.skip(0) =~= x@);
    assert(y@.skip(0) =~= y@);
    let mut i: usize = 0;
    while i < x.len() && i < y.len()
        invariant
            i <= x@.len(),
            i <= y@.len(),
            x@ == vstd::utf8::encode_utf8(a@),
            y@ == vstd::utf8::encode_utf8(b@),
            bytes_lt(x@, y@) == bytes_lt(x@.skip(i as int), y@.skip(i as int)),
        decreases x.len() - i,
    {
        assert(x@.skip(i as int).drop_first() =~= x@.skip(i + 1));
        assert(y@.skip(i as int).drop_first() =~= y@.skip(i + 1));
        if x[i] != y[i] {
            return x[i] < y[i];
        }
        i += 1;
    }
    i < y.len()
}

impl Component {
    /// Whether the vertices are in increasing order of id, the edges and the
    /// folds in increasing order of edge id, and the outputs in increasing
    /// order of name: the order in which they are checked.
    pub open spec fn ordered(&self) -> bool {
        &&& forall|i: int|
            0 <= i < self.vertices.len() - 1 ==> (#[trigger] self.vertices[i]).vid
                < self.vertices[i + 1].vid
        &&& forall|i: int|
            0 <= i < self.edges.len() - 1 ==> (#[trigger] self.edges[i]).eid < self.edges[i + 1].eid
        &&& forall|i: int|
            0 <= i < self.folds.len() - 1 ==> (#[trigger] self.folds[i]).eid < self.folds[i + 1].eid
        &&& forall|i: int|
            0 <= i < self.outputs.len() - 1 ==> name_lt(
                (#[trigger] self.outputs[i]).name,
                self.outputs[i + 1].name,
            )
    }

    /// Whether the component's lists are in order.
    pub fn is_ordered(&self) -> (r: bool)
        ensures
            r == self.ordered(),
    {
        let mut i: usize = 0;
        while i + 1 < self.vertices.len()
            invariant
                i < self.vertices.len() || i == 0,
                forall|j: int| 0 <= j < i ==> (#[trigger] self.vertices[j]).vid < self.vertices[j + 1].vid,
            decreases self.vertices.len() - i,
        {
            if self.vertices[i].vid >= self.vertices[i + 1].vid {
                return false;
            }
            i += 1;
        }
        let mut i: usize = 0;
        while i + 1 < self.edges.len()
            invariant
                i < self.edges.len() || i == 0,
                forall|j: int| 0 <= j < i ==> (#[trigger] self.edges[j]).eid < self.edges[j + 1].eid,
            decreases self.edges.len() - i,
        {
            if self.edges[i].eid >= self.edges[i + 1].eid {
                return false;
            }
            i += 1;
        }
        let mut i: usize = 0;
        while i + 1 < self.folds.len()
            invariant
                i < self.folds.len() || i == 0,
                forall|j: int| 0 <= j < i ==> (#[trigger] self.folds[j]).eid < self.folds[j + 1].eid,
            decreases self.folds.len() - i,
        {
            if self.folds[i].eid >= self.folds[i + 1].eid {
                return false;
            }
            i += 1;
        }
        let mut i: usize = 0;
        while i + 1 < self.outputs.len()
            invariant
                i < self.outputs.len() || i == 0,
                forall|j: int| 0 <= j < i ==> name_lt((#[trigger] self.outputs[j]).name, self.outputs[j + 1].name),
            decreases self.outputs.len() - i,
        {
            if !name_before(&self.outputs[i].name, &self.outputs[i + 1].name) {
                return false;
            }
            i += 1;
        }
        true
    }
}

/// A query: its components, of which `root_component` is the outermost.
#[derive(Debug, Clone, PartialEq, Eq)]
pub struct Query {
    pub root_component: ComponentId,
    pub components: Vec<Component>,
}

impl Query {
    /// The components form a tree laid out parent first: the root component
    /// exists, and every fold leads to a component that comes after the one
    /// holding the fold. Each component's lists are in order.
    pub open spec fn well_formed(&self) -> bool {
        &&& self.root_component < self.components.len()
        &&& forall|c: int| 0 <= c < self.components.len() ==> (#[trigger] self.components[c]).ordered()
        &&& forall|c: int, k: int|
            0 <= c < self.components.len() && 0 <= k < self.components[c].folds.len() ==> c
                < #[trigger] self.components[c].folds[k].component < self.components.len()
    }
}

impl Query {
    /// Whether the components form a tree laid out parent first, with each
    /// component's lists in order.
    pub fn is_well_formed(&self) -> (r: bool)
        ensures
            r == self.well_formed(),
    {
        if self.root_component >= self.components.len() {
            return false;
        }
        let n = self.components.len();
        let mut c: usize = 0;
        while c < n
            invariant
                n == self.components.len(),
                c <= n,
                forall|c2: int| 0 <= c2 < c ==> (#[trigger] self.components[c2]).ordered(),
                forall|c2: int, k: int|
                    0 <= c2 < c && 0 <= k < self.components[c2].folds.len() ==> c2
                        < #[trigger] self.components[c2].folds[k].component < n,
            decreases n - c,
        {
            if !self.components[c].is_ordered() {
                return false;
            }
            let folds = &self.components[c].folds;
            let mut k: usize = 0;
            while k < folds.len()
                invariant
                    n == self.components.len(),
                    c < n,
                    forall|c2: int| 0 <= c2 < c ==> (#[trigger] self.components[c2]).ordered(),
                    self.components[c as int].ordered(),
                    *folds == self.components[c as int].folds,
                    k <= folds.len(),
                    forall|c2: int, k2: int|
                        0 <= c2 < c && 0 <= k2 < self.components[c2].folds.len() ==> c2
                            < #[trigger] self.components[c2].folds[k2].component < n,
                    forall|k2: int|
                        0 <= k2 < k ==> c < #[trigger] self.components[c as int].folds[k2].component < n,
                decreases folds.len() - k,
            {
                let target = folds[k].component;
                if target <= c || target >= n {
                    return false;
                }
                k += 1;
            }
            c += 1;
        }
        true
    }
}

impl Edge {
    pub fn duplicate(&self) -> (r: Edge)
        ensures
            r == *self,
    {
        Edge {
            eid: self.eid,
            from_vid: self.from_vid,
            to_vid: self.to_vid,
            edge_name: self.edge_name.clone(),
        }
    }
}

impl Fold {
    pub fn duplicate(&self) -> (r: Fold)
        ensures
            r == *self,
    {
        Fold {
            eid: self.eid,
            from_vid: self.from_vid,
            to_vid: self.to_vid,
            edge_name: self.edge_name.clone(),
            component: self.component,
        }
    }
}

} // verus!
