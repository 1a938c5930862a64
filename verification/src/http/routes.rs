use vstd::prelude::*;
use vstd::string::StrSliceExecFns;
use crate::http::fields::str_eq;
use crate::http::fields::Fields;
use crate::http::text::lemma_split_nonempty;
use crate::http::text::slash;
use crate::http::text::split;
use crate::http::text::split_slashes;

verus! {

broadcast use {vstd::std_specs::vec::axiom_vec_index_decreases, vstd::seq::axiom_seq_index_decreases};

/// The segments of a path or of a pattern: its pieces between slashes,
/// without the piece before the first slash. The path `/` has no
/// segments: it names the root.
pub open spec fn segments(path: Seq<char>) -> Seq<Seq<char>> {
    let pieces = split(path, slash()).drop_first();
    if pieces.len() == 1 && pieces[0].len() == 0 {
        Seq::empty()
    } else {
        pieces
    }
}

/// Whether a segment of a pattern stands for a parameter: `{name}`.
pub open spec fn is_param(segment: Seq<char>) -> bool {
    segment.len() >= 2 && segment[0] == '{' && segment.last() == '}'
}

/// The name that a parameter segment binds.
pub open spec fn param_name(segment: Seq<char>) -> Seq<char> {
    segment.subrange(1, segment.len() - 1)
}

/// A node of the routing trie, as plain values.
pub struct NodeView<H> {
    /// The literal text of the segment, or the name that a parameter node binds.
    pub name: Seq<char>,
    /// The literal children.
    pub children: Seq<NodeView<H>>,
    /// The parameter child, if there is one.
    pub param: Option<Box<NodeView<H>>>,
    /// The handler of the path that ends here.
    pub function: Option<H>,
}

/// A node without children and without a handler.
pub open spec fn leaf<H>(name: Seq<char>) -> NodeView<H> {
    NodeView { name, children: Seq::empty(), param: None, function: None }
}

/// Whether `i` is the first position of `children` whose node is named `key`.
pub open spec fn is_first_named<H>(children: Seq<NodeView<H>>, key: Seq<char>, i: int) -> bool {
    &&& 0 <= i < children.len()
    &&& children[i].name == key
    &&& forall|j: int| 0 <= j < i ==> (#[trigger] children[j]).name != key
}

/// The position of the literal child named `key`, if there is one.
pub open spec fn child_named<H>(children: Seq<NodeView<H>>, key: Seq<char>) -> Option<int> {
    if exists|i: int| is_first_named(children, key, i) {
        Some(choose|i: int| is_first_named(children, key, i))
    } else {
        None
    }
}

/// A name has only one first position among the children.
pub proof fn lemma_child_named<H>(children: Seq<NodeView<H>>, key: Seq<char>, i: int)
    requires
        is_first_named(children, key, i),
    ensures
        child_named(children, key) == Some(i),
{
    let c = choose|c: int| is_first_named(children, key, c);
    assert(is_first_named(children, key, c));
    if c < i {
        assert(children[c].name != key);
    }
    if i < c {
        assert(children[i].name != key);
    }
}

/// A name that no child has is the name of no child.
pub proof fn lemma_no_child_named<H>(children: Seq<NodeView<H>>, key: Seq<char>)
    requires
        forall|j: int| 0 <= j < children.len() ==> (#[trigger] children[j]).name != key,
    ensures
        child_named(children, key) is None,
{
    if exists|i: int| is_first_named(children, key, i) {
        let c = choose|c: int| is_first_named(children, key, c);
        assert(children[c].name != key);
    }
}

/// The handler that serves the segments `segs[i..]` below `node`, and
/// the parameters captured on the way, added to `params`.
///
/// At each node a literal child named as the segment is preferred; the
/// parameter child takes any other segment and binds it to its name.
/// The walk fails where neither exists, or where it ends on a node
/// without a handler.
pub open spec fn lookup<H>(
    node: NodeView<H>,
    segs: Seq<Seq<char>>,
    i: int,
    params: Map<Seq<char>, Seq<char>>,
) -> Option<(H, Map<Seq<char>, Seq<char>>)>
    decreases segs.len() - i,
{
    if i < 0 || i >= segs.len() {
        match node.function {
            Some(h) => Some((h, params)),
            None => None,
        }
    } else {
        match child_named(node.children, segs[i]) {
            Some(k) => lookup(node.children[k], segs, i + 1, params),
            None => match node.param {
                Some(p) => lookup(*p, segs, i + 1, params.insert(p.name, segs[i])),
                None => None,
            },
        }
    }
}

/// The trie below `node` after the pattern `segs[i..]` was given the
/// handler `h`.
///
/// A parameter segment goes to the node's one parameter child, which
/// from then on binds the name of this pattern; a literal segment goes
/// to the child of that name. Either is created where it is missing.
/// The node on which the pattern ends gets the handler, in place of an
/// earlier one.
pub open spec fn inserted<H>(node: NodeView<H>, segs: Seq<Seq<char>>, i: int, h: H) -> NodeView<H>
    decreases segs.len() - i,
{
    if i < 0 || i >= segs.len() {
        NodeView { function: Some(h), ..node }
    } else if is_param(segs[i]) {
        let child = match node.param {
            Some(p) => NodeView { name: param_name(segs[i]), ..*p },
            None => leaf(param_name(segs[i])),
        };
        NodeView { param: Some(Box::new(inserted(child, segs, i + 1, h))), ..node }
    } else {
        match child_named(node.children, segs[i]) {
            Some(k) => NodeView {
                children: node.children.update(k, inserted(node.children[k], segs, i + 1, h)),
                ..node
            },
            None => NodeView {
                children: node.children.push(inserted(leaf(segs[i]), segs, i + 1, h)),
                ..node
            },
        }
    }
}

/// Whether no two of `children` have the same name.
pub open spec fn distinct_names<H>(children: Seq<NodeView<H>>) -> bool {
    forall|a: int, b: int|
        0 <= a < b < children.len() ==> (#[trigger] children[a]).name != (#[trigger] children[b]).name
}

/// The invariant of the trie: below every node there is one literal
/// child per name. (That a node has at most one parameter child is in
/// its shape.)
pub open spec fn well_formed<H>(node: NodeView<H>) -> bool
    decreases node,
{
    &&& distinct_names(node.children)
    &&& forall|j: int| 0 <= j < node.children.len() ==> well_formed(#[trigger] node.children[j])
    &&& match node.param {
        Some(p) => well_formed(*p),
        None => true,
    }
}

/// The invariant does not depend on a node's own name.
pub proof fn lemma_renamed_well_formed<H>(node: NodeView<H>, name: Seq<char>)
    requires
        well_formed(node),
    ensures
        well_formed(NodeView { name, ..node }),
{
}

/// Registration keeps the trie's invariant.
pub proof fn lemma_inserted_well_formed<H>(node: NodeView<H>, segs: Seq<Seq<char>>, i: int, h: H)
    requires
        well_formed(node),
    ensures
        well_formed(inserted(node, segs, i, h)),
    decreases segs.len() - i,
{
    if 0 <= i < segs.len() {
        let seg = segs[i];
        if is_param(seg) {
            let child = match node.param {
                Some(p) => NodeView { name: param_name(seg), ..*p },
                None => leaf::<H>(param_name(seg)),
            };
            match node.param {
                Some(p) => {
                    lemma_renamed_well_formed(*p, param_name(seg));
                },
                None => {},
            }
            lemma_inserted_well_formed(child, segs, i + 1, h);
        } else {
            match child_named(node.children, seg) {
                Some(k) => {
                    assert(is_first_named(node.children, seg, k));
                    let grown = inserted(node.children[k], segs, i + 1, h);
                    lemma_inserted_keeps_name(node.children[k], segs, i + 1, h);
                    assert(well_formed(node.children[k]));
                    lemma_inserted_well_formed(node.children[k], segs, i + 1, h);
                    let after = node.children.update(k, grown);
                    assert forall|a: int, b: int| 0 <= a < b < after.len() implies (
                    #[trigger] after[a]).name != (#[trigger] after[b]).name by {
                        assert(node.children[a].name != node.children[b].name);
                    }
                    assert forall|j: int| 0 <= j < after.len() implies well_formed(
                        #[trigger] after[j],
                    ) by {
                        if j != k {
                            assert(well_formed(node.children[j]));
                        }
                    }
                },
                None => {
                    let grown = inserted(leaf::<H>(seg), segs, i + 1, h);
                    lemma_inserted_keeps_name(leaf::<H>(seg), segs, i + 1, h);
                    assert(well_formed(leaf::<H>(seg)));
                    lemma_inserted_well_formed(leaf::<H>(seg), segs, i + 1, h);
                    let after = node.children.push(grown);
                    let n = node.children.len() as int;
                    assert forall|a: int, b: int| 0 <= a < b < after.len() implies (
                    #[trigger] after[a]).name != (#[trigger] after[b]).name by {
                        if b == n {
                            if node.children[a].name == seg {
                                lemma_named_has_first(node.children, seg, a);
                            }
                        } else {
                            assert(node.children[a].name != node.children[b].name);
                        }
                    }
                    assert forall|j: int| 0 <= j < after.len() implies well_formed(
                        #[trigger] after[j],
                    ) by {
                        if j != n {
                            assert(well_formed(node.children[j]));
                        }
                    }
                },
            }
        }
    }
}

/// A child with the name `key` at some position means that `key` names a child.
pub proof fn lemma_named_has_first<H>(children: Seq<NodeView<H>>, key: Seq<char>, j: int)
    requires
        0 <= j < children.len(),
        children[j].name == key,
    ensures
        child_named(children, key) is Some,
    decreases j,
{
    if forall|k: int| 0 <= k < j ==> (#[trigger] children[k]).name != key {
        assert(is_first_named(children, key, j));
    } else {
        let k = choose|k: int| 0 <= k < j && (#[trigger] children[k]).name == key;
        lemma_named_has_first(children, key, k);
    }
}

/// Registration leaves the name of the node that it starts from as it was.
pub proof fn lemma_inserted_keeps_name<H>(node: NodeView<H>, segs: Seq<Seq<char>>, i: int, h: H)
    ensures
        inserted(node, segs, i, h).name == node.name,
{
}

/// A pattern of literal segments, once registered, is found as a path:
/// the lookup gives the handler that was registered last, and captures
/// nothing. This holds whatever the table held before.
pub proof fn lemma_find_registered<H>(
    node: NodeView<H>,
    segs: Seq<Seq<char>>,
    i: int,
    h: H,
    params: Map<Seq<char>, Seq<char>>,
)
    requires
        0 <= i <= segs.len(),
        forall|j: int| i <= j < segs.len() ==> !is_param(#[trigger] segs[j]),
    ensures
        lookup(inserted(node, segs, i, h), segs, i, params) == Some((h, params)),
    decreases segs.len() - i,
{
    if i < segs.len() {
        let seg = segs[i];
        assert(!is_param(seg));
        match child_named(node.children, seg) {
            Some(k) => {
                assert(is_first_named(node.children, seg, k));
                let grown = inserted(node.children[k], segs, i + 1, h);
                lemma_inserted_keeps_name(node.children[k], segs, i + 1, h);
                let after = node.children.update(k, grown);
                assert forall|j: int| 0 <= j < k implies (#[trigger] after[j]).name != seg by {
                    assert(node.children[j].name != seg);
                }
                assert(is_first_named(after, seg, k));
                lemma_child_named(after, seg, k);
                lemma_find_registered(node.children[k], segs, i + 1, h, params);
            },
            None => {
                let grown = inserted(leaf::<H>(seg), segs, i + 1, h);
                lemma_inserted_keeps_name(leaf::<H>(seg), segs, i + 1, h);
                let after = node.children.push(grown);
                let n = node.children.len() as int;
                assert forall|j: int| 0 <= j < n implies (#[trigger] after[j]).name != seg by {
                    if node.children[j].name == seg {
                        lemma_named_has_first(node.children, seg, j);
                    }
                }
                assert(is_first_named(after, seg, n));
                lemma_child_named(after, seg, n);
                lemma_find_registered(leaf::<H>(seg), segs, i + 1, h, params);
            },
        }
    }
}

/// Whether the path `path[i..]` has the shape of the pattern
/// `pattern[i..]`: as many segments, and the same text wherever the
/// pattern's segment is literal.
pub open spec fn fits(pattern: Seq<Seq<char>>, path: Seq<Seq<char>>, i: int) -> bool {
    &&& pattern.len() == path.len()
    &&& forall|j: int| i <= j < pattern.len() ==> is_param(#[trigger] pattern[j]) || pattern[j] == path[j]
}

/// The parameters that the pattern `pattern[i..]` binds on the path
/// `path[i..]`, added to `params` in the order of the segments.
pub open spec fn captured(
    pattern: Seq<Seq<char>>,
    path: Seq<Seq<char>>,
    i: int,
    params: Map<Seq<char>, Seq<char>>,
) -> Map<Seq<char>, Seq<char>>
    decreases pattern.len() - i,
{
    if i < 0 || i >= pattern.len() {
        params
    } else if is_param(pattern[i]) {
        captured(pattern, path, i + 1, params.insert(param_name(pattern[i]), path[i]))
    } else {
        captured(pattern, path, i + 1, params)
    }
}

/// In a table that holds one pattern, every path of the pattern's
/// shape is served by the pattern's handler, and each parameter
/// segment binds the path's segment at its place.
pub proof fn lemma_find_captures<H>(
    name: Seq<char>,
    pattern: Seq<Seq<char>>,
    path: Seq<Seq<char>>,
    i: int,
    h: H,
    params: Map<Seq<char>, Seq<char>>,
)
    requires
        0 <= i <= pattern.len(),
        fits(pattern, path, i),
    ensures
        lookup(inserted(leaf::<H>(name), pattern, i, h), path, i, params) == Some(
            (h, captured(pattern, path, i, params)),
        ),
    decreases pattern.len() - i,
{
    if i < pattern.len() {
        let seg = pattern[i];
        let none = Seq::<NodeView<H>>::empty();
        assert(is_param(seg) || seg == path[i]);
        if is_param(seg) {
            let grown = inserted(leaf::<H>(param_name(seg)), pattern, i + 1, h);
            lemma_inserted_keeps_name(leaf::<H>(param_name(seg)), pattern, i + 1, h);
            lemma_no_child_named(none, path[i]);
            lemma_find_captures(
                param_name(seg),
                pattern,
                path,
                i + 1,
                h,
                params.insert(param_name(seg), path[i]),
            );
        } else {
            let grown = inserted(leaf::<H>(seg), pattern, i + 1, h);
            lemma_inserted_keeps_name(leaf::<H>(seg), pattern, i + 1, h);
            lemma_no_child_named(none, seg);
            let after = none.push(grown);
            assert(is_first_named(after, seg, 0));
            lemma_child_named(after, path[i], 0);
            lemma_find_captures(seg, pattern, path, i + 1, h, params);
        }
    }
}

/// In a table that holds one pattern, only paths of the pattern's
/// shape are served: any other path finds nothing.
pub proof fn lemma_find_fits<H>(
    name: Seq<char>,
    pattern: Seq<Seq<char>>,
    path: Seq<Seq<char>>,
    i: int,
    h: H,
    params: Map<Seq<char>, Seq<char>>,
)
    requires
        0 <= i <= pattern.len(),
        i <= path.len(),
        lookup(inserted(leaf::<H>(name), pattern, i, h), path, i, params) is Some,
    ensures
        fits(pattern, path, i),
    decreases pattern.len() - i,
{
    let none = Seq::<NodeView<H>>::empty();
    if i < pattern.len() {
        let seg = pattern[i];
        assert(i < path.len());
        if is_param(seg) {
            lemma_no_child_named(none, path[i]);
            lemma_find_fits(
                param_name(seg),
                pattern,
                path,
                i + 1,
                h,
                params.insert(param_name(seg), path[i]),
            );
        } else {
            let grown = inserted(leaf::<H>(seg), pattern, i + 1, h);
            lemma_inserted_keeps_name(leaf::<H>(seg), pattern, i + 1, h);
            lemma_no_child_named(none, seg);
            let after = none.push(grown);
            if path[i] == seg {
                assert(is_first_named(after, seg, 0));
                lemma_child_named(after, seg, 0);
                lemma_find_fits(seg, pattern, path, i + 1, h, params);
            } else {
                lemma_no_child_named(after, path[i]);
            }
        }
    } else {
        if i < path.len() {
            lemma_no_child_named(none, path[i]);
        }
    }
}

/// A literal child is preferred: where a node has a child named as the
/// segment, the lookup goes on below that child, whatever the
/// parameter child is.
pub proof fn lemma_literal_first<H>(
    node: NodeView<H>,
    segs: Seq<Seq<char>>,
    i: int,
    params: Map<Seq<char>, Seq<char>>,
    k: int,
)
    requires
        0 <= i < segs.len(),
        is_first_named(node.children, segs[i], k),
    ensures
        lookup(node, segs, i, params) == lookup(node.children[k], segs, i + 1, params),
{
    lemma_child_named(node.children, segs[i], k);
}

/// The texts of a list of strings.
pub open spec fn texts(v: Seq<String>) -> Seq<Seq<char>> {
    Seq::new(v.len(), |j: int| v[j]@)
}

/// Splits a path or a pattern into its segments.
pub fn path_segments(path: &str) -> (segs: Vec<String>)
    ensures
        texts(segs@) == segments(path@),
{
    let mut segs = split_slashes(path);
    proof {
        lemma_split_nonempty(path@, slash());
    }
    let ghost pieces = split(path@, slash());
    segs.remove(0);
    assert(texts(segs@) =~= pieces.drop_first());
    if segs.len() == 1 && segs[0].as_str().unicode_len() == 0 {
        segs.pop();
        assert(texts(segs@) =~= Seq::<Seq<char>>::empty());
    } else {
        assert(texts(segs@)[0] == segs@[0]@ || segs@.len() == 0);
    }
    segs
}

/// The name that `segment` binds, if it is a parameter segment.
pub fn parameter(segment: &str) -> (r: Option<String>)
    ensures
        match r {
            Some(name) => is_param(segment@) && name@ == param_name(segment@),
            None => !is_param(segment@),
        },
{
    let n = segment.unicode_len();
    if n >= 2 && segment.get_char(0) == '{' && segment.get_char(n - 1) == '}' {
        Some(segment.substring_char(1, n - 1).to_owned())
    } else {
        None
    }
}

/// A node of the routing trie.
#[derive(Debug)]
pub struct RouteNode<H> {
    /// The literal text of the segment, or the name that a parameter node binds.
    pub name: String,
    /// The literal children, each under its own name.
    pub children: Vec<RouteNode<H>>,
    /// The parameter child, if there is one.
    pub param: Option<Box<RouteNode<H>>>,
    /// The handler of the path that ends here.
    pub function: Option<H>,
}

impl<H> RouteNode<H> {
    /// The node as plain values.
    pub open spec fn view(&self) -> NodeView<H>
        decreases self,
    {
        NodeView {
            name: self.name@,
            children: Seq::new(
                self.children@.len(),
                |j: int|
                    if 0 <= j < self.children@.len() {
                        self.children@[j].view()
                    } else {
                        leaf(Seq::empty())
                    },
            ),
            param: match self.param {
                Some(p) => Some(Box::new(p.view())),
                None => None,
            },
            function: self.function,
        }
    }

    /// A node without children.
    pub fn new(name: &str, function: Option<H>) -> (node: RouteNode<H>)
        ensures
            node@ == (NodeView { function, ..leaf(name@) }),
    {
        let node = RouteNode { name: name.to_owned(), children: Vec::new(), param: None, function };
        assert(node@.children =~= Seq::<NodeView<H>>::empty());
        node
    }

    /// The handler of the path that ends on this node, if it has one.
    pub fn function(&self) -> (r: Option<&H>)
        ensures
            match r {
                Some(h) => self@.function == Some(*h),
                None => self@.function is None,
            },
    {
        match &self.function {
            Some(fun) => Some(fun),
            None => None,
        }
    }

    /// The position of the literal child named `key`, if there is one.
    pub fn child_position(&self, key: &str) -> (r: Option<usize>)
        ensures
            match r {
                Some(k) => k < self.children@.len() && child_named(self@.children, key@) == Some(
                    k as int,
                ),
                None => child_named(self@.children, key@) is None,
            },
    {
        let n = self.children.len();
        let mut k: usize = 0;
        while k < n
            invariant
                k <= n,
                n == self.children@.len(),
                forall|j: int| 0 <= j < k ==> (#[trigger] self@.children[j]).name != key@,
            decreases n - k,
        {
            assert(self@.children[k as int] == self.children@[k as int]@);
            assert(self.children@[k as int]@.name == self.children@[k as int].name@);
            if str_eq(self.children[k].name.as_str(), key) {
                proof {
                    assert(self@.children[k as int].name == key@);
                    lemma_child_named(self@.children, key@, k as int);
                }
                return Some(k);
            }
            assert(self@.children[k as int].name != key@);
            k += 1;
        }
        proof {
            lemma_no_child_named(self@.children, key@);
        }
        None
    }

    /// Gives the pattern `segs[i..]` below this node the handler `function`.
    pub fn insert(self, segs: &Vec<String>, i: usize, function: H) -> (node: RouteNode<H>)
        ensures
            node@ == inserted(self@, texts(segs@), i as int, function),
        decreases segs@.len() - i,
    {
        let ghost before = self@;
        let ghost path = texts(segs@);
        if i >= segs.len() {
            let RouteNode { name, children, param, function: _ } = self;
            let node = RouteNode { name, children, param, function: Some(function) };
            assert(node@.children =~= before.children);
            return node;
        }
        let segment = segs[i].as_str();
        assert(path[i as int] == segment@);
        match parameter(segment) {
            Some(bound) => {
                let RouteNode { name, children, param, function: own } = self;
                let child = match param {
                    Some(p) => {
                        let ghost inner = p@;
                        assert(*before.param->Some_0 == inner);
                        let RouteNode { name: _, children: c, param: q, function: f } = *p;
                        let renamed = RouteNode { name: bound, children: c, param: q, function: f };
                        assert(renamed@.children =~= inner.children);
                        assert(renamed@ == (NodeView { name: bound@, ..inner }));
                        renamed
                    },
                    None => {
                        let fresh = RouteNode { name: bound, children: Vec::new(), param: None, function: None };
                        assert(fresh@.children =~= Seq::<NodeView<H>>::empty());
                        fresh
                    },
                };
                let grown = child.insert(segs, i + 1, function);
                let node = RouteNode { name, children, param: Some(Box::new(grown)), function: own };
                assert(node@.children =~= before.children);
                node
            },
            None => {
                match self.child_position(segment) {
                    Some(k) => {
                        let RouteNode { name, mut children, param, function: own } = self;
                        let child = children.remove(k);
                        let grown = child.insert(segs, i + 1, function);
                        children.insert(k, grown);
                        let node = RouteNode { name, children, param, function: own };
                        assert(node@.children =~= before.children.update(
                            k as int,
                            inserted(before.children[k as int], path, i + 1, function),
                        ));
                        node
                    },
                    None => {
                        let RouteNode { name, mut children, param, function: own } = self;
                        let fresh = RouteNode {
                            name: segment.to_owned(),
                            children: Vec::new(),
                            param: None,
                            function: None,
                        };
                        assert(fresh@.children =~= Seq::<NodeView<H>>::empty());
                        let grown = fresh.insert(segs, i + 1, function);
                        children.push(grown);
                        let node = RouteNode { name, children, param, function: own };
                        assert(node@.children =~= before.children.push(
                            inserted(leaf(segment@), path, i + 1, function),
                        ));
                        node
                    },
                }
            },
        }
    }
}

/// The table of routes: a trie of path segments with a handler on each
/// node on which a registered pattern ends.
#[derive(Debug)]
pub struct Router<H> {
    pub root: RouteNode<H>,
}

impl<H> Router<H> {
    /// The handler and the captured parameters that the table gives for `path`.
    pub open spec fn route(&self, path: Seq<char>) -> Option<(H, Map<Seq<char>, Seq<char>>)> {
        lookup(self.root@, segments(path), 0, Map::empty())
    }

    /// A table without routes.
    pub fn new() -> (router: Router<H>)
        ensures
            router.root@ == leaf::<H>(Seq::empty()),
            well_formed(router.root@),
    {
        proof {
            reveal_strlit("");
        }
        assert(""@ =~= Seq::<char>::empty());
        Router { root: RouteNode::new("", None) }
    }

    /// Registers `function` as the handler of the pattern `path`. A
    /// handler registered earlier for the same pattern is replaced.
    pub fn register(self, path: &str, function: H) -> (router: Router<H>)
        ensures
            router.root@ == inserted(self.root@, segments(path@), 0, function),
            well_formed(self.root@) ==> well_formed(router.root@),
    {
        proof {
            if well_formed(self.root@) {
                lemma_inserted_well_formed(self.root@, segments(path@), 0, function);
            }
        }
        let segs = path_segments(path);
        let Router { root } = self;
        Router { root: root.insert(&segs, 0, function) }
    }

    /// Finds the handler of `path` and the parameters that its
    /// parameter segments capture. `None` means that no route matches.
    pub fn find(&self, path: &str) -> (r: Option<(&H, Fields)>)
        ensures
            match self.route(path@) {
                Some((h, params)) => r is Some && *r->Some_0.0 == h && r->Some_0.1@ == params
                    && r->Some_0.1.wf(),
                None => r is None,
            },
    {
        let segs = path_segments(path);
        let ghost all = texts(segs@);
        let mut node = &self.root;
        let mut params = Fields::new();
        let mut i: usize = 0;
        while i < segs.len()
            invariant
                i <= segs@.len(),
                all == texts(segs@),
                all == segments(path@),
                params.wf(),
                lookup(self.root@, all, 0, Map::empty()) == lookup(node@, all, i as int, params@),
            decreases segs@.len() - i,
        {
            let segment = segs[i].as_str();
            assert(all[i as int] == segment@);
            match node.child_position(segment) {
                Some(k) => {
                    assert(node@.children[k as int] == node.children@[k as int]@);
                    node = &node.children[k];
                },
                None => {
                    match &node.param {
                        Some(p) => {
                            assert(*node@.param->Some_0 == p@);
                            assert(p@.name == p.name@);
                            params.insert(p.name.clone(), segs[i].clone());
                            node = &**p;
                        },
                        None => {
                            assert(node@.param is None);
                            assert(child_named(node@.children, all[i as int]) is None);
                            return None;
                        },
                    }
                },
            }
            i += 1;
        }
        match &node.function {
            Some(h) => Some((h, params)),
            None => None,
        }
    }
}

} // verus!
