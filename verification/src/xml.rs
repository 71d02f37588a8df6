//! The XML-like tree builtin: a forest of element and text nodes with
//! attributes and ordered children, addressed by node handles. Names and
//! text are interned strings, like every string of the engine. Adopting a
//! node that already contains the adopter is refused, so the forest stays
//! acyclic and serialization of any tree built through this interface is
//! complete.

use vstd::prelude::*;
use crate::value::{StrId, StringTable};

verus! {

/// A handle to a node of the document forest.
pub type NodeId = usize;

/// One node: an element with a name, attributes and ordered children, or
/// a text node. All text is interned.
#[derive(Debug, Clone)]
pub enum XmlNode {
    Element { name: StrId, attributes: Vec<(StrId, StrId)>, children: Vec<NodeId> },
    Text(StrId),
}

/// An XML construction or mutation error.
#[derive(Debug, Clone, Copy, PartialEq, Eq, Structural)]
pub enum XmlError {
    /// The constructor was handed several root nodes.
    NotASingleNode,
    /// The node handle names no node.
    NoSuchNode { node: NodeId },
    /// Only an element can take children.
    NotAnElement { node: NodeId },
    /// The node to adopt contains the adopter, so the adoption would
    /// close a cycle.
    WouldCycle { parent: NodeId, child: NodeId },
}

/// The document forest.
pub struct XmlDoc {
    nodes: Vec<XmlNode>,
}

/// The interned bytes of a string handle, or nothing for a stale handle.
pub open spec fn spec_str(tbl: Seq<Vec<u8>>, s: StrId) -> Seq<u8> {
    if s < tbl.len() {
        tbl[s as int]@
    } else {
        Seq::<u8>::empty()
    }
}

/// Whether `target` lies in the subtree of `from`: it is `from` itself,
/// or reachable along child edges within the step budget.
pub open spec fn spec_in_subtree(nodes: Seq<XmlNode>, from: NodeId, target: NodeId,
    fuel: nat) -> bool
    decreases fuel, 0int, 0int,
{
    ||| from == target
    ||| (fuel > 0 && from < nodes.len() && match nodes[from as int] {
        XmlNode::Element { children, .. } => spec_any_in_subtree(nodes, children@, target,
            (fuel - 1) as nat),
        XmlNode::Text(_) => false,
    })
}

/// Whether `target` lies in the subtree of any of the nodes.
pub open spec fn spec_any_in_subtree(nodes: Seq<XmlNode>, from: Seq<NodeId>, target: NodeId,
    fuel: nat) -> bool
    decreases fuel, 1int, from.len(),
{
    if from.len() == 0 {
        false
    } else {
        spec_in_subtree(nodes, from[0], target, fuel)
            || spec_any_in_subtree(nodes, from.drop_first(), target, fuel)
    }
}

/// The markup text of a node, to the given nesting budget: a text node's
/// content as it is, an element as its tag with attributes, children
/// between the tags, and an empty element self-closed. One budget unit is
/// spent per nesting level, so any tree of depth within the budget — in
/// particular any acyclic forest serialized with its node count — renders
/// completely.
pub open spec fn spec_xml_string(nodes: Seq<XmlNode>, tbl: Seq<Vec<u8>>, node: int,
    fuel: nat) -> Seq<u8>
    decreases fuel, 0int, 0int,
{
    if !(0 <= node < nodes.len()) {
        Seq::<u8>::empty()
    } else {
        match nodes[node] {
            XmlNode::Text(s) => spec_str(tbl, s),
            XmlNode::Element { name, attributes, children } => {
                let nm = spec_str(tbl, name);
                let attrs = spec_xml_attrs(tbl, attributes@);
                if children@.len() == 0 {
                    seq![60u8] + nm + attrs + seq![47u8, 62u8]
                } else if fuel == 0 {
                    Seq::<u8>::empty()
                } else {
                    seq![60u8] + nm + attrs + seq![62u8]
                        + spec_xml_children(nodes, tbl, children@, (fuel - 1) as nat)
                        + seq![60u8, 47u8] + nm + seq![62u8]
                }
            },
        }
    }
}

/// The markup of a run of children at the given nesting budget.
pub open spec fn spec_xml_children(nodes: Seq<XmlNode>, tbl: Seq<Vec<u8>>,
    children: Seq<NodeId>, fuel: nat) -> Seq<u8>
    decreases fuel, 1int, children.len(),
{
    if children.len() == 0 {
        Seq::<u8>::empty()
    } else {
        spec_xml_string(nodes, tbl, children[0] as int, fuel)
            + spec_xml_children(nodes, tbl, children.drop_first(), fuel)
    }
}

/// The markup of an attribute list: a space, the name, `="`, the value,
/// `"`, for each attribute in order.
pub open spec fn spec_xml_attrs(tbl: Seq<Vec<u8>>, attrs: Seq<(StrId, StrId)>) -> Seq<u8>
    decreases attrs.len(),
{
    if attrs.len() == 0 {
        Seq::<u8>::empty()
    } else {
        seq![32u8] + spec_str(tbl, attrs[0].0) + seq![61u8, 34u8]
            + spec_str(tbl, attrs[0].1) + seq![34u8]
            + spec_xml_attrs(tbl, attrs.drop_first())
    }
}

impl XmlDoc {
    pub closed spec fn spec_nodes(&self) -> Seq<XmlNode> {
        self.nodes@
    }

    pub fn new() -> (r: Self)
        ensures
            r.spec_nodes().len() == 0,
    {
        XmlDoc { nodes: Vec::new() }
    }

    /// Creates a text node.
    pub fn new_text(&mut self, text: StrId) -> (r: NodeId)
        ensures
            r == old(self).spec_nodes().len(),
            final(self).spec_nodes() == old(self).spec_nodes().push(XmlNode::Text(text)),
    {
        let id = self.nodes.len();
        self.nodes.push(XmlNode::Text(text));
        id
    }

    /// Creates an element node over already existing children.
    pub fn new_element(&mut self, name: StrId, attributes: Vec<(StrId, StrId)>,
        children: Vec<NodeId>) -> (r: Result<NodeId, XmlError>)
        ensures
            match r {
                Ok(id) => {
                    &&& id == old(self).spec_nodes().len()
                    &&& final(self).spec_nodes().len() == old(self).spec_nodes().len() + 1
                    &&& (forall|k: int| 0 <= k < old(self).spec_nodes().len()
                        ==> final(self).spec_nodes()[k] == old(self).spec_nodes()[k])
                    &&& (final(self).spec_nodes()[id as int] matches
                        XmlNode::Element { name: n2, attributes: a2, children: c2 }
                        && n2 == name && a2@ == attributes@ && c2@ == children@)
                    &&& (forall|k: int| 0 <= k < children@.len()
                        ==> #[trigger] children@[k] < old(self).spec_nodes().len())
                },
                Err(XmlError::NoSuchNode { node }) => final(self).spec_nodes()
                    == old(self).spec_nodes()
                    && exists|k: int| 0 <= k < children@.len()
                        && #[trigger] children@[k] == node
                        && node >= old(self).spec_nodes().len(),
                Err(_) => false,
            },
    {
        let id = self.nodes.len();
        let n = children.len();
        let mut k: usize = 0;
        while k < n
            invariant
                k <= n,
                n == children@.len(),
                *self == *old(self),
                id == self.nodes@.len(),
                forall|j: int| 0 <= j < k ==> #[trigger] children@[j] < id,
            decreases n - k,
        {
            if children[k] >= id {
                proof {
                    assert(children@[k as int] == children[k as int]);
                }
                return Err(XmlError::NoSuchNode { node: children[k] });
            }
            k = k + 1;
        }
        self.nodes.push(XmlNode::Element { name, attributes, children });
        Ok(id)
    }

    /// The constructor's node selection rule: no parsed node yields an
    /// empty text node, exactly one yields that node, and several are an
    /// error.
    pub fn init(&mut self, tbl: &mut StringTable, parsed: &Vec<NodeId>)
        -> (r: Result<NodeId, XmlError>)
        requires
            old(tbl).wf(),
        ensures
            final(tbl).wf(),
            match r {
                Ok(id) => if parsed@.len() == 0 {
                    &&& final(self).spec_nodes().len() == old(self).spec_nodes().len() + 1
                    &&& id == old(self).spec_nodes().len()
                    &&& (final(self).spec_nodes()[id as int] matches XmlNode::Text(s)
                        && s < final(tbl).spec_strings().len()
                        && final(tbl).spec_strings()[s as int]@.len() == 0)
                    &&& (forall|k: int| 0 <= k < old(self).spec_nodes().len()
                        ==> final(self).spec_nodes()[k] == old(self).spec_nodes()[k])
                } else {
                    parsed@.len() == 1 && id == parsed@[0]
                        && final(self).spec_nodes() == old(self).spec_nodes()
                },
                Err(XmlError::NotASingleNode) => parsed@.len() > 1
                    && final(self).spec_nodes() == old(self).spec_nodes(),
                Err(_) => false,
            },
    {
        if parsed.len() == 0 {
            let empty: Vec<u8> = Vec::new();
            let sid = tbl.intern(empty);
            Ok(self.new_text(sid))
        } else if parsed.len() == 1 {
            Ok(parsed[0])
        } else {
            Err(XmlError::NotASingleNode)
        }
    }

    /// An element's name; a text node has none.
    pub fn local_name(&self, node: NodeId) -> (r: Option<StrId>)
        ensures
            match r {
                Some(n) => node < self.spec_nodes().len()
                    && (self.spec_nodes()[node as int] matches XmlNode::Element { name, .. }
                        && n == name),
                None => node >= self.spec_nodes().len()
                    || self.spec_nodes()[node as int] is Text,
            },
    {
        if node < self.nodes.len() {
            match &self.nodes[node] {
                XmlNode::Element { name, .. } => Some(*name),
                XmlNode::Text(_) => None,
            }
        } else {
            None
        }
    }

    /// An element's qualified name: the same as its local name in this
    /// tree, whose names all live in the public namespace.
    pub fn name(&self, node: NodeId) -> (r: Option<StrId>)
        ensures
            match r {
                Some(n) => node < self.spec_nodes().len()
                    && (self.spec_nodes()[node as int] matches XmlNode::Element { name, .. }
                        && n == name),
                None => node >= self.spec_nodes().len()
                    || self.spec_nodes()[node as int] is Text,
            },
    {
        self.local_name(node)
    }

    /// The child handles of an element node.
    pub open spec fn spec_child_list(&self, node: NodeId) -> Option<Seq<NodeId>> {
        if node < self.spec_nodes().len() {
            match self.spec_nodes()[node as int] {
                XmlNode::Element { children, .. } => Some(children@),
                XmlNode::Text(_) => None,
            }
        } else {
            None
        }
    }

    /// All children of an element, in document order; a text node has
    /// none.
    pub fn children(&self, node: NodeId) -> (r: Vec<NodeId>)
        ensures
            match self.spec_child_list(node) {
                Some(cs) => r@ == cs,
                None => r@.len() == 0,
            },
    {
        if node < self.nodes.len() {
            match &self.nodes[node] {
                XmlNode::Element { children, .. } => crate::class::copy_vec(children),
                XmlNode::Text(_) => Vec::new(),
            }
        } else {
            Vec::new()
        }
    }

    /// Whether the node is an element with the given name.
    pub open spec fn spec_matches_name(&self, node: NodeId, name: StrId) -> bool {
        node < self.spec_nodes().len()
            && match self.spec_nodes()[node as int] {
            XmlNode::Element { name: n, .. } => n == name,
            XmlNode::Text(_) => false,
        }
    }

    fn matches_name(&self, node: NodeId, name: StrId) -> (r: bool)
        ensures
            r == self.spec_matches_name(node, name),
    {
        if node < self.nodes.len() {
            match &self.nodes[node] {
                XmlNode::Element { name: n, .. } => *n == name,
                XmlNode::Text(_) => false,
            }
        } else {
            false
        }
    }

    /// The element children with the given name, in document order.
    pub fn child(&self, node: NodeId, name: StrId) -> (r: Vec<NodeId>)
        ensures
            match self.spec_child_list(node) {
                Some(cs) => r@ == cs.filter(|c: NodeId| self.spec_matches_name(c, name)),
                None => r@.len() == 0,
            },
    {
        let cs = self.children(node);
        let n = cs.len();
        let mut out: Vec<NodeId> = Vec::new();
        let mut i: usize = 0;
        while i < n
            invariant
                i <= n,
                n == cs@.len(),
                out@ == cs@.take(i as int).filter(
                    |c: NodeId| self.spec_matches_name(c, name)),
            decreases n - i,
        {
            proof {
                reveal(Seq::filter);
                assert(cs@.take(i as int + 1).drop_last() =~= cs@.take(i as int));
                assert(cs@.take(i as int + 1).last() == cs@[i as int]);
            }
            if self.matches_name(cs[i], name) {
                out.push(cs[i]);
            }
            i = i + 1;
        }
        proof {
            assert(cs@.take(n as int) =~= cs@);
        }
        out
    }

    /// Whether the node is an element.
    pub open spec fn spec_is_element(&self, node: NodeId) -> bool {
        node < self.spec_nodes().len() && self.spec_nodes()[node as int] is Element
    }

    fn is_element(&self, node: NodeId) -> (r: bool)
        ensures
            r == self.spec_is_element(node),
    {
        node < self.nodes.len() && matches!(&self.nodes[node], XmlNode::Element { .. })
    }

    /// The element children that are themselves elements, in order.
    pub fn elements(&self, node: NodeId) -> (r: Vec<NodeId>)
        ensures
            match self.spec_child_list(node) {
                Some(cs) => r@ == cs.filter(|c: NodeId| self.spec_is_element(c)),
                None => r@.len() == 0,
            },
    {
        let cs = self.children(node);
        let n = cs.len();
        let mut out: Vec<NodeId> = Vec::new();
        let mut i: usize = 0;
        while i < n
            invariant
                i <= n,
                n == cs@.len(),
                out@ == cs@.take(i as int).filter(|c: NodeId| self.spec_is_element(c)),
            decreases n - i,
        {
            proof {
                reveal(Seq::filter);
                assert(cs@.take(i as int + 1).drop_last() =~= cs@.take(i as int));
                assert(cs@.take(i as int + 1).last() == cs@[i as int]);
            }
            if self.is_element(cs[i]) {
                out.push(cs[i]);
            }
            i = i + 1;
        }
        proof {
            assert(cs@.take(n as int) =~= cs@);
        }
        out
    }

    /// An element's attributes, in declaration order.
    pub fn attributes(&self, node: NodeId) -> (r: Vec<(StrId, StrId)>)
        ensures
            match self.spec_nodes_attr(node) {
                Some(a) => r@ == a,
                None => r@.len() == 0,
            },
    {
        if node < self.nodes.len() {
            match &self.nodes[node] {
                XmlNode::Element { attributes, .. } => crate::class::copy_vec(attributes),
                XmlNode::Text(_) => Vec::new(),
            }
        } else {
            Vec::new()
        }
    }

    /// The value of the first attribute with the given name, if any.
    pub fn attribute(&self, node: NodeId, name: StrId) -> (r: Option<StrId>)
        ensures
            ({
                let atts = match self.spec_nodes_attr(node) {
                    Some(a) => a,
                    None => Seq::<(StrId, StrId)>::empty(),
                };
                let idx = spec_find_attr(atts, name);
                match r {
                    Some(v) => idx >= 0 && atts[idx] == (name, v),
                    None => idx == -1,
                }
            }),
    {
        if node >= self.nodes.len() {
            return None;
        }
        match &self.nodes[node] {
            XmlNode::Element { attributes, .. } => {
                let n = attributes.len();
                let mut i: usize = 0;
                while i < n
                    invariant
                        i <= n,
                        node < self.spec_nodes().len(),
                        (self.spec_nodes()[node as int] matches
                            XmlNode::Element { attributes: a2, .. }
                            && n == a2@.len()
                            && attributes@ == a2@),
                        forall|j: int| 0 <= j < i
                            ==> (#[trigger] attributes@[j]).0 != name,
                    decreases n - i,
                {
                    if attributes[i].0 == name {
                        proof {
                            lemma_find_attr_char(attributes@, name, i as int);
                        }
                        return Some(attributes[i].1);
                    }
                    i = i + 1;
                }
                proof {
                    lemma_find_attr_none(attributes@, name);
                }
                None
            },
            XmlNode::Text(_) => None,
        }
    }

    /// The attribute list of an element node.
    pub open spec fn spec_nodes_attr(&self, node: NodeId) -> Option<Seq<(StrId, StrId)>> {
        if node < self.spec_nodes().len() {
            match self.spec_nodes()[node as int] {
                XmlNode::Element { attributes, .. } => Some(attributes@),
                XmlNode::Text(_) => None,
            }
        } else {
            None
        }
    }

    /// Whether `target` lies in the subtree rooted at `from`, searched to
    /// the given depth budget.
    fn in_subtree(&self, from: NodeId, target: NodeId, fuel: u128) -> (r: bool)
        ensures
            r == spec_in_subtree(self.spec_nodes(), from, target, fuel as nat),
        decreases fuel, 0int, 0int,
    {
        if from == target {
            return true;
        }
        if fuel == 0 || from >= self.nodes.len() {
            return false;
        }
        match &self.nodes[from] {
            XmlNode::Element { children, .. } => {
                let n = children.len();
                let mut i: usize = 0;
                proof {
                    assert(children@.skip(0) =~= children@);
                }
                while i < n
                    invariant
                        i <= n,
                        fuel >= 1,
                        from < self.spec_nodes().len(),
                        (self.spec_nodes()[from as int] matches
                            XmlNode::Element { children: c2, .. }
                            && n == c2@.len() && children@ == c2@),
                        spec_any_in_subtree(self.spec_nodes(), children@, target,
                            (fuel - 1) as nat)
                            == spec_any_in_subtree(self.spec_nodes(),
                                children@.skip(i as int), target, (fuel - 1) as nat),
                    decreases fuel, 1int, n - i,
                {
                    proof {
                        let t = children@.skip(i as int);
                        assert(t[0] == children@[i as int]);
                        assert(t.drop_first() =~= children@.skip(i as int + 1));
                    }
                    if self.in_subtree(children[i], target, fuel - 1) {
                        return true;
                    }
                    i = i + 1;
                }
                proof {
                    assert(spec_any_in_subtree(self.spec_nodes(),
                        children@.skip(n as int), target, (fuel - 1) as nat) == false);
                }
                false
            },
            XmlNode::Text(_) => false,
        }
    }

    /// Adopts a node as the element's last child. The child may be any
    /// node of the forest — whenever it was created — except one whose
    /// subtree contains the adopter, which would close a cycle and is
    /// refused. The subtree test is bounded by the forest's node count,
    /// which covers every acyclic forest.
    pub fn append_child(&mut self, parent: NodeId, child: NodeId)
        -> (r: Result<(), XmlError>)
        ensures
            ({
                let budget = (old(self).spec_nodes().len() + 1) as nat;
                match r {
                    Ok(()) => {
                        &&& parent < old(self).spec_nodes().len()
                        &&& !spec_in_subtree(old(self).spec_nodes(), child, parent, budget)
                        &&& final(self).spec_nodes().len() == old(self).spec_nodes().len()
                        &&& (forall|k: int| 0 <= k < old(self).spec_nodes().len()
                            && k != parent
                            ==> final(self).spec_nodes()[k] == old(self).spec_nodes()[k])
                        &&& (old(self).spec_nodes()[parent as int] matches
                            XmlNode::Element { name: on, attributes: oa, children: oc }
                            ==> final(self).spec_nodes()[parent as int] matches
                                XmlNode::Element { name: nn, attributes: na, children: nc }
                                && nn == on && na@ == oa@ && nc@ == oc@.push(child))
                    },
                    Err(XmlError::NoSuchNode { node }) => node == parent
                        && parent >= old(self).spec_nodes().len()
                        && final(self).spec_nodes() == old(self).spec_nodes(),
                    Err(XmlError::NotAnElement { node }) => node == parent
                        && parent < old(self).spec_nodes().len()
                        && old(self).spec_nodes()[parent as int] is Text
                        && final(self).spec_nodes() == old(self).spec_nodes(),
                    Err(XmlError::WouldCycle { parent: p, child: c }) => p == parent
                        && c == child
                        && spec_in_subtree(old(self).spec_nodes(), child, parent, budget)
                        && final(self).spec_nodes() == old(self).spec_nodes(),
                    Err(_) => false,
                }
            }),
    {
        if parent >= self.nodes.len() {
            return Err(XmlError::NoSuchNode { node: parent });
        }
        let budget = (self.nodes.len() as u128) + 1;
        if self.in_subtree(child, parent, budget) {
            return Err(XmlError::WouldCycle { parent, child });
        }
        let (name, attributes, mut children) = match &self.nodes[parent] {
            XmlNode::Element { name, attributes, children } => (*name,
                crate::class::copy_vec(attributes), crate::class::copy_vec(children)),
            XmlNode::Text(_) => {
                return Err(XmlError::NotAnElement { node: parent });
            },
        };
        children.push(child);
        self.nodes.set(parent, XmlNode::Element { name, attributes, children });
        Ok(())
    }

    /// Serializes a node to markup text, with a nesting budget of the
    /// forest's node count — enough for every acyclic forest.
    pub fn to_xml_string(&self, tbl: &StringTable, node: NodeId) -> (r: Vec<u8>)
        ensures
            r@ == spec_xml_string(self.spec_nodes(), tbl.spec_strings(), node as int,
                (self.spec_nodes().len() + 1) as nat),
    {
        let budget = (self.nodes.len() as u128) + 1;
        self.xml_string_rec(tbl, node, budget)
    }

    /// Serializes a node to the given nesting budget.
    fn xml_string_rec(&self, tbl: &StringTable, node: NodeId, fuel: u128) -> (r: Vec<u8>)
        ensures
            r@ == spec_xml_string(self.spec_nodes(), tbl.spec_strings(), node as int,
                fuel as nat),
        decreases fuel, 0int, 0int,
    {
        let mut out: Vec<u8> = Vec::new();
        if node >= self.nodes.len() {
            return out;
        }
        match &self.nodes[node] {
            XmlNode::Text(s) => {
                match tbl.lookup(*s) {
                    Some(bytes) => crate::class::copy_vec(bytes),
                    None => out,
                }
            },
            XmlNode::Element { name, attributes, children } => {
                let nm: Vec<u8> = match tbl.lookup(*name) {
                    Some(bytes) => crate::class::copy_vec(bytes),
                    None => Vec::new(),
                };
                if children.len() == 0 {
                    out.push(60);
                    append_bytes(&mut out, &nm);
                    self.append_attrs(tbl, attributes, &mut out);
                    out.push(47);
                    out.push(62);
                    proof {
                        assert(out@ =~= spec_xml_string(self.spec_nodes(),
                            tbl.spec_strings(), node as int, fuel as nat));
                    }
                    out
                } else if fuel == 0 {
                    out
                } else {
                    out.push(60);
                    append_bytes(&mut out, &nm);
                    self.append_attrs(tbl, attributes, &mut out);
                    out.push(62);
                    let kids = self.xml_children_rec(tbl, children, fuel - 1);
                    append_bytes(&mut out, &kids);
                    out.push(60);
                    out.push(47);
                    append_bytes(&mut out, &nm);
                    out.push(62);
                    proof {
                        assert(out@ =~= spec_xml_string(self.spec_nodes(),
                            tbl.spec_strings(), node as int, fuel as nat));
                    }
                    out
                }
            },
        }
    }

    /// Serializes a run of children to the given nesting budget.
    fn xml_children_rec(&self, tbl: &StringTable, children: &Vec<NodeId>, fuel: u128)
        -> (r: Vec<u8>)
        ensures
            r@ == spec_xml_children(self.spec_nodes(), tbl.spec_strings(), children@,
                fuel as nat),
        decreases fuel, 1int, children@.len(),
    {
        let mut out: Vec<u8> = Vec::new();
        let n = children.len();
        let mut i: usize = 0;
        proof {
            assert(children@.skip(0) =~= children@);
        }
        while i < n
            invariant
                i <= n,
                n == children@.len(),
                spec_xml_children(self.spec_nodes(), tbl.spec_strings(), children@,
                    fuel as nat)
                    == out@ + spec_xml_children(self.spec_nodes(), tbl.spec_strings(),
                        children@.skip(i as int), fuel as nat),
            decreases fuel, 1int, n - i,
        {
            proof {
                let t = children@.skip(i as int);
                assert(t[0] == children@[i as int]);
                assert(t.drop_first() =~= children@.skip(i as int + 1));
            }
            let piece = self.xml_string_rec(tbl, children[i], fuel);
            append_bytes(&mut out, &piece);
            i = i + 1;
        }
        proof {
            assert(spec_xml_children(self.spec_nodes(), tbl.spec_strings(),
                children@.skip(n as int), fuel as nat) =~= Seq::<u8>::empty());
            assert(out@ =~= out@ + Seq::<u8>::empty());
        }
        out
    }

    /// Appends an attribute list's markup.
    fn append_attrs(&self, tbl: &StringTable, attrs: &Vec<(StrId, StrId)>,
        out: &mut Vec<u8>)
        ensures
            final(out)@ == old(out)@ + spec_xml_attrs(tbl.spec_strings(), attrs@),
    {
        let n = attrs.len();
        let mut i: usize = 0;
        proof {
            assert(attrs@.skip(0) =~= attrs@);
        }
        while i < n
            invariant
                i <= n,
                n == attrs@.len(),
                old(out)@ + spec_xml_attrs(tbl.spec_strings(), attrs@)
                    == out@ + spec_xml_attrs(tbl.spec_strings(), attrs@.skip(i as int)),
            decreases n - i,
        {
            let (an, av) = attrs[i];
            proof {
                let t = attrs@.skip(i as int);
                assert(t[0] == (an, av));
                assert(t.drop_first() =~= attrs@.skip(i as int + 1));
            }
            out.push(32);
            match tbl.lookup(an) {
                Some(bytes) => {
                    let b = crate::class::copy_vec(bytes);
                    append_bytes(out, &b);
                },
                None => {},
            }
            out.push(61);
            out.push(34);
            match tbl.lookup(av) {
                Some(bytes) => {
                    let b = crate::class::copy_vec(bytes);
                    append_bytes(out, &b);
                },
                None => {},
            }
            out.push(34);
            proof {
                assert(old(out)@ + spec_xml_attrs(tbl.spec_strings(), attrs@)
                    =~= out@ + spec_xml_attrs(tbl.spec_strings(),
                        attrs@.skip(i as int + 1)));
            }
            i = i + 1;
        }
        proof {
            assert(spec_xml_attrs(tbl.spec_strings(), attrs@.skip(n as int))
                =~= Seq::<u8>::empty());
            assert(out@ =~= out@ + Seq::<u8>::empty());
        }
    }

    /// The string form of a node: a text node's content is its markup,
    /// and an element renders as its markup.
    pub fn to_string(&self, tbl: &StringTable, node: NodeId) -> (r: Vec<u8>)
        ensures
            r@ == spec_xml_string(self.spec_nodes(), tbl.spec_strings(), node as int,
                (self.spec_nodes().len() + 1) as nat),
    {
        self.to_xml_string(tbl, node)
    }
}

/// The index of the first attribute with the given name, or -1.
pub open spec fn spec_find_attr(attrs: Seq<(StrId, StrId)>, name: StrId) -> int
    decreases attrs.len(),
{
    if attrs.len() == 0 {
        -1
    } else if attrs[0].0 == name {
        0
    } else {
        let r = spec_find_attr(attrs.drop_first(), name);
        if r < 0 {
            -1
        } else {
            r + 1
        }
    }
}

proof fn lemma_find_attr_char(attrs: Seq<(StrId, StrId)>, name: StrId, i: int)
    requires
        0 <= i < attrs.len(),
        attrs[i].0 == name,
        forall|k: int| 0 <= k < i ==> (#[trigger] attrs[k]).0 != name,
    ensures
        spec_find_attr(attrs, name) == i,
    decreases attrs.len(),
{
    if i > 0 {
        lemma_find_attr_char(attrs.drop_first(), name, i - 1);
    }
}

proof fn lemma_find_attr_none(attrs: Seq<(StrId, StrId)>, name: StrId)
    requires
        forall|k: int| 0 <= k < attrs.len() ==> (#[trigger] attrs[k]).0 != name,
    ensures
        spec_find_attr(attrs, name) == -1,
    decreases attrs.len(),
{
    if attrs.len() > 0 {
        lemma_find_attr_none(attrs.drop_first(), name);
    }
}

/// Appends one byte vector to another.
pub fn append_bytes(out: &mut Vec<u8>, piece: &Vec<u8>)
    ensures
        final(out)@ == old(out)@ + piece@,
{
    let n = piece.len();
    let mut i: usize = 0;
    while i < n
        invariant
            i <= n,
            n == piece@.len(),
            out@ =~= old(out)@ + piece@.take(i as int),
        decreases n - i,
    {
        out.push(piece[i]);
        proof {
            assert(out@ =~= old(out)@ + piece@.take(i as int + 1));
        }
        i = i + 1;
    }
    proof {
        assert(piece@.take(n as int) =~= piece@);
    }
}

} // verus!
