//! An XML datastream as a tree that scripts can walk: each element with
//! its attributes, its namespace prefix, its text and its children.
use crate::events::{
    attribute_pairs, decoded, document_events, read_events, EventKind, XmlAttribute, XmlEvent,
};
use crate::rels_ext::first_index;
use crate::rels_ext::find_first;
use crate::text::{blank, chars_of, is_blank, slice_of, string_of};
use vstd::prelude::*;
use vstd::string::StringExecFns;

verus! {

/// One element of the tree.
#[derive(Clone, Debug, PartialEq, Eq)]
pub struct XmlNode {
    /// The namespace prefix, or nothing.
    pub namespace: String,
    /// The name without the prefix.
    pub local_name: String,
    /// The last text within the element that is not blank, or nothing.
    pub text: String,
    /// The attributes as written, values still escaped.
    pub attributes: Vec<XmlAttribute>,
    /// The places of the children in the tree, in document order.
    pub children: Vec<usize>,
}

/// An element as plain mathematical values.
pub struct XmlNodeView {
    pub namespace: Seq<char>,
    pub local_name: Seq<char>,
    pub text: Seq<char>,
    pub attributes: Seq<(Seq<char>, Seq<char>)>,
    pub children: Seq<usize>,
}

impl View for XmlNode {
    type V = XmlNodeView;

    open spec fn view(&self) -> XmlNodeView {
        XmlNodeView {
            namespace: self.namespace@,
            local_name: self.local_name@,
            text: self.text@,
            attributes: attribute_pairs(self.attributes@),
            children: self.children@,
        }
    }
}

/// The elements of a document; the root is the first, and every element
/// stands behind its parent.
#[derive(Clone, Debug, PartialEq, Eq)]
pub struct XmlTree {
    pub nodes: Vec<XmlNode>,
}

/// The views of a list of elements.
pub open spec fn node_views(nodes: Seq<XmlNode>) -> Seq<XmlNodeView> {
    Seq::new(nodes.len(), |i: int| nodes[i]@)
}

/// What can be wrong with the events of an XML datastream.
#[derive(Clone, Copy, Debug, PartialEq, Eq, Structural)]
pub enum XmlMapFault {
    /// The document ends before its root element is closed, or it has no
    /// root element that is opened and closed by tags of their own.
    UnexpectedEof,
    /// The escapes of a text are malformed.
    MalformedText,
}

/// Why an XML datastream could not be read.
#[derive(Debug)]
pub enum XmlMapError {
    /// The reader's own error.
    QuickXMLError(quick_xml::Error),
    /// The document was read, and its events are at fault.
    Invalid(XmlMapFault),
}

/// The number of colons in `name`.
pub open spec fn colons(name: Seq<char>) -> nat
    decreases name.len(),
{
    if name.len() == 0 {
        0
    } else {
        colons(name.drop_last()) + if name.last() == ':' {
            1nat
        } else {
            0nat
        }
    }
}

/// The namespace prefix of a qualified name: what stands before the colon
/// where the name holds exactly one, else nothing.
pub open spec fn namespace_of(name: Seq<char>) -> Seq<char> {
    if colons(name) == 1 {
        name.take(first_index(name, ':'))
    } else {
        Seq::empty()
    }
}

/// The local part of a qualified name: what stands behind the colon where
/// the name holds exactly one, else what stands before the first colon.
pub open spec fn local_of(name: Seq<char>) -> Seq<char> {
    if colons(name) == 1 {
        name.skip(first_index(name, ':') + 1)
    } else {
        name.take(first_index(name, ':'))
    }
}

/// The element that a tag opens, before anything is known of what it
/// holds.
pub open spec fn node_of(e: XmlEvent) -> XmlNodeView {
    XmlNodeView {
        namespace: namespace_of(e.name@),
        local_name: local_of(e.name@),
        text: Seq::empty(),
        attributes: attribute_pairs(e.attributes@),
        children: Seq::empty(),
    }
}

/// What is built of a document up to some event: the elements so far, the
/// places of the elements that are open, outermost first, and whether the
/// root has been closed.
pub struct Building {
    pub nodes: Seq<XmlNodeView>,
    pub open: Seq<usize>,
    pub closed: bool,
}

/// `nodes` with the element at `child` entered as the last child of the
/// element at `parent`.
pub open spec fn with_child(nodes: Seq<XmlNodeView>, parent: usize, child: usize) -> Seq<XmlNodeView> {
    nodes.update(
        parent as int,
        XmlNodeView { children: nodes[parent as int].children.push(child), ..nodes[parent as int] },
    )
}

/// What is built behind the event `e`, given what was built before it.
pub open spec fn build_step(b: Building, e: XmlEvent) -> Result<Building, XmlMapFault> {
    if b.closed {
        Ok(b)
    } else if b.open.len() == 0 {
        if e.kind == EventKind::Start {
            Ok(Building { nodes: seq![node_of(e)], open: seq![0usize], closed: false })
        } else {
            Ok(b)
        }
    } else {
        let top = b.open.last();
        let next = b.nodes.len() as usize;
        if e.kind == EventKind::Start {
            Ok(
                Building {
                    nodes: with_child(b.nodes, top, next).push(node_of(e)),
                    open: b.open.push(next),
                    closed: false,
                },
            )
        } else if e.kind == EventKind::Empty {
            Ok(Building { nodes: with_child(b.nodes, top, next).push(node_of(e)), ..b })
        } else if e.kind == EventKind::End {
            Ok(Building { open: b.open.drop_last(), closed: b.open.len() == 1, ..b })
        } else if e.kind == EventKind::Text {
            match e.text {
                None => Err(XmlMapFault::MalformedText),
                Some(text) => if blank(text@) {
                    Ok(b)
                } else {
                    Ok(
                        Building {
                            nodes: b.nodes.update(
                                top as int,
                                XmlNodeView { text: text@, ..b.nodes[top as int] },
                            ),
                            ..b
                        },
                    )
                },
            }
        } else {
            Ok(b)
        }
    }
}

/// What is built behind the first `upto` events.
pub open spec fn built(events: Seq<XmlEvent>, upto: int) -> Result<Building, XmlMapFault>
    decreases upto,
{
    if upto <= 0 {
        Ok(Building { nodes: Seq::empty(), open: Seq::empty(), closed: false })
    } else {
        match built(events, upto - 1) {
            Ok(b) => build_step(b, events[upto - 1]),
            Err(fault) => Err(fault),
        }
    }
}

/// The tree of a document: the first element that is opened by a tag of
/// its own, with all that it holds up to its closing tag.
pub open spec fn tree_of(events: Seq<XmlEvent>) -> Result<Seq<XmlNodeView>, XmlMapFault> {
    match built(events, events.len() as int) {
        Ok(b) => if b.closed {
            Ok(b.nodes)
        } else {
            Err(XmlMapFault::UnexpectedEof)
        },
        Err(fault) => Err(fault),
    }
}

/// A fault that is met stays to the end of the document.
pub proof fn lemma_build_fault_stays(events: Seq<XmlEvent>, at: int, upto: int)
    requires
        0 <= at <= upto,
        built(events, at) is Err,
    ensures
        built(events, upto) == built(events, at),
    decreases upto - at,
{
    if at < upto {
        lemma_build_fault_stays(events, at, upto - 1);
    }
}

/// Every child stands behind its parent and within the tree.
pub open spec fn ordered_tree(nodes: Seq<XmlNodeView>) -> bool {
    forall|i: int, k: int|
        0 <= i < nodes.len() && 0 <= k < nodes[i].children.len() ==> i < (
        #[trigger] nodes[i].children[k]) < nodes.len()
}

/// What is built is a tree: every child stands behind its parent, every
/// element that is open is there, and so is a root that has been closed.
pub open spec fn building_in_order(b: Building) -> bool {
    &&& ordered_tree(b.nodes)
    &&& forall|k: int| 0 <= k < b.open.len() ==> #[trigger] b.open[k] < b.nodes.len()
    &&& b.closed ==> b.nodes.len() > 0
}

/// A step keeps what is built a tree.
pub proof fn lemma_step_keeps_tree(b: Building, e: XmlEvent)
    requires
        building_in_order(b),
        b.nodes.len() < usize::MAX,
    ensures
        build_step(b, e) matches Ok(after) ==> building_in_order(after) && after.nodes.len()
            <= b.nodes.len() + 1,
{
    if !b.closed && b.open.len() > 0 {
        let top = b.open.last();
        let next = b.nodes.len() as usize;
        assert(top < b.nodes.len());
        if e.kind == EventKind::Start || e.kind == EventKind::Empty {
            let after = with_child(b.nodes, top, next).push(node_of(e));
            assert forall|i: int, k: int|
                0 <= i < after.len() && 0 <= k < after[i].children.len() implies i < (
            #[trigger] after[i].children[k]) < after.len() by {
                if i == top {
                    if k < b.nodes[i].children.len() {
                        assert(after[i].children[k] == b.nodes[i].children[k]);
                    }
                } else if i < b.nodes.len() {
                    assert(after[i] == b.nodes[i]);
                    assert(after[i].children[k] == b.nodes[i].children[k]);
                }
            }
        } else if e.kind == EventKind::Text {
            match e.text {
                Some(text) => {
                    if !blank(text@) {
                        let after = b.nodes.update(
                            top as int,
                            XmlNodeView { text: text@, ..b.nodes[top as int] },
                        );
                        assert forall|i: int, k: int|
                            0 <= i < after.len() && 0 <= k < after[i].children.len() implies i < (
                        #[trigger] after[i].children[k]) < after.len() by {
                            assert(after[i].children[k] == b.nodes[i].children[k]);
                        }
                    }
                },
                None => {},
            }
        }
    }
}

/// What is built of the first events of a document is a tree of no more
/// elements than events.
pub proof fn lemma_built_tree(events: Seq<XmlEvent>, upto: int)
    requires
        0 <= upto <= events.len(),
        events.len() <= usize::MAX,
    ensures
        built(events, upto) matches Ok(b) ==> building_in_order(b) && b.nodes.len() <= upto,
    decreases upto,
{
    if upto > 0 {
        lemma_built_tree(events, upto - 1);
        match built(events, upto - 1) {
            Ok(b) => {
                lemma_step_keeps_tree(b, events[upto - 1]);
            },
            Err(_) => {},
        }
    }
}

/// The number of colons in `name`.
pub fn count_colons(name: &Vec<char>) -> (r: usize)
    ensures
        r == colons(name@),
{
    let mut r: usize = 0;
    let mut i: usize = 0;
    while i < name.len()
        invariant
            i <= name.len(),
            r <= i,
            r == colons(name@.take(i as int)),
        decreases name.len() - i,
    {
        assert(name@.take(i + 1).drop_last() == name@.take(i as int));
        if name[i] == ':' {
            r += 1;
        }
        i += 1;
    }
    assert(name@.take(name.len() as int) == name@);
    r
}

/// The namespace prefix and the local part of a qualified name.
pub fn name(qualified: &str) -> (r: (String, String))
    ensures
        r.0@ == namespace_of(qualified@),
        r.1@ == local_of(qualified@),
{
    let v = chars_of(qualified);
    let colon = find_first(&v, ':');
    if count_colons(&v) == 1 {
        proof {
            if colon == v.len() {
                lemma_no_colon(v@);
            }
        }
        (string_of(&slice_of(&v, 0, colon)), string_of(&slice_of(&v, colon + 1, v.len())))
    } else {
        (String::new(), string_of(&slice_of(&v, 0, colon)))
    }
}

/// A name in which no colon is found holds none.
pub proof fn lemma_no_colon(name: Seq<char>)
    requires
        first_index(name, ':') == name.len(),
    ensures
        colons(name) == 0,
    decreases name.len(),
{
    lemma_no_colon_at(name, name.len() as int);
    assert(name.take(name.len() as int) == name);
}

/// No position before the first colon holds a colon.
pub proof fn lemma_no_colon_at(name: Seq<char>, upto: int)
    requires
        0 <= upto <= first_index(name, ':'),
        upto <= name.len(),
    ensures
        colons(name.take(upto)) == 0,
    decreases upto,
{
    if upto > 0 {
        lemma_no_colon_at(name, upto - 1);
        assert(name.take(upto).drop_last() == name.take(upto - 1));
        lemma_before_first(name, ':', upto - 1);
    } else {
        assert(name.take(0) =~= Seq::empty());
    }
    if upto == name.len() {
        assert(name.take(upto) == name);
    }
}

/// A position before the first `c` does not hold `c`.
pub proof fn lemma_before_first(s: Seq<char>, c: char, at: int)
    requires
        0 <= at < first_index(s, c),
        at < s.len(),
    ensures
        s[at] != c,
    decreases s.len(),
{
    if at > 0 {
        lemma_before_first(s.drop_first(), c, at - 1);
    }
}

impl XmlTree {
    /// The tree of the events of a document: the root is there, and every
    /// child stands behind its parent.
    pub fn from_events(events: &Vec<XmlEvent>) -> (r: Result<XmlTree, XmlMapFault>)
        ensures
            match tree_of(events@) {
                Ok(nodes) => r matches Ok(tree) && node_views(tree.nodes@) == nodes
                    && tree.nodes.len() > 0 && ordered_tree(nodes),
                Err(fault) => r matches Err(f) && f == fault,
            },
    {
        proof {
            lemma_built_tree(events@, events.len() as int);
        }
        let mut nodes: Vec<XmlNode> = Vec::new();
        let mut open: Vec<usize> = Vec::new();
        let mut closed = false;
        let mut i: usize = 0;
        assert(node_views(nodes@) =~= Seq::empty());
        while i < events.len()
            invariant
                i <= events.len(),
                built(events@, i as int) == Ok::<Building, XmlMapFault>(
                    Building { nodes: node_views(nodes@), open: open@, closed },
                ),
                forall|k: int| 0 <= k < open.len() ==> #[trigger] open[k] < nodes.len(),
                open.len() == 0 && !closed ==> nodes.len() == 0,
                nodes.len() <= i,
            decreases events.len() - i,
        {
            let e = &events[i];
            let ghost before = Building { nodes: node_views(nodes@), open: open@, closed };
            let ghost old_nodes = nodes@;
            proof {
                assert(built(events@, i + 1) == build_step(before, *e));
                if build_step(before, *e) is Err {
                    lemma_build_fault_stays(events@, i + 1, events.len() as int);
                }
            }
            if closed {
            } else if open.len() == 0 {
                if e.kind == EventKind::Start {
                    let made = XmlTree::node(e);
                    nodes.push(made);
                    open.push(0);
                    assert(node_views(nodes@) =~= seq![node_of(*e)]);
                    assert(open@ =~= seq![0usize]);
                }
            } else {
                let top = open[open.len() - 1];
                let next = nodes.len();
                if e.kind == EventKind::Start || e.kind == EventKind::Empty {
                    let made = XmlTree::node(e);
                    XmlTree::add_child(&mut nodes, top, next);
                    nodes.push(made);
                    if e.kind == EventKind::Start {
                        open.push(next);
                    }
                    assert(node_views(nodes@) =~= with_child(before.nodes, top, next).push(
                        node_of(*e),
                    ));
                } else if e.kind == EventKind::End {
                    closed = open.len() == 1;
                    open.pop();
                } else if e.kind == EventKind::Text {
                    match &e.text {
                        None => {
                            return Err(XmlMapFault::MalformedText);
                        },
                        Some(text) => {
                            if !is_blank(text.as_str()) {
                                XmlTree::set_text(&mut nodes, top, text.clone());
                            }
                        },
                    }
                }
            }
            i += 1;
        }
        if closed {
            Ok(XmlTree { nodes })
        } else {
            Err(XmlMapFault::UnexpectedEof)
        }
    }

    /// The element that a tag opens.
    fn node(e: &XmlEvent) -> (r: XmlNode)
        ensures
            r@ == node_of(*e),
    {
        let (namespace, local_name) = name(e.name.as_str());
        let mut attributes: Vec<XmlAttribute> = Vec::new();
        let mut i: usize = 0;
        while i < e.attributes.len()
            invariant
                i <= e.attributes.len(),
                attributes.len() == i,
                forall|k: int|
                    0 <= k < i ==> (#[trigger] attributes[k]).key@ == e.attributes[k].key@
                        && attributes[k].value@ == e.attributes[k].value@,
            decreases e.attributes.len() - i,
        {
            attributes.push(
                XmlAttribute {
                    key: e.attributes[i].key.clone(),
                    value: e.attributes[i].value.clone(),
                },
            );
            i += 1;
        }
        assert(attribute_pairs(attributes@) =~= attribute_pairs(e.attributes@));
        XmlNode { namespace, local_name, text: String::new(), attributes, children: Vec::new() }
    }

    /// Enters the element at `child` as the last child of the one at
    /// `parent`.
    fn add_child(nodes: &mut Vec<XmlNode>, parent: usize, child: usize)
        requires
            parent < old(nodes).len(),
        ensures
            node_views(final(nodes)@) == with_child(node_views(old(nodes)@), parent, child),
            final(nodes).len() == old(nodes).len(),
    {
        let mut node = nodes.remove(parent);
        node.children.push(child);
        nodes.insert(parent, node);
        assert(node_views(nodes@) =~= with_child(node_views(old(nodes)@), parent, child));
    }

    /// Gives the element at `at` the text `text`.
    fn set_text(nodes: &mut Vec<XmlNode>, at: usize, text: String)
        requires
            at < old(nodes).len(),
        ensures
            node_views(final(nodes)@) == node_views(old(nodes)@).update(
                at as int,
                XmlNodeView { text: text@, ..old(nodes)@[at as int]@ },
            ),
            final(nodes).len() == old(nodes).len(),
    {
        let mut node = nodes.remove(at);
        node.text = text;
        nodes.insert(at, node);
        assert(node_views(nodes@) =~= node_views(old(nodes)@).update(
            at as int,
            XmlNodeView { text: text@, ..old(nodes)@[at as int]@ },
        ));
    }
}

/// The MIME types of the datastreams that are read as XML.
pub open spec fn is_xml(mime_type: Seq<char>) -> bool {
    mime_type == "application/rdf+xml"@ || mime_type == "application/xml"@ || mime_type
        == "text/xml"@
}

/// `r` is what is made of the events of an XML datastream: the tree that
/// they build, or their fault.
pub open spec fn tree_reading_of(events: Seq<XmlEvent>, r: Result<XmlTree, XmlMapError>) -> bool {
    match tree_of(events) {
        Ok(nodes) => r matches Ok(tree) && node_views(tree.nodes@) == nodes,
        Err(fault) => r matches Err(XmlMapError::Invalid(f)) && f == fault,
    }
}

/// `r` is what is made of the text of an XML datastream: the reader's
/// error where the reader meets one; else what is made of the events that
/// the reader hands out of the text, each decoded.
pub open spec fn parsing_of(content: Seq<char>, r: Result<XmlTree, XmlMapError>) -> bool {
    if document_events(content).1 {
        r matches Err(XmlMapError::QuickXMLError(_))
    } else {
        exists|events: Seq<XmlEvent>|
            decoded(events, document_events(content).0) && #[trigger] tree_reading_of(events, r)
    }
}

/// Reads the content of a datastream version as a tree: nothing where
/// its MIME type is none of XML; else what `parsing_of` says of the text.
pub fn parse(mime_type: &str, content: &str) -> (r: Option<Result<XmlTree, XmlMapError>>)
    ensures
        match r {
            Some(result) => is_xml(mime_type@) && parsing_of(content@, result),
            None => !is_xml(mime_type@),
        },
        r matches Some(Ok(tree)) ==> tree.nodes.len() > 0 && ordered_tree(node_views(tree.nodes@)),
{
    if mime_type.eq("application/rdf+xml") || mime_type.eq("application/xml") || mime_type.eq(
        "text/xml",
    ) {
        match read_events(content) {
            Err(error) => Some(Err(XmlMapError::QuickXMLError(error))),
            Ok(events) => {
                let result = match XmlTree::from_events(&events) {
                    Ok(tree) => Ok(tree),
                    Err(fault) => Err(XmlMapError::Invalid(fault)),
                };
                assert(decoded(events@, document_events(content@).0) && tree_reading_of(
                    events@,
                    result,
                ));
                Some(result)
            },
        }
    } else {
        None
    }
}

/// What stands in an element under a key.
#[derive(Clone, Debug, PartialEq, Eq)]
pub enum XmlValue {
    /// The value of an attribute, the namespace prefix or the text.
    Text(String),
    /// The places of the children of one name, in document order; none
    /// where nothing stands under the key.
    Elements(Vec<usize>),
}

/// What stands in an element under a key, as plain mathematical values.
pub enum XmlValueView {
    Text(Seq<char>),
    Elements(Seq<usize>),
}

impl View for XmlValue {
    type V = XmlValueView;

    open spec fn view(&self) -> XmlValueView {
        match self {
            XmlValue::Text(text) => XmlValueView::Text(text@),
            XmlValue::Elements(places) => XmlValueView::Elements(places@),
        }
    }
}

/// Those of `children` whose local name is `name`, in order; a place that
/// lies outside the tree is passed over.
pub open spec fn named_children(nodes: Seq<XmlNodeView>, children: Seq<usize>, name: Seq<char>) -> Seq<
    usize,
>
    decreases children.len(),
{
    if children.len() == 0 {
        children
    } else if children.last() < nodes.len() && nodes[children.last() as int].local_name == name {
        named_children(nodes, children.drop_last(), name).push(children.last())
    } else {
        named_children(nodes, children.drop_last(), name)
    }
}

/// The value of the last attribute whose key is `key`.
pub open spec fn last_value(attributes: Seq<(Seq<char>, Seq<char>)>, key: Seq<char>) -> Option<
    Seq<char>,
>
    decreases attributes.len(),
{
    if attributes.len() == 0 {
        None
    } else if attributes.last().0 == key {
        Some(attributes.last().1)
    } else {
        last_value(attributes.drop_last(), key)
    }
}

/// What stands in the element at `at` under `key`: the children of that
/// local name, if there are any; else the namespace prefix under
/// `#namespace` and the text under `#text`; else, under `@` and the key of
/// an attribute, its value; else no elements.
pub open spec fn value_at(nodes: Seq<XmlNodeView>, at: int, key: Seq<char>) -> XmlValueView {
    let node = nodes[at];
    let children = named_children(nodes, node.children, key);
    if children.len() > 0 {
        XmlValueView::Elements(children)
    } else if key == "#namespace"@ {
        XmlValueView::Text(node.namespace)
    } else if key == "#text"@ {
        XmlValueView::Text(node.text)
    } else if key.len() > 0 && key[0] == '@' {
        match last_value(node.attributes, key.skip(1)) {
            Some(value) => XmlValueView::Text(value),
            None => XmlValueView::Elements(Seq::empty()),
        }
    } else {
        XmlValueView::Elements(Seq::empty())
    }
}

impl XmlTree {
    /// Those of the children of the element at `at` whose local name is
    /// `name`.
    pub fn children_named(&self, at: usize, name: &str) -> (r: Vec<usize>)
        requires
            at < self.nodes.len(),
        ensures
            r@ == named_children(node_views(self.nodes@), self.nodes[at as int].children@, name@),
            forall|k: int| 0 <= k < r.len() ==> #[trigger] r[k] < self.nodes.len(),
    {
        let children = &self.nodes[at].children;
        let mut r: Vec<usize> = Vec::new();
        let mut i: usize = 0;
        assert(children@.take(0) =~= Seq::empty());
        while i < children.len()
            invariant
                i <= children.len(),
                r@ == named_children(node_views(self.nodes@), children@.take(i as int), name@),
                forall|k: int| 0 <= k < r.len() ==> #[trigger] r[k] < self.nodes.len(),
            decreases children.len() - i,
        {
            assert(children@.take(i + 1).drop_last() == children@.take(i as int));
            assert(children@.take(i + 1).last() == children@[i as int]);
            let child = children[i];
            if child < self.nodes.len() && self.nodes[child].local_name.as_str().eq(name) {
                r.push(child);
            }
            i += 1;
        }
        assert(children@.take(children.len() as int) == children@);
        r
    }

    /// What stands in the element at `at` under `key`.
    pub fn get(&self, at: usize, key: &str) -> (r: XmlValue)
        requires
            at < self.nodes.len(),
        ensures
            r@ == value_at(node_views(self.nodes@), at as int, key@),
    {
        let children = self.children_named(at, key);
        if children.len() > 0 {
            return XmlValue::Elements(children);
        }
        let node = &self.nodes[at];
        if key.eq("#namespace") {
            return XmlValue::Text(node.namespace.clone());
        }
        if key.eq("#text") {
            return XmlValue::Text(node.text.clone());
        }
        let k = chars_of(key);
        if k.len() > 0 && k[0] == '@' {
            let name = string_of(&slice_of(&k, 1, k.len()));
            let ghost pairs = attribute_pairs(node.attributes@);
            let mut i: usize = node.attributes.len();
            assert(pairs.take(i as int) == pairs);
            while i > 0
                invariant
                    i <= node.attributes.len(),
                    at < self.nodes.len(),
                    *node == self.nodes[at as int],
                    children@ == named_children(
                        node_views(self.nodes@),
                        self.nodes[at as int].children@,
                        key@,
                    ),
                    children.len() == 0,
                    key@ != "#namespace"@,
                    key@ != "#text"@,
                    key@.len() > 0 && key@[0] == '@',
                    pairs == attribute_pairs(node.attributes@),
                    name@ == key@.skip(1),
                    last_value(pairs, name@) == last_value(pairs.take(i as int), name@),
                decreases i,
            {
                assert(pairs.take(i as int).drop_last() == pairs.take(i - 1));
                assert(pairs.take(i as int).last() == pairs[i - 1]);
                if node.attributes[i - 1].key.as_str().eq(name.as_str()) {
                    return XmlValue::Text(node.attributes[i - 1].value.clone());
                }
                i -= 1;
            }
            assert(pairs.take(0) =~= Seq::empty());
        }
        XmlValue::Elements(Vec::new())
    }
}


/// The children of the elements at `places` whose local name is `name`:
/// those of the first element, then those of the second, and so on.
pub open spec fn descended(nodes: Seq<XmlNodeView>, places: Seq<usize>, name: Seq<char>) -> Seq<
    usize,
>
    decreases places.len(),
{
    if places.len() == 0 {
        Seq::empty()
    } else if places.last() < nodes.len() {
        descended(nodes, places.drop_last(), name) + named_children(
            nodes,
            nodes[places.last() as int].children,
            name,
        )
    } else {
        descended(nodes, places.drop_last(), name)
    }
}

/// The elements that are reached from `places` by the names of `path`,
/// one after the other: children of the first name, of these the children
/// of the second name, and so on.
pub open spec fn found_from(nodes: Seq<XmlNodeView>, places: Seq<usize>, path: Seq<Seq<char>>) -> Seq<
    usize,
>
    decreases path.len(),
{
    if path.len() == 0 {
        places
    } else {
        found_from(nodes, descended(nodes, places, path.first()), path.drop_first())
    }
}

/// The elements that are reached from the element at `at` by the names of
/// `path`; the element itself where the path is empty.
pub open spec fn found(nodes: Seq<XmlNodeView>, at: int, path: Seq<Seq<char>>) -> Seq<usize> {
    found_from(nodes, seq![at as usize], path)
}

impl XmlTree {
    /// The children of the elements at `places` whose local name is
    /// `name`, element by element.
    pub fn descend(&self, places: &Vec<usize>, name: &str) -> (r: Vec<usize>)
        ensures
            r@ == descended(node_views(self.nodes@), places@, name@),
            forall|k: int| 0 <= k < r.len() ==> #[trigger] r[k] < self.nodes.len(),
    {
        let mut r: Vec<usize> = Vec::new();
        let mut j: usize = 0;
        assert(places@.take(0) =~= Seq::empty());
        while j < places.len()
            invariant
                j <= places.len(),
                r@ == descended(node_views(self.nodes@), places@.take(j as int), name@),
                forall|k: int| 0 <= k < r.len() ==> #[trigger] r[k] < self.nodes.len(),
            decreases places.len() - j,
        {
            assert(places@.take(j + 1).drop_last() =~= places@.take(j as int));
            assert(places@.take(j + 1).last() == places@[j as int]);
            if places[j] < self.nodes.len() {
                let mut children = self.children_named(places[j], name);
                r.append(&mut children);
            }
            j += 1;
        }
        assert(places@.take(places.len() as int) =~= places@);
        r
    }

    /// The elements that are reached from the element at `at` by the names
    /// of `path`, one after the other, in document order.
    pub fn find(&self, at: usize, path: &Vec<String>) -> (r: Vec<usize>)
        requires
            at < self.nodes.len(),
        ensures
            r@ == found(node_views(self.nodes@), at as int, crate::text::texts(path@)),
            forall|k: int| 0 <= k < r.len() ==> #[trigger] r[k] < self.nodes.len(),
    {
        let mut places: Vec<usize> = Vec::new();
        places.push(at);
        assert(places@ =~= seq![at]);
        let ghost names = crate::text::texts(path@);
        let mut i: usize = 0;
        assert(names.skip(0) =~= names);
        while i < path.len()
            invariant
                i <= path.len(),
                names == crate::text::texts(path@),
                found(node_views(self.nodes@), at as int, names) == found_from(
                    node_views(self.nodes@),
                    places@,
                    names.skip(i as int),
                ),
                forall|k: int| 0 <= k < places.len() ==> #[trigger] places[k] < self.nodes.len(),
            decreases path.len() - i,
        {
            assert(names.skip(i as int).first() == path[i as int]@);
            assert(names.skip(i as int).drop_first() =~= names.skip(i + 1));
            places = self.descend(&places, path[i].as_str());
            i += 1;
        }
        places
    }
}

/// The local names of the elements at the given places, each name once,
/// in the order in which it is first met.
pub open spec fn distinct_names(nodes: Seq<XmlNodeView>, children: Seq<usize>) -> Seq<Seq<char>>
    decreases children.len(),
{
    if children.len() == 0 {
        Seq::empty()
    } else {
        let names = distinct_names(nodes, children.drop_last());
        if children.last() < nodes.len() && !names.contains(
            nodes[children.last() as int].local_name,
        ) {
            names.push(nodes[children.last() as int].local_name)
        } else {
            names
        }
    }
}

impl XmlTree {
    /// The local names of the children of the element at `at`, each name
    /// once, in the order in which it is first met.
    pub fn child_names(&self, at: usize) -> (r: Vec<String>)
        requires
            at < self.nodes.len(),
        ensures
            crate::text::texts(r@) == distinct_names(
                node_views(self.nodes@),
                self.nodes[at as int].children@,
            ),
    {
        let children = &self.nodes[at].children;
        let mut r: Vec<String> = Vec::new();
        let mut i: usize = 0;
        assert(children@.take(0) =~= Seq::empty());
        assert(crate::text::texts(r@) =~= Seq::empty());
        while i < children.len()
            invariant
                i <= children.len(),
                crate::text::texts(r@) == distinct_names(
                    node_views(self.nodes@),
                    children@.take(i as int),
                ),
            decreases children.len() - i,
        {
            assert(children@.take(i + 1).drop_last() == children@.take(i as int));
            assert(children@.take(i + 1).last() == children@[i as int]);
            let child = children[i];
            if child < self.nodes.len() {
                let name = &self.nodes[child].local_name;
                let mut found = false;
                let mut k: usize = 0;
                while k < r.len() && !found
                    invariant
                        k <= r.len(),
                        found ==> crate::text::texts(r@).contains(name@),
                        !found ==> forall|m: int| 0 <= m < k ==> crate::text::texts(r@)[m] != name@,
                    decreases r.len() - k,
                {
                    if r[k].as_str().eq(name.as_str()) {
                        found = true;
                        assert(crate::text::texts(r@)[k as int] == name@);
                    }
                    k += 1;
                }
                if !found {
                    let ghost before = r@;
                    r.push(name.clone());
                    assert(crate::text::texts(r@) =~= crate::text::texts(before).push(name@));
                }
            }
            i += 1;
        }
        assert(children@.take(children.len() as int) == children@);
        r
    }
}

/// Those of `children` that lie within the tree, in order.
pub open spec fn valid_children(nodes: Seq<XmlNodeView>, children: Seq<usize>) -> Seq<usize>
    decreases children.len(),
{
    if children.len() == 0 {
        children
    } else if children.last() < nodes.len() {
        valid_children(nodes, children.drop_last()).push(children.last())
    } else {
        valid_children(nodes, children.drop_last())
    }
}

/// The keys of the attributes, each behind an `@`.
pub open spec fn attribute_keys(attributes: Seq<(Seq<char>, Seq<char>)>) -> Seq<Seq<char>> {
    Seq::new(attributes.len(), |i: int| seq!['@'] + attributes[i].0)
}

/// The keys under which something stands in the element at `at`: its
/// attributes behind an `@`, `#namespace`, `#text`, and the local names of
/// its children, each name once.
pub open spec fn keys_at(nodes: Seq<XmlNodeView>, at: int) -> Seq<Seq<char>> {
    attribute_keys(nodes[at].attributes) + seq!["#namespace"@, "#text"@] + distinct_names(
        nodes,
        nodes[at].children,
    )
}

impl XmlTree {
    /// The children of the element at `at`, in document order.
    pub fn elements(&self, at: usize) -> (r: Vec<usize>)
        requires
            at < self.nodes.len(),
        ensures
            r@ == valid_children(node_views(self.nodes@), self.nodes[at as int].children@),
            forall|k: int| 0 <= k < r.len() ==> #[trigger] r[k] < self.nodes.len(),
    {
        let children = &self.nodes[at].children;
        let mut r: Vec<usize> = Vec::new();
        let mut i: usize = 0;
        assert(children@.take(0) =~= Seq::empty());
        while i < children.len()
            invariant
                i <= children.len(),
                r@ == valid_children(node_views(self.nodes@), children@.take(i as int)),
                forall|k: int| 0 <= k < r.len() ==> #[trigger] r[k] < self.nodes.len(),
            decreases children.len() - i,
        {
            assert(children@.take(i + 1).drop_last() =~= children@.take(i as int));
            assert(children@.take(i + 1).last() == children@[i as int]);
            if children[i] < self.nodes.len() {
                r.push(children[i]);
            }
            i += 1;
        }
        assert(children@.take(children.len() as int) =~= children@);
        r
    }

    /// The keys under which something stands in the element at `at`.
    pub fn keys(&self, at: usize) -> (r: Vec<String>)
        requires
            at < self.nodes.len(),
        ensures
            crate::text::texts(r@) == keys_at(node_views(self.nodes@), at as int),
    {
        let node = &self.nodes[at];
        let ghost pairs = attribute_pairs(node.attributes@);
        let mut r: Vec<String> = Vec::new();
        let mut i: usize = 0;
        assert(crate::text::texts(r@) =~= attribute_keys(pairs.take(0)));
        while i < node.attributes.len()
            invariant
                i <= node.attributes.len(),
                pairs == attribute_pairs(node.attributes@),
                crate::text::texts(r@) == attribute_keys(pairs.take(i as int)),
            decreases node.attributes.len() - i,
        {
            let ghost before = r@;
            let mut key = String::new();
            key.push('@');
            key.append(node.attributes[i].key.as_str());
            r.push(key);
            assert(key@ =~= seq!['@'] + pairs[i as int].0);
            assert(crate::text::texts(r@) =~= crate::text::texts(before).push(key@));
            assert(attribute_keys(pairs.take(i + 1)) =~= attribute_keys(pairs.take(i as int)).push(
                key@,
            ));
            i += 1;
        }
        assert(pairs.take(pairs.len() as int) =~= pairs);
        let ghost attributes = r@;
        r.push(String::from_str("#namespace"));
        r.push(String::from_str("#text"));
        let mut names = self.child_names(at);
        let ghost children = names@;
        r.append(&mut names);
        assert(crate::text::texts(r@) =~= crate::text::texts(attributes) + seq![
            "#namespace"@,
            "#text"@,
        ] + crate::text::texts(children));
        r
    }
}

} // verus!
