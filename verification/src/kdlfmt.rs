//! Documents in KDL: reading them into plain values, and writing them.

use crate::error;
use crate::error::{error_at, CoreError};
use crate::text;
use crate::text::{decimal_of_i128, same};
use crate::views;
use vstd::prelude::*;

verus! {

/// A value in a document. What a float holds is of no interest.
#[derive(Debug, Clone)]
pub enum Value {
    Text(String),
    Integer(i128),
    Flag(bool),
    Float,
    Null,
}

/// The content of a [`Value`].
#[verifier::ext_equal]
pub enum ValueView {
    Text(Seq<char>),
    Integer(int),
    Flag(bool),
    Float,
    Null,
}

impl View for Value {
    type V = ValueView;

    open spec fn view(&self) -> ValueView {
        match self {
            Value::Text(s) => ValueView::Text(s@),
            Value::Integer(i) => ValueView::Integer(*i as int),
            Value::Flag(b) => ValueView::Flag(*b),
            Value::Float => ValueView::Float,
            Value::Null => ValueView::Null,
        }
    }
}

/// An argument of a node, or a property where it has a name.
#[derive(Debug, Clone)]
pub struct Entry {
    pub name: Option<String>,
    pub value: Value,
}

/// The content of an [`Entry`].
#[verifier::ext_equal]
pub struct EntryView {
    pub name: Option<Seq<char>>,
    pub value: ValueView,
}

impl View for Entry {
    type V = EntryView;

    open spec fn view(&self) -> EntryView {
        EntryView { name: views::opt_view(self.name), value: self.value@ }
    }
}

/// A node without children, with the stretch of the text that it takes up.
#[derive(Debug, Clone)]
pub struct Leaf {
    pub name: String,
    pub entries: Vec<Entry>,
    pub offset: usize,
    pub length: usize,
}

/// The content of a [`Leaf`].
#[verifier::ext_equal]
pub struct LeafView {
    pub name: Seq<char>,
    pub entries: Seq<EntryView>,
    pub offset: nat,
    pub length: nat,
}

impl View for Leaf {
    type V = LeafView;

    open spec fn view(&self) -> LeafView {
        LeafView {
            name: self.name@,
            entries: views::views(self.entries@),
            offset: self.offset as nat,
            length: self.length as nat,
        }
    }
}

/// A node that may have children, with the stretch of the text that it takes up.
#[derive(Debug, Clone)]
pub struct Node<C> {
    pub name: String,
    pub entries: Vec<Entry>,
    pub children: Option<Vec<C>>,
    pub offset: usize,
    pub length: usize,
}

/// The content of a [`Node`].
#[verifier::ext_equal]
pub struct Shape<C> {
    pub name: Seq<char>,
    pub entries: Seq<EntryView>,
    pub children: Option<Seq<C>>,
    pub offset: nat,
    pub length: nat,
}

impl<C: View> View for Node<C> {
    type V = Shape<C::V>;

    open spec fn view(&self) -> Shape<C::V> {
        Shape {
            name: self.name@,
            entries: views::views(self.entries@),
            children: match self.children {
                Some(ns) => Some(views::views(ns@)),
                None => None,
            },
            offset: self.offset as nat,
            length: self.length as nat,
        }
    }
}

/// The value of the first argument.
pub open spec fn first_argument(es: Seq<EntryView>) -> Option<ValueView>
    decreases es.len(),
{
    if es.len() == 0 {
        None
    } else if es[0].name is None {
        Some(es[0].value)
    } else {
        first_argument(es.skip(1))
    }
}

/// The value of the first argument.
pub fn argument(entries: &Vec<Entry>) -> (r: Option<&Value>)
    ensures
        match first_argument(views::views(entries@)) {
            Some(v) => r matches Some(x) && x@ == v,
            None => r is None,
        },
{
    let ghost all = views::views(entries@);
    let mut i: usize = 0;
    proof {
        assert(all.skip(0) =~= all);
    }
    while i < entries.len()
        invariant
            all == views::views(entries@),
            i <= entries@.len(),
            first_argument(all) == first_argument(all.skip(i as int)),
        decreases entries@.len() - i,
    {
        proof {
            assert(all.skip(i as int)[0] == entries@[i as int]@);
            assert(all.skip(i as int).skip(1) =~= all.skip(i + 1));
        }
        if entries[i].name.is_none() {
            return Some(&entries[i].value);
        }
        i += 1;
    }
    None
}

/// The value as a text, where it is a text, an integer or a flag.
pub open spec fn as_text(v: ValueView) -> Option<Seq<char>> {
    match v {
        ValueView::Text(s) => Some(s),
        ValueView::Integer(i) => Some(text::signed_decimal(i)),
        ValueView::Flag(b) => Some(
            if b {
                "true"@
            } else {
                "false"@
            },
        ),
        _ => None,
    }
}

/// The value as a text, where it is a text, an integer or a flag.
pub fn value_text(v: &Value) -> (r: Option<String>)
    ensures
        views::opt_view(r) == as_text(v@),
{
    match v {
        Value::Text(s) => Some(s.clone()),
        Value::Integer(i) => Some(decimal_of_i128(*i)),
        Value::Flag(b) => Some(
            if *b {
                "true".to_owned()
            } else {
                "false".to_owned()
            },
        ),
        _ => None,
    }
}

/// The first child with the name, from the place on.
pub open spec fn child_from(cs: Seq<LeafView>, name: Seq<char>, i: int) -> Option<LeafView>
    decreases cs.len() - i,
{
    if i < 0 || i >= cs.len() {
        None
    } else if cs[i].name == name {
        Some(cs[i])
    } else {
        child_from(cs, name, i + 1)
    }
}

impl Shape<LeafView> {
    /// The first child with the name.
    pub open spec fn child(self, name: Seq<char>) -> Option<LeafView> {
        match self.children {
            Some(cs) => child_from(cs, name, 0),
            None => None,
        }
    }

    /// The value of the first entry of the child with the name.
    pub open spec fn child_value(self, name: Seq<char>) -> Option<ValueView> {
        match self.child(name) {
            Some(c) => if c.entries.len() > 0 {
                Some(c.entries[0].value)
            } else {
                None
            },
            None => None,
        }
    }

    /// The text of the child with the name.
    pub open spec fn child_text(self, name: Seq<char>) -> Option<Seq<char>> {
        match self.child_value(name) {
            Some(v) => as_text(v),
            None => None,
        }
    }
}

/// The texts of those values that have one.
pub open spec fn entry_texts(es: Seq<EntryView>) -> Seq<Seq<char>>
    decreases es.len(),
{
    if es.len() == 0 {
        Seq::empty()
    } else {
        match as_text(es.last().value) {
            Some(t) => entry_texts(es.drop_last()).push(t),
            None => entry_texts(es.drop_last()),
        }
    }
}

impl Node<Leaf> {
    /// The first child with the name.
    pub fn child(&self, name: &str) -> (r: Option<&Leaf>)
        ensures
            match self@.child(name@) {
                Some(c) => r matches Some(l) && l@ == c,
                None => r is None,
            },
    {
        match &self.children {
            None => None,
            Some(cs) => {
                let ghost all = views::views(cs@);
                let mut i: usize = 0;
                while i < cs.len()
                    invariant
                        all == views::views(cs@),
                        self@.children == Some(all),
                        i <= cs@.len(),
                        child_from(all, name@, 0) == child_from(all, name@, i as int),
                    decreases cs@.len() - i,
                {
                    proof {
                        assert(all[i as int] == cs@[i as int]@);
                    }
                    if same(cs[i].name.as_str(), name) {
                        return Some(&cs[i]);
                    }
                    i += 1;
                }
                None
            },
        }
    }

    /// Whether there is a child with the name.
    pub fn child_is_present(&self, name: &str) -> (b: bool)
        ensures
            b == (self@.child(name@) is Some),
    {
        self.child(name).is_some()
    }

    fn first_value(&self, name: &str) -> (r: Option<&Value>)
        ensures
            match self@.child_value(name@) {
                Some(v) => r matches Some(x) && x@ == v,
                None => r is None,
            },
    {
        match self.child(name) {
            Some(c) => {
                if c.entries.len() > 0 {
                    proof {
                        assert(views::views(c.entries@)[0] == c.entries@[0]@);
                    }
                    Some(&c.entries[0].value)
                } else {
                    None
                }
            },
            None => None,
        }
    }

    /// The texts of the child with the name, if there is one.
    pub fn strings(&self, name: &str) -> (r: Option<Vec<String>>)
        ensures
            match self@.child(name@) {
                Some(c) => r matches Some(v) && text::texts(v@) == entry_texts(c.entries),
                None => r is None,
            },
    {
        let c = match self.child(name) {
            Some(c) => c,
            None => return None,
        };
        let ghost all = views::views(c.entries@);
        let mut out: Vec<String> = Vec::new();
        let mut i: usize = 0;
        proof {
            assert(text::texts(out@) =~= entry_texts(all.take(0)));
        }
        while i < c.entries.len()
            invariant
                all == views::views(c.entries@),
                i <= c.entries@.len(),
                text::texts(out@) =~= entry_texts(all.take(i as int)),
            decreases c.entries@.len() - i,
        {
            proof {
                assert(all.take(i + 1).drop_last() =~= all.take(i as int));
                assert(all.take(i + 1).last() == c.entries@[i as int]@);
            }
            let ghost before = out@;
            if let Some(t) = value_text(&c.entries[i].value) {
                out.push(t);
                proof {
                    assert(text::texts(out@) =~= text::texts(before).push(t@));
                }
            }
            i += 1;
        }
        proof {
            assert(all.take(i as int) =~= all);
        }
        Some(out)
    }

    /// The text of the child with the name.
    pub fn string(&self, name: &str) -> (r: Option<String>)
        ensures
            views::opt_view(r) == self@.child_text(name@),
    {
        match self.first_value(name) {
            Some(v) => value_text(v),
            None => None,
        }
    }

    /// The flag of the child with the name, or the default where it has none.
    pub fn boolean(&self, name: &str, default: bool) -> (b: bool)
        ensures
            b == match self@.child_value(name@) {
                Some(ValueView::Flag(f)) => f,
                Some(ValueView::Text(s)) => if s == "true"@ {
                    true
                } else if s == "false"@ {
                    false
                } else {
                    default
                },
                _ => default,
            },
    {
        proof {
            reveal_strlit("true");
            reveal_strlit("false");
            assert("true"@.len() == 4 && "false"@.len() == 5);
        }
        match self.first_value(name) {
            Some(Value::Flag(f)) => *f,
            Some(Value::Text(s)) => {
                if same(s.as_str(), "true") {
                    true
                } else if same(s.as_str(), "false") {
                    false
                } else {
                    default
                }
            },
            _ => default,
        }
    }

    /// The number of the child with the name, or the default where it has none
    /// or one that does not fit.
    pub fn integer(&self, name: &str, default: u64) -> (n: u64)
        ensures
            n == match self@.child_value(name@) {
                Some(ValueView::Integer(i)) => if 0 <= i <= u64::MAX {
                    i
                } else {
                    default as int
                },
                _ => default as int,
            },
    {
        match self.first_value(name) {
            Some(Value::Integer(i)) => {
                if 0 <= *i && *i <= 0xffff_ffff_ffff_ffff {
                    *i as u64
                } else {
                    default
                }
            },
            _ => default,
        }
    }
}

/// `kdl::KdlDocument`, a document as the outside crate holds it.
#[verifier::external_type_specification]
#[verifier::external_body]
pub struct ExKdlDocument(kdl::KdlDocument);

/// `kdl::KdlNode`, a node as the outside crate holds it.
#[verifier::external_type_specification]
#[verifier::external_body]
pub struct ExKdlNode(kdl::KdlNode);

/// The nodes that a document holds.
pub uninterp spec fn document_nodes(d: kdl::KdlDocument) -> Seq<kdl::KdlNode>;

/// The name of a node.
pub uninterp spec fn node_name(n: kdl::KdlNode) -> Seq<char>;

/// The entries that a node holds.
pub uninterp spec fn node_entries(n: kdl::KdlNode) -> Seq<EntryView>;

/// The document of children that a node holds, if it has one.
pub uninterp spec fn node_children(n: kdl::KdlNode) -> Option<kdl::KdlDocument>;

/// The stretch of the text that a node was read from.
pub uninterp spec fn node_span(n: kdl::KdlNode) -> (nat, nat);

/// Whether the node is as `new` and pushes of new entries make it: it has no
/// type and no spelling or layout of its own, and neither has any of its entries.
pub uninterp spec fn node_is_plain(n: kdl::KdlNode) -> bool;

/// Whether the document has no layout of its own, its nodes aside.
pub uninterp spec fn document_is_plain(d: kdl::KdlDocument) -> bool;

/// `kdl::KdlDocument::nodes`: the nodes that the document holds, in order.
pub assume_specification[ kdl::KdlDocument::nodes ](d: &kdl::KdlDocument) -> (r: &[kdl::KdlNode])
    ensures
        r@ == document_nodes(*d),
;

/// `kdl::KdlNode::children`: the document of children that the node holds.
pub assume_specification[ kdl::KdlNode::children ](n: &kdl::KdlNode) -> (r: Option<
    &kdl::KdlDocument,
>)
    ensures
        match node_children(*n) {
            Some(d) => r matches Some(x) && *x == d,
            None => r is None,
        },
;

/// `kdl::KdlNode::name`: the name of the node.
#[verifier::external_body]
fn name_of(n: &kdl::KdlNode) -> (r: String)
    ensures
        r@ == node_name(*n),
{
    n.name().value().to_owned()
}

/// `kdl::KdlNode::entries`: the entries that the node holds, in order, each
/// with its name and its value.
#[verifier::external_body]
fn entries_of(n: &kdl::KdlNode) -> (r: Vec<Entry>)
    ensures
        views::views(r@) == node_entries(*n),
{
    let entry = |e: &kdl::KdlEntry| Entry {
        name: e.name().map(|k| k.value().to_owned()),
        value: match e.value() {
            kdl::KdlValue::String(s) => Value::Text(s.clone()),
            kdl::KdlValue::Integer(i) => Value::Integer(*i),
            kdl::KdlValue::Float(_) => Value::Float,
            kdl::KdlValue::Bool(b) => Value::Flag(*b),
            kdl::KdlValue::Null => Value::Null,
        },
    };
    n.entries().iter().map(entry).collect()
}

/// `kdl::KdlNode::span`: the stretch of the text that the node was read from.
#[verifier::external_body]
fn span_of(n: &kdl::KdlNode) -> (r: (usize, usize))
    ensures
        (r.0 as nat, r.1 as nat) == node_span(*n),
{
    (n.span().offset(), n.span().len())
}

/// The node as a leaf.
pub open spec fn leaf(n: kdl::KdlNode) -> LeafView {
    LeafView {
        name: node_name(n),
        entries: node_entries(n),
        offset: node_span(n).0,
        length: node_span(n).1,
    }
}

/// The nodes of a document as leaves.
pub open spec fn leaves(d: kdl::KdlDocument) -> Seq<LeafView> {
    Seq::new(document_nodes(d).len(), |i: int| leaf(document_nodes(d)[i]))
}

/// The node with its children as leaves.
pub open spec fn branch(n: kdl::KdlNode) -> Shape<LeafView> {
    Shape {
        name: node_name(n),
        entries: node_entries(n),
        children: match node_children(n) {
            Some(d) => Some(leaves(d)),
            None => None,
        },
        offset: node_span(n).0,
        length: node_span(n).1,
    }
}

/// The nodes of a document with their children as leaves.
pub open spec fn branches(d: kdl::KdlDocument) -> Seq<Shape<LeafView>> {
    Seq::new(document_nodes(d).len(), |i: int| branch(document_nodes(d)[i]))
}

/// The node with two generations below it.
pub open spec fn root(n: kdl::KdlNode) -> Shape<Shape<LeafView>> {
    Shape {
        name: node_name(n),
        entries: node_entries(n),
        children: match node_children(n) {
            Some(d) => Some(branches(d)),
            None => None,
        },
        offset: node_span(n).0,
        length: node_span(n).1,
    }
}

/// The nodes of a document with two generations below each.
pub open spec fn roots(d: kdl::KdlDocument) -> Seq<Shape<Shape<LeafView>>> {
    Seq::new(document_nodes(d).len(), |i: int| root(document_nodes(d)[i]))
}

fn leaf_of(n: &kdl::KdlNode) -> (r: Leaf)
    ensures
        r@ == leaf(*n),
{
    let (offset, length) = span_of(n);
    Leaf { name: name_of(n), entries: entries_of(n), offset, length }
}

fn leaves_of(d: &kdl::KdlDocument) -> (r: Vec<Leaf>)
    ensures
        views::views(r@) == leaves(*d),
{
    let nodes = d.nodes();
    let mut out: Vec<Leaf> = Vec::new();
    let mut i: usize = 0;
    while i < nodes.len()
        invariant
            nodes@ == document_nodes(*d),
            i <= nodes@.len(),
            views::views(out@) =~= leaves(*d).take(i as int),
        decreases nodes@.len() - i,
    {
        let ghost before = out@;
        let x = leaf_of(&nodes[i]);
        out.push(x);
        proof {
            assert(views::views(out@) =~= views::views(before).push(x@));
        }
        i += 1;
    }
    proof {
        assert(leaves(*d).take(i as int) =~= leaves(*d));
    }
    out
}

fn branch_of(n: &kdl::KdlNode) -> (r: Node<Leaf>)
    ensures
        r@ == branch(*n),
{
    let (offset, length) = span_of(n);
    let children = match n.children() {
        Some(d) => Some(leaves_of(d)),
        None => None,
    };
    Node { name: name_of(n), entries: entries_of(n), children, offset, length }
}

fn branches_of(d: &kdl::KdlDocument) -> (r: Vec<Node<Leaf>>)
    ensures
        views::views(r@) == branches(*d),
{
    let nodes = d.nodes();
    let mut out: Vec<Node<Leaf>> = Vec::new();
    let mut i: usize = 0;
    while i < nodes.len()
        invariant
            nodes@ == document_nodes(*d),
            i <= nodes@.len(),
            views::views(out@) =~= branches(*d).take(i as int),
        decreases nodes@.len() - i,
    {
        let ghost before = out@;
        let x = branch_of(&nodes[i]);
        out.push(x);
        proof {
            assert(views::views(out@) =~= views::views(before).push(x@));
        }
        i += 1;
    }
    proof {
        assert(branches(*d).take(i as int) =~= branches(*d));
    }
    out
}

fn root_of(n: &kdl::KdlNode) -> (r: Node<Node<Leaf>>)
    ensures
        r@ == root(*n),
{
    let (offset, length) = span_of(n);
    let children = match n.children() {
        Some(d) => Some(branches_of(d)),
        None => None,
    };
    Node { name: name_of(n), entries: entries_of(n), children, offset, length }
}

/// The nodes of a document with two generations below each, as plain values.
pub fn roots_of(d: &kdl::KdlDocument) -> (r: Vec<Node<Node<Leaf>>>)
    ensures
        views::views(r@) == roots(*d),
{
    let nodes = d.nodes();
    let mut out: Vec<Node<Node<Leaf>>> = Vec::new();
    let mut i: usize = 0;
    while i < nodes.len()
        invariant
            nodes@ == document_nodes(*d),
            i <= nodes@.len(),
            views::views(out@) =~= roots(*d).take(i as int),
        decreases nodes@.len() - i,
    {
        let ghost before = out@;
        let x = root_of(&nodes[i]);
        out.push(x);
        proof {
            assert(views::views(out@) =~= views::views(before).push(x@));
        }
        i += 1;
    }
    proof {
        assert(roots(*d).take(i as int) =~= roots(*d));
    }
    out
}

/// What the reader says of one place in a text.
#[derive(Debug, Clone)]
pub struct Diagnostic {
    pub offset: usize,
    pub length: usize,
    pub message: Option<String>,
    pub help: Option<String>,
    pub severe: bool,
}

/// The content of a [`Diagnostic`].
#[verifier::ext_equal]
pub struct DiagnosticView {
    pub offset: nat,
    pub length: nat,
    pub message: Option<Seq<char>>,
    pub help: Option<Seq<char>>,
    pub severe: bool,
}

impl View for Diagnostic {
    type V = DiagnosticView;

    open spec fn view(&self) -> DiagnosticView {
        DiagnosticView {
            offset: self.offset as nat,
            length: self.length as nat,
            message: views::opt_view(self.message),
            help: views::opt_view(self.help),
            severe: self.severe,
        }
    }
}

/// Why a text could not be read as a document.
#[derive(Debug, Clone)]
pub struct ReadFailure {
    pub input: String,
    pub message: String,
    pub diagnostics: Vec<Diagnostic>,
}

/// The content of a [`ReadFailure`].
#[verifier::ext_equal]
pub struct FailureView {
    pub input: Seq<char>,
    pub message: Seq<char>,
    pub diagnostics: Seq<DiagnosticView>,
}

impl View for ReadFailure {
    type V = FailureView;

    open spec fn view(&self) -> FailureView {
        FailureView {
            input: self.input@,
            message: self.message@,
            diagnostics: views::views(self.diagnostics@),
        }
    }
}

/// What reading the text as a document gives.
pub uninterp spec fn kdl_read(contents: Seq<char>) -> Result<kdl::KdlDocument, FailureView>;

/// `kdl::KdlDocument::parse`: the document that the text holds, or what is
/// wrong with it. The outcome is named.
#[verifier::external_body]
pub(crate) fn read_document(contents: &str) -> (r: Result<kdl::KdlDocument, ReadFailure>)
    ensures
        match r {
            Ok(d) => kdl_read(contents@) == Ok::<kdl::KdlDocument, FailureView>(d),
            Err(f) => kdl_read(contents@) == Err::<kdl::KdlDocument, FailureView>(f@),
        },
{
    let diagnostic = |d: &kdl::KdlDiagnostic| Diagnostic {
        offset: d.span.offset(),
        length: d.span.len(),
        message: d.message.clone(),
        help: d.help.clone(),
        severe: d.severity == miette::Severity::Error,
    };
    kdl::KdlDocument::parse(contents).map_err(|e| ReadFailure {
        input: e.input.to_string(),
        message: e.to_string(),
        diagnostics: e.diagnostics.iter().map(diagnostic).collect(),
    })
}

/// `kdl::KdlDocument::new`: a plain document without nodes.
pub assume_specification[ kdl::KdlDocument::new ]() -> (r: kdl::KdlDocument)
    ensures
        document_nodes(r).len() == 0,
        document_is_plain(r),
;

/// `kdl::KdlNode::new`: a plain node with the name, without entries and children.
#[verifier::external_body]
pub(crate) fn new_node(name: &str) -> (r: kdl::KdlNode)
    ensures
        node_name(r) == name@,
        node_entries(r).len() == 0,
        node_children(r) is None,
        node_is_plain(r),
{
    kdl::KdlNode::new(name)
}

/// `kdl::KdlNode::push` of an argument: the text comes last among the entries,
/// as a plain entry.
#[verifier::external_body]
pub(crate) fn push_argument(n: &mut kdl::KdlNode, value: &str)
    ensures
        node_entries(*final(n)) == node_entries(*old(n)).push(
            EntryView { name: None, value: ValueView::Text(value@) },
        ),
        node_name(*final(n)) == node_name(*old(n)),
        node_children(*final(n)) == node_children(*old(n)),
        node_is_plain(*final(n)) == node_is_plain(*old(n)),
{
    n.push(kdl::KdlEntry::new(value));
}

/// `kdl::KdlNode::push` of a property: the text comes last among the entries,
/// under its name and as a plain entry.
#[verifier::external_body]
pub(crate) fn push_property(n: &mut kdl::KdlNode, name: &str, value: &str)
    ensures
        node_entries(*final(n)) == node_entries(*old(n)).push(
            EntryView { name: Some(name@), value: ValueView::Text(value@) },
        ),
        node_name(*final(n)) == node_name(*old(n)),
        node_children(*final(n)) == node_children(*old(n)),
        node_is_plain(*final(n)) == node_is_plain(*old(n)),
{
    n.push(kdl::KdlEntry::new_prop(name, value));
}

/// `kdl::KdlNode::set_children`: the document takes the place of the children.
pub assume_specification[ kdl::KdlNode::set_children ](
    n: &mut kdl::KdlNode,
    children: kdl::KdlDocument,
)
    ensures
        node_children(*final(n)) == Some(children),
        node_name(*final(n)) == node_name(*old(n)),
        node_entries(*final(n)) == node_entries(*old(n)),
        node_is_plain(*final(n)) == node_is_plain(*old(n)),
;

/// `kdl::KdlDocument::nodes_mut`, and `push` on what it gives: the node comes
/// last in the document.
#[verifier::external_body]
pub(crate) fn push_node(d: &mut kdl::KdlDocument, n: kdl::KdlNode)
    ensures
        document_nodes(*final(d)) == document_nodes(*old(d)).push(n),
        document_is_plain(*final(d)) == document_is_plain(*old(d)),
{
    d.nodes_mut().push(n);
}

/// Whether a character can stand in a text that is written and read again. The
/// writer leaves some characters bare that the reader does not take.
pub open spec fn writable_char(c: char) -> bool {
    &&& !('\u{0}' <= c <= '\u{7}')
    &&& c != '\u{b}'
    &&& !('\u{e}' <= c <= '\u{1f}')
    &&& c != '\u{85}'
    &&& !('\u{200e}' <= c <= '\u{200f}')
    &&& !('\u{2028}' <= c <= '\u{202e}')
    &&& !('\u{2066}' <= c <= '\u{2069}')
    &&& c != '\u{feff}'
}

/// Whether a character makes the writer put the text in quotes.
pub open spec fn needs_quotes(c: char) -> bool {
    ||| c == '\\' || c == '/' || c == '(' || c == ')' || c == '{' || c == '}'
    ||| c == '[' || c == ']' || c == ';' || c == '"' || c == '#' || c == '='
    ||| '\u{8}' <= c <= '\u{d}' || c == ' ' || c == '\u{a0}' || c == '\u{1680}'
    ||| '\u{2000}' <= c <= '\u{200a}' || c == '\u{202f}' || c == '\u{205f}' || c == '\u{3000}'
}

/// Whether a text is written as it is, though it reads as the start of a number.
pub open spec fn misleading(s: Seq<char>) -> bool {
    &&& s.len() >= 3
    &&& s[0] == '-' || s[0] == '+'
    &&& s[1] == '.'
    &&& '0' <= s[2] <= '9'
    &&& forall|i: int| 0 <= i < s.len() ==> !needs_quotes(#[trigger] s[i])
}

/// Whether a text comes back when it is written and read again.
pub open spec fn writable(s: Seq<char>) -> bool {
    &&& forall|i: int| 0 <= i < s.len() ==> writable_char(#[trigger] s[i])
    &&& !misleading(s)
}

/// Whether the text holds only small letters and hyphens from the place on.
pub open spec fn is_word_from(s: Seq<char>, i: int) -> bool
    decreases s.len() - i,
{
    i < 0 || i >= s.len() || (('a' <= s[i] <= 'z' || s[i] == '-') && is_word_from(s, i + 1))
}

proof fn lemma_word_chars(s: Seq<char>, i: int)
    requires
        0 <= i,
        is_word_from(s, i),
    ensures
        forall|k: int| i <= k < s.len() ==> writable_char(#[trigger] s[k]),
    decreases s.len() - i,
{
    if i < s.len() {
        lemma_word_chars(s, i + 1);
        assert(writable_char(s[i]));
    }
}

/// A word that starts with a letter comes back when it is written and read again.
pub proof fn lemma_word_writable(s: Seq<char>)
    requires
        s.len() > 0,
        s[0] != '-',
        is_word_from(s, 0),
    ensures
        writable(s),
{
    lemma_word_chars(s, 0);
}

/// Whether every entry holds a text that comes back, under a name that does.
pub open spec fn writable_entries(es: Seq<EntryView>) -> bool {
    forall|i: int|
        0 <= i < es.len() ==> {
            &&& (#[trigger] es[i]).value matches ValueView::Text(s) && writable(s)
            &&& es[i].name matches Some(k) ==> writable(k)
        }
}

/// Whether the node and its entries come back: it is plain, and its texts do.
pub open spec fn writable_node(n: kdl::KdlNode) -> bool {
    node_is_plain(n) && writable(node_name(n)) && writable_entries(node_entries(n))
}

/// Whether the document is plain and three generations deep at most, and all its
/// nodes come back.
pub open spec fn writable_document(d: kdl::KdlDocument) -> bool {
    &&& document_is_plain(d)
    &&& forall|i: int|
        0 <= i < document_nodes(d).len() ==> writable_root(#[trigger] document_nodes(d)[i])
}

/// Whether the node comes back with two generations below it at most.
pub open spec fn writable_root(n: kdl::KdlNode) -> bool {
    &&& writable_node(n)
    &&& node_children(n) matches Some(d) ==> document_is_plain(d) && forall|i: int|
        0 <= i < document_nodes(d).len() ==> writable_branch(#[trigger] document_nodes(d)[i])
}

/// Whether the node comes back with one generation below it at most.
pub open spec fn writable_branch(n: kdl::KdlNode) -> bool {
    &&& writable_node(n)
    &&& node_children(n) matches Some(d) ==> document_is_plain(d) && forall|i: int|
        0 <= i < document_nodes(d).len() ==> writable_leaf(#[trigger] document_nodes(d)[i])
}

/// Whether the node comes back and has no children.
pub open spec fn writable_leaf(n: kdl::KdlNode) -> bool {
    writable_node(n) && node_children(n) is None
}

/// The leaf without its place in the text.
pub open spec fn bare_leaf(l: LeafView) -> LeafView {
    LeafView { offset: 0, length: 0, ..l }
}

/// The branch without its place in the text.
pub open spec fn bare_branch(b: Shape<LeafView>) -> Shape<LeafView> {
    Shape {
        children: match b.children {
            Some(cs) => Some(Seq::new(cs.len(), |i: int| bare_leaf(cs[i]))),
            None => None,
        },
        offset: 0,
        length: 0,
        ..b
    }
}

/// The root without its place in the text.
pub open spec fn bare_root(r: Shape<Shape<LeafView>>) -> Shape<Shape<LeafView>> {
    Shape {
        children: match r.children {
            Some(cs) => Some(Seq::new(cs.len(), |i: int| bare_branch(cs[i]))),
            None => None,
        },
        offset: 0,
        length: 0,
        ..r
    }
}

/// The roots without their places in the text.
pub open spec fn bare_roots(rs: Seq<Shape<Shape<LeafView>>>) -> Seq<Shape<Shape<LeafView>>> {
    Seq::new(rs.len(), |i: int| bare_root(rs[i]))
}

/// Whether reading the text gives the nodes, but for their places.
pub open spec fn reads_back(written: Seq<char>, rs: Seq<Shape<Shape<LeafView>>>) -> bool {
    match kdl_read(written) {
        Ok(d) => bare_roots(roots(d)) == bare_roots(rs),
        Err(_) => false,
    }
}

/// The text that a document is written as.
pub uninterp spec fn document_text(d: kdl::KdlDocument) -> Seq<char>;

/// `kdl::KdlDocument::autoformat` and the `Display` of the document: the text
/// that the document is written as. Where the document is plain and every text in
/// it comes back, reading it gives the same nodes. Of a document that holds types,
/// spellings or comments nothing is said but its text.
#[verifier::external_body]
pub(crate) fn finish(d: kdl::KdlDocument) -> (r: String)
    ensures
        r@ == document_text(d),
        writable_document(d) ==> reads_back(r@, roots(d)),
{
    let mut doc = d;
    doc.autoformat();
    doc.to_string()
}

/// A node with one text.
pub(crate) fn scalar(name: &str, value: &str) -> (r: kdl::KdlNode)
    ensures
        node_name(r) == name@,
        node_entries(r) == seq![EntryView { name: None, value: ValueView::Text(value@) }],
        node_children(r) is None,
        node_is_plain(r),
{
    let mut node = new_node(name);
    push_argument(&mut node, value);
    proof {
        assert(node_entries(node) =~= seq![
            EntryView { name: None, value: ValueView::Text(value@) },
        ]);
    }
    node
}

/// The error for a text that could not be read: that of its first severe
/// diagnostic, else of its first one.
pub open spec fn failure_error(f: FailureView) -> error::ErrorView {
    let at = match severe_from(f.diagnostics, 0) {
        Some(i) => Some(f.diagnostics[i]),
        None => if f.diagnostics.len() > 0 {
            Some(f.diagnostics[0])
        } else {
            None
        },
    };
    match at {
        Some(d) => error::located(
            f.input,
            error::Fault {
                message: match d.message {
                    Some(m) => m,
                    None => "unexpected error"@,
                },
                help: d.help,
                offset: d.offset,
                length: d.length,
            },
        ),
        None => error::ErrorView::ConfigParse(
            error::ParseErrorView {
                message: "unexpected error"@,
                line: 1,
                column: 1,
                length: 0,
                help: None,
            },
        ),
    }
}

/// Where the first severe diagnostic stands, from the place on.
pub open spec fn severe_from(ds: Seq<DiagnosticView>, i: int) -> Option<int>
    decreases ds.len() - i,
{
    if i < 0 || i >= ds.len() {
        None
    } else if ds[i].severe {
        Some(i)
    } else {
        severe_from(ds, i + 1)
    }
}

/// The error for a text that could not be read.
pub fn error_of(f: &ReadFailure) -> (r: CoreError)
    ensures
        r@ == failure_error(f@),
{
    let ds = &f.diagnostics;
    let ghost all = views::views(ds@);
    let mut i: usize = 0;
    while i < ds.len() && !ds[i].severe
        invariant
            ds == &f.diagnostics,
            all == views::views(ds@),
            i <= ds@.len(),
            severe_from(all, 0) == severe_from(all, i as int),
        decreases ds@.len() - i,
    {
        proof {
            assert(all[i as int] == ds@[i as int]@);
        }
        i += 1;
    }
    proof {
        if i < ds@.len() {
            assert(all[i as int] == ds@[i as int]@);
        } else if ds@.len() > 0 {
            assert(all[0] == ds@[0]@);
        }
    }
    if ds.len() == 0 {
        return CoreError::ConfigParse(
            error::ConfigParseError {
                message: "unexpected error".to_owned(),
                line: 1,
                column: 1,
                length: 0,
                help: None,
            },
        );
    }
    let d = if i < ds.len() {
        &ds[i]
    } else {
        &ds[0]
    };
    let message = match &d.message {
        Some(m) => m.clone(),
        None => "unexpected error".to_owned(),
    };
    let help = match &d.help {
        Some(h) => Some(h.clone()),
        None => None,
    };
    error_at(f.input.as_str(), d.offset, d.length, message, help)
}

/// The document that the text holds, as plain values.
pub fn parse(input: &str) -> (r: Result<Vec<Node<Node<Leaf>>>, CoreError>)
    ensures
        match kdl_read(input@) {
            Ok(d) => r matches Ok(ns) && views::views(ns@) == roots(d),
            Err(f) => r matches Err(e) && e@ == failure_error(f),
        },
{
    match read_document(input) {
        Ok(d) => Ok(roots_of(&d)),
        Err(f) => Err(error_of(&f)),
    }
}

}
