//! The typed value model: a closed tagged union with one payload per
//! variant, plus the graph entities Node, Relationship and Path and the
//! plain temporal records the codec works on.
//!
//! Temporal values are held as plain calendar and clock fields in the
//! ranges their canonical wire patterns can express.  A Float is held as
//! its validated decimal literal, so a round trip reproduces the exact
//! bit pattern the producer wrote.  Maps are association lists whose keys
//! are unique and whose order is the order of construction.

use vstd::prelude::*;

verus! {

/// A calendar date in the proleptic Gregorian calendar,
/// written `YYYY-MM-DD` on the wire.
#[derive(Clone, Copy, Debug, PartialEq, Eq)]
pub struct Date {
    pub year: u16,
    pub month: u8,
    pub day: u8,
}

/// A time of day without offset, written `HH:MM:SS` on the wire.
#[derive(Clone, Copy, Debug, PartialEq, Eq)]
pub struct Time {
    pub hour: u8,
    pub minute: u8,
    pub second: u8,
}

/// A timestamp without timezone, written `YYYY-MM-DDTHH:MM:SS` on the wire.
#[derive(Clone, Copy, Debug, PartialEq, Eq)]
pub struct DateTime {
    pub date: Date,
    pub time: Time,
}

/// A timestamp with a fixed UTC offset, written
/// `YYYY-MM-DDTHH:MM:SS[+HH:MM]` (or a `-` offset) on the wire.
#[derive(Clone, Copy, Debug, PartialEq, Eq)]
pub struct ZonedDateTime {
    pub datetime: DateTime,
    /// Offset from UTC in minutes, in `-1439 ..= 1439`.
    pub offset_minutes: i16,
}

/// An elapsed interval, written as a signed second count `PT<seconds>S`
/// (with the sign, if any, in front of the `P`) on the wire.
#[derive(Clone, Copy, Debug, PartialEq, Eq)]
pub struct Duration {
    pub seconds: i64,
}

/// A graph node: an opaque element id, its labels as given, and a
/// property map.
#[derive(Debug, PartialEq)]
pub struct Node {
    pub labels: Vec<String>,
    pub properties: Vec<(String, Val)>,
    pub element_id: String,
}

/// A graph relationship: an opaque element id, a type, the element ids of
/// its endpoints, and a property map.
#[derive(Debug, PartialEq)]
pub struct Relationship {
    pub type_: String,
    pub properties: Vec<(String, Val)>,
    pub element_id: String,
    pub start_node_element_id: String,
    pub end_node_element_id: String,
}

/// A path: its nodes and relationships, each in the relative order in
/// which they appeared in the flat alternating wire sequence.
#[derive(Debug, PartialEq)]
pub struct Path {
    pub nodes: Vec<Node>,
    pub relationships: Vec<Relationship>,
}

/// One typed value of the wire format: a closed union, one payload per
/// variant.
#[derive(Debug, PartialEq)]
#[allow(inconsistent_fields)]
pub enum Val {
    Boolean { value: bool },
    Integer { value: i64 },
    /// The decimal literal of an IEEE double, kept verbatim.
    Float { value: String },
    String { value: String },
    ByteArray { value: Vec<u8> },
    /// String-keyed mapping; keys unique, held as an association list.
    Dict { value: Vec<(String, Val)> },
    List { value: Vec<Val> },
    ZonedDateTime { value: ZonedDateTime },
    DateTime { value: DateTime },
    Time { value: Time },
    Date { value: Date },
    Duration { value: Duration },
    Node { value: Node },
    Relationship { value: Relationship },
    Path { value: Path },
}

/// Mathematical model of a [`Node`].
#[verifier::ext_equal]
pub struct NodeV {
    pub labels: Seq<Seq<char>>,
    pub properties: Seq<(Seq<char>, ValV)>,
    pub element_id: Seq<char>,
}

/// Mathematical model of a [`Relationship`].
#[verifier::ext_equal]
pub struct RelationshipV {
    pub type_: Seq<char>,
    pub properties: Seq<(Seq<char>, ValV)>,
    pub element_id: Seq<char>,
    pub start_node_element_id: Seq<char>,
    pub end_node_element_id: Seq<char>,
}

/// Mathematical model of a [`Path`].
#[verifier::ext_equal]
pub struct PathV {
    pub nodes: Seq<NodeV>,
    pub relationships: Seq<RelationshipV>,
}

/// Mathematical model of a [`Val`] tree.
#[verifier::ext_equal]
pub enum ValV {
    Boolean(bool),
    Integer(i64),
    Float(Seq<char>),
    Text(Seq<char>),
    Bytes(Seq<u8>),
    Dict(Seq<(Seq<char>, ValV)>),
    Items(Seq<ValV>),
    Zoned(ZonedDateTime),
    Stamp(DateTime),
    Clock(Time),
    Day(Date),
    Span(Duration),
    Vertex(NodeV),
    Edge(RelationshipV),
    Walk(PathV),
}

pub open spec fn val_view(v: Val) -> ValV
    decreases v,
{
    match v {
        Val::Boolean { value } => ValV::Boolean(value),
        Val::Integer { value } => ValV::Integer(value),
        Val::Float { value } => ValV::Float(value@),
        Val::String { value } => ValV::Text(value@),
        Val::ByteArray { value } => ValV::Bytes(value@),
        Val::Dict { value } => ValV::Dict(val_pairs_view(value@)),
        Val::List { value } => ValV::Items(vals_view(value@)),
        Val::ZonedDateTime { value } => ValV::Zoned(value),
        Val::DateTime { value } => ValV::Stamp(value),
        Val::Time { value } => ValV::Clock(value),
        Val::Date { value } => ValV::Day(value),
        Val::Duration { value } => ValV::Span(value),
        Val::Node { value } => ValV::Vertex(node_view(value)),
        Val::Relationship { value } => ValV::Edge(rel_view(value)),
        Val::Path { value } => ValV::Walk(path_view(value)),
    }
}

pub open spec fn vals_view(s: Seq<Val>) -> Seq<ValV>
    decreases s,
{
    if s.len() == 0 {
        Seq::empty()
    } else {
        vals_view(s.drop_last()).push(val_view(s.last()))
    }
}

pub open spec fn val_pairs_view(s: Seq<(String, Val)>) -> Seq<(Seq<char>, ValV)>
    decreases s,
{
    if s.len() == 0 {
        Seq::empty()
    } else {
        val_pairs_view(s.drop_last()).push((s.last().0@, val_view(s.last().1)))
    }
}

pub open spec fn labels_view(s: Seq<String>) -> Seq<Seq<char>>
    decreases s,
{
    if s.len() == 0 {
        Seq::empty()
    } else {
        labels_view(s.drop_last()).push(s.last()@)
    }
}

pub open spec fn node_view(n: Node) -> NodeV
    decreases n,
{
    NodeV {
        labels: labels_view(n.labels@),
        properties: val_pairs_view(n.properties@),
        element_id: n.element_id@,
    }
}

pub open spec fn rel_view(r: Relationship) -> RelationshipV
    decreases r,
{
    RelationshipV {
        type_: r.type_@,
        properties: val_pairs_view(r.properties@),
        element_id: r.element_id@,
        start_node_element_id: r.start_node_element_id@,
        end_node_element_id: r.end_node_element_id@,
    }
}

pub open spec fn nodes_view(s: Seq<Node>) -> Seq<NodeV>
    decreases s,
{
    if s.len() == 0 {
        Seq::empty()
    } else {
        nodes_view(s.drop_last()).push(node_view(s.last()))
    }
}

pub open spec fn rels_view(s: Seq<Relationship>) -> Seq<RelationshipV>
    decreases s,
{
    if s.len() == 0 {
        Seq::empty()
    } else {
        rels_view(s.drop_last()).push(rel_view(s.last()))
    }
}

pub open spec fn path_view(p: Path) -> PathV
    decreases p,
{
    PathV { nodes: nodes_view(p.nodes@), relationships: rels_view(p.relationships@) }
}

impl View for Val {
    type V = ValV;

    open spec fn view(&self) -> ValV {
        val_view(*self)
    }
}

impl View for Node {
    type V = NodeV;

    open spec fn view(&self) -> NodeV {
        node_view(*self)
    }
}

impl View for Relationship {
    type V = RelationshipV;

    open spec fn view(&self) -> RelationshipV {
        rel_view(*self)
    }
}

impl View for Path {
    type V = PathV;

    open spec fn view(&self) -> PathV {
        path_view(*self)
    }
}

pub broadcast proof fn lemma_vals_view(s: Seq<Val>)
    ensures
        (#[trigger] vals_view(s)).len() == s.len(),
        forall|i: int| 0 <= i < s.len() ==> vals_view(s)[i] == val_view(s[i]),
    decreases s,
{
    if s.len() > 0 {
        lemma_vals_view(s.drop_last());
    }
}

pub broadcast proof fn lemma_val_pairs_view(s: Seq<(String, Val)>)
    ensures
        (#[trigger] val_pairs_view(s)).len() == s.len(),
        forall|i: int| 0 <= i < s.len() ==> val_pairs_view(s)[i]
            == (s[i].0@, val_view(s[i].1)),
    decreases s,
{
    if s.len() > 0 {
        lemma_val_pairs_view(s.drop_last());
    }
}

pub broadcast proof fn lemma_labels_view(s: Seq<String>)
    ensures
        (#[trigger] labels_view(s)).len() == s.len(),
        forall|i: int| 0 <= i < s.len() ==> labels_view(s)[i] == s[i]@,
    decreases s,
{
    if s.len() > 0 {
        lemma_labels_view(s.drop_last());
    }
}

pub broadcast proof fn lemma_nodes_view(s: Seq<Node>)
    ensures
        (#[trigger] nodes_view(s)).len() == s.len(),
        forall|i: int| 0 <= i < s.len() ==> nodes_view(s)[i] == node_view(s[i]),
    decreases s,
{
    if s.len() > 0 {
        lemma_nodes_view(s.drop_last());
    }
}

pub broadcast proof fn lemma_rels_view(s: Seq<Relationship>)
    ensures
        (#[trigger] rels_view(s)).len() == s.len(),
        forall|i: int| 0 <= i < s.len() ==> rels_view(s)[i] == rel_view(s[i]),
    decreases s,
{
    if s.len() > 0 {
        lemma_rels_view(s.drop_last());
    }
}

} // verus!
