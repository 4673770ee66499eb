//! The dispatch and envelope layer, as a mathematical specification.
//!
//! Every encoded unit is an object with a `$type` discriminator and a
//! `_value` payload.  `decode_spec` says exactly which value each wire
//! tree denotes and which error any other tree draws; `encode_spec` is the
//! canonical encoding.  The executable codec in the neighbouring modules
//! is verified against these two functions.
//!
//! Error policy: a payload (or a required field of one) that is absent or
//! not of the shape its discriminator requires draws `MissingField` naming
//! that component; scalar and temporal literals of the right shape but
//! unreadable content draw their variant's literal error; nesting deeper
//! than [`MAX_DEPTH`] draws `StructuralDepthExceeded`.  For maps, a
//! duplicate key keeps its first position and the last-listed value wins.

use vstd::prelude::*;
use crate::num::{int_lit_val, float_lit, i64_text};
use crate::temporal::{
    date_of_text, time_of_text, datetime_of_text, zdt_of_text, duration_of_text, date_text,
    time_text, datetime_text, zdt_text, duration_text, date_wf, time_wf, datetime_wf, zdt_wf,
};
use crate::value::{ValV, NodeV, RelationshipV, PathV};
use crate::wire::WireV;

verus! {

/// The nesting depth beyond which decoding stops with
/// `StructuralDepthExceeded` rather than recursing further.
pub const MAX_DEPTH: u64 = 64;

/// Why a decode failed.  Each variant carries the discriminator, field
/// name or offending text it is about.
#[derive(Debug, PartialEq)]
pub enum DecodeError {
    UnknownDiscriminator { tag: String },
    InvalidIntegerLiteral { text: String },
    InvalidFloatLiteral { text: String },
    ByteOutOfRange { value: i64 },
    InvalidTemporalLiteral { text: String },
    MissingField { name: String },
    UnexpectedPathElement { tag: String },
    StructuralDepthExceeded,
}

/// Mathematical model of a [`DecodeError`].
#[verifier::ext_equal]
pub enum ErrV {
    UnknownDiscriminator { tag: Seq<char> },
    InvalidIntegerLiteral { text: Seq<char> },
    InvalidFloatLiteral { text: Seq<char> },
    ByteOutOfRange { value: i64 },
    InvalidTemporalLiteral { text: Seq<char> },
    MissingField { name: Seq<char> },
    UnexpectedPathElement { tag: Seq<char> },
    StructuralDepthExceeded,
}

pub open spec fn err_view(e: DecodeError) -> ErrV {
    match e {
        DecodeError::UnknownDiscriminator { tag } => ErrV::UnknownDiscriminator { tag: tag@ },
        DecodeError::InvalidIntegerLiteral { text } => ErrV::InvalidIntegerLiteral { text: text@ },
        DecodeError::InvalidFloatLiteral { text } => ErrV::InvalidFloatLiteral { text: text@ },
        DecodeError::ByteOutOfRange { value } => ErrV::ByteOutOfRange { value },
        DecodeError::InvalidTemporalLiteral { text } => ErrV::InvalidTemporalLiteral {
            text: text@,
        },
        DecodeError::MissingField { name } => ErrV::MissingField { name: name@ },
        DecodeError::UnexpectedPathElement { tag } => ErrV::UnexpectedPathElement { tag: tag@ },
        DecodeError::StructuralDepthExceeded => ErrV::StructuralDepthExceeded,
    }
}

impl View for DecodeError {
    type V = ErrV;

    open spec fn view(&self) -> ErrV {
        err_view(*self)
    }
}

/// The discriminator string of a value's variant.
pub open spec fn tag_of(v: ValV) -> Seq<char> {
    match v {
        ValV::Boolean(_) => "Boolean"@,
        ValV::Integer(_) => "Integer"@,
        ValV::Float(_) => "Float"@,
        ValV::Text(_) => "String"@,
        ValV::Bytes(_) => "ByteArray"@,
        ValV::Dict(_) => "Map"@,
        ValV::Items(_) => "List"@,
        ValV::Zoned(_) => "ZonedDateTime"@,
        ValV::Stamp(_) => "DateTime"@,
        ValV::Clock(_) => "Time"@,
        ValV::Day(_) => "Date"@,
        ValV::Span(_) => "Duration"@,
        ValV::Vertex(_) => "Node"@,
        ValV::Edge(_) => "Relationship"@,
        ValV::Walk(_) => "Path"@,
    }
}

/// The value of a key in an object: the last entry listed for it.
pub open spec fn obj_get(entries: Seq<(Seq<char>, WireV)>, k: Seq<char>) -> Option<WireV>
    decreases entries.len(),
{
    if entries.len() == 0 {
        None
    } else if entries.last().0 == k {
        Some(entries.last().1)
    } else {
        obj_get(entries.drop_last(), k)
    }
}

/// Position of the first entry with the given key, `-1` when absent.
pub open spec fn find_key(m: Seq<(Seq<char>, ValV)>, k: Seq<char>) -> int
    decreases m.len(),
{
    if m.len() == 0 {
        -1
    } else if m[0].0 == k {
        0
    } else {
        let r = find_key(m.subrange(1, m.len() as int), k);
        if r < 0 {
            -1
        } else {
            1 + r
        }
    }
}

/// Last-write-wins insertion: an existing key keeps its position and
/// takes the new value; a new key is appended.
pub open spec fn upsert(m: Seq<(Seq<char>, ValV)>, k: Seq<char>, v: ValV) -> Seq<
    (Seq<char>, ValV),
> {
    let i = find_key(m, k);
    if i < 0 {
        m.push((k, v))
    } else {
        m.update(i, (k, v))
    }
}

pub open spec fn keys_unique(m: Seq<(Seq<char>, ValV)>) -> bool {
    forall|i: int, j: int| 0 <= i < j < m.len() ==> (#[trigger] m[i]).0 != (#[trigger] m[j]).0
}

// ----- what a wire tree denotes --------------------------------------------

pub open spec fn decode_spec(w: WireV, fuel: nat) -> Result<ValV, ErrV>
    decreases fuel, 2int, 0int,
{
    match w {
        WireV::Obj(entries) => match obj_get(entries, "$type"@) {
            Some(WireV::Str(tag)) => match obj_get(entries, "_value"@) {
                Some(pw) => decode_tagged(tag, pw, fuel),
                None => Err(ErrV::MissingField { name: "_value"@ }),
            },
            _ => Err(ErrV::MissingField { name: "$type"@ }),
        },
        _ => Err(ErrV::MissingField { name: "$type"@ }),
    }
}

pub open spec fn decode_tagged(tag: Seq<char>, pw: WireV, fuel: nat) -> Result<ValV, ErrV>
    decreases fuel, 1int, 0int,
{
    if tag == "Boolean"@ {
        match pw {
            WireV::Bool(b) => Ok(ValV::Boolean(b)),
            _ => Err(ErrV::MissingField { name: "_value"@ }),
        }
    } else if tag == "Integer"@ {
        match pw {
            WireV::Str(t) => match int_lit_val(t) {
                Some(v) => if i64::MIN <= v <= i64::MAX {
                    Ok(ValV::Integer(v as i64))
                } else {
                    Err(ErrV::InvalidIntegerLiteral { text: t })
                },
                None => Err(ErrV::InvalidIntegerLiteral { text: t }),
            },
            _ => Err(ErrV::MissingField { name: "_value"@ }),
        }
    } else if tag == "Float"@ {
        match pw {
            WireV::Str(t) => if float_lit(t) {
                Ok(ValV::Float(t))
            } else {
                Err(ErrV::InvalidFloatLiteral { text: t })
            },
            _ => Err(ErrV::MissingField { name: "_value"@ }),
        }
    } else if tag == "String"@ {
        match pw {
            WireV::Str(t) => Ok(ValV::Text(t)),
            _ => Err(ErrV::MissingField { name: "_value"@ }),
        }
    } else if tag == "ByteArray"@ {
        match pw {
            WireV::Arr(items) => match dec_bytes(items, 0, Seq::empty()) {
                Ok(bs) => Ok(ValV::Bytes(bs)),
                Err(e) => Err(e),
            },
            _ => Err(ErrV::MissingField { name: "_value"@ }),
        }
    } else if tag == "Map"@ {
        match pw {
            WireV::Obj(es) => if fuel == 0 {
                Err(ErrV::StructuralDepthExceeded)
            } else {
                match dec_entries(es, 0, Seq::empty(), (fuel - 1) as nat) {
                    Ok(m) => Ok(ValV::Dict(m)),
                    Err(e) => Err(e),
                }
            },
            _ => Err(ErrV::MissingField { name: "_value"@ }),
        }
    } else if tag == "List"@ {
        match pw {
            WireV::Arr(items) => if fuel == 0 {
                Err(ErrV::StructuralDepthExceeded)
            } else {
                match dec_items(items, 0, Seq::empty(), (fuel - 1) as nat) {
                    Ok(l) => Ok(ValV::Items(l)),
                    Err(e) => Err(e),
                }
            },
            _ => Err(ErrV::MissingField { name: "_value"@ }),
        }
    } else if tag == "ZonedDateTime"@ {
        match pw {
            WireV::Str(t) => match zdt_of_text(t) {
                Some(z) => Ok(ValV::Zoned(z)),
                None => Err(ErrV::InvalidTemporalLiteral { text: t }),
            },
            _ => Err(ErrV::MissingField { name: "_value"@ }),
        }
    } else if tag == "DateTime"@ {
        match pw {
            WireV::Str(t) => match datetime_of_text(t) {
                Some(dt) => Ok(ValV::Stamp(dt)),
                None => Err(ErrV::InvalidTemporalLiteral { text: t }),
            },
            _ => Err(ErrV::MissingField { name: "_value"@ }),
        }
    } else if tag == "Time"@ {
        match pw {
            WireV::Str(t) => match time_of_text(t) {
                Some(tm) => Ok(ValV::Clock(tm)),
                None => Err(ErrV::InvalidTemporalLiteral { text: t }),
            },
            _ => Err(ErrV::MissingField { name: "_value"@ }),
        }
    } else if tag == "Date"@ {
        match pw {
            WireV::Str(t) => match date_of_text(t) {
                Some(d) => Ok(ValV::Day(d)),
                None => Err(ErrV::InvalidTemporalLiteral { text: t }),
            },
            _ => Err(ErrV::MissingField { name: "_value"@ }),
        }
    } else if tag == "Duration"@ {
        match pw {
            WireV::Str(t) => match duration_of_text(t) {
                Some(d) => Ok(ValV::Span(d)),
                None => Err(ErrV::InvalidTemporalLiteral { text: t }),
            },
            _ => Err(ErrV::MissingField { name: "_value"@ }),
        }
    } else if tag == "Node"@ {
        match dec_node(pw, fuel) {
            Ok(n) => Ok(ValV::Vertex(n)),
            Err(e) => Err(e),
        }
    } else if tag == "Relationship"@ {
        match dec_rel(pw, fuel) {
            Ok(r) => Ok(ValV::Edge(r)),
            Err(e) => Err(e),
        }
    } else if tag == "Path"@ {
        match pw {
            WireV::Arr(items) => if fuel == 0 {
                Err(ErrV::StructuralDepthExceeded)
            } else {
                match dec_path(items, 0, Seq::empty(), Seq::empty(), (fuel - 1) as nat) {
                    Ok(p) => Ok(ValV::Walk(p)),
                    Err(e) => Err(e),
                }
            },
            _ => Err(ErrV::MissingField { name: "_value"@ }),
        }
    } else {
        Err(ErrV::UnknownDiscriminator { tag })
    }
}

pub open spec fn dec_items(s: Seq<WireV>, i: int, acc: Seq<ValV>, fuel: nat) -> Result<
    Seq<ValV>,
    ErrV,
>
    decreases fuel, 3int, s.len() - i,
{
    if !(0 <= i < s.len()) {
        Ok(acc)
    } else {
        match decode_spec(s[i], fuel) {
            Ok(v) => dec_items(s, i + 1, acc.push(v), fuel),
            Err(e) => Err(e),
        }
    }
}

pub open spec fn dec_entries(
    s: Seq<(Seq<char>, WireV)>,
    i: int,
    acc: Seq<(Seq<char>, ValV)>,
    fuel: nat,
) -> Result<Seq<(Seq<char>, ValV)>, ErrV>
    decreases fuel, 3int, s.len() - i,
{
    if !(0 <= i < s.len()) {
        Ok(acc)
    } else {
        match decode_spec(s[i].1, fuel) {
            Ok(v) => dec_entries(s, i + 1, upsert(acc, s[i].0, v), fuel),
            Err(e) => Err(e),
        }
    }
}

pub open spec fn dec_bytes(s: Seq<WireV>, i: int, acc: Seq<u8>) -> Result<Seq<u8>, ErrV>
    decreases s.len() - i,
{
    if !(0 <= i < s.len()) {
        Ok(acc)
    } else {
        match s[i] {
            WireV::Int(b) => if 0 <= b <= 255 {
                dec_bytes(s, i + 1, acc.push(b as u8))
            } else {
                Err(ErrV::ByteOutOfRange { value: b })
            },
            _ => Err(ErrV::MissingField { name: "_value"@ }),
        }
    }
}

pub open spec fn dec_labels(s: Seq<WireV>, i: int, acc: Seq<Seq<char>>) -> Result<
    Seq<Seq<char>>,
    ErrV,
>
    decreases s.len() - i,
{
    if !(0 <= i < s.len()) {
        Ok(acc)
    } else {
        match s[i] {
            WireV::Str(t) => dec_labels(s, i + 1, acc.push(t)),
            _ => Err(ErrV::MissingField { name: "_labels"@ }),
        }
    }
}

/// A node payload: an object whose `_element_id` is a string, `_labels`
/// an array of strings, and `_properties` an object of nested envelopes,
/// read in that order.
pub open spec fn dec_node(pw: WireV, fuel: nat) -> Result<NodeV, ErrV>
    decreases fuel, 0int, 0int,
{
    match pw {
        WireV::Obj(e) => match obj_get(e, "_element_id"@) {
            Some(WireV::Str(id)) => match obj_get(e, "_labels"@) {
                Some(WireV::Arr(ls)) => match dec_labels(ls, 0, Seq::empty()) {
                    Ok(labels) => match obj_get(e, "_properties"@) {
                        Some(WireV::Obj(ps)) => if fuel == 0 {
                            Err(ErrV::StructuralDepthExceeded)
                        } else {
                            match dec_entries(ps, 0, Seq::empty(), (fuel - 1) as nat) {
                                Ok(props) => Ok(
                                    NodeV { labels, properties: props, element_id: id },
                                ),
                                Err(er) => Err(er),
                            }
                        },
                        _ => Err(ErrV::MissingField { name: "_properties"@ }),
                    },
                    Err(er) => Err(er),
                },
                _ => Err(ErrV::MissingField { name: "_labels"@ }),
            },
            _ => Err(ErrV::MissingField { name: "_element_id"@ }),
        },
        _ => Err(ErrV::MissingField { name: "_element_id"@ }),
    }
}

/// A relationship payload: `_element_id`, `_type`, the two endpoint
/// element ids and `_properties`, read in that order.
pub open spec fn dec_rel(pw: WireV, fuel: nat) -> Result<RelationshipV, ErrV>
    decreases fuel, 0int, 0int,
{
    match pw {
        WireV::Obj(e) => match obj_get(e, "_element_id"@) {
            Some(WireV::Str(id)) => match obj_get(e, "_type"@) {
                Some(WireV::Str(ty)) => match obj_get(e, "_start_node_element_id"@) {
                    Some(WireV::Str(sid)) => match obj_get(e, "_end_node_element_id"@) {
                        Some(WireV::Str(eid)) => match obj_get(e, "_properties"@) {
                            Some(WireV::Obj(ps)) => if fuel == 0 {
                                Err(ErrV::StructuralDepthExceeded)
                            } else {
                                match dec_entries(ps, 0, Seq::empty(), (fuel - 1) as nat) {
                                    Ok(props) => Ok(
                                        RelationshipV {
                                            type_: ty,
                                            properties: props,
                                            element_id: id,
                                            start_node_element_id: sid,
                                            end_node_element_id: eid,
                                        },
                                    ),
                                    Err(er) => Err(er),
                                }
                            },
                            _ => Err(ErrV::MissingField { name: "_properties"@ }),
                        },
                        _ => Err(ErrV::MissingField { name: "_end_node_element_id"@ }),
                    },
                    _ => Err(ErrV::MissingField { name: "_start_node_element_id"@ }),
                },
                _ => Err(ErrV::MissingField { name: "_type"@ }),
            },
            _ => Err(ErrV::MissingField { name: "_element_id"@ }),
        },
        _ => Err(ErrV::MissingField { name: "_element_id"@ }),
    }
}

/// Splits the flat path sequence: each element must decode to a node or a
/// relationship; each kind keeps its relative order.
pub open spec fn dec_path(
    s: Seq<WireV>,
    i: int,
    ns: Seq<NodeV>,
    rs: Seq<RelationshipV>,
    fuel: nat,
) -> Result<PathV, ErrV>
    decreases fuel, 3int, s.len() - i,
{
    if !(0 <= i < s.len()) {
        Ok(PathV { nodes: ns, relationships: rs })
    } else {
        match decode_spec(s[i], fuel) {
            Ok(ValV::Vertex(n)) => dec_path(s, i + 1, ns.push(n), rs, fuel),
            Ok(ValV::Edge(r)) => dec_path(s, i + 1, ns, rs.push(r), fuel),
            Ok(v) => Err(ErrV::UnexpectedPathElement { tag: tag_of(v) }),
            Err(e) => Err(e),
        }
    }
}

// ----- well-formed values --------------------------------------------------

/// A value the encoder owes a wire tree for: literal payloads valid, map
/// keys unique, temporal fields in their canonical ranges.
pub open spec fn val_wf(v: ValV) -> bool
    decreases v, 1int,
{
    match v {
        ValV::Boolean(_) => true,
        ValV::Integer(_) => true,
        ValV::Float(t) => float_lit(t),
        ValV::Text(_) => true,
        ValV::Bytes(_) => true,
        ValV::Dict(m) => keys_unique(m) && pairs_wf(m, 0),
        ValV::Items(l) => vals_wf(l, 0),
        ValV::Zoned(z) => zdt_wf(z),
        ValV::Stamp(dt) => datetime_wf(dt),
        ValV::Clock(t) => time_wf(t),
        ValV::Day(d) => date_wf(d),
        ValV::Span(_) => true,
        ValV::Vertex(n) => node_wf(n),
        ValV::Edge(r) => rel_wf(r),
        ValV::Walk(p) => nodes_wf(p.nodes, 0) && rels_wf(p.relationships, 0),
    }
}

pub open spec fn pairs_wf(m: Seq<(Seq<char>, ValV)>, i: int) -> bool
    decreases m, m.len() - i,
{
    !(0 <= i < m.len()) || (val_wf(m[i].1) && pairs_wf(m, i + 1))
}

pub open spec fn vals_wf(l: Seq<ValV>, i: int) -> bool
    decreases l, l.len() - i,
{
    !(0 <= i < l.len()) || (val_wf(l[i]) && vals_wf(l, i + 1))
}

pub open spec fn node_wf(n: NodeV) -> bool
    decreases n, 1int,
{
    keys_unique(n.properties) && pairs_wf(n.properties, 0)
}

pub open spec fn rel_wf(r: RelationshipV) -> bool
    decreases r, 1int,
{
    keys_unique(r.properties) && pairs_wf(r.properties, 0)
}

pub open spec fn nodes_wf(s: Seq<NodeV>, i: int) -> bool
    decreases s, s.len() - i,
{
    !(0 <= i < s.len()) || (node_wf(s[i]) && nodes_wf(s, i + 1))
}

pub open spec fn rels_wf(s: Seq<RelationshipV>, i: int) -> bool
    decreases s, s.len() - i,
{
    !(0 <= i < s.len()) || (rel_wf(s[i]) && rels_wf(s, i + 1))
}

// ----- the canonical encoding ----------------------------------------------

/// An envelope: the two-field object every encoded value travels in.
pub open spec fn env(tag: Seq<char>, pw: WireV) -> WireV {
    WireV::Obj(seq![("$type"@, WireV::Str(tag)), ("_value"@, pw)])
}

pub open spec fn encode_spec(v: ValV) -> WireV
    decreases v, 2int,
{
    env(tag_of(v), payload_spec(v))
}

pub open spec fn payload_spec(v: ValV) -> WireV
    decreases v, 1int,
{
    match v {
        ValV::Boolean(b) => WireV::Bool(b),
        ValV::Integer(i) => WireV::Str(i64_text(i as int)),
        ValV::Float(t) => WireV::Str(t),
        ValV::Text(t) => WireV::Str(t),
        ValV::Bytes(bs) => WireV::Arr(Seq::new(bs.len(), |i: int| WireV::Int(bs[i] as i64))),
        ValV::Dict(m) => WireV::Obj(enc_entries(m)),
        ValV::Items(l) => WireV::Arr(enc_items(l)),
        ValV::Zoned(z) => WireV::Str(zdt_text(z)),
        ValV::Stamp(dt) => WireV::Str(datetime_text(dt)),
        ValV::Clock(t) => WireV::Str(time_text(t)),
        ValV::Day(d) => WireV::Str(date_text(d)),
        ValV::Span(d) => WireV::Str(duration_text(d)),
        ValV::Vertex(n) => node_payload(n),
        ValV::Edge(r) => rel_payload(r),
        ValV::Walk(p) => WireV::Arr(
            interleave(enc_node_envs(p.nodes), enc_rel_envs(p.relationships)),
        ),
    }
}

pub open spec fn enc_entries(m: Seq<(Seq<char>, ValV)>) -> Seq<(Seq<char>, WireV)>
    decreases m, 2int,
{
    if m.len() == 0 {
        Seq::empty()
    } else {
        enc_entries(m.drop_last()).push((m.last().0, encode_spec(m.last().1)))
    }
}

pub open spec fn enc_items(l: Seq<ValV>) -> Seq<WireV>
    decreases l, 2int,
{
    if l.len() == 0 {
        Seq::empty()
    } else {
        enc_items(l.drop_last()).push(encode_spec(l.last()))
    }
}

pub open spec fn node_payload(n: NodeV) -> WireV
    decreases n, 2int,
{
    WireV::Obj(
        seq![
            ("_element_id"@, WireV::Str(n.element_id)),
            ("_labels"@, WireV::Arr(Seq::new(n.labels.len(), |i: int| WireV::Str(n.labels[i])))),
            ("_properties"@, WireV::Obj(enc_entries(n.properties))),
        ],
    )
}

pub open spec fn rel_payload(r: RelationshipV) -> WireV
    decreases r, 2int,
{
    WireV::Obj(
        seq![
            ("_element_id"@, WireV::Str(r.element_id)),
            ("_type"@, WireV::Str(r.type_)),
            ("_start_node_element_id"@, WireV::Str(r.start_node_element_id)),
            ("_end_node_element_id"@, WireV::Str(r.end_node_element_id)),
            ("_properties"@, WireV::Obj(enc_entries(r.properties))),
        ],
    )
}

pub open spec fn enc_node_envs(ns: Seq<NodeV>) -> Seq<WireV>
    decreases ns, 2int,
{
    if ns.len() == 0 {
        Seq::empty()
    } else {
        enc_node_envs(ns.drop_last()).push(env("Node"@, node_payload(ns.last())))
    }
}

pub open spec fn enc_rel_envs(rs: Seq<RelationshipV>) -> Seq<WireV>
    decreases rs, 2int,
{
    if rs.len() == 0 {
        Seq::empty()
    } else {
        enc_rel_envs(rs.drop_last()).push(env("Relationship"@, rel_payload(rs.last())))
    }
}

/// The flat alternating order of a path: one of each kind in turn while
/// both remain, then whatever is left.
pub open spec fn interleave(a: Seq<WireV>, b: Seq<WireV>) -> Seq<WireV>
    decreases a.len() + b.len(),
{
    if a.len() > 0 && b.len() > 0 {
        seq![a[0], b[0]] + interleave(a.subrange(1, a.len() as int), b.subrange(1, b.len() as int))
    } else if a.len() > 0 {
        a
    } else {
        b
    }
}

pub broadcast proof fn lemma_enc_entries(m: Seq<(Seq<char>, ValV)>)
    ensures
        (#[trigger] enc_entries(m)).len() == m.len(),
        forall|i: int| 0 <= i < m.len() ==> enc_entries(m)[i] == (m[i].0, encode_spec(m[i].1)),
    decreases m.len(),
{
    if m.len() > 0 {
        lemma_enc_entries(m.drop_last());
    }
}

pub broadcast proof fn lemma_enc_items(l: Seq<ValV>)
    ensures
        (#[trigger] enc_items(l)).len() == l.len(),
        forall|i: int| 0 <= i < l.len() ==> enc_items(l)[i] == encode_spec(l[i]),
    decreases l.len(),
{
    if l.len() > 0 {
        lemma_enc_items(l.drop_last());
    }
}

pub broadcast proof fn lemma_enc_node_envs(ns: Seq<NodeV>)
    ensures
        (#[trigger] enc_node_envs(ns)).len() == ns.len(),
        forall|i: int| 0 <= i < ns.len() ==> enc_node_envs(ns)[i] == env(
            "Node"@,
            node_payload(ns[i]),
        ),
    decreases ns.len(),
{
    if ns.len() > 0 {
        lemma_enc_node_envs(ns.drop_last());
    }
}

pub broadcast proof fn lemma_enc_rel_envs(rs: Seq<RelationshipV>)
    ensures
        (#[trigger] enc_rel_envs(rs)).len() == rs.len(),
        forall|i: int| 0 <= i < rs.len() ==> enc_rel_envs(rs)[i] == env(
            "Relationship"@,
            rel_payload(rs[i]),
        ),
    decreases rs.len(),
{
    if rs.len() > 0 {
        lemma_enc_rel_envs(rs.drop_last());
    }
}

pub proof fn lemma_pairs_wf_at(m: Seq<(Seq<char>, ValV)>, i: int, k: int)
    requires
        pairs_wf(m, i),
        i <= k < m.len(),
        0 <= i,
    ensures
        val_wf(m[k].1),
    decreases k - i,
{
    if i < k {
        lemma_pairs_wf_at(m, i + 1, k);
    }
}

pub proof fn lemma_vals_wf_at(l: Seq<ValV>, i: int, k: int)
    requires
        vals_wf(l, i),
        i <= k < l.len(),
        0 <= i,
    ensures
        val_wf(l[k]),
    decreases k - i,
{
    if i < k {
        lemma_vals_wf_at(l, i + 1, k);
    }
}

pub proof fn lemma_nodes_wf_at(s: Seq<NodeV>, i: int, k: int)
    requires
        nodes_wf(s, i),
        i <= k < s.len(),
        0 <= i,
    ensures
        node_wf(s[k]),
    decreases k - i,
{
    if i < k {
        lemma_nodes_wf_at(s, i + 1, k);
    }
}

pub proof fn lemma_rels_wf_at(s: Seq<RelationshipV>, i: int, k: int)
    requires
        rels_wf(s, i),
        i <= k < s.len(),
        0 <= i,
    ensures
        rel_wf(s[k]),
    decreases k - i,
{
    if i < k {
        lemma_rels_wf_at(s, i + 1, k);
    }
}

} // verus!
