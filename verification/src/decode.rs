//! The executable decoder: dispatches on the envelope's discriminator and
//! rebuilds the typed value, verified against `decode_spec`.

use vstd::prelude::*;
use vstd::string::*;
use crate::codec::{
    decode_spec, decode_tagged, dec_items, dec_entries, dec_bytes, dec_labels, dec_node, dec_rel,
    dec_path, obj_get, find_key, upsert, tag_of, DecodeError, ErrV, MAX_DEPTH,
};
use crate::num::parse_i64;
use crate::strutil::str_eq;
use crate::temporal::{parse_date, parse_time, parse_datetime, parse_zdt, parse_duration};
use crate::value::{
    Val, Node, Relationship, Path, ValV, NodeV, RelationshipV, val_pairs_view, vals_view,
    labels_view, nodes_view, rels_view, lemma_vals_view, lemma_val_pairs_view, lemma_labels_view,
    lemma_nodes_view, lemma_rels_view,
};
use crate::wire::{Wire, WireV, wires_view, wire_pairs_view, lemma_wires_view, lemma_wire_pairs_view};

verus! {

broadcast use lemma_vals_view, lemma_val_pairs_view, lemma_labels_view, lemma_nodes_view,
    lemma_rels_view, lemma_wires_view, lemma_wire_pairs_view;

/// Looks a key up in an object's entries: the last entry listed wins.
fn obj_find<'a>(entries: &'a Vec<(String, Wire)>, key: &str) -> (r: Option<&'a Wire>)
    ensures
        ({
            let g = obj_get(wire_pairs_view(entries@), key@);
            match r {
                Some(w) => g == Some(w@),
                None => g == None::<WireV>,
            }
        }),
{
    let ghost ev = wire_pairs_view(entries@);
    let mut i: usize = entries.len();
    proof {
        assert(ev.subrange(0, i as int) =~= ev);
    }
    loop
        invariant
            i <= entries.len(),
            ev == wire_pairs_view(entries@),
            obj_get(ev, key@) == obj_get(ev.subrange(0, i as int), key@),
        ensures
            obj_get(ev, key@) == None::<WireV>,
        decreases i,
    {
        if i == 0 {
            proof {
                assert(ev.subrange(0, 0) =~= Seq::<(Seq<char>, WireV)>::empty());
            }
            break;
        }
        i -= 1;
        let pair = &entries[i];
        proof {
            assert(ev.subrange(0, i as int + 1).drop_last() =~= ev.subrange(0, i as int));
            assert(ev.subrange(0, i as int + 1).last() == ev[i as int]);
            assert(ev[i as int] == (entries@[i as int].0@, entries@[i as int].1@));
        }
        if str_eq(pair.0.as_str(), key) {
            proof {
                assert(obj_get(ev, key@) == Some(ev[i as int].1));
            }
            return Some(&pair.1);
        }
    }
    None
}

/// The discriminator string of a value's variant.
fn tag_str(v: &Val) -> (r: String)
    ensures
        r@ == tag_of(v@),
{
    match v {
        Val::Boolean { .. } => String::from_str("Boolean"),
        Val::Integer { .. } => String::from_str("Integer"),
        Val::Float { .. } => String::from_str("Float"),
        Val::String { .. } => String::from_str("String"),
        Val::ByteArray { .. } => String::from_str("ByteArray"),
        Val::Dict { .. } => String::from_str("Map"),
        Val::List { .. } => String::from_str("List"),
        Val::ZonedDateTime { .. } => String::from_str("ZonedDateTime"),
        Val::DateTime { .. } => String::from_str("DateTime"),
        Val::Time { .. } => String::from_str("Time"),
        Val::Date { .. } => String::from_str("Date"),
        Val::Duration { .. } => String::from_str("Duration"),
        Val::Node { .. } => String::from_str("Node"),
        Val::Relationship { .. } => String::from_str("Relationship"),
        Val::Path { .. } => String::from_str("Path"),
    }
}

pub proof fn lemma_find_key_props(m: Seq<(Seq<char>, ValV)>, k: Seq<char>)
    ensures
        ({
            let r = find_key(m, k);
            &&& (r == -1 <==> forall|i: int| 0 <= i < m.len() ==> (#[trigger] m[i]).0 != k)
            &&& (r >= 0 ==> 0 <= r < m.len() && m[r].0 == k && forall|i: int|
                0 <= i < r ==> (#[trigger] m[i]).0 != k)
        }),
    decreases m.len(),
{
    if m.len() > 0 && m[0].0 != k {
        let t = m.subrange(1, m.len() as int);
        lemma_find_key_props(t, k);
        assert(forall|i: int| 0 <= i < t.len() ==> #[trigger] t[i] == m[i + 1]);
        assert(forall|i: int| 1 <= i < m.len() ==> (#[trigger] m[i]).0 == t[i - 1].0);
        let rt = find_key(t, k);
        if rt >= 0 {
            assert(m[rt + 1].0 == t[rt].0);
            assert(forall|i: int| 0 <= i < rt + 1 ==> (#[trigger] m[i]).0 != k);
        } else {
            assert(forall|i: int| 0 <= i < m.len() ==> (#[trigger] m[i]).0 != k);
        }
    }
}

/// Last-write-wins insertion into an association list.
#[verifier::loop_isolation(false)]
fn upsert_x(m: &mut Vec<(String, Val)>, k: String, v: Val)
    ensures
        val_pairs_view(final(m)@) == upsert(val_pairs_view(old(m)@), k@, v@),
{
    let ghost mv = val_pairs_view(old(m)@);
    let ghost p = (k@, v@);
    let mut i: usize = 0;
    while i < m.len()
        invariant
            i <= m.len(),
            m@ == old(m)@,
            forall|t: int| 0 <= t < i ==> (#[trigger] mv[t]).0 != k@,
        decreases m.len() - i,
    {
        let found = {
            let pair = &m[i];
            str_eq(pair.0.as_str(), k.as_str())
        };
        if found {
            proof {
                lemma_find_key_props(mv, k@);
                assert(mv[i as int].0 == k@);
                assert(find_key(mv, k@) == i as int);
            }
            m.remove(i);
            m.insert(i, (k, v));
            proof {
                assert(m@ =~= old(m)@.update(i as int, (old(m)@[i as int].0, old(m)@[
                    i as int].1)).update(i as int, m@[i as int]));
                assert(m@ =~= old(m)@.update(i as int, m@[i as int]));
                lemma_val_pairs_view(m@);
                lemma_val_pairs_view(old(m)@);
                assert(val_pairs_view(m@) =~= mv.update(i as int, p));
            }
            return ;
        }
        i += 1;
    }
    proof {
        lemma_find_key_props(mv, k@);
        assert(find_key(mv, k@) == -1);
    }
    m.push((k, v));
    proof {
        lemma_val_pairs_view(m@);
        lemma_val_pairs_view(old(m)@);
        assert(val_pairs_view(m@) =~= mv.push(p));
    }
}

/// Decodes a ByteArray payload: integers in `0 ..= 255`, order kept.
#[verifier::loop_isolation(false)]
fn dec_bytes_x(items: &Vec<Wire>) -> (r: Result<Vec<u8>, DecodeError>)
    ensures
        ({
            let d = dec_bytes(wires_view(items@), 0, Seq::empty());
            match r {
                Ok(bs) => d == Ok::<Seq<u8>, ErrV>(bs@),
                Err(e) => d == Err::<Seq<u8>, ErrV>(e@),
            }
        }),
{
    let ghost sv = wires_view(items@);
    let mut out: Vec<u8> = Vec::new();
    let mut j: usize = 0;
    while j < items.len()
        invariant
            j <= items.len(),
            dec_bytes(sv, 0, Seq::empty()) == dec_bytes(sv, j as int, out@),
        decreases items.len() - j,
    {
        proof {
            assert(sv[j as int] == items@[j as int]@);
        }
        let w = &items[j];
        match w {
            Wire::Int(b) => {
                if *b < 0 || *b > 255 {
                    return Err(DecodeError::ByteOutOfRange { value: *b });
                }
                out.push(*b as u8);
                j += 1;
            },
            _ => {
                return Err(DecodeError::MissingField { name: String::from_str("_value") });
            },
        }
    }
    Ok(out)
}

/// Decodes a `_labels` payload: an array of strings, order kept.
#[verifier::loop_isolation(false)]
fn dec_labels_x(items: &Vec<Wire>) -> (r: Result<Vec<String>, DecodeError>)
    ensures
        ({
            let d = dec_labels(wires_view(items@), 0, Seq::empty());
            match r {
                Ok(ls) => d == Ok::<Seq<Seq<char>>, ErrV>(labels_view(ls@)),
                Err(e) => d == Err::<Seq<Seq<char>>, ErrV>(e@),
            }
        }),
{
    let ghost sv = wires_view(items@);
    let mut out: Vec<String> = Vec::new();
    let mut j: usize = 0;
    proof {
        assert(labels_view(out@) =~= Seq::<Seq<char>>::empty());
    }
    while j < items.len()
        invariant
            j <= items.len(),
            dec_labels(sv, 0, Seq::empty()) == dec_labels(sv, j as int, labels_view(out@)),
        decreases items.len() - j,
    {
        proof {
            assert(sv[j as int] == items@[j as int]@);
        }
        let w = &items[j];
        match w {
            Wire::Str(t) => {
                let ghost lv0 = labels_view(out@);
                let ghost tv = t@;
                out.push(t.clone());
                proof {
                    assert(labels_view(out@) =~= lv0.push(tv));
                }
                j += 1;
            },
            _ => {
                return Err(DecodeError::MissingField { name: String::from_str("_labels") });
            },
        }
    }
    Ok(out)
}

/// Decodes a List payload: each element dispatched, order kept.
#[verifier::loop_isolation(false)]
fn dec_items_x(items: &Vec<Wire>, fuel: u64) -> (r: Result<Vec<Val>, DecodeError>)
    ensures
        ({
            let d = dec_items(wires_view(items@), 0, Seq::empty(), fuel as nat);
            match r {
                Ok(vs) => d == Ok::<Seq<ValV>, ErrV>(vals_view(vs@)),
                Err(e) => d == Err::<Seq<ValV>, ErrV>(e@),
            }
        }),
    decreases fuel, 3int, 0int,
{
    let ghost sv = wires_view(items@);
    let mut out: Vec<Val> = Vec::new();
    let mut j: usize = 0;
    proof {
        assert(vals_view(out@) =~= Seq::<ValV>::empty());
    }
    while j < items.len()
        invariant
            j <= items.len(),
            dec_items(sv, 0, Seq::empty(), fuel as nat) == dec_items(
                sv,
                j as int,
                vals_view(out@),
                fuel as nat,
            ),
        decreases items.len() - j,
    {
        proof {
            assert(sv[j as int] == items@[j as int]@);
        }
        match decode_at(&items[j], fuel) {
            Ok(v) => {
                let ghost vv0 = vals_view(out@);
                let ghost dv = v@;
                out.push(v);
                proof {
                    assert(vals_view(out@) =~= vv0.push(dv));
                }
                j += 1;
            },
            Err(e) => {
                return Err(e);
            },
        }
    }
    Ok(out)
}

/// Decodes a Map or `_properties` payload: each entry's value
/// dispatched, duplicate keys last-write-wins.
#[verifier::loop_isolation(false)]
fn dec_entries_x(entries: &Vec<(String, Wire)>, fuel: u64) -> (r: Result<
    Vec<(String, Val)>,
    DecodeError,
>)
    ensures
        ({
            let d = dec_entries(wire_pairs_view(entries@), 0, Seq::empty(), fuel as nat);
            match r {
                Ok(m) => d == Ok::<Seq<(Seq<char>, ValV)>, ErrV>(val_pairs_view(m@)),
                Err(e) => d == Err::<Seq<(Seq<char>, ValV)>, ErrV>(e@),
            }
        }),
    decreases fuel, 3int, 0int,
{
    let ghost sv = wire_pairs_view(entries@);
    let mut out: Vec<(String, Val)> = Vec::new();
    let mut j: usize = 0;
    proof {
        assert(val_pairs_view(out@) =~= Seq::<(Seq<char>, ValV)>::empty());
    }
    while j < entries.len()
        invariant
            j <= entries.len(),
            dec_entries(sv, 0, Seq::empty(), fuel as nat) == dec_entries(
                sv,
                j as int,
                val_pairs_view(out@),
                fuel as nat,
            ),
        decreases entries.len() - j,
    {
        proof {
            assert(sv[j as int] == (entries@[j as int].0@, entries@[j as int].1@));
        }
        let pair = &entries[j];
        match decode_at(&pair.1, fuel) {
            Ok(v) => {
                upsert_x(&mut out, pair.0.clone(), v);
                j += 1;
            },
            Err(e) => {
                return Err(e);
            },
        }
    }
    Ok(out)
}

/// Decodes a Node payload: element id, labels, properties.
fn dec_node_x(pw: &Wire, fuel: u64) -> (r: Result<Node, DecodeError>)
    ensures
        ({
            let d = dec_node(pw@, fuel as nat);
            match r {
                Ok(n) => d == Ok::<NodeV, ErrV>(n@),
                Err(e) => d == Err::<NodeV, ErrV>(e@),
            }
        }),
    decreases fuel, 0int, 0int,
{
    let e = match pw {
        Wire::Obj(e) => e,
        _ => {
            return Err(DecodeError::MissingField { name: String::from_str("_element_id") });
        },
    };
    let id = match obj_find(e, "_element_id") {
        Some(Wire::Str(id)) => id,
        _ => {
            return Err(DecodeError::MissingField { name: String::from_str("_element_id") });
        },
    };
    let ls = match obj_find(e, "_labels") {
        Some(Wire::Arr(ls)) => ls,
        _ => {
            return Err(DecodeError::MissingField { name: String::from_str("_labels") });
        },
    };
    let labels = match dec_labels_x(ls) {
        Ok(labels) => labels,
        Err(er) => {
            return Err(er);
        },
    };
    let ps = match obj_find(e, "_properties") {
        Some(Wire::Obj(ps)) => ps,
        _ => {
            return Err(DecodeError::MissingField { name: String::from_str("_properties") });
        },
    };
    if fuel == 0 {
        return Err(DecodeError::StructuralDepthExceeded);
    }
    let props = match dec_entries_x(ps, fuel - 1) {
        Ok(props) => props,
        Err(er) => {
            return Err(er);
        },
    };
    Ok(Node { labels, properties: props, element_id: id.clone() })
}

/// Decodes a Relationship payload: element id, type, endpoints,
/// properties.
fn dec_rel_x(pw: &Wire, fuel: u64) -> (r: Result<Relationship, DecodeError>)
    ensures
        ({
            let d = dec_rel(pw@, fuel as nat);
            match r {
                Ok(n) => d == Ok::<RelationshipV, ErrV>(n@),
                Err(e) => d == Err::<RelationshipV, ErrV>(e@),
            }
        }),
    decreases fuel, 0int, 0int,
{
    let e = match pw {
        Wire::Obj(e) => e,
        _ => {
            return Err(DecodeError::MissingField { name: String::from_str("_element_id") });
        },
    };
    let id = match obj_find(e, "_element_id") {
        Some(Wire::Str(id)) => id,
        _ => {
            return Err(DecodeError::MissingField { name: String::from_str("_element_id") });
        },
    };
    let ty = match obj_find(e, "_type") {
        Some(Wire::Str(ty)) => ty,
        _ => {
            return Err(DecodeError::MissingField { name: String::from_str("_type") });
        },
    };
    let sid = match obj_find(e, "_start_node_element_id") {
        Some(Wire::Str(sid)) => sid,
        _ => {
            return Err(
                DecodeError::MissingField { name: String::from_str("_start_node_element_id") },
            );
        },
    };
    let eid = match obj_find(e, "_end_node_element_id") {
        Some(Wire::Str(eid)) => eid,
        _ => {
            return Err(
                DecodeError::MissingField { name: String::from_str("_end_node_element_id") },
            );
        },
    };
    let ps = match obj_find(e, "_properties") {
        Some(Wire::Obj(ps)) => ps,
        _ => {
            return Err(DecodeError::MissingField { name: String::from_str("_properties") });
        },
    };
    if fuel == 0 {
        return Err(DecodeError::StructuralDepthExceeded);
    }
    let props = match dec_entries_x(ps, fuel - 1) {
        Ok(props) => props,
        Err(er) => {
            return Err(er);
        },
    };
    Ok(
        Relationship {
            type_: ty.clone(),
            properties: props,
            element_id: id.clone(),
            start_node_element_id: sid.clone(),
            end_node_element_id: eid.clone(),
        },
    )
}

/// Splits a Path payload: nodes and relationships each keep their
/// relative order; any other variant is refused.
#[verifier::loop_isolation(false)]
fn dec_path_x(items: &Vec<Wire>, fuel: u64) -> (r: Result<Path, DecodeError>)
    ensures
        ({
            let d = dec_path(wires_view(items@), 0, Seq::empty(), Seq::empty(), fuel as nat);
            match r {
                Ok(p) => d == Ok::<crate::value::PathV, ErrV>(p@),
                Err(e) => d == Err::<crate::value::PathV, ErrV>(e@),
            }
        }),
    decreases fuel, 3int, 0int,
{
    let ghost sv = wires_view(items@);
    let mut nodes: Vec<Node> = Vec::new();
    let mut relationships: Vec<Relationship> = Vec::new();
    let mut j: usize = 0;
    proof {
        assert(nodes_view(nodes@) =~= Seq::<NodeV>::empty());
        assert(rels_view(relationships@) =~= Seq::<RelationshipV>::empty());
    }
    while j < items.len()
        invariant
            j <= items.len(),
            dec_path(sv, 0, Seq::empty(), Seq::empty(), fuel as nat) == dec_path(
                sv,
                j as int,
                nodes_view(nodes@),
                rels_view(relationships@),
                fuel as nat,
            ),
        decreases items.len() - j,
    {
        proof {
            assert(sv[j as int] == items@[j as int]@);
        }
        match decode_at(&items[j], fuel) {
            Ok(Val::Node { value }) => {
                let ghost nv0 = nodes_view(nodes@);
                let ghost dv = value@;
                nodes.push(value);
                proof {
                    assert(nodes_view(nodes@) =~= nv0.push(dv));
                }
                j += 1;
            },
            Ok(Val::Relationship { value }) => {
                let ghost rv0 = rels_view(relationships@);
                let ghost dv = value@;
                relationships.push(value);
                proof {
                    assert(rels_view(relationships@) =~= rv0.push(dv));
                }
                j += 1;
            },
            Ok(other) => {
                let tag = tag_str(&other);
                return Err(DecodeError::UnexpectedPathElement { tag });
            },
            Err(e) => {
                return Err(e);
            },
        }
    }
    Ok(Path { nodes, relationships })
}

/// Dispatches a payload on its discriminator.
#[verifier::rlimit(100)]
fn dec_tagged_x(tag: &String, pw: &Wire, fuel: u64) -> (r: Result<Val, DecodeError>)
    ensures
        ({
            let d = decode_tagged(tag@, pw@, fuel as nat);
            match r {
                Ok(v) => d == Ok::<ValV, ErrV>(v@),
                Err(e) => d == Err::<ValV, ErrV>(e@),
            }
        }),
    decreases fuel, 1int, 0int,
{
    if str_eq(tag.as_str(), "Boolean") {
        match pw {
            Wire::Bool(b) => Ok(Val::Boolean { value: *b }),
            _ => Err(DecodeError::MissingField { name: String::from_str("_value") }),
        }
    } else if str_eq(tag.as_str(), "Integer") {
        match pw {
            Wire::Str(t) => match parse_i64(t.as_str()) {
                Some(v) => Ok(Val::Integer { value: v }),
                None => Err(DecodeError::InvalidIntegerLiteral { text: t.clone() }),
            },
            _ => Err(DecodeError::MissingField { name: String::from_str("_value") }),
        }
    } else if str_eq(tag.as_str(), "Float") {
        match pw {
            Wire::Str(t) => if crate::num::check_float_lit(t.as_str()) {
                Ok(Val::Float { value: t.clone() })
            } else {
                Err(DecodeError::InvalidFloatLiteral { text: t.clone() })
            },
            _ => Err(DecodeError::MissingField { name: String::from_str("_value") }),
        }
    } else if str_eq(tag.as_str(), "String") {
        match pw {
            Wire::Str(t) => Ok(Val::String { value: t.clone() }),
            _ => Err(DecodeError::MissingField { name: String::from_str("_value") }),
        }
    } else if str_eq(tag.as_str(), "ByteArray") {
        match pw {
            Wire::Arr(items) => match dec_bytes_x(items) {
                Ok(bs) => Ok(Val::ByteArray { value: bs }),
                Err(e) => Err(e),
            },
            _ => Err(DecodeError::MissingField { name: String::from_str("_value") }),
        }
    } else if str_eq(tag.as_str(), "Map") {
        match pw {
            Wire::Obj(es) => if fuel == 0 {
                Err(DecodeError::StructuralDepthExceeded)
            } else {
                match dec_entries_x(es, fuel - 1) {
                    Ok(m) => Ok(Val::Dict { value: m }),
                    Err(e) => Err(e),
                }
            },
            _ => Err(DecodeError::MissingField { name: String::from_str("_value") }),
        }
    } else if str_eq(tag.as_str(), "List") {
        match pw {
            Wire::Arr(items) => if fuel == 0 {
                Err(DecodeError::StructuralDepthExceeded)
            } else {
                match dec_items_x(items, fuel - 1) {
                    Ok(l) => Ok(Val::List { value: l }),
                    Err(e) => Err(e),
                }
            },
            _ => Err(DecodeError::MissingField { name: String::from_str("_value") }),
        }
    } else if str_eq(tag.as_str(), "ZonedDateTime") {
        match pw {
            Wire::Str(t) => match parse_zdt(t.as_str()) {
                Some(z) => Ok(Val::ZonedDateTime { value: z }),
                None => Err(DecodeError::InvalidTemporalLiteral { text: t.clone() }),
            },
            _ => Err(DecodeError::MissingField { name: String::from_str("_value") }),
        }
    } else if str_eq(tag.as_str(), "DateTime") {
        match pw {
            Wire::Str(t) => match parse_datetime(t.as_str()) {
                Some(dt) => Ok(Val::DateTime { value: dt }),
                None => Err(DecodeError::InvalidTemporalLiteral { text: t.clone() }),
            },
            _ => Err(DecodeError::MissingField { name: String::from_str("_value") }),
        }
    } else if str_eq(tag.as_str(), "Time") {
        match pw {
            Wire::Str(t) => match parse_time(t.as_str()) {
                Some(tm) => Ok(Val::Time { value: tm }),
                None => Err(DecodeError::InvalidTemporalLiteral { text: t.clone() }),
            },
            _ => Err(DecodeError::MissingField { name: String::from_str("_value") }),
        }
    } else if str_eq(tag.as_str(), "Date") {
        match pw {
            Wire::Str(t) => match parse_date(t.as_str()) {
                Some(d) => Ok(Val::Date { value: d }),
                None => Err(DecodeError::InvalidTemporalLiteral { text: t.clone() }),
            },
            _ => Err(DecodeError::MissingField { name: String::from_str("_value") }),
        }
    } else if str_eq(tag.as_str(), "Duration") {
        match pw {
            Wire::Str(t) => match parse_duration(t.as_str()) {
                Some(d) => Ok(Val::Duration { value: d }),
                None => Err(DecodeError::InvalidTemporalLiteral { text: t.clone() }),
            },
            _ => Err(DecodeError::MissingField { name: String::from_str("_value") }),
        }
    } else if str_eq(tag.as_str(), "Node") {
        match dec_node_x(pw, fuel) {
            Ok(n) => Ok(Val::Node { value: n }),
            Err(e) => Err(e),
        }
    } else if str_eq(tag.as_str(), "Relationship") {
        match dec_rel_x(pw, fuel) {
            Ok(rl) => Ok(Val::Relationship { value: rl }),
            Err(e) => Err(e),
        }
    } else if str_eq(tag.as_str(), "Path") {
        match pw {
            Wire::Arr(items) => if fuel == 0 {
                Err(DecodeError::StructuralDepthExceeded)
            } else {
                match dec_path_x(items, fuel - 1) {
                    Ok(p) => Ok(Val::Path { value: p }),
                    Err(e) => Err(e),
                }
            },
            _ => Err(DecodeError::MissingField { name: String::from_str("_value") }),
        }
    } else {
        Err(DecodeError::UnknownDiscriminator { tag: tag.clone() })
    }
}

/// Decodes one envelope with the given remaining depth.
fn decode_at(w: &Wire, fuel: u64) -> (r: Result<Val, DecodeError>)
    ensures
        ({
            let d = decode_spec(w@, fuel as nat);
            match r {
                Ok(v) => d == Ok::<ValV, ErrV>(v@),
                Err(e) => d == Err::<ValV, ErrV>(e@),
            }
        }),
    decreases fuel, 2int, 0int,
{
    let entries = match w {
        Wire::Obj(entries) => entries,
        _ => {
            return Err(DecodeError::MissingField { name: String::from_str("$type") });
        },
    };
    let tag = match obj_find(entries, "$type") {
        Some(Wire::Str(tag)) => tag,
        _ => {
            return Err(DecodeError::MissingField { name: String::from_str("$type") });
        },
    };
    match obj_find(entries, "_value") {
        Some(pw) => dec_tagged_x(tag, pw, fuel),
        None => Err(DecodeError::MissingField { name: String::from_str("_value") }),
    }
}

/// Decodes an envelope into a typed value, or says exactly why it
/// cannot: the result is what `decode_spec` assigns to the tree at the
/// standard depth bound.
pub fn decode(w: &Wire) -> (r: Result<Val, DecodeError>)
    ensures
        ({
            let d = decode_spec(w@, MAX_DEPTH as nat);
            match r {
                Ok(v) => d == Ok::<ValV, ErrV>(v@),
                Err(e) => d == Err::<ValV, ErrV>(e@),
            }
        }),
{
    decode_at(w, MAX_DEPTH)
}

} // verus!
