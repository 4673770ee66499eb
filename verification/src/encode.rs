//! The executable encoder: builds the canonical wire tree of a
//! well-formed value, verified against `encode_spec`.

use vstd::prelude::*;
use vstd::string::*;
use crate::codec::{
    env, encode_spec, payload_spec, enc_entries, enc_items, enc_node_envs, enc_rel_envs,
    interleave, node_payload, rel_payload, val_wf, node_wf, rel_wf, pairs_wf, vals_wf, nodes_wf,
    rels_wf, lemma_enc_entries, lemma_enc_items, lemma_enc_node_envs, lemma_enc_rel_envs,
    lemma_pairs_wf_at, lemma_vals_wf_at, lemma_nodes_wf_at, lemma_rels_wf_at,
};
use crate::num::format_i64;
use crate::temporal::{format_date, format_time, format_datetime, format_zdt, format_duration};
use crate::value::{
    Val, Node, Relationship, ValV, val_pairs_view, vals_view, labels_view, nodes_view, rels_view,
    lemma_vals_view, lemma_val_pairs_view, lemma_labels_view, lemma_nodes_view, lemma_rels_view,
};
use crate::wire::{Wire, WireV, wires_view, wire_pairs_view, lemma_wires_view, lemma_wire_pairs_view};

verus! {

broadcast use lemma_vals_view, lemma_val_pairs_view, lemma_labels_view, lemma_nodes_view,
    lemma_rels_view, lemma_wires_view, lemma_wire_pairs_view, lemma_enc_entries, lemma_enc_items,
    lemma_enc_node_envs, lemma_enc_rel_envs;

/// Wraps a payload in its envelope: `$type` then `_value`.
fn env_x(tag: &str, pw: Wire) -> (w: Wire)
    ensures
        w@ == env(tag@, pw@),
{
    let ghost pwv = pw@;
    let mut entries: Vec<(String, Wire)> = Vec::new();
    entries.push((String::from_str("$type"), Wire::Str(String::from_str(tag))));
    entries.push((String::from_str("_value"), pw));
    let ghost ev = entries@;
    let w = Wire::Obj(entries);
    proof {
        assert(wire_pairs_view(ev) =~= seq![("$type"@, WireV::Str(tag@)), ("_value"@, pwv)]);
    }
    w
}

/// Encodes a property map or Map payload: each entry in order, the value
/// re-dispatched.
#[verifier::loop_isolation(false)]
fn enc_props_x(props: &Vec<(String, Val)>) -> (out: Vec<(String, Wire)>)
    requires
        pairs_wf(val_pairs_view(props@), 0),
    ensures
        wire_pairs_view(out@) == enc_entries(val_pairs_view(props@)),
    decreases *props,
{
    let ghost mv = val_pairs_view(props@);
    let mut out: Vec<(String, Wire)> = Vec::new();
    let mut j: usize = 0;
    while j < props.len()
        invariant
            j <= props.len(),
            out@.len() == j,
            forall|i: int| 0 <= i < j ==> (#[trigger] out@[i]).0@ == mv[i].0 && out@[i].1@
                == encode_spec(mv[i].1),
        decreases props.len() - j,
    {
        proof {
            lemma_pairs_wf_at(mv, 0, j as int);
            lemma_val_pairs_view(props@);
        }
        let pair = &props[j];
        let ew = encode(&pair.1);
        out.push((pair.0.clone(), ew));
        j += 1;
    }
    proof {
        lemma_wire_pairs_view(out@);
        lemma_enc_entries(mv);
        assert(wire_pairs_view(out@) =~= enc_entries(mv));
    }
    out
}

/// Encodes a node payload: element id, labels, properties.
#[verifier::loop_isolation(false)]
fn node_payload_x(n: &Node) -> (w: Wire)
    requires
        node_wf(n@),
    ensures
        w@ == node_payload(n@),
    decreases *n,
{
    let mut ls: Vec<Wire> = Vec::new();
    let mut j: usize = 0;
    while j < n.labels.len()
        invariant
            j <= n.labels.len(),
            ls@.len() == j,
            forall|i: int| 0 <= i < j ==> (#[trigger] ls@[i])@ == WireV::Str(
                labels_view(n.labels@)[i],
            ),
        decreases n.labels.len() - j,
    {
        proof {
            lemma_labels_view(n.labels@);
        }
        ls.push(Wire::Str(n.labels[j].clone()));
        j += 1;
    }
    proof {
        lemma_wires_view(ls@);
        lemma_labels_view(n.labels@);
        assert(wires_view(ls@) =~= Seq::new(
            n@.labels.len(),
            |i: int| WireV::Str(n@.labels[i]),
        ));
    }
    let props = enc_props_x(&n.properties);
    let mut e: Vec<(String, Wire)> = Vec::new();
    e.push((String::from_str("_element_id"), Wire::Str(n.element_id.clone())));
    e.push((String::from_str("_labels"), Wire::Arr(ls)));
    e.push((String::from_str("_properties"), Wire::Obj(props)));
    let ghost ev = e@;
    let w = Wire::Obj(e);
    proof {
        assert(wire_pairs_view(ev) =~= node_payload(n@)->Obj_0);
        assert(w@ =~= node_payload(n@));
    }
    w
}

/// Encodes a relationship payload: element id, type, endpoints,
/// properties.
fn rel_payload_x(r: &Relationship) -> (w: Wire)
    requires
        rel_wf(r@),
    ensures
        w@ == rel_payload(r@),
    decreases *r,
{
    let props = enc_props_x(&r.properties);
    let mut e: Vec<(String, Wire)> = Vec::new();
    e.push((String::from_str("_element_id"), Wire::Str(r.element_id.clone())));
    e.push((String::from_str("_type"), Wire::Str(r.type_.clone())));
    e.push((String::from_str("_start_node_element_id"), Wire::Str(r.start_node_element_id.clone())));
    e.push((String::from_str("_end_node_element_id"), Wire::Str(r.end_node_element_id.clone())));
    e.push((String::from_str("_properties"), Wire::Obj(props)));
    let ghost ev = e@;
    let w = Wire::Obj(e);
    proof {
        assert(wire_pairs_view(ev) =~= rel_payload(r@)->Obj_0);
        assert(w@ =~= rel_payload(r@));
    }
    w
}

/// Encodes a well-formed value as its canonical envelope.
#[verifier::loop_isolation(false)]
#[verifier::rlimit(80)]
pub fn encode(v: &Val) -> (w: Wire)
    requires
        val_wf(v@),
    ensures
        w@ == encode_spec(v@),
    decreases *v,
{
    match v {
        Val::Boolean { value } => env_x("Boolean", Wire::Bool(*value)),
        Val::Integer { value } => env_x("Integer", Wire::Str(format_i64(*value))),
        Val::Float { value } => env_x("Float", Wire::Str(value.clone())),
        Val::String { value } => env_x("String", Wire::Str(value.clone())),
        Val::ByteArray { value } => {
            let mut out: Vec<Wire> = Vec::new();
            let mut j: usize = 0;
            while j < value.len()
                invariant
                    j <= value.len(),
                    out@.len() == j,
                    forall|i: int| 0 <= i < j ==> (#[trigger] out@[i])@ == WireV::Int(
                        value@[i] as i64,
                    ),
                decreases value.len() - j,
            {
                let b = value[j];
                out.push(Wire::Int(b as i64));
                j += 1;
            }
            proof {
                lemma_wires_view(out@);
                assert(wires_view(out@) =~= Seq::new(
                    value@.len(),
                    |i: int| WireV::Int(value@[i] as i64),
                ));
            }
            env_x("ByteArray", Wire::Arr(out))
        },
        Val::Dict { value } => {
            let out = enc_props_x(value);
            env_x("Map", Wire::Obj(out))
        },
        Val::List { value } => {
            let ghost lv = vals_view(value@);
            let mut out: Vec<Wire> = Vec::new();
            let mut j: usize = 0;
            while j < value.len()
                invariant
                    j <= value.len(),
                    out@.len() == j,
                    forall|i: int| 0 <= i < j ==> (#[trigger] out@[i])@ == encode_spec(lv[i]),
                decreases value.len() - j,
            {
                proof {
                    lemma_vals_wf_at(lv, 0, j as int);
                    lemma_vals_view(value@);
                }
                let ew = encode(&value[j]);
                out.push(ew);
                j += 1;
            }
            proof {
                lemma_wires_view(out@);
                lemma_enc_items(lv);
                assert(wires_view(out@) =~= enc_items(lv));
            }
            env_x("List", Wire::Arr(out))
        },
        Val::ZonedDateTime { value } => env_x("ZonedDateTime", Wire::Str(format_zdt(value))),
        Val::DateTime { value } => env_x("DateTime", Wire::Str(format_datetime(value))),
        Val::Time { value } => env_x("Time", Wire::Str(format_time(value))),
        Val::Date { value } => env_x("Date", Wire::Str(format_date(value))),
        Val::Duration { value } => env_x("Duration", Wire::Str(format_duration(value))),
        Val::Node { value } => {
            let pw = node_payload_x(value);
            env_x("Node", pw)
        },
        Val::Relationship { value } => {
            let pw = rel_payload_x(value);
            env_x("Relationship", pw)
        },
        Val::Path { value } => {
            let ghost nv = nodes_view(value.nodes@);
            let ghost rv = rels_view(value.relationships@);
            let ghost av = enc_node_envs(nv);
            let ghost bv = enc_rel_envs(rv);
            let mut out: Vec<Wire> = Vec::new();
            let mut i: usize = 0;
            let mut j: usize = 0;
            proof {
                assert(av.subrange(0, av.len() as int) =~= av);
                assert(bv.subrange(0, bv.len() as int) =~= bv);
                assert(wires_view(out@) =~= Seq::<WireV>::empty());
                assert(interleave(av, bv) =~= wires_view(out@) + interleave(av, bv));
            }
            while i < value.nodes.len() || j < value.relationships.len()
                invariant
                    i <= nv.len(),
                    j <= rv.len(),
                    interleave(av, bv) == wires_view(out@) + interleave(
                        av.subrange(i as int, av.len() as int),
                        bv.subrange(j as int, bv.len() as int),
                    ),
                decreases nv.len() - i + rv.len() - j,
            {
                let ghost arest = av.subrange(i as int, av.len() as int);
                let ghost brest = bv.subrange(j as int, bv.len() as int);
                if i < value.nodes.len() {
                    proof {
                        lemma_nodes_wf_at(nv, 0, i as int);
                        assert(arest[0] == av[i as int]);
                        assert(arest.subrange(1, arest.len() as int) =~= av.subrange(
                            i as int + 1,
                            av.len() as int,
                        ));
                    }
                    let pw = node_payload_x(&value.nodes[i]);
                    let ew = env_x("Node", pw);
                    out.push(ew);
                    i += 1;
                    if j < value.relationships.len() {
                        proof {
                            lemma_rels_wf_at(rv, 0, j as int);
                            assert(brest[0] == bv[j as int]);
                            assert(brest.subrange(1, brest.len() as int) =~= bv.subrange(
                                j as int + 1,
                                bv.len() as int,
                            ));
                        }
                        let pw2 = rel_payload_x(&value.relationships[j]);
                        let ew2 = env_x("Relationship", pw2);
                        out.push(ew2);
                        j += 1;
                        proof {
                            assert(interleave(arest, brest) =~= seq![arest[0], brest[0]]
                                + interleave(
                                arest.subrange(1, arest.len() as int),
                                brest.subrange(1, brest.len() as int),
                            ));
                            assert(interleave(av, bv) =~= wires_view(out@) + interleave(
                                av.subrange(i as int, av.len() as int),
                                bv.subrange(j as int, bv.len() as int),
                            ));
                        }
                    } else {
                        proof {
                            assert(brest =~= Seq::<WireV>::empty());
                            assert(interleave(arest, brest) =~= arest);
                            assert(arest =~= seq![arest[0]] + av.subrange(
                                i as int,
                                av.len() as int,
                            ));
                            assert(interleave(
                                av.subrange(i as int, av.len() as int),
                                bv.subrange(j as int, bv.len() as int),
                            ) =~= av.subrange(i as int, av.len() as int));
                            assert(interleave(av, bv) =~= wires_view(out@) + interleave(
                                av.subrange(i as int, av.len() as int),
                                bv.subrange(j as int, bv.len() as int),
                            ));
                        }
                    }
                } else {
                    proof {
                        lemma_rels_wf_at(rv, 0, j as int);
                        assert(arest =~= Seq::<WireV>::empty());
                        assert(brest[0] == bv[j as int]);
                        assert(interleave(arest, brest) =~= brest);
                        assert(brest =~= seq![brest[0]] + bv.subrange(j as int + 1, bv.len() as int));
                    }
                    let pw2 = rel_payload_x(&value.relationships[j]);
                    let ew2 = env_x("Relationship", pw2);
                    out.push(ew2);
                    j += 1;
                    proof {
                        assert(interleave(
                            av.subrange(i as int, av.len() as int),
                            bv.subrange(j as int, bv.len() as int),
                        ) =~= bv.subrange(j as int, bv.len() as int));
                        assert(interleave(av, bv) =~= wires_view(out@) + interleave(
                            av.subrange(i as int, av.len() as int),
                            bv.subrange(j as int, bv.len() as int),
                        ));
                    }
                }
            }
            proof {
                assert(av.subrange(i as int, av.len() as int) =~= Seq::<WireV>::empty());
                assert(bv.subrange(j as int, bv.len() as int) =~= Seq::<WireV>::empty());
                assert(interleave(Seq::<WireV>::empty(), Seq::<WireV>::empty())
                    =~= Seq::<WireV>::empty());
                assert(wires_view(out@) =~= interleave(av, bv));
            }
            env_x("Path", Wire::Arr(out))
        },
    }
}

} // verus!
