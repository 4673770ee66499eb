//! The codec's laws: encoding a well-formed value and decoding the
//! result yields the value again, for every variant and every nesting
//! within the depth bound; a map decode lets the last-listed value of a
//! duplicated key win; a path decode refuses any element that is neither
//! a node nor a relationship.

use vstd::prelude::*;
use crate::codec::{
    decode_spec, decode_tagged, dec_items, dec_entries, dec_bytes, dec_labels, dec_node, dec_rel,
    dec_path, obj_get, find_key, upsert, tag_of, env, encode_spec, payload_spec, enc_entries,
    enc_items, enc_node_envs, enc_rel_envs, interleave, node_payload, rel_payload, val_wf,
    node_wf, rel_wf, pairs_wf, vals_wf, nodes_wf, rels_wf, keys_unique, lemma_enc_entries,
    lemma_enc_items, lemma_enc_node_envs, lemma_enc_rel_envs, lemma_pairs_wf_at,
    lemma_vals_wf_at, lemma_nodes_wf_at, lemma_rels_wf_at, ErrV, MAX_DEPTH,
};
use crate::num::lemma_i64_round_trip;
use crate::temporal::{
    lemma_date_round_trip, lemma_time_round_trip, lemma_datetime_round_trip, lemma_zdt_round_trip,
    lemma_duration_round_trip,
};
use crate::value::{ValV, NodeV, RelationshipV, PathV};
use crate::wire::WireV;

verus! {

broadcast use lemma_enc_entries, lemma_enc_items, lemma_enc_node_envs, lemma_enc_rel_envs;

// ----- how much depth a value needs ----------------------------------------

/// The decoding depth a value's canonical encoding consumes.
pub open spec fn val_depth(v: ValV) -> nat
    decreases v, 1int,
{
    match v {
        ValV::Dict(m) => 1 + pairs_depth(m, 0),
        ValV::Items(l) => 1 + vals_depth(l, 0),
        ValV::Vertex(n) => node_depth(n),
        ValV::Edge(r) => rel_depth(r),
        ValV::Walk(p) => 1 + if nodes_depth(p.nodes, 0) >= rels_depth(p.relationships, 0) {
            nodes_depth(p.nodes, 0)
        } else {
            rels_depth(p.relationships, 0)
        },
        _ => 0,
    }
}

pub open spec fn pairs_depth(m: Seq<(Seq<char>, ValV)>, i: int) -> nat
    decreases m, m.len() - i,
{
    if !(0 <= i < m.len()) {
        0
    } else if val_depth(m[i].1) >= pairs_depth(m, i + 1) {
        val_depth(m[i].1)
    } else {
        pairs_depth(m, i + 1)
    }
}

pub open spec fn vals_depth(l: Seq<ValV>, i: int) -> nat
    decreases l, l.len() - i,
{
    if !(0 <= i < l.len()) {
        0
    } else if val_depth(l[i]) >= vals_depth(l, i + 1) {
        val_depth(l[i])
    } else {
        vals_depth(l, i + 1)
    }
}

pub open spec fn node_depth(n: NodeV) -> nat
    decreases n, 1int,
{
    1 + pairs_depth(n.properties, 0)
}

pub open spec fn rel_depth(r: RelationshipV) -> nat
    decreases r, 1int,
{
    1 + pairs_depth(r.properties, 0)
}

pub open spec fn nodes_depth(s: Seq<NodeV>, i: int) -> nat
    decreases s, s.len() - i,
{
    if !(0 <= i < s.len()) {
        0
    } else if node_depth(s[i]) >= nodes_depth(s, i + 1) {
        node_depth(s[i])
    } else {
        nodes_depth(s, i + 1)
    }
}

pub open spec fn rels_depth(s: Seq<RelationshipV>, i: int) -> nat
    decreases s, s.len() - i,
{
    if !(0 <= i < s.len()) {
        0
    } else if rel_depth(s[i]) >= rels_depth(s, i + 1) {
        rel_depth(s[i])
    } else {
        rels_depth(s, i + 1)
    }
}

pub proof fn lemma_pairs_depth_at(m: Seq<(Seq<char>, ValV)>, i: int, k: int)
    requires
        0 <= i <= k < m.len(),
    ensures
        pairs_depth(m, i) >= val_depth(m[k].1),
    decreases k - i,
{
    if i < k {
        lemma_pairs_depth_at(m, i + 1, k);
    }
}

pub proof fn lemma_vals_depth_at(l: Seq<ValV>, i: int, k: int)
    requires
        0 <= i <= k < l.len(),
    ensures
        vals_depth(l, i) >= val_depth(l[k]),
    decreases k - i,
{
    if i < k {
        lemma_vals_depth_at(l, i + 1, k);
    }
}

pub proof fn lemma_nodes_depth_at(s: Seq<NodeV>, i: int, k: int)
    requires
        0 <= i <= k < s.len(),
    ensures
        nodes_depth(s, i) >= node_depth(s[k]),
    decreases k - i,
{
    if i < k {
        lemma_nodes_depth_at(s, i + 1, k);
    }
}

pub proof fn lemma_rels_depth_at(s: Seq<RelationshipV>, i: int, k: int)
    requires
        0 <= i <= k < s.len(),
    ensures
        rels_depth(s, i) >= rel_depth(s[k]),
    decreases k - i,
{
    if i < k {
        lemma_rels_depth_at(s, i + 1, k);
    }
}

// ----- the envelope's fields -----------------------------------------------

pub proof fn lemma_env_fields(tag: Seq<char>, pw: WireV)
    ensures
        env(tag, pw) matches WireV::Obj(e) && obj_get(e, "$type"@) == Some(WireV::Str(tag))
            && obj_get(e, "_value"@) == Some(pw),
{
    reveal_strlit("$type");
    reveal_strlit("_value");
    reveal_with_fuel(obj_get, 4);
    let e = seq![("$type"@, WireV::Str(tag)), ("_value"@, pw)];
    assert(e.drop_last() =~= seq![("$type"@, WireV::Str(tag))]);
    assert(e.drop_last().drop_last() =~= Seq::<(Seq<char>, WireV)>::empty());
    assert("$type"@.len() == 5 && "_value"@.len() == 6);
    assert(obj_get(e, "$type"@) == Some(WireV::Str(tag)));
    assert(obj_get(e, "_value"@) == Some(pw));
}

// ----- round trips for the payload pieces ----------------------------------

proof fn lemma_bytes_rt(bs: Seq<u8>, j: int, acc: Seq<u8>)
    requires
        0 <= j <= bs.len(),
    ensures
        dec_bytes(Seq::new(bs.len(), |i: int| WireV::Int(bs[i] as i64)), j, acc) == Ok::<
            Seq<u8>,
            ErrV,
        >(acc + bs.subrange(j, bs.len() as int)),
    decreases bs.len() - j,
{
    let s = Seq::new(bs.len(), |i: int| WireV::Int(bs[i] as i64));
    if j == bs.len() {
        assert(acc + bs.subrange(j, bs.len() as int) =~= acc);
    } else {
        lemma_bytes_rt(bs, j + 1, acc.push(bs[j]));
        assert(acc.push(bs[j]) + bs.subrange(j + 1, bs.len() as int) =~= acc + bs.subrange(
            j,
            bs.len() as int,
        ));
    }
}

proof fn lemma_labels_rt(ls: Seq<Seq<char>>, j: int, acc: Seq<Seq<char>>)
    requires
        0 <= j <= ls.len(),
    ensures
        dec_labels(Seq::new(ls.len(), |i: int| WireV::Str(ls[i])), j, acc) == Ok::<
            Seq<Seq<char>>,
            ErrV,
        >(acc + ls.subrange(j, ls.len() as int)),
    decreases ls.len() - j,
{
    if j == ls.len() {
        assert(acc + ls.subrange(j, ls.len() as int) =~= acc);
    } else {
        lemma_labels_rt(ls, j + 1, acc.push(ls[j]));
        assert(acc.push(ls[j]) + ls.subrange(j + 1, ls.len() as int) =~= acc + ls.subrange(
            j,
            ls.len() as int,
        ));
    }
}

proof fn lemma_entries_rt(m: Seq<(Seq<char>, ValV)>, j: int, fuel: nat)
    requires
        keys_unique(m),
        pairs_wf(m, 0),
        fuel >= pairs_depth(m, 0),
        0 <= j <= m.len(),
    ensures
        dec_entries(enc_entries(m), j, m.subrange(0, j), fuel) == Ok::<
            Seq<(Seq<char>, ValV)>,
            ErrV,
        >(m),
    decreases m, m.len() - j,
{
    let s = enc_entries(m);
    let acc = m.subrange(0, j);
    if j == m.len() {
        assert(acc =~= m);
    } else {
        lemma_pairs_wf_at(m, 0, j);
        lemma_pairs_depth_at(m, 0, j);
        lemma_round_trip(m[j].1, fuel);
        assert(s[j] == (m[j].0, encode_spec(m[j].1)));
        crate::decode::lemma_find_key_props(acc, m[j].0);
        assert(forall|t: int| 0 <= t < acc.len() ==> (#[trigger] acc[t]).0 != m[j].0);
        assert(find_key(acc, m[j].0) == -1);
        assert(upsert(acc, m[j].0, m[j].1) =~= m.subrange(0, j + 1));
        lemma_entries_rt(m, j + 1, fuel);
    }
}

proof fn lemma_items_rt(l: Seq<ValV>, j: int, fuel: nat)
    requires
        vals_wf(l, 0),
        fuel >= vals_depth(l, 0),
        0 <= j <= l.len(),
    ensures
        dec_items(enc_items(l), j, l.subrange(0, j), fuel) == Ok::<Seq<ValV>, ErrV>(l),
    decreases l, l.len() - j,
{
    let acc = l.subrange(0, j);
    if j == l.len() {
        assert(acc =~= l);
    } else {
        lemma_vals_wf_at(l, 0, j);
        lemma_vals_depth_at(l, 0, j);
        lemma_round_trip(l[j], fuel);
        assert(acc.push(l[j]) =~= l.subrange(0, j + 1));
        lemma_items_rt(l, j + 1, fuel);
    }
}

proof fn lemma_node_rt(n: NodeV, fuel: nat)
    requires
        node_wf(n),
        fuel >= node_depth(n),
    ensures
        dec_node(node_payload(n), fuel) == Ok::<NodeV, ErrV>(n),
    decreases n, 2int,
{
    reveal_strlit("_element_id");
    reveal_strlit("_labels");
    reveal_strlit("_properties");
    reveal_with_fuel(obj_get, 6);
    let lw = WireV::Arr(Seq::new(n.labels.len(), |i: int| WireV::Str(n.labels[i])));
    let e = seq![
        ("_element_id"@, WireV::Str(n.element_id)),
        ("_labels"@, lw),
        ("_properties"@, WireV::Obj(enc_entries(n.properties))),
    ];
    assert(e.drop_last() =~= seq![("_element_id"@, WireV::Str(n.element_id)), ("_labels"@, lw)]);
    assert(e.drop_last().drop_last() =~= seq![("_element_id"@, WireV::Str(n.element_id))]);
    assert(e.drop_last().drop_last().drop_last() =~= Seq::<(Seq<char>, WireV)>::empty());
    assert("_element_id"@.len() == 11 && "_labels"@.len() == 7 && "_properties"@.len() == 11);
    assert("_element_id"@[1] == 'e' && "_properties"@[1] == 'p');
    assert("_element_id"@ != "_properties"@);
    let e2 = e.drop_last();
    let e1 = e2.drop_last();
    assert(e.last() == ("_properties"@, WireV::Obj(enc_entries(n.properties))));
    assert(e2.last() == ("_labels"@, lw));
    assert(e1.last() == ("_element_id"@, WireV::Str(n.element_id)));
    assert(obj_get(e1, "_element_id"@) == Some(WireV::Str(n.element_id)));
    assert(obj_get(e2, "_element_id"@) == obj_get(e1, "_element_id"@));
    assert(obj_get(e, "_element_id"@) == obj_get(e2, "_element_id"@));
    assert(obj_get(e2, "_labels"@) == Some(lw));
    assert(obj_get(e, "_labels"@) == obj_get(e2, "_labels"@));
    assert(obj_get(e, "_properties"@) == Some(WireV::Obj(enc_entries(n.properties))));
    lemma_labels_rt(n.labels, 0, Seq::empty());
    assert(Seq::<Seq<char>>::empty() + n.labels.subrange(0, n.labels.len() as int) =~= n.labels);
    assert(fuel >= 1);
    lemma_entries_rt(n.properties, 0, (fuel - 1) as nat);
    assert(n.properties.subrange(0, 0) =~= Seq::<(Seq<char>, ValV)>::empty());
}

proof fn lemma_rel_rt(r: RelationshipV, fuel: nat)
    requires
        rel_wf(r),
        fuel >= rel_depth(r),
    ensures
        dec_rel(rel_payload(r), fuel) == Ok::<RelationshipV, ErrV>(r),
    decreases r, 2int,
{
    reveal_strlit("_element_id");
    reveal_strlit("_type");
    reveal_strlit("_start_node_element_id");
    reveal_strlit("_end_node_element_id");
    reveal_strlit("_properties");
    reveal_with_fuel(obj_get, 8);
    let e = rel_payload(r)->Obj_0;
    assert(e.drop_last() =~= seq![
        ("_element_id"@, WireV::Str(r.element_id)),
        ("_type"@, WireV::Str(r.type_)),
        ("_start_node_element_id"@, WireV::Str(r.start_node_element_id)),
        ("_end_node_element_id"@, WireV::Str(r.end_node_element_id)),
    ]);
    assert(e.drop_last().drop_last() =~= seq![
        ("_element_id"@, WireV::Str(r.element_id)),
        ("_type"@, WireV::Str(r.type_)),
        ("_start_node_element_id"@, WireV::Str(r.start_node_element_id)),
    ]);
    assert(e.drop_last().drop_last().drop_last() =~= seq![
        ("_element_id"@, WireV::Str(r.element_id)),
        ("_type"@, WireV::Str(r.type_)),
    ]);
    assert(e.drop_last().drop_last().drop_last().drop_last() =~= seq![
        ("_element_id"@, WireV::Str(r.element_id)),
    ]);
    assert(e.drop_last().drop_last().drop_last().drop_last().drop_last() =~= Seq::<
        (Seq<char>, WireV),
    >::empty());
    assert("_element_id"@.len() == 11 && "_type"@.len() == 5 && "_start_node_element_id"@.len()
        == 22 && "_end_node_element_id"@.len() == 20 && "_properties"@.len() == 11);
    assert("_element_id"@[1] == 'e' && "_properties"@[1] == 'p');
    assert("_element_id"@ != "_properties"@);
    assert(obj_get(e, "_element_id"@) == Some(WireV::Str(r.element_id)));
    assert(obj_get(e, "_type"@) == Some(WireV::Str(r.type_)));
    assert(obj_get(e, "_start_node_element_id"@) == Some(WireV::Str(r.start_node_element_id)));
    assert(obj_get(e, "_end_node_element_id"@) == Some(WireV::Str(r.end_node_element_id)));
    assert(obj_get(e, "_properties"@) == Some(WireV::Obj(enc_entries(r.properties))));
    assert(fuel >= 1);
    lemma_entries_rt(r.properties, 0, (fuel - 1) as nat);
    assert(r.properties.subrange(0, 0) =~= Seq::<(Seq<char>, ValV)>::empty());
}

/// The fifteen discriminators are pairwise distinct.
pub proof fn lemma_tags_distinct()
    ensures
        "Boolean"@.len() == 7,
        "Integer"@.len() == 7,
        "Float"@.len() == 5,
        "String"@.len() == 6,
        "ByteArray"@.len() == 9,
        "Map"@.len() == 3,
        "List"@.len() == 4,
        "ZonedDateTime"@.len() == 13,
        "DateTime"@.len() == 8,
        "Time"@.len() == 4,
        "Date"@.len() == 4,
        "Duration"@.len() == 8,
        "Node"@.len() == 4,
        "Relationship"@.len() == 12,
        "Path"@.len() == 4,
        "Boolean"@ != "Integer"@,
        "DateTime"@ != "Duration"@,
        "List"@ != "Time"@,
        "List"@ != "Date"@,
        "List"@ != "Node"@,
        "List"@ != "Path"@,
        "Time"@ != "Date"@,
        "Time"@ != "Node"@,
        "Time"@ != "Path"@,
        "Date"@ != "Node"@,
        "Date"@ != "Path"@,
        "Node"@ != "Path"@,
{
    reveal_strlit("Boolean");
    reveal_strlit("Integer");
    reveal_strlit("Float");
    reveal_strlit("String");
    reveal_strlit("ByteArray");
    reveal_strlit("Map");
    reveal_strlit("List");
    reveal_strlit("ZonedDateTime");
    reveal_strlit("DateTime");
    reveal_strlit("Time");
    reveal_strlit("Date");
    reveal_strlit("Duration");
    reveal_strlit("Node");
    reveal_strlit("Relationship");
    reveal_strlit("Path");
    assert("Boolean"@.len() == 7 && "Integer"@.len() == 7 && "Float"@.len() == 5
        && "String"@.len() == 6 && "ByteArray"@.len() == 9 && "Map"@.len() == 3
        && "List"@.len() == 4 && "ZonedDateTime"@.len() == 13 && "DateTime"@.len() == 8
        && "Time"@.len() == 4 && "Date"@.len() == 4 && "Duration"@.len() == 8
        && "Node"@.len() == 4 && "Relationship"@.len() == 12 && "Path"@.len() == 4);
    assert("Boolean"@[0] == 'B' && "Integer"@[0] == 'I' && "List"@[0] == 'L'
        && "Time"@[0] == 'T' && "Date"@[0] == 'D' && "Node"@[0] == 'N' && "Path"@[0] == 'P');
    assert("DateTime"@[1] == 'a' && "Duration"@[1] == 'u' && "Date"@[1] == 'a'
        && "Time"@[1] == 'i');
}

proof fn lemma_dec_path_skip(s: Seq<WireV>, k: int, ns: Seq<NodeV>, rs: Seq<RelationshipV>, fuel: nat)
    requires
        0 <= k <= s.len(),
    ensures
        dec_path(s, k, ns, rs, fuel) == dec_path(
            s.subrange(k, s.len() as int),
            0,
            ns,
            rs,
            fuel,
        ),
    decreases s.len() - k,
{
    let t = s.subrange(k, s.len() as int);
    if k < s.len() {
        assert(t[0] == s[k]);
        match decode_spec(s[k], fuel) {
            Ok(ValV::Vertex(n)) => {
                lemma_dec_path_skip(s, k + 1, ns.push(n), rs, fuel);
                assert(s.subrange(k + 1, s.len() as int) =~= t.subrange(1, t.len() as int));
                lemma_dec_path_skip(t, 1, ns.push(n), rs, fuel);
                assert(dec_path(s, k, ns, rs, fuel) == dec_path(s, k + 1, ns.push(n), rs, fuel));
                assert(dec_path(t, 0, ns, rs, fuel) == dec_path(t, 1, ns.push(n), rs, fuel));
            },
            Ok(ValV::Edge(r)) => {
                lemma_dec_path_skip(s, k + 1, ns, rs.push(r), fuel);
                assert(s.subrange(k + 1, s.len() as int) =~= t.subrange(1, t.len() as int));
                lemma_dec_path_skip(t, 1, ns, rs.push(r), fuel);
                assert(dec_path(s, k, ns, rs, fuel) == dec_path(s, k + 1, ns, rs.push(r), fuel));
                assert(dec_path(t, 0, ns, rs, fuel) == dec_path(t, 1, ns, rs.push(r), fuel));
            },
            _ => {},
        }
    }
}

#[verifier::rlimit(100)]
proof fn lemma_path_rt(p: PathV, i: int, j: int, aN: Seq<NodeV>, aR: Seq<RelationshipV>, fuel: nat)
    requires
        0 <= i <= p.nodes.len(),
        0 <= j <= p.relationships.len(),
        nodes_wf(p.nodes, i),
        rels_wf(p.relationships, j),
        forall|k: int| i <= k < p.nodes.len() ==> fuel >= node_depth(#[trigger] p.nodes[k]),
        forall|k: int| j <= k < p.relationships.len() ==> fuel >= rel_depth(
            #[trigger] p.relationships[k],
        ),
    ensures
        dec_path(
            interleave(
                enc_node_envs(p.nodes.subrange(i, p.nodes.len() as int)),
                enc_rel_envs(p.relationships.subrange(j, p.relationships.len() as int)),
            ),
            0,
            aN,
            aR,
            fuel,
        ) == Ok::<PathV, ErrV>(
            PathV {
                nodes: aN + p.nodes.subrange(i, p.nodes.len() as int),
                relationships: aR + p.relationships.subrange(j, p.relationships.len() as int),
            },
        ),
    decreases p, p.nodes.len() - i + p.relationships.len() - j,
{
    lemma_tags_distinct();
    let nn = p.nodes.len() as int;
    let mm = p.relationships.len() as int;
    let ns = p.nodes.subrange(i, nn);
    let rs = p.relationships.subrange(j, mm);
    let av = enc_node_envs(ns);
    let bv = enc_rel_envs(rs);
    let s = interleave(av, bv);
    if ns.len() == 0 && rs.len() == 0 {
        assert(s =~= Seq::<WireV>::empty());
        assert(aN + ns =~= aN);
        assert(aR + rs =~= aR);
        assert(PathV { nodes: aN + ns, relationships: aR + rs } =~= PathV {
            nodes: aN,
            relationships: aR,
        });
    } else if ns.len() > 0 {
        let n0 = p.nodes[i];
        assert(ns[0] == n0);
        lemma_node_rt(n0, fuel);
        lemma_env_fields("Node"@, node_payload(n0));
        assert(decode_spec(env("Node"@, node_payload(n0)), fuel) == Ok::<ValV, ErrV>(
            ValV::Vertex(n0),
        ));
        let ns1 = p.nodes.subrange(i + 1, nn);
        assert(ns1 =~= ns.subrange(1, ns.len() as int));
        assert(enc_node_envs(ns1) =~= av.subrange(1, av.len() as int));
        if rs.len() > 0 {
            let r0 = p.relationships[j];
            assert(rs[0] == r0);
            lemma_rel_rt(r0, fuel);
            lemma_env_fields("Relationship"@, rel_payload(r0));
            assert(decode_spec(env("Relationship"@, rel_payload(r0)), fuel) == Ok::<ValV, ErrV>(
                ValV::Edge(r0),
            ));
            let rs1 = p.relationships.subrange(j + 1, mm);
            assert(rs1 =~= rs.subrange(1, rs.len() as int));
            assert(enc_rel_envs(rs1) =~= bv.subrange(1, bv.len() as int));
            let tail = interleave(
                av.subrange(1, av.len() as int),
                bv.subrange(1, bv.len() as int),
            );
            assert(s =~= seq![av[0], bv[0]] + tail);
            assert(s[0] == av[0] && s[1] == bv[0]);
            assert(s.subrange(2, s.len() as int) =~= tail);
            lemma_path_rt(p, i + 1, j + 1, aN.push(n0), aR.push(r0), fuel);
            lemma_dec_path_skip(s, 2, aN.push(n0), aR.push(r0), fuel);
            assert(dec_path(s, 0, aN, aR, fuel) == dec_path(s, 1, aN.push(n0), aR, fuel));
            assert(dec_path(s, 1, aN.push(n0), aR, fuel) == dec_path(
                s,
                2,
                aN.push(n0),
                aR.push(r0),
                fuel,
            ));
            assert(aN.push(n0) + ns1 =~= aN + ns);
            assert(aR.push(r0) + rs1 =~= aR + rs);
        } else {
            assert(bv =~= Seq::<WireV>::empty());
            assert(s =~= av);
            assert(s[0] == av[0]);
            assert(p.relationships.subrange(j, mm) =~= rs);
            assert(s.subrange(1, s.len() as int) =~= interleave(
                enc_node_envs(ns1),
                enc_rel_envs(rs),
            ));
            lemma_path_rt(p, i + 1, j, aN.push(n0), aR, fuel);
            lemma_dec_path_skip(s, 1, aN.push(n0), aR, fuel);
            assert(dec_path(s, 0, aN, aR, fuel) == dec_path(s, 1, aN.push(n0), aR, fuel));
            assert(aN.push(n0) + ns1 =~= aN + ns);
        }
    } else {
        let r0 = p.relationships[j];
        assert(rs[0] == r0);
        lemma_rel_rt(r0, fuel);
        lemma_env_fields("Relationship"@, rel_payload(r0));
        assert(decode_spec(env("Relationship"@, rel_payload(r0)), fuel) == Ok::<ValV, ErrV>(
            ValV::Edge(r0),
        ));
        let rs1 = p.relationships.subrange(j + 1, mm);
        assert(rs1 =~= rs.subrange(1, rs.len() as int));
        assert(enc_rel_envs(rs1) =~= bv.subrange(1, bv.len() as int));
        assert(av =~= Seq::<WireV>::empty());
        assert(s =~= bv);
        assert(s[0] == bv[0]);
        assert(s.subrange(1, s.len() as int) =~= interleave(av, enc_rel_envs(rs1)));
        lemma_path_rt(p, i, j + 1, aN, aR.push(r0), fuel);
        lemma_dec_path_skip(s, 1, aN, aR.push(r0), fuel);
        assert(dec_path(s, 0, aN, aR, fuel) == dec_path(s, 1, aN, aR.push(r0), fuel));
        assert(aR.push(r0) + rs1 =~= aR + rs);
    }
}

// ----- the round trip -------------------------------------------------------

/// Decoding the canonical encoding of any well-formed value within the
/// depth bound yields exactly that value: the round trip holds for every
/// scalar, temporal, composite and graph-structure variant.
#[verifier::rlimit(100)]
pub proof fn lemma_round_trip(v: ValV, fuel: nat)
    requires
        val_wf(v),
        fuel >= val_depth(v),
    ensures
        decode_spec(encode_spec(v), fuel) == Ok::<ValV, ErrV>(v),
    decreases v, 0int,
{
    lemma_env_fields(tag_of(v), payload_spec(v));
    lemma_tags_distinct();
    match v {
        ValV::Boolean(_) => {},
        ValV::Integer(i) => {
            lemma_i64_round_trip(i as int);
        },
        ValV::Float(_) => {},
        ValV::Text(_) => {},
        ValV::Bytes(bs) => {
            lemma_bytes_rt(bs, 0, Seq::empty());
            assert(Seq::<u8>::empty() + bs.subrange(0, bs.len() as int) =~= bs);
        },
        ValV::Dict(m) => {
            lemma_entries_rt(m, 0, (fuel - 1) as nat);
            assert(m.subrange(0, 0) =~= Seq::<(Seq<char>, ValV)>::empty());
        },
        ValV::Items(l) => {
            lemma_items_rt(l, 0, (fuel - 1) as nat);
            assert(l.subrange(0, 0) =~= Seq::<ValV>::empty());
        },
        ValV::Zoned(z) => {
            lemma_zdt_round_trip(z);
        },
        ValV::Stamp(dt) => {
            lemma_datetime_round_trip(dt);
        },
        ValV::Clock(t) => {
            lemma_time_round_trip(t);
        },
        ValV::Day(d) => {
            lemma_date_round_trip(d);
        },
        ValV::Span(d) => {
            lemma_duration_round_trip(d);
        },
        ValV::Vertex(n) => {
            lemma_node_rt(n, fuel);
        },
        ValV::Edge(r) => {
            lemma_rel_rt(r, fuel);
        },
        ValV::Walk(p) => {
            assert(forall|k: int| 0 <= k < p.nodes.len() ==> (fuel - 1) >= node_depth(
                #[trigger] p.nodes[k],
            )) by {
                assert forall|k: int| 0 <= k < p.nodes.len() implies (fuel - 1) >= node_depth(
                    p.nodes[k],
                ) by {
                    lemma_nodes_depth_at(p.nodes, 0, k);
                }
            }
            assert(forall|k: int| 0 <= k < p.relationships.len() ==> (fuel - 1) >= rel_depth(
                #[trigger] p.relationships[k],
            )) by {
                assert forall|k: int| 0 <= k < p.relationships.len() implies (fuel - 1)
                    >= rel_depth(p.relationships[k]) by {
                    lemma_rels_depth_at(p.relationships, 0, k);
                }
            }
            lemma_path_rt(p, 0, 0, Seq::empty(), Seq::empty(), (fuel - 1) as nat);
            assert(p.nodes.subrange(0, p.nodes.len() as int) =~= p.nodes);
            assert(p.relationships.subrange(0, p.relationships.len() as int)
                =~= p.relationships);
            assert(Seq::<NodeV>::empty() + p.nodes =~= p.nodes);
            assert(Seq::<RelationshipV>::empty() + p.relationships =~= p.relationships);
            assert(PathV {
                nodes: Seq::<NodeV>::empty() + p.nodes,
                relationships: Seq::<RelationshipV>::empty() + p.relationships,
            } =~= p);
        },
    }
}

/// The round trip at the standard depth bound, as the executable codec
/// uses it.
pub proof fn lemma_round_trip_std(v: ValV)
    requires
        val_wf(v),
        val_depth(v) <= MAX_DEPTH,
    ensures
        decode_spec(encode_spec(v), MAX_DEPTH as nat) == Ok::<ValV, ErrV>(v),
{
    lemma_round_trip(v, MAX_DEPTH as nat);
}


// ----- duplicate keys: the last one listed wins -----------------------------

/// Looking a key up in a decoded map.
pub open spec fn map_lookup(m: Seq<(Seq<char>, ValV)>, k: Seq<char>) -> Option<ValV> {
    let i = find_key(m, k);
    if i < 0 {
        None
    } else {
        Some(m[i].1)
    }
}

proof fn lemma_upsert_lookup(m: Seq<(Seq<char>, ValV)>, k: Seq<char>, v: ValV)
    ensures
        map_lookup(upsert(m, k, v), k) == Some(v),
{
    crate::decode::lemma_find_key_props(m, k);
    let u = upsert(m, k, v);
    crate::decode::lemma_find_key_props(u, k);
    let i = find_key(m, k);
    if i < 0 {
        assert(u == m.push((k, v)));
        assert(u[m.len() as int].0 == k);
        assert(find_key(u, k) == m.len() as int);
    } else {
        assert(u == m.update(i, (k, v)));
        assert(u[i].0 == k);
        assert(find_key(u, k) == i);
    }
}

proof fn lemma_upsert_lookup_other(m: Seq<(Seq<char>, ValV)>, k: Seq<char>, v: ValV, k2: Seq<char>)
    requires
        k2 != k,
    ensures
        map_lookup(upsert(m, k, v), k2) == map_lookup(m, k2),
{
    crate::decode::lemma_find_key_props(m, k);
    crate::decode::lemma_find_key_props(m, k2);
    let u = upsert(m, k, v);
    crate::decode::lemma_find_key_props(u, k2);
    let i = find_key(m, k);
    let r = find_key(m, k2);
    if i < 0 {
        assert(u == m.push((k, v)));
        if r < 0 {
            assert(forall|t: int| 0 <= t < u.len() ==> (#[trigger] u[t]).0 != k2);
            assert(find_key(u, k2) == -1);
        } else {
            assert(u[r].0 == k2);
            assert(find_key(u, k2) == r);
        }
    } else {
        assert(u == m.update(i, (k, v)));
        if r < 0 {
            assert(forall|t: int| 0 <= t < u.len() ==> (#[trigger] u[t]).0 != k2);
            assert(find_key(u, k2) == -1);
        } else {
            assert(r != i);
            assert(u[r].0 == k2);
            assert(forall|t: int| 0 <= t < r ==> (#[trigger] u[t]).0 != k2);
            assert(find_key(u, k2) == r);
        }
    }
}

proof fn lemma_lw_after(
    es: Seq<(Seq<char>, WireV)>,
    i: int,
    acc: Seq<(Seq<char>, ValV)>,
    m: Seq<(Seq<char>, ValV)>,
    k: Seq<char>,
    tv: ValV,
    fuel: nat,
)
    requires
        dec_entries(es, i, acc, fuel) == Ok::<Seq<(Seq<char>, ValV)>, ErrV>(m),
        0 <= i <= es.len(),
        map_lookup(acc, k) == Some(tv),
        forall|b: int| i <= b < es.len() ==> (#[trigger] es[b]).0 != k,
    ensures
        map_lookup(m, k) == Some(tv),
    decreases es.len() - i,
{
    if i < es.len() {
        match decode_spec(es[i].1, fuel) {
            Ok(v) => {
                lemma_upsert_lookup_other(acc, es[i].0, v, k);
                lemma_lw_after(es, i + 1, upsert(acc, es[i].0, v), m, k, tv, fuel);
            },
            Err(_) => {},
        }
    }
}

proof fn lemma_lw_upto(
    es: Seq<(Seq<char>, WireV)>,
    i: int,
    acc: Seq<(Seq<char>, ValV)>,
    m: Seq<(Seq<char>, ValV)>,
    k: Seq<char>,
    a: int,
    fuel: nat,
)
    requires
        dec_entries(es, i, acc, fuel) == Ok::<Seq<(Seq<char>, ValV)>, ErrV>(m),
        0 <= i <= a < es.len(),
        es[a].0 == k,
        forall|b: int| a < b < es.len() ==> (#[trigger] es[b]).0 != k,
    ensures
        decode_spec(es[a].1, fuel) matches Ok(v) && map_lookup(m, k) == Some(v),
    decreases a - i,
{
    match decode_spec(es[i].1, fuel) {
        Ok(v) => {
            if i < a {
                lemma_lw_upto(es, i + 1, upsert(acc, es[i].0, v), m, k, a, fuel);
            } else {
                lemma_upsert_lookup(acc, k, v);
                lemma_lw_after(es, a + 1, upsert(acc, es[a].0, v), m, k, v, fuel);
            }
        },
        Err(_) => {},
    }
}

/// Decoding a Map payload with duplicate keys: the value decoded from
/// the last entry listed for a key is the one the resulting map holds.
pub proof fn lemma_map_last_wins(
    es: Seq<(Seq<char>, WireV)>,
    m: Seq<(Seq<char>, ValV)>,
    k: Seq<char>,
    a: int,
    fuel: nat,
)
    requires
        dec_entries(es, 0, Seq::empty(), fuel) == Ok::<Seq<(Seq<char>, ValV)>, ErrV>(m),
        0 <= a < es.len(),
        es[a].0 == k,
        forall|b: int| a < b < es.len() ==> (#[trigger] es[b]).0 != k,
    ensures
        decode_spec(es[a].1, fuel) matches Ok(v) && map_lookup(m, k) == Some(v),
{
    lemma_lw_upto(es, 0, Seq::empty(), m, k, a, fuel);
}

// ----- a path refuses foreign elements --------------------------------------

proof fn lemma_path_err_from(
    s: Seq<WireV>,
    i: int,
    aN: Seq<NodeV>,
    aR: Seq<RelationshipV>,
    a: int,
    v: ValV,
    fuel: nat,
)
    requires
        0 <= i <= a < s.len(),
        decode_spec(s[a], fuel) == Ok::<ValV, ErrV>(v),
        !(v is Vertex),
        !(v is Edge),
        forall|b: int| 0 <= b < a ==> ((#[trigger] decode_spec(s[b], fuel)) matches Ok(u)
            && (u is Vertex || u is Edge)),
    ensures
        dec_path(s, i, aN, aR, fuel) == Err::<PathV, ErrV>(
            ErrV::UnexpectedPathElement { tag: tag_of(v) },
        ),
    decreases a - i,
{
    if i < a {
        match decode_spec(s[i], fuel) {
            Ok(ValV::Vertex(n)) => {
                lemma_path_err_from(s, i + 1, aN.push(n), aR, a, v, fuel);
            },
            Ok(ValV::Edge(r)) => {
                lemma_path_err_from(s, i + 1, aN, aR.push(r), a, v, fuel);
            },
            _ => {
                assert(((decode_spec(s[i], fuel)) matches Ok(u) && (u is Vertex || u is Edge)));
            },
        }
    }
}

/// A flat path sequence whose elements decode to nodes and relationships
/// up to a position where one decodes to any other variant fails with
/// UnexpectedPathElement carrying that variant's discriminator.
pub proof fn lemma_path_rejects_other(s: Seq<WireV>, a: int, v: ValV, fuel: nat)
    requires
        0 <= a < s.len(),
        decode_spec(s[a], fuel) == Ok::<ValV, ErrV>(v),
        !(v is Vertex),
        !(v is Edge),
        forall|b: int| 0 <= b < a ==> ((#[trigger] decode_spec(s[b], fuel)) matches Ok(u)
            && (u is Vertex || u is Edge)),
    ensures
        dec_path(s, 0, Seq::empty(), Seq::empty(), fuel) == Err::<PathV, ErrV>(
            ErrV::UnexpectedPathElement { tag: tag_of(v) },
        ),
{
    lemma_path_err_from(s, 0, Seq::empty(), Seq::empty(), a, v, fuel);
}


// ----- decoded values are well-formed ---------------------------------------

proof fn lemma_pairs_wf_from(m: Seq<(Seq<char>, ValV)>, i: int, fuel: nat)
    requires
        0 <= i <= m.len(),
        forall|t: int| i <= t < m.len() ==> val_wf((#[trigger] m[t]).1) && val_depth(m[t].1)
            <= fuel,
    ensures
        pairs_wf(m, i),
        pairs_depth(m, i) <= fuel,
    decreases m.len() - i,
{
    if i < m.len() {
        lemma_pairs_wf_from(m, i + 1, fuel);
    }
}

proof fn lemma_vals_wf_from(l: Seq<ValV>, i: int, fuel: nat)
    requires
        0 <= i <= l.len(),
        forall|t: int| i <= t < l.len() ==> val_wf(#[trigger] l[t]) && val_depth(l[t]) <= fuel,
    ensures
        vals_wf(l, i),
        vals_depth(l, i) <= fuel,
    decreases l.len() - i,
{
    if i < l.len() {
        lemma_vals_wf_from(l, i + 1, fuel);
    }
}

proof fn lemma_nodes_wf_from(ns: Seq<NodeV>, i: int, fuel: nat)
    requires
        0 <= i <= ns.len(),
        forall|t: int| i <= t < ns.len() ==> node_wf(#[trigger] ns[t]) && node_depth(ns[t])
            <= fuel,
    ensures
        nodes_wf(ns, i),
        nodes_depth(ns, i) <= fuel,
    decreases ns.len() - i,
{
    if i < ns.len() {
        lemma_nodes_wf_from(ns, i + 1, fuel);
    }
}

proof fn lemma_rels_wf_from(rs: Seq<RelationshipV>, i: int, fuel: nat)
    requires
        0 <= i <= rs.len(),
        forall|t: int| i <= t < rs.len() ==> rel_wf(#[trigger] rs[t]) && rel_depth(rs[t])
            <= fuel,
    ensures
        rels_wf(rs, i),
        rels_depth(rs, i) <= fuel,
    decreases rs.len() - i,
{
    if i < rs.len() {
        lemma_rels_wf_from(rs, i + 1, fuel);
    }
}

proof fn lemma_dec_entries_wf(
    es: Seq<(Seq<char>, WireV)>,
    i: int,
    acc: Seq<(Seq<char>, ValV)>,
    fuel: nat,
)
    requires
        keys_unique(acc),
        forall|t: int| 0 <= t < acc.len() ==> val_wf((#[trigger] acc[t]).1) && val_depth(
            acc[t].1,
        ) <= fuel,
    ensures
        dec_entries(es, i, acc, fuel) matches Ok(m) ==> keys_unique(m) && pairs_wf(m, 0)
            && pairs_depth(m, 0) <= fuel,
    decreases fuel, 3int, es.len() - i,
{
    if 0 <= i < es.len() {
        match decode_spec(es[i].1, fuel) {
            Ok(v) => {
                lemma_decode_wf(es[i].1, fuel);
                let k = es[i].0;
                crate::decode::lemma_find_key_props(acc, k);
                let u = upsert(acc, k, v);
                let fi = find_key(acc, k);
                if fi < 0 {
                    assert(u == acc.push((k, v)));
                    assert(keys_unique(u));
                } else {
                    assert(u == acc.update(fi, (k, v)));
                    assert(forall|t: int| 0 <= t < u.len() ==> (#[trigger] u[t]).0
                        == acc[t].0);
                    assert(keys_unique(u));
                }
                assert(forall|t: int| 0 <= t < u.len() ==> val_wf((#[trigger] u[t]).1)
                    && val_depth(u[t].1) <= fuel);
                lemma_dec_entries_wf(es, i + 1, u, fuel);
            },
            Err(_) => {},
        }
    } else {
        lemma_pairs_wf_from(acc, 0, fuel);
    }
}

proof fn lemma_dec_items_wf(es: Seq<WireV>, i: int, acc: Seq<ValV>, fuel: nat)
    requires
        forall|t: int| 0 <= t < acc.len() ==> val_wf(#[trigger] acc[t]) && val_depth(acc[t])
            <= fuel,
    ensures
        dec_items(es, i, acc, fuel) matches Ok(l) ==> vals_wf(l, 0) && vals_depth(l, 0) <= fuel,
    decreases fuel, 3int, es.len() - i,
{
    if 0 <= i < es.len() {
        match decode_spec(es[i], fuel) {
            Ok(v) => {
                lemma_decode_wf(es[i], fuel);
                lemma_dec_items_wf(es, i + 1, acc.push(v), fuel);
            },
            Err(_) => {},
        }
    } else {
        lemma_vals_wf_from(acc, 0, fuel);
    }
}

proof fn lemma_dec_node_wf(pw: WireV, fuel: nat)
    ensures
        dec_node(pw, fuel) matches Ok(n) ==> node_wf(n) && node_depth(n) <= fuel,
    decreases fuel, 0int, 0int,
{
    match pw {
        WireV::Obj(e) => match obj_get(e, "_properties"@) {
            Some(WireV::Obj(ps)) => {
                if fuel > 0 {
                    lemma_dec_entries_wf(ps, 0, Seq::empty(), (fuel - 1) as nat);
                }
            },
            _ => {},
        },
        _ => {},
    }
}

proof fn lemma_dec_rel_wf(pw: WireV, fuel: nat)
    ensures
        dec_rel(pw, fuel) matches Ok(r) ==> rel_wf(r) && rel_depth(r) <= fuel,
    decreases fuel, 0int, 0int,
{
    match pw {
        WireV::Obj(e) => match obj_get(e, "_properties"@) {
            Some(WireV::Obj(ps)) => {
                if fuel > 0 {
                    lemma_dec_entries_wf(ps, 0, Seq::empty(), (fuel - 1) as nat);
                }
            },
            _ => {},
        },
        _ => {},
    }
}

proof fn lemma_dec_path_wf(
    es: Seq<WireV>,
    i: int,
    aN: Seq<NodeV>,
    aR: Seq<RelationshipV>,
    fuel: nat,
)
    requires
        forall|t: int| 0 <= t < aN.len() ==> node_wf(#[trigger] aN[t]) && node_depth(aN[t])
            <= fuel,
        forall|t: int| 0 <= t < aR.len() ==> rel_wf(#[trigger] aR[t]) && rel_depth(aR[t])
            <= fuel,
    ensures
        dec_path(es, i, aN, aR, fuel) matches Ok(p) ==> nodes_wf(p.nodes, 0) && rels_wf(
            p.relationships,
            0,
        ) && nodes_depth(p.nodes, 0) <= fuel && rels_depth(p.relationships, 0) <= fuel,
    decreases fuel, 3int, es.len() - i,
{
    if 0 <= i < es.len() {
        match decode_spec(es[i], fuel) {
            Ok(ValV::Vertex(n)) => {
                lemma_decode_wf(es[i], fuel);
                lemma_dec_path_wf(es, i + 1, aN.push(n), aR, fuel);
            },
            Ok(ValV::Edge(r)) => {
                lemma_decode_wf(es[i], fuel);
                lemma_dec_path_wf(es, i + 1, aN, aR.push(r), fuel);
            },
            _ => {},
        }
    } else {
        lemma_nodes_wf_from(aN, 0, fuel);
        lemma_rels_wf_from(aR, 0, fuel);
    }
}

proof fn lemma_decode_tagged_wf(tag: Seq<char>, pw: WireV, fuel: nat)
    ensures
        decode_tagged(tag, pw, fuel) matches Ok(v) ==> val_wf(v) && val_depth(v) <= fuel,
    decreases fuel, 1int, 0int,
{
    if tag == "ByteArray"@ {
    } else if tag == "Map"@ {
        match pw {
            WireV::Obj(es) => {
                if fuel > 0 {
                    lemma_dec_entries_wf(es, 0, Seq::empty(), (fuel - 1) as nat);
                }
            },
            _ => {},
        }
    } else if tag == "List"@ {
        match pw {
            WireV::Arr(items) => {
                if fuel > 0 {
                    lemma_dec_items_wf(items, 0, Seq::empty(), (fuel - 1) as nat);
                }
            },
            _ => {},
        }
    } else if tag == "ZonedDateTime"@ {
        match pw {
            WireV::Str(t) => {
                match crate::temporal::zdt_of_text(t) {
                    Some(_) => {
                        crate::temporal::lemma_zdt_of_text_wf(t);
                    },
                    None => {},
                }
            },
            _ => {},
        }
    } else if tag == "DateTime"@ {
        match pw {
            WireV::Str(t) => {
                match crate::temporal::datetime_of_text(t) {
                    Some(_) => {
                        crate::temporal::lemma_datetime_of_text_wf(t);
                    },
                    None => {},
                }
            },
            _ => {},
        }
    } else if tag == "Time"@ {
        match pw {
            WireV::Str(t) => {
                match crate::temporal::time_of_text(t) {
                    Some(_) => {
                        crate::temporal::lemma_time_of_text_wf(t);
                    },
                    None => {},
                }
            },
            _ => {},
        }
    } else if tag == "Date"@ {
        match pw {
            WireV::Str(t) => {
                match crate::temporal::date_of_text(t) {
                    Some(_) => {
                        crate::temporal::lemma_date_of_text_wf(t);
                    },
                    None => {},
                }
            },
            _ => {},
        }
    } else if tag == "Node"@ {
        lemma_dec_node_wf(pw, fuel);
    } else if tag == "Relationship"@ {
        lemma_dec_rel_wf(pw, fuel);
    } else if tag == "Path"@ {
        match pw {
            WireV::Arr(items) => {
                if fuel > 0 {
                    lemma_dec_path_wf(items, 0, Seq::empty(), Seq::empty(), (fuel - 1) as nat);
                }
            },
            _ => {},
        }
    }
}

/// What decoding yields is itself well-formed and within the depth it
/// was decoded at.
pub proof fn lemma_decode_wf(w: WireV, fuel: nat)
    ensures
        decode_spec(w, fuel) matches Ok(v) ==> val_wf(v) && val_depth(v) <= fuel,
    decreases fuel, 2int, 0int,
{
    match w {
        WireV::Obj(entries) => match obj_get(entries, "$type"@) {
            Some(WireV::Str(tag)) => match obj_get(entries, "_value"@) {
                Some(pw) => {
                    lemma_decode_tagged_wf(tag, pw, fuel);
                },
                None => {},
            },
            _ => {},
        },
        _ => {},
    }
}

/// Decode, then encode, then decode: re-encoding a decoded value yields
/// a tree that decodes to the same value, so nested structures survive
/// the full cycle unchanged.
pub proof fn lemma_reencode_stable(w: WireV, v: ValV)
    requires
        decode_spec(w, MAX_DEPTH as nat) == Ok::<ValV, ErrV>(v),
    ensures
        val_wf(v),
        decode_spec(encode_spec(v), MAX_DEPTH as nat) == Ok::<ValV, ErrV>(v),
{
    lemma_decode_wf(w, MAX_DEPTH as nat);
    lemma_round_trip(v, MAX_DEPTH as nat);
}

} // verus!
