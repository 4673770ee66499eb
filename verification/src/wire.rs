//! In-memory model of one encoded unit of the wire format.
//!
//! The transport syntax (JSON text) is a concern of the surrounding
//! application; the codec itself works on this tree, which holds exactly
//! the shapes the wire format uses: booleans, integers, strings, arrays
//! and objects whose entries keep their written order (so that policies
//! about duplicate keys stay observable).

use vstd::prelude::*;

verus! {

/// One encoded unit of the wire format, as handed over by the transport.
#[derive(Debug, PartialEq)]
pub enum Wire {
    Bool(bool),
    Int(i64),
    Str(String),
    Arr(Vec<Wire>),
    Obj(Vec<(String, Wire)>),
}

/// Mathematical model of a [`Wire`] tree.
#[verifier::ext_equal]
pub enum WireV {
    Bool(bool),
    Int(i64),
    Str(Seq<char>),
    Arr(Seq<WireV>),
    Obj(Seq<(Seq<char>, WireV)>),
}

/// Model of a wire tree: strings become sequences of characters and
/// vectors become sequences.
pub open spec fn wire_view(w: Wire) -> WireV
    decreases w,
{
    match w {
        Wire::Bool(b) => WireV::Bool(b),
        Wire::Int(i) => WireV::Int(i),
        Wire::Str(s) => WireV::Str(s@),
        Wire::Arr(items) => WireV::Arr(wires_view(items@)),
        Wire::Obj(entries) => WireV::Obj(wire_pairs_view(entries@)),
    }
}

pub open spec fn wires_view(s: Seq<Wire>) -> Seq<WireV>
    decreases s,
{
    if s.len() == 0 {
        Seq::empty()
    } else {
        wires_view(s.drop_last()).push(wire_view(s.last()))
    }
}

pub open spec fn wire_pairs_view(s: Seq<(String, Wire)>) -> Seq<(Seq<char>, WireV)>
    decreases s,
{
    if s.len() == 0 {
        Seq::empty()
    } else {
        wire_pairs_view(s.drop_last()).push((s.last().0@, wire_view(s.last().1)))
    }
}

impl View for Wire {
    type V = WireV;

    open spec fn view(&self) -> WireV {
        wire_view(*self)
    }
}

pub broadcast proof fn lemma_wires_view(s: Seq<Wire>)
    ensures
        (#[trigger] wires_view(s)).len() == s.len(),
        forall|i: int| 0 <= i < s.len() ==> wires_view(s)[i] == wire_view(s[i]),
    decreases s,
{
    if s.len() > 0 {
        lemma_wires_view(s.drop_last());
    }
}

pub broadcast proof fn lemma_wire_pairs_view(s: Seq<(String, Wire)>)
    ensures
        (#[trigger] wire_pairs_view(s)).len() == s.len(),
        forall|i: int| 0 <= i < s.len() ==> wire_pairs_view(s)[i]
            == (s[i].0@, wire_view(s[i].1)),
    decreases s,
{
    if s.len() > 0 {
        lemma_wire_pairs_view(s.drop_last());
    }
}

} // verus!
