//! The decode source: one layer's data, pulled through the merge engine once.
//!
//! A source signals exactly one of: a unit token, a scalar, an absent or
//! present optional, a list of element sources, or a table of key/value
//! sources.  A table drives both associative tables and named record
//! dispatch; a list drives sequences, sets and positional record dispatch.
//! Any concrete text format is turned into this shape outside the engine.

use vstd::prelude::*;

verus! {

/// One key/value pair pulled from a table-shaped source.
#[derive(Debug, PartialEq, Eq)]
pub struct SourceEntry {
    pub key: String,
    pub value: Source,
}

/// One layer's data for exactly one value.
#[derive(Debug, PartialEq, Eq)]
pub enum Source {
    /// An explicit unit token.
    Unit,
    /// An integer scalar token.
    Int(i64),
    /// A boolean scalar token.
    Bool(bool),
    /// A string token.
    Text(String),
    /// An optional that carries nothing.
    Absent,
    /// An optional that carries a value.
    Present(Box<Source>),
    /// A list of element sources, in pull order.
    List(Vec<Source>),
    /// A table of key/value sources, in pull order.
    Table(Vec<SourceEntry>),
}

/// Mathematical model of a decode source.
pub enum SourceV {
    Unit,
    Int(int),
    Bool(bool),
    Text(Seq<char>),
    Absent,
    Present(Box<SourceV>),
    List(Seq<SourceV>),
    Table(Seq<(Seq<char>, SourceV)>),
}

pub open spec fn view_src(s: Source) -> SourceV
    decreases s,
{
    match s {
        Source::Unit => SourceV::Unit,
        Source::Int(i) => SourceV::Int(i as int),
        Source::Bool(b) => SourceV::Bool(b),
        Source::Text(t) => SourceV::Text(t@),
        Source::Absent => SourceV::Absent,
        Source::Present(b) => SourceV::Present(Box::new(view_src(*b))),
        Source::List(es) => SourceV::List(view_srcs(es@)),
        Source::Table(es) => SourceV::Table(view_src_entries(es@)),
    }
}

pub open spec fn view_srcs(s: Seq<Source>) -> Seq<SourceV>
    decreases s,
{
    if s.len() == 0 {
        Seq::empty()
    } else {
        seq![view_src(s[0])] + view_srcs(s.drop_first())
    }
}

pub open spec fn view_src_entries(s: Seq<SourceEntry>) -> Seq<(Seq<char>, SourceV)>
    decreases s,
{
    if s.len() == 0 {
        Seq::empty()
    } else {
        seq![(s[0].key@, view_src(s[0].value))] + view_src_entries(s.drop_first())
    }
}

pub broadcast proof fn lemma_view_srcs(s: Seq<Source>)
    ensures
        (#[trigger] view_srcs(s)).len() == s.len(),
        forall|i: int| 0 <= i < s.len() ==> view_srcs(s)[i] == view_src(s[i]),
    decreases s,
{
    if s.len() > 0 {
        lemma_view_srcs(s.drop_first());
    }
}

pub broadcast proof fn lemma_view_src_entries(s: Seq<SourceEntry>)
    ensures
        (#[trigger] view_src_entries(s)).len() == s.len(),
        forall|i: int|
            0 <= i < s.len() ==> view_src_entries(s)[i] == (s[i].key@, view_src(s[i].value)),
    decreases s,
{
    if s.len() > 0 {
        lemma_view_src_entries(s.drop_first());
    }
}

} // verus!
