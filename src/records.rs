//! DNS records as the provider lists them, and which of them name subdomains.
use vstd::prelude::*;

use crate::text::{dot_labels, split_on};

verus! {

/// One record of the provider's list: its fully qualified name and its type.
#[derive(Debug)]
pub struct Record {
    pub name: String,
    pub r_type: String,
}

pub struct RecordView {
    pub name: Seq<char>,
    pub r_type: Seq<char>,
}

impl View for Record {
    type V = RecordView;

    open spec fn view(&self) -> RecordView {
        RecordView { name: self.name@, r_type: self.r_type@ }
    }
}

impl Record {
    pub fn new(name: String, r_type: String) -> (r: Record)
        ensures
            r.name == name,
            r.r_type == r_type,
    {
        Record { name, r_type }
    }
}

/// The subdomain label that a record stands for: the first piece of its name,
/// where the record has type `A` and its name has more than two pieces.
pub open spec fn subdomain_label(r: RecordView) -> Option<Seq<char>> {
    if r.r_type == seq!['A'] && split_on(r.name, '.').len() > 2 {
        Some(split_on(r.name, '.')[0])
    } else {
        None
    }
}

/// The subdomain labels of `rs`, in the order of the records.
pub open spec fn subdomain_labels(rs: Seq<RecordView>) -> Seq<Seq<char>>
    decreases rs.len(),
{
    if rs.len() == 0 {
        Seq::empty()
    } else {
        let rest = subdomain_labels(rs.drop_last());
        match subdomain_label(rs.last()) {
            Some(l) => rest.push(l),
            None => rest,
        }
    }
}

/// Where no record is the A record of a subdomain, there are no labels.
pub proof fn lemma_no_subdomain_records(rs: Seq<RecordView>)
    requires
        forall|i: int| 0 <= i < rs.len() ==> subdomain_label(#[trigger] rs[i]) is None,
    ensures
        subdomain_labels(rs) == Seq::<Seq<char>>::empty(),
    decreases rs.len(),
{
    if rs.len() > 0 {
        assert(rs[rs.len() - 1] == rs.last());
        lemma_no_subdomain_records(rs.drop_last());
    }
}

/// There are no more labels than records.
pub proof fn lemma_labels_len(rs: Seq<RecordView>)
    ensures
        subdomain_labels(rs).len() <= rs.len(),
    decreases rs.len(),
{
    if rs.len() > 0 {
        lemma_labels_len(rs.drop_last());
    }
}

pub open spec fn record_views(rs: Seq<Record>) -> Seq<RecordView> {
    rs.map_values(|r: Record| r@)
}

pub open spec fn string_views(v: Seq<String>) -> Seq<Seq<char>> {
    v.map_values(|s: String| s@)
}

/// The label of `r` where it is an A record of a subdomain.
pub fn subdomain_of(r: &Record) -> (l: Option<String>)
    ensures
        match l {
            Some(s) => subdomain_label(r@) == Some(s@),
            None => subdomain_label(r@) is None,
        },
{
    let is_a = r.r_type.unicode_len() == 1 && r.r_type.as_str().get_char(0) == 'A';
    proof {
        if is_a {
            assert(r.r_type@ =~= seq!['A']);
        }
    }
    if !is_a {
        return None;
    }
    let (count, first) = dot_labels(r.name.as_str());
    if count > 2 {
        Some(first)
    } else {
        None
    }
}

/// The labels of the subdomains that hold an A record in `records`, in the
/// order of the list; empty where none does.
pub fn list_a_record_subdomains(records: &Vec<Record>) -> (r: Vec<String>)
    ensures
        string_views(r@) == subdomain_labels(record_views(records@)),
{
    let mut out: Vec<String> = Vec::new();
    let mut k: usize = 0;
    while k < records.len()
        invariant
            k <= records@.len(),
            string_views(out@) == subdomain_labels(record_views(records@.subrange(0, k as int))),
        decreases records@.len() - k,
    {
        let label = subdomain_of(&records[k]);
        proof {
            let views = record_views(records@.subrange(0, k + 1));
            assert(views.drop_last() =~= record_views(records@.subrange(0, k as int)));
            assert(views.last() == records@[k as int]@);
        }
        match label {
            Some(l) => {
                out.push(l);
            },
            None => {},
        }
        proof {
            assert(string_views(out@) =~= subdomain_labels(
                record_views(records@.subrange(0, k + 1)),
            ));
        }
        k = k + 1;
    }
    assert(records@.subrange(0, k as int) =~= records@);
    out
}

} // verus!
