//! Numbering of node labels (URLs, names, ...) so that a graph of labelled
//! nodes can be built from integer ids.
use vstd::prelude::*;

use crate::graph::{node_ids, rows_of, with_id};

verus! {

/// The ids `0, 1, ..., n - 1`.
pub open spec fn first_ids(n: nat) -> Seq<u64> {
    Seq::new(n, |j: int| j as u64)
}

/// No two labels are equal.
pub open spec fn labels_distinct(labels: Seq<String>) -> bool {
    forall|i: int, j: int| 0 <= i < j < labels.len() ==> (#[trigger] labels[i])@ != (#[trigger] labels[j])@
}

/// Row `i` of `data` names, by position in `labels`, the two labels of row
/// `i` of `rows`.
pub open spec fn numbers_rows(rows: Seq<[String; 2]>, labels: Seq<String>, data: Seq<[u64; 2]>) -> bool {
    &&& data.len() == rows.len()
    &&& forall|i: int|
        0 <= i < data.len() ==> {
            &&& (#[trigger] data[i])@[0] < labels.len()
            &&& data[i]@[1] < labels.len()
            &&& labels[data[i]@[0] as int]@ == rows[i]@[0]@
            &&& labels[data[i]@[1] as int]@ == rows[i]@[1]@
        }
}

/// The position of the label equal to `x`, if any.
fn find_label(labels: &Vec<String>, x: &String) -> (r: Option<usize>)
    ensures
        match r {
            Some(j) => j < labels@.len() && labels@[j as int]@ == x@,
            None => forall|j: int| 0 <= j < labels@.len() ==> (#[trigger] labels@[j])@ != x@,
        },
{
    let mut j: usize = 0;
    while j < labels.len()
        invariant
            j <= labels@.len(),
            forall|k: int| 0 <= k < j ==> (#[trigger] labels@[k])@ != x@,
        decreases labels@.len() - j,
    {
        if labels[j].eq(x) {
            return Some(j);
        }
        j = j + 1;
    }
    None
}

/// The number of the label `x`, appending it to `labels` when it is new.
fn label_number(labels: &mut Vec<String>, x: &String) -> (r: usize)
    requires
        labels_distinct(old(labels)@),
    ensures
        labels_distinct(final(labels)@),
        r < final(labels)@.len(),
        final(labels)@[r as int]@ == x@,
        final(labels)@.len() == old(labels)@.len() || (final(labels)@.len() == old(labels)@.len() + 1
            && r == old(labels)@.len()),
        r < old(labels)@.len() ==> final(labels)@.len() == old(labels)@.len(),
        forall|j: int| 0 <= j < old(labels)@.len() ==> #[trigger] final(labels)@[j] == old(labels)@[j],
{
    match find_label(labels, x) {
        Some(j) => j,
        None => {
            let n = labels.len();
            labels.push(x.clone());
            n
        },
    }
}

/// Numbers the labels of `rows` from 0 in order of first occurrence (each
/// row's first label before its second) and rewrites the rows with those
/// numbers: the graph of the result has node `i` labelled `labels[i]`.
pub fn number_labels(rows: &Vec<[String; 2]>) -> (r: (Vec<String>, Vec<[u64; 2]>))
    ensures
        labels_distinct(r.0@),
        numbers_rows(rows@, r.0@, r.1@),
        node_ids(rows_of(r.1@)) == first_ids(r.0@.len()),
{
    let mut labels: Vec<String> = Vec::new();
    let mut data: Vec<[u64; 2]> = Vec::new();
    let mut i: usize = 0;
    assert(rows_of(data@) =~= Seq::<(u64, u64)>::empty());
    assert(first_ids(0) =~= Seq::<u64>::empty());
    while i < rows.len()
        invariant
            i <= rows@.len(),
            data@.len() == i,
            labels_distinct(labels@),
            labels@.len() <= 2 * i,
            forall|k: int|
                0 <= k < i ==> {
                    &&& (#[trigger] data@[k])@[0] < labels@.len()
                    &&& data@[k]@[1] < labels@.len()
                    &&& labels@[data@[k]@[0] as int]@ == rows@[k]@[0]@
                    &&& labels@[data@[k]@[1] as int]@ == rows@[k]@[1]@
                },
            node_ids(rows_of(data@)) == first_ids(labels@.len()),
        decreases rows@.len() - i,
    {
        let ghost n0 = labels@.len();
        let ja = label_number(&mut labels, &rows[i][0]);
        let ghost n1 = labels@.len();
        let jb = label_number(&mut labels, &rows[i][1]);
        let ghost before = rows_of(data@);
        let row: [u64; 2] = [ja as u64, jb as u64];
        assert(row@[0] == ja as u64 && row@[1] == jb as u64);
        data.push(row);
        let ghost after = rows_of(data@);
        assert(after.drop_last() =~= before);
        assert(after.last() == (ja as u64, jb as u64));
        assert(with_id(first_ids(n0), ja as u64) == first_ids(n1)) by {
            if ja < n0 {
                assert(first_ids(n0)[ja as int] == ja as u64);
            } else {
                assert forall|k: int| 0 <= k < n0 implies first_ids(n0)[k] != ja as u64 by {}
                assert(first_ids(n0).push(ja as u64) =~= first_ids(n1));
            }
        }
        assert(with_id(first_ids(n1), jb as u64) == first_ids(labels@.len())) by {
            if jb < n1 {
                assert(first_ids(n1)[jb as int] == jb as u64);
            } else {
                assert forall|k: int| 0 <= k < n1 implies first_ids(n1)[k] != jb as u64 by {}
                assert(first_ids(n1).push(jb as u64) =~= first_ids(labels@.len()));
            }
        }
        i = i + 1;
    }
    (labels, data)
}

} // verus!
