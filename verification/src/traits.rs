//! What the library asks of a domain name.

use crate::compose::Compose;
use crate::label::{labels_wire, Label};
use vstd::prelude::*;

verus! {

/// The contents of a sequence of borrowed labels.
pub open spec fn label_views(labels: Seq<&Label>) -> Seq<Seq<u8>> {
    Seq::new(labels.len(), |i: int| labels[i]@)
}

/// A walk over the labels of a name that can be advanced from either end.
pub trait LabelIterator<'a>: Sized {
    /// The labels that have not been handed out yet, first to last.
    spec fn remaining(&self) -> Seq<Seq<u8>>;

    /// A second walk, over the labels that this one has not handed out yet.
    /// Advancing either of the two leaves the other where it is.
    fn duplicate(&self) -> (copy: Self)
        ensures
            copy.remaining() == self.remaining(),
    ;

    /// Hands out the first remaining label, if there is one.
    fn next(&mut self) -> (item: Option<&'a Label>)
        ensures
            match item {
                Some(label) => {
                    &&& old(self).remaining().len() > 0
                    &&& label@ == old(self).remaining().first()
                    &&& final(self).remaining() == old(self).remaining().drop_first()
                },
                None => {
                    &&& old(self).remaining().len() == 0
                    &&& final(self).remaining() == old(self).remaining()
                },
            },
    ;

    /// Hands out the last remaining label, if there is one.
    fn next_back(&mut self) -> (item: Option<&'a Label>)
        ensures
            match item {
                Some(label) => {
                    &&& old(self).remaining().len() > 0
                    &&& label@ == old(self).remaining().last()
                    &&& final(self).remaining() == old(self).remaining().drop_last()
                },
                None => {
                    &&& old(self).remaining().len() == 0
                    &&& final(self).remaining() == old(self).remaining()
                },
            },
    ;
}

/// A name that can hand out its labels one by one.
pub trait ToLabelIter<'a> {
    /// The walk over the labels of the name.
    type LabelIter: LabelIterator<'a>;

    /// The labels of the name, first to last.
    spec fn labels(&self) -> Seq<Seq<u8>>;

    /// Starts a walk over all labels of the name.
    fn iter_labels(&'a self) -> (iter: Self::LabelIter)
        ensures
            iter.remaining() == self.labels(),
    ;
}

/// A name that is known to be relative: it does not end with the root label
/// and only becomes a usable name once something is chained to it.
pub trait ToRelativeDname: Compose + for<'a> ToLabelIter<'a> {
    /// What the name writes is the encoding of the labels it hands out, one
    /// after the other.
    proof fn lemma_wire_of_labels(&self)
        ensures
            self.wire() == labels_wire(self.labels()),
    ;
}

/// A name that stands for an absolute name: its labels end with the root
/// label.
pub trait ToDname: Compose + for<'a> ToLabelIter<'a> {
    /// What the name writes starts with the encoding of the labels it hands
    /// out. Only a chain on an uncertain name that turned out to be absolute
    /// writes more than that: the second name, which is not part of it.
    proof fn lemma_wire_starts_with_labels(&self)
        ensures
            labels_wire(self.labels()).is_prefix_of(self.wire()),
    ;
}

/// Walks `iter` from the front to its end and returns the labels in the order
/// in which they came.
pub fn collect_labels<'a, I: LabelIterator<'a>>(iter: I) -> (labels: Vec<&'a Label>)
    ensures
        label_views(labels@) == iter.remaining(),
{
    let mut iter = iter;
    let mut labels: Vec<&'a Label> = Vec::new();
    let ghost all = iter.remaining();
    loop
        invariant
            label_views(labels@) + iter.remaining() == all,
        ensures
            label_views(labels@) == all,
        decreases iter.remaining().len(),
    {
        let ghost before = iter.remaining();
        let ghost seen = labels@;
        match iter.next() {
            Some(label) => {
                labels.push(label);
                assert(label_views(labels@) + iter.remaining() == label_views(seen) + before);
            },
            None => {
                assert(label_views(labels@) + iter.remaining() == label_views(labels@));
                break ;
            },
        }
    }
    labels
}

/// Walks `iter` from the back to its start and returns the labels in the
/// order in which they came: the reverse of what a walk from the front gives.
pub fn collect_labels_rev<'a, I: LabelIterator<'a>>(iter: I) -> (labels: Vec<&'a Label>)
    ensures
        label_views(labels@) == iter.remaining().reverse(),
{
    let mut iter = iter;
    let mut labels: Vec<&'a Label> = Vec::new();
    let ghost all = iter.remaining();
    loop
        invariant
            iter.remaining() + label_views(labels@).reverse() == all,
        ensures
            label_views(labels@).reverse() == all,
        decreases iter.remaining().len(),
    {
        let ghost before = iter.remaining();
        let ghost seen = labels@;
        match iter.next_back() {
            Some(label) => {
                labels.push(label);
                assert(iter.remaining() + label_views(labels@).reverse() == before
                    + label_views(seen).reverse());
            },
            None => {
                assert(iter.remaining() + label_views(labels@).reverse() == label_views(
                    labels@,
                ).reverse());
                break ;
            },
        }
    }
    assert(label_views(labels@) == label_views(labels@).reverse().reverse());
    labels
}

} // verus!
