//! Absolute domain names and the walk over the labels of a flat name.

use crate::compose::{Compose, Compress, Compressor, CompressorView, ShortBuf};
use crate::label::{
    clone_labels, compose_labels, is_absolute, is_relative, labels_len, labels_wire,
    lemma_labels_wire_push, owned_label_views, Label, MAX_NAME_LEN,
};
use crate::traits::{LabelIterator, ToDname, ToLabelIter};
use bytes::BytesMut;
use vstd::prelude::*;

verus! {

/// A domain name that ends with the root label.
#[derive(Debug, PartialEq, Eq)]
pub struct Dname {
    labels: Vec<Label>,
}

impl Dname {
    #[verifier::type_invariant]
    spec fn valid(self) -> bool {
        &&& is_absolute(owned_label_views(self.labels@))
        &&& labels_wire(owned_label_views(self.labels@)).len() <= MAX_NAME_LEN
    }

    /// The name of the root: the root label alone.
    pub fn root() -> (name: Dname)
        ensures
            name.labels() == seq![Seq::<u8>::empty()],
    {
        let mut labels: Vec<Label> = Vec::new();
        labels.push(Label::root());
        proof {
            let views = owned_label_views(labels@);
            assert(views == seq![Seq::<u8>::empty()]);
            assert(views.drop_last() == Seq::<Seq<u8>>::empty());
            lemma_labels_wire_push(Seq::empty(), Seq::empty());
            assert(views == Seq::<Seq<u8>>::empty().push(Seq::<u8>::empty()));
        }
        Dname { labels }
    }

    /// Ends the labels of a relative name with the root label.
    pub(crate) fn from_relative(labels: Vec<Label>) -> (name: Dname)
        requires
            is_relative(owned_label_views(labels@)),
            labels_wire(owned_label_views(labels@)).len() < MAX_NAME_LEN,
        ensures
            name.labels() == owned_label_views(labels@).push(Seq::<u8>::empty()),
    {
        let ghost before = owned_label_views(labels@);
        let mut labels = labels;
        labels.push(Label::root());
        proof {
            let views = owned_label_views(labels@);
            assert(views == before.push(Seq::<u8>::empty()));
            assert(views.drop_last() == before);
            lemma_labels_wire_push(before, Seq::empty());
        }
        Dname { labels }
    }

    /// Whether this is the name of the root.
    pub fn is_root(&self) -> (b: bool)
        ensures
            b == (self.labels().len() == 1),
    {
        self.labels.len() == 1
    }
}

impl Clone for Dname {
    fn clone(&self) -> (name: Dname)
        ensures
            name.labels() == self.labels(),
    {
        proof {
            use_type_invariant(self);
        }
        Dname { labels: clone_labels(&self.labels) }
    }
}

impl<'a> ToLabelIter<'a> for Dname {
    type LabelIter = DnameIter<'a>;

    closed spec fn labels(&self) -> Seq<Seq<u8>> {
        owned_label_views(self.labels@)
    }

    fn iter_labels(&'a self) -> (iter: DnameIter<'a>) {
        DnameIter::new(&self.labels)
    }
}

impl Compose for Dname {
    open spec fn wire(&self) -> Seq<u8> {
        labels_wire(self.labels())
    }

    fn compose_len(&self) -> (n: usize)
        ensures
            n <= MAX_NAME_LEN,
    {
        proof {
            use_type_invariant(self);
        }
        labels_len(&self.labels)
    }

    fn compose(&self, buf: &mut BytesMut) {
        compose_labels(&self.labels, buf)
    }
}

impl ToDname for Dname {
    proof fn lemma_wire_starts_with_labels(&self) {
    }
}

impl Compress for Dname {
    open spec fn compressed_into(&self, state: CompressorView) -> (
        CompressorView,
        Result<(), ShortBuf>,
    ) {
        state.compress_name(self.labels())
    }

    fn compress(&self, buf: &mut Compressor) -> (r: Result<(), ShortBuf>) {
        buf.compress_name(self)
    }
}

/// The walk over the labels of a flat name.
#[derive(Debug)]
pub struct DnameIter<'a> {
    labels: &'a Vec<Label>,
    front: usize,
    back: usize,
}

impl<'a> DnameIter<'a> {
    #[verifier::type_invariant]
    spec fn valid(self) -> bool {
        self.front <= self.back <= self.labels@.len()
    }

    /// Starts a walk over all of `labels`.
    pub(crate) fn new(labels: &'a Vec<Label>) -> (iter: DnameIter<'a>)
        ensures
            iter.remaining() == owned_label_views(labels@),
    {
        let iter = DnameIter { labels, front: 0, back: labels.len() };
        assert(labels@.subrange(0, labels@.len() as int) == labels@);
        iter
    }
}

impl<'a> Clone for DnameIter<'a> {
    fn clone(&self) -> (iter: DnameIter<'a>)
        ensures
            iter.remaining() == self.remaining(),
    {
        proof {
            use_type_invariant(self);
        }
        DnameIter { labels: self.labels, front: self.front, back: self.back }
    }
}

impl<'a> LabelIterator<'a> for DnameIter<'a> {
    closed spec fn remaining(&self) -> Seq<Seq<u8>> {
        owned_label_views(self.labels@.subrange(self.front as int, self.back as int))
    }

    fn duplicate(&self) -> (copy: DnameIter<'a>) {
        self.clone()
    }

    fn next(&mut self) -> (item: Option<&'a Label>) {
        proof {
            use_type_invariant(&*self);
        }
        if self.front < self.back {
            let i = self.front;
            self.front = i + 1;
            assert(self.remaining() == old(self).remaining().drop_first());
            Some(&self.labels[i])
        } else {
            None
        }
    }

    fn next_back(&mut self) -> (item: Option<&'a Label>) {
        proof {
            use_type_invariant(&*self);
        }
        if self.front < self.back {
            let i = self.back - 1;
            self.back = i;
            assert(self.remaining() == old(self).remaining().drop_last());
            Some(&self.labels[i])
        } else {
            None
        }
    }
}

} // verus!
