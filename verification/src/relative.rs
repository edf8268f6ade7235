//! Relative domain names.

use crate::chain::{Chain, LongChainError};
use crate::compose::Compose;
use crate::dname::{Dname, DnameIter};
use crate::label::{
    clone_labels, compose_labels, is_relative, labels_len, labels_wire, lemma_labels_wire_push,
    lemma_labels_wire_split, owned_label_views, Label, MAX_LABEL_LEN, MAX_NAME_LEN,
};
use crate::traits::{ToLabelIter, ToRelativeDname};
use bytes::BytesMut;
use vstd::prelude::*;

verus! {

/// The most octets the wire format of a relative name can have: one less
/// than that of an absolute name, to leave room for the root label.
pub const MAX_RELATIVE_LEN: usize = 254;

/// Why a sequence of labels is not a relative name.
#[derive(Clone, Copy, Debug, PartialEq, Eq, Structural)]
pub enum RelativeDnameError {
    /// One of the labels is empty.
    EmptyLabel,
    /// The wire format would be longer than 254 octets.
    LongName,
}

/// A domain name that does not end with the root label.
#[derive(Debug, PartialEq, Eq)]
pub struct RelativeDname {
    labels: Vec<Label>,
}

/// Whether one of `labels` is empty.
pub open spec fn has_empty_label(labels: Seq<Seq<u8>>) -> bool {
    exists|i: int| 0 <= i < labels.len() && (#[trigger] labels[i]).len() == 0
}

impl RelativeDname {
    #[verifier::type_invariant]
    spec fn valid(self) -> bool {
        &&& is_relative(owned_label_views(self.labels@))
        &&& labels_wire(owned_label_views(self.labels@)).len() <= MAX_RELATIVE_LEN
    }

    /// The name without any labels.
    pub fn empty() -> (name: RelativeDname)
        ensures
            name.labels() == Seq::<Seq<u8>>::empty(),
    {
        let labels: Vec<Label> = Vec::new();
        assert(owned_label_views(labels@) == Seq::<Seq<u8>>::empty());
        RelativeDname { labels }
    }

    /// Makes a relative name out of its labels.
    ///
    /// Fails with `EmptyLabel` when one of the labels is empty, and otherwise
    /// with `LongName` when the labels encode to more than 254 octets.
    pub fn from_labels(labels: Vec<Label>) -> (r: Result<RelativeDname, RelativeDnameError>)
        ensures
            match r {
                Ok(name) => {
                    &&& name.labels() == owned_label_views(labels@)
                    &&& !has_empty_label(owned_label_views(labels@))
                    &&& labels_wire(owned_label_views(labels@)).len() <= MAX_RELATIVE_LEN
                },
                Err(RelativeDnameError::EmptyLabel) => has_empty_label(owned_label_views(labels@)),
                Err(RelativeDnameError::LongName) => {
                    &&& !has_empty_label(owned_label_views(labels@))
                    &&& labels_wire(owned_label_views(labels@)).len() > MAX_RELATIVE_LEN
                },
            },
    {
        let ghost views = owned_label_views(labels@);
        let n = labels.len();
        let mut i: usize = 0;
        while i < n
            invariant
                n == labels.len(),
                views == owned_label_views(labels@),
                i <= n,
                forall|j: int| 0 <= j < i ==> 1 <= (#[trigger] views[j]).len() <= MAX_LABEL_LEN,
            decreases n - i,
        {
            let k = labels[i].len();
            assert(views[i as int].len() == k);
            if k == 0 {
                return Err(RelativeDnameError::EmptyLabel);
            }
            i = i + 1;
        }
        assert(!has_empty_label(views));
        let mut len: usize = 0;
        i = 0;
        while i < n
            invariant
                n == labels.len(),
                views == owned_label_views(labels@),
                !has_empty_label(views),
                i <= n,
                len == labels_wire(views.take(i as int)).len(),
                len <= MAX_RELATIVE_LEN,
            decreases n - i,
        {
            let k = labels[i].len();
            proof {
                assert(views[i as int].len() == k);
                assert(views.take(i + 1) == views.take(i as int).push(views[i as int]));
                lemma_labels_wire_push(views.take(i as int), views[i as int]);
                lemma_labels_wire_split(views, i + 1);
            }
            len = len + k + 1;
            if len > MAX_RELATIVE_LEN {
                return Err(RelativeDnameError::LongName);
            }
            i = i + 1;
        }
        assert(views.take(n as int) == views);
        Ok(RelativeDname { labels })
    }

    /// Turns the name into an absolute name by appending the root label.
    pub fn into_absolute(self) -> (name: Dname)
        ensures
            name.labels() == self.labels().push(Seq::<u8>::empty()),
    {
        proof {
            use_type_invariant(&self);
        }
        Dname::from_relative(self.labels)
    }

    /// Chains another name onto the end of this one. Fails when the two
    /// together would be longer than 255 octets.
    pub fn chain<N: Compose>(self, other: N) -> (r: Result<Chain<RelativeDname, N>, LongChainError>)
        ensures
            r == Chain::spec_new(self, other),
            r is Ok <==> self.wire().len() + other.wire().len() <= MAX_NAME_LEN,
            match r {
                Ok(chain) => chain.parts() == (self, other),
                Err(_) => true,
            },
    {
        Chain::new(self, other)
    }
}

impl Clone for RelativeDname {
    fn clone(&self) -> (name: RelativeDname)
        ensures
            name.labels() == self.labels(),
    {
        proof {
            use_type_invariant(self);
        }
        RelativeDname { labels: clone_labels(&self.labels) }
    }
}

impl<'a> ToLabelIter<'a> for RelativeDname {
    type LabelIter = DnameIter<'a>;

    closed spec fn labels(&self) -> Seq<Seq<u8>> {
        owned_label_views(self.labels@)
    }

    fn iter_labels(&'a self) -> (iter: DnameIter<'a>) {
        DnameIter::new(&self.labels)
    }
}

impl Compose for RelativeDname {
    open spec fn wire(&self) -> Seq<u8> {
        labels_wire(self.labels())
    }

    fn compose_len(&self) -> (n: usize)
        ensures
            n <= MAX_RELATIVE_LEN,
    {
        proof {
            use_type_invariant(self);
        }
        labels_len(&self.labels)
    }

    fn compose(&self, buf: &mut BytesMut) {
        compose_labels(&self.labels, buf)
    }
}

impl ToRelativeDname for RelativeDname {
    proof fn lemma_wire_of_labels(&self) {
    }
}

} // verus!
