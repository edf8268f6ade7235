//! Names of which only a look at the value tells whether they are absolute.

use crate::chain::{Chain, LongChainError};
use crate::compose::Compose;
use crate::dname::{Dname, DnameIter};
use crate::label::MAX_NAME_LEN;
use crate::relative::RelativeDname;
use crate::traits::ToLabelIter;
use bytes::BytesMut;
use vstd::prelude::*;

verus! {

/// A domain name that is either absolute or relative.
///
/// Such a name comes from a source that did not say which of the two it
/// is, for instance from text typed by a user.
#[derive(Debug, PartialEq, Eq)]
pub enum UncertainDname {
    /// The name turned out to be absolute.
    Absolute(Dname),
    /// The name turned out to be relative.
    Relative(RelativeDname),
}

impl UncertainDname {
    /// Whether the name is absolute.
    pub fn is_absolute(&self) -> (b: bool)
        ensures
            b == (self is Absolute),
    {
        match self {
            UncertainDname::Absolute(_) => true,
            UncertainDname::Relative(_) => false,
        }
    }

    /// Chains a name onto the end of this one, to be used in case this name
    /// is relative. Fails when the two together would be longer than 255
    /// octets.
    pub fn chain<N: Compose>(self, other: N) -> (r: Result<
        Chain<UncertainDname, N>,
        LongChainError,
    >)
        ensures
            r == Chain::spec_new(self, other),
            r is Ok <==> self.wire().len() + other.wire().len() <= MAX_NAME_LEN,
            match r {
                Ok(chain) => chain.parts() == (self, other),
                Err(_) => true,
            },
    {
        Chain::new(self, other)
    }
}

impl Clone for UncertainDname {
    fn clone(&self) -> (name: UncertainDname)
        ensures
            name.labels() == self.labels(),
            name is Absolute == self is Absolute,
    {
        match self {
            UncertainDname::Absolute(name) => UncertainDname::Absolute(name.clone()),
            UncertainDname::Relative(name) => UncertainDname::Relative(name.clone()),
        }
    }
}

impl Compose for UncertainDname {
    open spec fn wire(&self) -> Seq<u8> {
        match self {
            UncertainDname::Absolute(name) => name.wire(),
            UncertainDname::Relative(name) => name.wire(),
        }
    }

    fn compose_len(&self) -> (n: usize) {
        match self {
            UncertainDname::Absolute(name) => name.compose_len(),
            UncertainDname::Relative(name) => name.compose_len(),
        }
    }

    fn compose(&self, buf: &mut BytesMut) {
        match self {
            UncertainDname::Absolute(name) => name.compose(buf),
            UncertainDname::Relative(name) => name.compose(buf),
        }
    }
}

impl<'a> ToLabelIter<'a> for UncertainDname {
    type LabelIter = DnameIter<'a>;

    open spec fn labels(&self) -> Seq<Seq<u8>> {
        match self {
            UncertainDname::Absolute(name) => name.labels(),
            UncertainDname::Relative(name) => name.labels(),
        }
    }

    fn iter_labels(&'a self) -> (iter: DnameIter<'a>) {
        match self {
            UncertainDname::Absolute(name) => name.iter_labels(),
            UncertainDname::Relative(name) => name.iter_labels(),
        }
    }
}

} // verus!
