//! A chain of domain names.

use crate::compose::{Compose, Compress, Compressor, CompressorView, ShortBuf};
use crate::label::{labels_wire, lemma_labels_wire_concat, Label, MAX_NAME_LEN};
use crate::traits::{LabelIterator, ToDname, ToLabelIter, ToRelativeDname};
use crate::uncertain::UncertainDname;
use bytes::BytesMut;
use vstd::prelude::*;
use vstd::string::StringExecFns;

verus! {

/// Chaining domain names would exceed the size limit.
#[derive(Clone, Copy, Debug, PartialEq, Eq, Structural)]
pub struct LongChainError;

impl LongChainError {
    /// The message that describes the error: `long domain name`.
    pub fn to_string(&self) -> (text: String)
        ensures
            text@ == "long domain name"@,
    {
        String::from_str("long domain name")
    }
}

/// The text form of a chain whose two names have the text forms `left` and
/// `right`: the two with a dot between them.
pub fn chain_text(left: &str, right: &str) -> (text: String)
    ensures
        text@ == left@ + seq!['.'] + right@,
{
    let mut text = String::from_str(left);
    text.append(".");
    text.append(right);
    proof {
        reveal_strlit(".");
        assert("."@ == seq!['.']);
    }
    text
}

/// Two domain names chained together.
///
/// The chain stands for the name whose labels are those of the first name
/// followed by those of the second. It owns both names and never copies
/// them into one buffer of its own. A chain only exists if the wire formats of
/// its two names together have at most 255 octets.
///
/// A chain on an [`UncertainDname`] is special: the second name is only used
/// if the uncertain name is relative.
#[derive(Debug)]
pub struct Chain<L: Compose, R: Compose> {
    /// The first domain name.
    left: L,
    /// The second domain name.
    right: R,
}

impl<L: Compose, R: Compose> Chain<L, R> {
    #[verifier::type_invariant]
    spec fn within_limit(self) -> bool {
        Self::fits(self.left, self.right)
    }

    /// Whether `left` and `right` together stay within the size limit of a
    /// domain name.
    pub open spec fn fits(left: L, right: R) -> bool {
        left.wire().len() + right.wire().len() <= MAX_NAME_LEN
    }

    /// The chain made of `left` and `right`.
    pub closed spec fn of(left: L, right: R) -> Self {
        Chain { left, right }
    }

    /// The first name of the chain.
    pub closed spec fn left(self) -> L {
        self.left
    }

    /// The second name of the chain.
    pub closed spec fn right(self) -> R {
        self.right
    }

    /// The two names of the chain.
    pub open spec fn parts(self) -> (L, R) {
        (self.left(), self.right())
    }

    /// What [`Chain::new`] returns.
    pub open spec fn spec_new(left: L, right: R) -> Result<Self, LongChainError> {
        if Self::fits(left, right) {
            Ok(Self::of(left, right))
        } else {
            Err(LongChainError)
        }
    }

    /// A chain is made of its two names and of nothing else.
    pub proof fn lemma_of(left: L, right: R)
        ensures
            Self::of(left, right).left() == left,
            Self::of(left, right).right() == right,
    {
    }

    /// Creates a new chain from a first and second name.
    ///
    /// Fails if the wire formats of the two names together are longer than
    /// 255 octets. Both names are dropped in that case.
    pub fn new(left: L, right: R) -> (r: Result<Self, LongChainError>)
        ensures
            r == Self::spec_new(left, right),
            r is Ok <==> left.wire().len() + right.wire().len() <= MAX_NAME_LEN,
            match r {
                Ok(chain) => chain.parts() == (left, right),
                Err(_) => true,
            },
    {
        let left_len = left.compose_len();
        let right_len = right.compose_len();
        if left_len > MAX_NAME_LEN || right_len > MAX_NAME_LEN - left_len {
            Err(LongChainError)
        } else {
            Ok(Chain { left, right })
        }
    }

    /// Unwraps the chain into its two constituent components.
    pub fn unwrap(self) -> (parts: (L, R))
        ensures
            parts == self.parts(),
    {
        (self.left, self.right)
    }
}

impl<L: ToRelativeDname, R: Compose> Chain<L, R> {
    /// Extends the chain with another domain name.
    ///
    /// The chain becomes the first name of the new chain. Fails if the new
    /// chain would be longer than 255 octets.
    pub fn chain<N: Compose>(self, other: N) -> (r: Result<Chain<Self, N>, LongChainError>)
        ensures
            r == Chain::spec_new(self, other),
            r is Ok <==> self.wire().len() + other.wire().len() <= MAX_NAME_LEN,
            match r {
                Ok(chain) => chain.parts() == (self, other),
                Err(_) => true,
            },
    {
        Chain::new(self, other)
    }
}

impl<L: Compose, R: Compose> Compose for Chain<L, R> {
    open spec fn wire(&self) -> Seq<u8> {
        self.left().wire() + self.right().wire()
    }

    fn compose_len(&self) -> (n: usize)
        ensures
            n == self.left().wire().len() + self.right().wire().len(),
            n <= MAX_NAME_LEN,
    {
        proof {
            use_type_invariant(self);
        }
        self.left.compose_len() + self.right.compose_len()
    }

    fn compose(&self, buf: &mut BytesMut) {
        self.left.compose(buf);
        self.right.compose(buf)
    }
}

/// The labels of a chain on a relative name: those of the first name, then
/// those of the second, each label as it is.
impl<'a, L: ToRelativeDname, R: Compose + for <'r>ToLabelIter<'r>> ToLabelIter<'a> for Chain<L, R> {
    type LabelIter = ChainIter<'a, L, R>;

    open spec fn labels(&self) -> Seq<Seq<u8>> {
        self.left().labels() + self.right().labels()
    }

    fn iter_labels(&'a self) -> (iter: ChainIter<'a, L, R>) {
        let left = self.left.iter_labels();
        let right = self.right.iter_labels();
        let iter = ChainIter { left, right: Some(right) };
        assert(iter.remaining() == self.left.labels() + self.right.labels());
        iter
    }
}

impl<L: ToRelativeDname, R: ToRelativeDname> ToRelativeDname for Chain<L, R> {
    proof fn lemma_wire_of_labels(&self) {
        self.left().lemma_wire_of_labels();
        self.right().lemma_wire_of_labels();
        lemma_labels_wire_concat(self.left().labels(), self.right().labels());
    }
}

impl<L: ToRelativeDname, R: ToDname> ToDname for Chain<L, R> {
    proof fn lemma_wire_starts_with_labels(&self) {
        self.left().lemma_wire_of_labels();
        self.right().lemma_wire_starts_with_labels();
        lemma_labels_wire_concat(self.left().labels(), self.right().labels());
        lemma_prefix_after(
            self.left().wire(),
            labels_wire(self.right().labels()),
            self.right().wire(),
        );
    }
}

impl<L: ToRelativeDname, R: ToDname> Compress for Chain<L, R> {
    open spec fn compressed_into(&self, state: CompressorView) -> (
        CompressorView,
        Result<(), ShortBuf>,
    ) {
        state.compress_name(self.labels())
    }

    /// Appends the chained name to the message, compressed as one name.
    fn compress(&self, buf: &mut Compressor) -> (r: Result<(), ShortBuf>)
        ensures
            (final(buf)@, r) == old(buf)@.compress_name(
                self.left().labels() + self.right().labels(),
            ),
    {
        buf.compress_name(self)
    }
}

/// The labels of a chain on an uncertain name.
///
/// An uncertain name that is absolute is complete on its own: the chain then
/// has its labels and no others, and the second name is left out. An
/// uncertain name that is relative is continued by the second name, as in any
/// other chain.
impl<'a, R: ToDname> ToLabelIter<'a> for Chain<UncertainDname, R> {
    type LabelIter = ChainIter<'a, UncertainDname, R>;

    open spec fn labels(&self) -> Seq<Seq<u8>> {
        if self.left() is Absolute {
            self.left().labels()
        } else {
            self.left().labels() + self.right().labels()
        }
    }

    fn iter_labels(&'a self) -> (iter: ChainIter<'a, UncertainDname, R>) {
        let left = self.left.iter_labels();
        if self.left.is_absolute() {
            let iter = ChainIter { left, right: None };
            assert(iter.remaining() == self.left.labels());
            iter
        } else {
            let right = self.right.iter_labels();
            let iter = ChainIter { left, right: Some(right) };
            assert(iter.remaining() == self.left.labels() + self.right.labels());
            iter
        }
    }
}

impl<R: ToDname> ToDname for Chain<UncertainDname, R> {
    proof fn lemma_wire_starts_with_labels(&self) {
        let left = self.left().wire();
        if self.left() is Absolute {
            lemma_prefix_after(left, Seq::empty(), self.right().wire());
            assert(left + Seq::<u8>::empty() == left);
        } else {
            self.right().lemma_wire_starts_with_labels();
            lemma_labels_wire_concat(self.left().labels(), self.right().labels());
            lemma_prefix_after(left, labels_wire(self.right().labels()), self.right().wire());
        }
    }
}

impl<R: ToDname> Compress for Chain<UncertainDname, R> {
    open spec fn compressed_into(&self, state: CompressorView) -> (
        CompressorView,
        Result<(), ShortBuf>,
    ) {
        state.compress_name(self.labels())
    }

    /// Appends the chained name to the message.
    ///
    /// If the first name is absolute, it alone is compressed and nothing of
    /// the second name reaches the message. Otherwise the chain is
    /// compressed as one name.
    fn compress(&self, buf: &mut Compressor) -> (r: Result<(), ShortBuf>)
        ensures
            self.left() is Absolute ==> (final(buf)@, r) == old(buf)@.compress_name(
                self.left().labels(),
            ),
            !(self.left() is Absolute) ==> (final(buf)@, r) == old(buf)@.compress_name(
                self.left().labels() + self.right().labels(),
            ),
    {
        if let UncertainDname::Absolute(ref name) = self.left {
            buf.compress_name(name)
        } else {
            buf.compress_name(self)
        }
    }
}

/// The label iterator for chained domain names.
///
/// It hands out the labels of the first name and then, unless the second
/// name is left out, those of the second. From the back it hands them out in
/// the reverse order.
#[derive(Debug)]
pub struct ChainIter<'a, L: ToLabelIter<'a>, R: ToLabelIter<'a>> {
    /// The walk over the first name.
    left: L::LabelIter,
    /// The walk over the second name, if that name is part of the chain.
    right: Option<R::LabelIter>,
}

impl<'a, L: ToLabelIter<'a>, R: ToLabelIter<'a>> Clone for ChainIter<'a, L, R> {
    fn clone(&self) -> (iter: ChainIter<'a, L, R>)
        ensures
            iter.remaining() == self.remaining(),
    {
        self.duplicate()
    }
}

impl<'a, L: ToLabelIter<'a>, R: ToLabelIter<'a>> LabelIterator<'a> for ChainIter<'a, L, R> {
    closed spec fn remaining(&self) -> Seq<Seq<u8>> {
        match self.right {
            Some(right) => self.left.remaining() + right.remaining(),
            None => self.left.remaining(),
        }
    }

    fn duplicate(&self) -> (copy: ChainIter<'a, L, R>) {
        let left = self.left.duplicate();
        let right = match &self.right {
            Some(right) => Some(right.duplicate()),
            None => None,
        };
        ChainIter { left, right }
    }

    fn next(&mut self) -> (item: Option<&'a Label>) {
        match self.left.next() {
            Some(label) => Some(label),
            None => match &mut self.right {
                Some(right) => right.next(),
                None => None,
            },
        }
    }

    fn next_back(&mut self) -> (item: Option<&'a Label>) {
        match &mut self.right {
            Some(right) => match right.next_back() {
                Some(label) => Some(label),
                None => self.left.next_back(),
            },
            None => self.left.next_back(),
        }
    }
}

/// A chain of two names exists exactly if their wire formats together have
/// at most 255 octets. Its wire format is then that of the first name
/// followed by that of the second, so that its length is the sum of theirs.
pub proof fn lemma_new_wire<L: Compose, R: Compose>(left: L, right: R)
    ensures
        match Chain::spec_new(left, right) {
            Ok(chain) => {
                &&& chain.wire() == left.wire() + right.wire()
                &&& chain.wire().len() == left.wire().len() + right.wire().len()
                &&& chain.wire().len() <= MAX_NAME_LEN
            },
            Err(_) => left.wire().len() + right.wire().len() > MAX_NAME_LEN,
        },
{
    Chain::lemma_of(left, right);
}

/// Chaining three names one link at a time succeeds exactly if the wire
/// formats of all three together have at most 255 octets, whichever two are
/// chained first.
pub proof fn lemma_rechain<A: Compose, B: Compose, C: Compose>(a: A, b: B, c: C)
    ensures
        (Chain::spec_new(a, b) matches Ok(ab) && Chain::spec_new(ab, c) is Ok) <==> a.wire().len()
            + b.wire().len() + c.wire().len() <= MAX_NAME_LEN,
        (Chain::spec_new(b, c) matches Ok(bc) && Chain::spec_new(a, bc) is Ok) <==> a.wire().len()
            + b.wire().len() + c.wire().len() <= MAX_NAME_LEN,
{
    Chain::lemma_of(a, b);
    Chain::lemma_of(b, c);
}

/// Taking a new chain apart gives back the two names it was made of.
pub proof fn lemma_unwrap_new<L: Compose, R: Compose>(left: L, right: R)
    requires
        Chain::fits(left, right),
    ensures
        Chain::spec_new(left, right) matches Ok(chain) && chain.parts() == (left, right),
{
    Chain::lemma_of(left, right);
}

/// Putting the same octets in front of two sequences keeps one a prefix of
/// the other.
proof fn lemma_prefix_after(front: Seq<u8>, short: Seq<u8>, long: Seq<u8>)
    requires
        short.is_prefix_of(long),
    ensures
        (front + short).is_prefix_of(front + long),
{
    assert((front + long).subrange(0, (front + short).len() as int) == front + short);
}

} // verus!
