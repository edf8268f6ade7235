//! Domain name labels and their wire encoding.

use crate::buf::{buf_bytes, put_slice, put_u8};
use crate::compose::Compose;
use bytes::BytesMut;
use vstd::prelude::*;
use vstd::slice::slice_to_vec;

verus! {

/// The most octets a label can hold.
pub const MAX_LABEL_LEN: usize = 63;

/// The most octets the wire format of a domain name can have.
pub const MAX_NAME_LEN: usize = 255;

/// The wire format of one label: its length octet, then its content.
pub open spec fn label_wire(label: Seq<u8>) -> Seq<u8> {
    seq![label.len() as u8] + label
}

/// The wire format of a sequence of labels: the encodings of the labels, one
/// after the other, with nothing between them.
pub open spec fn labels_wire(labels: Seq<Seq<u8>>) -> Seq<u8>
    decreases labels.len(),
{
    if labels.len() == 0 {
        Seq::empty()
    } else {
        label_wire(labels.first()) + labels_wire(labels.drop_first())
    }
}

/// Whether `labels` form a relative name: no label is empty and none is
/// longer than 63 octets.
pub open spec fn is_relative(labels: Seq<Seq<u8>>) -> bool {
    forall|i: int| 0 <= i < labels.len() ==> 1 <= (#[trigger] labels[i]).len() <= MAX_LABEL_LEN
}

/// Whether `labels` form an absolute name: a relative name followed by the
/// empty root label.
pub open spec fn is_absolute(labels: Seq<Seq<u8>>) -> bool {
    &&& labels.len() > 0
    &&& labels.last().len() == 0
    &&& is_relative(labels.drop_last())
}

/// The encoding of a concatenation is the concatenation of the encodings.
pub proof fn lemma_labels_wire_concat(a: Seq<Seq<u8>>, b: Seq<Seq<u8>>)
    ensures
        labels_wire(a + b) == labels_wire(a) + labels_wire(b),
    decreases a.len(),
{
    if a.len() == 0 {
        assert(a + b == b);
    } else {
        lemma_labels_wire_concat(a.drop_first(), b);
        assert((a + b).drop_first() == a.drop_first() + b);
        assert((a + b).first() == a.first());
    }
}

/// The encoding of a single label sequence.
pub proof fn lemma_labels_wire_single(label: Seq<u8>)
    ensures
        labels_wire(seq![label]) == label_wire(label),
{
    let s = seq![label];
    assert(s.drop_first() == Seq::<Seq<u8>>::empty());
    assert(labels_wire(s.drop_first()) == Seq::<u8>::empty());
    assert(s.first() == label);
}

/// Appending one label appends its encoding.
pub proof fn lemma_labels_wire_push(labels: Seq<Seq<u8>>, label: Seq<u8>)
    ensures
        labels_wire(labels.push(label)) == labels_wire(labels) + label_wire(label),
{
    lemma_labels_wire_concat(labels, seq![label]);
    lemma_labels_wire_single(label);
    assert(labels.push(label) == labels + seq![label]);
}

/// A leading part of a label sequence encodes to no more octets than the
/// whole, and the rest accounts for the difference.
pub proof fn lemma_labels_wire_split(labels: Seq<Seq<u8>>, at: int)
    requires
        0 <= at <= labels.len(),
    ensures
        labels_wire(labels) == labels_wire(labels.take(at)) + labels_wire(labels.skip(at)),
        labels_wire(labels.take(at)).len() <= labels_wire(labels).len(),
{
    assert(labels == labels.take(at) + labels.skip(at));
    lemma_labels_wire_concat(labels.take(at), labels.skip(at));
}

/// Relative followed by relative is relative.
pub proof fn lemma_relative_concat(a: Seq<Seq<u8>>, b: Seq<Seq<u8>>)
    requires
        is_relative(a),
        is_relative(b),
    ensures
        is_relative(a + b),
{
    assert forall|i: int| 0 <= i < (a + b).len() implies 1 <= (#[trigger] (a + b)[i]).len()
        <= MAX_LABEL_LEN by {
        if i < a.len() {
            assert((a + b)[i] == a[i]);
        } else {
            assert((a + b)[i] == b[i - a.len()]);
        }
    }
}

/// Relative followed by absolute is absolute.
pub proof fn lemma_absolute_concat(a: Seq<Seq<u8>>, b: Seq<Seq<u8>>)
    requires
        is_relative(a),
        is_absolute(b),
    ensures
        is_absolute(a + b),
{
    lemma_relative_concat(a, b.drop_last());
    assert((a + b).drop_last() == a + b.drop_last());
    assert((a + b).last() == b.last());
}

/// The contents of a sequence of labels.
pub open spec fn owned_label_views(labels: Seq<Label>) -> Seq<Seq<u8>> {
    Seq::new(labels.len(), |i: int| labels[i]@)
}

/// A label would be longer than 63 octets.
#[derive(Clone, Copy, Debug, PartialEq, Eq, Structural)]
pub struct LongLabelError;

/// One label of a domain name: at most 63 octets.
#[derive(Debug, PartialEq, Eq)]
pub struct Label {
    bytes: Vec<u8>,
}

impl View for Label {
    type V = Seq<u8>;

    closed spec fn view(&self) -> Seq<u8> {
        self.bytes@
    }
}

impl Label {
    #[verifier::type_invariant]
    spec fn valid(self) -> bool {
        self.bytes@.len() <= MAX_LABEL_LEN
    }

    /// Makes a label out of its content. Fails when the content is longer
    /// than 63 octets.
    pub fn from_slice(bytes: &[u8]) -> (r: Result<Label, LongLabelError>)
        ensures
            match r {
                Ok(label) => bytes@.len() <= MAX_LABEL_LEN && label@ == bytes@,
                Err(_) => bytes@.len() > MAX_LABEL_LEN,
            },
    {
        if bytes.len() > MAX_LABEL_LEN {
            Err(LongLabelError)
        } else {
            Ok(Label { bytes: slice_to_vec(bytes) })
        }
    }

    /// The root label, which is empty.
    pub fn root() -> (label: Label)
        ensures
            label@ == Seq::<u8>::empty(),
    {
        Label { bytes: Vec::new() }
    }

    /// The number of octets of the content.
    pub fn len(&self) -> (n: usize)
        ensures
            n == self@.len(),
            n <= MAX_LABEL_LEN,
    {
        proof {
            use_type_invariant(self);
        }
        self.bytes.len()
    }

    /// Whether this is the root label.
    pub fn is_root(&self) -> (b: bool)
        ensures
            b == (self@.len() == 0),
    {
        self.bytes.len() == 0
    }

    /// The content of the label.
    pub fn as_slice(&self) -> (s: &[u8])
        ensures
            s@ == self@,
    {
        self.bytes.as_slice()
    }
}

impl Clone for Label {
    fn clone(&self) -> (label: Label)
        ensures
            label@ == self@,
    {
        proof {
            use_type_invariant(self);
        }
        let bytes = self.bytes.clone();
        assert(bytes@ =~= self.bytes@);
        Label { bytes }
    }
}

impl Compose for Label {
    open spec fn wire(&self) -> Seq<u8> {
        label_wire(self@)
    }

    fn compose_len(&self) -> (n: usize) {
        self.len() + 1
    }

    fn compose(&self, buf: &mut BytesMut) {
        let n = self.len();
        assert(self.wire().len() == n + 1);
        put_u8(buf, n as u8);
        put_slice(buf, self.bytes.as_slice());
        assert(buf_bytes(*buf) == buf_bytes(*old(buf)) + self.wire());
    }
}

/// Copies a sequence of labels.
pub(crate) fn clone_labels(labels: &Vec<Label>) -> (copy: Vec<Label>)
    ensures
        owned_label_views(copy@) == owned_label_views(labels@),
{
    let mut copy: Vec<Label> = Vec::new();
    let mut i: usize = 0;
    while i < labels.len()
        invariant
            i <= labels.len(),
            copy@.len() == i,
            forall|j: int| 0 <= j < i ==> (#[trigger] copy@[j])@ == labels@[j]@,
        decreases labels.len() - i,
    {
        let label = labels[i].clone();
        copy.push(label);
        i = i + 1;
    }
    assert(owned_label_views(copy@) =~= owned_label_views(labels@));
    copy
}

/// The number of octets that `labels` encode to.
pub(crate) fn labels_len(labels: &Vec<Label>) -> (n: usize)
    requires
        labels_wire(owned_label_views(labels@)).len() <= MAX_NAME_LEN,
    ensures
        n == labels_wire(owned_label_views(labels@)).len(),
{
    let ghost views = owned_label_views(labels@);
    let mut n: usize = 0;
    let mut i: usize = 0;
    while i < labels.len()
        invariant
            views == owned_label_views(labels@),
            labels_wire(views).len() <= MAX_NAME_LEN,
            i <= labels.len(),
            n == labels_wire(views.take(i as int)).len(),
        decreases labels.len() - i,
    {
        let k = labels[i].len();
        proof {
            assert(views[i as int].len() == k);
            assert(views.take(i + 1) == views.take(i as int).push(views[i as int]));
            lemma_labels_wire_push(views.take(i as int), views[i as int]);
            lemma_labels_wire_split(views, i + 1);
        }
        n = n + k + 1;
        i = i + 1;
    }
    assert(views.take(labels.len() as int) == views);
    n
}

/// Appends the encoding of `labels` to `buf`.
pub(crate) fn compose_labels(labels: &Vec<Label>, buf: &mut BytesMut)
    requires
        buf_bytes(*old(buf)).len() + labels_wire(owned_label_views(labels@)).len() <= isize::MAX,
    ensures
        buf_bytes(*final(buf)) == buf_bytes(*old(buf)) + labels_wire(owned_label_views(labels@)),
{
    let ghost views = owned_label_views(labels@);
    let mut i: usize = 0;
    while i < labels.len()
        invariant
            views == owned_label_views(labels@),
            buf_bytes(*old(buf)).len() + labels_wire(views).len() <= isize::MAX,
            i <= labels.len(),
            buf_bytes(*buf) == buf_bytes(*old(buf)) + labels_wire(views.take(i as int)),
        decreases labels.len() - i,
    {
        proof {
            assert(views[i as int] == labels[i as int]@);
            assert(views.take(i + 1) == views.take(i as int).push(views[i as int]));
            lemma_labels_wire_push(views.take(i as int), views[i as int]);
            lemma_labels_wire_split(views, i + 1);
        }
        labels[i].compose(buf);
        i = i + 1;
    }
    assert(views.take(labels.len() as int) == views);
}

} // verus!
