//! Writing values in wire format, with and without name compression.

use crate::buf::{buf_bytes, put_slice, put_u8};
use crate::label::{
    label_wire, labels_wire, lemma_labels_wire_push, lemma_labels_wire_split, Label,
};
use crate::traits::{collect_labels, label_views, ToDname};
use bytes::BytesMut;
use vstd::prelude::*;
use vstd::slice::{slice_subrange, slice_to_vec};

verus! {

/// A value that has a wire format.
pub trait Compose {
    /// The octets of the value in wire format.
    spec fn wire(&self) -> Seq<u8>;

    /// Returns the number of octets of the wire format.
    fn compose_len(&self) -> (n: usize)
        ensures
            n == self.wire().len(),
    ;

    /// Appends the wire format of the value to `buf`.
    fn compose(&self, buf: &mut BytesMut)
        requires
            buf_bytes(*old(buf)).len() + self.wire().len() <= isize::MAX,
        ensures
            buf_bytes(*final(buf)) == buf_bytes(*old(buf)) + self.wire(),
    ;
}

/// A value that can be written into a message with its domain names
/// compressed.
pub trait Compress {
    /// What writing the value does to a compressor in state `state`: the
    /// state that follows, and whether the value fit.
    spec fn compressed_into(&self, state: CompressorView) -> (CompressorView, Result<(), ShortBuf>);

    /// Appends the value to the message that `buf` holds.
    fn compress(&self, buf: &mut Compressor) -> (r: Result<(), ShortBuf>)
        ensures
            (final(buf)@, r) == self.compressed_into(old(buf)@),
    ;
}

/// The message has no room for what was to be appended.
#[derive(Clone, Copy, Debug, PartialEq, Eq, Structural)]
pub struct ShortBuf;

/// The largest position in a message that a compression pointer can name.
pub const MAX_POINTER: u16 = 0x3FFF;

/// The two octets of a compression pointer to position `pos`: the two top
/// bits set, then the position in fourteen bits.
pub open spec fn pointer(pos: u16) -> Seq<u8>
    recommends
        pos <= MAX_POINTER,
{
    seq![(192 + pos / 256) as u8, (pos % 256) as u8]
}

/// The position that `names` records for the name with wire format `name`:
/// that of the first entry for it.
pub open spec fn lookup(names: Seq<(Seq<u8>, u16)>, name: Seq<u8>) -> Option<u16>
    decreases names.len(),
{
    if names.len() == 0 {
        None
    } else if names.first().0 == name {
        Some(names.first().1)
    } else {
        lookup(names.drop_first(), name)
    }
}

/// The state of a [`Compressor`].
pub struct CompressorView {
    /// The octets of the message so far.
    pub message: Seq<u8>,
    /// The most octets the message may have.
    pub limit: nat,
    /// With compression enabled, the absolute names that start somewhere in
    /// the message, each in wire format and with the position where it
    /// starts. `None` while compression is disabled.
    pub names: Option<Seq<(Seq<u8>, u16)>>,
}

impl CompressorView {
    /// The number of octets that can still be appended.
    pub open spec fn room(self) -> int {
        self.limit - self.message.len()
    }

    /// The state after appending `octets`, if they fit; the unchanged state
    /// and an error if they do not.
    pub open spec fn append(self, octets: Seq<u8>) -> (CompressorView, Result<(), ShortBuf>) {
        if octets.len() <= self.room() {
            (
                CompressorView {
                    message: self.message + octets,
                    limit: self.limit,
                    names: self.names,
                },
                Ok(()),
            )
        } else {
            (self, Err(ShortBuf))
        }
    }

    /// The position of an earlier occurrence of the name made of `labels`,
    /// if one is recorded. Names are compared octet by octet. The root alone
    /// is never looked up: a pointer to it would be longer than the root
    /// label itself.
    pub open spec fn known(self, labels: Seq<Seq<u8>>) -> Option<u16> {
        match self.names {
            Some(names) => if labels.len() > 0 && labels.first().len() > 0 {
                lookup(names, labels_wire(labels))
            } else {
                None
            },
            None => None,
        }
    }

    /// The number of leading labels of `labels` that are written out in full:
    /// all those before the first label from which on the name is known.
    pub open spec fn literal_count(self, labels: Seq<Seq<u8>>) -> nat
        decreases labels.len(),
    {
        if labels.len() == 0 || self.known(labels) is Some {
            0
        } else {
            1 + self.literal_count(labels.drop_first())
        }
    }

    /// The octets that stand for the name made of `labels` in the message:
    /// the leading labels in full, then a pointer to the earlier occurrence
    /// of the rest, if there is one.
    pub open spec fn compressed(self, labels: Seq<Seq<u8>>) -> Seq<u8> {
        let count = self.literal_count(labels) as int;
        if count < labels.len() {
            labels_wire(labels.take(count)) + pointer(self.known(labels.skip(count)).unwrap())
        } else {
            labels_wire(labels)
        }
    }

    /// The recorded names after the first `count` labels of `labels` have
    /// been written out in full at the end of the message: for each of them
    /// that is not the root label and starts at a position a pointer can
    /// name, the name from that label on is added.
    pub open spec fn learned(self, labels: Seq<Seq<u8>>, count: nat) -> Seq<(Seq<u8>, u16)>
        decreases count,
    {
        if count == 0 {
            match self.names {
                Some(names) => names,
                None => Seq::empty(),
            }
        } else {
            let i = (count - 1) as int;
            let before = self.learned(labels, (count - 1) as nat);
            let at = self.message.len() + labels_wire(labels.take(i)).len();
            if labels[i].len() > 0 && at <= MAX_POINTER {
                before.push((labels_wire(labels.skip(i)), at as u16))
            } else {
                before
            }
        }
    }

    /// The state after appending the name made of `labels`, compressed as
    /// far as the recorded names allow, if it fits; the unchanged state and
    /// an error if it does not.
    pub open spec fn compress_name(self, labels: Seq<Seq<u8>>) -> (
        CompressorView,
        Result<(), ShortBuf>,
    ) {
        let octets = self.compressed(labels);
        if octets.len() <= self.room() {
            (
                CompressorView {
                    message: self.message + octets,
                    limit: self.limit,
                    names: match self.names {
                        Some(_) => Some(self.learned(labels, self.literal_count(labels))),
                        None => None,
                    },
                },
                Ok(()),
            )
        } else {
            (self, Err(ShortBuf))
        }
    }
}

/// While no name from a label on is known, that label is written in full.
proof fn lemma_literal_count_skip(state: CompressorView, labels: Seq<Seq<u8>>, i: int)
    requires
        0 <= i <= labels.len(),
    ensures
        i < labels.len() && state.known(labels.skip(i)) is None ==> state.literal_count(
            labels.skip(i),
        ) == 1 + state.literal_count(labels.skip(i + 1)),
        i == labels.len() || state.known(labels.skip(i)) is Some ==> state.literal_count(
            labels.skip(i),
        ) == 0,
{
    if i < labels.len() {
        assert(labels.skip(i).drop_first() == labels.skip(i + 1));
    }
}

/// A name recorded by a compressor.
struct Entry {
    /// The wire format of the name.
    name: Vec<u8>,
    /// Where in the message the name starts.
    pos: u16,
}

/// The names recorded in `entries`.
spec fn entry_views(entries: Seq<Entry>) -> Seq<(Seq<u8>, u16)> {
    Seq::new(entries.len(), |i: int| (entries[i].name@, entries[i].pos))
}

/// Whether a pointer can name the position of each of `entries`.
spec fn pointers_fit(entries: Seq<Entry>) -> bool {
    forall|i: int| 0 <= i < entries.len() ==> (#[trigger] entries[i]).pos <= MAX_POINTER
}

/// Lays the labels out in wire format, and tells where in it each label
/// starts, with the length of the whole as a last entry.
fn lay_out(labels: &Vec<&Label>) -> (out: (Vec<u8>, Vec<usize>))
    ensures
        out.0@ == labels_wire(label_views(labels@)),
        out.1@.len() == labels@.len() + 1,
        forall|i: int|
            0 <= i <= labels@.len() ==> #[trigger] out.1@[i] == labels_wire(
                label_views(labels@).take(i),
            ).len(),
{
    let ghost views = label_views(labels@);
    let mut wire: Vec<u8> = Vec::new();
    let mut starts: Vec<usize> = Vec::new();
    let mut i: usize = 0;
    assert(views.take(0) == Seq::<Seq<u8>>::empty());
    while i < labels.len()
        invariant
            views == label_views(labels@),
            i <= labels.len(),
            wire@ == labels_wire(views.take(i as int)),
            starts@.len() == i,
            forall|j: int| 0 <= j < i ==> #[trigger] starts@[j] == labels_wire(views.take(j)).len(),
        decreases labels.len() - i,
    {
        let label = labels[i];
        let n = label.len();
        proof {
            assert(views[i as int] == label@);
            assert(views.take(i + 1) == views.take(i as int).push(views[i as int]));
            lemma_labels_wire_push(views.take(i as int), views[i as int]);
        }
        starts.push(wire.len());
        wire.push(n as u8);
        wire.extend_from_slice(label.as_slice());
        assert(wire@ == labels_wire(views.take(i as int)) + label_wire(label@));
        i = i + 1;
    }
    starts.push(wire.len());
    assert(views.take(labels.len() as int) == views);
    (wire, starts)
}

/// Whether `wire` from `start` on is exactly `name`.
fn same_from(wire: &Vec<u8>, start: usize, name: &Vec<u8>) -> (same: bool)
    requires
        start <= wire@.len(),
    ensures
        same == (wire@.skip(start as int) == name@),
{
    let total = wire.len();
    let n = total - start;
    if name.len() != n {
        return false;
    }
    let mut i: usize = 0;
    while i < n
        invariant
            total == wire@.len(),
            start + n == total,
            name@.len() == n,
            i <= n,
            forall|j: int| 0 <= j < i ==> wire@[start + j] == name@[j],
        decreases n - i,
    {
        if wire[start + i] != name[i] {
            assert(wire@.skip(start as int)[i as int] != name@[i as int]);
            return false;
        }
        i = i + 1;
    }
    assert(wire@.skip(start as int) =~= name@);
    true
}

/// Looks up the name that `wire` holds from `start` on.
fn find_entry(names: &Vec<Entry>, wire: &Vec<u8>, start: usize) -> (found: Option<u16>)
    requires
        start <= wire@.len(),
        pointers_fit(names@),
    ensures
        found == lookup(entry_views(names@), wire@.skip(start as int)),
        match found {
            Some(pos) => pos <= MAX_POINTER,
            None => true,
        },
{
    let ghost all = entry_views(names@);
    let ghost name = wire@.skip(start as int);
    let mut i: usize = 0;
    assert(all.skip(0) == all);
    while i < names.len()
        invariant
            all == entry_views(names@),
            name == wire@.skip(start as int),
            start <= wire@.len(),
            i <= names.len(),
            pointers_fit(names@),
            lookup(all, name) == lookup(all.skip(i as int), name),
        decreases names.len() - i,
    {
        proof {
            assert(all.skip(i as int).first() == (names@[i as int].name@, names@[i as int].pos));
            assert(all.skip(i as int).drop_first() == all.skip(i + 1));
        }
        if same_from(wire, start, &names[i].name) {
            return Some(names[i].pos);
        }
        i = i + 1;
    }
    assert(all.skip(names.len() as int).len() == 0);
    None
}

/// A message under construction that compresses the domain names written
/// into it.
///
/// The message is bounded: what would make it longer than its limit is
/// refused and leaves it unchanged.
pub struct Compressor {
    /// The message so far.
    buf: BytesMut,
    /// The most octets the message may have.
    limit: u16,
    /// The names recorded so far, if compression is enabled.
    names: Option<Vec<Entry>>,
}

impl View for Compressor {
    type V = CompressorView;

    closed spec fn view(&self) -> CompressorView {
        CompressorView {
            message: buf_bytes(self.buf),
            limit: self.limit as nat,
            names: match self.names {
                Some(names) => Some(entry_views(names@)),
                None => None,
            },
        }
    }
}

impl Compressor {
    #[verifier::type_invariant]
    spec fn valid(self) -> bool {
        &&& buf_bytes(self.buf).len() <= self.limit
        &&& match self.names {
            Some(names) => pointers_fit(names@),
            None => true,
        }
    }

    /// Starts an empty message of at most 65535 octets, with compression
    /// disabled.
    pub fn new() -> (c: Compressor)
        ensures
            c@ == (CompressorView { message: Seq::empty(), limit: 0xFFFF, names: None }),
    {
        Compressor { buf: BytesMut::new(), limit: 0xFFFF, names: None }
    }

    /// Starts an empty message of at most `limit` octets, with compression
    /// disabled.
    pub fn with_limit(limit: u16) -> (c: Compressor)
        ensures
            c@ == (CompressorView { message: Seq::empty(), limit: limit as nat, names: None }),
    {
        Compressor { buf: BytesMut::new(), limit, names: None }
    }

    /// Enables compression: from now on the names written are recorded and
    /// later names are shortened by pointing at them. Does nothing if
    /// compression is enabled already.
    pub fn enable_compression(&mut self)
        ensures
            final(self)@.message == old(self)@.message,
            final(self)@.limit == old(self)@.limit,
            final(self)@.names == match old(self)@.names {
                Some(names) => Some(names),
                None => Some(Seq::empty()),
            },
    {
        proof {
            use_type_invariant(&*self);
        }
        if self.names.is_none() {
            let names: Vec<Entry> = Vec::new();
            assert(entry_views(names@) == Seq::<(Seq<u8>, u16)>::empty());
            self.names = Some(names);
        }
    }

    /// The number of octets of the message so far.
    pub fn len(&self) -> (n: usize)
        ensures
            n == self@.message.len(),
            n <= self@.limit,
    {
        proof {
            use_type_invariant(self);
        }
        self.buf.len()
    }

    /// Ends the message and hands out the buffer that holds it.
    pub fn unwrap(self) -> (buf: BytesMut)
        ensures
            buf_bytes(buf) == self@.message,
    {
        self.buf
    }

    /// Appends the wire format of `what` to the message, uncompressed.
    /// Fails, and leaves the message unchanged, if it does not fit.
    pub fn compose<C: Compose>(&mut self, what: &C) -> (r: Result<(), ShortBuf>)
        ensures
            (final(self)@, r) == old(self)@.append(what.wire()),
    {
        proof {
            use_type_invariant(&*self);
        }
        let room = self.limit as usize - self.buf.len();
        if what.compose_len() > room {
            Err(ShortBuf)
        } else {
            let mut buf = BytesMut::new();
            std::mem::swap(&mut buf, &mut self.buf);
            what.compose(&mut buf);
            self.buf = buf;
            Ok(())
        }
    }

    /// Appends a domain name to the message, compressed if compression is
    /// enabled.
    ///
    /// The labels of the name are written one after the other until the
    /// rest of the name is one that the message already holds; a pointer to
    /// that occurrence then ends the name. Each part of the name that was
    /// written in full is recorded for later names to point at. Fails, and
    /// leaves message and records unchanged, if the name does not fit.
    pub fn compress_name<N: ToDname>(&mut self, name: &N) -> (r: Result<(), ShortBuf>)
        ensures
            (final(self)@, r) == old(self)@.compress_name(name.labels()),
    {
        let labels = collect_labels(name.iter_labels());
        self.compress_labels(&labels)
    }

    /// Appends the name made of `labels` to the message, as
    /// [`Compressor::compress_name`] does.
    fn compress_labels(&mut self, labels: &Vec<&Label>) -> (r: Result<(), ShortBuf>)
        ensures
            (final(self)@, r) == old(self)@.compress_name(label_views(labels@)),
    {
        proof {
            use_type_invariant(&*self);
        }
        let ghost state = self@;
        let ghost views = label_views(labels@);
        let (wire, starts) = lay_out(labels);
        let n = labels.len();

        // Find the first label from which on the name is known.
        let mut count: usize = 0;
        let mut target: Option<u16> = None;
        assert(views.skip(0) == views);
        while count < n
            invariant_except_break
                target is None,
            invariant
                state == self@,
                match self.names {
                    Some(names) => pointers_fit(names@),
                    None => true,
                },
                views == label_views(labels@),
                n == labels@.len(),
                wire@ == labels_wire(views),
                starts@.len() == n + 1,
                forall|i: int|
                    0 <= i <= n ==> #[trigger] starts@[i] == labels_wire(views.take(i)).len(),
                count <= n,
                state.literal_count(views) == count + state.literal_count(views.skip(count as int)),
            ensures
                state.literal_count(views) == count,
                count < n ==> target == state.known(views.skip(count as int)) && target is Some,
                count == n ==> target is None,
                match target {
                    Some(pos) => pos <= MAX_POINTER,
                    None => true,
                },
            decreases n - count,
        {
            proof {
                lemma_labels_wire_split(views, count as int);
                assert(wire@.skip(starts@[count as int] as int) == labels_wire(
                    views.skip(count as int),
                ));
                assert(views.skip(count as int).first() == labels@[count as int]@);
                lemma_literal_count_skip(state, views, count as int);
            }
            if labels[count].len() > 0 {
                let found = match &self.names {
                    Some(names) => find_entry(names, &wire, starts[count]),
                    None => None,
                };
                if found.is_some() {
                    target = found;
                    break ;
                }
            }
            count = count + 1;
        }
        proof {
            lemma_literal_count_skip(state, views, count as int);
            lemma_labels_wire_split(views, count as int);
        }

        // See whether what is to be written fits.
        let head = starts[count];
        let room = self.limit as usize - self.buf.len();
        if head > room || (target.is_some() && room - head < 2) {
            return Err(ShortBuf);
        }

        // Write the labels, then the pointer.
        let base = self.buf.len();
        let mut buf = BytesMut::new();
        std::mem::swap(&mut buf, &mut self.buf);
        put_slice(&mut buf, slice_subrange(wire.as_slice(), 0, head));
        assert(wire@.subrange(0, head as int) == labels_wire(views.take(count as int)));
        match target {
            Some(pos) => {
                assert(192 + pos / 256 <= 255);
                put_u8(&mut buf, (192 + pos / 256) as u8);
                put_u8(&mut buf, (pos % 256) as u8);
                assert(buf_bytes(buf) == state.message + state.compressed(views));
            },
            None => {
                assert(views.take(count as int) == views);
            },
        }
        self.buf = buf;

        // Record the names that now start in the message.
        let mut names: Option<Vec<Entry>> = None;
        std::mem::swap(&mut names, &mut self.names);
        match names {
            Some(mut names) => {
                let mut i: usize = 0;
                while i < count
                    invariant
                        views == label_views(labels@),
                        n == labels@.len(),
                        count <= n,
                        wire@ == labels_wire(views),
                        starts@.len() == n + 1,
                        forall|j: int|
                            0 <= j <= n ==> #[trigger] starts@[j] == labels_wire(
                                views.take(j),
                            ).len(),
                        state.names is Some,
                        base == state.message.len(),
                        i <= count,
                        entry_views(names@) == state.learned(views, i as nat),
                        pointers_fit(names@),
                    decreases count - i,
                {
                    let start = starts[i];
                    proof {
                        lemma_labels_wire_split(views, i as int);
                        assert(wire@.skip(start as int) == labels_wire(views.skip(i as int)));
                        assert(views[i as int] == labels@[i as int]@);
                    }
                    if labels[i].len() > 0 && base <= MAX_POINTER as usize && start
                        <= MAX_POINTER as usize - base {
                        let name = slice_to_vec(slice_subrange(wire.as_slice(), start, wire.len()));
                        let ghost before = names@;
                        names.push(Entry { name, pos: (base + start) as u16 });
                        assert(entry_views(names@) == entry_views(before).push(
                            (labels_wire(views.skip(i as int)), (base + start) as u16),
                        ));
                    }
                    i = i + 1;
                }
                self.names = Some(names);
            },
            None => {},
        }
        Ok(())
    }
}

} // verus!
