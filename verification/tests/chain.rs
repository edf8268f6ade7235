use bytes::BytesMut;
use dname_chain::{
    chain_text, collect_labels, collect_labels_rev, Chain, Compose, Dname, Label, LabelIterator,
    LongChainError, RelativeDname, ToLabelIter, UncertainDname,
};

fn label(content: &[u8]) -> Label {
    Label::from_slice(content).unwrap()
}

fn relative(labels: &[&[u8]]) -> RelativeDname {
    RelativeDname::from_labels(labels.iter().map(|l| label(l)).collect()).unwrap()
}

fn absolute(labels: &[&[u8]]) -> Dname {
    relative(labels).into_absolute()
}

/// A relative name whose wire format has exactly `len` octets.
fn relative_of_len(len: usize) -> RelativeDname {
    let mut labels = Vec::new();
    let mut left = len;
    while left > 0 {
        assert!(left >= 2);
        let mut take = if left > 64 { 64 } else { left };
        if left - take == 1 {
            take -= 1;
        }
        labels.push(Label::from_slice(&vec![b'a'; take - 1]).unwrap());
        left -= take;
    }
    let name = RelativeDname::from_labels(labels).unwrap();
    assert_eq!(name.compose_len(), len);
    name
}

fn composed<C: Compose>(what: &C) -> Vec<u8> {
    let mut buf = BytesMut::new();
    what.compose(&mut buf);
    buf.to_vec()
}

fn contents(labels: Vec<&Label>) -> Vec<Vec<u8>> {
    labels.into_iter().map(|l| l.as_slice().to_vec()).collect()
}

#[test]
fn chain_relative_with_absolute() {
    let left = relative(&[b"www", b"example"]);
    let right = absolute(&[b"com"]);
    assert_eq!(left.compose_len(), 12);
    assert_eq!(right.compose_len(), 5);
    let chain = left.chain(right).unwrap();
    assert_eq!(chain.compose_len(), 17);
    assert_eq!(composed(&chain), b"\x03www\x07example\x03com\x00".to_vec());
    assert_eq!(
        contents(collect_labels(chain.iter_labels())),
        vec![b"www".to_vec(), b"example".to_vec(), b"com".to_vec(), b"".to_vec()]
    );
}

#[test]
fn chain_of_two_long_names_fails() {
    let left = relative_of_len(130);
    let right = relative_of_len(130);
    assert_eq!(left.chain(right).err(), Some(LongChainError));
}

#[test]
fn chain_of_255_octets_succeeds() {
    let chain = relative_of_len(254).chain(Dname::root()).unwrap();
    assert_eq!(chain.compose_len(), 255);
    let chain = relative_of_len(100).chain(relative_of_len(155)).unwrap();
    assert_eq!(chain.compose_len(), 255);
    assert_eq!(composed(&chain).len(), 255);
}

#[test]
fn chain_of_256_octets_fails() {
    assert_eq!(relative_of_len(254).chain(relative_of_len(2)).err(), Some(LongChainError));
    assert_eq!(relative_of_len(2).chain(relative_of_len(254)).err(), Some(LongChainError));
    assert_eq!(relative_of_len(128).chain(relative_of_len(128)).err(), Some(LongChainError));
}

#[test]
fn chain_of_empty_names() {
    let chain = RelativeDname::empty().chain(RelativeDname::empty()).unwrap();
    assert_eq!(chain.compose_len(), 0);
    assert_eq!(composed(&chain), Vec::<u8>::new());
    assert!(chain.iter_labels().next().is_none());
    assert!(chain.iter_labels().next_back().is_none());
}

#[test]
fn new_is_what_chain_calls() {
    let chain = Chain::new(relative(&[b"a"]), relative(&[b"b"])).unwrap();
    assert_eq!(composed(&chain), b"\x01a\x01b".to_vec());
    assert_eq!(Chain::new(relative_of_len(200), relative_of_len(56)).err(), Some(LongChainError));
}

#[test]
fn compose_len_is_the_sum() {
    for (a, b) in [(0usize, 0usize), (2, 0), (0, 2), (17, 40), (254, 0), (127, 128)] {
        let chain = relative_of_len(a).chain(relative_of_len(b)).unwrap();
        assert_eq!(chain.compose_len(), a + b);
    }
}

#[test]
fn compose_writes_left_then_right() {
    let left = relative(&[b"mail", b"internal"]);
    let right = absolute(&[b"example", b"org"]);
    let mut expected = composed(&left);
    expected.extend_from_slice(&composed(&right));
    let chain = left.chain(right).unwrap();
    assert_eq!(composed(&chain), expected);
    assert_eq!(composed(&chain), b"\x04mail\x08internal\x07example\x03org\x00".to_vec());
}

#[test]
fn compose_appends_to_what_the_buffer_holds() {
    let chain = relative(&[b"a"]).chain(absolute(&[b"bc"])).unwrap();
    let mut buf = BytesMut::new();
    buf.extend_from_slice(b"\xFF\xFE");
    chain.compose(&mut buf);
    chain.compose(&mut buf);
    assert_eq!(&buf[..], b"\xFF\xFE\x01a\x02bc\x00\x01a\x02bc\x00");
}

#[test]
fn composed_chain_reads_back_as_its_labels() {
    let chain = relative(&[b"www", b"example"]).chain(absolute(&[b"com"])).unwrap();
    let wire = composed(&chain);
    let mut parsed: Vec<Vec<u8>> = Vec::new();
    let mut at = 0;
    while at < wire.len() {
        let len = wire[at] as usize;
        parsed.push(wire[at + 1..at + 1 + len].to_vec());
        at += 1 + len;
    }
    assert_eq!(parsed, contents(collect_labels(chain.iter_labels())));
    let flat = absolute(&[b"www", b"example", b"com"]);
    assert_eq!(wire, composed(&flat));
    assert_eq!(
        contents(collect_labels(flat.iter_labels())),
        contents(collect_labels(chain.iter_labels()))
    );
}

#[test]
fn labels_are_left_then_right() {
    let left = relative(&[b"a", b"bb"]);
    let right = relative(&[b"ccc", b"dddd"]);
    let mut expected = contents(collect_labels(left.iter_labels()));
    expected.extend(contents(collect_labels(right.iter_labels())));
    let chain = left.chain(right).unwrap();
    assert_eq!(contents(collect_labels(chain.iter_labels())), expected);
    assert_eq!(
        expected,
        vec![b"a".to_vec(), b"bb".to_vec(), b"ccc".to_vec(), b"dddd".to_vec()]
    );
}

#[test]
fn labels_backward_are_the_reverse() {
    let chain = relative(&[b"a", b"bb"]).chain(absolute(&[b"ccc"])).unwrap();
    let mut forward = contents(collect_labels(chain.iter_labels()));
    let backward = contents(collect_labels_rev(chain.iter_labels()));
    assert_eq!(backward, vec![b"".to_vec(), b"ccc".to_vec(), b"bb".to_vec(), b"a".to_vec()]);
    forward.reverse();
    assert_eq!(backward, forward);
}

#[test]
fn labels_from_both_ends_meet() {
    let chain = relative(&[b"a", b"b"]).chain(relative(&[b"c", b"d"])).unwrap();
    let mut iter = chain.iter_labels();
    assert_eq!(iter.next().unwrap().as_slice(), b"a");
    assert_eq!(iter.next_back().unwrap().as_slice(), b"d");
    assert_eq!(iter.next_back().unwrap().as_slice(), b"c");
    assert_eq!(iter.next_back().unwrap().as_slice(), b"b");
    assert!(iter.next().is_none());
    assert!(iter.next_back().is_none());
    assert!(iter.next().is_none());
}

#[test]
fn labels_keep_their_boundaries() {
    let chain = relative(&[b"ab"]).chain(relative(&[b"cd"])).unwrap();
    let labels = contents(collect_labels(chain.iter_labels()));
    assert_eq!(labels, vec![b"ab".to_vec(), b"cd".to_vec()]);
}

#[test]
fn cloned_walk_starts_where_the_first_stands() {
    let chain = relative(&[b"a", b"b"]).chain(absolute(&[b"c"])).unwrap();
    let mut iter = chain.iter_labels();
    assert_eq!(iter.next().unwrap().as_slice(), b"a");
    let copy = iter.clone();
    assert_eq!(iter.next().unwrap().as_slice(), b"b");
    assert_eq!(
        contents(collect_labels(copy)),
        vec![b"b".to_vec(), b"c".to_vec(), b"".to_vec()]
    );
    assert_eq!(contents(collect_labels(iter.duplicate())), vec![b"c".to_vec(), b"".to_vec()]);
}

#[test]
fn rechaining_checks_the_whole_length() {
    // 100 + 100 + 55 = 255 fits either way.
    let ab = relative_of_len(100).chain(relative_of_len(100)).unwrap();
    assert_eq!(ab.chain(relative_of_len(55)).unwrap().compose_len(), 255);
    let bc = relative_of_len(100).chain(relative_of_len(55)).unwrap();
    assert_eq!(relative_of_len(100).chain(bc).unwrap().compose_len(), 255);
    // 100 + 100 + 56 = 256 fails either way.
    let ab = relative_of_len(100).chain(relative_of_len(100)).unwrap();
    assert_eq!(ab.chain(relative_of_len(56)).err(), Some(LongChainError));
    let bc = relative_of_len(100).chain(relative_of_len(56)).unwrap();
    assert_eq!(relative_of_len(100).chain(bc).err(), Some(LongChainError));
}

#[test]
fn small_extensions_fail_when_the_sum_overflows() {
    let chain = relative_of_len(60).chain(relative_of_len(60)).unwrap();
    let chain = chain.chain(relative_of_len(60)).unwrap();
    let chain = chain.chain(relative_of_len(60)).unwrap();
    assert_eq!(chain.compose_len(), 240);
    let chain = chain.chain(relative_of_len(15)).unwrap();
    assert_eq!(chain.compose_len(), 255);
    assert_eq!(chain.chain(relative_of_len(2)).err(), Some(LongChainError));
}

#[test]
fn nested_chain_walks_all_three_names() {
    let ab = relative(&[b"a"]).chain(relative(&[b"b"])).unwrap();
    let abc = ab.chain(absolute(&[b"c"])).unwrap();
    assert_eq!(
        contents(collect_labels(abc.iter_labels())),
        vec![b"a".to_vec(), b"b".to_vec(), b"c".to_vec(), b"".to_vec()]
    );
    assert_eq!(
        contents(collect_labels_rev(abc.iter_labels())),
        vec![b"".to_vec(), b"c".to_vec(), b"b".to_vec(), b"a".to_vec()]
    );
    assert_eq!(composed(&abc), b"\x01a\x01b\x01c\x00".to_vec());
}

#[test]
fn unwrap_gives_back_both_names() {
    let left = relative(&[b"www", b"example"]);
    let right = absolute(&[b"com"]);
    let chain = left.clone().chain(right.clone()).unwrap();
    let (l, r) = chain.unwrap();
    assert_eq!(l, left);
    assert_eq!(r, right);
    // The parts can be chained again.
    assert_eq!(l.chain(r).unwrap().compose_len(), 17);
}

#[test]
fn uncertain_absolute_left_walks_only_the_left_name() {
    let left = UncertainDname::Absolute(absolute(&[b"www", b"example", b"com"]));
    let chain = left.chain(absolute(&[b"fallback", b"org"])).unwrap();
    assert_eq!(
        contents(collect_labels(chain.iter_labels())),
        vec![b"www".to_vec(), b"example".to_vec(), b"com".to_vec(), b"".to_vec()]
    );
    assert_eq!(
        contents(collect_labels_rev(chain.iter_labels())),
        vec![b"".to_vec(), b"com".to_vec(), b"example".to_vec(), b"www".to_vec()]
    );
}

#[test]
fn uncertain_relative_left_walks_left_then_right() {
    let left = UncertainDname::Relative(relative(&[b"www"]));
    let chain = left.chain(absolute(&[b"fallback", b"org"])).unwrap();
    assert_eq!(
        contents(collect_labels(chain.iter_labels())),
        vec![b"www".to_vec(), b"fallback".to_vec(), b"org".to_vec(), b"".to_vec()]
    );
}

#[test]
fn uncertain_left_counts_both_names() {
    let left = UncertainDname::Absolute(absolute(&[b"a"]));
    let chain = left.chain(absolute(&[b"b"])).unwrap();
    assert_eq!(chain.compose_len(), 6);
    assert_eq!(composed(&chain), b"\x01a\x00\x01b\x00".to_vec());
    let left = UncertainDname::Absolute(relative_of_len(200).into_absolute());
    assert_eq!(left.chain(relative_of_len(56).into_absolute()).err(), Some(LongChainError));
}

#[test]
fn long_chain_error_text() {
    assert_eq!(LongChainError.to_string(), "long domain name");
    assert_eq!(LongChainError, LongChainError);
}

#[test]
fn chain_text_joins_with_a_dot() {
    assert_eq!(chain_text("www.example", "com."), "www.example.com.");
    assert_eq!(chain_text("", ""), ".");
}
