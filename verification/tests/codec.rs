use aleph_bft::alerts::{Alert, AlertData, AlertMessage};
use aleph_bft::codec::{encode, Wire};
use aleph_bft::crypto::{sign_with_index, IndexedHash, SignatureSet};
use aleph_bft::mock::{Hasher64, Keychain};
use aleph_bft::nodes::{Hasher, NodeCount, NodeIndex};
use aleph_bft::rmc::RmcMessage;
use aleph_bft::units::{
    sign_unit, ControlHash, FullUnit, Signature, UncheckedSigned, UncheckedSignedUnit, UnitCoord,
};
use aleph_bft::value::Value;

fn signed_unit_of(creator: usize, round: u16, data: Vec<u8>) -> UncheckedSignedUnit {
    let keychain = Keychain::new(NodeCount(4), NodeIndex(creator));
    let control_hash = ControlHash::new::<Hasher64>(&vec![Some(3), None, Some(5), None]);
    sign_unit::<Hasher64, Keychain>(
        &keychain,
        FullUnit::new(NodeIndex(creator), round, control_hash, data, 1),
    )
}

fn alert_messages() -> Vec<AlertMessage> {
    let keychain = Keychain::new(NodeCount(4), NodeIndex(2));
    let alert = Alert::new(
        NodeIndex(2),
        (signed_unit_of(1, 4, vec![1]), signed_unit_of(1, 4, vec![2])),
        vec![signed_unit_of(1, 5, vec![]), signed_unit_of(1, 6, vec![9, 9, 9])],
    );
    let set = SignatureSet::with_size(NodeCount(4))
        .add_signature(Signature { bytes: vec![1, 2, 3] }, NodeIndex(2));
    vec![
        AlertMessage::ForkAlert(UncheckedSigned::new(alert, Signature { bytes: vec![7, 8] })),
        AlertMessage::RmcHash(NodeIndex(3), RmcMessage::SignedHash(sign_with_index(&keychain, 77))),
        AlertMessage::RmcHash(
            NodeIndex(0),
            RmcMessage::MultisignedHash(UncheckedSigned::new(78, set)),
        ),
        AlertMessage::AlertRequest(NodeIndex(1), u64::MAX),
    ]
}

#[test]
fn integers_are_little_endian_with_fixed_width() {
    assert_eq!(encode(&0x12u8), vec![0x12]);
    assert_eq!(encode(&0x1234u16), vec![0x34, 0x12]);
    assert_eq!(
        encode(&0x0102030405060708u64),
        vec![0x08, 0x07, 0x06, 0x05, 0x04, 0x03, 0x02, 0x01],
    );
    assert_eq!(encode(&5usize), vec![5, 0, 0, 0, 0, 0, 0, 0]);
    assert_eq!(encode(&NodeIndex(258)), vec![2, 1, 0, 0, 0, 0, 0, 0]);
    assert_eq!(encode(&true), vec![1]);
    assert_eq!(encode(&false), vec![0]);
}

#[test]
fn lists_and_options_are_prefixed() {
    assert_eq!(encode(&vec![7u8, 8u8]), vec![2, 0, 0, 0, 0, 0, 0, 0, 7, 8]);
    assert_eq!(encode(&Vec::<u16>::new()), vec![0, 0, 0, 0, 0, 0, 0, 0]);
    assert_eq!(encode(&Some(0x0102u16)), vec![1, 2, 1]);
    assert_eq!(encode(&None::<u16>), vec![0]);
    assert_eq!(encode(&(1u8, 0x0203u16)), vec![1, 3, 2]);
    assert_eq!(encode(&UnitCoord::new(3, NodeIndex(1))), vec![3, 0, 1, 0, 0, 0, 0, 0, 0, 0]);
    assert_eq!(
        encode(&IndexedHash { hash: 1, index: NodeIndex(2) }),
        vec![1, 0, 0, 0, 0, 0, 0, 0, 2, 0, 0, 0, 0, 0, 0, 0],
    );
}

#[test]
fn variants_are_told_apart_by_one_byte() {
    assert_eq!(
        encode(&AlertMessage::AlertRequest(NodeIndex(1), 2)),
        vec![2, 1, 0, 0, 0, 0, 0, 0, 0, 2, 0, 0, 0, 0, 0, 0, 0],
    );
    let multisigned = UncheckedSigned::new(5u64, SignatureSet::with_size(NodeCount(0)));
    assert_eq!(
        encode(&AlertData::MultisignedHash(multisigned)),
        vec![2, 5, 0, 0, 0, 0, 0, 0, 0, 0, 0, 0, 0, 0, 0, 0, 0],
    );
}

#[test]
fn decoding_rejects_what_encoding_never_writes() {
    assert_eq!(bool::decode(&[2], 0), None);
    assert_eq!(u16::decode(&[1], 0), None);
    assert_eq!(u64::decode(&[1, 2, 3, 4, 5, 6, 7], 0), None);
    assert_eq!(Option::<u8>::decode(&[3, 1], 0), None);
    assert_eq!(Option::<u8>::decode(&[1], 0), None);
    assert_eq!(Vec::<u8>::decode(&[2, 0, 0, 0, 0, 0, 0, 0, 7], 0), None);
    assert_eq!(AlertMessage::decode(&[3, 0, 0], 0), None);
    assert_eq!(AlertMessage::decode(&[], 0), None);
    // a length that no input can hold is refused, not run after
    assert_eq!(Vec::<u8>::decode(&[255; 8], 0), None);
}

#[test]
fn decoding_reads_from_the_given_position() {
    assert_eq!(u16::decode(&[9, 0x34, 0x12, 9], 1), Some((0x1234, 3)));
    assert_eq!(Vec::<u8>::decode(&[2, 0, 0, 0, 0, 0, 0, 0, 7, 8, 9], 0), Some((vec![7, 8], 10)));
    assert_eq!(u8::decode(&[1], 1), None);
}

#[test]
fn encode_then_decode_gives_every_alert_message_back() {
    for message in alert_messages() {
        let mut bytes = encode(&message);
        let length = bytes.len();
        assert_eq!(AlertMessage::decode(&bytes, 0), Some((message.clone(), length)));
        // whatever follows the message does not change what is read
        bytes.extend_from_slice(&[1, 2, 3]);
        assert_eq!(AlertMessage::decode(&bytes, 0), Some((message.clone(), length)));
        // a message cut short is not read
        assert_eq!(AlertMessage::decode(&bytes[..length - 1], 0), None);
    }
}

#[test]
fn encoding_is_the_same_each_time() {
    for message in alert_messages() {
        assert_eq!(encode(&message), encode(&message.clone()));
        let mut out = vec![42];
        message.encode_to(&mut out);
        assert_eq!(out[0], 42);
        assert_eq!(out[1..], encode(&message)[..]);
    }
}

#[test]
fn hash_is_that_of_the_encoding() {
    for message in alert_messages() {
        if let AlertMessage::ForkAlert(alert) = message {
            let alert = alert.into_signable();
            assert_eq!(alert.hash::<Hasher64>(), Hasher64::hash(&encode(&alert)));
            assert_eq!(alert.hash::<Hasher64>(), alert.clone().hash::<Hasher64>());
            let unit = &alert.proof.0.signable;
            assert_eq!(unit.hash::<Hasher64>(), Hasher64::hash(&encode(unit)));
        }
    }
}

#[test]
fn checksum_follows_its_formula() {
    assert_eq!(Hasher64::hash(&[]), 0xcbf29ce484222325);
    let one = 0xcbf29ce484222325u64.wrapping_mul(0x100000001b3).wrapping_add(1);
    assert_eq!(Hasher64::hash(&[1]), one);
    assert_eq!(Hasher64::hash(&[1, 255]), one.wrapping_mul(0x100000001b3).wrapping_add(255));
    assert_ne!(Hasher64::hash(&[1, 2]), Hasher64::hash(&[2, 1]));
}

#[test]
fn duplicate_and_same_go_by_content() {
    let a = signed_unit_of(1, 4, vec![1]);
    let b = signed_unit_of(1, 4, vec![2]);
    assert!(a.same(&a.duplicate()));
    assert!(!a.same(&b));
    assert_eq!(a.duplicate(), a);
    assert!(vec![a.clone(), b.clone()].same(&vec![a.clone(), b.clone()]));
    assert!(!vec![a.clone(), b.clone()].same(&vec![a.clone()]));
    assert!(!vec![a.clone(), b.clone()].same(&vec![b.clone(), a.clone()]));
    assert!(Some(3u8).same(&Some(3u8)));
    assert!(!Some(3u8).same(&None));
}

#[test]
fn control_hash_marks_the_parents() {
    let control_hash = ControlHash::new::<Hasher64>(&vec![Some(3), None, Some(5), None]);
    assert_eq!(control_hash.parents_mask, vec![true, false, true, false]);
    assert_eq!(control_hash.parents(), vec![NodeIndex(0), NodeIndex(2)]);
    assert_eq!(control_hash.n_members(), 4);
    assert_eq!(
        control_hash.combined_hash,
        Hasher64::hash(&encode(&vec![Some(3u64), None, Some(5u64), None])),
    );
    let none = ControlHash::new::<Hasher64>(&vec![None; 3]);
    assert_eq!(none.parents(), vec![]);
}

#[test]
fn unit_reports_what_it_holds() {
    let u = signed_unit_of(3, 8, vec![4, 5]);
    let full = u.as_signable();
    assert_eq!(full.creator(), NodeIndex(3));
    assert_eq!(full.round(), 8);
    assert_eq!(full.session_id(), 1);
    assert_eq!(full.data(), &vec![4, 5]);
    assert_eq!(full.coord(), UnitCoord::new(8, NodeIndex(3)));
    assert_eq!(full.coord().round(), 8);
    assert_eq!(full.coord().creator(), NodeIndex(3));
    assert_eq!(full.control_hash().n_members(), 4);
}
