use aleph_bft::crypto::{
    check_hash, check_signed_hash, sign_hash, sign_with_index, Multisigned, SignatureSet,
    SignedHash,
};
use aleph_bft::mock::Keychain;
use aleph_bft::nodes::{Hash64, Index, NodeCount, NodeIndex};
use aleph_bft::rmc::handler::{Error, Handler, OnStartRmcResponse};
use aleph_bft::rmc::scheduler::DoublingDelayScheduler;
use aleph_bft::rmc::service::{RmcIncomingMessage, Service};
use aleph_bft::rmc::RmcMessage;
use aleph_bft::units::{Signature, UncheckedSigned};

const N: NodeCount = NodeCount(7);

fn keychain(i: usize) -> Keychain {
    Keychain::new(N, NodeIndex(i))
}

fn signed_by(i: usize, hash: Hash64) -> SignedHash {
    sign_with_index(&keychain(i), hash)
}

fn multisign(hash: Hash64, signers: &[usize]) -> Multisigned {
    let mut set = SignatureSet::with_size(N);
    for i in signers {
        set = set.add_signature(sign_hash(&keychain(*i), hash), NodeIndex(*i));
    }
    UncheckedSigned::new(hash, set)
}

fn rmc_service(i: usize, delay: u64) -> Service<Keychain> {
    Service::new(DoublingDelayScheduler::new(delay), Handler::new(keychain(i)))
}

#[test]
fn quorum_is_more_than_two_thirds() {
    let expected = [(0usize, 1usize), (1, 1), (2, 2), (3, 3), (4, 3), (5, 4), (6, 5), (7, 5), (10, 7), (100, 67)];
    for (n, q) in expected {
        assert_eq!(NodeCount(n).quorum(), q);
        assert_eq!(Keychain::new(NodeCount(n), NodeIndex(0)).quorum(), q);
    }
    assert_eq!(NodeCount(usize::MAX).quorum(), usize::MAX / 3 * 2 + 1);
}

#[test]
fn mock_signature_is_index_then_message() {
    let signature = sign_hash(&keychain(3), 0x0102);
    assert_eq!(
        signature,
        Signature { bytes: vec![3, 0, 0, 0, 0, 0, 0, 0, 2, 1, 0, 0, 0, 0, 0, 0] },
    );
    // every key box can check every participant's signature
    assert!(check_hash(&keychain(0), 0x0102, &signature, NodeIndex(3)));
    assert!(!check_hash(&keychain(0), 0x0102, &signature, NodeIndex(4)));
    assert!(!check_hash(&keychain(0), 0x0103, &signature, NodeIndex(3)));
    assert!(!check_hash(&keychain(0), 0x0102, &Signature { bytes: vec![3] }, NodeIndex(3)));
    assert!(check_signed_hash(&keychain(1), &signed_by(2, 5)));
    let mut forged = signed_by(2, 5);
    forged.signable.index = NodeIndex(3);
    assert!(!check_signed_hash(&keychain(1), &forged));
    assert_eq!(keychain(4).index(), NodeIndex(4));
}

#[test]
fn signature_set_counts_and_checks() {
    let empty = SignatureSet::with_size(N);
    assert_eq!(empty.size(), 7);
    assert_eq!(empty.count(), 0);
    assert!(!empty.is_complete(&keychain(0), 9));
    let four = multisign(9, &[0, 1, 2, 3]).signature;
    assert_eq!(four.count(), 4);
    assert!(four.all_valid(&keychain(0), 9));
    assert!(!four.is_complete(&keychain(0), 9));
    let five = multisign(9, &[0, 1, 2, 3, 6]).signature;
    assert!(five.is_complete(&keychain(0), 9));
    assert!(keychain(0).is_complete(9, &five));
    // signatures on another hash do not count
    assert!(!five.is_complete(&keychain(0), 10));
    // a signature in the place of another participant spoils the set
    let spoiled = five.clone().add_signature(sign_hash(&keychain(1), 9), NodeIndex(5));
    assert_eq!(spoiled.count(), 6);
    assert!(!spoiled.is_complete(&keychain(0), 9));
    // an index without a place leaves the set as it was
    assert_eq!(five.clone().add_signature(sign_hash(&keychain(1), 9), NodeIndex(7)), five);
    // the same participant twice counts once
    let twice = four.clone().add_signature(sign_hash(&keychain(3), 9), NodeIndex(3));
    assert_eq!(twice.count(), 4);
    assert_eq!(
        keychain(0).from_signature(&sign_hash(&keychain(2), 9), NodeIndex(2)),
        multisign(9, &[2]).signature,
    );
}

#[test]
fn handler_completes_on_the_fifth_of_seven() {
    let mut handler = Handler::new(keychain(0));
    let hash = 1234;
    assert_eq!(handler.on_start_rmc(hash), OnStartRmcResponse::SignedHash(signed_by(0, hash)));
    for i in 1..4 {
        assert_eq!(handler.on_signed_hash(signed_by(i, hash)), Ok(None));
        assert!(!handler.already_completed(hash));
    }
    // a signature that was counted already does not complete anything
    assert_eq!(handler.on_signed_hash(signed_by(2, hash)), Ok(None));
    assert_eq!(
        handler.on_signed_hash(signed_by(4, hash)),
        Ok(Some(multisign(hash, &[0, 1, 2, 3, 4]))),
    );
    assert!(handler.already_completed(hash));
    // once complete, further signatures and multisignatures are not news
    assert_eq!(handler.on_signed_hash(signed_by(5, hash)), Ok(None));
    assert_eq!(handler.on_multisigned_hash(multisign(hash, &[1, 2, 3, 4, 5, 6])), Ok(None));
    // other hashes are untouched
    assert!(!handler.already_completed(hash + 1));
}

#[test]
fn handler_rejects_bad_signatures() {
    let mut handler = Handler::new(keychain(0));
    let mut forged = signed_by(1, 7);
    forged.signable.index = NodeIndex(2);
    assert_eq!(handler.on_signed_hash(forged), Err(Error::BadSignature));
    assert_eq!(handler.on_multisigned_hash(multisign(7, &[1, 2, 3, 4])), Err(Error::BadMultisignature));
    let mut wrong = multisign(7, &[1, 2, 3, 4, 5]);
    wrong.signable = 8;
    assert_eq!(handler.on_multisigned_hash(wrong), Err(Error::BadMultisignature));
    let good = multisign(7, &[1, 2, 3, 4, 5]);
    assert_eq!(handler.on_multisigned_hash(good.clone()), Ok(Some(good)));
    assert!(handler.already_completed(7));
}

#[test]
fn own_signature_can_be_the_one_that_completes() {
    let mut handler = Handler::new(keychain(0));
    for i in 1..5 {
        assert_eq!(handler.on_signed_hash(signed_by(i, 5)), Ok(None));
    }
    assert_eq!(
        handler.on_start_rmc(5),
        OnStartRmcResponse::MultisignedHash(multisign(5, &[0, 1, 2, 3, 4])),
    );
}

#[test]
fn scheduler_sends_at_once_then_after_doubling_delays() {
    let mut scheduler = DoublingDelayScheduler::new(500);
    assert_eq!(scheduler.next_instant(), None);
    assert_eq!(scheduler.next_task(1_000_000), None);
    let task = RmcMessage::SignedHash(signed_by(0, 1));
    scheduler.add_task(task.clone(), 10_000);
    assert_eq!(scheduler.len(), 1);
    let mut due = Vec::new();
    for _ in 0..7 {
        let at = scheduler.next_instant().unwrap();
        due.push(at);
        assert_eq!(scheduler.next_task(at - 1), None);
        assert_eq!(scheduler.next_task(at), Some(task.clone()));
    }
    assert_eq!(due, vec![10_000, 10_500, 11_000, 12_000, 14_000, 18_000, 26_000]);
}

#[test]
fn scheduler_takes_the_earliest_and_the_first_among_equals() {
    let mut scheduler = DoublingDelayScheduler::new(100);
    let a = RmcMessage::SignedHash(signed_by(0, 1));
    let b = RmcMessage::SignedHash(signed_by(0, 2));
    let c = RmcMessage::SignedHash(signed_by(0, 3));
    scheduler.add_task(a.clone(), 50);
    scheduler.add_task(b.clone(), 20);
    scheduler.add_task(c.clone(), 20);
    assert!(scheduler.contains(2));
    assert!(!scheduler.contains(4));
    assert_eq!(scheduler.next_instant(), Some(20));
    assert_eq!(scheduler.next_task(60), Some(b.clone()));
    assert_eq!(scheduler.next_task(60), Some(c.clone()));
    assert_eq!(scheduler.next_task(60), Some(a.clone()));
    assert_eq!(scheduler.next_task(60), None);
    assert_eq!(scheduler.next_instant(), Some(120));
    scheduler.cancel(2);
    assert_eq!(scheduler.len(), 2);
    assert!(!scheduler.contains(2));
    assert_eq!(scheduler.next_task(130), Some(c));
    assert_eq!(scheduler.next_task(130), None);
    assert_eq!(scheduler.next_task(150), Some(a));
}

#[test]
fn scheduler_stops_at_the_end_of_time() {
    let mut scheduler = DoublingDelayScheduler::new(u64::MAX / 2 + 1);
    let task = RmcMessage::SignedHash(signed_by(0, 1));
    scheduler.add_task(task.clone(), 5);
    assert_eq!(scheduler.next_task(5), Some(task.clone()));
    assert_eq!(scheduler.next_instant(), Some(u64::MAX / 2 + 6));
    assert_eq!(scheduler.next_task(u64::MAX), Some(task.clone()));
    assert_eq!(scheduler.next_instant(), Some(u64::MAX));
    assert_eq!(scheduler.next_task(u64::MAX), Some(task));
    assert_eq!(scheduler.next_instant(), Some(u64::MAX));
}

#[test]
fn service_sends_until_the_multisignature_and_then_is_silent() {
    let mut rmc = rmc_service(0, 500);
    let hash = 42;
    assert_eq!(rmc.handle_message(RmcIncomingMessage::StartRmc(hash), 1_000), Ok(None));
    assert_eq!(rmc.next_instant(), Some(1_000));
    let own = RmcMessage::SignedHash(signed_by(0, hash));
    assert_eq!(rmc.next_message(1_000), Some(own.clone()));
    assert_eq!(rmc.next_message(1_499), None);
    assert_eq!(rmc.next_message(1_500), Some(own.clone()));
    // starting again does not start a second sending
    assert_eq!(rmc.start_rmc(hash, 1_600), None);
    assert_eq!(rmc.next_instant(), Some(2_000));
    for i in 1..4 {
        let message = RmcIncomingMessage::RmcHash(RmcMessage::SignedHash(signed_by(i, hash)));
        assert_eq!(rmc.handle_message(message, 1_700), Ok(None));
    }
    assert_eq!(rmc.next_message(2_000), Some(own));
    let last = RmcIncomingMessage::RmcHash(RmcMessage::SignedHash(signed_by(4, hash)));
    assert_eq!(rmc.handle_message(last, 2_100), Ok(Some(multisign(hash, &[0, 1, 2, 3, 4]))));
    // the multisignature is news once, and nothing is sent about the hash any more
    assert_eq!(rmc.next_instant(), None);
    assert_eq!(rmc.next_message(u64::MAX), None);
    let late = RmcIncomingMessage::RmcHash(RmcMessage::SignedHash(signed_by(5, hash)));
    assert_eq!(rmc.handle_message(late, 2_200), Ok(None));
    assert_eq!(rmc.start_rmc(hash, 2_300), None);
    assert_eq!(rmc.next_message(u64::MAX), None);
}

#[test]
fn service_takes_a_complete_multisignature_from_the_network() {
    let mut rmc = rmc_service(1, 500);
    assert_eq!(rmc.start_rmc(1, 0), None);
    assert_eq!(rmc.start_rmc(2, 0), None);
    let complete = multisign(1, &[2, 3, 4, 5, 6]);
    assert_eq!(
        rmc.on_message(RmcMessage::MultisignedHash(complete.clone())),
        Ok(Some(complete.clone())),
    );
    assert_eq!(rmc.on_message(RmcMessage::MultisignedHash(complete)), Ok(None));
    // the other hash goes on
    assert_eq!(rmc.next_message(0), Some(RmcMessage::SignedHash(signed_by(1, 2))));
    assert_eq!(rmc.next_message(0), None);
    assert_eq!(
        rmc.on_message(RmcMessage::MultisignedHash(multisign(2, &[2, 3, 4]))),
        Err(Error::BadMultisignature),
    );
    let mut forged = signed_by(3, 2);
    forged.signable.index = NodeIndex(4);
    assert_eq!(rmc.on_message(RmcMessage::SignedHash(forged)), Err(Error::BadSignature));
    assert_eq!(rmc.next_instant(), Some(500));
    assert_eq!(rmc.key_box().index(), NodeIndex(1));
}

#[test]
fn message_tells_its_hash_and_kind() {
    let signed = RmcMessage::SignedHash(signed_by(1, 5));
    let multisigned = RmcMessage::MultisignedHash(multisign(6, &[1]));
    assert_eq!(signed.hash(), 5);
    assert_eq!(multisigned.hash(), 6);
    assert!(!signed.is_complete());
    assert!(multisigned.is_complete());
}
