use aleph_bft::alerts::handler::Handler;
use aleph_bft::alerts::service::{Service, ServiceAction, ServiceEvent, DEFAULT_DELAY_MILLIS};
use aleph_bft::alerts::{
    sign_alert, Alert, AlertConfig, AlertData, AlertMessage, ForkProof, ForkingNotification,
};
use aleph_bft::crypto::{sign_hash, sign_with_index, Multisigned, SignatureSet};
use aleph_bft::mock::{Hasher64, Keychain};
use aleph_bft::nodes::{Hash64, NodeCount, NodeIndex, Recipient, Round};
use aleph_bft::rmc::RmcMessage;
use aleph_bft::spawner::Spawner;
use aleph_bft::units::{sign_unit, ControlHash, FullUnit, UncheckedSigned, UncheckedSignedUnit};

const N: NodeCount = NodeCount(7);

type TestService = Service<Hasher64, Keychain>;

fn keys(i: usize) -> Keychain {
    Keychain::new(N, NodeIndex(i))
}

fn service(i: usize) -> TestService {
    let config = AlertConfig { n_members: N, session_id: 0 };
    Service::new(keys(i), Handler::new(keys(i), config.session_id))
}

fn unit(creator: usize, round: Round, variant: u32) -> UncheckedSignedUnit {
    let no_parents: Vec<Option<Hash64>> = vec![None; N.0];
    let unit = FullUnit::new(
        NodeIndex(creator),
        round,
        ControlHash::new::<Hasher64>(&no_parents),
        variant.to_le_bytes().to_vec(),
        0,
    );
    sign_unit::<Hasher64, Keychain>(&keys(creator), unit)
}

fn fork_proof(forker: usize) -> ForkProof {
    (unit(forker, 0, 0), unit(forker, 0, 1))
}

fn multisigned_by(hash: Hash64, signers: &[usize]) -> Multisigned {
    let mut set = SignatureSet::with_size(N);
    for i in signers {
        set = set.add_signature(sign_hash(&keys(*i), hash), NodeIndex(*i));
    }
    UncheckedSigned::new(hash, set)
}

fn partial(sender: usize, hash: Hash64) -> ServiceEvent {
    ServiceEvent::MessageFromNetwork(AlertMessage::RmcHash(
        NodeIndex(sender),
        RmcMessage::SignedHash(sign_with_index(&keys(sender), hash)),
    ))
}

#[test]
fn own_alert_is_written_then_broadcast_then_multisigned() {
    let mut own = service(0);
    let alert = Alert::new(NodeIndex(0), fork_proof(6), vec![]);
    let hash = alert.hash::<Hasher64>();
    let signed = sign_alert::<Hasher64, Keychain>(&keys(0), alert.clone());

    // nothing is broadcast before the backup has the alert
    assert_eq!(
        own.handle_event(ServiceEvent::AlertFromUnits(alert.clone()), 100),
        vec![ServiceAction::DataForBackup(AlertData::OwnAlert(alert.clone()))],
    );
    assert_eq!(own.handle_event(ServiceEvent::Tick, 100), vec![]);
    assert_eq!(own.next_instant(), None);

    assert_eq!(
        own.handle_event(ServiceEvent::ResponseFromBackup(AlertData::OwnAlert(alert.clone())), 200),
        vec![ServiceAction::MessageForNetwork(
            AlertMessage::ForkAlert(signed.clone()),
            Recipient::Everyone
        )],
    );
    // a second word of the backup finds nothing waiting
    assert_eq!(
        own.handle_event(ServiceEvent::ResponseFromBackup(AlertData::OwnAlert(alert)), 200),
        vec![],
    );

    // the own signature on the hash is sent at once, after the delay, and then ever more rarely
    let own_partial = ServiceAction::MessageForNetwork(
        AlertMessage::RmcHash(NodeIndex(0), RmcMessage::SignedHash(sign_with_index(&keys(0), hash))),
        Recipient::Everyone,
    );
    assert_eq!(own.next_instant(), Some(200));
    assert_eq!(own.handle_event(ServiceEvent::Tick, 200), vec![own_partial.clone()]);
    assert_eq!(own.handle_event(ServiceEvent::Tick, 200), vec![]);
    assert_eq!(own.next_instant(), Some(200 + DEFAULT_DELAY_MILLIS));
    assert_eq!(own.handle_event(ServiceEvent::Tick, 700), vec![own_partial.clone()]);
    assert_eq!(own.next_instant(), Some(1200));

    // four of seven are no quorum
    for sender in 1..4 {
        assert_eq!(own.handle_event(partial(sender, hash), 800), vec![]);
    }
    // the fifth signature completes the multisignature, which goes to the backup
    let multisigned = multisigned_by(hash, &[0, 1, 2, 3, 4]);
    assert_eq!(
        own.handle_event(partial(4, hash), 900),
        vec![ServiceAction::DataForBackup(AlertData::MultisignedHash(multisigned.clone()))],
    );
    // from then on nothing is sent about the hash
    assert_eq!(own.next_instant(), None);
    assert_eq!(own.handle_event(ServiceEvent::Tick, u64::MAX), vec![]);
    // the units are released once the backup has the multisignature
    assert_eq!(
        own.handle_event(
            ServiceEvent::ResponseFromBackup(AlertData::MultisignedHash(multisigned.clone())),
            1000
        ),
        vec![ServiceAction::NotificationForUnits(ForkingNotification::Units(vec![]))],
    );
    assert_eq!(
        own.handle_event(
            ServiceEvent::ResponseFromBackup(AlertData::MultisignedHash(multisigned)),
            1000
        ),
        vec![],
    );
}

#[test]
fn network_alert_is_written_then_multicast_and_the_forker_announced() {
    let mut own = service(1);
    let proof = fork_proof(6);
    let alert = Alert::new(NodeIndex(0), proof.clone(), vec![]);
    let hash = alert.hash::<Hasher64>();
    let signed = sign_alert::<Hasher64, Keychain>(&keys(0), alert.clone());
    let incoming = ServiceEvent::MessageFromNetwork(AlertMessage::ForkAlert(signed.clone()));
    assert_eq!(
        own.handle_event(incoming, 10),
        vec![ServiceAction::DataForBackup(AlertData::NetworkAlert(alert.clone()))],
    );
    // the same alert again is not accepted again
    let again = ServiceEvent::MessageFromNetwork(AlertMessage::ForkAlert(signed.clone()));
    assert_eq!(own.handle_event(again, 11), vec![]);
    assert_eq!(own.next_instant(), None);
    assert_eq!(
        own.handle_event(ServiceEvent::ResponseFromBackup(AlertData::NetworkAlert(alert)), 20),
        vec![ServiceAction::NotificationForUnits(ForkingNotification::Forker(proof))],
    );
    assert_eq!(
        own.handle_event(ServiceEvent::Tick, 20),
        vec![ServiceAction::MessageForNetwork(
            AlertMessage::RmcHash(
                NodeIndex(1),
                RmcMessage::SignedHash(sign_with_index(&keys(1), hash))
            ),
            Recipient::Everyone,
        )],
    );
    // the alert is handed out to whoever asks for it
    assert_eq!(
        own.handle_event(
            ServiceEvent::MessageFromNetwork(AlertMessage::AlertRequest(NodeIndex(3), hash)),
            30
        ),
        vec![ServiceAction::MessageForNetwork(
            AlertMessage::ForkAlert(signed),
            Recipient::Node(NodeIndex(3))
        )],
    );
    assert_eq!(
        own.handle_event(
            ServiceEvent::MessageFromNetwork(AlertMessage::AlertRequest(NodeIndex(3), hash + 1)),
            30
        ),
        vec![],
    );
}

#[test]
fn rmc_message_for_unknown_alert_triggers_fetch() {
    let mut own = service(0);
    let alert = Alert::new(NodeIndex(1), fork_proof(6), vec![]);
    let hash = alert.hash::<Hasher64>();
    assert_eq!(
        own.handle_event(partial(1, hash), 5),
        vec![ServiceAction::MessageForNetwork(
            AlertMessage::AlertRequest(NodeIndex(0), hash),
            Recipient::Node(NodeIndex(1)),
        )],
    );
}

#[test]
fn self_proof_is_rejected_without_a_trace() {
    let mut own = service(0);
    let same = unit(1, 0, 0);
    let alert = Alert::new(NodeIndex(6), (same.clone(), same), vec![]);
    let hash = alert.hash::<Hasher64>();
    let signed = sign_alert::<Hasher64, Keychain>(&keys(6), alert);
    assert_eq!(
        own.handle_event(ServiceEvent::MessageFromNetwork(AlertMessage::ForkAlert(signed)), 1),
        vec![],
    );
    // the alert is still unknown: a message about its hash makes the service ask for it
    assert_eq!(
        own.handle_event(partial(2, hash), 2),
        vec![ServiceAction::MessageForNetwork(
            AlertMessage::AlertRequest(NodeIndex(0), hash),
            Recipient::Node(NodeIndex(2)),
        )],
    );
}

#[test]
fn units_are_released_only_for_the_multisigned_alert() {
    let double_committer = 5;
    let forker = 6;
    let proof = fork_proof(forker);
    let first = Alert::new(NodeIndex(double_committer), proof.clone(), vec![unit(forker, 1, 0)]);
    let second = Alert::new(NodeIndex(double_committer), proof.clone(), vec![unit(forker, 2, 0)]);
    let first_hash = first.hash::<Hasher64>();
    let second_hash = second.hash::<Hasher64>();
    let mut own = service(0);
    for alert in [first.clone(), second.clone()] {
        let signed = sign_alert::<Hasher64, Keychain>(&keys(double_committer), alert);
        own.handle_event(ServiceEvent::MessageFromNetwork(AlertMessage::ForkAlert(signed)), 0);
    }
    // the second alert, with three signatures, gets nowhere
    let short = ServiceEvent::MessageFromNetwork(AlertMessage::RmcHash(
        NodeIndex(1),
        RmcMessage::MultisignedHash(multisigned_by(second_hash, &[double_committer, 1, 2])),
    ));
    assert_eq!(own.handle_event(short, 1), vec![]);
    // the first, with a quorum, is written and then released
    let complete = multisigned_by(first_hash, &[double_committer, 1, 2, 3, 4]);
    let full = ServiceEvent::MessageFromNetwork(AlertMessage::RmcHash(
        NodeIndex(1),
        RmcMessage::MultisignedHash(complete.clone()),
    ));
    assert_eq!(
        own.handle_event(full, 2),
        vec![ServiceAction::DataForBackup(AlertData::MultisignedHash(complete.clone()))],
    );
    assert_eq!(
        own.handle_event(ServiceEvent::ResponseFromBackup(AlertData::MultisignedHash(complete)), 3),
        vec![ServiceAction::NotificationForUnits(ForkingNotification::Units(first.legit_units))],
    );
    // an acknowledgement for the second alert releases nothing
    let never = multisigned_by(second_hash, &[double_committer, 1, 2]);
    assert_eq!(
        own.handle_event(ServiceEvent::ResponseFromBackup(AlertData::MultisignedHash(never)), 4),
        vec![],
    );
}

#[test]
fn later_multisignature_makes_its_alert_the_one_that_counts() {
    let double_committer = 5;
    let proof = fork_proof(6);
    let first = Alert::new(NodeIndex(double_committer), proof.clone(), vec![]);
    let second = Alert::new(NodeIndex(double_committer), proof.clone(), vec![unit(6, 2, 0)]);
    let first_hash = first.hash::<Hasher64>();
    let second_hash = second.hash::<Hasher64>();
    let mut own = service(0);
    for alert in [first, second.clone()] {
        let signed = sign_alert::<Hasher64, Keychain>(&keys(double_committer), alert);
        own.handle_event(ServiceEvent::MessageFromNetwork(AlertMessage::ForkAlert(signed)), 0);
    }
    // a partial signature for the second alert is stale while the first is the one multicast
    assert_eq!(own.handle_event(partial(1, second_hash), 1), vec![]);
    let complete = multisigned_by(second_hash, &[1, 2, 3, 4, 5]);
    let full = ServiceEvent::MessageFromNetwork(AlertMessage::RmcHash(
        NodeIndex(1),
        RmcMessage::MultisignedHash(complete.clone()),
    ));
    assert_eq!(
        own.handle_event(full, 2),
        vec![ServiceAction::DataForBackup(AlertData::MultisignedHash(complete))],
    );
    // now messages for the first are stale, and those for the second pass
    assert_eq!(own.handle_event(partial(2, first_hash), 3), vec![]);
    assert_eq!(own.handle_event(partial(2, second_hash), 3), vec![]);
}

#[test]
fn invalid_commitment_is_recorded_but_not_released() {
    let sender = 5;
    let proof = fork_proof(6);
    // two units of the same round are no valid commitment
    let alert = Alert::new(NodeIndex(sender), proof.clone(), vec![proof.0.clone(), proof.1.clone()]);
    let hash = alert.hash::<Hasher64>();
    let mut own = service(0);
    let signed = sign_alert::<Hasher64, Keychain>(&keys(sender), alert);
    own.handle_event(ServiceEvent::MessageFromNetwork(AlertMessage::ForkAlert(signed)), 0);
    let complete = multisigned_by(hash, &[1, 2, 3, 4, 5]);
    let full = ServiceEvent::MessageFromNetwork(AlertMessage::RmcHash(
        NodeIndex(1),
        RmcMessage::MultisignedHash(complete.clone()),
    ));
    assert_eq!(
        own.handle_event(full, 1),
        vec![ServiceAction::DataForBackup(AlertData::MultisignedHash(complete.clone()))],
    );
    assert_eq!(
        own.handle_event(ServiceEvent::ResponseFromBackup(AlertData::MultisignedHash(complete)), 2),
        vec![],
    );
}

#[test]
fn stopped_service_does_nothing() {
    let mut own = service(0);
    let alert = Alert::new(NodeIndex(0), fork_proof(6), vec![]);
    assert!(!own.is_exiting());
    assert_eq!(own.handle_event(ServiceEvent::Exit, 0), vec![]);
    assert!(own.is_exiting());
    assert_eq!(own.handle_event(ServiceEvent::AlertFromUnits(alert), 1), vec![]);
    assert_eq!(own.handle_event(ServiceEvent::Tick, 2), vec![]);
}

#[test]
fn run_takes_the_events_in_order() {
    let alert = Alert::new(NodeIndex(0), fork_proof(6), vec![]);
    let hash = alert.hash::<Hasher64>();
    let signed = sign_alert::<Hasher64, Keychain>(&keys(0), alert.clone());
    let mut own = Service::<Hasher64, Keychain>::with_delay(
        keys(0),
        Handler::new(keys(0), 0),
        10,
    );
    let actions = own.run(vec![
        (ServiceEvent::AlertFromUnits(alert.clone()), 0),
        (ServiceEvent::ResponseFromBackup(AlertData::OwnAlert(alert.clone())), 1),
        (ServiceEvent::Tick, 1),
        (ServiceEvent::Tick, 5),
        (ServiceEvent::Tick, 11),
        (ServiceEvent::Exit, 12),
        (ServiceEvent::Tick, 100),
    ]);
    let own_partial = ServiceAction::MessageForNetwork(
        AlertMessage::RmcHash(NodeIndex(0), RmcMessage::SignedHash(sign_with_index(&keys(0), hash))),
        Recipient::Everyone,
    );
    assert_eq!(
        actions,
        vec![
            ServiceAction::DataForBackup(AlertData::OwnAlert(alert)),
            ServiceAction::MessageForNetwork(AlertMessage::ForkAlert(signed), Recipient::Everyone),
            own_partial.clone(),
            own_partial,
        ],
    );
    assert!(own.is_exiting());
}

#[test]
fn spawner_is_a_token() {
    assert_eq!(Spawner::new(), Spawner);
}
