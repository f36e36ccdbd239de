use aleph_bft::alerts::handler::{AlerterResponse, Error, Handler, RmcResponse};
use aleph_bft::alerts::{
    sign_alert, Alert, AlertConfig, AlertData, AlertMessage, ForkProof, ForkingNotification,
};
use aleph_bft::crypto::{sign_hash, sign_with_index, Multisigned, SignatureSet};
use aleph_bft::mock::{Hasher64, Keychain};
use aleph_bft::nodes::{Hash64, Index, NodeCount, NodeIndex, Recipient, Round, SessionId};
use aleph_bft::rmc::RmcMessage;
use aleph_bft::units::{sign_unit, ControlHash, FullUnit, UncheckedSigned};

type TestHandler = Handler<Hasher64, Keychain>;

fn full_unit(n_members: NodeCount, node_id: NodeIndex, round: Round, variant: u32) -> FullUnit {
    let no_parents: Vec<Option<Hash64>> = vec![None; n_members.0];
    FullUnit::new(
        node_id,
        round,
        ControlHash::new::<Hasher64>(&no_parents),
        variant.to_le_bytes().to_vec(),
        0,
    )
}

fn make_fork_proof(
    node_id: NodeIndex,
    keychain: &Keychain,
    round: Round,
    n_members: NodeCount,
) -> ForkProof {
    let unit_0 = full_unit(n_members, node_id, round, 0);
    let unit_1 = full_unit(n_members, node_id, round, 1);
    (sign_unit::<Hasher64, Keychain>(keychain, unit_0), sign_unit::<Hasher64, Keychain>(keychain, unit_1))
}

fn node(n_members: NodeCount, index: NodeIndex, session_id: SessionId) -> TestHandler {
    Handler::new(Keychain::new(n_members, index), session_id)
}

fn multisignature(n_members: NodeCount, hash: Hash64, signers: &[usize]) -> Multisigned {
    let mut set = SignatureSet::with_size(n_members);
    for i in signers {
        let keychain = Keychain::new(n_members, NodeIndex(*i));
        set = set.add_signature(sign_hash(&keychain, hash), NodeIndex(*i));
    }
    UncheckedSigned::new(hash, set)
}

#[test]
fn distributes_alert_from_units() {
    let n_members = NodeCount(7);
    let own_index = NodeIndex(0);
    let forker_index = NodeIndex(6);
    let own_keychain = Keychain::new(n_members, own_index);
    let forker_keychain = Keychain::new(n_members, forker_index);
    let mut own_node = node(n_members, own_index, 0);
    let fork_proof = make_fork_proof(forker_index, &forker_keychain, 0, n_members);
    let alert = Alert::new(own_index, fork_proof, vec![]);
    let signed_alert = sign_alert::<Hasher64, Keychain>(&own_keychain, alert.clone());
    let alert_hash = alert.hash::<Hasher64>();
    assert_eq!(
        own_node.on_own_alert(alert),
        (AlertMessage::ForkAlert(signed_alert), Recipient::Everyone, alert_hash),
    );
}

#[test]
fn reacts_to_correctly_incoming_alert() {
    let n_members = NodeCount(7);
    let own_index = NodeIndex(1);
    let forker_index = NodeIndex(6);
    let own_keychain = Keychain::new(n_members, own_index);
    let forker_keychain = Keychain::new(n_members, forker_index);
    let mut own_node = node(n_members, own_index, 0);
    let fork_proof = make_fork_proof(forker_index, &forker_keychain, 0, n_members);
    let alert = Alert::new(own_index, fork_proof.clone(), vec![]);
    let alert_hash = alert.hash::<Hasher64>();
    let signed_alert = sign_alert::<Hasher64, Keychain>(&own_keychain, alert);
    assert_eq!(
        own_node.on_network_alert(signed_alert),
        Ok((Some(ForkingNotification::Forker(fork_proof)), alert_hash)),
    );
}

#[test]
fn asks_about_unknown_alert() {
    let n_members = NodeCount(7);
    let own_index = NodeIndex(0);
    let alerter_index = NodeIndex(1);
    let forker_index = NodeIndex(6);
    let alerter_keychain = Keychain::new(n_members, alerter_index);
    let forker_keychain = Keychain::new(n_members, forker_index);
    let own_node = node(n_members, own_index, 0);
    let fork_proof = make_fork_proof(forker_index, &forker_keychain, 0, n_members);
    let alert = Alert::new(alerter_index, fork_proof.clone(), vec![]);
    let alert_hash = alert.hash::<Hasher64>();
    let signed_alert_hash = sign_with_index(&alerter_keychain, alert_hash);
    let response = own_node.on_rmc_message(alerter_index, RmcMessage::SignedHash(signed_alert_hash));
    assert_eq!(
        response,
        RmcResponse::AlertRequest(alert_hash, Recipient::Node(alerter_index)),
    );
}

#[test]
fn ignores_wrong_alert() {
    let n_members = NodeCount(7);
    let own_index = NodeIndex(0);
    let alerter_index = NodeIndex(1);
    let forker_index = NodeIndex(6);
    let alerter_keychain = Keychain::new(n_members, alerter_index);
    let forker_keychain = Keychain::new(n_members, forker_index);
    let mut own_node = node(n_members, own_index, 0);
    let valid_unit =
        sign_unit::<Hasher64, Keychain>(&alerter_keychain, full_unit(n_members, alerter_index, 0, 0));
    let wrong_fork_proof = (valid_unit.clone(), valid_unit);
    let wrong_alert = Alert::new(forker_index, wrong_fork_proof.clone(), vec![]);
    let wrong_hash = wrong_alert.hash::<Hasher64>();
    let signed_wrong_alert = sign_alert::<Hasher64, Keychain>(&forker_keychain, wrong_alert);
    assert_eq!(
        own_node.on_network_alert(signed_wrong_alert),
        Err(Error::IncorrectProof(forker_index)),
    );
    // nothing was recorded: the alert cannot be handed out and its sender is no forker
    assert_eq!(
        own_node.on_alert_request(alerter_index, wrong_hash),
        Err(Error::UnknownAlertRequest),
    );
    assert!(!own_node.is_forker(alerter_index));
    assert!(!own_node.is_forker(forker_index));
}

#[test]
fn responds_to_alert_queries() {
    let n_members = NodeCount(7);
    let own_index = NodeIndex(0);
    let forker_index = NodeIndex(6);
    let own_keychain = Keychain::new(n_members, own_index);
    let forker_keychain = Keychain::new(n_members, forker_index);
    let mut own_node = node(n_members, own_index, 0);
    let alert = Alert::new(
        own_index,
        make_fork_proof(forker_index, &forker_keychain, 0, n_members),
        vec![],
    );
    let alert_hash = alert.hash::<Hasher64>();
    let signed_alert = sign_alert::<Hasher64, Keychain>(&own_keychain, alert.clone());
    assert!(own_node.on_network_alert(signed_alert.clone()).is_ok());
    for i in 1..n_members.0 {
        let node_id = NodeIndex(i);
        assert_eq!(
            own_node.on_alert_request(node_id, alert_hash),
            Ok((signed_alert.clone(), Recipient::Node(node_id))),
        );
    }
}

#[test]
fn notifies_only_about_multisigned_alert() {
    let n_members = NodeCount(7);
    let own_index = NodeIndex(0);
    let other_honest_node = NodeIndex(1);
    let double_committer = NodeIndex(5);
    let forker_index = NodeIndex(6);
    let keychains: Vec<_> =
        (0..n_members.0).map(|i| Keychain::new(n_members, NodeIndex(i))).collect();
    let mut own_node = node(n_members, own_index, 0);
    let fork_proof = make_fork_proof(forker_index, &keychains[forker_index.0], 0, n_members);
    let empty_alert = Alert::new(double_committer, fork_proof.clone(), vec![]);
    let empty_alert_hash = empty_alert.hash::<Hasher64>();
    let signed_empty_alert =
        sign_alert::<Hasher64, Keychain>(&keychains[double_committer.0], empty_alert.clone());
    let multisigned_empty_alert_hash = multisignature(n_members, empty_alert_hash, &[double_committer.0]);
    assert_eq!(
        own_node.on_network_alert(signed_empty_alert),
        Ok((Some(ForkingNotification::Forker(fork_proof.clone())), empty_alert_hash)),
    );
    let message = RmcMessage::MultisignedHash(multisigned_empty_alert_hash);
    assert_eq!(
        own_node.on_rmc_message(other_honest_node, message.clone()),
        RmcResponse::RmcMessage(message),
    );
    let forker_unit = fork_proof.0.clone();
    let nonempty_alert =
        Alert::new(double_committer, fork_proof.clone(), vec![forker_unit.clone()]);
    let nonempty_alert_hash = nonempty_alert.hash::<Hasher64>();
    let signed_nonempty_alert =
        sign_alert::<Hasher64, Keychain>(&keychains[double_committer.0], nonempty_alert.clone());
    let multisigned_nonempty_alert_hash =
        multisignature(n_members, nonempty_alert_hash, &[double_committer.0, 1, 2, 3, 4]);
    let message = RmcMessage::MultisignedHash(multisigned_nonempty_alert_hash.clone());
    assert_eq!(
        own_node.on_network_alert(signed_nonempty_alert),
        Err(Error::RepeatedAlert(double_committer, forker_index)),
    );
    assert_eq!(
        own_node.on_rmc_message(other_honest_node, message.clone()),
        RmcResponse::RmcMessage(message),
    );
    // once its multicast has completed, the alert's units are released
    assert_eq!(
        own_node.alert_confirmed(&multisigned_nonempty_alert_hash),
        Ok(ForkingNotification::Units(vec![forker_unit])),
    );
}

#[test]
fn ignores_insufficiently_multisigned_alert() {
    let n_members = NodeCount(7);
    let own_index = NodeIndex(0);
    let other_honest_node = NodeIndex(1);
    let double_committer = NodeIndex(5);
    let forker_index = NodeIndex(6);
    let keychains: Vec<_> =
        (0..n_members.0).map(|i| Keychain::new(n_members, NodeIndex(i))).collect();
    let mut own_node = node(n_members, own_index, 0);
    let fork_proof = make_fork_proof(forker_index, &keychains[forker_index.0], 0, n_members);
    let empty_alert = Alert::new(double_committer, fork_proof.clone(), vec![]);
    let empty_alert_hash = empty_alert.hash::<Hasher64>();
    let signed_empty_alert =
        sign_alert::<Hasher64, Keychain>(&keychains[double_committer.0], empty_alert.clone());
    assert_eq!(
        own_node.on_network_alert(signed_empty_alert),
        Ok((Some(ForkingNotification::Forker(fork_proof.clone())), empty_alert_hash)),
    );
    let forker_unit = fork_proof.0.clone();
    let nonempty_alert =
        Alert::new(double_committer, fork_proof.clone(), vec![forker_unit.clone()]);
    let nonempty_alert_hash = nonempty_alert.hash::<Hasher64>();
    let signed_nonempty_alert =
        sign_alert::<Hasher64, Keychain>(&keychains[double_committer.0], nonempty_alert.clone());
    let multisigned_nonempty_alert_hash =
        multisignature(n_members, nonempty_alert_hash, &[double_committer.0, 1, 2]);
    let message = RmcMessage::MultisignedHash(multisigned_nonempty_alert_hash);
    assert_eq!(
        own_node.on_network_alert(signed_nonempty_alert),
        Err(Error::RepeatedAlert(double_committer, forker_index)),
    );
    assert_eq!(
        own_node.on_rmc_message(other_honest_node, message.clone()),
        RmcResponse::Noop,
    );
}

#[test]
fn who_is_forking_ok() {
    let n_members = NodeCount(7);
    let forker_index = NodeIndex(6);
    let forker_keychain = Keychain::new(n_members, forker_index);
    let own_node = node(n_members, NodeIndex(0), 0);
    let fork_proof = make_fork_proof(forker_index, &forker_keychain, 0, n_members);
    assert_eq!(own_node.who_is_forking(&fork_proof), Some(forker_index));
}

#[test]
fn who_is_forking_wrong_session() {
    let n_members = NodeCount(7);
    let forker_index = NodeIndex(6);
    let forker_keychain = Keychain::new(n_members, forker_index);
    let own_node = node(n_members, NodeIndex(0), 1);
    let fork_proof = make_fork_proof(forker_index, &forker_keychain, 0, n_members);
    assert_eq!(own_node.who_is_forking(&fork_proof), None);
}

#[test]
fn who_is_forking_different_creators() {
    let n_members = NodeCount(7);
    let keychains: Vec<_> =
        (0..n_members.0).map(|i| Keychain::new(n_members, NodeIndex(i))).collect();
    let own_node = node(n_members, NodeIndex(0), 1);
    let fork_proof = {
        let unit_0 = full_unit(n_members, NodeIndex(6), 0, 0);
        let unit_1 = full_unit(n_members, NodeIndex(5), 0, 0);
        (
            sign_unit::<Hasher64, Keychain>(&keychains[6], unit_0),
            sign_unit::<Hasher64, Keychain>(&keychains[5], unit_1),
        )
    };
    assert_eq!(own_node.who_is_forking(&fork_proof), None);
}

#[test]
fn who_is_forking_different_rounds() {
    let n_members = NodeCount(7);
    let forker_index = NodeIndex(6);
    let forker_keychain = Keychain::new(n_members, forker_index);
    let own_node = node(n_members, NodeIndex(0), 0);
    let fork_proof = {
        let unit_0 = full_unit(n_members, forker_index, 0, 0);
        let unit_1 = full_unit(n_members, forker_index, 1, 0);
        (
            sign_unit::<Hasher64, Keychain>(&forker_keychain, unit_0),
            sign_unit::<Hasher64, Keychain>(&forker_keychain, unit_1),
        )
    };
    assert_eq!(own_node.who_is_forking(&fork_proof), None);
}

#[test]
fn who_is_forking_different_creators_in_session() {
    // the session fits, so that only the creators are at fault
    let n_members = NodeCount(7);
    let keychains: Vec<_> =
        (0..n_members.0).map(|i| Keychain::new(n_members, NodeIndex(i))).collect();
    let own_node = node(n_members, NodeIndex(0), 0);
    let fork_proof = (
        sign_unit::<Hasher64, Keychain>(&keychains[6], full_unit(n_members, NodeIndex(6), 0, 0)),
        sign_unit::<Hasher64, Keychain>(&keychains[5], full_unit(n_members, NodeIndex(5), 0, 0)),
    );
    assert_eq!(own_node.who_is_forking(&fork_proof), None);
}

#[test]
fn who_is_forking_rejects_forged_signature() {
    let n_members = NodeCount(7);
    let forker_index = NodeIndex(6);
    // the units name participant 6, but participant 5 has signed them
    let other_keychain = Keychain::new(n_members, NodeIndex(5));
    let own_node = node(n_members, NodeIndex(0), 0);
    let fork_proof = make_fork_proof(forker_index, &other_keychain, 0, n_members);
    assert_eq!(own_node.who_is_forking(&fork_proof), None);
}

#[test]
fn accepted_alert_proves_its_forker() {
    let n_members = NodeCount(7);
    let sender = NodeIndex(2);
    let forker_index = NodeIndex(4);
    let mut own_node = node(n_members, NodeIndex(0), 0);
    let proof = make_fork_proof(forker_index, &Keychain::new(n_members, forker_index), 3, n_members);
    let alert = Alert::new(sender, proof.clone(), vec![]);
    let signed = sign_alert::<Hasher64, Keychain>(&Keychain::new(n_members, sender), alert);
    assert!(own_node.on_network_alert(signed).is_ok());
    assert_eq!(own_node.who_is_forking(&proof), Some(proof.0.signable.creator));
    assert!(own_node.is_forker(forker_index));
}

#[test]
fn rejects_incorrectly_signed_alert() {
    let n_members = NodeCount(7);
    let sender = NodeIndex(2);
    let forker_index = NodeIndex(4);
    let mut own_node = node(n_members, NodeIndex(0), 0);
    let proof = make_fork_proof(forker_index, &Keychain::new(n_members, forker_index), 3, n_members);
    let alert = Alert::new(sender, proof, vec![]);
    // signed by participant 3 in the name of participant 2
    let signed = sign_alert::<Hasher64, Keychain>(&Keychain::new(n_members, NodeIndex(3)), alert);
    assert_eq!(own_node.on_network_alert(signed), Err(Error::IncorrectlySignedAlert));
    assert!(!own_node.is_forker(forker_index));
}

#[test]
fn known_forker_is_not_announced_again() {
    let n_members = NodeCount(7);
    let forker_index = NodeIndex(4);
    let mut own_node = node(n_members, NodeIndex(0), 0);
    let proof = make_fork_proof(forker_index, &Keychain::new(n_members, forker_index), 3, n_members);
    let first = Alert::new(NodeIndex(1), proof.clone(), vec![]);
    let second = Alert::new(NodeIndex(2), proof.clone(), vec![]);
    let second_hash = second.hash::<Hasher64>();
    let first = sign_alert::<Hasher64, Keychain>(&Keychain::new(n_members, NodeIndex(1)), first);
    let second = sign_alert::<Hasher64, Keychain>(&Keychain::new(n_members, NodeIndex(2)), second);
    assert!(matches!(own_node.on_network_alert(first), Ok((Some(_), _))));
    assert_eq!(own_node.on_network_alert(second), Ok((None, second_hash)));
}

#[test]
fn confirmation_of_unknown_alert_is_an_error() {
    let n_members = NodeCount(7);
    let mut own_node = node(n_members, NodeIndex(0), 0);
    let multisigned = multisignature(n_members, 17, &[0, 1, 2, 3, 4]);
    assert_eq!(own_node.alert_confirmed(&multisigned), Err(Error::UnknownAlertRmc));
}

#[test]
fn commitment_with_repeated_round_is_not_released() {
    let n_members = NodeCount(7);
    let sender = NodeIndex(2);
    let forker_index = NodeIndex(4);
    let forker_keychain = Keychain::new(n_members, forker_index);
    let mut own_node = node(n_members, NodeIndex(0), 0);
    let proof = make_fork_proof(forker_index, &forker_keychain, 3, n_members);
    let legit = vec![proof.0.clone(), proof.1.clone()];
    let alert = Alert::new(sender, proof, legit);
    let hash = alert.hash::<Hasher64>();
    let signed = sign_alert::<Hasher64, Keychain>(&Keychain::new(n_members, sender), alert);
    assert!(own_node.on_network_alert(signed).is_ok());
    let multisigned = multisignature(n_members, hash, &[0, 1, 2, 3, 5]);
    assert_eq!(own_node.alert_confirmed(&multisigned), Err(Error::IncorrectCommitment(sender)));
}

#[test]
fn commitment_checks_creator_session_and_signature() {
    let n_members = NodeCount(7);
    let forker_index = NodeIndex(4);
    let forker_keychain = Keychain::new(n_members, forker_index);
    let own_node = node(n_members, NodeIndex(0), 0);
    let good = sign_unit::<Hasher64, Keychain>(&forker_keychain, full_unit(n_members, forker_index, 1, 0));
    let later = sign_unit::<Hasher64, Keychain>(&forker_keychain, full_unit(n_members, forker_index, 2, 0));
    assert!(own_node.correct_commitment(forker_index, &vec![]));
    assert!(own_node.correct_commitment(forker_index, &vec![good.clone(), later.clone()]));
    // another creator
    let other = sign_unit::<Hasher64, Keychain>(
        &Keychain::new(n_members, NodeIndex(3)),
        full_unit(n_members, NodeIndex(3), 5, 0),
    );
    assert!(!own_node.correct_commitment(forker_index, &vec![good.clone(), other]));
    // another session
    let mut elsewhere = full_unit(n_members, forker_index, 6, 0);
    elsewhere.session_id = 9;
    let elsewhere = sign_unit::<Hasher64, Keychain>(&forker_keychain, elsewhere);
    assert!(!own_node.correct_commitment(forker_index, &vec![good.clone(), elsewhere]));
    // a signature that is not the creator's
    let forged = sign_unit::<Hasher64, Keychain>(
        &Keychain::new(n_members, NodeIndex(3)),
        full_unit(n_members, forker_index, 7, 0),
    );
    assert!(!own_node.correct_commitment(forker_index, &vec![good, forged]));
}

#[test]
fn handler_reports_its_index_and_session() {
    let own_node = node(NodeCount(7), NodeIndex(3), 12);
    assert_eq!(own_node.index(), NodeIndex(3));
    assert_eq!(own_node.session_id(), 12);
}

#[test]
fn alert_lists_the_data_of_its_legit_units() {
    let n_members = NodeCount(7);
    let forker_index = NodeIndex(4);
    let forker_keychain = Keychain::new(n_members, forker_index);
    let proof = make_fork_proof(forker_index, &forker_keychain, 3, n_members);
    let unit = sign_unit::<Hasher64, Keychain>(&forker_keychain, full_unit(n_members, forker_index, 9, 77));
    let alert = Alert::new(NodeIndex(1), proof, vec![unit]);
    assert_eq!(alert.included_data(), vec![77u32.to_le_bytes().to_vec()]);
    assert_eq!(alert.forker(), forker_index);
    assert_eq!(alert.index(), NodeIndex(1));
}

#[test]
fn on_message_answers_by_kind() {
    let n_members = NodeCount(7);
    let forker_index = NodeIndex(6);
    let alerter_index = NodeIndex(1);
    let mut own_node = node(n_members, NodeIndex(0), 0);
    let proof = make_fork_proof(forker_index, &Keychain::new(n_members, forker_index), 0, n_members);
    let alert = Alert::new(alerter_index, proof.clone(), vec![]);
    let hash = alert.hash::<Hasher64>();
    let signed = sign_alert::<Hasher64, Keychain>(&Keychain::new(n_members, alerter_index), alert);
    let partial = RmcMessage::SignedHash(sign_with_index(&Keychain::new(n_members, NodeIndex(2)), hash));
    assert_eq!(
        own_node.on_message(AlertMessage::RmcHash(NodeIndex(2), partial.clone())),
        Some(AlerterResponse::AlertRequest(hash, Recipient::Node(NodeIndex(2)))),
    );
    assert_eq!(own_node.on_message(AlertMessage::AlertRequest(NodeIndex(3), hash)), None);
    assert_eq!(
        own_node.on_message(AlertMessage::ForkAlert(signed.clone())),
        Some(AlerterResponse::ForkResponse(Some(ForkingNotification::Forker(proof)), hash)),
    );
    assert_eq!(own_node.on_message(AlertMessage::ForkAlert(signed.clone())), None);
    assert_eq!(
        own_node.on_message(AlertMessage::RmcHash(NodeIndex(2), partial.clone())),
        Some(AlerterResponse::RmcMessage(partial)),
    );
    assert_eq!(
        own_node.on_message(AlertMessage::AlertRequest(NodeIndex(3), hash)),
        Some(AlerterResponse::ForkAlert(signed, Recipient::Node(NodeIndex(3)))),
    );
}

#[test]
fn replay_restores_what_is_decided_about_alerts() {
    let n_members = NodeCount(7);
    let forker_index = NodeIndex(6);
    let other_forker = NodeIndex(5);
    let config = AlertConfig { n_members, session_id: 0 };
    let mut live = TestHandler::with_config(Keychain::new(n_members, NodeIndex(0)), config);
    let proof = make_fork_proof(forker_index, &Keychain::new(n_members, forker_index), 0, n_members);
    let other_proof =
        make_fork_proof(other_forker, &Keychain::new(n_members, other_forker), 2, n_members);

    let own_alert = Alert::new(NodeIndex(0), proof.clone(), vec![]);
    let network_alert = Alert::new(NodeIndex(1), other_proof.clone(), vec![]);
    let signed_network_alert =
        sign_alert::<Hasher64, Keychain>(&Keychain::new(n_members, NodeIndex(1)), network_alert.clone());
    let own_hash = own_alert.hash::<Hasher64>();
    live.on_own_alert(own_alert.clone());
    assert!(live.on_network_alert(signed_network_alert.clone()).is_ok());
    let multisigned = multisignature(n_members, own_hash, &[0, 1, 2, 3, 4]);
    assert!(live.alert_confirmed(&multisigned).is_ok());
    let log = vec![
        AlertData::OwnAlert(own_alert),
        AlertData::NetworkAlert(network_alert),
        AlertData::MultisignedHash(multisigned),
    ];

    let mut restarted = node(n_members, NodeIndex(0), 0);
    restarted.replay(&log);
    let mut twice = node(n_members, NodeIndex(0), 0);
    twice.replay(&log);
    twice.replay(&log);

    // alerts by some senders about the two forkers, and one about a third participant
    let third_proof = make_fork_proof(NodeIndex(4), &Keychain::new(n_members, NodeIndex(4)), 1, n_members);
    let mut questions = vec![signed_network_alert];
    for (sender, proof) in [(1, proof.clone()), (2, other_proof.clone()), (0, proof), (3, third_proof)] {
        let alert = Alert::new(NodeIndex(sender), proof, vec![]);
        questions.push(sign_alert::<Hasher64, Keychain>(
            &Keychain::new(n_members, NodeIndex(sender)),
            alert,
        ));
    }
    for (i, question) in questions.into_iter().enumerate() {
        let before = live.on_network_alert(question.clone());
        assert_eq!(restarted.on_network_alert(question.clone()), before, "question {}", i);
        assert_eq!(twice.on_network_alert(question), before, "question {}", i);
    }
    for i in 0..7 {
        assert_eq!(restarted.is_forker(NodeIndex(i)), live.is_forker(NodeIndex(i)));
    }
    // the own alert can be handed out again, with a signature of this participant
    assert!(restarted.on_alert_request(NodeIndex(3), own_hash).is_ok());
}

#[test]
fn replay_skips_what_proves_no_fork() {
    let n_members = NodeCount(7);
    let same = sign_unit::<Hasher64, Keychain>(
        &Keychain::new(n_members, NodeIndex(2)),
        full_unit(n_members, NodeIndex(2), 0, 0),
    );
    let no_alert = Alert::new(NodeIndex(1), (same.clone(), same), vec![]);
    let mut restarted = node(n_members, NodeIndex(0), 0);
    restarted.replay_record(&AlertData::NetworkAlert(no_alert));
    restarted.replay_record(&AlertData::MultisignedHash(multisignature(n_members, 3, &[1, 2, 3, 4, 5])));
    assert!(!restarted.is_forker(NodeIndex(2)));
}
