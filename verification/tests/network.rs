use aleph_bft::alerts::{Alert, AlertMessage};
use aleph_bft::codec::{encode, Wire};
use aleph_bft::mock::Hasher64;
use aleph_bft::network::{HubAction, HubEvent, NetworkData, NetworkDataInner, NetworkHub, UnitMessage};
use aleph_bft::nodes::{Hasher, NodeIndex, Recipient, Round};
use aleph_bft::units::{ControlHash, FullUnit, Signature, UncheckedSigned, UncheckedSignedUnit, UnitCoord};

fn test_data(variant: u32) -> Vec<u8> {
    let mut data = encode(&UnitCoord::new(7, NodeIndex(13)));
    data.extend_from_slice(&variant.to_le_bytes());
    data
}

fn test_unchecked_unit(creator: NodeIndex, round: Round, variant: u32) -> UncheckedSignedUnit {
    let control_hash = ControlHash {
        parents_mask: vec![false; 7],
        combined_hash: Hasher64::hash(&0i32.to_le_bytes()),
    };
    UncheckedSigned::new(
        FullUnit::new(creator, round, control_hash, test_data(variant), 0),
        Signature { bytes: vec![] },
    )
}

fn decode_network_data(bytes: &[u8]) -> Option<NetworkData> {
    match NetworkData::decode(bytes, 0) {
        Some((data, read)) if read == bytes.len() => Some(data),
        _ => None,
    }
}

#[test]
fn decoding_network_data_units_new_unit() {
    let uu = test_unchecked_unit(NodeIndex(5), 43, 1729);
    let included_data = vec![uu.as_signable().data().clone()];
    let nd = NetworkData(NetworkDataInner::Units(UnitMessage::NewUnit(uu.clone())));
    let decoded = decode_network_data(&encode(&nd));
    assert!(decoded.is_some(), "Bug in encode/decode for NewUnit");
    let decoded = decoded.unwrap();
    assert_eq!(decoded.included_data(), included_data, "data decoded incorrectly");
    if let NetworkDataInner::Units(UnitMessage::NewUnit(decoded_unchecked)) = decoded.0 {
        assert_eq!(
            uu.as_signable(),
            decoded_unchecked.as_signable(),
            "decoded should equal encoded"
        );
    } else {
        panic!("Decoded NewUnit as something else");
    }
}

#[test]
fn decoding_network_data_units_request_coord() {
    let ni = NodeIndex(7);
    let uc = UnitCoord::new(3, NodeIndex(13));
    let nd = NetworkData(NetworkDataInner::Units(UnitMessage::RequestCoord(ni, uc)));
    let decoded = decode_network_data(&encode(&nd));
    assert!(decoded.is_some(), "Bug in encode/decode for RequestCoord");
    let decoded = decoded.unwrap();
    assert!(decoded.included_data().is_empty(), "data returned from a coord request");
    if let NetworkDataInner::Units(UnitMessage::RequestCoord(dni, duc)) = decoded.0 {
        assert!(ni == dni && uc == duc, "decoded should equal encoded");
    } else {
        panic!("Decoded RequestCoord as something else");
    }
}

#[test]
fn decoding_network_data_units_response_coord() {
    let uu = test_unchecked_unit(NodeIndex(5), 43, 1729);
    let included_data = vec![uu.as_signable().data().clone()];
    let nd = NetworkData(NetworkDataInner::Units(UnitMessage::ResponseCoord(uu.clone())));
    let decoded = decode_network_data(&encode(&nd));
    assert!(decoded.is_some(), "Bug in encode/decode for ResponseCoord");
    let decoded = decoded.unwrap();
    assert_eq!(decoded.included_data(), included_data, "data decoded incorrectly");
    if let NetworkDataInner::Units(UnitMessage::ResponseCoord(decoded_unchecked)) = decoded.0 {
        assert_eq!(
            uu.as_signable(),
            decoded_unchecked.as_signable(),
            "decoded should equal encoded"
        );
    } else {
        panic!("Decoded ResponseCoord as something else");
    }
}

#[test]
fn decoding_network_data_units_request_parents() {
    let ni = NodeIndex(7);
    let h = Hasher64::hash(&43i32.to_le_bytes());
    let nd = NetworkData(NetworkDataInner::Units(UnitMessage::RequestParents(ni, h)));
    let decoded = decode_network_data(&encode(&nd));
    assert!(decoded.is_some(), "Bug in encode/decode for RequestParents");
    let decoded = decoded.unwrap();
    assert!(decoded.included_data().is_empty(), "data returned from a parent request");
    if let NetworkDataInner::Units(UnitMessage::RequestParents(dni, dh)) = decoded.0 {
        assert!(ni == dni && h == dh, "decoded should equal encoded");
    } else {
        panic!("Decoded RequestParents as something else");
    }
}

#[test]
fn decoding_network_data_units_response_parents() {
    let h = Hasher64::hash(&43i32.to_le_bytes());
    let p1 = test_unchecked_unit(NodeIndex(5), 43, 1729);
    let p2 = test_unchecked_unit(NodeIndex(13), 43, 1729);
    let p3 = test_unchecked_unit(NodeIndex(17), 43, 1729);
    let included_data = vec![
        p1.as_signable().data().clone(),
        p2.as_signable().data().clone(),
        p3.as_signable().data().clone(),
    ];
    let parents = vec![p1, p2, p3];
    let nd = NetworkData(NetworkDataInner::Units(UnitMessage::ResponseParents(h, parents.clone())));
    let decoded = decode_network_data(&encode(&nd));
    assert!(decoded.is_some(), "Bug in encode/decode for ResponseParents");
    let decoded = decoded.unwrap();
    assert_eq!(decoded.included_data(), included_data, "data decoded incorrectly");
    if let NetworkDataInner::Units(UnitMessage::ResponseParents(dh, dparents)) = decoded.0 {
        assert_eq!(h, dh, "decoded should equal encoded");
        assert_eq!(parents.len(), dparents.len(), "decoded should equal encoded");
        for (p, dp) in parents.iter().zip(dparents.iter()) {
            assert_eq!(p.as_signable(), dp.as_signable(), "decoded should equal encoded");
        }
    } else {
        panic!("Decoded ResponseParents as something else");
    }
}

#[test]
fn decoding_network_data_alert_fork_alert() {
    let forker = NodeIndex(9);
    let f1 = test_unchecked_unit(forker, 10, 0);
    let f2 = test_unchecked_unit(forker, 10, 1);
    let lu1 = test_unchecked_unit(forker, 11, 0);
    let lu2 = test_unchecked_unit(forker, 12, 0);
    let included_data = vec![lu1.as_signable().data().clone(), lu2.as_signable().data().clone()];
    let alert = Alert::new(NodeIndex(7), (f1, f2), vec![lu1, lu2]);
    let nd = NetworkData(NetworkDataInner::Alert(AlertMessage::ForkAlert(UncheckedSigned::new(
        alert.clone(),
        Signature { bytes: vec![] },
    ))));
    let decoded = decode_network_data(&encode(&nd));
    assert!(decoded.is_some(), "Bug in encode/decode for ForkAlert");
    let decoded = decoded.unwrap();
    assert_eq!(decoded.included_data(), included_data, "data decoded incorrectly");
    if let NetworkDataInner::Alert(AlertMessage::ForkAlert(unchecked_alert)) = decoded.0 {
        assert_eq!(&alert, unchecked_alert.as_signable(), "decoded should equal encoded")
    } else {
        panic!("Decoded ForkAlert as something else");
    }
}

#[test]
fn hub_routes_by_kind_until_it_is_stopped() {
    let unit = test_unchecked_unit(NodeIndex(1), 2, 3);
    let unit_message = UnitMessage::NewUnit(unit);
    let alert_message = AlertMessage::AlertRequest(NodeIndex(4), 17);
    let mut hub = NetworkHub::new();
    let actions = hub.run(vec![
        HubEvent::UnitsToSend(unit_message.clone(), Recipient::Everyone),
        HubEvent::AlertsToSend(alert_message.clone(), Recipient::Node(NodeIndex(2))),
        HubEvent::Incoming(NetworkData(NetworkDataInner::Units(unit_message.clone()))),
        HubEvent::Incoming(NetworkData(NetworkDataInner::Alert(alert_message.clone()))),
        HubEvent::Exit,
        HubEvent::Incoming(NetworkData(NetworkDataInner::Alert(alert_message.clone()))),
    ]);
    assert_eq!(
        actions,
        vec![
            HubAction::Send(
                NetworkData(NetworkDataInner::Units(unit_message.clone())),
                Recipient::Everyone,
            ),
            HubAction::Send(
                NetworkData(NetworkDataInner::Alert(alert_message.clone())),
                Recipient::Node(NodeIndex(2)),
            ),
            HubAction::UnitsReceived(unit_message),
            HubAction::AlertsReceived(alert_message.clone()),
        ],
    );
    assert_eq!(
        hub.handle_event(HubEvent::AlertsToSend(alert_message, Recipient::Everyone)),
        None,
    );
}
