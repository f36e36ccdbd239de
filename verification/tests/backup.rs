use aleph_bft::alerts::{Alert, AlertData};
use aleph_bft::backup::{
    load, split_items, BackupError, BackupItem, BackupLoader, BackupSaver, IncorrectBackupError,
    LoadedData, ReadError,
};
use aleph_bft::codec::encode;
use aleph_bft::crypto::SignatureSet;
use aleph_bft::mock::{Hasher64, Keychain};
use aleph_bft::nodes::{Hash64, NodeCount, NodeIndex, Round, SessionId};
use aleph_bft::units::{sign_unit, ControlHash, FullUnit, UncheckedSigned, UncheckedSignedUnit, UnitCoord};

const SESSION_ID: SessionId = 43;
const NODE_ID: NodeIndex = NodeIndex(0);
const N_MEMBERS: NodeCount = NodeCount(4);

/// units_per_round[i][j] is the unit produced in round i by creator j; from round 1 on each
/// unit has all the units of the round before as its parents
fn produce_units(rounds: usize, session_id: SessionId) -> Vec<Vec<UncheckedSignedUnit>> {
    let keychains: Vec<_> =
        (0..N_MEMBERS.0).map(|id| Keychain::new(N_MEMBERS, NodeIndex(id))).collect();
    let mut units_per_round: Vec<Vec<UncheckedSignedUnit>> = Vec::with_capacity(rounds);
    for round in 0..rounds {
        let parent_hashes: Vec<Option<Hash64>> = if round == 0 {
            vec![None; N_MEMBERS.0]
        } else {
            units_per_round[round - 1]
                .iter()
                .map(|u| Some(u.signable.hash::<Hasher64>()))
                .collect()
        };
        let mut units = Vec::with_capacity(N_MEMBERS.0);
        for (id, keychain) in keychains.iter().enumerate() {
            let unit = FullUnit::new(
                NodeIndex(id),
                round as Round,
                ControlHash::new::<Hasher64>(&parent_hashes),
                vec![id as u8, round as u8],
                session_id,
            );
            units.push(sign_unit::<Hasher64, Keychain>(keychain, unit));
        }
        units_per_round.push(units);
    }
    units_per_round
}

fn units_of_creator(
    units: Vec<Vec<UncheckedSignedUnit>>,
    creator: NodeIndex,
) -> Vec<UncheckedSignedUnit> {
    units.into_iter().map(|units_per_round| units_per_round[creator.0].clone()).collect()
}

fn encode_all(items: Vec<BackupItem>) -> Vec<Vec<u8>> {
    items.iter().map(|u| encode(u)).collect()
}

fn run_loader(
    encoded_items: Vec<u8>,
    collection: Option<Round>,
) -> (Option<LoadedData>, Option<Round>) {
    BackupLoader::new(encoded_items, NODE_ID, SESSION_ID).run(collection)
}

#[test]
fn nothing_loaded_nothing_collected_succeeds() {
    let (loaded_data, starting_round) = run_loader(Vec::new(), Some(0));
    assert_eq!(starting_round, Some(0));
    assert_eq!(loaded_data, Some((Vec::new(), Vec::new())));
}

#[test]
fn something_loaded_nothing_collected_succeeds() {
    let units: Vec<_> = produce_units(5, SESSION_ID).into_iter().flatten().collect();
    let items: Vec<_> = units.clone().into_iter().map(BackupItem::Unit).collect();
    let encoded_items = encode_all(items.clone()).into_iter().flatten().collect();
    let (loaded_data, starting_round) = run_loader(encoded_items, Some(0));
    assert_eq!(starting_round, Some(5));
    assert_eq!(loaded_data, Some((units, Vec::new())));
}

#[test]
fn something_loaded_something_collected_succeeds() {
    let units: Vec<_> = produce_units(5, SESSION_ID).into_iter().flatten().collect();
    let items: Vec<_> = units.clone().into_iter().map(BackupItem::Unit).collect();
    let encoded_items = encode_all(items.clone()).into_iter().flatten().collect();
    let (loaded_data, starting_round) = run_loader(encoded_items, Some(5));
    assert_eq!(starting_round, Some(5));
    assert_eq!(loaded_data, Some((units, Vec::new())));
}

#[test]
fn nothing_loaded_something_collected_fails() {
    let (loaded_data, starting_round) = run_loader(Vec::new(), Some(1));
    assert_eq!(starting_round, None);
    assert_eq!(loaded_data, Some((Vec::new(), Vec::new())));
}

#[test]
fn loaded_smaller_then_collected_fails() {
    let units: Vec<_> = produce_units(3, SESSION_ID).into_iter().flatten().collect();
    let items: Vec<_> = units.clone().into_iter().map(BackupItem::Unit).collect();
    let encoded_items = encode_all(items.clone()).into_iter().flatten().collect();
    let (loaded_data, starting_round) = run_loader(encoded_items, Some(4));
    assert_eq!(starting_round, None);
    assert_eq!(loaded_data, Some((units, Vec::new())));
}

#[test]
fn dropped_collection_fails() {
    let units: Vec<_> = produce_units(3, SESSION_ID).into_iter().flatten().collect();
    let items: Vec<_> = units.clone().into_iter().map(BackupItem::Unit).collect();
    let encoded_items = encode_all(items.clone()).into_iter().flatten().collect();
    let (loaded_data, starting_round) = run_loader(encoded_items, None);
    assert_eq!(starting_round, None);
    assert_eq!(loaded_data, Some((units, Vec::new())));
}

#[test]
fn backup_with_corrupted_encoding_fails() {
    let units: Vec<_> = produce_units(5, SESSION_ID).into_iter().flatten().collect();
    let items: Vec<_> = units.into_iter().map(BackupItem::Unit).collect();
    let mut item_encodings = encode_all(items);
    let unit2_encoding_len = item_encodings[2].len();
    item_encodings[2].resize(unit2_encoding_len - 1, 0); // remove the last byte
    let encoded_items = item_encodings.into_iter().flatten().collect();
    let (loaded_data, starting_round) = run_loader(encoded_items, Some(0));
    assert_eq!(starting_round, None);
    assert!(loaded_data.is_none());
}

#[test]
fn backup_with_missing_parent_fails() {
    let units: Vec<_> = produce_units(5, SESSION_ID).into_iter().flatten().collect();
    let mut items: Vec<_> = units.into_iter().map(BackupItem::Unit).collect();
    items.remove(2); // it is a parent of all units of round 1
    let encoded_items = encode_all(items).into_iter().flatten().collect();
    let (loaded_data, starting_round) = run_loader(encoded_items, Some(0));
    assert_eq!(starting_round, None);
    assert!(loaded_data.is_none());
}

#[test]
fn backup_with_duplicate_unit_succeeds() {
    let mut units: Vec<_> = produce_units(5, SESSION_ID).into_iter().flatten().collect();
    let unit2_duplicate = units[2].clone();
    units.insert(3, unit2_duplicate);
    let items: Vec<_> = units.clone().into_iter().map(BackupItem::Unit).collect();
    let encoded_units = encode_all(items.clone()).into_iter().flatten().collect();
    let (loaded_data, starting_round) = run_loader(encoded_units, Some(0));
    assert_eq!(starting_round, Some(5));
    assert_eq!(loaded_data, Some((units, Vec::new())));
}

#[test]
fn backup_with_units_of_one_creator_fails() {
    let units = units_of_creator(produce_units(5, SESSION_ID), NodeIndex(NODE_ID.0 + 1));
    let items: Vec<_> = units.into_iter().map(BackupItem::Unit).collect();
    let encoded_items = encode_all(items).into_iter().flatten().collect();
    let (loaded_data, starting_round) = run_loader(encoded_items, Some(0));
    assert_eq!(starting_round, None);
    assert!(loaded_data.is_none());
}

#[test]
fn backup_with_wrong_session_fails() {
    let units: Vec<_> = produce_units(5, SESSION_ID + 1).into_iter().flatten().collect();
    let items: Vec<_> = units.into_iter().map(BackupItem::Unit).collect();
    let encoded_items = encode_all(items).into_iter().flatten().collect();
    let (loaded_data, starting_round) = run_loader(encoded_items, Some(0));
    assert_eq!(starting_round, None);
    assert!(loaded_data.is_none());
}

#[test]
fn backup_ahead_of_collection_starts_from_backup() {
    let units: Vec<_> = produce_units(5, SESSION_ID).into_iter().flatten().collect();
    let items: Vec<_> = units.into_iter().map(BackupItem::Unit).collect();
    let encoded_items = encode_all(items).into_iter().flatten().collect();
    let (_, starting_round) = run_loader(encoded_items, Some(3));
    assert_eq!(starting_round, Some(5));
}

#[test]
fn starting_round_compares_backup_and_collection() {
    assert_eq!(BackupLoader::starting_round(0, 0), Some(0));
    assert_eq!(BackupLoader::starting_round(5, 5), Some(5));
    assert_eq!(BackupLoader::starting_round(5, 2), Some(5));
    assert_eq!(BackupLoader::starting_round(3, 4), None);
    assert_eq!(BackupLoader::starting_round(65535, 65535), Some(65535));
    // the round after the last one that a round number can hold cannot be started from
    assert_eq!(BackupLoader::starting_round(65536, 0), None);
}

#[test]
fn next_round_is_one_past_the_last_own_round() {
    let loader = BackupLoader::new(Vec::new(), NodeIndex(2), SESSION_ID);
    assert_eq!(loader.next_round_backup(&Vec::new()), 0);
    let rounds = produce_units(3, SESSION_ID);
    let others = units_of_creator(rounds.clone(), NodeIndex(1));
    assert_eq!(loader.next_round_backup(&others), 0);
    let own = units_of_creator(rounds, NodeIndex(2));
    assert_eq!(loader.next_round_backup(&own), 3);
    let first_only = vec![own[0].clone()];
    assert_eq!(loader.next_round_backup(&first_only), 1);
}

#[test]
fn verify_units_names_the_fault() {
    let loader = BackupLoader::new(Vec::new(), NODE_ID, SESSION_ID);
    let units: Vec<_> = produce_units(2, SESSION_ID).into_iter().flatten().collect();
    assert_eq!(loader.verify_units(&units), Ok(()));
    let mut missing = units.clone();
    missing.remove(1);
    assert_eq!(
        loader.verify_units(&missing),
        Err(IncorrectBackupError::InconsistentData(UnitCoord::new(1, NodeIndex(0)))),
    );
    let wrong: Vec<_> = produce_units(1, SESSION_ID + 5).into_iter().flatten().collect();
    assert_eq!(
        loader.verify_units(&wrong),
        Err(IncorrectBackupError::WrongSession(
            UnitCoord::new(0, NodeIndex(0)),
            SESSION_ID,
            SESSION_ID + 5,
        )),
    );
}

#[test]
fn load_data_tells_read_errors_from_incorrect_backups() {
    let units: Vec<_> = produce_units(1, SESSION_ID + 1).into_iter().flatten().collect();
    let items: Vec<_> = units.into_iter().map(BackupItem::Unit).collect();
    let encoded: Vec<u8> = encode_all(items).into_iter().flatten().collect();
    let loader = BackupLoader::new(encoded, NODE_ID, SESSION_ID);
    assert!(matches!(loader.load_data(), Err(BackupError::Incorrect(_))));
    let loader = BackupLoader::new(vec![7, 7, 7], NODE_ID, SESSION_ID);
    assert_eq!(loader.load_data().err(), Some(BackupError::Read(ReadError::Codec(0))));
}

#[test]
fn load_reports_where_the_log_is_broken() {
    let units: Vec<_> = produce_units(1, SESSION_ID).into_iter().flatten().collect();
    let first = encode(&BackupItem::Unit(units[0].clone()));
    let mut log = first.clone();
    log.push(9);
    assert_eq!(load(&log), Err(ReadError::Codec(first.len())));
    assert_eq!(load(&first), Ok(vec![BackupItem::Unit(units[0].clone())]));
    assert_eq!(load(&[]), Ok(vec![]));
}

#[test]
fn saver_writes_what_loader_reads() {
    let units: Vec<_> = produce_units(2, SESSION_ID).into_iter().flatten().collect();
    let proof = (units[0].clone(), units[1].clone());
    let alert = Alert::new(NodeIndex(3), proof, vec![units[4].clone()]);
    let multisigned = UncheckedSigned::new(99u64, SignatureSet::with_size(N_MEMBERS));
    let mut saver = BackupSaver::new();
    let mut written = 0;
    for unit in units.iter() {
        assert_eq!(saver.save_unit(unit.clone()), unit.clone());
        assert!(saver.backup().len() > written);
        written = saver.backup().len();
    }
    assert_eq!(
        saver.save_alert_data(AlertData::OwnAlert(alert.clone())),
        AlertData::OwnAlert(alert.clone()),
    );
    saver.save_alert_data(AlertData::NetworkAlert(alert.clone()));
    saver.save_alert_data(AlertData::MultisignedHash(multisigned.clone()));
    let n = saver.save_item(&BackupItem::Unit(units[0].clone()));
    assert_eq!(n, encode(&BackupItem::Unit(units[0].clone())).len());

    let items = load(saver.backup()).expect("what was saved can be read");
    assert_eq!(items.len(), units.len() + 4);
    let (loaded_units, loaded_data) = split_items(items);
    let mut expected_units = units.clone();
    expected_units.push(units[0].clone());
    assert_eq!(loaded_units, expected_units);
    assert_eq!(
        loaded_data,
        vec![
            AlertData::OwnAlert(alert.clone()),
            AlertData::NetworkAlert(alert),
            AlertData::MultisignedHash(multisigned),
        ],
    );

    let (loaded, start) =
        BackupLoader::new(saver.backup().clone(), NODE_ID, SESSION_ID).run(Some(2));
    assert_eq!(start, Some(2));
    assert_eq!(loaded.map(|l| l.1.len()), Some(3));
}

#[test]
fn saver_answers_each_record_in_order() {
    let units: Vec<_> = produce_units(1, SESSION_ID).into_iter().flatten().collect();
    let items: Vec<_> = units.into_iter().map(BackupItem::Unit).collect();
    let mut saver = BackupSaver::new();
    assert_eq!(saver.run(items.clone()), items);
    assert_eq!(saver.backup(), &encode_all(items.clone()).into_iter().flatten().collect::<Vec<u8>>());
    assert_eq!(load(saver.backup()), Ok(items));
}
