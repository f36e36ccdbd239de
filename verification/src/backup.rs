//! The backup: an append-only log of this participant's own units and of what its alerts
//! decided, written before anything follows from it and read back at the start.
//!
//! A record is the canonical encoding of a [`BackupItem`]; the log is its records one after the
//! other, with nothing between them.

use crate::alerts::{AlertData, AlertDataView};
use crate::codec::{is_at, lemma_is_at_join, lemma_is_at_split, Wire};
use crate::nodes::{NodeIndex, Round, SessionId};
use crate::units::{
    mask_elements, SignedUnitView, UncheckedSignedUnit, UnitCoord, UnitCoordView, UnitView,
};
use crate::value::Value;
use std::collections::HashSet;
use vstd::prelude::*;

verus! {

broadcast use vstd::std_specs::hash::group_hash_axioms;

/// One record of the backup.
#[derive(Debug, PartialEq, Eq, Hash)]
pub enum BackupItem {
    /// One of this participant's own units.
    Unit(UncheckedSignedUnit),
    AlertData(AlertData),
}

/// What a [`BackupItem`] holds, as a mathematical value.
pub enum BackupItemView {
    Unit(SignedUnitView),
    AlertData(AlertDataView),
}

impl DeepView for BackupItem {
    type V = BackupItemView;

    open spec fn deep_view(&self) -> BackupItemView {
        match self {
            BackupItem::Unit(x0) => BackupItemView::Unit(x0.deep_view()),
            BackupItem::AlertData(x0) => BackupItemView::AlertData(x0.deep_view()),
        }
    }
}

impl View for BackupItem {
    type V = BackupItemView;

    open spec fn view(&self) -> BackupItemView {
        self.deep_view()
    }
}

impl Wire for BackupItem {
    open spec fn enc(v: BackupItemView) -> Seq<u8> {
        match v {
            BackupItemView::Unit(x0) => seq![0u8] + <UncheckedSignedUnit>::enc(x0),
            BackupItemView::AlertData(x0) => seq![1u8] + <AlertData>::enc(x0),
        }
    }

    open spec fn parse(s: Seq<u8>, pos: int) -> Option<(BackupItemView, int)> {
        match u8::parse(s, pos) {
            Some((tag, at0)) => {
                if tag == 0 {
                    match <UncheckedSignedUnit>::parse(s, at0) {
                        Some((x0, at1)) => Some((BackupItemView::Unit(x0), at1)),
                        None => None,
                    }
                } else if tag == 1 {
                    match <AlertData>::parse(s, at0) {
                        Some((x0, at1)) => Some((BackupItemView::AlertData(x0), at1)),
                        None => None,
                    }
                } else {
                    None
                }
            },
            None => None,
        }
    }

    open spec fn representable(v: BackupItemView) -> bool {
        match v {
            BackupItemView::Unit(x0) => <UncheckedSignedUnit>::representable(x0),
            BackupItemView::AlertData(x0) => <AlertData>::representable(x0),
        }
    }

    proof fn lemma_representable(&self) {
        match self {
            BackupItem::Unit(x0) => {
                x0.lemma_representable();
            },
            BackupItem::AlertData(x0) => {
                x0.lemma_representable();
            },
        }
    }

    proof fn lemma_parse_sound(s: Seq<u8>, pos: int) {
        u8::lemma_parse_sound(s, pos);
        if let Some((tag, at0)) = u8::parse(s, pos) {
            if tag == 0 {
                <UncheckedSignedUnit>::lemma_parse_sound(s, at0);
                if let Some((x0, at1)) = <UncheckedSignedUnit>::parse(s, at0) {
                    let so_far = seq![0u8];
                    lemma_is_at_join(s, pos, so_far, <UncheckedSignedUnit>::enc(x0));
                }
            }
            if tag == 1 {
                <AlertData>::lemma_parse_sound(s, at0);
                if let Some((x0, at1)) = <AlertData>::parse(s, at0) {
                    let so_far = seq![1u8];
                    lemma_is_at_join(s, pos, so_far, <AlertData>::enc(x0));
                }
            }
        }
    }

    proof fn lemma_parse_enc(s: Seq<u8>, pos: int, v: BackupItemView) {
        match v {
            BackupItemView::Unit(x0) => {
                let tag = seq![0u8];
                let enc0 = <UncheckedSignedUnit>::enc(x0);
                lemma_is_at_split(s, pos, tag, enc0);
                u8::lemma_parse_enc(s, pos, 0u8);
                <UncheckedSignedUnit>::lemma_parse_enc(s, pos + tag.len(), x0);
            },
            BackupItemView::AlertData(x0) => {
                let tag = seq![1u8];
                let enc0 = <AlertData>::enc(x0);
                lemma_is_at_split(s, pos, tag, enc0);
                u8::lemma_parse_enc(s, pos, 1u8);
                <AlertData>::lemma_parse_enc(s, pos + tag.len(), x0);
            },
        }
    }

    fn encode_to(&self, out: &mut Vec<u8>) {
        match self {
            BackupItem::Unit(x0) => {
                out.push(0u8);
                x0.encode_to(out);
                proof {
                    let enc0 = <UncheckedSignedUnit>::enc(x0.deep_view());
                    let whole = seq![0u8] + enc0;
                    assert(old(out)@.push(0u8) + enc0 =~= old(out)@ + whole);
                }
            },
            BackupItem::AlertData(x0) => {
                out.push(1u8);
                x0.encode_to(out);
                proof {
                    let enc0 = <AlertData>::enc(x0.deep_view());
                    let whole = seq![1u8] + enc0;
                    assert(old(out)@.push(1u8) + enc0 =~= old(out)@ + whole);
                }
            },
        }
    }

    fn decode(input: &[u8], pos: usize) -> (r: Option<(Self, usize)>) {
        let (tag, at0) = match u8::decode(input, pos) {
            Some(read) => read,
            None => {
                return None;
            },
        };
        if tag == 0 {
            let (x0, at1) = match <UncheckedSignedUnit>::decode(input, at0) {
                Some(read) => read,
                None => {
                    return None;
                },
            };
            Some((BackupItem::Unit(x0), at1))
        } else if tag == 1 {
            let (x0, at1) = match <AlertData>::decode(input, at0) {
                Some(read) => read,
                None => {
                    return None;
                },
            };
            Some((BackupItem::AlertData(x0), at1))
        } else {
            None
        }
    }
}

impl Value for BackupItem {
    fn duplicate(&self) -> (r: Self) {
        match self {
            BackupItem::Unit(x0) => BackupItem::Unit(x0.duplicate()),
            BackupItem::AlertData(x0) => BackupItem::AlertData(x0.duplicate()),
        }
    }

    fn same(&self, other: &Self) -> (b: bool) {
        match (self, other) {
            (BackupItem::Unit(x0), BackupItem::Unit(y0)) => x0.same(y0),
            (BackupItem::AlertData(x0), BackupItem::AlertData(y0)) => x0.same(y0),
            _ => false,
        }
    }
}

impl Clone for BackupItem {
    fn clone(&self) -> (r: Self)
        ensures
            r.deep_view() == self.deep_view(),
    {
        self.duplicate()
    }
}
/// The backup cannot be read: no record is encoded at the given position of the log.
#[derive(Copy, Clone, Debug, PartialEq, Eq, Structural)]
pub enum ReadError {
    Codec(usize),
}

/// The backup does not fit this session.
#[derive(Copy, Clone, Debug, PartialEq, Eq)]
pub enum IncorrectBackupError {
    /// The unit at the given place has a parent that the log does not hold before it.
    InconsistentData(UnitCoord),
    /// The unit at the given place is of another session than the expected one: the expected
    /// session, then the unit's.
    WrongSession(UnitCoord, SessionId, SessionId),
}

/// What an [`IncorrectBackupError`] holds, as a mathematical value.
pub enum IncorrectBackupErrorView {
    InconsistentData(UnitCoordView),
    WrongSession(UnitCoordView, SessionId, SessionId),
}

impl DeepView for IncorrectBackupError {
    type V = IncorrectBackupErrorView;

    open spec fn deep_view(&self) -> IncorrectBackupErrorView {
        match self {
            IncorrectBackupError::InconsistentData(coord) => IncorrectBackupErrorView::InconsistentData(
                coord.deep_view(),
            ),
            IncorrectBackupError::WrongSession(
                coord,
                expected,
                actual,
            ) => IncorrectBackupErrorView::WrongSession(coord.deep_view(), *expected, *actual),
        }
    }
}

/// Why a backup cannot be used.
#[derive(Copy, Clone, Debug, PartialEq, Eq)]
pub enum BackupError {
    Read(ReadError),
    Incorrect(IncorrectBackupError),
}

/// What was read from the backup: this participant's units and the data of its alerts, each in
/// the order of the log.
pub type LoadedData = (Vec<UncheckedSignedUnit>, Vec<AlertData>);

/// The log that holds the given records.
pub open spec fn enc_records(items: Seq<BackupItemView>) -> Seq<u8>
    decreases items.len(),
{
    if items.len() == 0 {
        Seq::empty()
    } else {
        BackupItem::enc(items.first()) + enc_records(items.drop_first())
    }
}

/// The records that the log holds from `pos` on, or the position at which no record is
/// encoded.
pub open spec fn parse_records(log: Seq<u8>, pos: int) -> Result<Seq<BackupItemView>, int>
    decreases log.len() - pos,
{
    if pos >= log.len() || pos < 0 {
        Ok(Seq::empty())
    } else {
        match BackupItem::parse(log, pos) {
            Some((item, next)) => {
                if pos < next <= log.len() {
                    match parse_records(log, next) {
                        Ok(rest) => Ok(seq![item] + rest),
                        Err(at) => Err(at),
                    }
                } else {
                    Err(pos)
                }
            },
            None => Err(pos),
        }
    }
}

/// The units among the records, in their order.
pub open spec fn units_of(items: Seq<BackupItemView>) -> Seq<SignedUnitView>
    decreases items.len(),
{
    if items.len() == 0 {
        Seq::empty()
    } else {
        match items.last() {
            BackupItemView::Unit(unit) => units_of(items.drop_last()).push(unit),
            BackupItemView::AlertData(_) => units_of(items.drop_last()),
        }
    }
}

/// The data of alerts among the records, in their order.
pub open spec fn alert_data_of(items: Seq<BackupItemView>) -> Seq<AlertDataView>
    decreases items.len(),
{
    if items.len() == 0 {
        Seq::empty()
    } else {
        match items.last() {
            BackupItemView::Unit(_) => alert_data_of(items.drop_last()),
            BackupItemView::AlertData(data) => alert_data_of(items.drop_last()).push(data),
        }
    }
}

/// The place of a unit in the DAG.
pub open spec fn coord_of(unit: UnitView) -> UnitCoordView {
    UnitCoordView { round: unit.round, creator: unit.creator }
}

/// One of the units is at the given place.
pub open spec fn has_coord(units: Seq<SignedUnitView>, coord: UnitCoordView) -> bool {
    exists|j: int| 0 <= j < units.len() && coord_of((#[trigger] units[j]).signable) == coord
}

/// Some parent of the unit is not among `earlier`: the unit names a participant by which no
/// unit of the round before stands there.
pub open spec fn misses_parent(earlier: Seq<SignedUnitView>, unit: UnitView) -> bool {
    let parents = mask_elements(unit.control_hash.parents_mask);
    exists|k: int|
        0 <= k < parents.len() && (unit.round == 0 || !has_coord(
            earlier,
            UnitCoordView { round: (unit.round - 1) as u16, creator: #[trigger] parents[k] },
        ))
}

/// What is wrong with the unit at `i`, given those before it: it is of another session, or one
/// of its parents is not among them.
pub open spec fn unit_fault(session_id: SessionId, units: Seq<SignedUnitView>, i: int) -> Option<
    IncorrectBackupErrorView,
> {
    let unit = units[i].signable;
    if unit.session_id != session_id {
        Some(IncorrectBackupErrorView::WrongSession(coord_of(unit), session_id, unit.session_id))
    } else if misses_parent(units.take(i), unit) {
        Some(IncorrectBackupErrorView::InconsistentData(coord_of(unit)))
    } else {
        None
    }
}

/// What is wrong with the first `n` units: the fault of the first unit that has one.
pub open spec fn units_fault(session_id: SessionId, units: Seq<SignedUnitView>, n: nat) -> Option<
    IncorrectBackupErrorView,
>
    decreases n,
{
    if n == 0 {
        None
    } else {
        match units_fault(session_id, units, (n - 1) as nat) {
            Some(fault) => Some(fault),
            None => unit_fault(session_id, units, n - 1),
        }
    }
}

/// The round after the last of the units by `index`, or 0 if there is none.
pub open spec fn next_round(units: Seq<SignedUnitView>, index: NodeIndex) -> nat
    decreases units.len(),
{
    if units.len() == 0 {
        0
    } else {
        let before = next_round(units.drop_last(), index);
        let unit = units.last().signable;
        if unit.creator == index && unit.round + 1 > before {
            (unit.round + 1) as nat
        } else {
            before
        }
    }
}

/// The round to start from, given the round that the backup continues with and the one that
/// the other participants have seen of this one: none where the backup is behind, since then
/// someone else is using this participant's keys; else the backup's.
pub open spec fn starting_round_spec(next_round_backup: nat, next_round_collection: Round) -> Option<
    Round,
> {
    if next_round_backup < next_round_collection || next_round_backup > Round::MAX {
        None
    } else {
        Some(next_round_backup as Round)
    }
}

/// The round after the last of the units by `index` is 0 where there is none by it, and else
/// one more than the greatest of their rounds.
pub proof fn lemma_next_round(units: Seq<SignedUnitView>, index: NodeIndex)
    ensures
        forall|i: int|
            0 <= i < units.len() && (#[trigger] units[i]).signable.creator == index
                ==> units[i].signable.round < next_round(units, index),
        next_round(units, index) == 0 <==> forall|i: int|
            0 <= i < units.len() ==> (#[trigger] units[i]).signable.creator != index,
        next_round(units, index) > 0 ==> exists|i: int|
            0 <= i < units.len() && (#[trigger] units[i]).signable.creator == index
                && units[i].signable.round + 1 == next_round(units, index),
    decreases units.len(),
{
    if units.len() > 0 {
        let front = units.drop_last();
        lemma_next_round(front, index);
        assert forall|i: int|
            0 <= i < units.len() && (#[trigger] units[i]).signable.creator == index implies units[i].signable.round
            < next_round(units, index) by {
            if i < front.len() {
                assert(front[i] == units[i]);
            }
        }
        if next_round(units, index) == 0 {
            assert forall|i: int| 0 <= i < units.len() implies (
            #[trigger] units[i]).signable.creator != index by {
                if i < front.len() {
                    assert(front[i] == units[i]);
                }
            }
        } else {
            let unit = units.last().signable;
            if unit.creator == index && unit.round + 1 > next_round(front, index) {
                assert(units[units.len() - 1].signable.creator == index);
            } else {
                let i = choose|i: int|
                    0 <= i < front.len() && (#[trigger] front[i]).signable.creator == index
                        && front[i].signable.round + 1 == next_round(front, index);
                assert(units[i] == front[i]);
            }
        }
    }
}

/// A log that holds records and nothing else is read back as these records.
pub proof fn lemma_parse_saved(log: Seq<u8>, pos: int, items: Seq<BackupItemView>)
    requires
        forall|i: int| 0 <= i < items.len() ==> BackupItem::representable(#[trigger] items[i]),
        is_at(log, pos, enc_records(items)),
        pos + enc_records(items).len() == log.len(),
    ensures
        parse_records(log, pos) == Ok::<Seq<BackupItemView>, int>(items),
    decreases items.len(),
{
    if items.len() == 0 {
        assert(items =~= Seq::empty());
    } else {
        let first = items.first();
        let rest = items.drop_first();
        lemma_is_at_split(log, pos, BackupItem::enc(first), enc_records(rest));
        BackupItem::lemma_parse_enc(log, pos, first);
        lemma_record_not_empty(first);
        lemma_parse_saved(log, pos + BackupItem::enc(first).len(), rest);
        assert(seq![first] + rest =~= items);
    }
}

/// Every record takes at least one byte.
pub proof fn lemma_record_not_empty(item: BackupItemView)
    ensures
        BackupItem::enc(item).len() >= 1,
{
}

/// Writing one more record extends the log by its encoding.
pub proof fn lemma_enc_records_push(items: Seq<BackupItemView>, item: BackupItemView)
    ensures
        enc_records(items.push(item)) == enc_records(items) + BackupItem::enc(item),
    decreases items.len(),
{
    if items.len() == 0 {
        let one = items.push(item);
        assert(one.first() == item);
        assert(one.drop_first() =~= Seq::<BackupItemView>::empty());
        assert(enc_records(one.drop_first()) =~= Seq::<u8>::empty());
        assert(enc_records(one) =~= BackupItem::enc(item) + Seq::<u8>::empty());
        assert(BackupItem::enc(item) + Seq::<u8>::empty() =~= BackupItem::enc(item));
        assert(enc_records(items) =~= Seq::<u8>::empty());
        assert(enc_records(items) + BackupItem::enc(item) =~= BackupItem::enc(item));
    } else {
        lemma_enc_records_push(items.drop_first(), item);
        assert(items.push(item).drop_first() =~= items.drop_first().push(item));
        assert(BackupItem::enc(items.first()) + (enc_records(items.drop_first())
            + BackupItem::enc(item)) =~= BackupItem::enc(items.first()) + enc_records(
            items.drop_first(),
        ) + BackupItem::enc(item));
    }
}

/// The one number that stands for a place in the set of places seen.
pub open spec fn spec_coord_key(coord: UnitCoordView) -> u128 {
    (coord.round * 0x1_0000_0000_0000_0000 + coord.creator.0) as u128
}

fn coord_key(round: Round, creator: NodeIndex) -> (key: u128)
    ensures
        key == spec_coord_key(UnitCoordView { round, creator }),
{
    let high: u128 = round as u128;
    let low: u128 = creator.0 as u128;
    high * 0x1_0000_0000_0000_0000u128 + low
}

proof fn lemma_coord_key_injective(a: UnitCoordView, b: UnitCoordView)
    requires
        spec_coord_key(a) == spec_coord_key(b),
    ensures
        a == b,
{
}

/// Reads the records of a log.
pub fn load(log: &[u8]) -> (result: Result<Vec<BackupItem>, ReadError>)
    ensures
        match (result, parse_records(log@, 0)) {
            (Ok(items), Ok(expected)) => items.deep_view() == expected,
            (Err(ReadError::Codec(at)), Err(expected)) => at == expected,
            _ => false,
        },
{
    let mut items: Vec<BackupItem> = Vec::new();
    let mut pos: usize = 0;
    proof {
        assert(items.deep_view() =~= Seq::empty());
    }
    while pos < log.len()
        invariant
            pos <= log@.len(),
            parse_records(log@, 0) == match parse_records(log@, pos as int) {
                Ok(rest) => Ok::<Seq<BackupItemView>, int>(items.deep_view() + rest),
                Err(at) => Err(at),
            },
        decreases log@.len() - pos,
    {
        proof {
            BackupItem::lemma_parse_sound(log@, pos as int);
        }
        match BackupItem::decode(log, pos) {
            Some((item, next)) => {
                proof {
                    lemma_record_not_empty(item.deep_view());
                }
                let ghost before = items.deep_view();
                let ghost added = item.deep_view();
                items.push(item);
                proof {
                    assert(items.deep_view() =~= before.push(added));
                    match parse_records(log@, next as int) {
                        Ok(rest) => {
                            assert(before + (seq![added] + rest) =~= before.push(added) + rest);
                        },
                        Err(at) => {},
                    }
                }
                pos = next;
            },
            None => {
                return Err(ReadError::Codec(pos));
            },
        }
    }
    proof {
        assert(items.deep_view() + Seq::<BackupItemView>::empty() =~= items.deep_view());
    }
    Ok(items)
}

/// Parts the records into this participant's units and the data of its alerts, each in the
/// order of the log.
pub fn split_items(items: Vec<BackupItem>) -> (loaded: LoadedData)
    ensures
        loaded.0.deep_view() == units_of(items.deep_view()),
        loaded.1.deep_view() == alert_data_of(items.deep_view()),
{
    let mut units: Vec<UncheckedSignedUnit> = Vec::new();
    let mut alert_data: Vec<AlertData> = Vec::new();
    let ghost all = items.deep_view();
    let ghost raw = items@;
    proof {
        assert(all.take(0) =~= Seq::empty());
        assert(units.deep_view() =~= Seq::empty());
        assert(alert_data.deep_view() =~= Seq::empty());
    }
    for item in it: items
        invariant
            it.seq() == raw,
            all == raw.map_values(|i: BackupItem| i.deep_view()),
            units.deep_view() == units_of(all.take(it.index() as int)),
            alert_data.deep_view() == alert_data_of(all.take(it.index() as int)),
    {
        proof {
            assert(all.take(it.index() + 1).drop_last() =~= all.take(it.index() as int));
            assert(all.take(it.index() + 1).last() == item.deep_view());
        }
        match item {
            BackupItem::Unit(unit) => {
                let ghost before = units.deep_view();
                let ghost added = unit.deep_view();
                units.push(unit);
                proof {
                    assert(units.deep_view() =~= before.push(added));
                }
            },
            BackupItem::AlertData(data) => {
                let ghost before = alert_data.deep_view();
                let ghost added = data.deep_view();
                alert_data.push(data);
                proof {
                    assert(alert_data.deep_view() =~= before.push(added));
                }
            },
        }
    }
    proof {
        assert(all.take(all.len() as int) =~= all);
    }
    (units, alert_data)
}

/// Reads a backup at the start of a session and decides from which round to go on.
pub struct BackupLoader {
    backup: Vec<u8>,
    index: NodeIndex,
    session_id: SessionId,
}

impl BackupLoader {
    /// The log that the loader reads.
    pub closed spec fn log(&self) -> Seq<u8> {
        self.backup@
    }

    /// The index of this participant.
    pub closed spec fn own_index(&self) -> NodeIndex {
        self.index
    }

    /// The session that the backup is to belong to.
    pub closed spec fn session(&self) -> SessionId {
        self.session_id
    }

    /// A loader for the log `backup` of the participant `index` in the session `session_id`.
    pub fn new(backup: Vec<u8>, index: NodeIndex, session_id: SessionId) -> (loader: BackupLoader)
        ensures
            loader.log() == backup@,
            loader.own_index() == index,
            loader.session() == session_id,
    {
        BackupLoader { backup, index, session_id }
    }

    /// Reads the records of the log.
    pub fn load(&self) -> (result: Result<Vec<BackupItem>, ReadError>)
        ensures
            match (result, parse_records(self.log(), 0)) {
                (Ok(items), Ok(expected)) => items.deep_view() == expected,
                (Err(ReadError::Codec(at)), Err(expected)) => at == expected,
                _ => false,
            },
    {
        load(self.backup.as_slice())
    }

    /// Checks that the units belong to the session and that each has its parents before it.
    /// Gives the fault of the first unit that has one.
    pub fn verify_units(&self, units: &Vec<UncheckedSignedUnit>) -> (result: Result<
        (),
        IncorrectBackupError,
    >)
        ensures
            match (result, units_fault(self.session(), units.deep_view(), units.deep_view().len())) {
                (Ok(_), None) => true,
                (Err(fault), Some(expected)) => fault.deep_view() == expected,
                _ => false,
            },
    {
        let mut seen: HashSet<u128> = HashSet::new();
        let mut i: usize = 0;
        let ghost all = units.deep_view();
        while i < units.len()
            invariant
                i <= units.len(),
                all == units.deep_view(),
                units_fault(self.session_id, all, i as nat) is None,
                forall|coord: UnitCoordView|
                    seen@.contains(#[trigger] spec_coord_key(coord)) <==> has_coord(
                        all.take(i as int),
                        coord,
                    ),
            decreases units.len() - i,
        {
            let unit = &units[i].signable;
            let coord = unit.coord();
            proof {
                assert(unit.deep_view() == all[i as int].signable);
                assert(coord.deep_view() == coord_of(all[i as int].signable));
            }
            if unit.session_id != self.session_id {
                proof {
                    lemma_fault_found(self.session_id, all, i as nat, all.len());
                }
                return Err(IncorrectBackupError::WrongSession(coord, self.session_id, unit.session_id));
            }
            let parents = unit.control_hash.parents();
            let mut k: usize = 0;
            while k < parents.len()
                invariant
                    k <= parents.len(),
                    i < units.len(),
                    all == units.deep_view(),
                    unit.deep_view() == all[i as int].signable,
                    coord.deep_view() == coord_of(all[i as int].signable),
                    unit.session_id == self.session_id,
                    parents@ == mask_elements(unit.deep_view().control_hash.parents_mask),
                    units_fault(self.session_id, all, i as nat) is None,
                    forall|coord: UnitCoordView|
                        seen@.contains(#[trigger] spec_coord_key(coord)) <==> has_coord(
                            all.take(i as int),
                            coord,
                        ),
                    forall|j: int|
                        0 <= j < k ==> unit.round != 0 && has_coord(
                            all.take(i as int),
                            UnitCoordView {
                                round: (unit.round - 1) as u16,
                                creator: #[trigger] parents@[j],
                            },
                        ),
                decreases parents.len() - k,
            {
                let known = unit.round > 0 && seen.contains(
                    &coord_key(unit.round - 1, parents[k]),
                );
                if !known {
                    proof {
                        assert(misses_parent(all.take(i as int), all[i as int].signable)) by {
                            let ps = mask_elements(all[i as int].signable.control_hash.parents_mask);
                            assert(ps[k as int] == parents@[k as int]);
                        }
                        lemma_fault_found(self.session_id, all, i as nat, all.len());
                    }
                    return Err(IncorrectBackupError::InconsistentData(coord));
                }
                k += 1;
            }
            seen.insert(coord_key(coord.round, coord.creator));
            proof {
                let here = coord_of(all[i as int].signable);
                let this = all[i as int].signable;
                if misses_parent(all.take(i as int), this) {
                    let ps = mask_elements(this.control_hash.parents_mask);
                    let p = choose|p: int|
                        0 <= p < ps.len() && (this.round == 0 || !has_coord(
                            all.take(i as int),
                            UnitCoordView {
                                round: (this.round - 1) as u16,
                                creator: #[trigger] ps[p],
                            },
                        ));
                    assert(parents@[p] == ps[p]);
                    assert(false);
                }
                assert forall|c: UnitCoordView|
                    seen@.contains(#[trigger] spec_coord_key(c)) <==> has_coord(
                        all.take(i + 1),
                        c,
                    ) by {
                    if spec_coord_key(c) == spec_coord_key(here) {
                        lemma_coord_key_injective(c, here);
                        assert(all.take(i + 1)[i as int] == all[i as int]);
                    }
                    if has_coord(all.take(i as int), c) {
                        let j = choose|j: int|
                            0 <= j < all.take(i as int).len() && coord_of(
                                (#[trigger] all.take(i as int)[j]).signable,
                            ) == c;
                        assert(all.take(i + 1)[j] == all.take(i as int)[j]);
                    }
                    if has_coord(all.take(i + 1), c) {
                        let j = choose|j: int|
                            0 <= j < all.take(i + 1).len() && coord_of(
                                (#[trigger] all.take(i + 1)[j]).signable,
                            ) == c;
                        if j < i {
                            assert(all.take(i as int)[j] == all.take(i + 1)[j]);
                        }
                    }
                }
            }
            i += 1;
        }
        Ok(())
    }

    /// The round after the last of the units by this participant, or 0 if there is none.
    pub fn next_round_backup(&self, units: &Vec<UncheckedSignedUnit>) -> (next: u32)
        ensures
            next == next_round(units.deep_view(), self.own_index()),
    {
        let mut next: u32 = 0;
        let mut i: usize = 0;
        let ghost all = units.deep_view();
        while i < units.len()
            invariant
                i <= units.len(),
                all == units.deep_view(),
                next == next_round(all.take(i as int), self.index),
                next <= Round::MAX + 1,
            decreases units.len() - i,
        {
            proof {
                assert(all.take(i + 1).drop_last() =~= all.take(i as int));
            }
            let unit = &units[i].signable;
            if unit.creator.0 == self.index.0 {
                let after: u32 = unit.round as u32 + 1;
                if after > next {
                    next = after;
                }
            }
            i += 1;
        }
        proof {
            assert(all.take(all.len() as int) =~= all);
        }
        next
    }

    /// Reads and checks the backup. Gives what was read, with the round that the backup
    /// continues with.
    pub fn load_data(&self) -> (result: Result<(LoadedData, u32), BackupError>)
        ensures
            match result {
                Ok((loaded, next)) => {
                    &&& parse_records(self.log(), 0) matches Ok(items)
                    &&& loaded.0.deep_view() == units_of(items)
                    &&& loaded.1.deep_view() == alert_data_of(items)
                    &&& units_fault(self.session(), units_of(items), units_of(items).len())
                        is None
                    &&& next == next_round(units_of(items), self.own_index())
                },
                Err(BackupError::Read(ReadError::Codec(at))) => parse_records(self.log(), 0)
                    == Err::<Seq<BackupItemView>, int>(at as int),
                Err(BackupError::Incorrect(fault)) => {
                    &&& parse_records(self.log(), 0) matches Ok(items)
                    &&& units_fault(self.session(), units_of(items), units_of(items).len())
                        == Some(fault.deep_view())
                },
            },
    {
        let items = match self.load() {
            Ok(items) => items,
            Err(e) => {
                return Err(BackupError::Read(e));
            },
        };
        let loaded = split_items(items);
        match self.verify_units(&loaded.0) {
            Ok(_) => {},
            Err(e) => {
                return Err(BackupError::Incorrect(e));
            },
        }
        let next = self.next_round_backup(&loaded.0);
        Ok((loaded, next))
    }

    /// Decides the round to start from: none where the backup is behind what the other
    /// participants have seen of this one, else the round that the backup continues with.
    pub fn starting_round(next_round_backup: u32, next_round_collection: Round) -> (start: Option<
        Round,
    >)
        ensures
            start == starting_round_spec(next_round_backup as nat, next_round_collection),
    {
        if next_round_backup < next_round_collection as u32 || next_round_backup
            > Round::MAX as u32 {
            None
        } else {
            Some(next_round_backup as Round)
        }
    }

    /// Reads the backup and decides the round to start from, given the round that the other
    /// participants have seen of this one, if they answered. Gives what was read, unless the
    /// backup cannot be used, and the round to start from, unless the session cannot start.
    pub fn run(&self, next_round_collection: Option<Round>) -> (outcome: (
        Option<LoadedData>,
        Option<Round>,
    ))
        ensures
            match parse_records(self.log(), 0) {
                Ok(items) => {
                    if units_fault(self.session(), units_of(items), units_of(items).len())
                        is None {
                        &&& outcome.0 matches Some(loaded)
                        &&& loaded.0.deep_view() == units_of(items)
                        &&& loaded.1.deep_view() == alert_data_of(items)
                        &&& outcome.1 == match next_round_collection {
                            Some(collected) => starting_round_spec(
                                next_round(units_of(items), self.own_index()),
                                collected,
                            ),
                            None => None,
                        }
                    } else {
                        outcome.0 is None && outcome.1 is None
                    }
                },
                Err(_) => outcome.0 is None && outcome.1 is None,
            },
    {
        let (loaded, next_round_backup) = match self.load_data() {
            Ok(read) => read,
            Err(_) => {
                return (None, None);
            },
        };
        let start = match next_round_collection {
            Some(collected) => Self::starting_round(next_round_backup, collected),
            None => None,
        };
        (Some(loaded), start)
    }
}

/// Once a unit has a fault, so has every longer list of units.
proof fn lemma_fault_found(session_id: SessionId, units: Seq<SignedUnitView>, i: nat, n: nat)
    requires
        i < n,
        units_fault(session_id, units, i) is None,
        unit_fault(session_id, units, i as int) is Some,
    ensures
        units_fault(session_id, units, n) == unit_fault(session_id, units, i as int),
    decreases n,
{
    if n > i + 1 {
        lemma_fault_found(session_id, units, i, (n - 1) as nat);
    } else {
        assert((n - 1) as nat == i);
    }
}

/// What is written to the backup and what is answered once it is written.
pub struct BackupSaver {
    backup: Vec<u8>,
    saved: Ghost<Seq<BackupItemView>>,
}

impl BackupSaver {
    /// The log as far as it is written.
    pub closed spec fn log(&self) -> Seq<u8> {
        self.backup@
    }

    /// The records written, in their order.
    pub closed spec fn records(&self) -> Seq<BackupItemView> {
        self.saved@
    }

    /// The log holds the records written, and nothing else.
    pub closed spec fn wf(&self) -> bool {
        &&& self.backup@ == enc_records(self.saved@)
        &&& forall|i: int|
            0 <= i < self.saved@.len() ==> BackupItem::representable(#[trigger] self.saved@[i])
    }

    /// A saver with an empty log.
    pub fn new() -> (saver: BackupSaver)
        ensures
            saver.wf(),
            saver.log() == Seq::<u8>::empty(),
            saver.records() == Seq::<BackupItemView>::empty(),
    {
        BackupSaver { backup: Vec::new(), saved: Ghost(Seq::empty()) }
    }

    /// The log as far as it is written.
    pub fn backup(&self) -> (log: &Vec<u8>)
        ensures
            log@ == self.log(),
    {
        &self.backup
    }

    /// Writes one record at the end of the log; gives the number of bytes written.
    pub fn save_item(&mut self, item: &BackupItem) -> (written: usize)
        requires
            old(self).wf(),
        ensures
            final(self).wf(),
            final(self).records() == old(self).records().push(item.deep_view()),
            final(self).log() == old(self).log() + BackupItem::enc(item.deep_view()),
            written == BackupItem::enc(item.deep_view()).len(),
    {
        let before: usize = self.backup.len();
        item.encode_to(&mut self.backup);
        proof {
            lemma_enc_records_push(self.saved@, item.deep_view());
            item.lemma_representable();
            self.saved@ = self.saved@.push(item.deep_view());
        }
        self.backup.len() - before
    }

    /// Writes one of this participant's units to the backup; gives the unit back as the word
    /// that it is written.
    pub fn save_unit(&mut self, unit: UncheckedSignedUnit) -> (response: UncheckedSignedUnit)
        requires
            old(self).wf(),
        ensures
            final(self).wf(),
            response.deep_view() == unit.deep_view(),
            final(self).records() == old(self).records().push(
                BackupItemView::Unit(unit.deep_view()),
            ),
    {
        let item = BackupItem::Unit(unit);
        self.save_item(&item);
        match item {
            BackupItem::Unit(unit) => unit,
            BackupItem::AlertData(_) => unreached(),
        }
    }

    /// Writes data of the alerts to the backup; gives the data back as the word that it is
    /// written.
    pub fn save_alert_data(&mut self, data: AlertData) -> (response: AlertData)
        requires
            old(self).wf(),
        ensures
            final(self).wf(),
            response.deep_view() == data.deep_view(),
            final(self).records() == old(self).records().push(
                BackupItemView::AlertData(data.deep_view()),
            ),
    {
        let item = BackupItem::AlertData(data);
        self.save_item(&item);
        match item {
            BackupItem::AlertData(data) => data,
            BackupItem::Unit(_) => unreached(),
        }
    }

    /// Writes the records in their order; gives each back, in order, as the word that it is
    /// written.
    pub fn run(&mut self, items: Vec<BackupItem>) -> (responses: Vec<BackupItem>)
        requires
            old(self).wf(),
        ensures
            final(self).wf(),
            final(self).records() == old(self).records() + items.deep_view(),
            responses.deep_view() == items.deep_view(),
    {
        let mut responses: Vec<BackupItem> = Vec::new();
        let ghost all = items.deep_view();
        let ghost raw = items@;
        proof {
            assert(responses.deep_view() =~= all.take(0));
            assert(self.records() + all.take(0) =~= self.records());
        }
        for item in it: items
            invariant
                it.seq() == raw,
                all == raw.map_values(|i: BackupItem| i.deep_view()),
                self.wf(),
                self.records() == old(self).records() + all.take(it.index() as int),
                responses.deep_view() == all.take(it.index() as int),
        {
            self.save_item(&item);
            let ghost before = responses.deep_view();
            let ghost added = item.deep_view();
            responses.push(item);
            proof {
                assert(responses.deep_view() =~= before.push(added));
                assert(all.take(it.index() + 1) =~= all.take(it.index() as int).push(added));
                assert(old(self).records() + all.take(it.index() as int).push(added) =~= (old(
                    self,
                ).records() + all.take(it.index() as int)).push(added));
            }
        }
        proof {
            assert(all.take(all.len() as int) =~= all);
        }
        responses
    }

    /// What a saver has written is read back as it was written.
    pub proof fn lemma_saved_is_loaded(&self)
        requires
            self.wf(),
        ensures
            parse_records(self.log(), 0) == Ok::<Seq<BackupItemView>, int>(self.records()),
    {
        assert(self.backup@.subrange(0, self.backup@.len() as int) =~= self.backup@);
        lemma_parse_saved(self.backup@, 0, self.saved@);
    }
}

} // verus!
