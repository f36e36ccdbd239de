//! What the participants send each other, and how it is routed between the network and the
//! parts of this participant.

use crate::alerts::{message_data, units_data, units_included_data, AlertMessage, AlertMessageView};
use crate::codec::{lemma_is_at_join, lemma_is_at_split, Wire};
use crate::nodes::{Hash64, NodeIndex, Recipient};
use crate::units::{SignedUnitView, UncheckedSignedUnit, UnitCoord, UnitCoordView};
use crate::value::Value;
use vstd::prelude::*;

verus! {

/// A message concerning units.
#[derive(Debug, PartialEq, Eq, Hash)]
pub enum UnitMessage {
    /// A unit that its creator has just made.
    NewUnit(UncheckedSignedUnit),
    /// A request by a participant for the unit at a place.
    RequestCoord(NodeIndex, UnitCoord),
    /// The answer to a request by place.
    ResponseCoord(UncheckedSignedUnit),
    /// A request by a participant for the parents of the unit with the given hash.
    RequestParents(NodeIndex, Hash64),
    /// The parents of the unit with the given hash.
    ResponseParents(Hash64, Vec<UncheckedSignedUnit>),
}

/// What an [`UnitMessage`] holds, as a mathematical value.
pub enum UnitMessageView {
    NewUnit(SignedUnitView),
    RequestCoord(NodeIndex, UnitCoordView),
    ResponseCoord(SignedUnitView),
    RequestParents(NodeIndex, Hash64),
    ResponseParents(Hash64, Seq<SignedUnitView>),
}

impl DeepView for UnitMessage {
    type V = UnitMessageView;

    open spec fn deep_view(&self) -> UnitMessageView {
        match self {
            UnitMessage::NewUnit(x0) => UnitMessageView::NewUnit(x0.deep_view()),
            UnitMessage::RequestCoord(x0, x1) => UnitMessageView::RequestCoord(*x0, x1.deep_view()),
            UnitMessage::ResponseCoord(x0) => UnitMessageView::ResponseCoord(x0.deep_view()),
            UnitMessage::RequestParents(x0, x1) => UnitMessageView::RequestParents(*x0, *x1),
            UnitMessage::ResponseParents(x0, x1) => UnitMessageView::ResponseParents(
                *x0,
                x1.deep_view(),
            ),
        }
    }
}

impl View for UnitMessage {
    type V = UnitMessageView;

    open spec fn view(&self) -> UnitMessageView {
        self.deep_view()
    }
}

impl Wire for UnitMessage {
    open spec fn enc(v: UnitMessageView) -> Seq<u8> {
        match v {
            UnitMessageView::NewUnit(x0) => seq![0u8] + <UncheckedSignedUnit>::enc(x0),
            UnitMessageView::RequestCoord(x0, x1) => seq![1u8]
                + <NodeIndex>::enc(x0)
                + <UnitCoord>::enc(x1),
            UnitMessageView::ResponseCoord(x0) => seq![2u8] + <UncheckedSignedUnit>::enc(x0),
            UnitMessageView::RequestParents(x0, x1) => seq![3u8]
                + <NodeIndex>::enc(x0)
                + <Hash64>::enc(x1),
            UnitMessageView::ResponseParents(x0, x1) => seq![4u8]
                + <Hash64>::enc(x0)
                + <Vec<UncheckedSignedUnit>>::enc(x1),
        }
    }

    open spec fn parse(s: Seq<u8>, pos: int) -> Option<(UnitMessageView, int)> {
        match u8::parse(s, pos) {
            Some((tag, at0)) => {
                if tag == 0 {
                    match <UncheckedSignedUnit>::parse(s, at0) {
                        Some((x0, at1)) => Some((UnitMessageView::NewUnit(x0), at1)),
                        None => None,
                    }
                } else if tag == 1 {
                    match <NodeIndex>::parse(s, at0) {
                        Some((x0, at1)) => 
                        match <UnitCoord>::parse(s, at1) {
                            Some((x1, at2)) => Some((UnitMessageView::RequestCoord(x0, x1), at2)),
                            None => None,
                        },
                        None => None,
                    }
                } else if tag == 2 {
                    match <UncheckedSignedUnit>::parse(s, at0) {
                        Some((x0, at1)) => Some((UnitMessageView::ResponseCoord(x0), at1)),
                        None => None,
                    }
                } else if tag == 3 {
                    match <NodeIndex>::parse(s, at0) {
                        Some((x0, at1)) => 
                        match <Hash64>::parse(s, at1) {
                            Some((x1, at2)) => Some((UnitMessageView::RequestParents(x0, x1), at2)),
                            None => None,
                        },
                        None => None,
                    }
                } else if tag == 4 {
                    match <Hash64>::parse(s, at0) {
                        Some((x0, at1)) => 
                        match <Vec<UncheckedSignedUnit>>::parse(s, at1) {
                            Some((x1, at2)) => Some(
                                (UnitMessageView::ResponseParents(x0, x1), at2),
                            ),
                            None => None,
                        },
                        None => None,
                    }
                } else {
                    None
                }
            },
            None => None,
        }
    }

    open spec fn representable(v: UnitMessageView) -> bool {
        match v {
            UnitMessageView::NewUnit(x0) => <UncheckedSignedUnit>::representable(x0),
            UnitMessageView::RequestCoord(x0, x1) => {
                &&& <NodeIndex>::representable(x0)
                &&& <UnitCoord>::representable(x1)
            },
            UnitMessageView::ResponseCoord(x0) => <UncheckedSignedUnit>::representable(x0),
            UnitMessageView::RequestParents(x0, x1) => {
                &&& <NodeIndex>::representable(x0)
                &&& <Hash64>::representable(x1)
            },
            UnitMessageView::ResponseParents(x0, x1) => {
                &&& <Hash64>::representable(x0)
                &&& <Vec<UncheckedSignedUnit>>::representable(x1)
            },
        }
    }

    proof fn lemma_representable(&self) {
        match self {
            UnitMessage::NewUnit(x0) => {
                x0.lemma_representable();
            },
            UnitMessage::RequestCoord(x0, x1) => {
                x0.lemma_representable();
                x1.lemma_representable();
            },
            UnitMessage::ResponseCoord(x0) => {
                x0.lemma_representable();
            },
            UnitMessage::RequestParents(x0, x1) => {
                x0.lemma_representable();
                x1.lemma_representable();
            },
            UnitMessage::ResponseParents(x0, x1) => {
                x0.lemma_representable();
                x1.lemma_representable();
            },
        }
    }

    proof fn lemma_parse_sound(s: Seq<u8>, pos: int) {
        u8::lemma_parse_sound(s, pos);
        if let Some((tag, at0)) = u8::parse(s, pos) {
            if tag == 0 {
                <UncheckedSignedUnit>::lemma_parse_sound(s, at0);
                if let Some((x0, at1)) = <UncheckedSignedUnit>::parse(s, at0) {
                    let so_far = seq![0u8];
                    lemma_is_at_join(s, pos, so_far, <UncheckedSignedUnit>::enc(x0));
                }
            }
            if tag == 1 {
                <NodeIndex>::lemma_parse_sound(s, at0);
                if let Some((x0, at1)) = <NodeIndex>::parse(s, at0) {
                    <UnitCoord>::lemma_parse_sound(s, at1);
                    if let Some((x1, at2)) = <UnitCoord>::parse(s, at1) {
                        let so_far = seq![1u8];
                        lemma_is_at_join(s, pos, so_far, <NodeIndex>::enc(x0));
                        let so_far = so_far + <NodeIndex>::enc(x0);
                        lemma_is_at_join(s, pos, so_far, <UnitCoord>::enc(x1));
                    }
                }
            }
            if tag == 2 {
                <UncheckedSignedUnit>::lemma_parse_sound(s, at0);
                if let Some((x0, at1)) = <UncheckedSignedUnit>::parse(s, at0) {
                    let so_far = seq![2u8];
                    lemma_is_at_join(s, pos, so_far, <UncheckedSignedUnit>::enc(x0));
                }
            }
            if tag == 3 {
                <NodeIndex>::lemma_parse_sound(s, at0);
                if let Some((x0, at1)) = <NodeIndex>::parse(s, at0) {
                    <Hash64>::lemma_parse_sound(s, at1);
                    if let Some((x1, at2)) = <Hash64>::parse(s, at1) {
                        let so_far = seq![3u8];
                        lemma_is_at_join(s, pos, so_far, <NodeIndex>::enc(x0));
                        let so_far = so_far + <NodeIndex>::enc(x0);
                        lemma_is_at_join(s, pos, so_far, <Hash64>::enc(x1));
                    }
                }
            }
            if tag == 4 {
                <Hash64>::lemma_parse_sound(s, at0);
                if let Some((x0, at1)) = <Hash64>::parse(s, at0) {
                    <Vec<UncheckedSignedUnit>>::lemma_parse_sound(s, at1);
                    if let Some((x1, at2)) = <Vec<UncheckedSignedUnit>>::parse(s, at1) {
                        let so_far = seq![4u8];
                        lemma_is_at_join(s, pos, so_far, <Hash64>::enc(x0));
                        let so_far = so_far + <Hash64>::enc(x0);
                        lemma_is_at_join(s, pos, so_far, <Vec<UncheckedSignedUnit>>::enc(x1));
                    }
                }
            }
        }
    }

    proof fn lemma_parse_enc(s: Seq<u8>, pos: int, v: UnitMessageView) {
        match v {
            UnitMessageView::NewUnit(x0) => {
                let tag = seq![0u8];
                let enc0 = <UncheckedSignedUnit>::enc(x0);
                lemma_is_at_split(s, pos, tag, enc0);
                u8::lemma_parse_enc(s, pos, 0u8);
                <UncheckedSignedUnit>::lemma_parse_enc(s, pos + tag.len(), x0);
            },
            UnitMessageView::RequestCoord(x0, x1) => {
                let tag = seq![1u8];
                let enc0 = <NodeIndex>::enc(x0);
                let enc1 = <UnitCoord>::enc(x1);
                let upto0 = tag + enc0;
                lemma_is_at_split(s, pos, upto0, enc1);
                lemma_is_at_split(s, pos, tag, enc0);
                u8::lemma_parse_enc(s, pos, 1u8);
                <NodeIndex>::lemma_parse_enc(s, pos + tag.len(), x0);
                <UnitCoord>::lemma_parse_enc(s, pos + upto0.len(), x1);
            },
            UnitMessageView::ResponseCoord(x0) => {
                let tag = seq![2u8];
                let enc0 = <UncheckedSignedUnit>::enc(x0);
                lemma_is_at_split(s, pos, tag, enc0);
                u8::lemma_parse_enc(s, pos, 2u8);
                <UncheckedSignedUnit>::lemma_parse_enc(s, pos + tag.len(), x0);
            },
            UnitMessageView::RequestParents(x0, x1) => {
                let tag = seq![3u8];
                let enc0 = <NodeIndex>::enc(x0);
                let enc1 = <Hash64>::enc(x1);
                let upto0 = tag + enc0;
                lemma_is_at_split(s, pos, upto0, enc1);
                lemma_is_at_split(s, pos, tag, enc0);
                u8::lemma_parse_enc(s, pos, 3u8);
                <NodeIndex>::lemma_parse_enc(s, pos + tag.len(), x0);
                <Hash64>::lemma_parse_enc(s, pos + upto0.len(), x1);
            },
            UnitMessageView::ResponseParents(x0, x1) => {
                let tag = seq![4u8];
                let enc0 = <Hash64>::enc(x0);
                let enc1 = <Vec<UncheckedSignedUnit>>::enc(x1);
                let upto0 = tag + enc0;
                lemma_is_at_split(s, pos, upto0, enc1);
                lemma_is_at_split(s, pos, tag, enc0);
                u8::lemma_parse_enc(s, pos, 4u8);
                <Hash64>::lemma_parse_enc(s, pos + tag.len(), x0);
                <Vec<UncheckedSignedUnit>>::lemma_parse_enc(s, pos + upto0.len(), x1);
            },
        }
    }

    fn encode_to(&self, out: &mut Vec<u8>) {
        match self {
            UnitMessage::NewUnit(x0) => {
                out.push(0u8);
                x0.encode_to(out);
                proof {
                    let enc0 = <UncheckedSignedUnit>::enc(x0.deep_view());
                    let whole = seq![0u8] + enc0;
                    assert(old(out)@.push(0u8) + enc0 =~= old(out)@ + whole);
                }
            },
            UnitMessage::RequestCoord(x0, x1) => {
                out.push(1u8);
                x0.encode_to(out);
                x1.encode_to(out);
                proof {
                    let enc0 = <NodeIndex>::enc(*x0);
                    let enc1 = <UnitCoord>::enc(x1.deep_view());
                    let whole = seq![1u8] + enc0 + enc1;
                    assert(old(out)@.push(1u8) + enc0 + enc1 =~= old(out)@ + whole);
                }
            },
            UnitMessage::ResponseCoord(x0) => {
                out.push(2u8);
                x0.encode_to(out);
                proof {
                    let enc0 = <UncheckedSignedUnit>::enc(x0.deep_view());
                    let whole = seq![2u8] + enc0;
                    assert(old(out)@.push(2u8) + enc0 =~= old(out)@ + whole);
                }
            },
            UnitMessage::RequestParents(x0, x1) => {
                out.push(3u8);
                x0.encode_to(out);
                x1.encode_to(out);
                proof {
                    let enc0 = <NodeIndex>::enc(*x0);
                    let enc1 = <Hash64>::enc(*x1);
                    let whole = seq![3u8] + enc0 + enc1;
                    assert(old(out)@.push(3u8) + enc0 + enc1 =~= old(out)@ + whole);
                }
            },
            UnitMessage::ResponseParents(x0, x1) => {
                out.push(4u8);
                x0.encode_to(out);
                x1.encode_to(out);
                proof {
                    let enc0 = <Hash64>::enc(*x0);
                    let enc1 = <Vec<UncheckedSignedUnit>>::enc(x1.deep_view());
                    let whole = seq![4u8] + enc0 + enc1;
                    assert(old(out)@.push(4u8) + enc0 + enc1 =~= old(out)@ + whole);
                }
            },
        }
    }

    fn decode(input: &[u8], pos: usize) -> (r: Option<(Self, usize)>) {
        let (tag, at0) = match u8::decode(input, pos) {
            Some(read) => read,
            None => {
                return None;
            },
        };
        if tag == 0 {
            let (x0, at1) = match <UncheckedSignedUnit>::decode(input, at0) {
                Some(read) => read,
                None => {
                    return None;
                },
            };
            Some((UnitMessage::NewUnit(x0), at1))
        } else if tag == 1 {
            let (x0, at1) = match <NodeIndex>::decode(input, at0) {
                Some(read) => read,
                None => {
                    return None;
                },
            };
            proof {
                <NodeIndex>::lemma_parse_sound(input@, at0 as int);
            }
            let (x1, at2) = match <UnitCoord>::decode(input, at1) {
                Some(read) => read,
                None => {
                    return None;
                },
            };
            Some((UnitMessage::RequestCoord(x0, x1), at2))
        } else if tag == 2 {
            let (x0, at1) = match <UncheckedSignedUnit>::decode(input, at0) {
                Some(read) => read,
                None => {
                    return None;
                },
            };
            Some((UnitMessage::ResponseCoord(x0), at1))
        } else if tag == 3 {
            let (x0, at1) = match <NodeIndex>::decode(input, at0) {
                Some(read) => read,
                None => {
                    return None;
                },
            };
            proof {
                <NodeIndex>::lemma_parse_sound(input@, at0 as int);
            }
            let (x1, at2) = match <Hash64>::decode(input, at1) {
                Some(read) => read,
                None => {
                    return None;
                },
            };
            Some((UnitMessage::RequestParents(x0, x1), at2))
        } else if tag == 4 {
            let (x0, at1) = match <Hash64>::decode(input, at0) {
                Some(read) => read,
                None => {
                    return None;
                },
            };
            proof {
                <Hash64>::lemma_parse_sound(input@, at0 as int);
            }
            let (x1, at2) = match <Vec<UncheckedSignedUnit>>::decode(input, at1) {
                Some(read) => read,
                None => {
                    return None;
                },
            };
            Some((UnitMessage::ResponseParents(x0, x1), at2))
        } else {
            None
        }
    }
}

impl Value for UnitMessage {
    fn duplicate(&self) -> (r: Self) {
        match self {
            UnitMessage::NewUnit(x0) => UnitMessage::NewUnit(x0.duplicate()),
            UnitMessage::RequestCoord(x0, x1) => UnitMessage::RequestCoord(
                x0.duplicate(),
                x1.duplicate(),
            ),
            UnitMessage::ResponseCoord(x0) => UnitMessage::ResponseCoord(x0.duplicate()),
            UnitMessage::RequestParents(x0, x1) => UnitMessage::RequestParents(
                x0.duplicate(),
                x1.duplicate(),
            ),
            UnitMessage::ResponseParents(x0, x1) => UnitMessage::ResponseParents(
                x0.duplicate(),
                x1.duplicate(),
            ),
        }
    }

    fn same(&self, other: &Self) -> (b: bool) {
        match (self, other) {
            (UnitMessage::NewUnit(x0), UnitMessage::NewUnit(y0)) => x0.same(y0),
            (UnitMessage::RequestCoord(x0, x1), UnitMessage::RequestCoord(y0, y1)) => {
                x0.same(y0) && x1.same(y1)
            },
            (UnitMessage::ResponseCoord(x0), UnitMessage::ResponseCoord(y0)) => x0.same(y0),
            (UnitMessage::RequestParents(x0, x1), UnitMessage::RequestParents(y0, y1)) => {
                x0.same(y0) && x1.same(y1)
            },
            (UnitMessage::ResponseParents(x0, x1), UnitMessage::ResponseParents(y0, y1)) => {
                x0.same(y0) && x1.same(y1)
            },
            _ => false,
        }
    }
}

impl Clone for UnitMessage {
    fn clone(&self) -> (r: Self)
        ensures
            r.deep_view() == self.deep_view(),
    {
        self.duplicate()
    }
}

/// The two kinds of message that participants send each other.
#[derive(Debug, PartialEq, Eq, Hash)]
pub enum NetworkDataInner {
    Units(UnitMessage),
    Alert(AlertMessage),
}

/// What a [`NetworkDataInner`] holds, as a mathematical value.
pub enum NetworkDataInnerView {
    Units(UnitMessageView),
    Alert(AlertMessageView),
}

impl DeepView for NetworkDataInner {
    type V = NetworkDataInnerView;

    open spec fn deep_view(&self) -> NetworkDataInnerView {
        match self {
            NetworkDataInner::Units(x0) => NetworkDataInnerView::Units(x0.deep_view()),
            NetworkDataInner::Alert(x0) => NetworkDataInnerView::Alert(x0.deep_view()),
        }
    }
}

impl View for NetworkDataInner {
    type V = NetworkDataInnerView;

    open spec fn view(&self) -> NetworkDataInnerView {
        self.deep_view()
    }
}

impl Wire for NetworkDataInner {
    open spec fn enc(v: NetworkDataInnerView) -> Seq<u8> {
        match v {
            NetworkDataInnerView::Units(x0) => seq![0u8] + <UnitMessage>::enc(x0),
            NetworkDataInnerView::Alert(x0) => seq![1u8] + <AlertMessage>::enc(x0),
        }
    }

    open spec fn parse(s: Seq<u8>, pos: int) -> Option<(NetworkDataInnerView, int)> {
        match u8::parse(s, pos) {
            Some((tag, at0)) => {
                if tag == 0 {
                    match <UnitMessage>::parse(s, at0) {
                        Some((x0, at1)) => Some((NetworkDataInnerView::Units(x0), at1)),
                        None => None,
                    }
                } else if tag == 1 {
                    match <AlertMessage>::parse(s, at0) {
                        Some((x0, at1)) => Some((NetworkDataInnerView::Alert(x0), at1)),
                        None => None,
                    }
                } else {
                    None
                }
            },
            None => None,
        }
    }

    open spec fn representable(v: NetworkDataInnerView) -> bool {
        match v {
            NetworkDataInnerView::Units(x0) => <UnitMessage>::representable(x0),
            NetworkDataInnerView::Alert(x0) => <AlertMessage>::representable(x0),
        }
    }

    proof fn lemma_representable(&self) {
        match self {
            NetworkDataInner::Units(x0) => {
                x0.lemma_representable();
            },
            NetworkDataInner::Alert(x0) => {
                x0.lemma_representable();
            },
        }
    }

    proof fn lemma_parse_sound(s: Seq<u8>, pos: int) {
        u8::lemma_parse_sound(s, pos);
        if let Some((tag, at0)) = u8::parse(s, pos) {
            if tag == 0 {
                <UnitMessage>::lemma_parse_sound(s, at0);
                if let Some((x0, at1)) = <UnitMessage>::parse(s, at0) {
                    let so_far = seq![0u8];
                    lemma_is_at_join(s, pos, so_far, <UnitMessage>::enc(x0));
                }
            }
            if tag == 1 {
                <AlertMessage>::lemma_parse_sound(s, at0);
                if let Some((x0, at1)) = <AlertMessage>::parse(s, at0) {
                    let so_far = seq![1u8];
                    lemma_is_at_join(s, pos, so_far, <AlertMessage>::enc(x0));
                }
            }
        }
    }

    proof fn lemma_parse_enc(s: Seq<u8>, pos: int, v: NetworkDataInnerView) {
        match v {
            NetworkDataInnerView::Units(x0) => {
                let tag = seq![0u8];
                let enc0 = <UnitMessage>::enc(x0);
                lemma_is_at_split(s, pos, tag, enc0);
                u8::lemma_parse_enc(s, pos, 0u8);
                <UnitMessage>::lemma_parse_enc(s, pos + tag.len(), x0);
            },
            NetworkDataInnerView::Alert(x0) => {
                let tag = seq![1u8];
                let enc0 = <AlertMessage>::enc(x0);
                lemma_is_at_split(s, pos, tag, enc0);
                u8::lemma_parse_enc(s, pos, 1u8);
                <AlertMessage>::lemma_parse_enc(s, pos + tag.len(), x0);
            },
        }
    }

    fn encode_to(&self, out: &mut Vec<u8>) {
        match self {
            NetworkDataInner::Units(x0) => {
                out.push(0u8);
                x0.encode_to(out);
                proof {
                    let enc0 = <UnitMessage>::enc(x0.deep_view());
                    let whole = seq![0u8] + enc0;
                    assert(old(out)@.push(0u8) + enc0 =~= old(out)@ + whole);
                }
            },
            NetworkDataInner::Alert(x0) => {
                out.push(1u8);
                x0.encode_to(out);
                proof {
                    let enc0 = <AlertMessage>::enc(x0.deep_view());
                    let whole = seq![1u8] + enc0;
                    assert(old(out)@.push(1u8) + enc0 =~= old(out)@ + whole);
                }
            },
        }
    }

    fn decode(input: &[u8], pos: usize) -> (r: Option<(Self, usize)>) {
        let (tag, at0) = match u8::decode(input, pos) {
            Some(read) => read,
            None => {
                return None;
            },
        };
        if tag == 0 {
            let (x0, at1) = match <UnitMessage>::decode(input, at0) {
                Some(read) => read,
                None => {
                    return None;
                },
            };
            Some((NetworkDataInner::Units(x0), at1))
        } else if tag == 1 {
            let (x0, at1) = match <AlertMessage>::decode(input, at0) {
                Some(read) => read,
                None => {
                    return None;
                },
            };
            Some((NetworkDataInner::Alert(x0), at1))
        } else {
            None
        }
    }
}

impl Value for NetworkDataInner {
    fn duplicate(&self) -> (r: Self) {
        match self {
            NetworkDataInner::Units(x0) => NetworkDataInner::Units(x0.duplicate()),
            NetworkDataInner::Alert(x0) => NetworkDataInner::Alert(x0.duplicate()),
        }
    }

    fn same(&self, other: &Self) -> (b: bool) {
        match (self, other) {
            (NetworkDataInner::Units(x0), NetworkDataInner::Units(y0)) => x0.same(y0),
            (NetworkDataInner::Alert(x0), NetworkDataInner::Alert(y0)) => x0.same(y0),
            _ => false,
        }
    }
}

impl Clone for NetworkDataInner {
    fn clone(&self) -> (r: Self)
        ensures
            r.deep_view() == self.deep_view(),
    {
        self.duplicate()
    }
}
/// All that a participant sends to the others: opaque to the network that carries it.
#[derive(Debug, PartialEq, Eq, Hash)]
pub struct NetworkData(pub NetworkDataInner);

impl DeepView for NetworkData {
    type V = NetworkDataInnerView;

    open spec fn deep_view(&self) -> NetworkDataInnerView {
        self.0.deep_view()
    }
}

impl View for NetworkData {
    type V = NetworkDataInnerView;

    open spec fn view(&self) -> NetworkDataInnerView {
        self.deep_view()
    }
}

impl Wire for NetworkData {
    open spec fn enc(v: NetworkDataInnerView) -> Seq<u8> {
        NetworkDataInner::enc(v)
    }

    open spec fn parse(s: Seq<u8>, pos: int) -> Option<(NetworkDataInnerView, int)> {
        NetworkDataInner::parse(s, pos)
    }

    open spec fn representable(v: NetworkDataInnerView) -> bool {
        NetworkDataInner::representable(v)
    }

    proof fn lemma_representable(&self) {
        self.0.lemma_representable();
    }

    proof fn lemma_parse_sound(s: Seq<u8>, pos: int) {
        NetworkDataInner::lemma_parse_sound(s, pos);
    }

    proof fn lemma_parse_enc(s: Seq<u8>, pos: int, v: NetworkDataInnerView) {
        NetworkDataInner::lemma_parse_enc(s, pos, v);
    }

    fn encode_to(&self, out: &mut Vec<u8>) {
        self.0.encode_to(out);
    }

    fn decode(input: &[u8], pos: usize) -> (r: Option<(Self, usize)>) {
        match NetworkDataInner::decode(input, pos) {
            Some((inner, next)) => Some((NetworkData(inner), next)),
            None => None,
        }
    }
}

impl Value for NetworkData {
    fn duplicate(&self) -> (r: Self) {
        NetworkData(self.0.duplicate())
    }

    fn same(&self, other: &Self) -> (b: bool) {
        self.0.same(&other.0)
    }
}

impl Clone for NetworkData {
    fn clone(&self) -> (r: Self)
        ensures
            r.deep_view() == self.deep_view(),
    {
        self.duplicate()
    }
}

/// The payloads that a message about units may bring into the ordering.
pub open spec fn unit_message_data(message: UnitMessageView) -> Seq<Seq<u8>> {
    match message {
        UnitMessageView::NewUnit(unit) => seq![unit.signable.data],
        UnitMessageView::RequestCoord(_, _) => Seq::empty(),
        UnitMessageView::ResponseCoord(unit) => seq![unit.signable.data],
        UnitMessageView::RequestParents(_, _) => Seq::empty(),
        UnitMessageView::ResponseParents(_, units) => units_data(units),
    }
}

/// The payloads that a message may bring into the ordering.
pub open spec fn network_data(data: NetworkDataInnerView) -> Seq<Seq<u8>> {
    match data {
        NetworkDataInnerView::Units(message) => unit_message_data(message),
        NetworkDataInnerView::Alert(message) => message_data(message),
    }
}

fn no_payloads() -> (data: Vec<Vec<u8>>)
    ensures
        data.deep_view() == Seq::<Seq<u8>>::empty(),
{
    let data: Vec<Vec<u8>> = Vec::new();
    proof {
        assert(data.deep_view() =~= Seq::<Seq<u8>>::empty());
    }
    data
}

fn one_payload(unit: &UncheckedSignedUnit) -> (data: Vec<Vec<u8>>)
    ensures
        data.deep_view() == seq![unit.deep_view().signable.data],
{
    let mut data: Vec<Vec<u8>> = Vec::new();
    let payload = unit.signable.data.duplicate();
    data.push(payload);
    proof {
        assert(data.deep_view() =~= seq![unit.deep_view().signable.data]);
    }
    data
}

impl UnitMessage {
    /// The payloads that may end up ordered as a result of accepting this message.
    pub fn included_data(&self) -> (data: Vec<Vec<u8>>)
        ensures
            data.deep_view() == unit_message_data(self.deep_view()),
    {
        match self {
            UnitMessage::NewUnit(unit) => one_payload(unit),
            UnitMessage::RequestCoord(_, _) => no_payloads(),
            UnitMessage::ResponseCoord(unit) => one_payload(unit),
            UnitMessage::RequestParents(_, _) => no_payloads(),
            UnitMessage::ResponseParents(_, units) => units_included_data(units),
        }
    }
}

impl NetworkDataInner {
    /// The payloads that may end up ordered as a result of accepting this message.
    pub fn included_data(&self) -> (data: Vec<Vec<u8>>)
        ensures
            data.deep_view() == network_data(self.deep_view()),
    {
        match self {
            NetworkDataInner::Units(message) => message.included_data(),
            NetworkDataInner::Alert(message) => message.included_data(),
        }
    }
}

impl NetworkData {
    /// All the payloads in the message that might end up in the ordering as a result of
    /// accepting it.
    pub fn included_data(&self) -> (data: Vec<Vec<u8>>)
        ensures
            data.deep_view() == network_data(self.deep_view()),
    {
        self.0.included_data()
    }
}

/// What arrives at the hub.
#[derive(Debug, PartialEq, Eq)]
pub enum HubEvent {
    /// A message about units that this participant wants sent.
    UnitsToSend(UnitMessage, Recipient),
    /// A message about alerts that this participant wants sent.
    AlertsToSend(AlertMessage, Recipient),
    /// What the network brought.
    Incoming(NetworkData),
    /// The hub is to stop, by order or because one of its streams has ended.
    Exit,
}

/// What the hub asks the surrounding program to do.
#[derive(Debug, PartialEq, Eq)]
pub enum HubAction {
    /// Hand the data to the network, for the given recipient.
    Send(NetworkData, Recipient),
    /// Hand the message to the part that deals with units.
    UnitsReceived(UnitMessage),
    /// Hand the message to the part that deals with alerts.
    AlertsReceived(AlertMessage),
}

/// What a [`HubEvent`] holds, as a mathematical value.
pub enum HubEventView {
    UnitsToSend(UnitMessageView, Recipient),
    AlertsToSend(AlertMessageView, Recipient),
    Incoming(NetworkDataInnerView),
    Exit,
}

/// What a [`HubAction`] holds, as a mathematical value.
pub enum HubActionView {
    Send(NetworkDataInnerView, Recipient),
    UnitsReceived(UnitMessageView),
    AlertsReceived(AlertMessageView),
}

impl DeepView for HubEvent {
    type V = HubEventView;

    open spec fn deep_view(&self) -> HubEventView {
        match self {
            HubEvent::UnitsToSend(message, recipient) => HubEventView::UnitsToSend(
                message.deep_view(),
                *recipient,
            ),
            HubEvent::AlertsToSend(message, recipient) => HubEventView::AlertsToSend(
                message.deep_view(),
                *recipient,
            ),
            HubEvent::Incoming(data) => HubEventView::Incoming(data.deep_view()),
            HubEvent::Exit => HubEventView::Exit,
        }
    }
}

impl DeepView for HubAction {
    type V = HubActionView;

    open spec fn deep_view(&self) -> HubActionView {
        match self {
            HubAction::Send(data, recipient) => HubActionView::Send(data.deep_view(), *recipient),
            HubAction::UnitsReceived(message) => HubActionView::UnitsReceived(message.deep_view()),
            HubAction::AlertsReceived(message) => HubActionView::AlertsReceived(
                message.deep_view(),
            ),
        }
    }
}

/// Where the event goes: what is to be sent goes to the network as it is, and what the network
/// brought goes to the part that it concerns. A hub that is told to stop does nothing.
pub open spec fn route(event: HubEventView) -> Option<HubActionView> {
    match event {
        HubEventView::UnitsToSend(message, recipient) => Some(
            HubActionView::Send(NetworkDataInnerView::Units(message), recipient),
        ),
        HubEventView::AlertsToSend(message, recipient) => Some(
            HubActionView::Send(NetworkDataInnerView::Alert(message), recipient),
        ),
        HubEventView::Incoming(NetworkDataInnerView::Units(message)) => Some(
            HubActionView::UnitsReceived(message),
        ),
        HubEventView::Incoming(NetworkDataInnerView::Alert(message)) => Some(
            HubActionView::AlertsReceived(message),
        ),
        HubEventView::Exit => None,
    }
}

/// What the hub does with the events until it is told to stop.
pub open spec fn route_all(events: Seq<HubEventView>) -> Seq<HubActionView>
    decreases events.len(),
{
    if events.len() == 0 {
        Seq::empty()
    } else {
        match route(events.first()) {
            Some(action) => seq![action] + route_all(events.drop_first()),
            None => Seq::empty(),
        }
    }
}

/// The hub between the network and the parts of this participant.
pub struct NetworkHub {
    exiting: bool,
}

impl NetworkHub {
    /// Whether the hub has been told to stop.
    pub closed spec fn stopped(&self) -> bool {
        self.exiting
    }

    pub fn new() -> (hub: NetworkHub)
        ensures
            !hub.stopped(),
    {
        NetworkHub { exiting: false }
    }

    /// Wraps a message for the network.
    pub fn send(&self, data: NetworkData, recipient: Recipient) -> (action: HubAction)
        ensures
            action.deep_view() == HubActionView::Send(data.deep_view(), recipient),
    {
        HubAction::Send(data, recipient)
    }

    /// Hands what the network brought to the part that it concerns.
    pub fn handle_incoming(&self, network_data: NetworkData) -> (action: HubAction)
        ensures
            Some(action.deep_view()) == route(HubEventView::Incoming(network_data.deep_view())),
    {
        let NetworkData(inner) = network_data;
        match inner {
            NetworkDataInner::Units(unit_message) => HubAction::UnitsReceived(unit_message),
            NetworkDataInner::Alert(alert_message) => HubAction::AlertsReceived(alert_message),
        }
    }

    /// Takes one event and gives what is to be done with it, if anything. A hub that has
    /// stopped does nothing.
    pub fn handle_event(&mut self, event: HubEvent) -> (action: Option<HubAction>)
        ensures
            final(self).stopped() == (old(self).stopped() || event.deep_view() is Exit),
            action.deep_view() == if old(self).stopped() {
                None
            } else {
                route(event.deep_view())
            },
    {
        if self.exiting {
            return None;
        }
        match event {
            HubEvent::UnitsToSend(message, recipient) => Some(
                self.send(NetworkData(NetworkDataInner::Units(message)), recipient),
            ),
            HubEvent::AlertsToSend(message, recipient) => Some(
                self.send(NetworkData(NetworkDataInner::Alert(message)), recipient),
            ),
            HubEvent::Incoming(data) => Some(self.handle_incoming(data)),
            HubEvent::Exit => {
                self.exiting = true;
                None
            },
        }
    }

    /// Takes the events in their order until it is told to stop, and gives what is to be done,
    /// in order.
    pub fn run(&mut self, events: Vec<HubEvent>) -> (actions: Vec<HubAction>)
        requires
            !old(self).stopped(),
        ensures
            actions.deep_view() == route_all(events.deep_view()),
    {
        let mut actions: Vec<HubAction> = Vec::new();
        let ghost all = events.deep_view();
        let ghost raw = events@;
        proof {
            assert(actions.deep_view() =~= Seq::empty());
            assert(all.skip(0) =~= all);
        }
        for event in it: events
            invariant
                it.seq() == raw,
                all == raw.map_values(|e: HubEvent| e.deep_view()),
                route_all(all) == if self.stopped() {
                    actions.deep_view()
                } else {
                    actions.deep_view() + route_all(all.skip(it.index() as int))
                },
        {
            let ghost rest = all.skip(it.index() as int);
            proof {
                assert(rest.first() == event.deep_view());
                assert(rest.drop_first() =~= all.skip(it.index() + 1));
            }
            let ghost before = actions.deep_view();
            let ghost stopped = self.stopped();
            match self.handle_event(event) {
                Some(action) => {
                    let ghost added = action.deep_view();
                    actions.push(action);
                    proof {
                        assert(actions.deep_view() =~= before.push(added));
                        assert(before + (seq![added] + route_all(rest.drop_first()))
                            =~= before.push(added) + route_all(rest.drop_first()));
                    }
                },
                None => {
                    proof {
                        if !stopped {
                            assert(before + Seq::<HubActionView>::empty() =~= before);
                        }
                    }
                },
            }
        }
        proof {
            assert(all.skip(all.len() as int) =~= Seq::empty());
            assert(actions.deep_view() + Seq::<HubActionView>::empty() =~= actions.deep_view());
        }
        actions
    }
}

} // verus!
