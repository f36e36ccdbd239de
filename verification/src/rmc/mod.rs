//! The reliable multicast of hashes: every participant signs a hash, and once a quorum has
//! signed, everyone learns of the multisignature.

use crate::codec::{lemma_is_at_join, lemma_is_at_split, Wire};
use crate::crypto::{Multisigned, MultisignedView, SignedHash, SignedHashView};
use crate::nodes::Hash64;
use crate::value::Value;
use vstd::prelude::*;

pub mod handler;
pub mod scheduler;
pub mod service;

verus! {

/// What the participants send each other in a reliable multicast.
#[derive(Debug, PartialEq, Eq, Hash)]
pub enum RmcMessage {
    /// One participant's signature on a hash.
    SignedHash(SignedHash),
    /// A hash with the signatures of a quorum.
    MultisignedHash(Multisigned),
}

/// What a [`RmcMessage`] holds, as a mathematical value.
pub enum RmcMessageView {
    SignedHash(SignedHashView),
    MultisignedHash(MultisignedView),
}

impl DeepView for RmcMessage {
    type V = RmcMessageView;

    open spec fn deep_view(&self) -> RmcMessageView {
        match self {
            RmcMessage::SignedHash(x0) => RmcMessageView::SignedHash(x0.deep_view()),
            RmcMessage::MultisignedHash(x0) => RmcMessageView::MultisignedHash(x0.deep_view()),
        }
    }
}

impl View for RmcMessage {
    type V = RmcMessageView;

    open spec fn view(&self) -> RmcMessageView {
        self.deep_view()
    }
}

impl Wire for RmcMessage {
    open spec fn enc(v: RmcMessageView) -> Seq<u8> {
        match v {
            RmcMessageView::SignedHash(x0) => seq![0u8] + <SignedHash>::enc(x0),
            RmcMessageView::MultisignedHash(x0) => seq![1u8] + <Multisigned>::enc(x0),
        }
    }

    open spec fn parse(s: Seq<u8>, pos: int) -> Option<(RmcMessageView, int)> {
        match u8::parse(s, pos) {
            Some((tag, at0)) => {
                if tag == 0 {
                    match <SignedHash>::parse(s, at0) {
                        Some((x0, at1)) => Some((RmcMessageView::SignedHash(x0), at1)),
                        None => None,
                    }
                } else if tag == 1 {
                    match <Multisigned>::parse(s, at0) {
                        Some((x0, at1)) => Some((RmcMessageView::MultisignedHash(x0), at1)),
                        None => None,
                    }
                } else {
                    None
                }
            },
            None => None,
        }
    }

    open spec fn representable(v: RmcMessageView) -> bool {
        match v {
            RmcMessageView::SignedHash(x0) => <SignedHash>::representable(x0),
            RmcMessageView::MultisignedHash(x0) => <Multisigned>::representable(x0),
        }
    }

    proof fn lemma_representable(&self) {
        match self {
            RmcMessage::SignedHash(x0) => {
                x0.lemma_representable();
            },
            RmcMessage::MultisignedHash(x0) => {
                x0.lemma_representable();
            },
        }
    }

    proof fn lemma_parse_sound(s: Seq<u8>, pos: int) {
        u8::lemma_parse_sound(s, pos);
        if let Some((tag, at0)) = u8::parse(s, pos) {
            if tag == 0 {
                <SignedHash>::lemma_parse_sound(s, at0);
                if let Some((x0, at1)) = <SignedHash>::parse(s, at0) {
                    let so_far = seq![0u8];
                    lemma_is_at_join(s, pos, so_far, <SignedHash>::enc(x0));
                }
            }
            if tag == 1 {
                <Multisigned>::lemma_parse_sound(s, at0);
                if let Some((x0, at1)) = <Multisigned>::parse(s, at0) {
                    let so_far = seq![1u8];
                    lemma_is_at_join(s, pos, so_far, <Multisigned>::enc(x0));
                }
            }
        }
    }

    proof fn lemma_parse_enc(s: Seq<u8>, pos: int, v: RmcMessageView) {
        match v {
            RmcMessageView::SignedHash(x0) => {
                let tag = seq![0u8];
                let enc0 = <SignedHash>::enc(x0);
                lemma_is_at_split(s, pos, tag, enc0);
                u8::lemma_parse_enc(s, pos, 0u8);
                <SignedHash>::lemma_parse_enc(s, pos + tag.len(), x0);
            },
            RmcMessageView::MultisignedHash(x0) => {
                let tag = seq![1u8];
                let enc0 = <Multisigned>::enc(x0);
                lemma_is_at_split(s, pos, tag, enc0);
                u8::lemma_parse_enc(s, pos, 1u8);
                <Multisigned>::lemma_parse_enc(s, pos + tag.len(), x0);
            },
        }
    }

    fn encode_to(&self, out: &mut Vec<u8>) {
        match self {
            RmcMessage::SignedHash(x0) => {
                out.push(0u8);
                x0.encode_to(out);
                proof {
                    let enc0 = <SignedHash>::enc(x0.deep_view());
                    let whole = seq![0u8] + enc0;
                    assert(old(out)@.push(0u8) + enc0 =~= old(out)@ + whole);
                }
            },
            RmcMessage::MultisignedHash(x0) => {
                out.push(1u8);
                x0.encode_to(out);
                proof {
                    let enc0 = <Multisigned>::enc(x0.deep_view());
                    let whole = seq![1u8] + enc0;
                    assert(old(out)@.push(1u8) + enc0 =~= old(out)@ + whole);
                }
            },
        }
    }

    fn decode(input: &[u8], pos: usize) -> (r: Option<(Self, usize)>) {
        let (tag, at0) = match u8::decode(input, pos) {
            Some(read) => read,
            None => {
                return None;
            },
        };
        if tag == 0 {
            let (x0, at1) = match <SignedHash>::decode(input, at0) {
                Some(read) => read,
                None => {
                    return None;
                },
            };
            Some((RmcMessage::SignedHash(x0), at1))
        } else if tag == 1 {
            let (x0, at1) = match <Multisigned>::decode(input, at0) {
                Some(read) => read,
                None => {
                    return None;
                },
            };
            Some((RmcMessage::MultisignedHash(x0), at1))
        } else {
            None
        }
    }
}

impl Value for RmcMessage {
    fn duplicate(&self) -> (r: Self) {
        match self {
            RmcMessage::SignedHash(x0) => RmcMessage::SignedHash(x0.duplicate()),
            RmcMessage::MultisignedHash(x0) => RmcMessage::MultisignedHash(x0.duplicate()),
        }
    }

    fn same(&self, other: &Self) -> (b: bool) {
        match (self, other) {
            (RmcMessage::SignedHash(x0), RmcMessage::SignedHash(y0)) => x0.same(y0),
            (RmcMessage::MultisignedHash(x0), RmcMessage::MultisignedHash(y0)) => x0.same(y0),
            _ => false,
        }
    }
}

impl Clone for RmcMessage {
    fn clone(&self) -> (r: Self)
        ensures
            r.deep_view() == self.deep_view(),
    {
        self.duplicate()
    }
}
/// The hash that a message of the reliable multicast is about.
pub open spec fn message_hash(message: RmcMessageView) -> Hash64 {
    match message {
        RmcMessageView::SignedHash(signed) => signed.signable.hash,
        RmcMessageView::MultisignedHash(multisigned) => multisigned.signable,
    }
}

impl RmcMessage {
    /// The hash that the message is about.
    pub fn hash(&self) -> (hash: Hash64)
        ensures
            hash == message_hash(self.deep_view()),
    {
        match self {
            RmcMessage::SignedHash(signed) => signed.signable.hash,
            RmcMessage::MultisignedHash(multisigned) => multisigned.signable,
        }
    }

    /// Whether the message claims to carry a multisignature.
    pub fn is_complete(&self) -> (complete: bool)
        ensures
            complete == (self.deep_view() is MultisignedHash),
    {
        match self {
            RmcMessage::SignedHash(_) => false,
            RmcMessage::MultisignedHash(_) => true,
        }
    }
}

} // verus!
