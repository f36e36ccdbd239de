//! The canonical byte encoding of the values that go over the wire and into the backup.
//!
//! Integers are written little-endian with a fixed width, a participant's index and a length as
//! eight bytes, a flag as one byte that is 0 or 1, an optional value as a flag followed by the
//! value if there is one, and a list as its length followed by its items.

use vstd::prelude::*;
use vstd::bytes::{
    lemma_auto_spec_u16_to_from_le_bytes, lemma_auto_spec_u64_to_from_le_bytes,
    spec_u16_from_le_bytes, spec_u16_to_le_bytes, spec_u64_from_le_bytes, spec_u64_to_le_bytes,
    u16_from_le_bytes, u16_to_le_bytes, u64_from_le_bytes, u64_to_le_bytes,
};
use vstd::slice::slice_subrange;

verus! {

/// `bytes` stands in `s` at position `pos`.
pub open spec fn is_at(s: Seq<u8>, pos: int, bytes: Seq<u8>) -> bool {
    &&& 0 <= pos
    &&& pos + bytes.len() <= s.len()
    &&& s.subrange(pos, pos + bytes.len()) == bytes
}

/// Where a concatenation stands, its two parts stand one after the other.
pub proof fn lemma_is_at_split(s: Seq<u8>, pos: int, a: Seq<u8>, b: Seq<u8>)
    requires
        is_at(s, pos, a + b),
    ensures
        is_at(s, pos, a),
        is_at(s, pos + a.len(), b),
{
    let ab = s.subrange(pos, pos + (a + b).len());
    assert(s.subrange(pos, pos + a.len()) =~= ab.subrange(0, a.len() as int));
    assert((a + b).subrange(0, a.len() as int) =~= a);
    assert(s.subrange(pos + a.len(), pos + a.len() + b.len()) =~= ab.subrange(
        a.len() as int,
        (a + b).len() as int,
    ));
    assert((a + b).subrange(a.len() as int, (a + b).len() as int) =~= b);
}

/// Where two byte strings stand one after the other, their concatenation stands.
pub proof fn lemma_is_at_join(s: Seq<u8>, pos: int, a: Seq<u8>, b: Seq<u8>)
    requires
        is_at(s, pos, a),
        is_at(s, pos + a.len(), b),
    ensures
        is_at(s, pos, a + b),
{
    assert(s.subrange(pos, pos + (a + b).len()) =~= s.subrange(pos, pos + a.len()) + s.subrange(
        pos + a.len(),
        pos + a.len() + b.len(),
    ));
}

/// Every byte string stands at its own start, whatever follows it.
pub proof fn lemma_is_at_prefix(a: Seq<u8>, rest: Seq<u8>)
    ensures
        is_at(a + rest, 0, a),
{
    assert((a + rest).subrange(0, a.len() as int) =~= a);
}

/// A type with a canonical encoding.
///
/// `parse` is the inverse of `enc`: it accepts exactly the byte strings that `enc` produces for
/// the values that the type can hold, and gives that value back.
pub trait Wire: DeepView + Sized {
    /// The encoding of a value.
    spec fn enc(v: Self::V) -> Seq<u8>;

    /// The value that is encoded in `s` from `pos` on, with the position behind it.
    spec fn parse(s: Seq<u8>, pos: int) -> Option<(Self::V, int)>;

    /// The values that the type can hold.
    spec fn representable(v: Self::V) -> bool;

    proof fn lemma_representable(&self)
        ensures
            Self::representable(self.deep_view()),
    ;

    /// What `parse` accepts is the encoding of the value it gives.
    proof fn lemma_parse_sound(s: Seq<u8>, pos: int)
        requires
            0 <= pos <= s.len(),
        ensures
            match Self::parse(s, pos) {
                Some((v, next)) => {
                    &&& Self::representable(v)
                    &&& is_at(s, pos, Self::enc(v))
                    &&& next == pos + Self::enc(v).len()
                },
                None => true,
            },
    ;

    /// Where the encoding of a value stands, `parse` gives the value back.
    proof fn lemma_parse_enc(s: Seq<u8>, pos: int, v: Self::V)
        requires
            Self::representable(v),
            is_at(s, pos, Self::enc(v)),
        ensures
            Self::parse(s, pos) == Some((v, pos + Self::enc(v).len())),
    ;

    /// Appends the encoding of the value to `out`.
    fn encode_to(&self, out: &mut Vec<u8>)
        ensures
            final(out)@ == old(out)@ + Self::enc(self.deep_view()),
    ;

    /// Reads one value from `input` at `pos`; gives it with the position behind it.
    fn decode(input: &[u8], pos: usize) -> (r: Option<(Self, usize)>)
        requires
            pos <= input@.len(),
        ensures
            match Self::parse(input@, pos as int) {
                Some((v, next)) => r matches Some((x, n)) && x.deep_view() == v && n == next,
                None => r is None,
            },
    ;
}

impl Wire for u8 {
    open spec fn enc(v: u8) -> Seq<u8> {
        seq![v]
    }

    open spec fn parse(s: Seq<u8>, pos: int) -> Option<(u8, int)> {
        if 0 <= pos < s.len() {
            Some((s[pos], pos + 1))
        } else {
            None
        }
    }

    open spec fn representable(v: u8) -> bool {
        true
    }

    proof fn lemma_representable(&self) {
    }

    proof fn lemma_parse_sound(s: Seq<u8>, pos: int) {
        if pos < s.len() {
            assert(s.subrange(pos, pos + 1) =~= seq![s[pos]]);
        }
    }

    proof fn lemma_parse_enc(s: Seq<u8>, pos: int, v: u8) {
        assert(s.subrange(pos, pos + 1)[0] == v);
    }

    fn encode_to(&self, out: &mut Vec<u8>) {
        out.push(*self);
    }

    fn decode(input: &[u8], pos: usize) -> (r: Option<(u8, usize)>) {
        if pos < input.len() {
            Some((input[pos], pos + 1))
        } else {
            None
        }
    }
}

impl Wire for bool {
    open spec fn enc(v: bool) -> Seq<u8> {
        seq![if v { 1u8 } else { 0u8 }]
    }

    open spec fn parse(s: Seq<u8>, pos: int) -> Option<(bool, int)> {
        if 0 <= pos < s.len() && s[pos] <= 1 {
            Some((s[pos] == 1, pos + 1))
        } else {
            None
        }
    }

    open spec fn representable(v: bool) -> bool {
        true
    }

    proof fn lemma_representable(&self) {
    }

    proof fn lemma_parse_sound(s: Seq<u8>, pos: int) {
        if pos < s.len() {
            assert(s.subrange(pos, pos + 1) =~= seq![s[pos]]);
        }
    }

    proof fn lemma_parse_enc(s: Seq<u8>, pos: int, v: bool) {
        assert(s.subrange(pos, pos + 1)[0] == Self::enc(v)[0]);
    }

    fn encode_to(&self, out: &mut Vec<u8>) {
        out.push(if *self { 1u8 } else { 0u8 });
    }

    fn decode(input: &[u8], pos: usize) -> (r: Option<(bool, usize)>) {
        if pos < input.len() && input[pos] <= 1 {
            Some((input[pos] == 1, pos + 1))
        } else {
            None
        }
    }
}

impl Wire for u16 {
    open spec fn enc(v: u16) -> Seq<u8> {
        spec_u16_to_le_bytes(v)
    }

    open spec fn parse(s: Seq<u8>, pos: int) -> Option<(u16, int)> {
        if 0 <= pos && pos + 2 <= s.len() {
            Some((spec_u16_from_le_bytes(s.subrange(pos, pos + 2)), pos + 2))
        } else {
            None
        }
    }

    open spec fn representable(v: u16) -> bool {
        true
    }

    proof fn lemma_representable(&self) {
    }

    proof fn lemma_parse_sound(s: Seq<u8>, pos: int) {
        lemma_auto_spec_u16_to_from_le_bytes();
    }

    proof fn lemma_parse_enc(s: Seq<u8>, pos: int, v: u16) {
        lemma_auto_spec_u16_to_from_le_bytes();
    }

    fn encode_to(&self, out: &mut Vec<u8>) {
        let mut bytes = u16_to_le_bytes(*self);
        out.append(&mut bytes);
    }

    fn decode(input: &[u8], pos: usize) -> (r: Option<(u16, usize)>) {
        if input.len() - pos >= 2 {
            Some((u16_from_le_bytes(slice_subrange(input, pos, pos + 2)), pos + 2))
        } else {
            None
        }
    }
}

impl Wire for u64 {
    open spec fn enc(v: u64) -> Seq<u8> {
        spec_u64_to_le_bytes(v)
    }

    open spec fn parse(s: Seq<u8>, pos: int) -> Option<(u64, int)> {
        if 0 <= pos && pos + 8 <= s.len() {
            Some((spec_u64_from_le_bytes(s.subrange(pos, pos + 8)), pos + 8))
        } else {
            None
        }
    }

    open spec fn representable(v: u64) -> bool {
        true
    }

    proof fn lemma_representable(&self) {
    }

    proof fn lemma_parse_sound(s: Seq<u8>, pos: int) {
        lemma_auto_spec_u64_to_from_le_bytes();
    }

    proof fn lemma_parse_enc(s: Seq<u8>, pos: int, v: u64) {
        lemma_auto_spec_u64_to_from_le_bytes();
    }

    fn encode_to(&self, out: &mut Vec<u8>) {
        let mut bytes = u64_to_le_bytes(*self);
        out.append(&mut bytes);
    }

    fn decode(input: &[u8], pos: usize) -> (r: Option<(u64, usize)>) {
        if input.len() - pos >= 8 {
            Some((u64_from_le_bytes(slice_subrange(input, pos, pos + 8)), pos + 8))
        } else {
            None
        }
    }
}

impl Wire for usize {
    open spec fn enc(v: usize) -> Seq<u8> {
        spec_u64_to_le_bytes(v as u64)
    }

    open spec fn parse(s: Seq<u8>, pos: int) -> Option<(usize, int)> {
        match u64::parse(s, pos) {
            Some((v, next)) => if v <= usize::MAX {
                Some((v as usize, next))
            } else {
                None
            },
            None => None,
        }
    }

    open spec fn representable(v: usize) -> bool {
        true
    }

    proof fn lemma_representable(&self) {
    }

    proof fn lemma_parse_sound(s: Seq<u8>, pos: int) {
        u64::lemma_parse_sound(s, pos);
    }

    proof fn lemma_parse_enc(s: Seq<u8>, pos: int, v: usize) {
        u64::lemma_parse_enc(s, pos, v as u64);
    }

    fn encode_to(&self, out: &mut Vec<u8>) {
        let wide: u64 = *self as u64;
        wide.encode_to(out);
    }

    fn decode(input: &[u8], pos: usize) -> (r: Option<(usize, usize)>) {
        match u64::decode(input, pos) {
            Some((v, next)) => if v <= usize::MAX as u64 {
                Some((v as usize, next))
            } else {
                None
            },
            None => None,
        }
    }
}

impl<T: Wire> Wire for Option<T> {
    open spec fn enc(v: Option<T::V>) -> Seq<u8> {
        match v {
            Some(x) => seq![1u8] + T::enc(x),
            None => seq![0u8],
        }
    }

    open spec fn parse(s: Seq<u8>, pos: int) -> Option<(Option<T::V>, int)> {
        match bool::parse(s, pos) {
            Some((present, p)) => if present {
                match T::parse(s, p) {
                    Some((x, next)) => Some((Some(x), next)),
                    None => None,
                }
            } else {
                Some((None, p))
            },
            None => None,
        }
    }

    open spec fn representable(v: Option<T::V>) -> bool {
        match v {
            Some(x) => T::representable(x),
            None => true,
        }
    }

    proof fn lemma_representable(&self) {
        match self {
            Some(x) => x.lemma_representable(),
            None => {},
        }
    }

    proof fn lemma_parse_sound(s: Seq<u8>, pos: int) {
        bool::lemma_parse_sound(s, pos);
        match bool::parse(s, pos) {
            Some((present, p)) => {
                if present {
                    T::lemma_parse_sound(s, p);
                    match T::parse(s, p) {
                        Some((x, next)) => {
                            lemma_is_at_join(s, pos, seq![1u8], T::enc(x));
                        },
                        None => {},
                    }
                }
            },
            None => {},
        }
    }

    proof fn lemma_parse_enc(s: Seq<u8>, pos: int, v: Option<T::V>) {
        match v {
            Some(x) => {
                lemma_is_at_split(s, pos, seq![1u8], T::enc(x));
                bool::lemma_parse_enc(s, pos, true);
                T::lemma_parse_enc(s, pos + 1, x);
            },
            None => {
                bool::lemma_parse_enc(s, pos, false);
            },
        }
    }

    fn encode_to(&self, out: &mut Vec<u8>) {
        match self {
            Some(x) => {
                true.encode_to(out);
                x.encode_to(out);
            },
            None => {
                false.encode_to(out);
            },
        }
    }

    fn decode(input: &[u8], pos: usize) -> (r: Option<(Option<T>, usize)>) {
        match bool::decode(input, pos) {
            Some((present, p)) => {
                if present {
                    proof {
                        bool::lemma_parse_sound(input@, pos as int);
                    }
                    match T::decode(input, p) {
                        Some((x, next)) => Some((Some(x), next)),
                        None => None,
                    }
                } else {
                    Some((None, p))
                }
            },
            None => None,
        }
    }
}

/// The encodings of the items of a list, one after the other.
pub open spec fn enc_items<T: Wire>(vs: Seq<T::V>) -> Seq<u8>
    decreases vs.len(),
{
    if vs.len() == 0 {
        Seq::empty()
    } else {
        enc_items::<T>(vs.drop_last()) + T::enc(vs.last())
    }
}

/// The `count` items that are encoded in `s` from `pos` on, with the position behind them.
pub open spec fn parse_items<T: Wire>(s: Seq<u8>, pos: int, count: nat) -> Option<(Seq<T::V>, int)>
    decreases count,
{
    if count == 0 {
        Some((Seq::empty(), pos))
    } else {
        match parse_items::<T>(s, pos, (count - 1) as nat) {
            Some((vs, p)) => match T::parse(s, p) {
                Some((v, next)) => Some((vs.push(v), next)),
                None => None,
            },
            None => None,
        }
    }
}

/// Every item of the list is a value that `T` can hold.
pub open spec fn items_representable<T: Wire>(vs: Seq<T::V>) -> bool {
    forall|i: int| 0 <= i < vs.len() ==> T::representable(#[trigger] vs[i])
}

/// Once a list of items cannot be parsed, no longer list can.
pub proof fn lemma_parse_items_none<T: Wire>(s: Seq<u8>, pos: int, short: nat, count: nat)
    requires
        short <= count,
        parse_items::<T>(s, pos, short) is None,
    ensures
        parse_items::<T>(s, pos, count) is None,
    decreases count,
{
    if short < count {
        lemma_parse_items_none::<T>(s, pos, short, (count - 1) as nat);
    }
}

/// What `parse_items` accepts is the encoding of the items it gives.
pub proof fn lemma_parse_items_sound<T: Wire>(s: Seq<u8>, pos: int, count: nat)
    requires
        0 <= pos <= s.len(),
    ensures
        match parse_items::<T>(s, pos, count) {
            Some((vs, next)) => {
                &&& vs.len() == count
                &&& items_representable::<T>(vs)
                &&& is_at(s, pos, enc_items::<T>(vs))
                &&& next == pos + enc_items::<T>(vs).len()
            },
            None => true,
        },
    decreases count,
{
    if count == 0 {
        assert(s.subrange(pos, pos) =~= Seq::<u8>::empty());
    } else {
        lemma_parse_items_sound::<T>(s, pos, (count - 1) as nat);
        match parse_items::<T>(s, pos, (count - 1) as nat) {
            Some((vs, p)) => {
                T::lemma_parse_sound(s, p);
                match T::parse(s, p) {
                    Some((v, next)) => {
                        let all = vs.push(v);
                        assert(all.drop_last() =~= vs);
                        lemma_is_at_join(s, pos, enc_items::<T>(vs), T::enc(v));
                    },
                    None => {},
                }
            },
            None => {},
        }
    }
}

/// Where the encodings of a list's items stand, `parse_items` gives the items back.
pub proof fn lemma_parse_enc_items<T: Wire>(s: Seq<u8>, pos: int, vs: Seq<T::V>)
    requires
        items_representable::<T>(vs),
        is_at(s, pos, enc_items::<T>(vs)),
    ensures
        parse_items::<T>(s, pos, vs.len()) == Some((vs, pos + enc_items::<T>(vs).len())),
    decreases vs.len(),
{
    if vs.len() > 0 {
        let front = vs.drop_last();
        lemma_is_at_split(s, pos, enc_items::<T>(front), T::enc(vs.last()));
        lemma_parse_enc_items::<T>(s, pos, front);
        T::lemma_parse_enc(s, pos + enc_items::<T>(front).len(), vs.last());
        assert(front.push(vs.last()) =~= vs);
    }
}

impl<T: Wire> Wire for Vec<T> {
    open spec fn enc(v: Seq<T::V>) -> Seq<u8> {
        usize::enc(v.len() as usize) + enc_items::<T>(v)
    }

    open spec fn parse(s: Seq<u8>, pos: int) -> Option<(Seq<T::V>, int)> {
        match usize::parse(s, pos) {
            Some((count, p)) => parse_items::<T>(s, p, count as nat),
            None => None,
        }
    }

    open spec fn representable(v: Seq<T::V>) -> bool {
        &&& v.len() <= usize::MAX
        &&& items_representable::<T>(v)
    }

    proof fn lemma_representable(&self) {
        assert(self@.len() == self.len());
        assert forall|i: int| 0 <= i < self.deep_view().len() implies T::representable(
            #[trigger] self.deep_view()[i],
        ) by {
            self@[i].lemma_representable();
        }
    }

    proof fn lemma_parse_sound(s: Seq<u8>, pos: int) {
        usize::lemma_parse_sound(s, pos);
        match usize::parse(s, pos) {
            Some((count, p)) => {
                lemma_parse_items_sound::<T>(s, p, count as nat);
                match parse_items::<T>(s, p, count as nat) {
                    Some((vs, next)) => {
                        lemma_is_at_join(s, pos, usize::enc(count), enc_items::<T>(vs));
                    },
                    None => {},
                }
            },
            None => {},
        }
    }

    proof fn lemma_parse_enc(s: Seq<u8>, pos: int, v: Seq<T::V>) {
        let count = v.len() as usize;
        lemma_is_at_split(s, pos, usize::enc(count), enc_items::<T>(v));
        usize::lemma_parse_enc(s, pos, count);
        lemma_parse_enc_items::<T>(s, pos + usize::enc(count).len(), v);
    }

    fn encode_to(&self, out: &mut Vec<u8>) {
        let count: usize = self.len();
        count.encode_to(out);
        let ghost start = out@;
        let mut i: usize = 0;
        while i < count
            invariant
                i <= count,
                count == self.len(),
                out@ == start + enc_items::<T>(self.deep_view().take(i as int)),
            decreases count - i,
        {
            self[i].encode_to(out);
            proof {
                let items = self.deep_view();
                assert(items.take(i + 1).drop_last() =~= items.take(i as int));
                assert(items.take(i + 1).last() == self[i as int].deep_view());
                assert(start + enc_items::<T>(items.take(i as int)) + T::enc(items[i as int])
                    =~= start + (enc_items::<T>(items.take(i as int)) + T::enc(items[i as int])));
            }
            i += 1;
        }
        proof {
            assert(self.deep_view().take(count as int) =~= self.deep_view());
            assert(old(out)@ + usize::enc(count) + enc_items::<T>(self.deep_view()) =~= old(out)@
                + (usize::enc(count) + enc_items::<T>(self.deep_view())));
        }
    }

    fn decode(input: &[u8], pos: usize) -> (r: Option<(Vec<T>, usize)>) {
        let (count, start) = match usize::decode(input, pos) {
            Some(read) => read,
            None => {
                return None;
            },
        };
        proof {
            usize::lemma_parse_sound(input@, pos as int);
        }
        let mut items: Vec<T> = Vec::new();
        let mut at: usize = start;
        let mut i: usize = 0;
        while i < count
            invariant
                i <= count,
                start <= input@.len(),
                at <= input@.len(),
                usize::parse(input@, pos as int) == Some((count, start as int)),
                parse_items::<T>(input@, start as int, i as nat) == Some(
                    (items.deep_view(), at as int),
                ),
            decreases count - i,
        {
            match T::decode(input, at) {
                Some((item, next)) => {
                    proof {
                        T::lemma_parse_sound(input@, at as int);
                        assert(items.deep_view().push(item.deep_view()) =~= items@.push(
                            item,
                        ).map_values(|x: T| x.deep_view()));
                    }
                    items.push(item);
                    at = next;
                    proof {
                        assert(items.deep_view() =~= items@.map_values(|x: T| x.deep_view()));
                    }
                },
                None => {
                    proof {
                        assert(((i + 1) as nat - 1) as nat == i as nat);
                        assert(parse_items::<T>(input@, start as int, (i + 1) as nat) is None);
                        lemma_parse_items_none::<T>(
                            input@,
                            start as int,
                            (i + 1) as nat,
                            count as nat,
                        );
                    }
                    return None;
                },
            }
            i += 1;
        }
        Some((items, at))
    }
}

impl<A: Wire, B: Wire> Wire for (A, B) {
    open spec fn enc(v: (A::V, B::V)) -> Seq<u8> {
        A::enc(v.0) + B::enc(v.1)
    }

    open spec fn parse(s: Seq<u8>, pos: int) -> Option<((A::V, B::V), int)> {
        match A::parse(s, pos) {
            Some((a, at1)) => match B::parse(s, at1) {
                Some((b, at2)) => Some(((a, b), at2)),
                None => None,
            },
            None => None,
        }
    }

    open spec fn representable(v: (A::V, B::V)) -> bool {
        &&& A::representable(v.0)
        &&& B::representable(v.1)
    }

    proof fn lemma_representable(&self) {
        self.0.lemma_representable();
        self.1.lemma_representable();
    }

    proof fn lemma_parse_sound(s: Seq<u8>, pos: int) {
        A::lemma_parse_sound(s, pos);
        if let Some((a, at1)) = A::parse(s, pos) {
            B::lemma_parse_sound(s, at1);
            if let Some((b, at2)) = B::parse(s, at1) {
                lemma_is_at_join(s, pos, A::enc(a), B::enc(b));
            }
        }
    }

    proof fn lemma_parse_enc(s: Seq<u8>, pos: int, v: (A::V, B::V)) {
        lemma_is_at_split(s, pos, A::enc(v.0), B::enc(v.1));
        A::lemma_parse_enc(s, pos, v.0);
        B::lemma_parse_enc(s, pos + A::enc(v.0).len(), v.1);
    }

    fn encode_to(&self, out: &mut Vec<u8>) {
        self.0.encode_to(out);
        self.1.encode_to(out);
        proof {
            assert(old(out)@ + A::enc(self.0.deep_view()) + B::enc(self.1.deep_view()) =~= old(
                out,
            )@ + (A::enc(self.0.deep_view()) + B::enc(self.1.deep_view())));
        }
    }

    fn decode(input: &[u8], pos: usize) -> (r: Option<(Self, usize)>) {
        let (a, at1) = match A::decode(input, pos) {
            Some(read) => read,
            None => {
                return None;
            },
        };
        proof {
            A::lemma_parse_sound(input@, pos as int);
        }
        let (b, at2) = match B::decode(input, at1) {
            Some(read) => read,
            None => {
                return None;
            },
        };
        Some(((a, b), at2))
    }
}

/// The encoding of a value, alone.
pub fn encode<T: Wire>(x: &T) -> (bytes: Vec<u8>)
    ensures
        bytes@ == T::enc(x.deep_view()),
{
    let mut bytes: Vec<u8> = Vec::new();
    x.encode_to(&mut bytes);
    proof {
        assert(Seq::<u8>::empty() + T::enc(x.deep_view()) =~= T::enc(x.deep_view()));
    }
    bytes
}

/// Encoding a value and parsing the result gives the value back, whatever bytes follow it.
pub proof fn lemma_encode_then_parse<T: Wire>(v: T::V, rest: Seq<u8>)
    requires
        T::representable(v),
    ensures
        T::parse(T::enc(v) + rest, 0) == Some((v, T::enc(v).len() as int)),
{
    lemma_is_at_prefix(T::enc(v), rest);
    T::lemma_parse_enc(T::enc(v) + rest, 0, v);
}

/// The encoding is canonical: two values with the same encoding are the same value.
pub proof fn lemma_enc_injective<T: Wire>(v: T::V, w: T::V)
    requires
        T::representable(v),
        T::representable(w),
        T::enc(v) == T::enc(w),
    ensures
        v == w,
{
    lemma_encode_then_parse::<T>(v, Seq::empty());
    lemma_encode_then_parse::<T>(w, Seq::empty());
}

} // verus!
