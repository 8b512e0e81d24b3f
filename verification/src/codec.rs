//! The wire format of the persisted store: fixed-width big-endian integers,
//! a leading tag byte for tagged unions, and length-prefixed, fixed-length
//! framing for strings and arrays.
//!
//! Every encodable type carries a mathematical model, an encoder and a
//! decoder on that model, and a proof that decoding inverts encoding.

use vstd::prelude::*;
use vstd::string::StrSliceExecFns;
use vstd::string::StringSliceAdditionalSpecFns;
use vstd::utf8::decode_utf8;
use vstd::utf8::encode_utf8;
use vstd::utf8::encode_utf8_decode_utf8;
use vstd::utf8::encode_utf8_valid_utf8;
use vstd::utf8::valid_utf8;

verus! {

/// A type that travels through the persisted store's wire format.
///
/// `senc` and `sdec` say what the bytes mean; `enc` and `dec` compute them.
/// Decoding consumes a prefix of the given bytes and returns the rest.
pub trait Wire: Sized {
    /// The mathematical model of a value.
    type M;

    /// The model of this value.
    spec fn model(self) -> Self::M;

    /// Models whose encoding is representable (lengths fit their prefixes).
    spec fn wf(m: Self::M) -> bool;

    /// The bytes a model encodes to.
    spec fn senc(m: Self::M) -> Seq<u8>;

    /// What a byte sequence decodes to: a model and the unread remainder.
    spec fn sdec(s: Seq<u8>) -> Option<(Self::M, Seq<u8>)>;

    /// Decoding inverts encoding, whatever follows the encoded bytes.
    proof fn lemma_rt(m: Self::M, rest: Seq<u8>)
        requires
            Self::wf(m),
        ensures
            Self::sdec(Self::senc(m) + rest) == Some((m, rest)),
    ;

    /// Decoding always consumes at least one byte.
    proof fn lemma_progress(s: Seq<u8>)
        ensures
            Self::sdec(s) matches Some((m, r)) ==> r.len() < s.len(),
    ;

    /// Appends this value's encoding.
    fn enc(&self, out: &mut Vec<u8>)
        ensures
            final(out)@ == old(out)@ + Self::senc(self.model()),
    ;

    /// Decodes one value starting at `pos`, returning it with the position
    /// after it; fails exactly where the format says the bytes are invalid.
    fn dec(buf: &Vec<u8>, pos: usize) -> (r: Option<(Self, usize)>)
        requires
            pos <= buf@.len(),
        ensures
            match r {
                Some((v, p)) => pos <= p <= buf@.len() && Self::sdec(buf@.skip(pos as int))
                    == Some((v.model(), buf@.skip(p as int))),
                None => Self::sdec(buf@.skip(pos as int)) is None,
            },
    ;
}

proof fn lemma_skip_skip(s: Seq<u8>, a: int, b: int)
    requires
        0 <= a,
        0 <= b,
        a + b <= s.len(),
    ensures
        s.skip(a).skip(b) == s.skip(a + b),
{
    assert(s.skip(a).skip(b) =~= s.skip(a + b));
}

impl Wire for u8 {
    type M = u8;

    open spec fn model(self) -> u8 {
        self
    }

    open spec fn wf(m: u8) -> bool {
        true
    }

    open spec fn senc(m: u8) -> Seq<u8> {
        seq![m]
    }

    open spec fn sdec(s: Seq<u8>) -> Option<(u8, Seq<u8>)> {
        if s.len() >= 1 {
            Some((s[0], s.skip(1)))
        } else {
            None
        }
    }

    proof fn lemma_rt(m: u8, rest: Seq<u8>) {
        assert((seq![m] + rest).skip(1) =~= rest);
    }

    proof fn lemma_progress(s: Seq<u8>) {
    }

    fn enc(&self, out: &mut Vec<u8>) {
        out.push(*self);
        assert(final(out)@ =~= old(out)@ + seq![*self]);
    }

    fn dec(buf: &Vec<u8>, pos: usize) -> (r: Option<(Self, usize)>) {
        if pos < buf.len() {
            let b = buf[pos];
            proof {
                lemma_skip_skip(buf@, pos as int, 1);
            }
            Some((b, pos + 1))
        } else {
            None
        }
    }
}

/// A big-endian pair of bytes.
pub open spec fn be2(m: u16) -> Seq<u8> {
    seq![(m >> 8) as u8, m as u8]
}

/// The value of a big-endian pair of bytes.
pub open spec fn from_be2(b0: u8, b1: u8) -> u16 {
    (b0 as u16) << 8 | (b1 as u16)
}

impl Wire for u16 {
    type M = u16;

    open spec fn model(self) -> u16 {
        self
    }

    open spec fn wf(m: u16) -> bool {
        true
    }

    open spec fn senc(m: u16) -> Seq<u8> {
        be2(m)
    }

    open spec fn sdec(s: Seq<u8>) -> Option<(u16, Seq<u8>)> {
        if s.len() >= 2 {
            Some((from_be2(s[0], s[1]), s.skip(2)))
        } else {
            None
        }
    }

    proof fn lemma_rt(m: u16, rest: Seq<u8>) {
        assert(from_be2((m >> 8) as u8, m as u8) == m) by (bit_vector);
        assert((be2(m) + rest).skip(2) =~= rest);
    }

    proof fn lemma_progress(s: Seq<u8>) {
    }

    fn enc(&self, out: &mut Vec<u8>) {
        let m = *self;
        out.push((m >> 8) as u8);
        out.push(#[verifier::truncate] (m as u8));
        assert(final(out)@ =~= old(out)@ + be2(m));
    }

    fn dec(buf: &Vec<u8>, pos: usize) -> (r: Option<(Self, usize)>) {
        if buf.len() - pos >= 2 {
            let v = (buf[pos] as u16) << 8 | (buf[pos + 1] as u16);
            proof {
                lemma_skip_skip(buf@, pos as int, 2);
            }
            Some((v, pos + 2))
        } else {
            None
        }
    }
}

/// Big-endian four bytes.
pub open spec fn be4(m: u32) -> Seq<u8> {
    seq![(m >> 24) as u8, (m >> 16) as u8, (m >> 8) as u8, m as u8]
}

/// The value of big-endian four bytes.
pub open spec fn from_be4(b0: u8, b1: u8, b2: u8, b3: u8) -> u32 {
    (b0 as u32) << 24 | (b1 as u32) << 16 | (b2 as u32) << 8 | (b3 as u32)
}

impl Wire for u32 {
    type M = u32;

    open spec fn model(self) -> u32 {
        self
    }

    open spec fn wf(m: u32) -> bool {
        true
    }

    open spec fn senc(m: u32) -> Seq<u8> {
        be4(m)
    }

    open spec fn sdec(s: Seq<u8>) -> Option<(u32, Seq<u8>)> {
        if s.len() >= 4 {
            Some((from_be4(s[0], s[1], s[2], s[3]), s.skip(4)))
        } else {
            None
        }
    }

    proof fn lemma_rt(m: u32, rest: Seq<u8>) {
        assert(from_be4((m >> 24) as u8, (m >> 16) as u8, (m >> 8) as u8, m as u8) == m)
            by (bit_vector);
        assert((be4(m) + rest).skip(4) =~= rest);
    }

    proof fn lemma_progress(s: Seq<u8>) {
    }

    fn enc(&self, out: &mut Vec<u8>) {
        let m = *self;
        out.push(#[verifier::truncate] ((m >> 24) as u8));
        out.push(#[verifier::truncate] ((m >> 16) as u8));
        out.push(#[verifier::truncate] ((m >> 8) as u8));
        out.push(#[verifier::truncate] (m as u8));
        assert(final(out)@ =~= old(out)@ + be4(m));
    }

    fn dec(buf: &Vec<u8>, pos: usize) -> (r: Option<(Self, usize)>) {
        if buf.len() - pos >= 4 {
            let v = (buf[pos] as u32) << 24 | (buf[pos + 1] as u32) << 16 | (buf[pos + 2] as u32)
                << 8 | (buf[pos + 3] as u32);
            proof {
                lemma_skip_skip(buf@, pos as int, 4);
            }
            Some((v, pos + 4))
        } else {
            None
        }
    }
}

/// Big-endian eight bytes.
pub open spec fn be8(m: u64) -> Seq<u8> {
    seq![
        (m >> 56) as u8,
        (m >> 48) as u8,
        (m >> 40) as u8,
        (m >> 32) as u8,
        (m >> 24) as u8,
        (m >> 16) as u8,
        (m >> 8) as u8,
        m as u8,
    ]
}

/// The value of big-endian eight bytes.
pub open spec fn from_be8(b: Seq<u8>) -> u64
    recommends
        b.len() >= 8,
{
    (b[0] as u64) << 56 | (b[1] as u64) << 48 | (b[2] as u64) << 40 | (b[3] as u64) << 32 | (
    b[4] as u64) << 24 | (b[5] as u64) << 16 | (b[6] as u64) << 8 | (b[7] as u64)
}

impl Wire for u64 {
    type M = u64;

    open spec fn model(self) -> u64 {
        self
    }

    open spec fn wf(m: u64) -> bool {
        true
    }

    open spec fn senc(m: u64) -> Seq<u8> {
        be8(m)
    }

    open spec fn sdec(s: Seq<u8>) -> Option<(u64, Seq<u8>)> {
        if s.len() >= 8 {
            Some((from_be8(s), s.skip(8)))
        } else {
            None
        }
    }

    proof fn lemma_rt(m: u64, rest: Seq<u8>) {
        let s = be8(m) + rest;
        assert(from_be8(s) == m) by {
            let b0 = (m >> 56) as u8;
            let b1 = (m >> 48) as u8;
            let b2 = (m >> 40) as u8;
            let b3 = (m >> 32) as u8;
            let b4 = (m >> 24) as u8;
            let b5 = (m >> 16) as u8;
            let b6 = (m >> 8) as u8;
            let b7 = m as u8;
            assert((b0 as u64) << 56 | (b1 as u64) << 48 | (b2 as u64) << 40 | (b3 as u64) << 32
                | (b4 as u64) << 24 | (b5 as u64) << 16 | (b6 as u64) << 8 | (b7 as u64) == m)
                by (bit_vector)
                requires
                    b0 == (m >> 56) as u8,
                    b1 == (m >> 48) as u8,
                    b2 == (m >> 40) as u8,
                    b3 == (m >> 32) as u8,
                    b4 == (m >> 24) as u8,
                    b5 == (m >> 16) as u8,
                    b6 == (m >> 8) as u8,
                    b7 == m as u8,
            ;
        }
        assert(s.skip(8) =~= rest);
    }

    proof fn lemma_progress(s: Seq<u8>) {
    }

    fn enc(&self, out: &mut Vec<u8>) {
        let m = *self;
        out.push(#[verifier::truncate] ((m >> 56) as u8));
        out.push(#[verifier::truncate] ((m >> 48) as u8));
        out.push(#[verifier::truncate] ((m >> 40) as u8));
        out.push(#[verifier::truncate] ((m >> 32) as u8));
        out.push(#[verifier::truncate] ((m >> 24) as u8));
        out.push(#[verifier::truncate] ((m >> 16) as u8));
        out.push(#[verifier::truncate] ((m >> 8) as u8));
        out.push(#[verifier::truncate] (m as u8));
        assert(final(out)@ =~= old(out)@ + be8(m));
    }

    fn dec(buf: &Vec<u8>, pos: usize) -> (r: Option<(Self, usize)>) {
        if buf.len() - pos >= 8 {
            let v = (buf[pos] as u64) << 56 | (buf[pos + 1] as u64) << 48 | (buf[pos + 2] as u64)
                << 40 | (buf[pos + 3] as u64) << 32 | (buf[pos + 4] as u64) << 24 | (buf[pos
                + 5] as u64) << 16 | (buf[pos + 6] as u64) << 8 | (buf[pos + 7] as u64);
            proof {
                lemma_skip_skip(buf@, pos as int, 8);
                assert(v == from_be8(buf@.skip(pos as int)));
            }
            Some((v, pos + 8))
        } else {
            None
        }
    }
}

impl Wire for bool {
    type M = bool;

    open spec fn model(self) -> bool {
        self
    }

    open spec fn wf(m: bool) -> bool {
        true
    }

    open spec fn senc(m: bool) -> Seq<u8> {
        seq![
            if m {
                1u8
            } else {
                0u8
            },
        ]
    }

    open spec fn sdec(s: Seq<u8>) -> Option<(bool, Seq<u8>)> {
        if s.len() >= 1 && (s[0] == 0 || s[0] == 1) {
            Some((s[0] == 1, s.skip(1)))
        } else {
            None
        }
    }

    proof fn lemma_rt(m: bool, rest: Seq<u8>) {
        assert((Self::senc(m) + rest).skip(1) =~= rest);
    }

    proof fn lemma_progress(s: Seq<u8>) {
    }

    fn enc(&self, out: &mut Vec<u8>) {
        out.push(
            if *self {
                1
            } else {
                0
            },
        );
        assert(final(out)@ =~= old(out)@ + Self::senc(self.model()));
    }

    fn dec(buf: &Vec<u8>, pos: usize) -> (r: Option<(Self, usize)>) {
        if pos < buf.len() && (buf[pos] == 0 || buf[pos] == 1) {
            proof {
                lemma_skip_skip(buf@, pos as int, 1);
            }
            Some((buf[pos] == 1, pos + 1))
        } else {
            None
        }
    }
}

impl Wire for usize {
    type M = usize;

    open spec fn model(self) -> usize {
        self
    }

    open spec fn wf(m: usize) -> bool {
        m <= u64::MAX
    }

    open spec fn senc(m: usize) -> Seq<u8> {
        be8(m as u64)
    }

    open spec fn sdec(s: Seq<u8>) -> Option<(usize, Seq<u8>)> {
        match <u64 as Wire>::sdec(s) {
            Some((v, r)) => if v <= usize::MAX {
                Some((v as usize, r))
            } else {
                None
            },
            None => None,
        }
    }

    proof fn lemma_rt(m: usize, rest: Seq<u8>) {
        <u64 as Wire>::lemma_rt(m as u64, rest);
    }

    proof fn lemma_progress(s: Seq<u8>) {
    }

    fn enc(&self, out: &mut Vec<u8>) {
        let v = *self as u64;
        v.enc(out);
    }

    fn dec(buf: &Vec<u8>, pos: usize) -> (r: Option<(Self, usize)>) {
        match u64::dec(buf, pos) {
            Some((v, p)) => {
                if v <= usize::MAX as u64 {
                    Some((v as usize, p))
                } else {
                    None
                }
            },
            None => None,
        }
    }
}

/// The core type carrying the reason a byte slice is not UTF-8.
#[verifier::external_type_specification]
#[verifier::external_body]
pub struct ExUtf8Error(core::str::Utf8Error);

/// Relies on core::str::from_utf8: it succeeds exactly on valid UTF-8 and
/// returns the string view of those bytes.
pub assume_specification[ core::str::from_utf8 ](v: &[u8]) -> (r: Result<
    &str,
    core::str::Utf8Error,
>)
    ensures
        valid_utf8(v@) <==> r is Ok,
        r matches Ok(s) ==> s.spec_bytes() == v@,
;

/// The encodings of a list of models, in order.
pub open spec fn senc_list<T: Wire>(s: Seq<T::M>) -> Seq<u8>
    decreases s.len(),
{
    if s.len() == 0 {
        Seq::empty()
    } else {
        T::senc(s[0]) + senc_list::<T>(s.drop_first())
    }
}

/// Decoding of exactly `n` consecutive values.
pub open spec fn sdec_list<T: Wire>(s: Seq<u8>, n: nat) -> Option<(Seq<T::M>, Seq<u8>)>
    decreases n,
{
    if n == 0 {
        Some((Seq::empty(), s))
    } else {
        match T::sdec(s) {
            Some((m, r)) => match sdec_list::<T>(r, (n - 1) as nat) {
                Some((ms, r2)) => Some((seq![m] + ms, r2)),
                None => None,
            },
            None => None,
        }
    }
}

proof fn lemma_rt_list<T: Wire>(s: Seq<T::M>, rest: Seq<u8>)
    requires
        forall|k: int| 0 <= k < s.len() ==> T::wf(#[trigger] s[k]),
    ensures
        sdec_list::<T>(senc_list::<T>(s) + rest, s.len()) == Some((s, rest)),
    decreases s.len(),
{
    if s.len() == 0 {
        assert(senc_list::<T>(s) + rest =~= rest);
    } else {
        let tail = s.drop_first();
        assert((T::senc(s[0]) + senc_list::<T>(tail)) + rest =~= T::senc(s[0]) + (senc_list::<T>(
            tail,
        ) + rest));
        T::lemma_rt(s[0], senc_list::<T>(tail) + rest);
        assert(forall|k: int| 0 <= k < tail.len() ==> T::wf(#[trigger] tail[k]));
        lemma_rt_list::<T>(tail, rest);
        assert(seq![s[0]] + tail =~= s);
    }
}

proof fn lemma_list_shrinks<T: Wire>(s: Seq<u8>, n: nat)
    ensures
        sdec_list::<T>(s, n) matches Some((ms, r)) ==> r.len() <= s.len(),
    decreases n,
{
    if n > 0 {
        match T::sdec(s) {
            Some((m, r)) => {
                T::lemma_progress(s);
                lemma_list_shrinks::<T>(r, (n - 1) as nat);
            },
            None => {},
        }
    }
}

proof fn lemma_list_too_long<T: Wire>(s: Seq<u8>, n: nat)
    requires
        n > s.len(),
    ensures
        sdec_list::<T>(s, n) is None,
    decreases n,
{
    match T::sdec(s) {
        Some((m, r)) => {
            T::lemma_progress(s);
            lemma_list_too_long::<T>(r, (n - 1) as nat);
        },
        None => {},
    }
}

proof fn lemma_senc_list_snoc<T: Wire>(s: Seq<T::M>, i: int)
    requires
        0 <= i < s.len(),
    ensures
        senc_list::<T>(s.take(i + 1)) == senc_list::<T>(s.take(i)) + T::senc(s[i]),
    decreases i,
{
    if i == 0 {
        assert(s.take(1).drop_first() =~= Seq::<T::M>::empty());
        assert(s.take(0) =~= Seq::<T::M>::empty());
        assert(s.take(1)[0] == s[0]);
        assert(senc_list::<T>(Seq::<T::M>::empty()) == Seq::<u8>::empty());
        assert(senc_list::<T>(s.take(1)) == T::senc(s[0]) + Seq::<u8>::empty());
        assert(T::senc(s[0]) + Seq::<u8>::empty() =~= T::senc(s[0]));
    } else {
        let sd = s.drop_first();
        lemma_senc_list_snoc::<T>(sd, i - 1);
        assert(s.take(i + 1).drop_first() =~= sd.take(i));
        assert(s.take(i).drop_first() =~= sd.take(i - 1));
        assert(s.take(i + 1)[0] == s[0]);
        assert(s.take(i)[0] == s[0]);
        assert(sd[i - 1] == s[i]);
        assert((T::senc(s[0]) + senc_list::<T>(sd.take(i - 1))) + T::senc(s[i]) =~= T::senc(s[0])
            + (senc_list::<T>(sd.take(i - 1)) + T::senc(s[i])));
    }
}

impl<A: Wire, B: Wire> Wire for (A, B) {
    type M = (A::M, B::M);

    open spec fn model(self) -> (A::M, B::M) {
        (self.0.model(), self.1.model())
    }

    open spec fn wf(m: (A::M, B::M)) -> bool {
        A::wf(m.0) && B::wf(m.1)
    }

    open spec fn senc(m: (A::M, B::M)) -> Seq<u8> {
        A::senc(m.0) + B::senc(m.1)
    }

    open spec fn sdec(s: Seq<u8>) -> Option<((A::M, B::M), Seq<u8>)> {
        match A::sdec(s) {
            Some((a, r)) => match B::sdec(r) {
                Some((b, r2)) => Some(((a, b), r2)),
                None => None,
            },
            None => None,
        }
    }

    proof fn lemma_rt(m: (A::M, B::M), rest: Seq<u8>) {
        assert((A::senc(m.0) + B::senc(m.1)) + rest =~= A::senc(m.0) + (B::senc(m.1) + rest));
        A::lemma_rt(m.0, B::senc(m.1) + rest);
        B::lemma_rt(m.1, rest);
        assert(m == (m.0, m.1));
    }

    proof fn lemma_progress(s: Seq<u8>) {
        match A::sdec(s) {
            Some((a, r)) => {
                A::lemma_progress(s);
                B::lemma_progress(r);
            },
            None => {},
        }
    }

    fn enc(&self, out: &mut Vec<u8>) {
        self.0.enc(out);
        self.1.enc(out);
        assert((old(out)@ + A::senc(self.0.model())) + B::senc(self.1.model()) =~= old(out)@ + (
        A::senc(self.0.model()) + B::senc(self.1.model())));
    }

    fn dec(buf: &Vec<u8>, pos: usize) -> (r: Option<(Self, usize)>) {
        match A::dec(buf, pos) {
            Some((a, p1)) => match B::dec(buf, p1) {
                Some((b, p2)) => Some(((a, b), p2)),
                None => None,
            },
            None => None,
        }
    }
}

impl<T: Wire> Wire for Option<T> {
    type M = Option<T::M>;

    open spec fn model(self) -> Option<T::M> {
        match self {
            Option::Some(v) => Some(v.model()),
            Option::None => None,
        }
    }

    open spec fn wf(m: Option<T::M>) -> bool {
        match m {
            Some(v) => T::wf(v),
            None => true,
        }
    }

    open spec fn senc(m: Option<T::M>) -> Seq<u8> {
        match m {
            Some(v) => seq![1u8] + T::senc(v),
            None => seq![0u8],
        }
    }

    open spec fn sdec(s: Seq<u8>) -> Option<(Option<T::M>, Seq<u8>)> {
        if s.len() >= 1 && s[0] == 0 {
            Some((None, s.skip(1)))
        } else if s.len() >= 1 && s[0] == 1 {
            match T::sdec(s.skip(1)) {
                Some((v, r)) => Some((Some(v), r)),
                None => None,
            }
        } else {
            None
        }
    }

    proof fn lemma_rt(m: Option<T::M>, rest: Seq<u8>) {
        match m {
            Some(v) => {
                assert((seq![1u8] + T::senc(v)) + rest =~= seq![1u8] + (T::senc(v) + rest));
                assert((Self::senc(m) + rest).skip(1) =~= T::senc(v) + rest);
                T::lemma_rt(v, rest);
            },
            None => {
                assert((Self::senc(m) + rest).skip(1) =~= rest);
            },
        }
    }

    proof fn lemma_progress(s: Seq<u8>) {
        if s.len() >= 1 && s[0] == 1 {
            T::lemma_progress(s.skip(1));
        }
    }

    fn enc(&self, out: &mut Vec<u8>) {
        match self {
            Option::Some(v) => {
                out.push(1);
                v.enc(out);
                assert((old(out)@ + seq![1u8]) + T::senc(v.model()) =~= old(out)@ + (seq![1u8]
                    + T::senc(v.model())));
            },
            Option::None => {
                out.push(0);
                assert(final(out)@ =~= old(out)@ + seq![0u8]);
            },
        }
    }

    fn dec(buf: &Vec<u8>, pos: usize) -> (r: Option<(Self, usize)>) {
        if pos < buf.len() && buf[pos] == 0 {
            proof {
                lemma_skip_skip(buf@, pos as int, 1);
            }
            Some((None, pos + 1))
        } else if pos < buf.len() && buf[pos] == 1 {
            proof {
                lemma_skip_skip(buf@, pos as int, 1);
            }
            match T::dec(buf, pos + 1) {
                Some((v, p2)) => Some((Some(v), p2)),
                None => None,
            }
        } else {
            None
        }
    }
}

impl<T: Wire> Wire for Vec<T> {
    type M = Seq<T::M>;

    open spec fn model(self) -> Seq<T::M> {
        self@.map_values(|t: T| t.model())
    }

    open spec fn wf(m: Seq<T::M>) -> bool {
        m.len() <= u64::MAX && forall|k: int| 0 <= k < m.len() ==> T::wf(#[trigger] m[k])
    }

    open spec fn senc(m: Seq<T::M>) -> Seq<u8> {
        be8(m.len() as u64) + senc_list::<T>(m)
    }

    open spec fn sdec(s: Seq<u8>) -> Option<(Seq<T::M>, Seq<u8>)> {
        match <u64 as Wire>::sdec(s) {
            Some((n, r)) => sdec_list::<T>(r, n as nat),
            None => None,
        }
    }

    proof fn lemma_rt(m: Seq<T::M>, rest: Seq<u8>) {
        assert((be8(m.len() as u64) + senc_list::<T>(m)) + rest =~= be8(m.len() as u64) + (
        senc_list::<T>(m) + rest));
        <u64 as Wire>::lemma_rt(m.len() as u64, senc_list::<T>(m) + rest);
        lemma_rt_list::<T>(m, rest);
    }

    proof fn lemma_progress(s: Seq<u8>) {
        match <u64 as Wire>::sdec(s) {
            Some((n, r)) => {
                lemma_list_shrinks::<T>(r, n as nat);
            },
            None => {},
        }
    }

    fn enc(&self, out: &mut Vec<u8>) {
        let n = self.len() as u64;
        n.enc(out);
        let ghost base = out@;
        let ghost mdl = self.model();
        proof {
            assert(mdl.take(0) =~= Seq::<T::M>::empty());
            assert(base + senc_list::<T>(mdl.take(0)) =~= base);
        }
        let mut i: usize = 0;
        while i < self.len()
            invariant
                i <= self@.len(),
                mdl == self.model(),
                mdl.len() == self@.len(),
                out@ == base + senc_list::<T>(mdl.take(i as int)),
                base == old(out)@ + be8(self@.len() as u64),
            decreases self@.len() - i,
        {
            let ghost pre = out@;
            self[i].enc(out);
            proof {
                assert(mdl[i as int] == self@[i as int].model());
                lemma_senc_list_snoc::<T>(mdl, i as int);
                assert((base + senc_list::<T>(mdl.take(i as int))) + T::senc(mdl[i as int]) =~= base
                    + senc_list::<T>(mdl.take(i as int + 1)));
            }
            i += 1;
        }
        proof {
            assert(mdl.take(self@.len() as int) =~= mdl);
            assert((old(out)@ + be8(self@.len() as u64)) + senc_list::<T>(mdl) =~= old(out)@ + (be8(
                self@.len() as u64,
            ) + senc_list::<T>(mdl)));
        }
    }

    fn dec(buf: &Vec<u8>, pos: usize) -> (r: Option<(Self, usize)>) {
        match u64::dec(buf, pos) {
            None => None,
            Some((n, p1)) => {
                if n > (buf.len() - p1) as u64 {
                    proof {
                        lemma_list_too_long::<T>(buf@.skip(p1 as int), n as nat);
                    }
                    return None;
                }
                let count: usize = n as usize;
                let mut acc: Vec<T> = Vec::new();
                let mut p: usize = p1;
                let mut i: usize = 0;
                proof {
                    assert(acc.model() =~= Seq::<T::M>::empty());
                    match sdec_list::<T>(buf@.skip(p1 as int), n as nat) {
                        Some((ms, r)) => {
                            assert(Seq::<T::M>::empty() + ms =~= ms);
                        },
                        None => {},
                    }
                }
                while i < count
                    invariant
                        pos <= p1 <= p <= buf@.len(),
                        i <= count,
                        count as nat == n as nat,
                        acc@.len() == i,
                        <u64 as Wire>::sdec(buf@.skip(pos as int)) == Some::<(u64, Seq<u8>)>(
                            (n, buf@.skip(p1 as int)),
                        ),
                        sdec_list::<T>(buf@.skip(p1 as int), n as nat) == (match sdec_list::<T>(
                            buf@.skip(p as int),
                            (count - i) as nat,
                        ) {
                            Some((ms, r)) => Some::<(Seq<T::M>, Seq<u8>)>((acc.model() + ms, r)),
                            None => None::<(Seq<T::M>, Seq<u8>)>,
                        }),
                    decreases count - i,
                {
                    match T::dec(buf, p) {
                        None => {
                            proof {
                                assert(sdec_list::<T>(buf@.skip(p as int), (count - i) as nat)
                                    is None);
                            }
                            return None;
                        },
                        Some((v, p2)) => {
                            let ghost am = acc.model();
                            proof {
                                match sdec_list::<T>(
                                    buf@.skip(p2 as int),
                                    (count - (i + 1)) as nat,
                                ) {
                                    Some((ms, r)) => {
                                        assert(am + (seq![v.model()] + ms) =~= (am + seq![
                                            v.model(),
                                        ]) + ms);
                                    },
                                    None => {},
                                }
                            }
                            acc.push(v);
                            proof {
                                assert(acc.model() =~= am + seq![v.model()]);
                            }
                            p = p2;
                        },
                    }
                    i += 1;
                }
                proof {
                    assert(acc.model() + Seq::<T::M>::empty() =~= acc.model());
                }
                Some((acc, p))
            },
        }
    }
}

impl<T: Wire> Wire for std::collections::VecDeque<T> {
    type M = Seq<T::M>;

    open spec fn model(self) -> Seq<T::M> {
        self@.map_values(|t: T| t.model())
    }

    open spec fn wf(m: Seq<T::M>) -> bool {
        m.len() <= u64::MAX && forall|k: int| 0 <= k < m.len() ==> T::wf(#[trigger] m[k])
    }

    open spec fn senc(m: Seq<T::M>) -> Seq<u8> {
        be8(m.len() as u64) + senc_list::<T>(m)
    }

    open spec fn sdec(s: Seq<u8>) -> Option<(Seq<T::M>, Seq<u8>)> {
        match <u64 as Wire>::sdec(s) {
            Some((n, r)) => sdec_list::<T>(r, n as nat),
            None => None,
        }
    }

    proof fn lemma_rt(m: Seq<T::M>, rest: Seq<u8>) {
        <Vec<T> as Wire>::lemma_rt(m, rest);
    }

    proof fn lemma_progress(s: Seq<u8>) {
        <Vec<T> as Wire>::lemma_progress(s);
    }

    fn enc(&self, out: &mut Vec<u8>) {
        let n = self.len() as u64;
        n.enc(out);
        let ghost base = out@;
        let ghost mdl = self.model();
        proof {
            assert(mdl.take(0) =~= Seq::<T::M>::empty());
            assert(base + senc_list::<T>(mdl.take(0)) =~= base);
        }
        let mut i: usize = 0;
        while i < self.len()
            invariant
                i <= self@.len(),
                mdl == self.model(),
                mdl.len() == self@.len(),
                out@ == base + senc_list::<T>(mdl.take(i as int)),
                base == old(out)@ + be8(self@.len() as u64),
            decreases self@.len() - i,
        {
            let ghost pre = out@;
            self[i].enc(out);
            proof {
                assert(mdl[i as int] == self@[i as int].model());
                lemma_senc_list_snoc::<T>(mdl, i as int);
                assert((base + senc_list::<T>(mdl.take(i as int))) + T::senc(mdl[i as int]) =~= base
                    + senc_list::<T>(mdl.take(i as int + 1)));
            }
            i += 1;
        }
        proof {
            assert(mdl.take(self@.len() as int) =~= mdl);
            assert((old(out)@ + be8(self@.len() as u64)) + senc_list::<T>(mdl) =~= old(out)@ + (be8(
                self@.len() as u64,
            ) + senc_list::<T>(mdl)));
        }
    }

    fn dec(buf: &Vec<u8>, pos: usize) -> (r: Option<(Self, usize)>) {
        match <Vec<T> as Wire>::dec(buf, pos) {
            None => None,
            Some((v, p)) => {
                let ghost vm = v.model();
                let mut rest = v;
                let mut acc: std::collections::VecDeque<T> = std::collections::VecDeque::new();
                proof {
                    assert(acc.model() =~= Seq::<T::M>::empty());
                    assert(Seq::<T::M>::empty() + rest.model() =~= rest.model());
                }
                while rest.len() > 0
                    invariant
                        acc.model() + rest.model() == vm,
                    decreases rest@.len(),
                {
                    let ghost am = acc.model();
                    let ghost rm = rest.model();
                    let x = rest.remove(0);
                    acc.push_back(x);
                    proof {
                        assert(acc.model() =~= am.push(x.model()));
                        assert(rest.model() =~= rm.drop_first());
                        assert(am.push(x.model()) + rm.drop_first() =~= am + rm);
                    }
                }
                proof {
                    assert(rest.model() =~= Seq::<T::M>::empty());
                    assert(acc.model() + rest.model() =~= acc.model());
                }
                Some((acc, p))
            },
        }
    }
}

impl Wire for String {
    type M = Seq<char>;

    open spec fn model(self) -> Seq<char> {
        self@
    }

    open spec fn wf(m: Seq<char>) -> bool {
        encode_utf8(m).len() <= u64::MAX
    }

    open spec fn senc(m: Seq<char>) -> Seq<u8> {
        be8(encode_utf8(m).len() as u64) + encode_utf8(m)
    }

    open spec fn sdec(s: Seq<u8>) -> Option<(Seq<char>, Seq<u8>)> {
        match <u64 as Wire>::sdec(s) {
            Some((n, r)) => if r.len() >= n && valid_utf8(r.take(n as int)) {
                Some((decode_utf8(r.take(n as int)), r.skip(n as int)))
            } else {
                None
            },
            None => None,
        }
    }

    proof fn lemma_rt(m: Seq<char>, rest: Seq<u8>) {
        let bytes = encode_utf8(m);
        assert((be8(bytes.len() as u64) + bytes) + rest =~= be8(bytes.len() as u64) + (bytes
            + rest));
        <u64 as Wire>::lemma_rt(bytes.len() as u64, bytes + rest);
        assert((bytes + rest).take(bytes.len() as int) =~= bytes);
        assert((bytes + rest).skip(bytes.len() as int) =~= rest);
        encode_utf8_valid_utf8(m);
        encode_utf8_decode_utf8(m);
    }

    proof fn lemma_progress(s: Seq<u8>) {
    }

    fn enc(&self, out: &mut Vec<u8>) {
        let bytes = self.as_str().as_bytes_vec();
        let n = bytes.len() as u64;
        n.enc(out);
        let ghost mid = out@;
        out.extend_from_slice(bytes.as_slice());
        proof {
            assert(out@ =~= mid + bytes@);
            assert((old(out)@ + be8(bytes@.len() as u64)) + bytes@ =~= old(out)@ + (be8(
                bytes@.len() as u64,
            ) + bytes@));
        }
    }

    fn dec(buf: &Vec<u8>, pos: usize) -> (r: Option<(Self, usize)>) {
        match u64::dec(buf, pos) {
            None => None,
            Some((n, p1)) => {
                if n > (buf.len() - p1) as u64 {
                    return None;
                }
                let count: usize = n as usize;
                let mut chunk: Vec<u8> = Vec::new();
                let mut k: usize = 0;
                proof {
                    assert(chunk@ =~= buf@.skip(p1 as int).take(0));
                }
                while k < count
                    invariant
                        pos <= p1 <= buf@.len(),
                        buf@.len() <= usize::MAX,
                        k <= count,
                        count <= buf@.len() - p1,
                        chunk@ == buf@.skip(p1 as int).take(k as int),
                    decreases count - k,
                {
                    chunk.push(buf[p1 + k]);
                    proof {
                        assert(chunk@ =~= buf@.skip(p1 as int).take(k as int + 1));
                    }
                    k += 1;
                }
                match core::str::from_utf8(chunk.as_slice()) {
                    Ok(t) => {
                        let owned = t.to_owned();
                        proof {
                            lemma_skip_skip(buf@, p1 as int, count as int);
                            encode_utf8_decode_utf8(t@);
                        }
                        Some((owned, p1 + count))
                    },
                    Err(_) => None,
                }
            },
        }
    }
}

} // verus!
