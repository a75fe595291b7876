//! The primitive wire types: request ids, short texts, variable-length
//! unsigned integers and length-prefixed binaries.
//!
//! Encoders append to a byte sink; decoders consume the front of a `Reader`.
//! Each pair is described by two spec functions: the bytes that a value is
//! written as, and the value that a byte sequence is read as.

use crate::short_text::ShortText;
use std::collections::BTreeMap;
use vstd::prelude::*;
use vstd::arithmetic::div_mod::{lemma_add_mod_noop, lemma_mod_twice, lemma_mul_mod_noop_right};
use vstd::slice::{slice_subrange, slice_to_vec};
use vstd::string::is_ascii_spec_bytes;

verus! {

/// Why a byte sequence could not be decoded.
#[derive(Clone, Copy, Debug, PartialEq, Eq, Structural)]
pub enum DecodeError {
    /// The bytes end before the value does; more input may complete it.
    Incomplete,
    /// A response kind or a payload tag that the protocol does not know.
    NotMatch,
    /// An access tag that the protocol does not know.
    Unexcepted,
}

/// What a decoder yields on a byte sequence: the value and the number of
/// bytes that it took from the front, or the reason for which there is none.
pub type Parsed<V> = Result<(V, nat), DecodeError>;

/// One more than the largest `usize`: lengths on the wire are taken modulo it.
pub open spec fn word_modulus() -> nat {
    usize::MAX as nat + 1
}

/// A request id on the wire: four bytes, least significant first.
pub open spec fn reqid_bytes(id: u32) -> Seq<u8> {
    seq![
        (id % 256) as u8,
        (id / 256 % 256) as u8,
        (id / 65536 % 256) as u8,
        (id / 16777216) as u8,
    ]
}

/// The request id at the front of `input`.
pub open spec fn parse_reqid(input: Seq<u8>) -> Parsed<u32> {
    if input.len() < 4 {
        Err(DecodeError::Incomplete)
    } else {
        Ok(((input[0] + 256 * input[1] + 65536 * input[2] + 16777216 * input[3]) as u32, 4))
    }
}

/// A short text on the wire: one length byte, then the bytes.
pub open spec fn short_text_bytes(text: Seq<u8>) -> Seq<u8> {
    seq![text.len() as u8] + text
}

/// The short text at the front of `input`.
pub open spec fn parse_short_text(input: Seq<u8>) -> Parsed<Seq<u8>> {
    if input.len() < 1 || input.len() < 1 + input[0] {
        Err(DecodeError::Incomplete)
    } else {
        Ok((input.subrange(1, 1 + input[0]), (1 + input[0]) as nat))
    }
}

/// A variable-length unsigned integer on the wire: groups of seven bits,
/// least significant first, each byte but the last with its top bit set.
pub open spec fn varuint_bytes(value: nat) -> Seq<u8>
    decreases value,
{
    if value < 128 {
        seq![value as u8]
    } else {
        seq![(value % 128 + 128) as u8] + varuint_bytes(value / 128)
    }
}

/// The variable-length unsigned integer at the front of `input`, as the
/// unbounded number that its groups spell.
pub open spec fn parse_varuint(input: Seq<u8>) -> Parsed<nat>
    decreases input.len(),
{
    if input.len() == 0 {
        Err(DecodeError::Incomplete)
    } else if input[0] < 128 {
        Ok((input[0] as nat, 1))
    } else {
        match parse_varuint(input.skip(1)) {
            Ok((high, taken)) => Ok(((input[0] - 128 + 128 * high) as nat, taken + 1)),
            Err(e) => Err(e),
        }
    }
}

/// A binary on the wire: its length as a variable-length integer, then the
/// bytes.
pub open spec fn binary_bytes(data: Seq<u8>) -> Seq<u8> {
    varuint_bytes(data.len()) + data
}

/// The binary at the front of `input`. The length is what a machine word
/// keeps of the number on the wire.
pub open spec fn parse_binary(input: Seq<u8>) -> Parsed<Seq<u8>> {
    match parse_varuint(input) {
        Ok((spelled, taken)) => {
            let len = spelled % word_modulus();
            if input.len() < taken + len {
                Err(DecodeError::Incomplete)
            } else {
                Ok((input.subrange(taken as int, (taken + len) as int), taken + len))
            }
        },
        Err(e) => Err(e),
    }
}

/// The eight bytes that a client opens a connection with: `MINIBUS` and a
/// zero byte.
pub open spec fn handshake_bytes() -> Seq<u8> {
    seq![77u8, 73u8, 78u8, 73u8, 66u8, 85u8, 83u8, 0u8]
}

/// Whether `hello`, the first eight bytes that a client sent, are the
/// handshake.
pub fn verify_client(hello: &[u8]) -> (accepted: bool)
    ensures
        accepted == (hello@ == handshake_bytes()),
{
    let magic: [u8; 8] = [77u8, 73u8, 78u8, 73u8, 66u8, 85u8, 83u8, 0u8];
    if hello.len() != 8 {
        return false;
    }
    let mut i: usize = 0;
    while i < 8
        invariant
            i <= 8,
            hello@.len() == 8,
            magic@ == handshake_bytes(),
            forall|j: int| 0 <= j < i ==> hello@[j] == magic@[j],
        decreases 8 - i,
    {
        if hello[i] != magic[i] {
            assert(hello@[i as int] != handshake_bytes()[i as int]);
            return false;
        }
        i += 1;
    }
    assert(hello@ =~= handshake_bytes());
    true
}

/// What the server answers to the handshake: `OK`.
pub fn handshake_reply() -> (reply: Vec<u8>)
    ensures
        reply@ == ascii("OK"),
{
    proof {
        reveal_strlit("OK");
    }
    bytes_of("OK")
}

/// A sink of bytes, with the encoders of the primitive wire types.
pub trait EncoderUtils: Sized {
    /// Everything written to the sink so far.
    spec fn written(&self) -> Seq<u8>;

    fn encode_short_text(&mut self, text: &ShortText)
        ensures
            final(self).written() == old(self).written() + short_text_bytes(text@),
    ;

    fn encode_varuint(&mut self, value: usize)
        ensures
            final(self).written() == old(self).written() + varuint_bytes(value as nat),
    ;

    fn encode_binary(&mut self, data: &[u8])
        ensures
            final(self).written() == old(self).written() + binary_bytes(data@),
    ;

    fn encode_reqid(&mut self, id: u32)
        ensures
            final(self).written() == old(self).written() + reqid_bytes(id),
    ;
}

/// Appends `data` to `sink`.
pub fn write_all(sink: &mut Vec<u8>, data: &[u8])
    ensures
        final(sink)@ == old(sink)@ + data@,
{
    let mut i: usize = 0;
    while i < data.len()
        invariant
            i <= data@.len(),
            sink@ == old(sink)@ + data@.subrange(0, i as int),
        decreases data@.len() - i,
    {
        sink.push(data[i]);
        assert(sink@ =~= old(sink)@ + data@.subrange(0, i + 1));
        i += 1;
    }
    assert(data@.subrange(0, data@.len() as int) =~= data@);
}

impl EncoderUtils for Vec<u8> {
    open spec fn written(&self) -> Seq<u8> {
        self@
    }

    fn encode_short_text(&mut self, text: &ShortText) {
        self.push(text.u8len());
        write_all(self, text.as_bytes());
        assert(self@ =~= old(self)@ + short_text_bytes(text@));
    }

    fn encode_varuint(&mut self, value: usize) {
        let mut rest: usize = value;
        let ghost mut done: Seq<u8> = Seq::empty();
        while rest >= 128
            invariant
                self@ == old(self)@ + done,
                varuint_bytes(value as nat) == done + varuint_bytes(rest as nat),
            decreases rest,
        {
            let group: u8 = (rest % 128 + 128) as u8;
            self.push(group);
            proof {
                assert(varuint_bytes(rest as nat) == seq![group] + varuint_bytes(
                    (rest / 128) as nat,
                ));
                assert(done + (seq![group] + varuint_bytes((rest / 128) as nat)) =~= done.push(
                    group,
                ) + varuint_bytes((rest / 128) as nat));
                assert(self@ =~= old(self)@ + done.push(group));
                done = done.push(group);
            }
            rest = rest / 128;
        }
        self.push(rest as u8);
        assert(varuint_bytes(rest as nat) == seq![rest as u8]);
        assert(self@ =~= old(self)@ + (done + seq![rest as u8]));
    }

    fn encode_binary(&mut self, data: &[u8]) {
        self.encode_varuint(data.len());
        write_all(self, data);
        assert(self@ =~= old(self)@ + binary_bytes(data@));
    }

    fn encode_reqid(&mut self, id: u32) {
        self.push((id % 256) as u8);
        self.push((id / 256 % 256) as u8);
        self.push((id / 65536 % 256) as u8);
        self.push((id / 16777216) as u8);
        assert(self@ =~= old(self)@ + reqid_bytes(id));
    }
}

/// A cursor over received bytes: what has not been decoded yet.
#[derive(Clone, Copy, Debug)]
pub struct Reader<'a> {
    rest: &'a [u8],
}

impl<'a> View for Reader<'a> {
    type V = Seq<u8>;

    closed spec fn view(&self) -> Seq<u8> {
        self.rest@
    }
}

impl<'a> Reader<'a> {
    /// A reader at the front of `bytes`.
    pub fn new(bytes: &'a [u8]) -> (reader: Reader<'a>)
        ensures
            reader@ == bytes@,
    {
        Reader { rest: bytes }
    }

    /// How many bytes are left.
    pub fn remaining(&self) -> (n: usize)
        ensures
            n == self@.len(),
    {
        self.rest.len()
    }

    /// Takes exactly `count` bytes from the front, or nothing if fewer are
    /// left.
    pub fn read_exact(&mut self, count: usize) -> (taken: Result<&'a [u8], DecodeError>)
        ensures
            old(self)@.len() >= count ==> taken is Ok && taken->Ok_0@ == old(self)@.subrange(
                0,
                count as int,
            ) && final(self)@ == old(self)@.skip(count as int),
            old(self)@.len() < count ==> taken == Err::<&[u8], DecodeError>(
                DecodeError::Incomplete,
            ) && final(self)@ == old(self)@,
    {
        let len = self.rest.len();
        if len < count {
            return Err(DecodeError::Incomplete);
        }
        let taken = slice_subrange(self.rest, 0, count);
        let rest = slice_subrange(self.rest, count, len);
        assert(rest@ =~= self.rest@.skip(count as int));
        self.rest = rest;
        Ok(taken)
    }
}

/// Whether a decoder that was owed `parsed` on the bytes `before` did its
/// work: it returned the value and took its bytes from the front, or returned
/// the error and took nothing.
pub open spec fn delivers<T: View>(
    parsed: Parsed<T::V>,
    before: Seq<u8>,
    after: Seq<u8>,
    result: Result<T, DecodeError>,
) -> bool {
    match parsed {
        Ok((value, taken)) => result is Ok && result->Ok_0@ == value && after == before.skip(
            taken as int,
        ),
        Err(e) => result is Err && result->Err_0 == e && after == before,
    }
}

/// A source of bytes, with the decoders of the primitive wire types.
pub trait DecoderUtils: Sized {
    /// Everything that has not been decoded yet.
    spec fn unread(&self) -> Seq<u8>;

    fn decode_short_text(&mut self) -> (text: Result<ShortText, DecodeError>)
        ensures
            delivers(parse_short_text(old(self).unread()), old(self).unread(), final(self).unread(), text),
    ;

    fn decode_varuint(&mut self) -> (value: Result<usize, DecodeError>)
        ensures
            match parse_varuint(old(self).unread()) {
                Ok((spelled, taken)) => value == Ok::<usize, DecodeError>(
                    (spelled % word_modulus()) as usize,
                ) && final(self).unread() == old(self).unread().skip(taken as int),
                Err(e) => value == Err::<usize, DecodeError>(e) && final(self).unread() == old(self).unread(),
            },
    ;

    fn decode_binary(&mut self) -> (data: Result<Vec<u8>, DecodeError>)
        ensures
            delivers(parse_binary(old(self).unread()), old(self).unread(), final(self).unread(), data),
    ;

    fn decode_reqid(&mut self) -> (id: Result<u32, DecodeError>)
        ensures
            delivers(parse_reqid(old(self).unread()), old(self).unread(), final(self).unread(), id),
    ;
}

/// The weight of the group at position `k` of a variable-length integer.
pub open spec fn radix(k: nat) -> nat
    decreases k,
{
    if k == 0 {
        1
    } else {
        128 * radix((k - 1) as nat)
    }
}

/// What the first `k` groups of `input` spell, each taken as a continuation
/// group.
pub open spec fn low_groups(input: Seq<u8>, k: nat) -> int
    decreases k,
{
    if k == 0 {
        0
    } else {
        low_groups(input, (k - 1) as nat) + (input[k - 1] - 128) * radix((k - 1) as nat)
    }
}

/// Behind `k` continuation groups, a variable-length integer is what the rest
/// spells, shifted by `k` groups, on top of what those groups spell.
pub proof fn lemma_parse_varuint_behind(input: Seq<u8>, k: nat)
    requires
        k <= input.len(),
        forall|j: int| 0 <= j < k ==> input[j] >= 128,
    ensures
        parse_varuint(input) == match parse_varuint(input.skip(k as int)) {
            Ok((high, taken)) => Ok::<(nat, nat), DecodeError>(
                ((low_groups(input, k) + radix(k) * high) as nat, taken + k),
            ),
            Err(e) => Err(e),
        },
        low_groups(input, k) >= 0,
    decreases k,
{
    if k == 0 {
        assert(input.skip(0) =~= input);
        assert(radix(0) == 1);
        assert(low_groups(input, 0) == 0);
        match parse_varuint(input) {
            Ok((high, taken)) => {
                assert(radix(0) * high == high);
            },
            Err(e) => {},
        }
    } else {
        let before = (k - 1) as nat;
        lemma_parse_varuint_behind(input, before);
        let tail = input.skip(before as int);
        assert(tail[0] == input[k - 1]);
        assert(tail.skip(1) =~= input.skip(k as int));
        assert(tail.len() > 0 && tail[0] >= 128);
        match parse_varuint(input.skip(k as int)) {
            Ok((high, taken)) => {
                let group = input[k - 1] - 128;
                assert(parse_varuint(tail.skip(1)) == Ok::<(nat, nat), DecodeError>((high, taken)));
                assert(parse_varuint(tail) == Ok::<(nat, nat), DecodeError>(
                    ((group + 128 * high) as nat, taken + 1),
                ));
                assert(radix(k) == 128 * radix(before));
                assert(low_groups(input, k) == low_groups(input, before) + group * radix(before));
                assert(radix(before) * (group + 128 * high) == group * radix(before) + radix(k)
                    * high) by (nonlinear_arith)
                    requires
                        radix(k) == 128 * radix(before),
                ;
                assert(radix(k) * high >= 0) by (nonlinear_arith)
                    requires
                        radix(k) >= 0,
                        high >= 0,
                ;
            },
            Err(e) => {
                assert(parse_varuint(tail) == Err::<(nat, nat), DecodeError>(e));
            },
        }
    }
}

proof fn lemma_mod_step(low: int, weight: int, group: int, m: int)
    requires
        m > 0,
    ensures
        ((low % m) + group * (weight % m)) % m == (low + group * weight) % m,
{
    lemma_mul_mod_noop_right(group, weight, m);
    lemma_add_mod_noop(low % m, group * (weight % m), m);
    lemma_mod_twice(low, m);
    lemma_add_mod_noop(low, group * weight, m);
}

proof fn lemma_radix_step(weight: int, m: int)
    requires
        m > 0,
    ensures
        ((weight % m) * 128) % m == (128 * weight) % m,
{
    lemma_mul_mod_noop_right(128, weight, m);
    assert((weight % m) * 128 == 128 * (weight % m));
}

impl<'a> DecoderUtils for Reader<'a> {
    open spec fn unread(&self) -> Seq<u8> {
        self@
    }

    fn decode_short_text(&mut self) -> (text: Result<ShortText, DecodeError>) {
        let mut probe = *self;
        let head = match probe.read_exact(1) {
            Ok(head) => head,
            Err(e) => {
                return Err(e);
            },
        };
        let len = head[0] as usize;
        let body = match probe.read_exact(len) {
            Ok(body) => body,
            Err(e) => {
                return Err(e);
            },
        };
        let text = ShortText::build(body);
        proof {
            assert(body@ =~= old(self)@.subrange(1, 1 + old(self)@[0]));
            assert(probe@ =~= old(self)@.skip(1 + old(self)@[0]));
        }
        *self = probe;
        Ok(text)
    }

    fn decode_varuint(&mut self) -> (value: Result<usize, DecodeError>) {
        let bytes = self.rest;
        let modulus: u128 = usize::MAX as u128 + 1;
        let mut low: usize = 0;
        let mut weight: usize = 1;
        let mut k: usize = 0;
        proof {
            assert(radix(0) % word_modulus() == 1) by {
                vstd::arithmetic::div_mod::lemma_small_mod(1, word_modulus());
            }
            assert(low_groups(bytes@, 0) % (word_modulus() as int) == 0) by {
                vstd::arithmetic::div_mod::lemma_small_mod(0, word_modulus());
            }
        }
        loop
            invariant
                bytes@ == old(self)@,
                *self == *old(self),
                modulus == word_modulus(),
                k <= bytes@.len(),
                forall|j: int| 0 <= j < k ==> bytes@[j] >= 128,
                low == low_groups(bytes@, k as nat) % (word_modulus() as int),
                weight == radix(k as nat) % word_modulus(),
            decreases bytes@.len() - k,
        {
            proof {
                lemma_parse_varuint_behind(bytes@, k as nat);
            }
            if k >= bytes.len() {
                return Err(DecodeError::Incomplete);
            }
            let byte = bytes[k];
            assert(bytes@.skip(k as int)[0] == byte);
            if byte < 128 {
                assert(byte as u128 * weight as u128 <= 127 * 0xffff_ffff_ffff_ffff)
                    by (nonlinear_arith)
                    requires
                        byte <= 127,
                        weight <= 0xffff_ffff_ffff_ffff,
                ;
                let spelled: u128 = (low as u128 + byte as u128 * weight as u128) % modulus;
                proof {
                    lemma_mod_step(
                        low_groups(bytes@, k as nat),
                        radix(k as nat) as int,
                        byte as int,
                        word_modulus() as int,
                    );
                    assert(byte * radix(k as nat) == radix(k as nat) * byte) by (nonlinear_arith);
                }
                let rest = slice_subrange(bytes, k + 1, bytes.len());
                assert(rest@ =~= bytes@.skip(k + 1));
                self.rest = rest;
                return Ok(spelled as usize);
            }
            let group: u128 = (byte - 128) as u128;
            assert(group * weight as u128 <= 127 * 0xffff_ffff_ffff_ffff) by (nonlinear_arith)
                requires
                    group <= 127,
                    weight <= 0xffff_ffff_ffff_ffff,
            ;
            assert(weight as u128 * 128 <= 0xffff_ffff_ffff_ffff * 128) by (nonlinear_arith)
                requires
                    weight <= 0xffff_ffff_ffff_ffff,
            ;
            proof {
                lemma_mod_step(
                    low_groups(bytes@, k as nat),
                    radix(k as nat) as int,
                    group as int,
                    word_modulus() as int,
                );
                lemma_radix_step(radix(k as nat) as int, word_modulus() as int);
                assert(group * radix(k as nat) == (byte - 128) * radix(k as nat));
            }
            low = ((low as u128 + group * weight as u128) % modulus) as usize;
            weight = ((weight as u128 * 128) % modulus) as usize;
            k += 1;
        }
    }

    fn decode_binary(&mut self) -> (data: Result<Vec<u8>, DecodeError>) {
        let mut probe = *self;
        let len = match probe.decode_varuint() {
            Ok(len) => len,
            Err(e) => {
                return Err(e);
            },
        };
        let body = match probe.read_exact(len) {
            Ok(body) => body,
            Err(e) => {
                return Err(e);
            },
        };
        let data = slice_to_vec(body);
        proof {
            let (spelled, taken) = parse_varuint(old(self)@)->Ok_0;
            lemma_parse_varuint_taken(old(self)@);
            assert(body@ =~= old(self)@.subrange(taken as int, (taken + len) as int));
            assert(probe@ =~= old(self)@.skip((taken + len) as int));
        }
        *self = probe;
        Ok(data)
    }

    fn decode_reqid(&mut self) -> (id: Result<u32, DecodeError>) {
        let mut probe = *self;
        let bytes = match probe.read_exact(4) {
            Ok(bytes) => bytes,
            Err(e) => {
                return Err(e);
            },
        };
        let id: u32 = bytes[0] as u32 + 256 * (bytes[1] as u32) + 65536 * (bytes[2] as u32)
            + 16777216 * (bytes[3] as u32);
        *self = probe;
        Ok(id)
    }
}

/// A variable-length integer takes at least one byte and no more than there
/// are.
pub proof fn lemma_parse_varuint_taken(input: Seq<u8>)
    ensures
        parse_varuint(input) matches Ok((_, taken)) ==> 1 <= taken <= input.len(),
        parse_varuint(input) matches Err(e) ==> e == DecodeError::Incomplete,
    decreases input.len(),
{
    if input.len() > 0 && input[0] >= 128 {
        lemma_parse_varuint_taken(input.skip(1));
    }
}

/// A sink that can take a value of type `T` in its wire form.
pub trait Encoder<T>: EncoderUtils {
    /// The wire form of `data`.
    spec fn encoding(data: &T) -> Seq<u8>;

    fn encode(&mut self, data: T)
        ensures
            final(self).written() == old(self).written() + Self::encoding(&data),
    ;
}

/// A source that can yield a value of type `T` from its wire form.
pub trait Decoder<T: View>: DecoderUtils {
    /// The value of type `T` at the front of `input`.
    spec fn parsing(input: Seq<u8>) -> Parsed<T::V>;

    fn decode(&mut self) -> (value: Result<T, DecodeError>)
        ensures
            delivers(
                Self::parsing(old(self).unread()),
                old(self).unread(),
                final(self).unread(),
                value,
            ),
    ;
}

/// A request id is read back as it was written, whatever follows it.
pub proof fn lemma_reqid_round_trip(id: u32, rest: Seq<u8>)
    ensures
        reqid_bytes(id).len() == 4,
        parse_reqid(reqid_bytes(id) + rest) == Ok::<(u32, nat), DecodeError>((id, 4)),
{
    let wire = reqid_bytes(id) + rest;
    assert(wire[0] == (id % 256) as u8);
    assert(wire[1] == (id / 256 % 256) as u8);
    assert(wire[2] == (id / 65536 % 256) as u8);
    assert(wire[3] == (id / 16777216) as u8);
}

/// A short text is read back as it was written, whatever follows it.
pub proof fn lemma_short_text_round_trip(text: Seq<u8>, rest: Seq<u8>)
    requires
        text.len() <= 255,
    ensures
        short_text_bytes(text).len() == 1 + text.len(),
        parse_short_text(short_text_bytes(text) + rest) == Ok::<(Seq<u8>, nat), DecodeError>(
            (text, 1 + text.len()),
        ),
{
    let wire = short_text_bytes(text) + rest;
    assert(wire[0] == text.len());
    assert(wire.subrange(1, 1 + wire[0]) =~= text);
}

/// A variable-length integer is read back as it was written, whatever
/// follows it.
pub proof fn lemma_varuint_round_trip(value: nat, rest: Seq<u8>)
    ensures
        parse_varuint(varuint_bytes(value) + rest) == Ok::<(nat, nat), DecodeError>(
            (value, varuint_bytes(value).len()),
        ),
    decreases value,
{
    let wire = varuint_bytes(value) + rest;
    if value < 128 {
        assert(wire[0] == value);
    } else {
        lemma_varuint_round_trip(value / 128, rest);
        assert(wire[0] == value % 128 + 128);
        assert(wire.skip(1) =~= varuint_bytes(value / 128) + rest);
    }
}

/// A binary is read back as it was written, whatever follows it.
pub proof fn lemma_binary_round_trip(data: Seq<u8>, rest: Seq<u8>)
    requires
        data.len() <= usize::MAX,
    ensures
        parse_binary(binary_bytes(data) + rest) == Ok::<(Seq<u8>, nat), DecodeError>(
            (data, binary_bytes(data).len()),
        ),
{
    let head = varuint_bytes(data.len());
    let wire = binary_bytes(data) + rest;
    assert(wire =~= head + (data + rest));
    lemma_varuint_round_trip(data.len(), data + rest);
    vstd::arithmetic::div_mod::lemma_small_mod(data.len(), word_modulus());
    assert(wire.subrange(head.len() as int, (head.len() + data.len()) as int) =~= data);
}

/// The bytes of a text of ASCII characters, one for each character.
pub open spec fn ascii(text: &str) -> Seq<u8> {
    Seq::new(text@.len(), |i: int| text@[i] as u8)
}

/// The bytes of `text`.
pub fn bytes_of(text: &str) -> (bytes: Vec<u8>)
    requires
        text.is_ascii(),
    ensures
        bytes@ == ascii(text),
{
    broadcast use is_ascii_spec_bytes;

    slice_to_vec(text.as_bytes())
}

/// `rand::random::<u32>`: a number drawn by the thread's generator. Nothing
/// is said of which. The generator panics where the system gives it no
/// seed, which no argument decides.
#[verifier::external_body]
fn random_u32() -> u32 {
    rand::random::<u32>()
}

/// Whether `key` is the first key from `start` on that `taken` does not
/// hold, going up from `start` to the largest key and then up from zero.
pub open spec fn first_free<V>(taken: Map<u32, V>, start: u32, key: u32) -> bool {
    &&& !taken.contains_key(key)
    &&& key >= start ==> forall|k: u32| start <= k < key ==> taken.contains_key(k)
    &&& key < start ==> forall|k: u32| k >= start || k < key ==> taken.contains_key(k)
}

/// The first key from `start` on that `taken` does not hold, or nothing
/// where it holds every key.
pub fn first_free_from<V>(taken: &BTreeMap<u32, V>, start: u32) -> (key: Option<u32>)
    ensures
        key matches Some(k) ==> first_free(taken@, start, k),
        key is None <==> forall|k: u32| taken@.contains_key(k),
{
    let mut k: u32 = start;
    loop
        invariant
            start <= k,
            forall|j: u32| start <= j < k ==> taken@.contains_key(j),
        ensures
            forall|j: u32| j >= start ==> taken@.contains_key(j),
        decreases u32::MAX - k,
    {
        if !taken.contains_key(&k) {
            return Some(k);
        }
        if k == u32::MAX {
            break ;
        }
        k += 1;
    }
    let mut k: u32 = 0;
    while k < start
        invariant
            k <= start,
            forall|j: u32| j >= start ==> taken@.contains_key(j),
            forall|j: u32| j < k ==> taken@.contains_key(j),
        decreases start - k,
    {
        if !taken.contains_key(&k) {
            return Some(k);
        }
        k += 1;
    }
    None
}

/// A collection that can name a key that it does not hold.
pub trait RandomKey<K> {
    /// Whether the collection holds `key`.
    spec fn has_key(&self, key: K) -> bool;

    /// A key that the collection does not hold, found from a random start,
    /// or nothing where it holds every key.
    fn gen_random_key(&self) -> (key: Option<K>)
        ensures
            key matches Some(k) ==> !self.has_key(k),
            key is None <==> forall|k: K| self.has_key(k),
    ;
}

impl<V> RandomKey<u32> for BTreeMap<u32, V> {
    open spec fn has_key(&self, key: u32) -> bool {
        self@.contains_key(key)
    }

    fn gen_random_key(&self) -> (key: Option<u32>) {
        let key = first_free_from(self, random_u32());
        proof {
            if key is None {
                assert forall|k: u32| self.has_key(k) by {
                    assert(self@.contains_key(k));
                }
            } else {
                assert(!self.has_key(key->Some_0));
            }
        }
        key
    }
}

} // verus!
