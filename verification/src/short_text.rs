//! Short names: byte strings of at most 255 bytes, held inline.

use crate::table::Key;
use vstd::prelude::*;
use vstd::slice::slice_subrange;
use std::cmp::Ordering;
use vstd::std_specs::cmp::{PartialEqSpecImpl, PartialOrdSpecImpl};

verus! {

/// A byte string of length 0 to 255.
///
/// The bytes live in a fixed buffer; the buffer is zero past the length, so
/// two short texts with the same content are the same value field by field.
#[derive(Clone, Copy, Debug, Hash)]
pub struct ShortText(u8, [u8; 256]);

impl View for ShortText {
    type V = Seq<u8>;

    closed spec fn view(&self) -> Seq<u8> {
        self.1@.subrange(0, self.0 as int)
    }
}

impl ShortText {
    #[verifier::type_invariant]
    spec fn padded(self) -> bool {
        forall|i: int| self.0 <= i < 256 ==> self.1@[i] == 0u8
    }

    /// The length as a single byte.
    pub fn u8len(&self) -> (n: u8)
        ensures
            n as nat == self@.len(),
    {
        self.0
    }

    /// The length in bytes.
    pub fn len(&self) -> (n: usize)
        ensures
            n as nat == self@.len(),
            n <= 255,
    {
        self.0 as usize
    }

    /// A short text of `len` zero bytes.
    pub fn new(len: u8) -> (text: ShortText)
        ensures
            text@ == Seq::new(len as nat, |i: int| 0u8),
    {
        let text = ShortText(len, [0u8; 256]);
        assert(text@ =~= Seq::new(len as nat, |i: int| 0u8));
        text
    }

    /// The short text that holds exactly the bytes of `text`.
    pub fn build(text: &[u8]) -> (built: ShortText)
        requires
            text@.len() <= 255,
        ensures
            built@ == text@,
    {
        let mut buffer = [0u8; 256];
        let mut i: usize = 0;
        while i < text.len()
            invariant
                i <= text@.len() <= 255,
                forall|j: int| 0 <= j < i ==> buffer@[j] == text@[j],
                forall|j: int| i <= j < 256 ==> buffer@[j] == 0u8,
            decreases text@.len() - i,
        {
            buffer[i] = text[i];
            i += 1;
        }
        let built = ShortText(text.len() as u8, buffer);
        assert(built@ =~= text@);
        built
    }

    /// The short text that holds the bytes of `text`, where they fit.
    pub fn from_slice(text: &[u8]) -> (built: Option<ShortText>)
        ensures
            built is Some <==> text@.len() <= 255,
            built matches Some(t) ==> t@ == text@,
    {
        if text.len() <= 255 {
            Some(ShortText::build(text))
        } else {
            None
        }
    }

    /// The content as a slice.
    pub fn as_bytes(&self) -> (bytes: &[u8])
        ensures
            bytes@ == self@,
    {
        slice_subrange(self.1.as_slice(), 0, self.0 as usize)
    }

    /// The content as an owned vector.
    pub fn to_vec(&self) -> (bytes: Vec<u8>)
        ensures
            bytes@ == self@,
    {
        let mut bytes: Vec<u8> = Vec::new();
        let mut i: usize = 0;
        while i < self.0 as usize
            invariant
                i <= self.0,
                bytes@ == self.1@.subrange(0, i as int),
            decreases self.0 - i,
        {
            bytes.push(self.1[i]);
            assert(bytes@ =~= self.1@.subrange(0, i + 1));
            i += 1;
        }
        bytes
    }

    /// Whether the content is exactly `other`.
    pub fn eq_bytes(&self, other: &[u8]) -> (same: bool)
        ensures
            same == (self@ == other@),
    {
        if self.len() != other.len() {
            return false;
        }
        let mut i: usize = 0;
        while i < self.len()
            invariant
                i <= self.0,
                self@.len() == other@.len(),
                forall|j: int| 0 <= j < i ==> self@[j] == other@[j],
            decreases self.0 - i,
        {
            if self.1[i] != other[i] {
                assert(self@[i as int] != other@[i as int]);
                return false;
            }
            i += 1;
        }
        assert(self@ =~= other@);
        true
    }
}

impl Default for ShortText {
    fn default() -> (text: ShortText)
        ensures
            text@ == Seq::<u8>::empty(),
    {
        let text = ShortText(0, [0u8; 256]);
        assert(text@ =~= Seq::<u8>::empty());
        text
    }
}

impl PartialEq for ShortText {
    fn eq(&self, other: &ShortText) -> (same: bool) {
        if self.u8len() != other.u8len() {
            return false;
        }
        let mut i: usize = 0;
        while i < self.len()
            invariant
                i <= self.0,
                self.0 == other.0,
                forall|j: int| 0 <= j < i ==> self@[j] == other@[j],
            decreases self.0 - i,
        {
            if self.1[i] != other.1[i] {
                assert(self@[i as int] != other@[i as int]);
                return false;
            }
            i += 1;
        }
        assert(self@ =~= other@);
        true
    }
}

impl PartialEqSpecImpl for ShortText {
    open spec fn obeys_eq_spec() -> bool {
        true
    }

    open spec fn eq_spec(&self, other: &ShortText) -> bool {
        self@ == other@
    }
}

impl Eq for ShortText {

}

impl Key for ShortText {
    fn same(&self, other: &ShortText) -> (same: bool) {
        self.eq_bytes(other.as_bytes())
    }
}

/// The sign of the lexicographic order of two byte strings: negative where
/// `left` comes first, zero where they are the same, positive where `right`
/// comes first. A string comes before each string that it begins.
pub open spec fn lex_sign(left: Seq<u8>, right: Seq<u8>) -> int
    decreases left.len(),
{
    if left.len() == 0 {
        if right.len() == 0 {
            0
        } else {
            -1
        }
    } else if right.len() == 0 {
        1
    } else if left[0] < right[0] {
        -1
    } else if left[0] > right[0] {
        1
    } else {
        lex_sign(left.skip(1), right.skip(1))
    }
}

/// Compares two byte strings lexicographically.
pub fn lex_compare(left: &[u8], right: &[u8]) -> (sign: i8)
    ensures
        sign == lex_sign(left@, right@),
{
    let mut i: usize = 0;
    proof {
        assert(left@.skip(0) =~= left@);
        assert(right@.skip(0) =~= right@);
    }
    loop
        invariant
            i <= left@.len(),
            i <= right@.len(),
            lex_sign(left@, right@) == lex_sign(left@.skip(i as int), right@.skip(i as int)),
        decreases left@.len() - i,
    {
        proof {
            assert(left@.skip(i as int).len() == left@.len() - i);
            assert(right@.skip(i as int).len() == right@.len() - i);
        }
        if i == left.len() {
            if i == right.len() {
                return 0;
            }
            return -1;
        }
        if i == right.len() {
            return 1;
        }
        proof {
            assert(left@.skip(i as int)[0] == left@[i as int]);
            assert(right@.skip(i as int)[0] == right@[i as int]);
            assert(left@.skip(i as int).skip(1) =~= left@.skip(i + 1));
            assert(right@.skip(i as int).skip(1) =~= right@.skip(i + 1));
        }
        if left[i] < right[i] {
            return -1;
        }
        if left[i] > right[i] {
            return 1;
        }
        i += 1;
    }
}

/// The order that a sign stands for.
pub open spec fn order_of(sign: int) -> Option<Ordering> {
    if sign < 0 {
        Some(Ordering::Less)
    } else if sign > 0 {
        Some(Ordering::Greater)
    } else {
        Some(Ordering::Equal)
    }
}

impl PartialOrd for ShortText {
    fn partial_cmp(&self, other: &ShortText) -> (order: Option<Ordering>) {
        let sign = lex_compare(self.as_bytes(), other.as_bytes());
        if sign < 0 {
            Some(Ordering::Less)
        } else if sign > 0 {
            Some(Ordering::Greater)
        } else {
            Some(Ordering::Equal)
        }
    }
}

impl PartialOrdSpecImpl for ShortText {
    open spec fn obeys_partial_cmp_spec() -> bool {
        true
    }

    open spec fn partial_cmp_spec(&self, other: &ShortText) -> Option<Ordering> {
        order_of(lex_sign(self@, other@))
    }
}

/// The lexicographic order is an order: a string is as itself, and what it
/// says of two strings one way round it says the other way round with the
/// sign turned.
pub proof fn lemma_lex_sign(left: Seq<u8>, right: Seq<u8>)
    ensures
        lex_sign(left, left) == 0,
        lex_sign(left, right) == 0 <==> left == right,
        lex_sign(left, right) < 0 <==> lex_sign(right, left) > 0,
    decreases left.len(),
{
    if left.len() > 0 {
        lemma_lex_sign(left.skip(1), left.skip(1));
        if right.len() > 0 {
            lemma_lex_sign(left.skip(1), right.skip(1));
            if left[0] == right[0] && left.skip(1) == right.skip(1) {
                assert(left =~= seq![left[0]] + left.skip(1));
                assert(right =~= seq![right[0]] + right.skip(1));
            }
        }
    } else {
        if right.len() == 0 {
            assert(left =~= right);
        }
    }
}

} // verus!
