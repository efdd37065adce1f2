//! The composite identifier and its text encoding.
//!
//! A composite identifier is a discriminator, which names a variant, and a
//! key of that variant. Its text is the decimal discriminator, a separator
//! and the text of the key: `0:42`, `1:abc`. No other form is produced and
//! nothing is trimmed on reading. A text is read as an identifier where it
//! holds exactly one separator, the part in front of it reads as a
//! discriminator and the part behind it reads as a key of the expected type;
//! numbers are read as [`crate::decimal`] describes. A key whose text holds
//! the separator can be encoded, but its text does not decode: such an
//! identifier is not valid, and [`CompositeId::is_valid`] tells.
use crate::decimal::{
    decimal_text, is_digit, lemma_decimal_text, lemma_decimal_text_lacks,
    lemma_parse_decimal_text, parse_u32, read_u32, write_u32,
};
use vstd::prelude::*;
use vstd::string::{StrSliceExecFns, StringExecFns};

verus! {

/// The character between the two parts of an encoded identifier.
pub const SEPARATOR: char = ':';

/// A discriminator and a key of the variant that it names.
#[derive(Default, PartialEq, Eq, Debug)]
pub struct CompositeId<X>(pub u32, pub X);

impl<X: Clone> Clone for CompositeId<X> {
    /// The identifier with the same discriminator and a clone of the key.
    fn clone(&self) -> (id: CompositeId<X>)
        ensures
            id.0 == self.0,
            cloned(self.1, id.1),
    {
        CompositeId(self.0, self.1.clone())
    }
}

impl<X: View> View for CompositeId<X> {
    type V = CompositeId<X::V>;

    open spec fn view(&self) -> CompositeId<X::V> {
        CompositeId(self.0, self.1@)
    }
}

/// Why a text is no composite identifier.
#[derive(Debug, Clone, Copy, PartialEq, Eq, Structural)]
pub enum DecodeError {
    /// The text does not consist of exactly two parts with one separator
    /// between them.
    PartCount,
    /// The first part denotes no discriminator.
    Discriminator,
    /// The second part denotes no key of the expected type.
    Key,
}

/// A type of key, with the text that stands for each of its values.
pub trait KeyText: View + Sized {
    /// The text that stands for `key`.
    spec fn text_of(key: Self::V) -> Seq<char>;

    /// The key that `text` stands for, if it stands for one.
    spec fn key_of(text: Seq<char>) -> Option<Self::V>;

    /// The text of a key stands for that key.
    proof fn lemma_key_of_text(key: Self::V)
        ensures
            Self::key_of(Self::text_of(key)) == Some(key),
    ;

    /// Appends the text of the key to `out`.
    fn write_key(&self, out: &mut String)
        ensures
            final(out)@ == old(out)@ + Self::text_of(self@),
    ;

    /// Reads `text` as a key.
    fn read_key(text: &str) -> (r: Option<Self>)
        ensures
            match r {
                Some(key) => Self::key_of(text@) == Some(key@),
                None => Self::key_of(text@) is None,
            },
    ;

    /// A key read from a text without separators has a text without
    /// separators.
    proof fn lemma_text_of_key(text: Seq<char>)
        requires
            Self::key_of(text) is Some,
            !text.contains(SEPARATOR),
        ensures
            !Self::text_of(Self::key_of(text).unwrap()).contains(SEPARATOR),
    ;

    /// Whether the text of the key is free of separators.
    fn is_encodable(&self) -> (b: bool)
        ensures
            b == !Self::text_of(self@).contains(SEPARATOR),
    ;
}

/// Whether `key` may stand in an encoded identifier: its text holds no
/// separator, so that the identifier's text splits where it was joined.
pub open spec fn encodable<X: KeyText>(key: X::V) -> bool {
    !X::text_of(key).contains(SEPARATOR)
}

impl KeyText for u32 {
    open spec fn text_of(key: u32) -> Seq<char> {
        decimal_text(key as nat)
    }

    open spec fn key_of(text: Seq<char>) -> Option<u32> {
        parse_u32(text)
    }

    proof fn lemma_key_of_text(key: u32) {
        lemma_parse_decimal_text(key);
    }

    proof fn lemma_text_of_key(text: Seq<char>) {
        lemma_decimal_text_lacks(parse_u32(text).unwrap() as nat, SEPARATOR);
    }

    fn write_key(&self, out: &mut String) {
        write_u32(out, *self);
    }

    fn read_key(text: &str) -> (r: Option<u32>) {
        read_u32(text)
    }

    fn is_encodable(&self) -> (b: bool) {
        proof {
            lemma_decimal_text_lacks(*self as nat, SEPARATOR);
        }
        true
    }
}

impl KeyText for String {
    open spec fn text_of(key: Seq<char>) -> Seq<char> {
        key
    }

    open spec fn key_of(text: Seq<char>) -> Option<Seq<char>> {
        Some(text)
    }

    proof fn lemma_key_of_text(key: Seq<char>) {
    }

    proof fn lemma_text_of_key(text: Seq<char>) {
    }

    fn write_key(&self, out: &mut String) {
        out.append(self.as_str());
    }

    fn read_key(text: &str) -> (r: Option<String>) {
        Some(text.to_owned())
    }

    fn is_encodable(&self) -> (b: bool) {
        for c in it: self.as_str().chars()
            invariant
                it.seq() == self@,
                forall|j: int| 0 <= j < it.index() ==> self@[j] != SEPARATOR,
        {
            if c == SEPARATOR {
                assert(self@[it.index() as int] == SEPARATOR);
                return false;
            }
        }
        true
    }
}

/// Every `u32` key is encodable: a numeral holds digits only.
pub proof fn lemma_u32_encodable(key: u32)
    ensures
        encodable::<u32>(key),
{
    lemma_decimal_text_lacks(key as nat, SEPARATOR);
}

/// Whether `s` consists of exactly two parts with the one separator at
/// index `i`.
pub open spec fn splits_at(s: Seq<char>, i: int) -> bool {
    &&& 0 <= i < s.len()
    &&& s[i] == SEPARATOR
    &&& forall|j: int| 0 <= j < s.len() && j != i ==> s[j] != SEPARATOR
}

/// Whether `s` consists of exactly two parts, either of which may be empty.
pub open spec fn has_two_parts(s: Seq<char>) -> bool {
    exists|i: int| splits_at(s, i)
}

/// The index of the separator in a text of two parts.
pub open spec fn split_point(s: Seq<char>) -> int {
    choose|i: int| splits_at(s, i)
}

/// The text of the identifier `id`.
pub open spec fn encode_text<X: KeyText>(id: CompositeId<X::V>) -> Seq<char> {
    decimal_text(id.0 as nat).push(SEPARATOR) + X::text_of(id.1)
}

/// What `s` decodes to: the identifier it denotes, or the first reason why
/// it denotes none.
pub open spec fn decode_text<X: KeyText>(s: Seq<char>) -> Result<CompositeId<X::V>, DecodeError> {
    if !has_two_parts(s) {
        Err(DecodeError::PartCount)
    } else {
        let i = split_point(s);
        match parse_u32(s.take(i)) {
            None => Err(DecodeError::Discriminator),
            Some(discriminator) => match X::key_of(s.skip(i + 1)) {
                None => Err(DecodeError::Key),
                Some(key) => Ok(CompositeId(discriminator, key)),
            },
        }
    }
}

/// A text of two parts splits at one index only.
pub proof fn lemma_split_point(s: Seq<char>, i: int)
    requires
        splits_at(s, i),
    ensures
        has_two_parts(s),
        split_point(s) == i,
{
    let j = split_point(s);
    assert(splits_at(s, j));
    if j != i {
        assert(s[j] != SEPARATOR);
    }
}

/// A text with separators at two places does not consist of two parts.
pub proof fn lemma_two_separators(s: Seq<char>, i: int, j: int)
    requires
        0 <= i < j < s.len(),
        s[i] == SEPARATOR,
        s[j] == SEPARATOR,
    ensures
        !has_two_parts(s),
{
    if has_two_parts(s) {
        let p = split_point(s);
        assert(splits_at(s, p));
        if p == i {
            assert(s[j] != SEPARATOR);
        } else {
            assert(s[i] != SEPARATOR);
        }
    }
}

/// Round trip: decoding the text of an identifier with an encodable key
/// gives the identifier back.
pub proof fn lemma_decode_encode<X: KeyText>(id: CompositeId<X::V>)
    requires
        encodable::<X>(id.1),
    ensures
        decode_text::<X>(encode_text::<X>(id)) == Ok::<CompositeId<X::V>, DecodeError>(id),
{
    let head = decimal_text(id.0 as nat);
    let tail = X::text_of(id.1);
    let text = encode_text::<X>(id);
    let p = head.len() as int;
    lemma_decimal_text(id.0 as nat);
    lemma_parse_decimal_text(id.0);
    X::lemma_key_of_text(id.1);
    assert(text[p] == SEPARATOR);
    assert forall|j: int| 0 <= j < text.len() && j != p implies text[j] != SEPARATOR by {
        if j < p {
            assert(text[j] == head[j]);
            assert(is_digit(head[j]));
        } else {
            assert(text[j] == tail[j - p - 1]);
            assert(tail.contains(tail[j - p - 1]));
        }
    }
    lemma_split_point(text, p);
    assert(text.take(p) =~= head);
    assert(text.skip(p + 1) =~= tail);
}

/// Round trip for numeric keys: it holds of every identifier.
pub proof fn lemma_decode_encode_u32(id: CompositeId<u32>)
    ensures
        decode_text::<u32>(encode_text::<u32>(id)) == Ok::<CompositeId<u32>, DecodeError>(id),
{
    lemma_u32_encodable(id.1);
    lemma_decode_encode::<u32>(id);
}

/// Whatever decodes is encodable, and so decodes from its own text again.
pub proof fn lemma_decoded_is_encodable<X: KeyText>(s: Seq<char>)
    requires
        decode_text::<X>(s) is Ok,
    ensures
        encodable::<X>(decode_text::<X>(s).unwrap().1),
        decode_text::<X>(encode_text::<X>(decode_text::<X>(s).unwrap())) == decode_text::<X>(s),
{
    let i = split_point(s);
    assert(splits_at(s, i));
    let tail = s.skip(i + 1);
    assert forall|j: int| 0 <= j < tail.len() implies tail[j] != SEPARATOR by {
        assert(tail[j] == s[j + i + 1]);
    }
    X::lemma_text_of_key(tail);
    lemma_decode_encode::<X>(decode_text::<X>(s).unwrap());
}

impl<X: KeyText> CompositeId<X> {
    /// Whether the identifier survives a round trip through its text: its
    /// key is encodable.
    pub open spec fn valid(&self) -> bool {
        encodable::<X>(self@.1)
    }

    /// Whether the identifier is valid.
    pub fn is_valid(&self) -> (b: bool)
        ensures
            b == self.valid(),
    {
        self.1.is_encodable()
    }

    /// The text of the identifier: discriminator, separator, key.
    pub fn encode(&self) -> (text: String)
        ensures
            text@ == encode_text::<X>(self@),
    {
        let mut text = String::new();
        write_u32(&mut text, self.0);
        proof {
            reveal_strlit(":");
        }
        text.append(":");
        self.1.write_key(&mut text);
        proof {
            assert(Seq::<char>::empty() + decimal_text(self.0 as nat) + ":"@ + X::text_of(self.1@)
                =~= encode_text::<X>(self@));
        }
        text
    }

    /// Reads `text` as an identifier. The text must be exact: it fails unless
    /// it holds exactly one separator, a discriminator in front of it and a
    /// key behind it.
    pub fn decode(text: &str) -> (r: Result<Self, DecodeError>)
        ensures
            match r {
                Ok(id) => decode_text::<X>(text@) == Ok::<CompositeId<X::V>, DecodeError>(id@),
                Err(e) => decode_text::<X>(text@) == Err::<CompositeId<X::V>, DecodeError>(e),
            },
    {
        let len = text.unicode_len();
        let mut at: Option<usize> = None;
        let mut idx: usize = 0;
        for c in it: text.chars()
            invariant
                it.seq() == text@,
                len == text@.len(),
                idx == it.index(),
                match at {
                    None => forall|j: int| 0 <= j < idx ==> text@[j] != SEPARATOR,
                    Some(p) => p < idx && text@[p as int] == SEPARATOR && forall|j: int|
                        0 <= j < idx && j != p ==> text@[j] != SEPARATOR,
                },
        {
            assert(c == text@[idx as int]);
            if c == SEPARATOR {
                match at {
                    Some(p) => {
                        proof {
                            lemma_two_separators(text@, p as int, idx as int);
                        }
                        return Err(DecodeError::PartCount);
                    },
                    None => {
                        at = Some(idx);
                    },
                }
            }
            idx = idx + 1;
        }
        match at {
            None => {
                assert(!has_two_parts(text@)) by {
                    if has_two_parts(text@) {
                        assert(splits_at(text@, split_point(text@)));
                    }
                }
                Err(DecodeError::PartCount)
            },
            Some(p) => {
                proof {
                    lemma_split_point(text@, p as int);
                }
                let head = text.substring_char(0, p);
                let tail = text.substring_char(p + 1, len);
                assert(head@ =~= text@.take(p as int));
                assert(tail@ =~= text@.skip(p + 1));
                match read_u32(head) {
                    None => Err(DecodeError::Discriminator),
                    Some(discriminator) => match X::read_key(tail) {
                        None => Err(DecodeError::Key),
                        Some(key) => Ok(CompositeId(discriminator, key)),
                    },
                }
            },
        }
    }
}

} // verus!
