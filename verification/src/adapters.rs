//! The scalar value adapters: parsing decoded element text into values,
//! the accumulator pieces that absorb repeated or absent occurrences,
//! and the text-leaf reading path (`take_str`, then entity-decode, then
//! parse) that they all share.

use vstd::prelude::*;
use crate::{Error, str_eq};
use crate::de::{Deserializer, text_scan};
use crate::entity::{decode, decode_chars, Coded};
use crate::num::{parse_u64, parse_i64, parse_u64_spec, parse_i64_spec};

verus! {

/// A scalar type: its text form can be parsed back into a value, and the
/// parse is pinned down by a specification function.
pub trait XmlScalar: Sized {
    /// What parsing yields on each possible text.
    spec fn from_text_spec(t: Seq<char>) -> Option<Self>;

    /// Parses decoded element text.
    fn from_text(t: &str) -> (r: Option<Self>)
        ensures
            r == Self::from_text_spec(t@),
    ;
}

impl XmlScalar for bool {
    open spec fn from_text_spec(t: Seq<char>) -> Option<bool> {
        if t == seq!['t', 'r', 'u', 'e'] || t == seq!['1'] {
            Some(true)
        } else if t == seq!['f', 'a', 'l', 's', 'e'] || t == seq!['0'] {
            Some(false)
        } else {
            None
        }
    }

    fn from_text(t: &str) -> (r: Option<bool>) {
        proof {
            reveal_strlit("true");
            reveal_strlit("1");
            reveal_strlit("false");
            reveal_strlit("0");
            assert("true"@ =~= seq!['t', 'r', 'u', 'e']);
            assert("1"@ =~= seq!['1']);
            assert("false"@ =~= seq!['f', 'a', 'l', 's', 'e']);
            assert("0"@ =~= seq!['0']);
        }
        if str_eq(t, "true") || str_eq(t, "1") {
            Some(true)
        } else if str_eq(t, "false") || str_eq(t, "0") {
            Some(false)
        } else {
            None
        }
    }
}

impl XmlScalar for char {
    open spec fn from_text_spec(t: Seq<char>) -> Option<char> {
        if t.len() == 1 {
            Some(t[0])
        } else {
            None
        }
    }

    fn from_text(t: &str) -> (r: Option<char>) {
        if t.unicode_len() == 1 {
            Some(t.get_char(0))
        } else {
            None
        }
    }
}

impl XmlScalar for u8 {
    open spec fn from_text_spec(t: Seq<char>) -> Option<u8> {
        match parse_u64_spec(t) {
            Some(v) => if v <= 0xff {
                Some(v as u8)
            } else {
                None
            },
            None => None,
        }
    }

    fn from_text(t: &str) -> (r: Option<u8>) {
        match parse_u64(t) {
            Some(x) => if x <= 0xff {
                Some(x as u8)
            } else {
                None
            },
            None => None,
        }
    }
}

impl XmlScalar for u32 {
    open spec fn from_text_spec(t: Seq<char>) -> Option<u32> {
        match parse_u64_spec(t) {
            Some(v) => if v <= 0xffffffff {
                Some(v as u32)
            } else {
                None
            },
            None => None,
        }
    }

    fn from_text(t: &str) -> (r: Option<u32>) {
        match parse_u64(t) {
            Some(x) => if x <= 0xffffffff {
                Some(x as u32)
            } else {
                None
            },
            None => None,
        }
    }
}

impl XmlScalar for u64 {
    open spec fn from_text_spec(t: Seq<char>) -> Option<u64> {
        match parse_u64_spec(t) {
            Some(v) => Some(v as u64),
            None => None,
        }
    }

    fn from_text(t: &str) -> (r: Option<u64>) {
        parse_u64(t)
    }
}

impl XmlScalar for i32 {
    open spec fn from_text_spec(t: Seq<char>) -> Option<i32> {
        match parse_i64_spec(t) {
            Some(v) => if -0x80000000 <= v && v <= 0x7fffffff {
                Some(v as i32)
            } else {
                None
            },
            None => None,
        }
    }

    fn from_text(t: &str) -> (r: Option<i32>) {
        match parse_i64(t) {
            Some(x) => if -0x80000000i64 <= x && x <= 0x7fffffffi64 {
                Some(x as i32)
            } else {
                None
            },
            None => None,
        }
    }
}

impl XmlScalar for i64 {
    open spec fn from_text_spec(t: Seq<char>) -> Option<i64> {
        match parse_i64_spec(t) {
            Some(v) => Some(v as i64),
            None => None,
        }
    }

    fn from_text(t: &str) -> (r: Option<i64>) {
        parse_i64(t)
    }
}

impl XmlScalar for u16 {
    open spec fn from_text_spec(t: Seq<char>) -> Option<u16> {
        match parse_u64_spec(t) {
            Some(v) => if v <= 0xffff {
                Some(v as u16)
            } else {
                None
            },
            None => None,
        }
    }

    fn from_text(t: &str) -> (r: Option<u16>) {
        match parse_u64(t) {
            Some(x) => if x <= 0xffff {
                Some(x as u16)
            } else {
                None
            },
            None => None,
        }
    }
}

impl XmlScalar for usize {
    open spec fn from_text_spec(t: Seq<char>) -> Option<usize> {
        match parse_u64_spec(t) {
            Some(v) => if v <= usize::MAX {
                Some(v as usize)
            } else {
                None
            },
            None => None,
        }
    }

    fn from_text(t: &str) -> (r: Option<usize>) {
        match parse_u64(t) {
            Some(x) => if x <= usize::MAX as u64 {
                Some(x as usize)
            } else {
                None
            },
            None => None,
        }
    }
}

impl XmlScalar for i8 {
    open spec fn from_text_spec(t: Seq<char>) -> Option<i8> {
        match parse_i64_spec(t) {
            Some(v) => if -0x80 <= v && v <= 0x7f {
                Some(v as i8)
            } else {
                None
            },
            None => None,
        }
    }

    fn from_text(t: &str) -> (r: Option<i8>) {
        match parse_i64(t) {
            Some(x) => if -0x80i64 <= x && x <= 0x7fi64 {
                Some(x as i8)
            } else {
                None
            },
            None => None,
        }
    }
}

impl XmlScalar for i16 {
    open spec fn from_text_spec(t: Seq<char>) -> Option<i16> {
        match parse_i64_spec(t) {
            Some(v) => if -0x8000 <= v && v <= 0x7fff {
                Some(v as i16)
            } else {
                None
            },
            None => None,
        }
    }

    fn from_text(t: &str) -> (r: Option<i16>) {
        match parse_i64(t) {
            Some(x) => if -0x8000i64 <= x && x <= 0x7fffi64 {
                Some(x as i16)
            } else {
                None
            },
            None => None,
        }
    }
}

impl XmlScalar for isize {
    open spec fn from_text_spec(t: Seq<char>) -> Option<isize> {
        match parse_i64_spec(t) {
            Some(v) => if isize::MIN <= v && v <= isize::MAX {
                Some(v as isize)
            } else {
                None
            },
            None => None,
        }
    }

    fn from_text(t: &str) -> (r: Option<isize>) {
        match parse_i64(t) {
            Some(x) => if isize::MIN as i64 <= x && x <= isize::MAX as i64 {
                Some(x as isize)
            } else {
                None
            },
            None => None,
        }
    }
}

/// Marks types whose reading never borrows the input buffer: their
/// values own their storage, so they stay valid after the document is
/// gone.
pub trait FromXmlOwned {

}

impl FromXmlOwned for bool {

}

impl FromXmlOwned for char {

}

impl FromXmlOwned for u8 {

}

impl FromXmlOwned for u16 {

}

impl FromXmlOwned for u32 {

}

impl FromXmlOwned for u64 {

}

impl FromXmlOwned for usize {

}

impl FromXmlOwned for i8 {

}

impl FromXmlOwned for i16 {

}

impl FromXmlOwned for i32 {

}

impl FromXmlOwned for i64 {

}

impl FromXmlOwned for isize {

}

impl FromXmlOwned for String {

}

/// What the shared text-leaf path leaves in a once-optional accumulator
/// and returns, given the element's raw text scan: no text leaves the
/// accumulator empty; decoded text must parse, else
/// `Error::UnexpectedValue`; a bad entity propagates its error.
pub open spec fn scalar_outcome<T: XmlScalar>(
    scan: Result<(Seq<char>, bool, int), Error>,
    r: Result<(), Error>,
    into: Option<T>,
) -> bool {
    match scan {
        Err(e) => r == Err::<(), Error>(e) && into is None,
        Ok(t) => if !t.1 {
            r is Ok && into is None
        } else {
            match decode_chars(t.0) {
                Err(b) => (r matches Err(Error::InvalidEntity(s)) && s@ == b) && into is None,
                Ok(p) => match T::from_text_spec(p.0) {
                    None => r == Err::<(), Error>(Error::UnexpectedValue) && into is None,
                    Some(v) => r is Ok && into == Some(v),
                },
            }
        },
    }
}

/// Reads one scalar occurrence into a once-optional accumulator: a
/// second occurrence is `Error::DuplicateValue`; an element with no text
/// leaves the accumulator empty; otherwise the text is entity-decoded
/// and parsed, an unparsable text failing with `Error::UnexpectedValue`.
pub fn from_xml_str<T: XmlScalar>(deserializer: &mut Deserializer, into: &mut Option<T>) -> (r:
    Result<(), Error>)
    requires
        old(deserializer).wf(),
        old(deserializer).elements@.len() > 0,
    ensures
        final(deserializer).wf(),
        final(deserializer).tokens == old(deserializer).tokens,
        final(deserializer).scope == old(deserializer).scope,
        final(deserializer).elements == old(deserializer).elements,
        final(deserializer).pos >= old(deserializer).pos,
        (*old(into)) is None && old(deserializer).elements@.last().empty ==> final(deserializer).pos == old(deserializer).pos,
        (*old(into)) is None && !old(deserializer).elements@.last().empty ==> (text_scan(
            old(deserializer).remaining(),
            Seq::<char>::empty(),
            false,
        ) matches Ok(t) ==> final(deserializer).pos == old(deserializer).pos + t.2),
        (*old(into)) is Some ==> r == Err::<(), Error>(Error::DuplicateValue) && *final(into) == *old(
            into,
        ) && *final(deserializer) == *old(deserializer),
        (*old(into)) is None && old(deserializer).elements@.last().empty ==> r is Ok && *final(into)
            is None,
        (*old(into)) is None && !old(deserializer).elements@.last().empty ==> scalar_outcome::<T>(
            text_scan(old(deserializer).remaining(), Seq::<char>::empty(), false),
            r,
            *final(into),
        ),
{
    if into.is_some() {
        return Err(Error::DuplicateValue);
    }
    let text = match deserializer.take_str() {
        Ok(o) => o,
        Err(e) => {
            return Err(e);
        },
    };
    let text = match text {
        Some(t) => t,
        None => {
            return Ok(());
        },
    };
    let dec = match decode(text.as_str()) {
        Ok(c) => c,
        Err(e) => {
            return Err(e);
        },
    };
    match T::from_text(dec.text.as_str()) {
        Some(v) => {
            *into = Some(v);
            Ok(())
        },
        None => Err(Error::UnexpectedValue),
    }
}

/// Reads one owned-string occurrence: like `from_xml_str`, but the
/// decoded text itself is the value, so parsing cannot fail.
pub fn deserialize_string(deserializer: &mut Deserializer, into: &mut Option<String>) -> (r: Result<
    (),
    Error,
>)
    requires
        old(deserializer).wf(),
        old(deserializer).elements@.len() > 0,
    ensures
        final(deserializer).wf(),
        final(deserializer).tokens == old(deserializer).tokens,
        final(deserializer).scope == old(deserializer).scope,
        final(deserializer).elements == old(deserializer).elements,
        final(deserializer).pos >= old(deserializer).pos,
        (*old(into)) is None && old(deserializer).elements@.last().empty ==> final(deserializer).pos == old(deserializer).pos,
        (*old(into)) is None && !old(deserializer).elements@.last().empty ==> (text_scan(
            old(deserializer).remaining(),
            Seq::<char>::empty(),
            false,
        ) matches Ok(t) ==> final(deserializer).pos == old(deserializer).pos + t.2),
        (*old(into)) is Some ==> r == Err::<(), Error>(Error::DuplicateValue) && *final(into) == *old(
            into,
        ) && *final(deserializer) == *old(deserializer),
        (*old(into)) is None && old(deserializer).elements@.last().empty ==> r is Ok && *final(into)
            is None,
        (*old(into)) is None && !old(deserializer).elements@.last().empty ==> match text_scan(
            old(deserializer).remaining(),
            Seq::<char>::empty(),
            false,
        ) {
            Err(e) => r == Err::<(), Error>(e) && *final(into) is None,
            Ok(t) => if !t.1 {
                r is Ok && *final(into) is None
            } else {
                match decode_chars(t.0) {
                    Err(b) => (r matches Err(Error::InvalidEntity(s)) && s@ == b) && *final(into)
                        is None,
                    Ok(p) => r is Ok && (*final(into) matches Some(v) && v@ == p.0),
                }
            },
        },
{
    if into.is_some() {
        return Err(Error::DuplicateValue);
    }
    let text = match deserializer.take_str() {
        Ok(o) => o,
        Err(e) => {
            return Err(e);
        },
    };
    let text = match text {
        Some(t) => t,
        None => {
            return Ok(());
        },
    };
    let dec = match decode(text.as_str()) {
        Ok(c) => c,
        Err(e) => {
            return Err(e);
        },
    };
    *into = Some(dec.text);
    Ok(())
}

/// Reads one borrowed-string occurrence: the value is accepted exactly
/// when decoding needed no substitution, so the text is a verbatim view
/// of the input; text that needed substitution fails with
/// `Error::UnexpectedValue`.
pub fn deserialize_str(deserializer: &mut Deserializer, into: &mut Option<String>) -> (r: Result<
    (),
    Error,
>)
    requires
        old(deserializer).wf(),
        old(deserializer).elements@.len() > 0,
    ensures
        final(deserializer).wf(),
        final(deserializer).tokens == old(deserializer).tokens,
        final(deserializer).scope == old(deserializer).scope,
        final(deserializer).elements == old(deserializer).elements,
        final(deserializer).pos >= old(deserializer).pos,
        (*old(into)) is None && old(deserializer).elements@.last().empty ==> final(deserializer).pos == old(deserializer).pos,
        (*old(into)) is None && !old(deserializer).elements@.last().empty ==> (text_scan(
            old(deserializer).remaining(),
            Seq::<char>::empty(),
            false,
        ) matches Ok(t) ==> final(deserializer).pos == old(deserializer).pos + t.2),
        (*old(into)) is Some ==> r == Err::<(), Error>(Error::DuplicateValue) && *final(into) == *old(
            into,
        ) && *final(deserializer) == *old(deserializer),
        (*old(into)) is None && old(deserializer).elements@.last().empty ==> r is Ok && *final(into)
            is None,
        (*old(into)) is None && !old(deserializer).elements@.last().empty ==> match text_scan(
            old(deserializer).remaining(),
            Seq::<char>::empty(),
            false,
        ) {
            Err(e) => r == Err::<(), Error>(e) && *final(into) is None,
            Ok(t) => if !t.1 {
                r is Ok && *final(into) is None
            } else {
                match decode_chars(t.0) {
                    Err(b) => (r matches Err(Error::InvalidEntity(s)) && s@ == b) && *final(into)
                        is None,
                    Ok(p) => if p.1 {
                        r == Err::<(), Error>(Error::UnexpectedValue) && *final(into) is None
                    } else {
                        r is Ok && (*final(into) matches Some(v) && v@ == p.0)
                    },
                }
            },
        },
{
    if into.is_some() {
        return Err(Error::DuplicateValue);
    }
    let text = match deserializer.take_str() {
        Ok(o) => o,
        Err(e) => {
            return Err(e);
        },
    };
    let text = match text {
        Some(t) => t,
        None => {
            return Ok(());
        },
    };
    let dec = match decode(text.as_str()) {
        Ok(c) => c,
        Err(e) => {
            return Err(e);
        },
    };
    if dec.substituted {
        return Err(Error::UnexpectedValue);
    }
    *into = Some(dec.text);
    Ok(())
}

/// Reads one copy-on-write string occurrence: the decoded text together
/// with the flag saying whether it had to be owned (substituted) or
/// could alias the input (verbatim).
pub fn deserialize_text(deserializer: &mut Deserializer, into: &mut Option<Coded>) -> (r: Result<
    (),
    Error,
>)
    requires
        old(deserializer).wf(),
        old(deserializer).elements@.len() > 0,
    ensures
        final(deserializer).wf(),
        final(deserializer).tokens == old(deserializer).tokens,
        final(deserializer).scope == old(deserializer).scope,
        final(deserializer).elements == old(deserializer).elements,
        final(deserializer).pos >= old(deserializer).pos,
        (*old(into)) is None && old(deserializer).elements@.last().empty ==> final(deserializer).pos == old(deserializer).pos,
        (*old(into)) is None && !old(deserializer).elements@.last().empty ==> (text_scan(
            old(deserializer).remaining(),
            Seq::<char>::empty(),
            false,
        ) matches Ok(t) ==> final(deserializer).pos == old(deserializer).pos + t.2),
        (*old(into)) is Some ==> r == Err::<(), Error>(Error::DuplicateValue) && *final(into) == *old(
            into,
        ) && *final(deserializer) == *old(deserializer),
        (*old(into)) is None && old(deserializer).elements@.last().empty ==> r is Ok && *final(into)
            is None,
        (*old(into)) is None && !old(deserializer).elements@.last().empty ==> match text_scan(
            old(deserializer).remaining(),
            Seq::<char>::empty(),
            false,
        ) {
            Err(e) => r == Err::<(), Error>(e) && *final(into) is None,
            Ok(t) => if !t.1 {
                r is Ok && *final(into) is None
            } else {
                match decode_chars(t.0) {
                    Err(b) => (r matches Err(Error::InvalidEntity(s)) && s@ == b) && *final(into)
                        is None,
                    Ok(p) => r is Ok && (*final(into) matches Some(v) && v.text@ == p.0
                        && v.substituted == p.1),
                }
            },
        },
{
    if into.is_some() {
        return Err(Error::DuplicateValue);
    }
    let text = match deserializer.take_str() {
        Ok(o) => o,
        Err(e) => {
            return Err(e);
        },
    };
    let text = match text {
        Some(t) => t,
        None => {
            return Ok(());
        },
    };
    let dec = match decode(text.as_str()) {
        Ok(c) => c,
        Err(e) => {
            return Err(e);
        },
    };
    *into = Some(dec);
    Ok(())
}

/// The optional-of-inner accumulator: it delegates to a once-optional
/// inner accumulator, and at finalize maps "still empty" to `None`
/// instead of an error.
pub struct OptionAccumulator<T> {
    pub value: Option<T>,
}

impl<T> Default for OptionAccumulator<T> {
    /// Starts empty.
    fn default() -> (r: Self)
        ensures
            r.value is None,
    {
        OptionAccumulator { value: None }
    }
}

impl<T> OptionAccumulator<T> {
    /// Finalizes: a value seen becomes `Some`, none becomes `None`;
    /// never an error.
    pub fn try_done(self) -> (r: Result<Option<T>, Error>)
        ensures
            r == Ok::<Option<T>, Error>(self.value),
    {
        Ok(self.value)
    }
}

/// Finalizes a required field's once-optional accumulator: a field that
/// stayed empty is `Error::MissingValue`.
pub fn finalize_required<T>(acc: Option<T>) -> (r: Result<T, Error>)
    ensures
        match acc {
            Some(v) => r == Ok::<T, Error>(v),
            None => r == Err::<T, Error>(Error::MissingValue),
        },
{
    match acc {
        Some(v) => Ok(v),
        None => Err(Error::MissingValue),
    }
}

/// Reads one occurrence of a sequence field: each occurrence appends
/// one element at the end, existing elements and their order untouched,
/// and repetition never gives `Error::DuplicateValue` (the appending
/// accumulator). An occurrence with no text fails with
/// `Error::MissingValue`, the per-item finalize of a sequence.
pub fn from_xml_seq<T: XmlScalar>(deserializer: &mut Deserializer, into: &mut Vec<T>) -> (r:
    Result<(), Error>)
    requires
        old(deserializer).wf(),
        old(deserializer).elements@.len() > 0,
    ensures
        final(deserializer).wf(),
        final(deserializer).tokens == old(deserializer).tokens,
        final(deserializer).scope == old(deserializer).scope,
        final(deserializer).elements == old(deserializer).elements,
        final(deserializer).pos >= old(deserializer).pos,
        old(deserializer).elements@.last().empty ==> r == Err::<(), Error>(Error::MissingValue)
            && final(into)@ == old(into)@,
        !old(deserializer).elements@.last().empty ==> match text_scan(
            old(deserializer).remaining(),
            Seq::<char>::empty(),
            false,
        ) {
            Err(e) => r == Err::<(), Error>(e) && final(into)@ == old(into)@,
            Ok(t) => if !t.1 {
                r == Err::<(), Error>(Error::MissingValue) && final(into)@ == old(into)@
            } else {
                match decode_chars(t.0) {
                    Err(b) => (r matches Err(Error::InvalidEntity(s)) && s@ == b) && final(into)@
                        == old(into)@,
                    Ok(p) => match T::from_text_spec(p.0) {
                        None => r == Err::<(), Error>(Error::UnexpectedValue) && final(into)@
                            == old(into)@,
                        Some(v) => r is Ok && final(into)@ == old(into)@.push(v),
                    },
                }
            },
        },
{
    let mut slot: Option<T> = None;
    match from_xml_str::<T>(deserializer, &mut slot) {
        Ok(u) => {},
        Err(e) => {
            return Err(e);
        },
    }
    match slot {
        Some(v) => {
            into.push(v);
            Ok(())
        },
        None => Err(Error::MissingValue),
    }
}

/// Reads one occurrence of an optional field: delegates to the inner
/// once-optional accumulator, so a second occurrence is still
/// `Error::DuplicateValue`; the missing outcome becomes `None` only at
/// finalize.
pub fn from_xml_opt<T: XmlScalar>(
    deserializer: &mut Deserializer,
    into: &mut OptionAccumulator<T>,
) -> (r: Result<(), Error>)
    requires
        old(deserializer).wf(),
        old(deserializer).elements@.len() > 0,
    ensures
        final(deserializer).wf(),
        final(deserializer).tokens == old(deserializer).tokens,
        final(deserializer).scope == old(deserializer).scope,
        final(deserializer).elements == old(deserializer).elements,
        final(deserializer).pos >= old(deserializer).pos,
        old(into).value is Some ==> r == Err::<(), Error>(Error::DuplicateValue) && *final(into)
            == *old(into),
        old(into).value is None && old(deserializer).elements@.last().empty ==> r is Ok && final(into).value is None,
        old(into).value is None && !old(deserializer).elements@.last().empty ==> scalar_outcome::<
            T,
        >(
            text_scan(old(deserializer).remaining(), Seq::<char>::empty(), false),
            r,
            final(into).value,
        ),
{
    from_xml_str::<T>(deserializer, &mut into.value)
}

/// The text a boolean serializes to.
pub open spec fn bool_text(b: bool) -> Seq<char> {
    if b {
        seq!['t', 'r', 'u', 'e']
    } else {
        seq!['f', 'a', 'l', 's', 'e']
    }
}

/// The serialized form of a boolean.
pub fn bool_to_str(b: bool) -> (r: &'static str)
    ensures
        r@ == bool_text(b),
{
    proof {
        reveal_strlit("true");
        reveal_strlit("false");
        assert("true"@ =~= seq!['t', 'r', 'u', 'e']);
        assert("false"@ =~= seq!['f', 'a', 'l', 's', 'e']);
    }
    if b {
        "true"
    } else {
        "false"
    }
}

/// Law: a serialized boolean parses back to itself; the text side of a
/// serialize-then-deserialize round trip of a boolean.
pub proof fn lemma_bool_text_parse(b: bool)
    ensures
        <bool as XmlScalar>::from_text_spec(bool_text(b)) == Some(b),
{
}

/// Law: a serialized unsigned scalar parses back to itself under the
/// adapter's parse, range check included.
pub proof fn lemma_u32_text_parse(n: u32)
    ensures
        <u32 as XmlScalar>::from_text_spec(crate::num::u64_text(n as int)) == Some(n),
{
    crate::num::lemma_u64_text_parse(n as int);
}

/// Law: a serialized `u8` parses back to itself under the adapter's
/// parse, range check included.
pub proof fn lemma_u8_text_parse(n: u8)
    ensures
        <u8 as XmlScalar>::from_text_spec(crate::num::u64_text(n as int)) == Some(n),
{
    crate::num::lemma_u64_text_parse(n as int);
}

/// Law: a serialized signed scalar parses back to itself under the
/// adapter's parse, range check included.
pub proof fn lemma_i32_text_parse(v: i32)
    ensures
        <i32 as XmlScalar>::from_text_spec(crate::num::int_text(v as int)) == Some(v),
{
    crate::num::lemma_int_text_parse(v as int);
}

/// No decimal digit and no sign is a character with a predefined
/// entity, so numeric text passes through encoding unchanged.
pub proof fn lemma_u64_text_plain(n: int)
    requires
        n >= 0,
    ensures
        crate::entity::encode_chars(crate::num::u64_text(n)) == crate::num::u64_text(n),
{
    let s = crate::num::u64_text(n);
    crate::num::lemma_u64_text_digits(n);
    assert(!crate::entity::has_special(s)) by {
        if crate::entity::has_special(s) {
            let j = choose|j: int| 0 <= j < s.len() && crate::entity::is_special(s[j]);
            assert(crate::num::is_digit(s[j]));
        }
    }
    crate::entity::lemma_encode_plain(s);
}

/// Signed numeric text passes through encoding unchanged.
pub proof fn lemma_int_text_plain(v: int)
    ensures
        crate::entity::encode_chars(crate::num::int_text(v)) == crate::num::int_text(v),
{
    let s = crate::num::int_text(v);
    if v < 0 {
        crate::num::lemma_u64_text_digits(-v);
        assert(!crate::entity::has_special(s)) by {
            if crate::entity::has_special(s) {
                let j = choose|j: int| 0 <= j < s.len() && crate::entity::is_special(s[j]);
                if j == 0 {
                    assert(s[0] == '-');
                } else {
                    assert(s[j] == crate::num::u64_text(-v)[j - 1]);
                    assert(crate::num::is_digit(s[j]));
                }
            }
        }
        crate::entity::lemma_encode_plain(s);
    } else {
        lemma_u64_text_plain(v);
    }
}

/// Boolean text passes through encoding unchanged.
pub proof fn lemma_bool_text_plain(b: bool)
    ensures
        crate::entity::encode_chars(bool_text(b)) == bool_text(b),
{
    let s = bool_text(b);
    assert(!crate::entity::has_special(s)) by {
        if crate::entity::has_special(s) {
            let j = choose|j: int| 0 <= j < s.len() && crate::entity::is_special(s[j]);
        }
    }
    crate::entity::lemma_encode_plain(s);
}

/// Law: a serialize-then-deserialize round trip of an unsigned scalar
/// returns the value: the serializer writes its digits entity-encoded,
/// the deserializer's text path entity-decodes them and parses them
/// back.
pub proof fn lemma_u32_round_trip(n: u32)
    ensures
        decode_chars(crate::entity::encode_chars(crate::num::u64_text(n as int))) matches Ok(p)
            && <u32 as XmlScalar>::from_text_spec(p.0) == Some(n),
{
    crate::entity::lemma_decode_encode(crate::num::u64_text(n as int));
    lemma_u32_text_parse(n);
}

/// Law: a serialize-then-deserialize round trip of a boolean returns
/// the value.
pub proof fn lemma_bool_round_trip(b: bool)
    ensures
        decode_chars(crate::entity::encode_chars(bool_text(b))) matches Ok(p) && <bool as XmlScalar>::from_text_spec(p.0) == Some(b),
{
    crate::entity::lemma_decode_encode(bool_text(b));
    lemma_bool_text_parse(b);
}

/// Law: a serialize-then-deserialize round trip of a string field
/// returns the value: the owned-string adapter's decode undoes the
/// serializer's encode on every character sequence.
pub proof fn lemma_string_round_trip(s: Seq<char>)
    ensures
        decode_chars(crate::entity::encode_chars(s)) matches Ok(p) && p.0 == s,
{
    crate::entity::lemma_decode_encode(s);
}

} // verus!
