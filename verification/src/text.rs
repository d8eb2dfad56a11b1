//! Length-prefixed text as it lies in a save file: narrow (one byte per unit)
//! or wide (one 16-bit unit per character), terminator included.

use vstd::prelude::*;

verus! {

/// A string of the save format. Both forms keep every unit that the length
/// prefix counted, the terminator too, so that writing a text back gives the
/// bytes it was read from.
#[derive(Debug)]
pub enum Text {
    /// A non-negative length prefix: that many bytes of ASCII or UTF-8.
    Narrow(Vec<u8>),
    /// A negative length prefix: that many UTF-16 code units.
    Wide(Vec<u16>),
}

/// What a [`Text`] holds.
pub enum TextModel {
    Narrow(Seq<u8>),
    Wide(Seq<u16>),
}

impl View for Text {
    type V = TextModel;

    open spec fn view(&self) -> TextModel {
        match self {
            Text::Narrow(units) => TextModel::Narrow(units@),
            Text::Wide(units) => TextModel::Wide(units@),
        }
    }
}

/// What `String::from_utf8_lossy` makes of a byte string.
pub uninterp spec fn utf8_lossy(bytes: Seq<u8>) -> Seq<char>;

/// What `String::from_utf16_lossy` makes of a string of code units.
pub uninterp spec fn utf16_lossy(units: Seq<u16>) -> Seq<char>;

/// All units but the last: the characters in front of the terminator.
pub open spec fn without_terminator<T>(units: Seq<T>) -> Seq<T> {
    if units.len() == 0 {
        units
    } else {
        units.drop_last()
    }
}

impl TextModel {
    /// The narrow text that spells `name` and ends in a null byte.
    pub open spec fn ascii(name: Seq<u8>) -> TextModel {
        TextModel::Narrow(name.push(0u8))
    }

    /// The number of units that the length prefix counts.
    pub open spec fn unit_count(self) -> nat {
        match self {
            TextModel::Narrow(units) => units.len(),
            TextModel::Wide(units) => units.len(),
        }
    }

    /// The text as the host reads it: the units in front of the terminator,
    /// decoded leniently.
    pub open spec fn host_text(self) -> Seq<char> {
        match self {
            TextModel::Narrow(units) => utf8_lossy(without_terminator(units)),
            TextModel::Wide(units) => utf16_lossy(without_terminator(units)),
        }
    }
}

/// `String::from_utf8_lossy` of std: the result depends on the bytes alone, and
/// a valid UTF-8 string is decoded as it stands.
#[verifier::external_body]
fn utf8_lossy_string(bytes: &[u8]) -> (text: String)
    ensures
        text@ == utf8_lossy(bytes@),
        vstd::utf8::valid_utf8(bytes@) ==> text@ == vstd::utf8::decode_utf8(bytes@),
{
    String::from_utf8_lossy(bytes).into_owned()
}

/// `String::from_utf16_lossy` of std: the result depends on the units alone.
#[verifier::external_body]
fn utf16_lossy_string(units: &[u16]) -> (text: String)
    ensures
        text@ == utf16_lossy(units@),
{
    String::from_utf16_lossy(units)
}

impl Clone for Text {
    fn clone(&self) -> (copy: Text)
        ensures
            copy@ == self@,
    {
        match self {
            Text::Narrow(units) => {
                let mut out: Vec<u8> = Vec::new();
                out.extend_from_slice(units.as_slice());
                assert(out@ =~= units@);
                Text::Narrow(out)
            },
            Text::Wide(units) => {
                let mut out: Vec<u16> = Vec::new();
                out.extend_from_slice(units.as_slice());
                assert(out@ =~= units@);
                Text::Wide(out)
            },
        }
    }
}

impl Text {
    /// The narrow text that spells `name`, with its terminator.
    pub fn from_ascii(name: &[u8]) -> (text: Text)
        ensures
            text@ == TextModel::ascii(name@),
    {
        let mut units: Vec<u8> = Vec::new();
        units.extend_from_slice(name);
        units.push(0u8);
        assert(units@ =~= name@.push(0u8));
        Text::Narrow(units)
    }

    /// Whether this is the narrow text that spells `name` and ends in a null byte.
    pub fn is_ascii(&self, name: &[u8]) -> (same: bool)
        ensures
            same == (self@ == TextModel::ascii(name@)),
    {
        match self {
            Text::Narrow(units) => {
                assert(name@.push(0u8).len() == name@.len() + 1);
                assert(self@ == TextModel::Narrow(units@));
                assert(name.len() == name@.len());
                assert(TextModel::ascii(name@) == TextModel::Narrow(name@.push(0u8)));
                let count: usize = units.len();
                if name.len() == usize::MAX || count != name.len() + 1 {
                    return false;
                }
                let mut i: usize = 0;
                while i < name.len()
                    invariant
                        i <= name.len(),
                        units.len() == name.len() + 1,
                        self@ == TextModel::Narrow(units@),
                        forall|k: int| 0 <= k < i ==> units@[k] == name@[k],
                    decreases name.len() - i,
                {
                    if units[i] != name[i] {
                        assert(units@[i as int] != name@.push(0u8)[i as int]);
                        return false;
                    }
                    i = i + 1;
                }
                let last = units[name.len()];
                proof {
                    if last == 0u8 {
                        assert(units@ =~= name@.push(0u8));
                    } else {
                        assert(name@.push(0u8)[name.len() as int] == 0u8);
                    }
                }
                last == 0u8
            },
            Text::Wide(_) => false,
        }
    }

    /// The number of units that the length prefix counts.
    pub fn unit_count(&self) -> (count: usize)
        ensures
            count == self@.unit_count(),
    {
        match self {
            Text::Narrow(units) => units.len(),
            Text::Wide(units) => units.len(),
        }
    }

    /// The text in the host's representation: the units in front of the
    /// terminator, invalid sequences replaced.
    pub fn to_string(&self) -> (text: String)
        ensures
            text@ == self@.host_text(),
            match self@ {
                TextModel::Narrow(units) => vstd::utf8::valid_utf8(without_terminator(units))
                    ==> text@ == vstd::utf8::decode_utf8(without_terminator(units)),
                TextModel::Wide(_) => true,
            },
    {
        match self {
            Text::Narrow(units) => {
                let end: usize = if units.len() == 0 { 0 } else { units.len() - 1 };
                let content = vstd::slice::slice_subrange(units.as_slice(), 0, end);
                assert(content@ =~= without_terminator(units@));
                utf8_lossy_string(content)
            },
            Text::Wide(units) => {
                let end: usize = if units.len() == 0 { 0 } else { units.len() - 1 };
                let content = vstd::slice::slice_subrange(units.as_slice(), 0, end);
                assert(content@ =~= without_terminator(units@));
                utf16_lossy_string(content)
            },
        }
    }
}

} // verus!
