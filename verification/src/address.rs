//! Network addresses in a canonical, comparable form.
//!
//! An address is kept as the number it is, so two addresses are equal
//! exactly when they name the same host. Its text is fixed by its value: an
//! IPv4 address is written as four decimal octets with dots between them, an
//! IPv6 address as eight hexadecimal groups with colons between them, no
//! group shortened away.

use vstd::prelude::*;
use vstd::string::*;
use crate::fields::{
    first_index_of, joined, lemma_first_index, lemma_joined_chars, lemma_read_joined, parse_joined,
    push_joined, read_joined,
};
use crate::numeral::digit_value;
use crate::text::chars_of;

verus! {

/// A validated network address.
#[derive(Clone, Copy, Debug, PartialEq, Eq, Structural)]
pub enum Address {
    /// An IPv4 address: its 32 bits, the first octet in the highest byte.
    V4(u32),
    /// An IPv6 address: its 128 bits, the first group in the highest bits.
    V6(u128),
}

/// What an octet counts for that has one octet after it.
pub const OCTET_1: u32 = 0x100;

/// What an octet counts for that has two octets after it.
pub const OCTET_2: u32 = 0x1_0000;

/// What an octet counts for that has three octets after it.
pub const OCTET_3: u32 = 0x100_0000;

/// What a group counts for that has one group after it.
pub const GROUP_1: u128 = 0x1_0000;

/// What a group counts for that has two groups after it.
pub const GROUP_2: u128 = 0x1_0000_0000;

/// What a group counts for that has three groups after it.
pub const GROUP_3: u128 = 0x1_0000_0000_0000;

/// What a group counts for that has four groups after it.
pub const GROUP_4: u128 = 0x1_0000_0000_0000_0000;

/// What a group counts for that has five groups after it.
pub const GROUP_5: u128 = 0x1_0000_0000_0000_0000_0000;

/// What a group counts for that has six groups after it.
pub const GROUP_6: u128 = 0x1_0000_0000_0000_0000_0000_0000;

/// What a group counts for that has seven groups after it.
pub const GROUP_7: u128 = 0x1_0000_0000_0000_0000_0000_0000_0000;

/// The IPv4 address with the given four octets, if they are octets.
pub open spec fn v4_of_parts(parts: Seq<u64>) -> Option<Address> {
    if parts.len() == 4 && (forall|i: int| 0 <= i < 4 ==> #[trigger] parts[i] < OCTET_1) {
        Some(
            Address::V4(
                (parts[0] * OCTET_3 + parts[1] * OCTET_2 + parts[2] * OCTET_1 + parts[3]) as u32,
            ),
        )
    } else {
        None
    }
}

/// The IPv6 address with the given eight groups, if they are groups.
pub open spec fn v6_of_parts(parts: Seq<u64>) -> Option<Address> {
    if parts.len() == 8 && (forall|i: int| 0 <= i < 8 ==> #[trigger] parts[i] < GROUP_1) {
        Some(
            Address::V6(
                (parts[0] * GROUP_7 + parts[1] * GROUP_6 + parts[2] * GROUP_5 + parts[3] * GROUP_4
                    + parts[4] * GROUP_3 + parts[5] * GROUP_2 + parts[6] * GROUP_1
                    + parts[7]) as u128,
            ),
        )
    } else {
        None
    }
}

/// What reading `s` as an address gives: the address whose parts `s`
/// lists, or nothing where `s` lists neither four octets nor eight groups.
pub open spec fn read_address(s: Seq<char>) -> Option<Address> {
    match read_joined(s, 8, 16, ':') {
        Some(groups) => v6_of_parts(groups),
        None => match read_joined(s, 4, 10, '.') {
            Some(octets) => v4_of_parts(octets),
            None => None,
        },
    }
}

impl Address {
    /// The numbers that the text of the address lists: four octets or eight
    /// groups, the first one first.
    pub open spec fn parts(self) -> Seq<u64> {
        match self {
            Address::V4(bits) => seq![
                (bits / OCTET_3) as u64,
                (bits / OCTET_2 % OCTET_1) as u64,
                (bits / OCTET_1 % OCTET_1) as u64,
                (bits % OCTET_1) as u64,
            ],
            Address::V6(bits) => seq![
                (bits / GROUP_7) as u64,
                (bits / GROUP_6 % GROUP_1) as u64,
                (bits / GROUP_5 % GROUP_1) as u64,
                (bits / GROUP_4 % GROUP_1) as u64,
                (bits / GROUP_3 % GROUP_1) as u64,
                (bits / GROUP_2 % GROUP_1) as u64,
                (bits / GROUP_1 % GROUP_1) as u64,
                (bits % GROUP_1) as u64,
            ],
        }
    }

    /// The text of the address.
    pub open spec fn text(self) -> Seq<char> {
        match self {
            Address::V4(_) => joined(self.parts(), 10, '.'),
            Address::V6(_) => joined(self.parts(), 16, ':'),
        }
    }

    /// An address is the one that its own parts make up.
    pub proof fn lemma_parts(self)
        ensures
            match self {
                Address::V4(_) => v4_of_parts(self.parts()) == Some(self),
                Address::V6(_) => v6_of_parts(self.parts()) == Some(self),
            },
    {
        match self {
            Address::V4(bits) => {
                assert(bits / OCTET_3 < OCTET_1 && (bits / OCTET_3) * OCTET_3 + (bits / OCTET_2
                    % OCTET_1) * OCTET_2 + (bits / OCTET_1 % OCTET_1) * OCTET_1 + bits % OCTET_1
                    == bits) by (bit_vector);
            },
            Address::V6(bits) => {
                assert(bits / GROUP_7 < GROUP_1 && (bits / GROUP_7) * GROUP_7 + (bits / GROUP_6
                    % GROUP_1) * GROUP_6 + (bits / GROUP_5 % GROUP_1) * GROUP_5 + (bits / GROUP_4
                    % GROUP_1) * GROUP_4 + (bits / GROUP_3 % GROUP_1) * GROUP_3 + (bits / GROUP_2
                    % GROUP_1) * GROUP_2 + (bits / GROUP_1 % GROUP_1) * GROUP_1 + bits % GROUP_1
                    == bits) by (bit_vector);
            },
        }
    }

    /// The text of an address holds digits, dots and colons only, at least
    /// one character, and is read back as that address.
    pub proof fn lemma_text(self)
        ensures
            self.text().len() > 0,
            forall|i: int|
                0 <= i < self.text().len() ==> digit_value(#[trigger] self.text()[i]) < 16
                    || self.text()[i] == '.' || self.text()[i] == ':',
            read_address(self.text()) == Some(self),
    {
        let text = self.text();
        self.lemma_parts();
        match self {
            Address::V4(_) => {
                lemma_joined_chars(self.parts(), 10, '.');
                lemma_read_joined(self.parts(), 10, '.');
                assert forall|j: int| 0 <= j < text.len() implies text[j] != ':' by {
                    assert(crate::fields::digit_or(text[j], 10, '.'));
                }
                lemma_first_index(text, ':', text.len() as int);
            },
            Address::V6(_) => {
                lemma_joined_chars(self.parts(), 16, ':');
                lemma_read_joined(self.parts(), 16, ':');
            },
        }
    }

    /// Two addresses with the same text are the same address.
    pub proof fn lemma_text_injective(self, other: Address)
        requires
            self.text() == other.text(),
        ensures
            self == other,
    {
        self.lemma_text();
        other.lemma_text();
    }

    /// The numbers that the text of the address lists.
    pub fn split(&self) -> (r: Vec<u64>)
        ensures
            r@ == self.parts(),
    {
        let r = match *self {
            Address::V4(bits) => vec![
                (bits / OCTET_3) as u64,
                (bits / OCTET_2 % OCTET_1) as u64,
                (bits / OCTET_1 % OCTET_1) as u64,
                (bits % OCTET_1) as u64,
            ],
            Address::V6(bits) => vec![
                (bits / GROUP_7) as u64,
                (bits / GROUP_6 % GROUP_1) as u64,
                (bits / GROUP_5 % GROUP_1) as u64,
                (bits / GROUP_4 % GROUP_1) as u64,
                (bits / GROUP_3 % GROUP_1) as u64,
                (bits / GROUP_2 % GROUP_1) as u64,
                (bits / GROUP_1 % GROUP_1) as u64,
                (bits % GROUP_1) as u64,
            ],
        };
        assert(r@ =~= self.parts());
        r
    }

    /// Appends the text of the address to `out`.
    pub fn push_text(&self, out: &mut String)
        ensures
            final(out)@ == old(out)@ + self.text(),
    {
        let parts = self.split();
        match *self {
            Address::V4(_) => {
                proof {
                    reveal_strlit(".");
                }
                push_joined(out, &parts, 10, ".");
            },
            Address::V6(_) => {
                proof {
                    reveal_strlit(":");
                }
                push_joined(out, &parts, 16, ":");
            },
        }
    }

    /// The address that `text` is the text of, if it is the text of one.
    pub fn parse(text: &str) -> (r: Option<Address>)
        ensures
            match r {
                Some(address) => address.text() == text@,
                None => forall|address: Address| address.text() != text@,
            },
    {
        let chars = chars_of(text);
        proof {
            assert forall|address: Address| address.text() == text@ implies read_address(chars@)
                == Some(address) by {
                address.lemma_text();
            }
            assert(chars@.subrange(0, chars@.len() as int) =~= chars@);
        }
        match parse_address(&chars, 0, chars.len()) {
            Some(address) => {
                if address.to_text() == text.to_owned() {
                    Some(address)
                } else {
                    None
                }
            },
            None => None,
        }
    }

    /// The text of the address.
    pub fn to_text(&self) -> (r: String)
        ensures
            r@ == self.text(),
    {
        let mut r = String::new();
        self.push_text(&mut r);
        assert(r@ =~= self.text());
        r
    }
}

/// Whether there are `count` numbers in `parts`, each of them below `limit`.
fn all_below(parts: &Vec<u64>, count: usize, limit: u64) -> (r: bool)
    ensures
        r == (parts.len() == count && forall|i: int|
            0 <= i < count ==> #[trigger] parts@[i] < limit),
{
    if parts.len() != count {
        return false;
    }
    let mut i: usize = 0;
    while i < count
        invariant
            parts.len() == count,
            i <= count,
            forall|j: int| 0 <= j < i ==> #[trigger] parts@[j] < limit,
        decreases count - i,
    {
        if parts[i] >= limit {
            return false;
        }
        i += 1;
    }
    true
}

/// The IPv4 address with the given octets, if there are four of them and
/// each is one.
pub fn v4_from_parts(parts: &Vec<u64>) -> (r: Option<Address>)
    ensures
        r == v4_of_parts(parts@),
{
    if !all_below(parts, 4, OCTET_1 as u64) {
        return None;
    }
    assert(parts@[0] < OCTET_1 && parts@[1] < OCTET_1 && parts@[2] < OCTET_1 && parts@[3]
        < OCTET_1);
    let bits = parts[0] * (OCTET_3 as u64) + parts[1] * (OCTET_2 as u64) + parts[2]
        * (OCTET_1 as u64) + parts[3];
    Some(Address::V4(bits as u32))
}

/// The IPv6 address with the given groups, if there are eight of them and
/// each is one.
pub fn v6_from_parts(parts: &Vec<u64>) -> (r: Option<Address>)
    ensures
        r == v6_of_parts(parts@),
{
    if !all_below(parts, 8, GROUP_1 as u64) {
        return None;
    }
    assert(parts@[0] < GROUP_1 && parts@[1] < GROUP_1 && parts@[2] < GROUP_1 && parts@[3]
        < GROUP_1 && parts@[4] < GROUP_1 && parts@[5] < GROUP_1 && parts@[6] < GROUP_1
        && parts@[7] < GROUP_1);
    let bits = parts[0] as u128 * GROUP_7 + parts[1] as u128 * GROUP_6 + parts[2] as u128
        * GROUP_5 + parts[3] as u128 * GROUP_4 + parts[4] as u128 * GROUP_3 + parts[5] as u128
        * GROUP_2 + parts[6] as u128 * GROUP_1 + parts[7] as u128;
    Some(Address::V6(bits))
}

/// Reads the characters of `text` from `from` up to `to` as an address.
pub fn parse_address(text: &Vec<char>, from: usize, to: usize) -> (r: Option<Address>)
    requires
        from <= to <= text.len(),
    ensures
        r == read_address(text@.subrange(from as int, to as int)),
{
    match parse_joined(text, from, to, 8, 16, ':') {
        Some(groups) => v6_from_parts(&groups),
        None => match parse_joined(text, from, to, 4, 10, '.') {
            Some(octets) => v4_from_parts(&octets),
            None => None,
        },
    }
}

} // verus!
