//! The stored form of the monitoring state: one line of text.
//!
//! A record holds the address, a space, and then the time of the last
//! change, the remaining budget and the escalation step as decimal numbers
//! with one space between them. A state without an address has nothing
//! before the first space. Every state has exactly one record, and only
//! that text is accepted as a record of it. A store may end the line with a
//! line feed: what is read from a store is the line without it.

use vstd::prelude::*;
use vstd::string::*;
use crate::address::{parse_address, read_address, Address};
use crate::fields::{
    digit_or, find_separator, first_index_of, joined, lemma_first_index, lemma_joined_chars,
    lemma_read_joined, parse_joined, push_joined, read_joined,
};
use crate::state::MonitoringState;
use crate::text::chars_of;

verus! {

/// The text of an address that may be absent: nothing where it is.
pub open spec fn address_text(address: Option<Address>) -> Seq<char> {
    match address {
        Some(a) => a.text(),
        None => Seq::empty(),
    }
}

/// The line that a stored text holds: the text without the line feed at its
/// end, where it ends in one.
pub open spec fn stored_line(text: Seq<char>) -> Seq<char> {
    if text.len() > 0 && text.last() == '\n' {
        text.drop_last()
    } else {
        text
    }
}

/// What reading `s` as an address that may be absent gives.
pub open spec fn read_optional_address(s: Seq<char>) -> Option<Option<Address>> {
    if s.len() == 0 {
        Some(None)
    } else {
        match read_address(s) {
            Some(a) => Some(Some(a)),
            None => None,
        }
    }
}

/// What reading `s` field by field gives, whether or not `s` is spelled the
/// way a record is.
pub open spec fn read_record(s: Seq<char>) -> Option<MonitoringState> {
    let cut = first_index_of(s, ' ');
    if cut >= s.len() {
        None
    } else {
        match (read_optional_address(s.take(cut)), read_joined(s.skip(cut + 1), 3, 10, ' ')) {
            (Some(address), Some(numbers)) => Some(
                MonitoringState {
                    last_address: address,
                    last_change_at: numbers[0],
                    stagnation_budget: numbers[1],
                    escalation_step: numbers[2],
                },
            ),
            _ => None,
        }
    }
}

impl MonitoringState {
    /// The three numbers of the record, in the order in which it lists them.
    pub open spec fn numbers(self) -> Seq<u64> {
        seq![self.last_change_at, self.stagnation_budget, self.escalation_step]
    }

    /// The record of the state.
    pub open spec fn record_text(self) -> Seq<char> {
        address_text(self.last_address) + seq![' '] + joined(self.numbers(), 10, ' ')
    }

    /// Whether `text` is the record of this state, and the state one that
    /// the monitor can have produced.
    pub open spec fn is_record(self, text: Seq<char>) -> bool {
        self.wf() && self.record_text() == text
    }

    /// Reading the record of a state field by field gives that state.
    pub proof fn lemma_read_record(self)
        ensures
            read_record(self.record_text()) == Some(self),
    {
        let head = address_text(self.last_address);
        let tail = joined(self.numbers(), 10, ' ');
        let s = self.record_text();
        match self.last_address {
            Some(a) => {
                a.lemma_text();
            },
            None => {},
        }
        assert forall|j: int| 0 <= j < head.len() implies s[j] != ' ' by {
            assert(s[j] == head[j]);
        }
        assert(s[head.len() as int] == ' ');
        lemma_first_index(s, ' ', head.len() as int);
        lemma_read_joined(self.numbers(), 10, ' ');
        assert(s.take(head.len() as int) =~= head);
        assert(s.skip(head.len() as int + 1) =~= tail);
    }

    /// A text is the record of one state at most.
    pub proof fn lemma_record_injective(self, other: MonitoringState)
        requires
            self.record_text() == other.record_text(),
        ensures
            self == other,
    {
        self.lemma_read_record();
        other.lemma_read_record();
    }

    /// A record is one line: it does not end in a line feed, so it is the
    /// line that a store holds which holds the record, with or without a
    /// line feed after it.
    pub proof fn lemma_record_is_line(self)
        ensures
            stored_line(self.record_text()) == self.record_text(),
            stored_line(self.record_text().push('\n')) == self.record_text(),
    {
        let numbers = joined(self.numbers(), 10, ' ');
        let text = self.record_text();
        lemma_joined_chars(self.numbers(), 10, ' ');
        assert(text.last() == numbers.last());
        assert(digit_or(numbers[numbers.len() - 1], 10, ' '));
        assert(text.push('\n').drop_last() =~= text);
    }

    /// Loading right after saving gives back what was saved: whatever
    /// `load` makes of the record of a state is that state.
    pub proof fn lemma_load_restores(self, loaded: MonitoringState)
        requires
            self.wf(),
            loaded.is_record(stored_line(self.record_text())) || (loaded
                == MonitoringState::initial() && forall|state: MonitoringState|
                !state.is_record(stored_line(self.record_text()))),
        ensures
            loaded == self,
    {
        self.lemma_record_is_line();
        assert(self.is_record(self.record_text()));
        loaded.lemma_record_injective(self);
    }

    /// The record of the state, to be stored in place of the one before.
    pub fn to_record(&self) -> (r: String)
        ensures
            r@ == self.record_text(),
    {
        let mut r = String::new();
        match self.last_address {
            Some(a) => {
                a.push_text(&mut r);
            },
            None => {},
        }
        proof {
            reveal_strlit(" ");
        }
        r.append(" ");
        let numbers = vec![self.last_change_at, self.stagnation_budget, self.escalation_step];
        assert(numbers@ =~= self.numbers());
        push_joined(&mut r, &numbers, 10, " ");
        assert(r@ =~= self.record_text());
        r
    }

    /// The state that `text` is the record of, if it is the record of one.
    pub fn from_record(text: &str) -> (r: Option<MonitoringState>)
        ensures
            match r {
                Some(state) => state.is_record(text@),
                None => forall|state: MonitoringState| !state.is_record(text@),
            },
    {
        let chars = chars_of(text);
        proof {
            assert forall|state: MonitoringState| state.is_record(text@) implies read_record(
                chars@,
            ) == Some(state) by {
                state.lemma_read_record();
            }
        }
        match read_fields(&chars) {
            Some(state) => {
                if state.is_valid() && state.to_record() == text.to_owned() {
                    Some(state)
                } else {
                    None
                }
            },
            None => None,
        }
    }

    /// The state whose record is the line that `text` holds, if that line
    /// is the record of one.
    pub fn from_stored(text: &str) -> (r: Option<MonitoringState>)
        ensures
            match r {
                Some(state) => state.is_record(stored_line(text@)),
                None => forall|state: MonitoringState| !state.is_record(stored_line(text@)),
            },
    {
        let length = text.unicode_len();
        if length > 0 && text.get_char(length - 1) == '\n' {
            let line = text.substring_char(0, length - 1);
            assert(line@ =~= stored_line(text@));
            MonitoringState::from_record(line)
        } else {
            MonitoringState::from_record(text)
        }
    }

    /// The state to start from, given what the store holds: the stored
    /// state where the store holds the record of one, the initial state
    /// where it holds nothing or something else.
    pub fn load(stored: Option<&str>) -> (r: MonitoringState)
        ensures
            r.wf(),
            match stored {
                Some(text) => r.is_record(stored_line(text@)) || (r == MonitoringState::initial()
                    && forall|state: MonitoringState| !state.is_record(stored_line(text@))),
                None => r == MonitoringState::initial(),
            },
    {
        match stored {
            Some(text) => match MonitoringState::from_stored(text) {
                Some(state) => state,
                None => MonitoringState::new(),
            },
            None => MonitoringState::new(),
        }
    }
}

/// Reads `text` field by field.
fn read_fields(text: &Vec<char>) -> (r: Option<MonitoringState>)
    ensures
        r == read_record(text@),
{
    let end = text.len();
    let cut = find_separator(text, 0, end, ' ');
    assert(text@.subrange(0, end as int) =~= text@);
    if cut >= end {
        return None;
    }
    assert(text@.take(cut as int) =~= text@.subrange(0, cut as int));
    assert(text@.skip(cut + 1) =~= text@.subrange(cut + 1, end as int));
    let address = if cut == 0 {
        None
    } else {
        match parse_address(text, 0, cut) {
            Some(a) => Some(a),
            None => {
                return None;
            },
        }
    };
    match parse_joined(text, cut + 1, end, 3, 10, ' ') {
        Some(numbers) => {
            assert(numbers@.len() == 3) by {
                lemma_read_joined_len(text@.skip(cut + 1), 3, 10, ' ');
            }
            Some(
                MonitoringState {
                    last_address: address,
                    last_change_at: numbers[0],
                    stagnation_budget: numbers[1],
                    escalation_step: numbers[2],
                },
            )
        },
        None => None,
    }
}

/// What is read as `count` numbers is `count` numbers.
proof fn lemma_read_joined_len(s: Seq<char>, count: nat, radix: nat, sep: char)
    ensures
        match read_joined(s, count, radix, sep) {
            Some(parts) => parts.len() == count,
            None => true,
        },
    decreases count,
{
    if count > 1 {
        let end = first_index_of(s, sep);
        lemma_read_joined_len(s.skip(end + 1), (count - 1) as nat, radix, sep);
    }
}

} // verus!
