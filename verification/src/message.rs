//! The wording of what the monitor announces.

use vstd::prelude::*;
use vstd::string::*;
use crate::address::Address;
use crate::machine::Outcome;
use crate::numeral::{decimal_text, push_numeral};

verus! {

/// A duration of `seconds` in words: whole days, then the hours, minutes
/// and seconds that are left over.
pub open spec fn duration_text(seconds: u64) -> Seq<char> {
    decimal_text((seconds / 86400) as nat) + " días, "@ + decimal_text(
        (seconds % 86400 / 3600) as nat,
    ) + " horas, "@ + decimal_text((seconds % 3600 / 60) as nat) + " minutos y "@ + decimal_text(
        (seconds % 60) as nat,
    ) + " segundos"@
}

/// The announcement that the address of the host called `label` changed to
/// `address`, `elapsed` seconds after the one before was set.
pub open spec fn changed_text(label: Seq<char>, address: Address, elapsed: u64) -> Seq<char> {
    "\u{2705} Tu IP pública de "@ + label + ", ha cambiado a: "@ + address.text()
        + " (después de "@ + duration_text(elapsed) + ")"@
}

/// The reminder that the address of the host called `label` has been
/// `address` for `elapsed` seconds.
pub open spec fn unchanged_text(label: Seq<char>, address: Address, elapsed: u64) -> Seq<char> {
    "\u{23F9} Tu IP pública "@ + address.text() + " de "@ + label + ", no ha cambiado en "@
        + duration_text(elapsed)
}

/// What has to be announced after a poll, if anything.
pub open spec fn notice_text(outcome: Outcome, label: Seq<char>) -> Option<Seq<char>> {
    match outcome {
        Outcome::Changed { address, elapsed } => Some(changed_text(label, address, elapsed)),
        Outcome::Escalated { address, elapsed } => Some(unchanged_text(label, address, elapsed)),
        _ => None,
    }
}

/// Appends a duration of `seconds` in words to `out`.
fn push_duration(out: &mut String, seconds: u64)
    ensures
        final(out)@ == old(out)@ + duration_text(seconds),
{
    push_numeral(out, seconds / 86400, 10);
    out.append(" días, ");
    push_numeral(out, seconds % 86400 / 3600, 10);
    out.append(" horas, ");
    push_numeral(out, seconds % 3600 / 60, 10);
    out.append(" minutos y ");
    push_numeral(out, seconds % 60, 10);
    out.append(" segundos");
    assert(final(out)@ =~= old(out)@ + duration_text(seconds));
}

/// A duration of `seconds` in words.
pub fn duration_to_string(seconds: u64) -> (r: String)
    ensures
        r@ == duration_text(seconds),
{
    let mut r = String::new();
    push_duration(&mut r, seconds);
    assert(r@ =~= duration_text(seconds));
    r
}

/// The announcement of a change of address.
pub fn changed_message(label: &str, address: &Address, elapsed: u64) -> (r: String)
    ensures
        r@ == changed_text(label@, *address, elapsed),
{
    let mut r = String::new();
    r.append("\u{2705} Tu IP pública de ");
    r.append(label);
    r.append(", ha cambiado a: ");
    address.push_text(&mut r);
    r.append(" (después de ");
    push_duration(&mut r, elapsed);
    r.append(")");
    assert(r@ =~= changed_text(label@, *address, elapsed));
    r
}

/// The reminder that the address has not changed.
pub fn unchanged_message(label: &str, address: &Address, elapsed: u64) -> (r: String)
    ensures
        r@ == unchanged_text(label@, *address, elapsed),
{
    let mut r = String::new();
    r.append("\u{23F9} Tu IP pública ");
    address.push_text(&mut r);
    r.append(" de ");
    r.append(label);
    r.append(", no ha cambiado en ");
    push_duration(&mut r, elapsed);
    assert(r@ =~= unchanged_text(label@, *address, elapsed));
    r
}

impl Outcome {
    /// What has to be announced after the poll, for the host called
    /// `label`: one message after a change or when a reminder is due,
    /// nothing otherwise.
    pub fn notice(&self, label: &str) -> (r: Option<String>)
        ensures
            match r {
                Some(message) => notice_text(*self, label@) == Some(message@),
                None => notice_text(*self, label@) is None,
            },
    {
        match self {
            Outcome::Changed { address, elapsed } => Some(
                changed_message(label, address, *elapsed),
            ),
            Outcome::Escalated { address, elapsed } => Some(
                unchanged_message(label, address, *elapsed),
            ),
            _ => None,
        }
    }
}

} // verus!
