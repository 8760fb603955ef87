//! Opaque handler identifiers and the counter that issues them.

use vstd::prelude::*;

verus! {

/// The character that writes the decimal digit `d` (`0 <= d < 10`).
pub open spec fn digit_char(d: nat) -> char {
    (48 + d) as char
}

/// The decimal representation of `n`, most significant digit first,
/// without leading zeros (`0` is written as a single `'0'`).
pub open spec fn decimal_text(n: nat) -> Seq<char>
    decreases n,
{
    if n < 10 {
        seq![digit_char(n)]
    } else {
        decimal_text(n / 10) + seq![digit_char(n % 10)]
    }
}

/// Identifier of a registered handler.
///
/// Ids are unique within the registry that issued them; their numeric value
/// is meant for diagnostics only.
#[derive(Clone, Copy, PartialEq, Eq, Hash, Debug, Structural)]
pub struct HandlerId(u64);

impl View for HandlerId {
    type V = u64;

    closed spec fn view(&self) -> u64 {
        self.0
    }
}

/// Two ids are the same id exactly when their numeric values agree.
pub broadcast proof fn lemma_handler_id_view_injective(a: HandlerId, b: HandlerId)
    ensures
        #[trigger] a@ == #[trigger] b@ <==> a == b,
{
}

/// The id whose numeric value is `raw`.
pub closed spec fn handler_id_of(raw: u64) -> HandlerId {
    HandlerId(raw)
}

/// The numeric value of [`handler_id_of`]`(raw)` is `raw`.
pub broadcast proof fn lemma_handler_id_of(raw: u64)
    ensures
        #[trigger] handler_id_of(raw)@ == raw,
{
}

/// The string that writes a one-digit number.
fn digit_str(d: u64) -> (s: &'static str)
    requires
        d < 10,
    ensures
        s@ == seq![digit_char(d as nat)],
{
    proof {
        reveal_strlit("0");
        reveal_strlit("1");
        reveal_strlit("2");
        reveal_strlit("3");
        reveal_strlit("4");
        reveal_strlit("5");
        reveal_strlit("6");
        reveal_strlit("7");
        reveal_strlit("8");
        reveal_strlit("9");
    }
    if d == 0 {
        "0"
    } else if d == 1 {
        "1"
    } else if d == 2 {
        "2"
    } else if d == 3 {
        "3"
    } else if d == 4 {
        "4"
    } else if d == 5 {
        "5"
    } else if d == 6 {
        "6"
    } else if d == 7 {
        "7"
    } else if d == 8 {
        "8"
    } else {
        "9"
    }
}

/// Appends the decimal representation of `n` to `out`.
pub(crate) fn append_decimal(out: &mut String, n: u64)
    ensures
        final(out)@ == old(out)@ + decimal_text(n as nat),
    decreases n,
{
    if n >= 10 {
        append_decimal(out, n / 10);
    }
    out.append(digit_str(n % 10));
}

impl HandlerId {
    /// Builds an id from its numeric value.
    pub fn from_raw(raw: u64) -> (id: Self)
        ensures
            id@ == raw,
    {
        HandlerId(raw)
    }

    /// The numeric value of this id, for diagnostics.
    pub fn as_u64(self) -> (raw: u64)
        ensures
            raw == self@,
    {
        self.0
    }

    /// The numeric value of this id written in decimal, e.g. `"42"`.
    pub fn to_string(&self) -> (s: String)
        ensures
            s@ == decimal_text(self@ as nat),
    {
        let mut s = String::new();
        append_decimal(&mut s, self.0);
        s
    }
}

/// Counter that issues the ids of one registry: `1`, `2`, `3`, ...
pub struct HandlerIdGenerator {
    next: u64,
}

impl HandlerIdGenerator {
    /// The value that the next call of [`HandlerIdGenerator::next`] returns.
    pub closed spec fn upcoming(&self) -> u64 {
        self.next
    }

    /// A generator whose first id is `1`.
    pub fn new() -> (g: Self)
        ensures
            g.upcoming() == 1,
    {
        HandlerIdGenerator { next: 1 }
    }

    /// `true` once every id up to `u64::MAX - 1` has been issued.
    pub fn is_exhausted(&self) -> (b: bool)
        ensures
            b == (self.upcoming() == u64::MAX),
    {
        self.next == u64::MAX
    }

    /// The value the next call of [`HandlerIdGenerator::next`] will return.
    pub fn peek(&self) -> (id: HandlerId)
        ensures
            id@ == self.upcoming(),
    {
        HandlerId(self.next)
    }

    /// A second generator that continues from where this one stands.
    pub(crate) fn resume(&self) -> (g: Self)
        ensures
            g.upcoming() == self.upcoming(),
    {
        HandlerIdGenerator { next: self.next }
    }

    /// Issues the next id; each call returns one more than the previous.
    pub fn next(&mut self) -> (id: HandlerId)
        requires
            old(self).upcoming() < u64::MAX,
        ensures
            id@ == old(self).upcoming(),
            final(self).upcoming() == old(self).upcoming() + 1,
    {
        let id = HandlerId(self.next);
        self.next = self.next + 1;
        id
    }
}

} // verus!
