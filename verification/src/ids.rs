//! Record identifiers: 128-bit UUID values.
use vstd::prelude::*;
use uuid::Uuid;

verus! {

pub open spec fn hex_char(n: nat) -> char {
    if n < 10 {
        (('0' as int) + n) as char
    } else {
        (('a' as int) + n - 10) as char
    }
}

/// The last `count` hexadecimal digits of `v`, most significant first, in lower case.
pub open spec fn hex_digits(v: nat, count: nat) -> Seq<char>
    decreases count,
{
    if count == 0 {
        seq![]
    } else {
        hex_digits(v / 16, (count - 1) as nat).push(hex_char(v % 16))
    }
}

/// The hyphenated lower-case text of a UUID: 8-4-4-4-12 hexadecimal digits.
pub open spec fn uuid_text(id: u128) -> Seq<char> {
    let h = hex_digits(id as nat, 32);
    h.subrange(0, 8) + seq!['-'] + h.subrange(8, 12) + seq!['-'] + h.subrange(12, 16) + seq!['-']
        + h.subrange(16, 20) + seq!['-'] + h.subrange(20, 32)
}

/// A fresh identifier drawn by `uuid::Uuid::new_v4`, as its 128-bit value. It is
/// random, so nothing is stated of it.
#[verifier::external_body]
pub(crate) fn new_id() -> u128 {
    Uuid::new_v4().as_u128()
}

/// The text that `uuid::Uuid`'s `Display` writes for the identifier with this
/// 128-bit value; uuid documents it as the hyphenated lower-case form.
#[verifier::external_body]
pub(crate) fn id_text(id: u128) -> (r: String)
    ensures
        r@ == uuid_text(id),
{
    Uuid::from_u128(id).to_string()
}

/// The identifiers drawn so far for new rows, in the order they were drawn. It
/// holds nothing at run time: it lets a contract speak of the identifier that an
/// operation drew.
pub struct IdLog {
    drawn: Ghost<Seq<u128>>,
}

impl IdLog {
    /// The identifiers drawn so far, oldest first.
    pub closed spec fn drawn(&self) -> Seq<u128> {
        self.drawn@
    }

    /// A log of no draws.
    pub fn new() -> (r: IdLog)
        ensures
            r.drawn() == Seq::<u128>::empty(),
    {
        IdLog { drawn: Ghost(Seq::empty()) }
    }

    /// Draws a fresh identifier with `new_id` and logs it.
    pub fn draw(&mut self) -> (id: u128)
        ensures
            final(self).drawn() == old(self).drawn().push(id),
    {
        let id = new_id();
        self.drawn = Ghost(self.drawn@.push(id));
        id
    }
}

} // verus!
