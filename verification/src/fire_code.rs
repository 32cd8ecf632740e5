//! The codes by which fires are known.
//!
//! A fire that starts on its own gets a number of six digits. A fire that
//! splits off another gets the code of that fire with a letter behind it.

use vstd::prelude::*;
use vstd::string::StringSliceAdditionalSpecFns;
use vstd::utf8::is_ascii_chars;

verus! {

/// The largest number that six digits write.
pub const MAX_FIRE_NUMBER: u32 = 999_999;

/// The number of letters that a child fire can get.
pub const MAX_CHILDREN: u32 = 26;

/// Why no code could be given.
#[derive(Clone, Copy, Debug, PartialEq, Eq, Structural)]
pub enum SatFireError {
    /// The numbers of six digits are used up.
    TooManyFires,
}

impl SatFireError {
    /// The error in words.
    pub fn message(&self) -> (r: &'static str)
        ensures
            r@ == "Too many fires for satfire"@,
    {
        "Too many fires for satfire"
    }
}

/// The digit that writes `d`, for `d` below ten.
pub open spec fn digit_char(d: int) -> char {
    (48 + d) as char
}

/// The six digits that write `n`, with zeros in front.
pub open spec fn six_digits(n: int) -> Seq<char> {
    seq![
        digit_char(n / 100000 % 10),
        digit_char(n / 10000 % 10),
        digit_char(n / 1000 % 10),
        digit_char(n / 100 % 10),
        digit_char(n / 10 % 10),
        digit_char(n % 10),
    ]
}

/// The letter of the child with number `child_num`: `A` for 0, `B` for 1, and
/// so on.
pub open spec fn child_letter(child_num: u32) -> char {
    (65 + child_num) as char
}

/// Calls `String::push`, which appends the character to the end of the
/// string.
#[verifier::external_body]
fn push_char(text: &mut String, c: char)
    ensures
        final(text)@ == old(text)@.push(c),
{
    text.push(c)
}

/// The code of a fire.
#[derive(Debug, PartialEq, Eq, PartialOrd, Ord)]
pub struct FireCode(String);

impl View for FireCode {
    type V = Seq<char>;

    closed spec fn view(&self) -> Seq<char> {
        self.0@
    }
}

impl Clone for FireCode {
    fn clone(&self) -> (r: FireCode)
        ensures
            r@ == self@,
    {
        proof {
            use_type_invariant(self);
        }
        FireCode(self.0.clone())
    }
}

impl FireCode {
    #[verifier::type_invariant]
    spec fn well_formed(self) -> bool {
        self.0@.len() >= 6 && is_ascii_chars(self.0@)
    }

    /// The code of the fire with number `number` that started on its own.
    pub fn from_number(number: u32) -> (r: Result<FireCode, SatFireError>)
        ensures
            match r {
                Ok(code) => number <= MAX_FIRE_NUMBER && code@ == six_digits(number as int),
                Err(e) => number > MAX_FIRE_NUMBER && e == SatFireError::TooManyFires,
            },
    {
        if number > MAX_FIRE_NUMBER {
            return Err(SatFireError::TooManyFires);
        }
        let mut text = String::new();
        push_char(&mut text, ((48 + number / 100000 % 10) as u8) as char);
        push_char(&mut text, ((48 + number / 10000 % 10) as u8) as char);
        push_char(&mut text, ((48 + number / 1000 % 10) as u8) as char);
        push_char(&mut text, ((48 + number / 100 % 10) as u8) as char);
        push_char(&mut text, ((48 + number / 10 % 10) as u8) as char);
        push_char(&mut text, ((48 + number % 10) as u8) as char);
        assert(text@ =~= six_digits(number as int));
        Ok(FireCode(text))
    }

    /// The code of the child with number `child_num` of this fire.
    pub fn make_child_fire(&self, child_num: u32) -> (r: FireCode)
        requires
            child_num < MAX_CHILDREN,
        ensures
            r@ == self@.push(child_letter(child_num)),
    {
        proof {
            use_type_invariant(self);
        }
        let mut text = self.0.clone();
        push_char(&mut text, ((65 + child_num) as u8) as char);
        FireCode(text)
    }

    /// The number of generations that the code tells of: one for the six
    /// digits, and one more for every two characters behind them.
    pub fn num_generations(&self) -> (r: usize)
        ensures
            r == (self@.len() - 6) / 2 + 1,
    {
        let text = self.0.as_str();
        proof {
            use_type_invariant(self);
            vstd::utf8::is_ascii_chars_encode_utf8(text@);
            assert(text.spec_bytes().len() == text@.len());
        }
        let len = text.as_bytes().len();
        (len - 6) / 2 + 1
    }

    /// The code as a string.
    pub fn clone_string(&self) -> (r: String)
        ensures
            r@ == self@,
    {
        self.0.clone()
    }
}

/// The number that the next fire to start on its own will get.
#[derive(Clone, Copy, Debug, PartialEq, Eq, Structural)]
pub struct FireDataNextNewFireState {
    pub next_id_num: u32,
}

impl FireDataNextNewFireState {
    /// Gives the next code and moves on by one, also where the numbers of six
    /// digits are used up and an error is given.
    pub fn get_next_fire_id(&mut self) -> (r: Result<FireCode, SatFireError>)
        requires
            old(self).next_id_num < u32::MAX,
        ensures
            final(self).next_id_num == old(self).next_id_num + 1,
            match r {
                Ok(code) => old(self).next_id_num <= MAX_FIRE_NUMBER && code@ == six_digits(
                    old(self).next_id_num as int,
                ),
                Err(e) => old(self).next_id_num > MAX_FIRE_NUMBER && e
                    == SatFireError::TooManyFires,
            },
    {
        let number = self.next_id_num;
        self.next_id_num += 1;
        FireCode::from_number(number)
    }
}

} // verus!
