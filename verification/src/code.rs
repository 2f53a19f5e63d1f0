//! Session codes: six characters over the alphabet `A`–`Z`, `0`–`9`.
//!
//! A code is held as its index in the enumeration of all codes, so that two
//! codes are equal exactly when their indices are. The text form is the
//! base-36 expansion of the index, most significant digit first.

use rand::Rng;
use vstd::prelude::*;
use vstd::string::*;

verus! {

/// Number of characters of a code.
pub const CODE_LEN: usize = 6;

/// Number of symbols a code character is drawn from.
pub const ALPHABET_LEN: u32 = 36;

/// Number of distinct codes: 36 to the sixth power.
pub const CODE_SPACE: u32 = 2_176_782_336;

/// The symbol that stands for digit `d`: letters first, then decimal digits.
pub open spec fn digit_char(d: int) -> char {
    if d < 26 {
        (('A' as int) + d) as char
    } else {
        (('0' as int) + d - 26) as char
    }
}

/// The digit a character stands for, letters read without regard to case;
/// `None` for a character outside the alphabet.
pub open spec fn char_digit(c: char) -> Option<int> {
    if 'A' <= c <= 'Z' {
        Some(c as int - 'A' as int)
    } else if 'a' <= c <= 'z' {
        Some(c as int - 'a' as int)
    } else if '0' <= c <= '9' {
        Some(c as int - '0' as int + 26)
    } else {
        None
    }
}

/// The six base-36 digits of `index`, most significant first.
pub open spec fn digits_of(index: int) -> Seq<int> {
    seq![
        (index / 60_466_176) % 36,
        (index / 1_679_616) % 36,
        (index / 46_656) % 36,
        (index / 1_296) % 36,
        (index / 36) % 36,
        index % 36,
    ]
}

/// The index whose base-36 digits are `d`.
pub open spec fn value_of(d: Seq<int>) -> int {
    ((((d[0] * 36 + d[1]) * 36 + d[2]) * 36 + d[3]) * 36 + d[4]) * 36 + d[5]
}

/// The text of the code with the given index.
pub open spec fn code_text(index: int) -> Seq<char> {
    digits_of(index).map_values(|d: int| digit_char(d))
}

/// Whether `text` is six characters of the alphabet, in either case.
pub open spec fn is_code_text(text: Seq<char>) -> bool {
    &&& text.len() == 6
    &&& forall|i: int| 0 <= i < 6 ==> (#[trigger] char_digit(text[i])).is_some()
}

/// Whether `text` is a code as it is generated: six upper-case characters.
pub open spec fn is_canonical_text(text: Seq<char>) -> bool {
    &&& text.len() == 6
    &&& forall|i: int|
        #![trigger text[i]]
        0 <= i < 6 ==> ('A' <= text[i] <= 'Z' || '0' <= text[i] <= '9')
}

/// The index that `text` denotes, if it is a code.
pub open spec fn parse_text(text: Seq<char>) -> Option<int> {
    if is_code_text(text) {
        Some(value_of(text.map_values(|c: char| char_digit(c).unwrap())))
    } else {
        None
    }
}

/// A session code.
#[derive(Clone, Copy, Debug, PartialEq, Eq, Structural)]
pub struct SessionCode {
    index: u32,
}

impl View for SessionCode {
    type V = int;

    open spec fn view(&self) -> int {
        self.index() as int
    }
}

impl SessionCode {
    /// The code's place in the enumeration of all codes.
    pub closed spec fn index(&self) -> u32 {
        self.index
    }

    /// Every code lies inside the code space.
    pub open spec fn wf(&self) -> bool {
        self.index() < CODE_SPACE
    }

    /// The code with the given index, if there is one.
    pub fn from_index(index: u32) -> (r: Option<SessionCode>)
        ensures
            index < CODE_SPACE ==> r.is_some() && r.unwrap()@ == index && r.unwrap().wf(),
            index >= CODE_SPACE ==> r.is_none(),
    {
        if index < CODE_SPACE {
            Some(SessionCode { index })
        } else {
            None
        }
    }

    /// The code's index.
    pub fn to_index(&self) -> (r: u32)
        ensures
            r == self@,
    {
        self.index
    }
}

impl SessionCode {
    /// The code's text: six upper-case characters.
    pub fn to_text(&self) -> (r: String)
        requires
            self.wf(),
        ensures
            r@ == code_text(self@),
    {
        let n: u32 = self.index;
        let mut r = String::new();
        r.push(symbol(((n / 60_466_176) % 36) as u8));
        r.push(symbol(((n / 1_679_616) % 36) as u8));
        r.push(symbol(((n / 46_656) % 36) as u8));
        r.push(symbol(((n / 1_296) % 36) as u8));
        r.push(symbol(((n / 36) % 36) as u8));
        r.push(symbol((n % 36) as u8));
        assert(r@ =~= code_text(self@));
        r
    }

    /// Reads a code from text, letters in either case. Text that is not six
    /// characters of the alphabet denotes no code.
    pub fn from_text(text: &str) -> (r: Option<SessionCode>)
        ensures
            r.is_some() == parse_text(text@).is_some(),
            r matches Some(c) ==> c@ == parse_text(text@).unwrap() && c.wf(),
    {
        if text.unicode_len() != 6 {
            return None;
        }
        let d0 = digit(text.get_char(0));
        let d1 = digit(text.get_char(1));
        let d2 = digit(text.get_char(2));
        let d3 = digit(text.get_char(3));
        let d4 = digit(text.get_char(4));
        let d5 = digit(text.get_char(5));
        match (d0, d1, d2, d3, d4, d5) {
            (Some(a), Some(b), Some(c), Some(d), Some(e), Some(f)) => {
                let a: u32 = a as u32;
                let index: u32 = ((((a * 36 + b as u32) * 36 + c as u32) * 36 + d as u32) * 36
                    + e as u32) * 36 + f as u32;
                assert(is_code_text(text@));
                Some(SessionCode { index })
            },
            _ => {
                assert(!is_code_text(text@));
                None
            },
        }
    }
}

/// Draws a number below `bound` from the thread's random generator
/// (`rand::Rng::gen_range` on `rand::thread_rng()` with the range
/// `0..bound`). The draw lies in the range; nothing else is known of it.
#[verifier::external_body]
fn random_below(bound: usize) -> (r: usize)
    requires
        bound > 0,
    ensures
        r < bound,
{
    rand::thread_rng().gen_range(0..bound)
}

/// A random access code: six characters, each drawn from the alphabet.
pub fn generate_access_code() -> (r: String)
    ensures
        is_canonical_text(r@),
{
    let mut r = String::new();
    let mut i: usize = 0;
    while i < CODE_LEN
        invariant
            i <= CODE_LEN,
            r@.len() == i,
            forall|j: int|
                #![trigger r@[j]]
                0 <= j < i ==> ('A' <= r@[j] <= 'Z' || '0' <= r@[j] <= '9'),
        decreases CODE_LEN - i,
    {
        let d: usize = random_below(36);
        let c: char = symbol(d as u8);
        proof {
            lemma_digit_char_roundtrip(d as int);
        }
        r.push(c);
        i += 1;
    }
    r
}

/// The symbol of a digit.
pub fn symbol(d: u8) -> (c: char)
    requires
        d < 36,
    ensures
        c == digit_char(d as int),
{
    if d < 26 {
        (65u8 + d) as char
    } else {
        (48u8 + (d - 26)) as char
    }
}

/// The digit of a symbol, letters read in either case.
pub fn digit(c: char) -> (r: Option<u8>)
    ensures
        r.is_some() == char_digit(c).is_some(),
        r matches Some(d) ==> d < 36 && char_digit(c) == Some(d as int),
{
    if 'A' <= c && c <= 'Z' {
        Some((c as u32 - 65) as u8)
    } else if 'a' <= c && c <= 'z' {
        Some((c as u32 - 97) as u8)
    } else if '0' <= c && c <= '9' {
        Some((c as u32 - 48 + 26) as u8)
    } else {
        None
    }
}

/// Writing a code's index as digits and reading them back gives the index.
pub proof fn lemma_value_of_digits(index: int)
    requires
        0 <= index < CODE_SPACE,
    ensures
        value_of(digits_of(index)) == index,
        forall|i: int| 0 <= i < 6 ==> 0 <= #[trigger] digits_of(index)[i] < 36,
{
}

/// A digit's symbol stands for that digit.
pub proof fn lemma_digit_char_roundtrip(d: int)
    requires
        0 <= d < 36,
    ensures
        char_digit(digit_char(d)) == Some(d),
        'A' <= digit_char(d) <= 'Z' || '0' <= digit_char(d) <= '9',
{
}

/// A code's text is canonical, and reading it gives the code back.
pub proof fn lemma_text_roundtrip(index: int)
    requires
        0 <= index < CODE_SPACE,
    ensures
        is_canonical_text(code_text(index)),
        parse_text(code_text(index)) == Some(index),
{
    let t = code_text(index);
    let ds = digits_of(index);
    lemma_value_of_digits(index);
    assert forall|i: int| 0 <= i < 6 implies char_digit(#[trigger] t[i]) == Some(ds[i]) && ('A'
        <= t[i] <= 'Z' || '0' <= t[i] <= '9') by {
        lemma_digit_char_roundtrip(ds[i]);
    }
    assert(is_code_text(t));
    assert(t.map_values(|c: char| char_digit(c).unwrap()) =~= ds);
}

/// Text that denotes a code and the code's own text denote the same code.
pub proof fn lemma_text_roundtrip_of_parsed(text: Seq<char>)
    requires
        parse_text(text).is_some(),
    ensures
        0 <= parse_text(text).unwrap() < CODE_SPACE,
        parse_text(code_text(parse_text(text).unwrap())) == parse_text(text),
{
    let d = text.map_values(|c: char| char_digit(c).unwrap());
    assert forall|i: int| 0 <= i < 6 implies 0 <= #[trigger] d[i] < 36 by {
        assert(char_digit(text[i]).is_some());
    }
    lemma_digits_of_value(d);
    lemma_text_roundtrip(parse_text(text).unwrap());
}

/// Reading digits as an index and writing the index out gives the digits.
pub proof fn lemma_digits_of_value(d: Seq<int>)
    requires
        d.len() == 6,
        forall|i: int| 0 <= i < 6 ==> 0 <= #[trigger] d[i] < 36,
    ensures
        0 <= value_of(d) < CODE_SPACE,
        digits_of(value_of(d)) == d,
{
    let v1 = d[0] * 36 + d[1];
    let v2 = v1 * 36 + d[2];
    let v3 = v2 * 36 + d[3];
    let v4 = v3 * 36 + d[4];
    let v5 = v4 * 36 + d[5];
    assert(0 <= d[0] < 36 && 0 <= d[1] < 36 && 0 <= d[2] < 36);
    assert(0 <= d[3] < 36 && 0 <= d[4] < 36 && 0 <= d[5] < 36);
    assert(v5 % 36 == d[5] && v5 / 36 == v4);
    assert(v4 % 36 == d[4] && v4 / 36 == v3);
    assert(v3 % 36 == d[3] && v3 / 36 == v2);
    assert(v2 % 36 == d[2] && v2 / 36 == v1);
    assert(v1 % 36 == d[1] && v1 / 36 == d[0]);
    assert(v5 / 1_296 == v3) by {
        assert(v5 / 1_296 == (v5 / 36) / 36);
    }
    assert(v5 / 46_656 == v2) by {
        assert(v5 / 46_656 == (v5 / 1_296) / 36);
    }
    assert(v5 / 1_679_616 == v1) by {
        assert(v5 / 1_679_616 == (v5 / 46_656) / 36);
    }
    assert(v5 / 60_466_176 == d[0]) by {
        assert(v5 / 60_466_176 == (v5 / 1_679_616) / 36);
    }
    assert(d[0] % 36 == d[0]);
    assert(digits_of(value_of(d)) =~= d);
}

/// Two canonical texts that denote the same code are equal.
pub proof fn lemma_parse_text_injective(a: Seq<char>, b: Seq<char>)
    requires
        is_canonical_text(a),
        is_canonical_text(b),
        parse_text(a).is_some(),
        parse_text(a) == parse_text(b),
    ensures
        a == b,
{
    let da = a.map_values(|c: char| char_digit(c).unwrap());
    let db = b.map_values(|c: char| char_digit(c).unwrap());
    assert(is_code_text(a) && is_code_text(b));
    assert forall|i: int| 0 <= i < 6 implies 0 <= #[trigger] da[i] < 36 by {
        assert(char_digit(a[i]).is_some());
    }
    assert forall|i: int| 0 <= i < 6 implies 0 <= #[trigger] db[i] < 36 by {
        assert(char_digit(b[i]).is_some());
    }
    lemma_digits_of_value(da);
    lemma_digits_of_value(db);
    assert(da == db);
    assert forall|i: int| 0 <= i < 6 implies a[i] == b[i] by {
        assert(da[i] == db[i]);
        assert('A' <= a[i] <= 'Z' || '0' <= a[i] <= '9');
        assert('A' <= b[i] <= 'Z' || '0' <= b[i] <= '9');
    }
    assert(a =~= b);
}

} // verus!
