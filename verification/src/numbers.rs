//! Decimal numbers as text, written and read back.

use vstd::prelude::*;
use vstd::slice::slice_subrange;

use crate::text::string_of;

verus! {

/// Why a text is not a number.
#[derive(Clone, Copy, Debug, PartialEq, Eq, Structural)]
pub enum NumberFault {
    /// There is nothing to read.
    Empty,
    /// A character is not a decimal digit.
    InvalidDigit,
    /// The number exceeds the largest machine word.
    TooLarge,
}

/// Whether `c` is an ASCII decimal digit.
pub open spec fn is_digit(c: char) -> bool {
    '0' <= c <= '9'
}

/// The value of an ASCII decimal digit.
pub open spec fn digit_value(c: char) -> nat {
    (c as u32 - '0' as u32) as nat
}

/// The digit with the given value.
pub open spec fn digit_char(d: nat) -> char {
    ('0' as u32 + d) as char
}

/// The decimal digits of `n`, without leading zeros.
pub open spec fn decimal(n: nat) -> Seq<char>
    decreases n,
{
    if n < 10 {
        seq![digit_char(n)]
    } else {
        decimal(n / 10).push(digit_char(n % 10))
    }
}

/// The number that a run of decimal digits denotes.
pub open spec fn decimal_value(s: Seq<char>) -> nat
    decreases s.len(),
{
    if s.len() == 0 {
        0
    } else {
        10 * decimal_value(s.drop_last()) + digit_value(s.last())
    }
}

/// How many decimal digits `s` begins with.
pub open spec fn leading_digits(s: Seq<char>) -> nat
    decreases s.len(),
{
    if s.len() > 0 && is_digit(s.first()) {
        1 + leading_digits(s.drop_first())
    } else {
        0
    }
}

/// `s` without the plus sign that may stand before the digits.
pub open spec fn unsigned_part(s: Seq<char>) -> Seq<char> {
    if s.len() > 1 && s.first() == '+' {
        s.drop_first()
    } else {
        s
    }
}

/// What `s` denotes as a number: an optional plus sign and decimal digits, of a value that a
/// machine word holds. The first thing that is wrong, read from the left, is the fault.
pub open spec fn number(s: Seq<char>) -> Result<nat, NumberFault> {
    let digits = unsigned_part(s);
    let run = leading_digits(digits);
    if s.len() == 0 {
        Err(NumberFault::Empty)
    } else if decimal_value(digits.take(run as int)) > usize::MAX {
        Err(NumberFault::TooLarge)
    } else if run < digits.len() {
        Err(NumberFault::InvalidDigit)
    } else {
        Ok(decimal_value(digits))
    }
}

/// The words that describe a fault.
pub open spec fn fault_text(fault: NumberFault) -> Seq<char> {
    match fault {
        NumberFault::Empty => "cannot parse integer from empty string"@,
        NumberFault::InvalidDigit => "invalid digit found in string"@,
        NumberFault::TooLarge => "number too large to fit in target type"@,
    }
}

impl NumberFault {
    /// The words that describe the fault.
    pub fn describe(self) -> (text: String)
        ensures
            text@ == fault_text(self),
    {
        match self {
            NumberFault::Empty => "cannot parse integer from empty string".to_owned(),
            NumberFault::InvalidDigit => "invalid digit found in string".to_owned(),
            NumberFault::TooLarge => "number too large to fit in target type".to_owned(),
        }
    }
}

/// A run of digits ends where the first other character stands.
proof fn lemma_leading_digits(s: Seq<char>, run: int)
    requires
        0 <= run <= s.len(),
        forall|i: int| 0 <= i < run ==> is_digit(s[i]),
        run < s.len() ==> !is_digit(s[run]),
    ensures
        leading_digits(s) == run,
    decreases s.len(),
{
    if run > 0 {
        lemma_leading_digits(s.drop_first(), run - 1);
    }
}

/// The leading digits are digits.
proof fn lemma_leading_digits_are_digits(s: Seq<char>)
    ensures
        leading_digits(s) <= s.len(),
        forall|i: int| 0 <= i < leading_digits(s) ==> is_digit(#[trigger] s[i]),
    decreases s.len(),
{
    if s.len() > 0 && is_digit(s.first()) {
        let t = s.drop_first();
        lemma_leading_digits_are_digits(t);
        assert forall|i: int| 0 <= i < leading_digits(s) implies is_digit(#[trigger] s[i]) by {
            if i > 0 {
                assert(s[i] == t[i - 1]);
            }
        }
    }
}

/// More digits never denote a smaller number.
proof fn lemma_value_grows(s: Seq<char>, i: int, j: int)
    requires
        0 <= i <= j <= s.len(),
    ensures
        decimal_value(s.take(i)) <= decimal_value(s.take(j)),
    decreases j - i,
{
    if i < j {
        lemma_value_grows(s, i, j - 1);
        assert(s.take(j).drop_last() == s.take(j - 1));
    }
}

/// Reads a number: an optional plus sign and decimal digits.
pub fn read_number(s: &[char]) -> (r: Result<usize, NumberFault>)
    ensures
        match r {
            Ok(n) => number(s@) == Ok::<nat, NumberFault>(n as nat),
            Err(fault) => number(s@) == Err::<nat, NumberFault>(fault),
        },
{
    if s.len() == 0 {
        return Err(NumberFault::Empty);
    }
    let signed: bool = s.len() > 1 && s[0] == '+';
    let digits: &[char] = if signed {
        slice_subrange(s, 1, s.len())
    } else {
        s
    };
    assert(digits@ == unsigned_part(s@));
    let mut n: usize = 0;
    let mut i: usize = 0;
    assert(digits@.take(0) == Seq::<char>::empty());
    while i < digits.len()
        invariant
            s.len() > 0,
            digits@ == unsigned_part(s@),
            i <= digits.len(),
            n == decimal_value(digits@.take(i as int)),
            forall|k: int| 0 <= k < i ==> is_digit(digits@[k]),
        decreases digits.len() - i,
    {
        let c: char = digits[i];
        if !('0' <= c && c <= '9') {
            proof {
                lemma_leading_digits(digits@, i as int);
            }
            return Err(NumberFault::InvalidDigit);
        }
        let d: usize = (c as u32 - '0' as u32) as usize;
        assert(digits@.take(i + 1).drop_last() == digits@.take(i as int));
        assert(decimal_value(digits@.take(i + 1)) == 10 * n + d);
        if n > usize::MAX / 10 || 10 * n > usize::MAX - d {
            proof {
                lemma_leading_digits_are_digits(digits@);
                let run = leading_digits(digits@);
                if run < i + 1 {
                    assert(is_digit(digits@[run as int]));
                    lemma_run_is_maximal(digits@);
                }
                lemma_value_grows(digits@, i + 1, run as int);
            }
            return Err(NumberFault::TooLarge);
        }
        n = 10 * n + d;
        i += 1;
    }
    proof {
        lemma_leading_digits(digits@, i as int);
        assert(digits@.take(i as int) == digits@);
    }
    Ok(n)
}

/// The character after the leading digits, if there is one, is not a digit.
proof fn lemma_run_is_maximal(s: Seq<char>)
    ensures
        leading_digits(s) < s.len() ==> !is_digit(s[leading_digits(s) as int]),
    decreases s.len(),
{
    if s.len() > 0 && is_digit(s.first()) {
        lemma_run_is_maximal(s.drop_first());
    }
}

/// Writes a number in decimal.
pub fn write_number(n: u64) -> (text: String)
    ensures
        text@ == decimal(n as nat),
{
    let mut digits: Vec<char> = Vec::new();
    let mut rest: u64 = n;
    while rest >= 10
        invariant
            decimal(n as nat) == decimal(rest as nat) + digits@.reverse(),
        decreases rest,
    {
        let ghost before: Seq<char> = digits@;
        let d: char = ((rest % 10) as u8 + 48) as char;
        digits.push(d);
        assert(d == digit_char((rest % 10) as nat));
        assert(digits@.reverse() == seq![d] + before.reverse());
        assert(decimal(rest as nat) + before.reverse() == decimal((rest / 10) as nat) + (seq![d]
            + before.reverse()));
        rest = rest / 10;
    }
    let ghost before: Seq<char> = digits@;
    let d: char = (rest as u8 + 48) as char;
    digits.push(d);
    assert(digits@.reverse() == seq![d] + before.reverse());
    let mut out: Vec<char> = Vec::new();
    let mut i: usize = digits.len();
    while 0 < i
        invariant
            i <= digits.len(),
            out@ == digits@.reverse().take(digits.len() - i),
        decreases i,
    {
        i -= 1;
        out.push(digits[i]);
        assert(digits@.reverse().take(digits.len() - i) == digits@.reverse().take(
            digits.len() - i - 1,
        ).push(digits@[i as int]));
    }
    assert(out@ == digits@.reverse());
    string_of(out.as_slice())
}

/// The digits of a number denote it.
pub proof fn law_decimal_denotes_the_number(n: nat)
    ensures
        decimal(n).len() > 0,
        forall|i: int| 0 <= i < decimal(n).len() ==> is_digit(#[trigger] decimal(n)[i]),
        decimal_value(decimal(n)) == n,
    decreases n,
{
    if n < 10 {
        assert(decimal(n).drop_last() == Seq::<char>::empty());
        assert(decimal_value(Seq::<char>::empty()) == 0);
    } else {
        law_decimal_denotes_the_number(n / 10);
        let s = decimal(n);
        assert(s.drop_last() == decimal(n / 10));
        assert forall|i: int| 0 <= i < s.len() implies is_digit(#[trigger] s[i]) by {
            if i < s.len() - 1 {
                assert(s[i] == decimal(n / 10)[i]);
            }
        }
    }
}

/// A number that was written in decimal reads back as itself.
pub proof fn law_number_round_trip(n: nat)
    requires
        n <= usize::MAX,
    ensures
        number(decimal(n)) == Ok::<nat, NumberFault>(n),
{
    law_decimal_denotes_the_number(n);
    let s = decimal(n);
    assert(is_digit(s[0]));
    assert(unsigned_part(s) == s);
    lemma_leading_digits(s, s.len() as int);
    assert(s.take(s.len() as int) == s);
}

/// As many zeros as given.
pub open spec fn all_zeros(count: nat) -> Seq<char> {
    Seq::new(count, |i: int| '0')
}

/// A zero before the digits does not change the number.
proof fn lemma_leading_zero(s: Seq<char>)
    ensures
        decimal_value(seq!['0'] + s) == decimal_value(s),
    decreases s.len(),
{
    let t = seq!['0'] + s;
    if s.len() == 0 {
        assert(t.drop_last() == Seq::<char>::empty());
        assert(decimal_value(t.drop_last()) == 0);
    } else {
        assert(t.drop_last() == seq!['0'] + s.drop_last());
        lemma_leading_zero(s.drop_last());
    }
}

/// Digits without a leading zero are those of the number that they denote.
proof fn lemma_digits_are_decimal(s: Seq<char>)
    requires
        s.len() > 0,
        forall|i: int| 0 <= i < s.len() ==> is_digit(#[trigger] s[i]),
        s.len() == 1 || s[0] != '0',
    ensures
        decimal(decimal_value(s)) == s,
        decimal_value(s) == 0 ==> s == seq!['0'],
    decreases s.len(),
{
    let front = s.drop_last();
    let d = digit_value(s.last());
    assert(is_digit(s[s.len() - 1]));
    assert(d < 10 && digit_char(d) == s.last());
    if s.len() == 1 {
        assert(front == Seq::<char>::empty());
        assert(decimal_value(front) == 0);
        assert(s == seq![s.last()]);
    } else {
        assert forall|i: int| 0 <= i < front.len() implies is_digit(#[trigger] front[i]) by {
            assert(front[i] == s[i]);
        }
        lemma_digits_are_decimal(front);
        assert(front[0] == s[0]);
        let n = decimal_value(front);
        assert(n > 0);
        assert(decimal_value(s) == 10 * n + d);
        assert((10 * n + d) / 10 == n && (10 * n + d) % 10 == d);
        assert(front.push(s.last()) == s);
    }
}

/// What a text denotes as a number: zeros and the decimal digits of the number, with or without a
/// plus sign before them, denote it, if a machine word holds it, and are too large otherwise.
pub proof fn law_zeros_and_digits_denote_the_number(zeros: nat, n: nat)
    ensures
        ({
            let digits = all_zeros(zeros) + decimal(n);
            let meant = if n <= usize::MAX {
                Ok::<nat, NumberFault>(n)
            } else {
                Err(NumberFault::TooLarge)
            };
            number(digits) == meant && number(seq!['+'] + digits) == meant
        }),
{
    let digits = all_zeros(zeros) + decimal(n);
    law_decimal_denotes_the_number(n);
    lemma_zeros(zeros, decimal(n));
    assert forall|i: int| 0 <= i < digits.len() implies is_digit(digits[i]) by {
        if i >= zeros {
            assert(digits[i] == decimal(n)[i - zeros]);
        }
    }
    assert(is_digit(digits[0]));
    lemma_leading_digits(digits, digits.len() as int);
    assert(digits.take(digits.len() as int) == digits);
    assert(unsigned_part(digits) == digits);
    assert((seq!['+'] + digits).drop_first() == digits);
    assert(unsigned_part(seq!['+'] + digits) == digits);
}

proof fn lemma_zeros(zeros: nat, s: Seq<char>)
    ensures
        decimal_value(all_zeros(zeros) + s) == decimal_value(s),
    decreases zeros,
{
    let t = all_zeros(zeros) + s;
    if zeros == 0 {
        assert(t == s);
    } else {
        let fewer = all_zeros((zeros - 1) as nat) + s;
        lemma_zeros((zeros - 1) as nat, s);
        lemma_leading_zero(fewer);
        assert(t == seq!['0'] + fewer);
    }
}

/// How many zeros the digits of a number begin with.
proof fn lemma_split_zeros(s: Seq<char>) -> (zeros: nat)
    requires
        s.len() > 0,
        forall|i: int| 0 <= i < s.len() ==> is_digit(#[trigger] s[i]),
    ensures
        s == all_zeros(zeros) + decimal(decimal_value(s)),
    decreases s.len(),
{
    if s.len() > 1 && s[0] == '0' {
        let rest = s.drop_first();
        assert forall|i: int| 0 <= i < rest.len() implies is_digit(#[trigger] rest[i]) by {
            assert(rest[i] == s[i + 1]);
        }
        let fewer = lemma_split_zeros(rest);
        assert(s == seq!['0'] + rest);
        lemma_leading_zero(rest);
        assert(s == all_zeros(fewer + 1) + decimal(decimal_value(s)));
        fewer + 1
    } else {
        lemma_digits_are_decimal(s);
        assert(s == all_zeros(0) + decimal(decimal_value(s)));
        0
    }
}

/// Nothing but zeros and the decimal digits of a number denotes it, with or without a plus sign.
pub proof fn law_nothing_else_denotes_a_number(s: Seq<char>)
    requires
        number(s) is Ok,
    ensures
        number(s)->Ok_0 <= usize::MAX,
        exists|zeros: nat|
            {
                ||| s == #[trigger] all_zeros(zeros) + decimal(number(s)->Ok_0)
                ||| s == seq!['+'] + (all_zeros(zeros) + decimal(number(s)->Ok_0))
            },
{
    let digits = unsigned_part(s);
    lemma_leading_digits_are_digits(digits);
    assert(digits.take(digits.len() as int) == digits);
    assert(digits.take(leading_digits(digits) as int) == digits);
    let zeros = lemma_split_zeros(digits);
    if digits != s {
        assert(s == seq!['+'] + digits);
    }
    assert(digits == all_zeros(zeros) + decimal(number(s)->Ok_0));
}

/// Where something other than a digit follows the digits of a number, that is the fault, unless the
/// number is too large before it; an empty text has the fault of being empty, and a lone sign that
/// of not being a digit.
pub proof fn law_faults_of_numbers(zeros: nat, n: nat, c: char, rest: Seq<char>)
    requires
        !is_digit(c),
    ensures
        number(Seq::empty()) == Err::<nat, NumberFault>(NumberFault::Empty),
        number(seq!['+']) == Err::<nat, NumberFault>(NumberFault::InvalidDigit),
        c != '+' ==> number(seq![c] + rest) == Err::<nat, NumberFault>(NumberFault::InvalidDigit),
        number(all_zeros(zeros) + decimal(n) + seq![c] + rest) == Err::<nat, NumberFault>(
            if n <= usize::MAX {
                NumberFault::InvalidDigit
            } else {
                NumberFault::TooLarge
            },
        ),
{
    assert(decimal_value(Seq::<char>::empty()) == 0);
    assert(seq!['+'].take(0) == Seq::<char>::empty());
    lemma_leading_digits(seq!['+'], 0);
    let other = seq![c] + rest;
    assert(other[0] == c);
    lemma_leading_digits(other, 0);
    assert(other.take(0) == Seq::<char>::empty());
    let digits = all_zeros(zeros) + decimal(n);
    let s = digits + seq![c] + rest;
    law_decimal_denotes_the_number(n);
    lemma_zeros(zeros, decimal(n));
    assert forall|i: int| 0 <= i < digits.len() implies is_digit(s[i]) by {
        if i >= zeros {
            assert(s[i] == decimal(n)[i - zeros]);
        }
    }
    assert(is_digit(s[0]));
    assert(unsigned_part(s) == s);
    assert(s[digits.len() as int] == c);
    lemma_leading_digits(s, digits.len() as int);
    assert(s.take(digits.len() as int) == digits);
}

/// One more digit makes a number ten times as large and adds the value of the digit.
pub proof fn law_one_more_digit(s: Seq<char>, c: char)
    requires
        '0' <= c <= '9',
    ensures
        decimal_value(Seq::empty()) == 0,
        decimal_value(s.push(c)) == 10 * decimal_value(s) + (c as int - '0' as int),
{
    assert(s.push(c).drop_last() == s);
}

/// A number is written in digits from `0` to `9`, without a zero before them.
pub proof fn law_numbers_are_written_without_leading_zeros(n: nat)
    ensures
        decimal(n).len() > 0,
        forall|i: int| 0 <= i < decimal(n).len() ==> '0' <= #[trigger] decimal(n)[i] <= '9',
        decimal(n).len() > 1 ==> decimal(n)[0] != '0',
    decreases n,
{
    law_decimal_denotes_the_number(n);
    assert forall|i: int| 0 <= i < decimal(n).len() implies '0' <= #[trigger] decimal(n)[i]
        <= '9' by {
        assert(is_digit(decimal(n)[i]));
    }
    if n >= 10 {
        law_numbers_are_written_without_leading_zeros(n / 10);
        law_decimal_denotes_the_number(n / 10);
        assert(decimal(n)[0] == decimal(n / 10)[0]);
        if n < 100 {
            assert(decimal(n / 10) == seq![digit_char(n / 10)]);
        } else {
            assert(decimal(n / 10) == decimal(n / 10 / 10).push(digit_char(n / 10 % 10)));
            law_decimal_denotes_the_number(n / 10 / 10);
        }
    }
}

} // verus!
