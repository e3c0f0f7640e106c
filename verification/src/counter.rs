//! The click counter of the example application: the count and the text its
//! label shows.
use vstd::prelude::*;
use crate::network::push_char;

verus! {

/// The character of a decimal digit.
pub open spec fn digit_char(d: nat) -> char {
    if d == 0 { '0' }
    else if d == 1 { '1' }
    else if d == 2 { '2' }
    else if d == 3 { '3' }
    else if d == 4 { '4' }
    else if d == 5 { '5' }
    else if d == 6 { '6' }
    else if d == 7 { '7' }
    else if d == 8 { '8' }
    else { '9' }
}

/// `n` written in decimal, without leading zeros.
pub open spec fn decimal(n: nat) -> Seq<char>
    decreases n,
{
    if n < 10 {
        seq![digit_char(n)]
    } else {
        decimal(n / 10).push(digit_char(n % 10))
    }
}

fn digit(d: usize) -> (c: char)
    requires
        d < 10,
    ensures
        c == digit_char(d as nat),
        c as int == '0' as int + d,
{
    match d {
        0 => '0',
        1 => '1',
        2 => '2',
        3 => '3',
        4 => '4',
        5 => '5',
        6 => '6',
        7 => '7',
        8 => '8',
        _ => '9',
    }
}

/// Appends `n` in decimal to `out`.
pub fn push_decimal(out: &mut String, n: usize)
    ensures
        final(out)@ == old(out)@ + decimal(n as nat),
        numeral_value(final(out)@.subrange(old(out)@.len() as int, final(out)@.len() as int)) == n,
        is_numeral(final(out)@.subrange(old(out)@.len() as int, final(out)@.len() as int)),
    decreases n,
{
    if n >= 10 {
        push_decimal(out, n / 10);
    }
    push_char(out, digit(n % 10));
    proof {
        if n < 10 {
            assert(n % 10 == n);
        }
        law_decimal_reads_back(n as nat);
        assert(final(out)@.subrange(old(out)@.len() as int, final(out)@.len() as int) =~= decimal(n as nat));
    }
}

/// The label text for a count: `Counter: ` and the count in decimal.
pub open spec fn counter_label(n: nat) -> Seq<char> {
    seq!['C', 'o', 'u', 'n', 't', 'e', 'r', ':', ' '] + decimal(n)
}

/// A count of clicks.
pub struct Counter {
    pub count: usize,
}

impl Counter {
    /// No clicks yet.
    pub fn new() -> (r: Counter)
        ensures
            r.count == 0,
    {
        Counter { count: 0 }
    }

    /// Counts a click and gives the label text for the new count.
    pub fn click(&mut self) -> (label: String)
        requires
            old(self).count < usize::MAX,
        ensures
            final(self).count == old(self).count + 1,
            label@ == counter_label(final(self).count as nat),
    {
        self.count = self.count + 1;
        let mut label = "Counter: ".to_owned();
        proof {
            reveal_strlit("Counter: ");
        }
        push_decimal(&mut label, self.count);
        label
    }
}

/// The characters are all decimal digits, and there is at least one.
pub open spec fn is_numeral(s: Seq<char>) -> bool {
    s.len() > 0 && forall|i: int| 0 <= i < s.len() ==> '0' <= #[trigger] s[i] <= '9'
}

/// The number a string of decimal digits denotes, most significant first.
pub open spec fn numeral_value(s: Seq<char>) -> int
    decreases s.len(),
{
    if s.len() == 0 {
        0
    } else {
        numeral_value(s.drop_last()) * 10 + (s.last() as int - '0' as int)
    }
}

/// Each digit's character is the one that many places after `'0'`.
pub proof fn law_digit_char_code(d: nat)
    requires
        d < 10,
    ensures
        digit_char(d) as int == '0' as int + d,
{
}

/// A number written in decimal is a string of digits that reads back as the
/// number, and it starts with a nonzero digit unless the number is zero.
pub proof fn law_decimal_reads_back(n: nat)
    ensures
        is_numeral(decimal(n)),
        numeral_value(decimal(n)) == n,
        n > 0 ==> decimal(n)[0] != '0',
    decreases n,
{
    if n < 10 {
        law_digit_char_code(n);
        assert(decimal(n).drop_last() =~= Seq::<char>::empty());
        assert(numeral_value(Seq::<char>::empty()) == 0);
        assert(numeral_value(decimal(n)) == numeral_value(decimal(n).drop_last()) * 10 + (decimal(n).last() as int - '0' as int));
    } else {
        law_decimal_reads_back(n / 10);
        law_digit_char_code(n % 10);
        let s = decimal(n);
        assert(s.drop_last() == decimal(n / 10));
        assert(n == (n / 10) * 10 + n % 10);
        assert(s.last() == digit_char(n % 10));
        assert(numeral_value(s) == numeral_value(s.drop_last()) * 10 + (s.last() as int - '0' as int));
        assert forall|i: int| 0 <= i < s.len() implies '0' <= #[trigger] s[i] <= '9' by {
            if i < s.len() - 1 {
                assert(s[i] == decimal(n / 10)[i]);
            }
        }
        assert(s[0] == decimal(n / 10)[0]);
    }
}

/// The label shows the count: after `Counter: ` comes a string of digits
/// that reads back as the count.
pub proof fn law_label_reads_back(n: nat)
    ensures
        counter_label(n).subrange(0, 9) == seq!['C', 'o', 'u', 'n', 't', 'e', 'r', ':', ' '],
        is_numeral(counter_label(n).subrange(9, counter_label(n).len() as int)),
        numeral_value(counter_label(n).subrange(9, counter_label(n).len() as int)) == n,
{
    law_decimal_reads_back(n);
    assert(counter_label(n).subrange(0, 9) =~= seq!['C', 'o', 'u', 'n', 't', 'e', 'r', ':', ' ']);
    assert(counter_label(n).subrange(9, counter_label(n).len() as int) =~= decimal(n));
}

} // verus!
