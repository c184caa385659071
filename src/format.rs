//! Text for the size and date columns.
use vstd::prelude::*;

verus! {

/// The decimal digit character for `d`, which is below ten.
pub open spec fn digit_char(d: nat) -> char {
    ((48 + d) as u8) as char
}

/// The decimal representation of `n`, without leading zeros.
pub open spec fn decimal(n: nat) -> Seq<char>
    decreases n,
{
    if n < 10 {
        seq![digit_char(n)]
    } else {
        decimal(n / 10).push(digit_char(n % 10))
    }
}

/// `s` with a comma before each group of three characters counted from the
/// right, the leftmost group excepted.
pub open spec fn group_thousands(s: Seq<char>) -> Seq<char>
    decreases s.len(),
{
    if s.len() <= 3 {
        s
    } else {
        group_thousands(s.take(s.len() - 3)) + seq![','] + s.skip(s.len() - 3)
    }
}

/// `decimal(n)` with leading zeros up to `width` characters.
pub open spec fn zero_padded(n: nat, width: nat) -> Seq<char> {
    if decimal(n).len() < width {
        Seq::new((width - decimal(n).len()) as nat, |i: int| '0') + decimal(n)
    } else {
        decimal(n)
    }
}

/// Number of kilobytes (1024 bytes) that `bytes` takes, rounded up.
pub open spec fn kilobytes(bytes: nat) -> nat {
    ((bytes + 1023) / 1024) as nat
}

/// The size column's text: empty for zero, else the rounded-up kilobytes with
/// thousands separators and a unit.
pub open spec fn size_text(bytes: nat) -> Seq<char> {
    if bytes == 0 {
        Seq::empty()
    } else {
        group_thousands(decimal(kilobytes(bytes))) + seq![' ', 'K', 'B']
    }
}

/// A calendar date and time of day, as a conversion from a file time gives it.
#[derive(Clone, Copy, Debug, PartialEq, Eq, Structural)]
pub struct CalendarTime {
    pub year: u16,
    pub month: u16,
    pub day: u16,
    pub hour: u16,
    pub minute: u16,
}

/// `YYYY-MM-DD HH:MM`, each field zero-padded to its width.
pub open spec fn date_text(t: CalendarTime) -> Seq<char> {
    zero_padded(t.year as nat, 4) + seq!['-'] + zero_padded(t.month as nat, 2) + seq!['-']
        + zero_padded(t.day as nat, 2) + seq![' '] + zero_padded(t.hour as nat, 2) + seq![':']
        + zero_padded(t.minute as nat, 2)
}

/// Appends the characters of `digits` to `s`.
pub(crate) fn push_all(s: &mut String, digits: &Vec<char>)
    ensures
        final(s)@ == old(s)@ + digits@,
{
    let mut i: usize = 0;
    while i < digits.len()
        invariant
            i <= digits@.len(),
            s@ == old(s)@ + digits@.take(i as int),
        decreases digits@.len() - i,
    {
        s.push(digits[i]);
        i = i + 1;
        assert(s@ =~= old(s)@ + digits@.take(i as int));
    }
    assert(digits@.take(digits@.len() as int) =~= digits@);
}

/// The decimal digits of `n`.
pub(crate) fn decimal_digits(n: u64) -> (r: Vec<char>)
    ensures
        r@ == decimal(n as nat),
    decreases n,
{
    let digit = ((n % 10) as u8 + 48) as char;
    if n < 10 {
        vec![digit]
    } else {
        let mut r = decimal_digits(n / 10);
        r.push(digit);
        r
    }
}

/// `digits[..end]` with thousands separators.
fn grouped(digits: &Vec<char>, end: usize) -> (r: String)
    requires
        end <= digits@.len(),
    ensures
        r@ == group_thousands(digits@.take(end as int)),
    decreases end,
{
    let ghost s = digits@.take(end as int);
    if end <= 3 {
        let mut r = String::new();
        let mut i: usize = 0;
        while i < end
            invariant
                i <= end <= digits@.len(),
                r@ == digits@.take(i as int),
            decreases end - i,
        {
            r.push(digits[i]);
            i = i + 1;
            assert(r@ =~= digits@.take(i as int));
        }
        r
    } else {
        let mut r = grouped(digits, end - 3);
        r.push(',');
        let ghost head = r@;
        let start: usize = end - 3;
        let mut i: usize = start;
        proof {
            assert(s.take(s.len() - 3) =~= digits@.take(start as int));
            assert(head == group_thousands(s.take(s.len() - 3)) + seq![',']);
        }
        while i < end
            invariant
                start <= i <= end <= digits@.len(),
                r@ == head + digits@.subrange(start as int, i as int),
            decreases end - i,
        {
            r.push(digits[i]);
            i = i + 1;
            assert(r@ =~= head + digits@.subrange(start as int, i as int));
        }
        assert(s.skip(s.len() - 3) =~= digits@.subrange(start as int, end as int));
        r
    }
}

/// `n` in decimal with a comma between groups of three digits.
pub fn format_with_commas(n: u64) -> (r: String)
    ensures
        r@ == group_thousands(decimal(n as nat)),
{
    let digits = decimal_digits(n);
    proof {
        assert(digits@.take(digits@.len() as int) =~= digits@);
    }
    grouped(&digits, digits.len())
}

/// The size column's text for a file of `bytes` bytes.
pub fn format_size(bytes: u64) -> (r: String)
    ensures
        r@ == size_text(bytes as nat),
{
    if bytes == 0 {
        return String::new();
    }
    let kb = bytes / 1024 + if bytes % 1024 == 0 {
        0
    } else {
        1
    };
    assert(kb as nat == kilobytes(bytes as nat));
    let mut r = format_with_commas(kb);
    r.push(' ');
    r.push('K');
    r.push('B');
    proof {
        assert(r@ =~= size_text(bytes as nat));
    }
    r
}

/// Appends `n` to `s`, zero-padded to `width` characters.
fn push_padded(s: &mut String, n: u16, width: usize)
    ensures
        final(s)@ == old(s)@ + zero_padded(n as nat, width as nat),
{
    let digits = decimal_digits(n as u64);
    let mut pad: usize = 0;
    let zeros: usize = if digits.len() < width {
        width - digits.len()
    } else {
        0
    };
    while pad < zeros
        invariant
            pad <= zeros,
            s@ == old(s)@ + Seq::new(pad as nat, |i: int| '0'),
        decreases zeros - pad,
    {
        s.push('0');
        pad = pad + 1;
        assert(s@ =~= old(s)@ + Seq::new(pad as nat, |i: int| '0'));
    }
    let ghost padded = s@;
    push_all(s, &digits);
    proof {
        assert(s@ == padded + digits@);
        assert(s@ =~= old(s)@ + zero_padded(n as nat, width as nat));
    }
}

/// The date column's text: empty for a zero file time or when no calendar
/// time could be had for it, else `YYYY-MM-DD HH:MM`.
pub fn format_date(filetime: u64, time: Option<CalendarTime>) -> (r: String)
    ensures
        filetime == 0 ==> r@.len() == 0,
        filetime != 0 ==> r@ == match time {
            Some(t) => date_text(t),
            None => Seq::empty(),
        },
{
    if filetime == 0 {
        return String::new();
    }
    match time {
        Some(t) => {
            let mut r = String::new();
            push_padded(&mut r, t.year, 4);
            r.push('-');
            push_padded(&mut r, t.month, 2);
            r.push('-');
            push_padded(&mut r, t.day, 2);
            r.push(' ');
            push_padded(&mut r, t.hour, 2);
            r.push(':');
            push_padded(&mut r, t.minute, 2);
            proof {
                assert(r@ =~= date_text(t));
            }
            r
        },
        None => String::new(),
    }
}

} // verus!
