//! Rendering of raw counters as text.

use vstd::prelude::*;
use vstd::string::*;

verus! {

/// The character that separates groups of three digits.
pub open spec fn separator() -> char {
    ','
}

/// The character for one decimal digit.
pub open spec fn digit_char(d: nat) -> char {
    if d == 0 {
        '0'
    } else if d == 1 {
        '1'
    } else if d == 2 {
        '2'
    } else if d == 3 {
        '3'
    } else if d == 4 {
        '4'
    } else if d == 5 {
        '5'
    } else if d == 6 {
        '6'
    } else if d == 7 {
        '7'
    } else if d == 8 {
        '8'
    } else {
        '9'
    }
}

/// The decimal representation of `n`, without leading zeros.
pub open spec fn decimal(n: nat) -> Seq<char>
    decreases n,
{
    if n < 10 {
        seq![digit_char(n)]
    } else {
        decimal(n / 10).push(digit_char(n % 10))
    }
}

/// The three digits of `n % 1000`, with leading zeros.
pub open spec fn three_digits(n: nat) -> Seq<char> {
    seq![digit_char(n / 100 % 10), digit_char(n / 10 % 10), digit_char(n % 10)]
}

/// The decimal representation of `n` with a separator before every
/// complete group of three digits, counted from the right.
pub open spec fn grouped(n: nat) -> Seq<char>
    decreases n,
{
    if n < 1000 {
        decimal(n)
    } else {
        grouped(n / 1000).push(separator()) + three_digits(n % 1000)
    }
}

/// Holds of every character but the separator.
pub open spec fn is_digit_place() -> spec_fn(char) -> bool {
    |c: char| c != separator()
}

/// From a thousand on, the decimal representation ends in the three digits
/// of the rest after division by a thousand.
pub proof fn lemma_decimal_ends_in_three_digits(n: nat)
    requires
        n >= 1000,
    ensures
        decimal(n) == decimal(n / 1000) + three_digits(n % 1000),
{
    reveal_with_fuel(decimal, 4);
    assert(n / 10 / 10 == n / 100 && n / 100 / 10 == n / 1000);
    assert(n % 1000 / 100 % 10 == n / 100 % 10);
    assert(n % 1000 / 10 % 10 == n / 10 % 10);
    assert(n % 1000 % 10 == n % 10);
    assert(decimal(n) =~= decimal(n / 1000) + three_digits(n % 1000));
}

/// Grouping only adds separators: without them, the grouped representation
/// is the decimal representation.
pub proof fn lemma_grouped_without_separators(n: nat)
    ensures
        grouped(n).filter(is_digit_place()) == decimal(n),
    decreases n,
{
    let keep = is_digit_place();
    if n < 1000 {
        lemma_decimal_has_no_separator(n);
        lemma_filter_keeps_digits(decimal(n));
    } else {
        let head = grouped(n / 1000);
        let tail = three_digits(n % 1000);
        lemma_grouped_without_separators(n / 1000);
        head.lemma_filter_push(separator(), keep);
        Seq::filter_distributes_over_add(head.push(separator()), tail, keep);
        lemma_filter_keeps_digits(tail);
        lemma_decimal_ends_in_three_digits(n);
    }
}

/// Grouping adds one separator for every three digits that follow the
/// first digit.
pub proof fn lemma_grouped_length(n: nat)
    ensures
        grouped(n).len() == decimal(n).len() + (decimal(n).len() - 1) / 3,
    decreases n,
{
    lemma_decimal_length(n);
    if n >= 1000 {
        lemma_grouped_length(n / 1000);
        lemma_decimal_length(n / 1000);
        lemma_decimal_ends_in_three_digits(n);
        let short = decimal(n / 1000).len() as int;
        assert(decimal(n).len() == short + 3);
        assert(grouped(n).len() == grouped(n / 1000).len() + 4);
        assert((short + 2) / 3 == (short - 1) / 3 + 1);
    } else {
        reveal_with_fuel(decimal, 4);
        assert(decimal(n).len() <= 3);
    }
}

proof fn lemma_decimal_length(n: nat)
    ensures
        decimal(n).len() >= 1,
    decreases n,
{
    if n >= 10 {
        lemma_decimal_length(n / 10);
    }
}

proof fn lemma_decimal_has_no_separator(n: nat)
    ensures
        forall|i: int| 0 <= i < decimal(n).len() ==> #[trigger] decimal(n)[i] != separator(),
    decreases n,
{
    if n >= 10 {
        lemma_decimal_has_no_separator(n / 10);
        assert forall|i: int| 0 <= i < decimal(n).len() implies #[trigger] decimal(n)[i]
            != separator() by {
            if i < decimal(n / 10).len() {
                assert(decimal(n)[i] == decimal(n / 10)[i]);
            }
        }
    }
}

proof fn lemma_filter_keeps_digits(text: Seq<char>)
    requires
        forall|i: int| 0 <= i < text.len() ==> #[trigger] text[i] != separator(),
    ensures
        text.filter(is_digit_place()) == text,
    decreases text.len(),
{
    reveal(Seq::filter);
    if text.len() > 0 {
        lemma_filter_keeps_digits(text.drop_last());
        assert(text.drop_last().push(text.last()) =~= text);
    }
}

/// `tenths / 10` with one digit after the decimal point.
pub open spec fn one_decimal(tenths: nat) -> Seq<char> {
    decimal(tenths / 10).push('.').push(digit_char(tenths % 10))
}

fn digit_str(d: u64) -> (s: &'static str)
    requires
        d < 10,
    ensures
        s@ == seq![digit_char(d as nat)],
{
    proof {
        reveal_strlit("0");
        reveal_strlit("1");
        reveal_strlit("2");
        reveal_strlit("3");
        reveal_strlit("4");
        reveal_strlit("5");
        reveal_strlit("6");
        reveal_strlit("7");
        reveal_strlit("8");
        reveal_strlit("9");
    }
    let s = if d == 0 {
        "0"
    } else if d == 1 {
        "1"
    } else if d == 2 {
        "2"
    } else if d == 3 {
        "3"
    } else if d == 4 {
        "4"
    } else if d == 5 {
        "5"
    } else if d == 6 {
        "6"
    } else if d == 7 {
        "7"
    } else if d == 8 {
        "8"
    } else {
        "9"
    };
    assert(s@ =~= seq![digit_char(d as nat)]);
    s
}

/// Appends the decimal representation of `n` to `out`.
pub fn push_decimal(out: &mut String, n: u64)
    ensures
        final(out)@ == old(out)@ + decimal(n as nat),
    decreases n,
{
    if n >= 10 {
        push_decimal(out, n / 10);
    }
    out.append(digit_str(n % 10));
    assert(out@ =~= old(out)@ + decimal(n as nat));
}

/// Appends the grouped representation of `n` to `out`.
pub fn push_grouped(out: &mut String, n: u64)
    ensures
        final(out)@ == old(out)@ + grouped(n as nat),
    decreases n,
{
    if n >= 1000 {
        push_grouped(out, n / 1000);
        proof {
            reveal_strlit(",");
        }
        out.append(",");
        let low: u64 = n % 1000;
        out.append(digit_str(low / 100 % 10));
        out.append(digit_str(low / 10 % 10));
        out.append(digit_str(low % 10));
        assert(out@ =~= old(out)@ + grouped(n as nat));
    } else {
        push_decimal(out, n);
    }
}

/// Renders `value` in decimal with thousands separators.
pub fn format_number(value: u64) -> (text: String)
    ensures
        text@ == grouped(value as nat),
{
    let mut text = String::new();
    push_grouped(&mut text, value);
    assert(text@ =~= grouped(value as nat));
    text
}

/// Renders a count of tenths with one digit after the decimal point.
pub fn format_one_decimal(tenths: u64) -> (text: String)
    ensures
        text@ == one_decimal(tenths as nat),
{
    let mut text = String::new();
    push_decimal(&mut text, tenths / 10);
    proof {
        reveal_strlit(".");
    }
    text.append(".");
    text.append(digit_str(tenths % 10));
    assert(text@ =~= one_decimal(tenths as nat));
    text
}

/// The unit in which an amount of memory is shown, chosen by the total:
/// `0` for kilobytes, then megabytes, gigabytes and terabytes.
pub open spec fn usage_scale(total_kb: nat) -> nat {
    if total_kb < 100_000 {
        0
    } else if total_kb < 10_000_000 {
        1
    } else if total_kb < 10_000_000_000 {
        2
    } else {
        3
    }
}

/// How many kilobytes make one unit of `scale`.
pub open spec fn usage_divisor(scale: nat) -> nat {
    if scale == 0 {
        1
    } else if scale == 1 {
        1_000
    } else if scale == 2 {
        1_000_000
    } else {
        1_000_000_000
    }
}

/// The name of the unit of `scale`.
pub open spec fn usage_unit(scale: nat) -> Seq<char> {
    if scale == 0 {
        seq!['K', 'B']
    } else if scale == 1 {
        seq!['M', 'B']
    } else if scale == 2 {
        seq!['G', 'B']
    } else {
        seq!['T', 'B']
    }
}

/// "used / total" followed by the unit, both amounts in the unit that the
/// total calls for and rounded down.
pub open spec fn usage_text(used_kb: nat, total_kb: nat) -> Seq<char> {
    let scale = usage_scale(total_kb);
    decimal(used_kb / usage_divisor(scale)) + seq![' ', '/', ' '] + decimal(
        total_kb / usage_divisor(scale),
    ) + usage_unit(scale)
}

/// Renders how much of an amount of memory is used.
pub fn format_usage(used_kb: u64, total_kb: u64) -> (text: String)
    ensures
        text@ == usage_text(used_kb as nat, total_kb as nat),
{
    proof {
        reveal_strlit(" / ");
        reveal_strlit("KB");
        reveal_strlit("MB");
        reveal_strlit("GB");
        reveal_strlit("TB");
    }
    let mut text = String::new();
    if total_kb < 100_000 {
        push_decimal(&mut text, used_kb);
        text.append(" / ");
        push_decimal(&mut text, total_kb);
        text.append("KB");
    } else if total_kb < 10_000_000 {
        push_decimal(&mut text, used_kb / 1_000);
        text.append(" / ");
        push_decimal(&mut text, total_kb / 1_000);
        text.append("MB");
    } else if total_kb < 10_000_000_000 {
        push_decimal(&mut text, used_kb / 1_000_000);
        text.append(" / ");
        push_decimal(&mut text, total_kb / 1_000_000);
        text.append("GB");
    } else {
        push_decimal(&mut text, used_kb / 1_000_000_000);
        text.append(" / ");
        push_decimal(&mut text, total_kb / 1_000_000_000);
        text.append("TB");
    }
    assert(text@ =~= usage_text(used_kb as nat, total_kb as nat));
    text
}

/// `hundredths / 100` with two digits after the decimal point.
pub open spec fn two_decimals(hundredths: nat) -> Seq<char> {
    decimal(hundredths / 100).push('.').push(digit_char(hundredths / 10 % 10)).push(
        digit_char(hundredths % 10),
    )
}

/// Renders a count of hundredths with two digits after the decimal point.
pub fn format_two_decimals(hundredths: u64) -> (text: String)
    ensures
        text@ == two_decimals(hundredths as nat),
{
    let mut text = String::new();
    push_decimal(&mut text, hundredths / 100);
    proof {
        reveal_strlit(".");
    }
    text.append(".");
    text.append(digit_str(hundredths / 10 % 10));
    text.append(digit_str(hundredths % 10));
    assert(text@ =~= two_decimals(hundredths as nat));
    text
}

/// A percentage with two digits after the decimal point and a percent
/// sign.
pub open spec fn precise_percent_text(hundredths: nat) -> Seq<char> {
    two_decimals(hundredths) + seq![' ', '%']
}

/// Renders a count of hundredths of a percent as a percentage.
pub fn format_precise_percent(hundredths: u64) -> (text: String)
    ensures
        text@ == precise_percent_text(hundredths as nat),
{
    let mut text = format_two_decimals(hundredths);
    proof {
        reveal_strlit(" %");
    }
    text.append(" %");
    assert(text@ =~= precise_percent_text(hundredths as nat));
    text
}

/// A percentage with one digit after the decimal point and a percent sign.
pub open spec fn percent_text(tenths: nat) -> Seq<char> {
    one_decimal(tenths) + seq![' ', '%']
}

/// Renders a count of tenths of a percent as a percentage.
pub fn format_percent(tenths: u64) -> (text: String)
    ensures
        text@ == percent_text(tenths as nat),
{
    let mut text = format_one_decimal(tenths);
    proof {
        reveal_strlit(" %");
    }
    text.append(" %");
    assert(text@ =~= percent_text(tenths as nat));
    text
}

} // verus!
