use vstd::prelude::*;
use vstd::string::*;
use std::collections::VecDeque;

verus! {

/// Number of four-sample columns in the chain reaction graph.
pub const CHAIN_GRAPH_LENGTH: usize = 10;
/// Samples kept for the chain reaction graph.
pub const CHAIN_HISTORY: usize = 40;

/// Adds a once-a-second sample to the chain reaction history, dropping the
/// oldest one first when `cap` samples are kept already.
pub fn record_sample<T>(graph: &mut VecDeque<T>, sample: T, cap: usize)
    ensures
        old(graph)@.len() >= cap && old(graph)@.len() > 0 ==> final(graph)@ == old(graph)@.drop_first().push(
            sample,
        ),
        !(old(graph)@.len() >= cap && old(graph)@.len() > 0) ==> final(graph)@ == old(graph)@.push(sample),
{
    if graph.len() >= cap {
        let _ = graph.pop_front();
    }
    graph.push_back(sample);
}

/// The decimal digit character for `d`.
pub open spec fn digit(d: int) -> char {
    if d == 0 {
        '0'
    } else if d == 1 {
        '1'
    } else if d == 2 {
        '2'
    } else if d == 3 {
        '3'
    } else if d == 4 {
        '4'
    } else if d == 5 {
        '5'
    } else if d == 6 {
        '6'
    } else if d == 7 {
        '7'
    } else if d == 8 {
        '8'
    } else {
        '9'
    }
}

/// Decimal digits of `n`, without leading zeros.
pub open spec fn decimal_nat(n: nat) -> Seq<char>
    decreases n,
{
    if n < 10 {
        seq![digit(n as int)]
    } else {
        decimal_nat(n / 10).push(digit((n % 10) as int))
    }
}

/// `n` written in decimal, with a minus sign when negative.
pub open spec fn decimal(n: int) -> Seq<char> {
    if n < 0 {
        seq!['-'] + decimal_nat((-n) as nat)
    } else {
        decimal_nat(n as nat)
    }
}

/// The chain reaction line: the percentage padded with zeros to three characters.
pub open spec fn chain_progress(n: int) -> Seq<char> {
    "Chain Reaction Progress "@ + Seq::new((3 - decimal(n).len()) as nat, |i: int| '0') + decimal(n)
        + " %"@
}

fn digit_str(d: u32) -> (s: &'static str)
    requires
        d < 10,
    ensures
        s@ == seq![digit(d as int)],
{
    proof {
        reveal_strlit("0");
        reveal_strlit("1");
        reveal_strlit("2");
        reveal_strlit("3");
        reveal_strlit("4");
        reveal_strlit("5");
        reveal_strlit("6");
        reveal_strlit("7");
        reveal_strlit("8");
        reveal_strlit("9");
    }
    match d {
        0 => "0",
        1 => "1",
        2 => "2",
        3 => "3",
        4 => "4",
        5 => "5",
        6 => "6",
        7 => "7",
        8 => "8",
        _ => "9",
    }
}

/// `n` written in decimal.
pub fn decimal_string(n: i32) -> (s: String)
    requires
        -99 <= n <= 999,
    ensures
        s@ == decimal(n as int),
        s@.len() <= 3,
{
    proof {
        reveal_strlit("-");
        reveal_with_fuel(decimal_nat, 3);
    }
    let mut s = String::new();
    let m: u32 = if n < 0 {
        s.append("-");
        (-n) as u32
    } else {
        n as u32
    };
    let ghost start = s@;
    if m >= 100 {
        s.append(digit_str(m / 100));
        s.append(digit_str((m / 10) % 10));
        s.append(digit_str(m % 10));
        assert(decimal_nat(m as nat) == seq![digit((m / 100) as int), digit(((m / 10) % 10) as int), digit((m % 10) as int)]);
    } else if m >= 10 {
        s.append(digit_str(m / 10));
        s.append(digit_str(m % 10));
        assert(decimal_nat(m as nat) == seq![digit((m / 10) as int), digit((m % 10) as int)]);
    } else {
        s.append(digit_str(m));
    }
    assert(s@ =~= start + decimal_nat(m as nat));
    s
}

/// The chain reaction line for the whole percentage `percent`.
pub fn chain_progress_text(percent: i32) -> (s: String)
    requires
        -99 <= percent <= 999,
    ensures
        s@ == chain_progress(percent as int),
{
    let num = decimal_string(percent);
    let len = num.as_str().unicode_len();
    let mut text = "Chain Reaction Progress ".to_owned();
    let ghost head = text@;
    let mut i: usize = len;
    proof {
        reveal_strlit("0");
    }
    while i < 3
        invariant
            len <= i <= 3,
            len == num@.len(),
            text@ == head + Seq::new((i - len) as nat, |k: int| '0'),
        decreases 3 - i,
    {
        proof {
            reveal_strlit("0");
        }
        text.append("0");
        assert(text@ =~= head + Seq::new((i + 1 - len) as nat, |k: int| '0'));
        i += 1;
    }
    text.append(num.as_str());
    text.append(" %");
    assert(text@ =~= chain_progress(percent as int));
    text
}

/// The progress line always has the same width: the number takes exactly
/// three characters, padded with zeros in front.
pub proof fn lemma_progress_width(n: int)
    requires
        -99 <= n <= 999,
    ensures
        decimal(n).len() <= 3,
        chain_progress(n).len() == 29,
{
    reveal_with_fuel(decimal_nat, 3);
    reveal_strlit("Chain Reaction Progress ");
    reveal_strlit(" %");
    if n < 0 {
        assert(decimal_nat((-n) as nat).len() <= 2);
    }
}

/// Where sample `idx` of the history goes in the graph: its column and its
/// place in the column.
pub fn graph_slot(idx: usize) -> (r: (usize, usize))
    requires
        idx < CHAIN_HISTORY,
    ensures
        r.0 < CHAIN_GRAPH_LENGTH,
        r.1 < 4,
        r.0 * 4 + r.1 == idx,
{
    (idx / 4, idx % 4)
}

/// A history holding at most `cap` samples still does after a new sample is
/// recorded, and its newest sample is the one just recorded.
pub proof fn lemma_history_bounded<T>(history: Seq<T>, sample: T, cap: nat)
    requires
        0 < cap,
        history.len() <= cap,
    ensures
        ({
            let next = if history.len() >= cap && history.len() > 0 {
                history.drop_first().push(sample)
            } else {
                history.push(sample)
            };
            next.len() <= cap && next.last() == sample
        }),
{
}

/// The numeric value of a string of decimal digits, each character `c`
/// standing for its distance from `'0'`.
pub open spec fn digits_value(s: Seq<char>) -> int
    decreases s.len(),
{
    if s.len() == 0 {
        0
    } else {
        digits_value(s.drop_last()) * 10 + ((s.last() as int) - ('0' as int))
    }
}

/// The digit character for `d` is the `d`-th character after `'0'`.
pub proof fn lemma_digit_code(d: int)
    requires
        0 <= d < 10,
    ensures
        digit(d) as int == ('0' as int) + d,
{
}

/// The decimal text of a number, read back digit by digit, gives the number.
pub proof fn lemma_decimal_reads_back(n: nat)
    ensures
        digits_value(decimal_nat(n)) == n,
    decreases n,
{
    let s = decimal_nat(n);
    if n < 10 {
        lemma_digit_code(n as int);
        assert(s.drop_last() =~= Seq::<char>::empty());
        assert(digits_value(s.drop_last()) == 0);
        assert(s.last() == digit(n as int));
    } else {
        lemma_decimal_reads_back(n / 10);
        lemma_digit_code((n % 10) as int);
        assert(s.drop_last() == decimal_nat(n / 10));
        assert(s.last() == digit((n % 10) as int));
        assert((n / 10) * 10 + n % 10 == n) by (nonlinear_arith);
    }
}

proof fn lemma_zeros_value(z: Seq<char>)
    requires
        forall|i: int| 0 <= i < z.len() ==> z[i] == '0',
    ensures
        digits_value(z) == 0,
    decreases z.len(),
{
    if z.len() > 0 {
        lemma_zeros_value(z.drop_last());
    }
}

proof fn lemma_leading_zeros(z: Seq<char>, d: Seq<char>)
    requires
        forall|i: int| 0 <= i < z.len() ==> z[i] == '0',
    ensures
        digits_value(z + d) == digits_value(d),
    decreases d.len(),
{
    if d.len() == 0 {
        assert(z + d =~= z);
        lemma_zeros_value(z);
    } else {
        lemma_leading_zeros(z, d.drop_last());
        assert((z + d).drop_last() =~= z + d.drop_last());
        assert((z + d).last() == d.last());
    }
}

/// The progress line reads back as the percentage: for `0 ..= 999` the three
/// characters after the label, zeros in front included, give the number, and
/// the line ends in `" %"`.
pub proof fn lemma_progress_reads_back(n: int)
    requires
        0 <= n <= 999,
    ensures
        chain_progress(n).subrange(0, 24) == "Chain Reaction Progress "@,
        digits_value(chain_progress(n).subrange(24, 27)) == n,
        chain_progress(n).subrange(27, 29) == " %"@,
{
    lemma_progress_width(n);
    reveal_strlit("Chain Reaction Progress ");
    reveal_strlit(" %");
    let p = "Chain Reaction Progress "@;
    let d = decimal(n);
    let z = Seq::new((3 - d.len()) as nat, |i: int| '0');
    let q = " %"@;
    let line = p + z + d + q;
    assert(chain_progress(n) == line);
    assert(line.subrange(0, 24) =~= p);
    assert(line.subrange(24, 27) =~= z + d);
    assert(line.subrange(27, 29) =~= q);
    lemma_leading_zeros(z, d);
    lemma_decimal_reads_back(n as nat);
}

} // verus!
