//! Rendering the final report: decimal numbers with exactly four fractional
//! digits, one row per account, header first.

use crate::accounts::Account;
use crate::accounts::AccountsCache;
use vstd::prelude::*;
use vstd::string::StrSliceExecFns;
use vstd::string::StringExecFns;

verus! {

/// The character for one decimal digit value.
pub open spec fn digit_char(d: int) -> char {
    (d + 48) as char
}

/// The decimal digits of a non-negative number, most significant first.
pub open spec fn dec_digits(n: nat) -> Seq<char>
    decreases n,
{
    if n < 10 {
        seq![digit_char(n as int)]
    } else {
        dec_digits(n / 10) + seq![digit_char((n % 10) as int)]
    }
}

/// Exactly four fractional digits for `f` in `0 .. 10000`, zero padded.
pub open spec fn frac_digits(f: int) -> Seq<char> {
    seq![
        digit_char(f / 1000 % 10),
        digit_char(f / 100 % 10),
        digit_char(f / 10 % 10),
        digit_char(f % 10),
    ]
}

/// A fixed-scale amount rendered as a decimal with exactly four fractional
/// digits: sign, integer part, dot, four digits of ten-thousandths.
pub open spec fn amount_chars(v: i64) -> Seq<char> {
    let m = if v < 0 {
        -(v as int)
    } else {
        v as int
    };
    let sign: Seq<char> = if v < 0 {
        "-"@
    } else {
        Seq::empty()
    };
    sign + dec_digits((m / 10000) as nat) + "."@ + frac_digits(m % 10000)
}

/// The lowercase words the lock flag is rendered as.
pub open spec fn bool_chars(b: bool) -> Seq<char> {
    if b {
        "true"@
    } else {
        "false"@
    }
}

/// One report row: client id and the three balances, comma separated, the
/// lock flag last, a newline closing the row.
pub open spec fn row_chars(a: Account) -> Seq<char> {
    dec_digits(a.client as nat) + ","@ + amount_chars(a.available) + ","@ + amount_chars(a.held)
        + ","@ + amount_chars(a.total) + ","@ + bool_chars(a.locked) + "\n"@
}

/// All rows of the ledger, in ledger order.
pub open spec fn rows_chars(s: Seq<Account>) -> Seq<char>
    decreases s.len(),
{
    if s.len() == 0 {
        Seq::empty()
    } else {
        rows_chars(s.drop_last()) + row_chars(s.last())
    }
}

/// The whole report: the header row, then one row per account.
pub open spec fn report_chars(s: Seq<Account>) -> Seq<char> {
    "client,available,held,total,locked\n"@ + rows_chars(s)
}

/// The one-character string for a decimal digit value.
fn digit_str(d: u8) -> (r: &'static str)
    requires
        d < 10,
    ensures
        r@ == seq![digit_char(d as int)],
{
    proof {
        reveal_strlit("0");
        reveal_strlit("1");
        reveal_strlit("2");
        reveal_strlit("3");
        reveal_strlit("4");
        reveal_strlit("5");
        reveal_strlit("6");
        reveal_strlit("7");
        reveal_strlit("8");
        reveal_strlit("9");
        assert("0"@ =~= seq![digit_char(0)]);
        assert("1"@ =~= seq![digit_char(1)]);
        assert("2"@ =~= seq![digit_char(2)]);
        assert("3"@ =~= seq![digit_char(3)]);
        assert("4"@ =~= seq![digit_char(4)]);
        assert("5"@ =~= seq![digit_char(5)]);
        assert("6"@ =~= seq![digit_char(6)]);
        assert("7"@ =~= seq![digit_char(7)]);
        assert("8"@ =~= seq![digit_char(8)]);
        assert("9"@ =~= seq![digit_char(9)]);
    }
    match d {
        0 => "0",
        1 => "1",
        2 => "2",
        3 => "3",
        4 => "4",
        5 => "5",
        6 => "6",
        7 => "7",
        8 => "8",
        _ => "9",
    }
}

/// Append the decimal digits of `n`.
fn push_uint(out: &mut String, n: u64)
    ensures
        final(out)@ == old(out)@ + dec_digits(n as nat),
    decreases n,
{
    if n < 10 {
        out.append(digit_str(n as u8));
    } else {
        push_uint(out, n / 10);
        out.append(digit_str((n % 10) as u8));
        assert(final(out)@ =~= old(out)@ + dec_digits(n as nat));
    }
}

/// Append an amount as a decimal with exactly four fractional digits.
fn push_amount(out: &mut String, v: i64)
    ensures
        final(out)@ == old(out)@ + amount_chars(v),
{
    let m: u64 = if v < 0 {
        out.append("-");
        (-(v as i128)) as u64
    } else {
        v as u64
    };
    push_uint(out, m / 10000);
    out.append(".");
    let f = m % 10000;
    out.append(digit_str((f / 1000 % 10) as u8));
    out.append(digit_str((f / 100 % 10) as u8));
    out.append(digit_str((f / 10 % 10) as u8));
    out.append(digit_str((f % 10) as u8));
    assert(final(out)@ =~= old(out)@ + amount_chars(v));
}

/// Append one account's report row.
fn push_row(out: &mut String, a: &Account)
    ensures
        final(out)@ == old(out)@ + row_chars(*a),
{
    push_uint(out, a.client as u64);
    out.append(",");
    push_amount(out, a.available);
    out.append(",");
    push_amount(out, a.held);
    out.append(",");
    push_amount(out, a.total);
    out.append(",");
    if a.locked {
        out.append("true");
    } else {
        out.append("false");
    }
    out.append("\n");
    assert(final(out)@ =~= old(out)@ + row_chars(*a));
}

/// Render the whole ledger: the header row, then one row per account in
/// ledger order, each row closed by a newline.
pub fn render_report(cache: &AccountsCache) -> (r: String)
    ensures
        r@ == report_chars(cache@),
{
    let mut out = String::new();
    out.append("client,available,held,total,locked\n");
    proof {
        assert(out@ =~= "client,available,held,total,locked\n"@ + rows_chars(cache@.take(0)));
    }
    let n = cache.len();
    let mut i: usize = 0;
    while i < n
        invariant
            n == cache@.len(),
            i <= n,
            out@ == "client,available,held,total,locked\n"@ + rows_chars(cache@.take(i as int)),
        decreases n - i,
    {
        let a = cache.account_at(i);
        push_row(&mut out, &a);
        proof {
            assert(cache@.take(i + 1 as int).drop_last() =~= cache@.take(i as int));
            assert(out@ =~= "client,available,held,total,locked\n"@ + rows_chars(
                cache@.take(i + 1 as int),
            ));
        }
        i = i + 1;
    }
    proof {
        assert(cache@.take(n as int) =~= cache@);
    }
    out
}

} // verus!
