//! Decoding input records: the comma-separated record grammar, written as
//! spec functions over character sequences, and the verified parsers.

use crate::transactions::Transaction;
use crate::transactions::TransactionType;
use vstd::prelude::*;
use vstd::string::StrSliceExecFns;

verus! {

/// Index of the first occurrence of `c` in `s`, or `-1` when absent.
pub open spec fn find_char(s: Seq<char>, c: char) -> int
    decreases s.len(),
{
    if s.len() == 0 {
        -1
    } else if s[0] == c {
        0
    } else {
        let r = find_char(s.drop_first(), c);
        if r < 0 {
            -1
        } else {
            r + 1
        }
    }
}

/// An index that is first for `c` is `find_char`.
pub proof fn lemma_find_char_is_first(s: Seq<char>, c: char, i: int)
    requires
        0 <= i < s.len(),
        s[i] == c,
        forall|j: int| 0 <= j < i ==> s[j] != c,
    ensures
        find_char(s, c) == i,
    decreases s.len(),
{
    if s[0] != c {
        lemma_find_char_is_first(s.drop_first(), c, i - 1);
    }
}

/// A character that does not occur has a negative index.
pub proof fn lemma_find_char_absent(s: Seq<char>, c: char)
    requires
        forall|j: int| 0 <= j < s.len() ==> s[j] != c,
    ensures
        find_char(s, c) < 0,
    decreases s.len(),
{
    if s.len() != 0 {
        lemma_find_char_absent(s.drop_first(), c);
    }
}

pub open spec fn is_digit(c: char) -> bool {
    '0' <= c && c <= '9'
}

/// The value of one decimal digit character.
pub open spec fn digit_val(c: char) -> int {
    c as int - 48
}

pub open spec fn all_digits(s: Seq<char>) -> bool {
    forall|i: int| 0 <= i < s.len() ==> is_digit(#[trigger] s[i])
}

/// The number the digit string denotes, most significant digit first.
pub open spec fn digits_val(s: Seq<char>) -> int
    decreases s.len(),
{
    if s.len() == 0 {
        0
    } else {
        digits_val(s.drop_last()) * 10 + digit_val(s.last())
    }
}

pub proof fn lemma_digits_val_nonneg(s: Seq<char>)
    requires
        all_digits(s),
    ensures
        digits_val(s) >= 0,
    decreases s.len(),
{
    if s.len() != 0 {
        assert(all_digits(s.drop_last()));
        lemma_digits_val_nonneg(s.drop_last());
    }
}

/// A digit string is worth at least any of its prefixes: appending digits
/// never shrinks the value.
pub proof fn lemma_digits_val_prefix(s: Seq<char>, i: int)
    requires
        all_digits(s),
        0 <= i <= s.len(),
    ensures
        digits_val(s.take(i)) <= digits_val(s),
    decreases s.len() - i,
{
    if i == s.len() {
        assert(s.take(i) =~= s);
    } else {
        assert(s.take(i + 1).drop_last() =~= s.take(i));
        assert(all_digits(s.take(i)));
        lemma_digits_val_nonneg(s.take(i));
        lemma_digits_val_prefix(s, i + 1);
    }
}

/// A numeric field: one or more decimal digits whose value is at most
/// `max`. Anything else (empty, non-digits, too large) is refused.
pub open spec fn digits_field(f: Seq<char>, max: int) -> Option<int> {
    if f.len() > 0 && all_digits(f) && digits_val(f) <= max {
        Some(digits_val(f))
    } else {
        None
    }
}

/// The scale factor that pads `l` fractional digits out to four.
pub open spec fn frac_scale(l: int) -> int {
    if l <= 0 {
        10000
    } else if l == 1 {
        1000
    } else if l == 2 {
        100
    } else if l == 3 {
        10
    } else {
        1
    }
}

/// An amount field: decimal digits with at most four fractional digits,
/// read as a count of ten-thousandths. The integer part, the dot and the
/// fractional part may each be absent, but at least one digit must be
/// there, and the scaled value must fit an `i64`.
pub open spec fn amount_field(f: Seq<char>) -> Option<i64> {
    let dot = find_char(f, '.');
    let ip = if dot < 0 {
        f
    } else {
        f.subrange(0, dot)
    };
    let fp = if dot < 0 {
        Seq::<char>::empty()
    } else {
        f.subrange(dot + 1, f.len() as int)
    };
    if all_digits(ip) && all_digits(fp) && fp.len() <= 4 && ip.len() + fp.len() >= 1 {
        let v = digits_val(ip) * 10000 + digits_val(fp) * frac_scale(fp.len() as int);
        if v <= i64::MAX {
            Some(v as i64)
        } else {
            None
        }
    } else {
        None
    }
}

/// The record kind named by a type field.
pub open spec fn kind_field(f: Seq<char>) -> Option<TransactionType> {
    if f == "deposit"@ {
        Some(TransactionType::Deposit)
    } else if f == "withdrawal"@ {
        Some(TransactionType::Withdrawal)
    } else if f == "dispute"@ {
        Some(TransactionType::Dispute)
    } else if f == "resolve"@ {
        Some(TransactionType::Resolve)
    } else if f == "chargeback"@ {
        Some(TransactionType::Chargeback)
    } else {
        None
    }
}

/// Assemble a record from its four decoded fields. A deposit or withdrawal
/// must carry an amount; for the dispute lifecycle the field may be empty,
/// and a present value is decoded but ignored by the engine.
pub open spec fn record_of(
    k: Option<TransactionType>,
    client: Option<int>,
    txid: Option<int>,
    f3: Seq<char>,
) -> Option<Transaction> {
    match (k, client, txid) {
        (Some(kind), Some(c), Some(t)) => {
            if f3.len() == 0 && !(kind is Deposit || kind is Withdrawal) {
                Some(
                    Transaction {
                        transaction_type: kind,
                        client_id: c as u16,
                        tx_id: t as u32,
                        amount: None,
                        disputed: false,
                    },
                )
            } else {
                match amount_field(f3) {
                    Some(v) => Some(
                        Transaction {
                            transaction_type: kind,
                            client_id: c as u16,
                            tx_id: t as u32,
                            amount: Some(v),
                            disputed: false,
                        },
                    ),
                    None => None,
                }
            }
        },
        _ => None,
    }
}

/// One data row: exactly four comma-separated fields, in the order type,
/// client, transaction id, amount.
pub open spec fn record_field_split(l: Seq<char>) -> Option<(Seq<char>, Seq<char>, Seq<char>, Seq<char>)> {
    let c1 = find_char(l, ',');
    if c1 < 0 {
        None
    } else {
        let f0 = l.subrange(0, c1);
        let r1 = l.subrange(c1 + 1, l.len() as int);
        let c2 = find_char(r1, ',');
        if c2 < 0 {
            None
        } else {
            let f1 = r1.subrange(0, c2);
            let r2 = r1.subrange(c2 + 1, r1.len() as int);
            let c3 = find_char(r2, ',');
            if c3 < 0 {
                None
            } else {
                let f2 = r2.subrange(0, c3);
                let f3 = r2.subrange(c3 + 1, r2.len() as int);
                if find_char(f3, ',') >= 0 {
                    None
                } else {
                    Some((f0, f1, f2, f3))
                }
            }
        }
    }
}

/// The record a data row decodes to, if it decodes at all.
pub open spec fn parse_record(l: Seq<char>) -> Option<Transaction> {
    match record_field_split(l) {
        Some(fields) => record_of(
            kind_field(fields.0),
            digits_field(fields.1, u16::MAX as int),
            digits_field(fields.2, u32::MAX as int),
            fields.3,
        ),
        None => None,
    }
}

/// Ten to the `n`th power.
pub open spec fn ten_pow(n: nat) -> int
    decreases n,
{
    if n == 0 {
        1
    } else {
        10 * ten_pow((n - 1) as nat)
    }
}

/// A digit string of length `n` denotes a number below ten to the `n`th.
pub proof fn lemma_digits_val_bound(s: Seq<char>)
    requires
        all_digits(s),
    ensures
        0 <= digits_val(s) < ten_pow(s.len()),
    decreases s.len(),
{
    if s.len() != 0 {
        assert(all_digits(s.drop_last()));
        lemma_digits_val_bound(s.drop_last());
    }
}

/// Position of the first `c` at or after `lo` and before `hi`.
pub fn find_in(s: &str, lo: usize, hi: usize, c: char) -> (r: Option<usize>)
    requires
        lo <= hi <= s@.len(),
    ensures
        match r {
            Some(i) => lo <= i < hi && i - lo == find_char(
                s@.subrange(lo as int, hi as int),
                c,
            ) && s@[i as int] == c,
            None => find_char(s@.subrange(lo as int, hi as int), c) < 0,
        },
{
    let ghost sub = s@.subrange(lo as int, hi as int);
    let mut i: usize = lo;
    while i < hi
        invariant
            lo <= i <= hi <= s@.len(),
            sub == s@.subrange(lo as int, hi as int),
            forall|j: int| 0 <= j < i - lo ==> sub[j] != c,
        decreases hi - i,
    {
        if s.get_char(i) == c {
            proof {
                lemma_find_char_is_first(sub, c, i - lo);
            }
            return Some(i);
        }
        i = i + 1;
    }
    proof {
        lemma_find_char_absent(sub, c);
    }
    None
}

/// Decode the digits between `lo` and `hi` as a number of at most `max`.
pub fn parse_digits(s: &str, lo: usize, hi: usize, max: u64) -> (r: Option<u64>)
    requires
        lo <= hi <= s@.len(),
    ensures
        match r {
            Some(v) => v <= max && digits_field(s@.subrange(lo as int, hi as int), max as int)
                == Some(v as int),
            None => digits_field(s@.subrange(lo as int, hi as int), max as int) is None,
        },
{
    let ghost sub = s@.subrange(lo as int, hi as int);
    if lo == hi {
        return None;
    }
    let mut acc: u64 = 0;
    let mut i: usize = lo;
    while i < hi
        invariant
            lo <= i <= hi <= s@.len(),
            sub == s@.subrange(lo as int, hi as int),
            all_digits(sub.take(i - lo)),
            acc == digits_val(sub.take(i - lo)),
            acc <= max,
        decreases hi - i,
    {
        let ch = s.get_char(i);
        if ch < '0' || ch > '9' {
            assert(!is_digit(sub[i - lo]));
            return None;
        }
        let d = (ch as u8) - 48;
        proof {
            assert(sub.take(i + 1 - lo).drop_last() =~= sub.take(i - lo));
            assert(all_digits(sub.take(i + 1 - lo)));
        }
        let wide = acc as u128 * 10 + d as u128;
        if wide > max as u128 {
            proof {
                assert(digits_val(sub.take(i + 1 - lo)) > max);
                if all_digits(sub) {
                    lemma_digits_val_prefix(sub, i + 1 - lo);
                }
            }
            return None;
        }
        acc = wide as u64;
        i = i + 1;
    }
    proof {
        assert(sub.take(hi - lo as int) =~= sub);
    }
    Some(acc)
}

/// Whether the characters between `lo` and `hi` spell exactly `kw`.
pub fn field_matches(s: &str, lo: usize, hi: usize, kw: &str) -> (r: bool)
    requires
        lo <= hi <= s@.len(),
    ensures
        r == (s@.subrange(lo as int, hi as int) == kw@),
{
    let ghost sub = s@.subrange(lo as int, hi as int);
    let n = kw.unicode_len();
    if hi - lo != n {
        return false;
    }
    let mut i: usize = 0;
    while i < n
        invariant
            i <= n == kw@.len(),
            lo <= hi <= s@.len(),
            hi - lo == n,
            sub == s@.subrange(lo as int, hi as int),
            forall|j: int| 0 <= j < i ==> sub[j] == kw@[j],
        decreases n - i,
    {
        if s.get_char(lo + i) != kw.get_char(i) {
            return false;
        }
        i = i + 1;
    }
    proof {
        assert(sub =~= kw@);
    }
    true
}

/// Decode the amount field between `lo` and `hi`.
pub fn parse_amount(s: &str, lo: usize, hi: usize) -> (r: Option<i64>)
    requires
        lo <= hi <= s@.len(),
    ensures
        r == amount_field(s@.subrange(lo as int, hi as int)),
{
    let ghost f = s@.subrange(lo as int, hi as int);
    let dot = find_in(s, lo, hi, '.');
    let (ip_hi, fp_lo) = match dot {
        None => (hi, hi),
        Some(d) => (d, d + 1),
    };
    let ghost ip = if find_char(f, '.') < 0 {
        f
    } else {
        f.subrange(0, find_char(f, '.'))
    };
    let ghost fp = if find_char(f, '.') < 0 {
        Seq::<char>::empty()
    } else {
        f.subrange(find_char(f, '.') + 1, f.len() as int)
    };
    proof {
        assert(ip =~= s@.subrange(lo as int, ip_hi as int));
        assert(fp =~= s@.subrange(fp_lo as int, hi as int));
    }
    let flen = hi - fp_lo;
    if flen > 4 {
        return None;
    }
    if ip_hi == lo && flen == 0 {
        return None;
    }
    let ip_val: u64 = if lo == ip_hi {
        0
    } else {
        match parse_digits(s, lo, ip_hi, i64::MAX as u64) {
            Some(v) => v,
            None => {
                proof {
                    if all_digits(ip) && all_digits(fp) {
                        lemma_digits_val_nonneg(fp);
                        assert(digits_val(ip) > i64::MAX);
                    }
                }
                return None;
            },
        }
    };
    let fp_val: u64 = if fp_lo == hi {
        0
    } else {
        match parse_digits(s, fp_lo, hi, i64::MAX as u64) {
            Some(v) => v,
            None => {
                proof {
                    if all_digits(fp) {
                        lemma_digits_val_bound(fp);
                        assert(ten_pow(0) == 1);
                        assert(ten_pow(1) == 10);
                        assert(ten_pow(2) == 100);
                        assert(ten_pow(3) == 1000);
                        assert(ten_pow(4) == 10000);
                    }
                }
                return None;
            },
        }
    };
    proof {
        if fp.len() > 0 {
            lemma_digits_val_bound(fp);
        }
        assert(ten_pow(0) == 1);
        assert(ten_pow(1) == 10);
        assert(ten_pow(2) == 100);
        assert(ten_pow(3) == 1000);
        assert(ten_pow(4) == 10000);
    }
    let scaled: u64 = match flen {
        0 => 0,
        1 => fp_val * 1000,
        2 => fp_val * 100,
        3 => fp_val * 10,
        _ => fp_val,
    };
    let total: u64 = match ip_val.checked_mul(10000) {
        Some(t) => match t.checked_add(scaled) {
            Some(v) => v,
            None => {
                return None;
            },
        },
        None => {
            return None;
        },
    };
    if total > i64::MAX as u64 {
        return None;
    }
    Some(total as i64)
}

/// Decode one data row lying between `lo` and `hi`.
pub fn parse_record_in(s: &str, lo: usize, hi: usize) -> (r: Option<Transaction>)
    requires
        lo <= hi <= s@.len(),
    ensures
        r == parse_record(s@.subrange(lo as int, hi as int)),
{
    let ghost l = s@.subrange(lo as int, hi as int);
    let c1 = match find_in(s, lo, hi, ',') {
        Some(i) => i,
        None => {
            return None;
        },
    };
    let ghost r1 = l.subrange(c1 - lo + 1, l.len() as int);
    proof {
        assert(r1 =~= s@.subrange(c1 + 1 as int, hi as int));
    }
    let c2 = match find_in(s, c1 + 1, hi, ',') {
        Some(i) => i,
        None => {
            return None;
        },
    };
    let ghost r2 = r1.subrange(c2 - c1, r1.len() as int);
    proof {
        assert(r2 =~= s@.subrange(c2 + 1 as int, hi as int));
    }
    let c3 = match find_in(s, c2 + 1, hi, ',') {
        Some(i) => i,
        None => {
            return None;
        },
    };
    let ghost f3 = r2.subrange(c3 - c2, r2.len() as int);
    proof {
        assert(f3 =~= s@.subrange(c3 + 1 as int, hi as int));
    }
    if find_in(s, c3 + 1, hi, ',').is_some() {
        return None;
    }
    proof {
        assert(l.subrange(0, c1 - lo) =~= s@.subrange(lo as int, c1 as int));
        assert(r1.subrange(0, c2 - c1 - 1) =~= s@.subrange(c1 + 1 as int, c2 as int));
        assert(r2.subrange(0, c3 - c2 - 1) =~= s@.subrange(c2 + 1 as int, c3 as int));
    }
    let kind = if field_matches(s, lo, c1, "deposit") {
        TransactionType::Deposit
    } else if field_matches(s, lo, c1, "withdrawal") {
        TransactionType::Withdrawal
    } else if field_matches(s, lo, c1, "dispute") {
        TransactionType::Dispute
    } else if field_matches(s, lo, c1, "resolve") {
        TransactionType::Resolve
    } else if field_matches(s, lo, c1, "chargeback") {
        TransactionType::Chargeback
    } else {
        return None;
    };
    let client = match parse_digits(s, c1 + 1, c2, 65535) {
        Some(v) => v as u16,
        None => {
            return None;
        },
    };
    let txid = match parse_digits(s, c2 + 1, c3, 4294967295) {
        Some(v) => v as u32,
        None => {
            return None;
        },
    };
    let is_funds_movement = match kind {
        TransactionType::Deposit | TransactionType::Withdrawal => true,
        _ => false,
    };
    if c3 + 1 == hi && !is_funds_movement {
        return Some(
            Transaction {
                transaction_type: kind,
                client_id: client,
                tx_id: txid,
                amount: None,
                disputed: false,
            },
        );
    }
    match parse_amount(s, c3 + 1, hi) {
        Some(v) => Some(
            Transaction {
                transaction_type: kind,
                client_id: client,
                tx_id: txid,
                amount: Some(v),
                disputed: false,
            },
        ),
        None => None,
    }
}

/// Every record that decodes is well formed: a deposit or withdrawal always
/// carries a non-negative amount.
pub proof fn lemma_parse_record_wf(l: Seq<char>)
    ensures
        parse_record(l) is Some ==> parse_record(l)->0.wf(),
{
    if parse_record(l) is Some {
        let fields = record_field_split(l)->0;
        let f3 = fields.3;
        let dot = find_char(f3, '.');
        let ip = if dot < 0 {
            f3
        } else {
            f3.subrange(0, dot)
        };
        let fp = if dot < 0 {
            Seq::<char>::empty()
        } else {
            f3.subrange(dot + 1, f3.len() as int)
        };
        if amount_field(f3) is Some {
            lemma_digits_val_nonneg(ip);
            lemma_digits_val_nonneg(fp);
        }
    }
}

} // verus!
