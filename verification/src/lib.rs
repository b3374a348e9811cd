//! A deterministic batch processor for client-account transactions.
//!
//! The engine consumes an ordered stream of records, that is deposits,
//! withdrawals and the three-step dispute lifecycle (dispute, then resolve
//! or chargeback), and maintains a ledger of per-client accounts. After the
//! stream ends the ledger is rendered as a comma-separated report. Amounts
//! are fixed-scale integers counting ten-thousandths, so the four-decimal
//! rendering is exact.

pub mod accounts;
pub mod format;
pub mod laws;
pub mod parse;
pub mod services;
pub mod transactions;

use crate::accounts::Account;
use crate::format::report_chars;
use crate::parse::find_char;
use crate::parse::lemma_parse_record_wf;
use crate::parse::parse_record;
use crate::parse::parse_record_in;
use crate::parse::field_matches;
use crate::parse::find_in;
use crate::services::TransactionService;
use crate::services::step_accounts;
use crate::services::step_store;
use crate::transactions::Transaction;
use vstd::prelude::*;
use vstd::string::StrSliceExecFns;

verus! {

/// Why a run rejected its input. Record-level guard failures never produce
/// an error: only input that does not decode does.
#[derive(Clone, Copy, Debug, PartialEq, Eq, Structural)]
pub enum InputError {
    /// The first line is not the expected header row.
    Header,
    /// Some data row does not decode.
    Record,
}

/// A line with a trailing carriage return has it removed, so both bare
/// newlines and carriage-return-newline pairs end a row.
pub open spec fn strip_cr(l: Seq<char>) -> Seq<char> {
    if l.len() > 0 && l.last() == '\r' {
        l.drop_last()
    } else {
        l
    }
}

/// Run the engine over every remaining line of `s`, starting from the state
/// `(acc, store)`. Empty lines are skipped; the first line that fails to
/// decode stops the run with an error; otherwise the final state is
/// returned.
pub open spec fn spec_run(acc: Seq<Account>, store: Seq<Transaction>, s: Seq<char>) -> Result<
    (Seq<Account>, Seq<Transaction>),
    InputError,
>
    decreases s.len(),
{
    if s.len() == 0 {
        Ok((acc, store))
    } else {
        let i = find_char(s, '\n');
        let raw = if i < 0 {
            s
        } else {
            s.subrange(0, i)
        };
        let rest = if i < 0 || i + 1 > s.len() {
            Seq::<char>::empty()
        } else {
            s.subrange(i + 1, s.len() as int)
        };
        let line = strip_cr(raw);
        if line.len() == 0 {
            spec_run(acc, store, rest)
        } else {
            match parse_record(line) {
                Some(tx) => spec_run(
                    step_accounts(acc, store, tx),
                    step_store(acc, store, tx),
                    rest,
                ),
                None => Err(InputError::Record),
            }
        }
    }
}

/// What processing a whole input text yields: empty input gives the empty
/// report; otherwise the first line must be the header row, every following
/// non-empty line must decode, and the result is the report of the final
/// ledger.
pub open spec fn spec_process(s: Seq<char>) -> Result<Seq<char>, InputError> {
    if s.len() == 0 {
        Ok(report_chars(Seq::<Account>::empty()))
    } else {
        let i = find_char(s, '\n');
        let raw = if i < 0 {
            s
        } else {
            s.subrange(0, i)
        };
        let rest = if i < 0 || i + 1 > s.len() {
            Seq::<char>::empty()
        } else {
            s.subrange(i + 1, s.len() as int)
        };
        if strip_cr(raw) == "type,client,tx,amount"@ {
            match spec_run(Seq::<Account>::empty(), Seq::<Transaction>::empty(), rest) {
                Ok(st) => Ok(report_chars(st.0)),
                Err(e) => Err(e),
            }
        } else {
            Err(InputError::Header)
        }
    }
}

/// Process a whole input text: decode the header and every record row,
/// apply each record in arrival order, and render the final ledger.
#[verifier::rlimit(60)]
pub fn process_csv(input: &str) -> (r: Result<String, InputError>)
    ensures
        match r {
            Ok(out) => spec_process(input@) == Ok::<Seq<char>, InputError>(out@),
            Err(e) => spec_process(input@) == Err::<Seq<char>, InputError>(e),
        },
{
    let n = input.unicode_len();
    if n == 0 {
        let svc = TransactionService::new();
        return Ok(svc.print_accounts());
    }
    proof {
        assert(input@.subrange(0, n as int) =~= input@);
    }
    let (hdr_end, start) = match find_in(input, 0, n, '\n') {
        Some(i) => (i, i + 1),
        None => (n, n),
    };
    let hdr_true_end = if hdr_end > 0 && input.get_char(hdr_end - 1) == '\r' {
        hdr_end - 1
    } else {
        hdr_end
    };
    let ghost raw0 = if find_char(input@, '\n') < 0 {
        input@
    } else {
        input@.subrange(0, find_char(input@, '\n'))
    };
    let ghost rest0 = if find_char(input@, '\n') < 0 || find_char(input@, '\n') + 1
        > input@.len() {
        Seq::<char>::empty()
    } else {
        input@.subrange(find_char(input@, '\n') + 1, input@.len() as int)
    };
    proof {
        assert(raw0 =~= input@.subrange(0, hdr_end as int));
        assert(strip_cr(raw0) =~= input@.subrange(0, hdr_true_end as int));
        assert(rest0 =~= input@.subrange(start as int, n as int));
    }
    if !field_matches(input, 0, hdr_true_end, "type,client,tx,amount") {
        return Err(InputError::Header);
    }
    let mut svc = TransactionService::new();
    let mut pos = start;
    while pos < n
        invariant
            start <= pos <= n == input@.len(),
            svc.wf(),
            rest0 == input@.subrange(start as int, n as int),
            spec_process(input@) == (match spec_run(
                Seq::<Account>::empty(),
                Seq::<Transaction>::empty(),
                rest0,
            ) {
                Ok(st) => Ok::<Seq<char>, InputError>(report_chars(st.0)),
                Err(e) => Err::<Seq<char>, InputError>(e),
            }),
            spec_run(Seq::<Account>::empty(), Seq::<Transaction>::empty(), rest0) == spec_run(
                svc.ledger(),
                svc.retained(),
                input@.subrange(pos as int, n as int),
            ),
        decreases n - pos,
    {
        let ghost s_rem = input@.subrange(pos as int, n as int);
        let ghost led0 = svc.ledger();
        let ghost ret0 = svc.retained();
        let (line_end, next_pos) = match find_in(input, pos, n, '\n') {
            Some(i) => (i, i + 1),
            None => (n, n),
        };
        let ghost raw = if find_char(s_rem, '\n') < 0 {
            s_rem
        } else {
            s_rem.subrange(0, find_char(s_rem, '\n'))
        };
        let ghost rest = if find_char(s_rem, '\n') < 0 || find_char(s_rem, '\n') + 1
            > s_rem.len() {
            Seq::<char>::empty()
        } else {
            s_rem.subrange(find_char(s_rem, '\n') + 1, s_rem.len() as int)
        };
        proof {
            assert(raw =~= input@.subrange(pos as int, line_end as int));
            assert(rest =~= input@.subrange(next_pos as int, n as int));
        }
        let true_end = if line_end > pos && input.get_char(line_end - 1) == '\r' {
            line_end - 1
        } else {
            line_end
        };
        proof {
            assert(strip_cr(raw) =~= input@.subrange(pos as int, true_end as int));
        }
        if true_end > pos {
            match parse_record_in(input, pos, true_end) {
                Some(tx) => {
                    proof {
                        lemma_parse_record_wf(input@.subrange(pos as int, true_end as int));
                        assert(parse_record(strip_cr(raw)) == Some(tx));
                    }
                    svc.apply_transaction(&tx);
                    proof {
                        assert(spec_run(led0, ret0, s_rem) == spec_run(
                            svc.ledger(),
                            svc.retained(),
                            rest,
                        ));
                    }
                },
                None => {
                    proof {
                        assert(spec_run(led0, ret0, s_rem) == Err::<
                            (Seq<Account>, Seq<Transaction>),
                            InputError,
                        >(InputError::Record));
                    }
                    return Err(InputError::Record);
                },
            }
        } else {
            proof {
                assert(spec_run(led0, ret0, s_rem) == spec_run(led0, ret0, rest));
            }
        }
        pos = next_pos;
    }
    proof {
        assert(input@.subrange(pos as int, n as int) =~= Seq::<char>::empty());
    }
    Ok(svc.print_accounts())
}

} // verus!
