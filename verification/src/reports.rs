//! The snapshot the report emitter reads once the stream is exhausted: one
//! row per existing account, in ascending client order. Rendering the rows
//! is the emitter's own business; the snapshot itself is verified to list
//! exactly the accounts the engine holds.

use vstd::prelude::*;
use vstd::string::StrSliceExecFns;
use crate::engine::Engine;
use crate::normalize::chars_to_string;
use crate::structures::{AccountSummary, ClientAccount, AMOUNT_SCALE};

verus! {

/// The summary row for one client's account.
pub open spec fn summary_of(client: u16, a: ClientAccount) -> AccountSummary {
    AccountSummary {
        client,
        available: a.available,
        held: a.held,
        total: a.total,
        locked: a.locked,
    }
}

/// Rows in strictly ascending client order (client ids are unique keys, so
/// the order is strict).
pub open spec fn sorted_by_client(rows: Seq<AccountSummary>) -> bool {
    forall|i: int, j: int| 0 <= i < j < rows.len() ==> rows[i].client < rows[j].client
}

/// The final report: every account the engine holds — and nothing else —
/// each with its client id, funds and lock flag, sorted by client id for
/// deterministic output.
pub fn final_report(engine: &Engine) -> (r: Vec<AccountSummary>)
    ensures
        sorted_by_client(r@),
        forall|i: int|
            0 <= i < r@.len() ==> engine@.accounts.contains_key((#[trigger] r@[i]).client)
                && r@[i] == summary_of(r@[i].client, engine@.accounts[r@[i].client]),
        forall|c: u16| #[trigger]
            engine@.accounts.contains_key(c) ==> exists|i: int|
                0 <= i < r@.len() && (#[trigger] r@[i]).client == c,
{
    let mut rows: Vec<AccountSummary> = Vec::new();
    let mut c: u32 = 0;
    while c < 65536
        invariant
            0 <= c <= 65536,
            sorted_by_client(rows@),
            forall|i: int|
                0 <= i < rows@.len() ==> (#[trigger] rows@[i]).client < c
                    && engine@.accounts.contains_key(rows@[i].client)
                    && rows@[i] == summary_of(rows@[i].client, engine@.accounts[rows@[i].client]),
            forall|k: u16|
                k < c && #[trigger] engine@.accounts.contains_key(k) ==> exists|i: int|
                    0 <= i < rows@.len() && (#[trigger] rows@[i]).client == k,
        decreases 65536 - c,
    {
        let ghost rows0 = rows@;
        let client = c as u16;
        match engine.get_account(client) {
            Some(a) => {
                rows.push(
                    AccountSummary {
                        client,
                        available: a.available,
                        held: a.held,
                        total: a.total,
                        locked: a.locked,
                    },
                );
            },
            None => {},
        }
        proof {
            assert forall|k: u16|
                k < c + 1 && #[trigger] engine@.accounts.contains_key(k) implies exists|i: int|
                0 <= i < rows@.len() && (#[trigger] rows@[i]).client == k by {
                if (k as u32) < c {
                    let i0 = choose|i: int|
                        0 <= i < rows0.len() && (#[trigger] rows0[i]).client == k;
                    assert(rows@[i0].client == k);
                } else {
                    assert(rows@[rows@.len() - 1].client == k);
                }
            };
        }
        c = c + 1;
    }
    rows
}

/// The character for one decimal digit.
pub open spec fn digit_char(d: int) -> char {
    if d == 0 {
        '0'
    } else if d == 1 {
        '1'
    } else if d == 2 {
        '2'
    } else if d == 3 {
        '3'
    } else if d == 4 {
        '4'
    } else if d == 5 {
        '5'
    } else if d == 6 {
        '6'
    } else if d == 7 {
        '7'
    } else if d == 8 {
        '8'
    } else {
        '9'
    }
}

/// The decimal digits of a number, most significant first.
pub open spec fn dec_digits(n: nat) -> Seq<char>
    decreases n,
{
    if n < 10 {
        seq![digit_char(n as int)]
    } else {
        dec_digits(n / 10).push(digit_char((n % 10) as int))
    }
}

/// Exactly four fractional digits for a value below ten thousand.
pub open spec fn frac_chars(f: int) -> Seq<char> {
    seq![
        digit_char(f / 1000),
        digit_char((f / 100) % 10),
        digit_char((f / 10) % 10),
        digit_char(f % 10),
    ]
}

/// A monetary amount rendered with exactly four decimal places.
pub open spec fn amount_chars(units: u64) -> Seq<char> {
    dec_digits((units / AMOUNT_SCALE) as nat) + seq!['.'] + frac_chars((units % AMOUNT_SCALE) as int)
}

/// The lock flag rendered as a plain boolean.
pub open spec fn bool_chars(b: bool) -> Seq<char> {
    if b {
        "true"@
    } else {
        "false"@
    }
}

/// One report line: client id, the three balances with four decimal places,
/// and the lock flag, separated by commas.
pub open spec fn row_chars(row: AccountSummary) -> Seq<char> {
    dec_digits(row.client as nat) + seq![','] + amount_chars(row.available) + seq![',']
        + amount_chars(row.held) + seq![','] + amount_chars(row.total) + seq![','] + bool_chars(
        row.locked,
    )
}

/// The whole report: the header line, then one line per row, each ended by
/// a newline.
pub open spec fn report_chars(rows: Seq<AccountSummary>) -> Seq<char>
    decreases rows.len(),
{
    if rows.len() == 0 {
        "client,available,held,total,locked"@ + seq!['\n']
    } else {
        report_chars(rows.drop_last()) + row_chars(rows.last()) + seq!['\n']
    }
}

fn digit_char_exec(d: u64) -> (r: char)
    requires
        d < 10,
    ensures
        r == digit_char(d as int),
{
    if d == 0 {
        '0'
    } else if d == 1 {
        '1'
    } else if d == 2 {
        '2'
    } else if d == 3 {
        '3'
    } else if d == 4 {
        '4'
    } else if d == 5 {
        '5'
    } else if d == 6 {
        '6'
    } else if d == 7 {
        '7'
    } else if d == 8 {
        '8'
    } else {
        '9'
    }
}

fn push_digits(out: &mut Vec<char>, n: u64)
    ensures
        final(out)@ == old(out)@ + dec_digits(n as nat),
    decreases n,
{
    if n < 10 {
        out.push(digit_char_exec(n));
        proof {
            assert(old(out)@.push(digit_char(n as int)) =~= old(out)@ + dec_digits(n as nat));
        }
    } else {
        push_digits(out, n / 10);
        out.push(digit_char_exec(n % 10));
        proof {
            assert((old(out)@ + dec_digits((n / 10) as nat)).push(digit_char((n % 10) as int))
                =~= old(out)@ + dec_digits(n as nat));
        }
    }
}

fn push_str_chars(out: &mut Vec<char>, lit: &str)
    ensures
        final(out)@ == old(out)@ + lit@,
{
    let n = lit.unicode_len();
    proof {
        assert(old(out)@ + lit@.take(0) =~= old(out)@);
    }
    let mut i: usize = 0;
    while i < n
        invariant
            0 <= i <= n,
            n == lit@.len(),
            out@ == old(out)@ + lit@.take(i as int),
        decreases n - i,
    {
        out.push(lit.get_char(i));
        proof {
            assert(old(out)@ + lit@.take(i as int + 1) =~= (old(out)@ + lit@.take(
                i as int,
            )).push(lit@[i as int]));
        }
        i = i + 1;
    }
    proof {
        assert(lit@.take(n as int) =~= lit@);
    }
}

fn push_amount(out: &mut Vec<char>, units: u64)
    ensures
        final(out)@ == old(out)@ + amount_chars(units),
{
    push_digits(out, units / AMOUNT_SCALE);
    out.push('.');
    let f = units % AMOUNT_SCALE;
    out.push(digit_char_exec(f / 1000));
    out.push(digit_char_exec((f / 100) % 10));
    out.push(digit_char_exec((f / 10) % 10));
    out.push(digit_char_exec(f % 10));
    proof {
        assert(out@ =~= old(out)@ + amount_chars(units));
    }
}

fn push_row(out: &mut Vec<char>, row: &AccountSummary)
    ensures
        final(out)@ == old(out)@ + row_chars(*row),
{
    push_digits(out, row.client as u64);
    out.push(',');
    push_amount(out, row.available);
    out.push(',');
    push_amount(out, row.held);
    out.push(',');
    push_amount(out, row.total);
    out.push(',');
    if row.locked {
        push_str_chars(out, "true");
    } else {
        push_str_chars(out, "false");
    }
    proof {
        assert(out@ =~= old(out)@ + row_chars(*row));
    }
}

/// Renders the report rows in the output format: the header line, then one
/// line per account — client id, available, held and total with exactly four
/// decimal places, and the lock flag.
pub fn render_report(rows: &Vec<AccountSummary>) -> (r: String)
    ensures
        r@ == report_chars(rows@),
{
    let mut out: Vec<char> = Vec::new();
    push_str_chars(&mut out, "client,available,held,total,locked");
    out.push('\n');
    proof {
        assert(out@ =~= report_chars(Seq::<AccountSummary>::empty()));
        assert(rows@.take(0) =~= Seq::<AccountSummary>::empty());
    }
    let mut i: usize = 0;
    while i < rows.len()
        invariant
            0 <= i <= rows@.len(),
            out@ == report_chars(rows@.take(i as int)),
        decreases rows@.len() - i,
    {
        push_row(&mut out, &rows[i]);
        out.push('\n');
        proof {
            assert(rows@.take(i as int + 1).drop_last() =~= rows@.take(i as int));
            assert(rows@.take(i as int + 1).last() == rows@[i as int]);
            assert(out@ =~= report_chars(rows@.take(i as int + 1)));
        }
        i = i + 1;
    }
    proof {
        assert(rows@.take(rows@.len() as int) =~= rows@);
    }
    chars_to_string(out)
}

} // verus!
