//! Reading and writing the ledger's text formats: interpreting the fields of
//! an input record (kind token, client id, transaction id, fixed-point
//! amount) and rendering the per-client balance report.
//!
//! Amounts travel as fixed-point decimals with four fractional digits.
//! A literal with more fractional digits is truncated toward zero to four,
//! the same rule the report is rendered with.

use vstd::prelude::*;
use vstd::arithmetic::div_mod::{lemma_fundamental_div_mod, lemma_mod_division_less_than_divisor};
use crate::account::{Account, AccountState, Transaction, TransactionType};
use crate::account_manager::AccountManager;

verus! {

broadcast use vstd::std_specs::hash::group_hash_axioms;

/// The decimal digits of `n`, most significant first.
pub open spec fn dec_digits(n: nat) -> Seq<u8>
    decreases n,
{
    if n < 10 {
        seq![(48 + n) as u8]
    } else {
        dec_digits(n / 10).push((48 + n % 10) as u8)
    }
}

/// Four fractional digits, zero-padded, of a count of ten-thousandths
/// below ten thousand.
pub open spec fn frac_digits(f: nat) -> Seq<u8> {
    seq![
        (48 + f / 1000 % 10) as u8,
        (48 + f / 100 % 10) as u8,
        (48 + f / 10 % 10) as u8,
        (48 + f % 10) as u8,
    ]
}

/// A nonnegative count of ten-thousandths, rendered as integer digits,
/// a point, and exactly four fractional digits.
pub open spec fn magnitude_bytes(u: nat) -> Seq<u8> {
    dec_digits(u / 10000) + seq![46u8] + frac_digits(u % 10000)
}

/// A signed count of ten-thousandths, rendered with exactly four fractional
/// digits, a leading minus when negative.
pub open spec fn amount_bytes(v: int) -> Seq<u8> {
    if v < 0 {
        seq![45u8] + magnitude_bytes((-v) as nat)
    } else {
        magnitude_bytes(v as nat)
    }
}

/// `true` or `false`.
pub open spec fn bool_bytes(b: bool) -> Seq<u8> {
    if b {
        seq![116u8, 114u8, 117u8, 101u8]
    } else {
        seq![102u8, 97u8, 108u8, 115u8, 101u8]
    }
}

/// Append the decimal digits of `n`.
pub fn push_decimal(out: &mut Vec<u8>, n: u128)
    ensures
        final(out)@ == old(out)@ + dec_digits(n as nat),
    decreases n,
{
    if n < 10 {
        out.push(48 + n as u8);
        proof {
            assert(out@ =~= old(out)@ + dec_digits(n as nat));
        }
    } else {
        push_decimal(out, n / 10);
        out.push(48 + (n % 10) as u8);
        proof {
            assert(out@ =~= old(out)@ + dec_digits(n as nat));
        }
    }
}

/// Append a nonnegative count of ten-thousandths with four fractional digits.
fn push_magnitude(out: &mut Vec<u8>, u: u128)
    ensures
        final(out)@ == old(out)@ + magnitude_bytes(u as nat),
{
    push_decimal(out, u / 10000);
    out.push(46);
    let f = u % 10000;
    out.push(48 + (f / 1000 % 10) as u8);
    out.push(48 + (f / 100 % 10) as u8);
    out.push(48 + (f / 10 % 10) as u8);
    out.push(48 + (f % 10) as u8);
    proof {
        assert(out@ =~= old(out)@ + magnitude_bytes(u as nat));
    }
}

/// Append a signed count of ten-thousandths with four fractional digits.
pub fn push_amount(out: &mut Vec<u8>, v: i128)
    requires
        v != i128::MIN,
    ensures
        final(out)@ == old(out)@ + amount_bytes(v as int),
{
    if v < 0 {
        out.push(45);
        push_magnitude(out, (-v) as u128);
        proof {
            assert(out@ =~= old(out)@ + amount_bytes(v as int));
        }
    } else {
        push_magnitude(out, v as u128);
    }
}

/// Append `true` or `false`.
pub fn push_bool(out: &mut Vec<u8>, b: bool)
    ensures
        final(out)@ == old(out)@ + bool_bytes(b),
{
    if b {
        out.push(116);
        out.push(114);
        out.push(117);
        out.push(101);
    } else {
        out.push(102);
        out.push(97);
        out.push(108);
        out.push(115);
        out.push(101);
    }
    proof {
        assert(out@ =~= old(out)@ + bool_bytes(b));
    }
}

/// One report line for an account state: client id, available, held and
/// total balances with four fractional digits each, and the frozen flag,
/// comma-separated, newline-terminated.
pub open spec fn line_bytes(s: AccountState) -> Seq<u8> {
    dec_digits(s.client as nat) + seq![44u8, 32u8] + amount_bytes(s.available)
        + seq![44u8, 32u8] + amount_bytes(s.held_total) + seq![44u8, 32u8]
        + amount_bytes(s.available + s.held_total) + seq![44u8, 32u8]
        + bool_bytes(s.frozen) + seq![10u8]
}

/// The report's header line: `client, available, held, total, locked`.
pub open spec fn header_bytes() -> Seq<u8> {
    seq![
        99u8, 108u8, 105u8, 101u8, 110u8, 116u8, 44u8, 32u8,
        97u8, 118u8, 97u8, 105u8, 108u8, 97u8, 98u8, 108u8, 101u8, 44u8, 32u8,
        104u8, 101u8, 108u8, 100u8, 44u8, 32u8,
        116u8, 111u8, 116u8, 97u8, 108u8, 44u8, 32u8,
        108u8, 111u8, 99u8, 107u8, 101u8, 100u8, 10u8,
    ]
}

/// The report lines of all known accounts with client id at least `c`,
/// in ascending client id order.
pub open spec fn report_from(m: Map<u16, AccountState>, c: int) -> Seq<u8>
    decreases 65536 - c,
    when 0 <= c <= 65536
{
    if c >= 65536 {
        Seq::empty()
    } else {
        (if m.dom().contains(c as u16) {
            line_bytes(m[c as u16])
        } else {
            Seq::empty()
        }) + report_from(m, c + 1)
    }
}

/// The whole report: the header, then one line per known account, in
/// ascending client id order.
pub open spec fn report_bytes(m: Map<u16, AccountState>) -> Seq<u8> {
    header_bytes() + report_from(m, 0)
}

impl Account {
    /// Render this account's report line.
    pub fn render_line(&self) -> (r: Vec<u8>)
        ensures
            r@ == line_bytes(self.model()),
    {
        let mut out: Vec<u8> = Vec::new();
        push_decimal(&mut out, self.client_id as u128);
        out.push(44);
        out.push(32);
        push_amount(&mut out, self.available_balance as i128);
        out.push(44);
        out.push(32);
        push_amount(&mut out, self.held_balance as i128);
        out.push(44);
        out.push(32);
        push_amount(&mut out, (self.available_balance as i128) + (self.held_balance as i128));
        out.push(44);
        out.push(32);
        push_bool(&mut out, self.frozen);
        out.push(10);
        proof {
            assert(out@ =~= line_bytes(self.model()));
        }
        out
    }
}

impl AccountManager {
    /// Render the balance report: the header, then one line per known
    /// account, in ascending client id order.
    pub fn render_report(&self) -> (r: Vec<u8>)
        ensures
            r@ == report_bytes(self.model()),
    {
        let ghost m = self.model();
        let mut out: Vec<u8> = Vec::new();
        out.push(99);
        out.push(108);
        out.push(105);
        out.push(101);
        out.push(110);
        out.push(116);
        out.push(44);
        out.push(32);
        out.push(97);
        out.push(118);
        out.push(97);
        out.push(105);
        out.push(108);
        out.push(97);
        out.push(98);
        out.push(108);
        out.push(101);
        out.push(44);
        out.push(32);
        out.push(104);
        out.push(101);
        out.push(108);
        out.push(100);
        out.push(44);
        out.push(32);
        out.push(116);
        out.push(111);
        out.push(116);
        out.push(97);
        out.push(108);
        out.push(44);
        out.push(32);
        out.push(108);
        out.push(111);
        out.push(99);
        out.push(107);
        out.push(101);
        out.push(100);
        out.push(10);
        proof {
            assert(out@ =~= header_bytes());
        }
        let mut c: usize = 0;
        while c < 65536
            invariant
                0 <= c <= 65536,
                m == self.model(),
                out@ + report_from(m, c as int) == report_bytes(m),
            decreases 65536 - c,
        {
            let id = c as u16;
            let ghost before = out@;
            match self.accounts.get(&id) {
                Some(account) => {
                    let mut line = account.render_line();
                    out.append(&mut line);
                    proof {
                        assert(m.dom().contains(id));
                        assert(m[id] == account.model());
                        assert(out@ + report_from(m, c as int + 1) =~= before + report_from(
                            m,
                            c as int,
                        ));
                    }
                },
                None => {
                    proof {
                        assert(!m.dom().contains(id));
                        assert(out@ + report_from(m, c as int + 1) =~= before + report_from(
                            m,
                            c as int,
                        ));
                    }
                },
            }
            c = c + 1;
        }
        proof {
            assert(report_from(m, 65536) =~= Seq::<u8>::empty());
            assert(out@ + report_from(m, 65536) =~= out@);
        }
        out
    }
}

/// An ASCII decimal digit.
pub open spec fn is_digit(b: u8) -> bool {
    48 <= b && b <= 57
}

/// The value of a run of decimal digit bytes, most significant first.
pub open spec fn digits_val(s: Seq<u8>) -> int
    decreases s.len(),
{
    if s.len() == 0 {
        0
    } else {
        digits_val(s.drop_last()) * 10 + (s.last() - 48)
    }
}

pub open spec fn all_digits(s: Seq<u8>) -> bool {
    forall|i: int| 0 <= i < s.len() ==> is_digit(#[trigger] s[i])
}

/// The form of an integer field: a nonempty run of digits.
pub open spec fn is_uint_lit(s: Seq<u8>) -> bool {
    s.len() > 0 && all_digits(s)
}

pub proof fn lemma_digits_val_nonneg(s: Seq<u8>)
    requires
        all_digits(s),
    ensures
        digits_val(s) >= 0,
    decreases s.len(),
{
    if s.len() > 0 {
        assert(all_digits(s.drop_last()));
        lemma_digits_val_nonneg(s.drop_last());
    }
}

/// Parse a nonempty all-digit field as an unsigned integer.
fn parse_uint(s: &[u8]) -> (r: Option<u64>)
    ensures
        match r {
            Some(v) => is_uint_lit(s@) && digits_val(s@) <= u64::MAX && v as int == digits_val(
                s@,
            ),
            None => !is_uint_lit(s@) || digits_val(s@) > u64::MAX,
        },
{
    let n = s.len();
    if n == 0 {
        return None;
    }
    let mut acc: u64 = 0;
    let mut over = false;
    let mut i: usize = 0;
    while i < n
        invariant
            0 <= i <= n,
            n == s@.len(),
            forall|j: int| 0 <= j < i ==> is_digit(#[trigger] s@[j]),
            !over ==> acc as int == digits_val(s@.take(i as int)),
            over ==> digits_val(s@.take(i as int)) > u64::MAX,
        decreases n - i,
    {
        let b = s[i];
        if b < 48 || b > 57 {
            return None;
        }
        let d = (b - 48) as u64;
        proof {
            assert(s@.take(i as int + 1).drop_last() =~= s@.take(i as int));
            assert(s@.take(i as int + 1).last() == s@[i as int]);
            assert(all_digits(s@.take(i as int)));
            lemma_digits_val_nonneg(s@.take(i as int));
        }
        if over {
        } else if acc > (u64::MAX - d) / 10 {
            proof {
                lemma_fundamental_div_mod((u64::MAX - d) as int, 10);
                lemma_mod_division_less_than_divisor((u64::MAX - d) as int, 10);
            }
            over = true;
        } else {
            proof {
                lemma_fundamental_div_mod((u64::MAX - d) as int, 10);
                lemma_mod_division_less_than_divisor((u64::MAX - d) as int, 10);
            }
            acc = acc * 10 + d;
        }
        i = i + 1;
    }
    proof {
        assert(s@.take(n as int) =~= s@);
    }
    if over {
        return None;
    }
    Some(acc)
}

/// Parse a client id field: an integer between 0 and 65535.
pub fn parse_client(s: &[u8]) -> (r: Option<u16>)
    ensures
        match r {
            Some(v) => is_uint_lit(s@) && digits_val(s@) <= u16::MAX && v as int == digits_val(
                s@,
            ),
            None => !is_uint_lit(s@) || digits_val(s@) > u16::MAX,
        },
{
    match parse_uint(s) {
        Some(v) => if v <= 0xffff {
            Some(v as u16)
        } else {
            None
        },
        None => None,
    }
}

/// Parse a transaction id field: an integer between 0 and 4294967295.
pub fn parse_tx(s: &[u8]) -> (r: Option<u32>)
    ensures
        match r {
            Some(v) => is_uint_lit(s@) && digits_val(s@) <= u32::MAX && v as int == digits_val(
                s@,
            ),
            None => !is_uint_lit(s@) || digits_val(s@) > u32::MAX,
        },
{
    match parse_uint(s) {
        Some(v) => if v <= 0xffff_ffff {
            Some(v as u32)
        } else {
            None
        },
        None => None,
    }
}

/// An upper-case ASCII letter folded to lower case; anything else unchanged.
pub open spec fn lower_byte(b: u8) -> u8 {
    if 65 <= b && b <= 90 {
        (b + 32) as u8
    } else {
        b
    }
}

pub open spec fn lower(s: Seq<u8>) -> Seq<u8> {
    s.map_values(|b: u8| lower_byte(b))
}

/// Fold one byte to lower case.
fn low(b: u8) -> (r: u8)
    ensures
        r == lower_byte(b),
{
    if b >= 65 && b <= 90 {
        b + 32
    } else {
        b
    }
}

pub open spec fn has_sign(s: Seq<u8>) -> bool {
    s.len() > 0 && (s[0] == 43 || s[0] == 45)
}

/// An amount literal with its optional leading sign stripped.
pub open spec fn body_of(s: Seq<u8>) -> Seq<u8> {
    if has_sign(s) {
        s.skip(1)
    } else {
        s
    }
}

pub open spec fn sign_of(s: Seq<u8>) -> int {
    if s.len() > 0 && s[0] == 45 {
        -1
    } else {
        1
    }
}

/// A well-placed decimal point in a sign-stripped amount body: everything
/// before `i` is digits, `i` is the end or a point followed by digits only,
/// and there is at least one digit in all.
pub open spec fn dot_split_ok(b: Seq<u8>, i: int) -> bool {
    &&& 0 <= i <= b.len()
    &&& forall|j: int| 0 <= j < i ==> is_digit(#[trigger] b[j])
    &&& (i == b.len() || b[i] == 46)
    &&& forall|j: int| i < j < b.len() ==> is_digit(#[trigger] b[j])
    &&& b.len() > (if i == b.len() { 0int } else { 1int })
}

/// A decimal amount literal: an optional sign, digits, at most one point.
pub open spec fn is_decimal_lit(s: Seq<u8>) -> bool {
    exists|i: int| dot_split_ok(body_of(s), i)
}

pub proof fn lemma_dot_split_unique(b: Seq<u8>, i1: int, i2: int)
    requires
        dot_split_ok(b, i1),
        dot_split_ok(b, i2),
    ensures
        i1 == i2,
{
    if i1 < i2 {
        assert(is_digit(b[i1]));
    }
    if i2 < i1 {
        assert(is_digit(b[i2]));
    }
}

/// The fractional digits of a sign-stripped body split at `i`.
pub open spec fn frac_of(b: Seq<u8>, i: int) -> Seq<u8> {
    if i >= b.len() {
        Seq::empty()
    } else {
        b.subrange(i + 1, b.len() as int)
    }
}

/// The value of a run of fractional digits in ten-thousandths: the first
/// four digits, zero-padded on the right — digits past the fourth are
/// truncated toward zero.
pub open spec fn frac_e4(f: Seq<u8>) -> int {
    if f.len() == 0 {
        0
    } else if f.len() == 1 {
        digits_val(f) * 1000
    } else if f.len() == 2 {
        digits_val(f) * 100
    } else if f.len() == 3 {
        digits_val(f) * 10
    } else {
        digits_val(f.take(4))
    }
}

/// The value of a decimal amount literal, in signed ten-thousandths,
/// truncated toward zero to four fractional digits.
pub open spec fn decimal_val_e4(s: Seq<u8>) -> int {
    let b = body_of(s);
    let i = choose|i: int| dot_split_ok(b, i);
    sign_of(s) * (digits_val(b.take(i)) * 10000 + frac_e4(frac_of(b, i)))
}

/// What the fixed-point representation can carry.
pub open spec fn amount_in_range(v: int) -> bool {
    -i64::MAX <= v <= i64::MAX
}

/// The textual forms of the non-finite floating-point values, sign-stripped
/// and case-folded. They are tolerated as amount fields and carried as an
/// absent amount, which validation then rejects for deposits and
/// withdrawals.
pub open spec fn is_nonfinite_lit(s: Seq<u8>) -> bool {
    ||| lower(body_of(s)) == seq![105u8, 110u8, 102u8]
    ||| lower(body_of(s)) == seq![
        105u8,
        110u8,
        102u8,
        105u8,
        110u8,
        105u8,
        116u8,
        121u8,
    ]
    ||| lower(body_of(s)) == seq![110u8, 97u8, 110u8]
}

/// True exactly when the sign-stripped tail of `s`, starting at `ib`, reads
/// as one of the non-finite tokens, case-insensitively.
fn nonfinite_body(s: &[u8], ib: usize) -> (r: bool)
    requires
        body_of(s@) == s@.skip(ib as int),
        ib <= s@.len(),
    ensures
        r == is_nonfinite_lit(s@),
{
    let n = s.len();
    let ghost body = body_of(s@);
    proof {
        assert(body.len() == n - ib);
        assert(forall|j: int|
            0 <= j < body.len() ==> #[trigger] lower(body)[j] == lower_byte(s@[ib + j]));
    }
    let m = n - ib;
    if m == 3 {
        let b0 = low(s[ib]);
        let b1 = low(s[ib + 1]);
        let b2 = low(s[ib + 2]);
        if b0 == 105 && b1 == 110 && b2 == 102 {
            proof {
                assert(lower(body) =~= seq![105u8, 110u8, 102u8]);
            }
            return true;
        }
        if b0 == 110 && b1 == 97 && b2 == 110 {
            proof {
                assert(lower(body) =~= seq![110u8, 97u8, 110u8]);
            }
            return true;
        }
        proof {
            assert(lower(body) == seq![105u8, 110u8, 102u8] ==> b0 == 105 && b1 == 110 && b2
                == 102);
            assert(lower(body) == seq![110u8, 97u8, 110u8] ==> b0 == 110 && b1 == 97 && b2
                == 110);
        }
        return false;
    }
    if m == 8 {
        let b0 = low(s[ib]);
        let b1 = low(s[ib + 1]);
        let b2 = low(s[ib + 2]);
        let b3 = low(s[ib + 3]);
        let b4 = low(s[ib + 4]);
        let b5 = low(s[ib + 5]);
        let b6 = low(s[ib + 6]);
        let b7 = low(s[ib + 7]);
        if b0 == 105 && b1 == 110 && b2 == 102 && b3 == 105 && b4 == 110 && b5 == 105 && b6
            == 116 && b7 == 121 {
            proof {
                assert(lower(body) =~= seq![105u8, 110u8, 102u8, 105u8, 110u8, 105u8, 116u8, 121u8]);
            }
            return true;
        }
        proof {
            assert(lower(body) == seq![105u8, 110u8, 102u8, 105u8, 110u8, 105u8, 116u8, 121u8]
                ==> b0 == 105 && b1 == 110 && b2 == 102 && b3 == 105 && b4 == 110 && b5 == 105
                && b6 == 116 && b7 == 121);
            assert(lower(body).len() == 8);
        }
        return false;
    }
    proof {
        assert(lower(body).len() == m);
    }
    false
}

/// Parse an amount field.
///
/// `Some(Some(v))`: a decimal literal whose value, truncated toward zero to
/// four fractional digits, the fixed-point representation can carry.
/// `Some(None)`: a well-formed amount the representation cannot carry — a
/// non-finite token or a decimal out of range — to be treated as an absent
/// amount. `None`: not an amount at all; the record is malformed.
#[verifier::rlimit(60)]
pub fn parse_amount(s: &[u8]) -> (r: Option<Option<i64>>)
    ensures
        match r {
            Some(av) => match av {
                Some(v) => is_decimal_lit(s@) && amount_in_range(decimal_val_e4(s@)) && v as int
                    == decimal_val_e4(s@),
                None => is_nonfinite_lit(s@) || (is_decimal_lit(s@) && !amount_in_range(
                    decimal_val_e4(s@),
                )),
            },
            None => !is_decimal_lit(s@) && !is_nonfinite_lit(s@),
        },
{
    let n = s.len();
    let mut ib: usize = 0;
    let mut neg = false;
    if n > 0 && (s[0] == 43 || s[0] == 45) {
        neg = s[0] == 45;
        ib = 1;
    }
    let ghost body = body_of(s@);
    proof {
        assert(body =~= s@.skip(ib as int));
    }
    if nonfinite_body(s, ib) {
        return Some(None);
    }
    let mut i: usize = ib;
    let mut acc: u128 = 0;
    let mut over = false;
    while i < n && s[i] != 46
        invariant
            ib <= i <= n,
            n == s@.len(),
            ib <= 1,
            body == body_of(s@),
            body == s@.skip(ib as int),
            forall|j: int| ib <= j < i ==> is_digit(#[trigger] s@[j]),
            forall|j: int| ib <= j < i ==> s@[j] != 46,
            !over ==> acc as int == digits_val(s@.subrange(ib as int, i as int)),
            !over ==> acc <= i64::MAX as u128 * 10 + 9,
            over ==> digits_val(s@.subrange(ib as int, i as int)) > i64::MAX,
            !is_nonfinite_lit(s@),
        decreases n - i,
    {
        let b = s[i];
        if b < 48 || b > 57 {
            proof {
                let rel = i as int - ib as int;
                assert(body[rel] == s@[i as int]);
                assert forall|i2: int| !dot_split_ok(body, i2) by {
                    if dot_split_ok(body, i2) {
                        if rel < i2 {
                            assert(is_digit(body[rel]));
                        } else if rel == i2 {
                            assert(body[i2] == 46);
                        } else {
                            assert(is_digit(body[rel]));
                        }
                    }
                }
            }
            return None;
        }
        let d = (b - 48) as u128;
        proof {
            assert(s@.subrange(ib as int, i as int + 1).drop_last() =~= s@.subrange(
                ib as int,
                i as int,
            ));
            assert(s@.subrange(ib as int, i as int + 1).last() == s@[i as int]);
            assert(all_digits(s@.subrange(ib as int, i as int)));
            lemma_digits_val_nonneg(s@.subrange(ib as int, i as int));
        }
        if over {
        } else if acc > i64::MAX as u128 {
            over = true;
        } else {
            acc = acc * 10 + d;
        }
        i = i + 1;
    }
    let int_len = i - ib;
    let mut facc: u128 = 0;
    let mut cnt: usize = 0;
    let mut flen: usize = 0;
    if i < n {
        let mut k = i + 1;
        while k < n
            invariant
                ib <= i < n,
                i + 1 <= k <= n,
                n == s@.len(),
                ib <= 1,
                body == body_of(s@),
                body == s@.skip(ib as int),
                s@[i as int] == 46,
                forall|j: int| ib <= j < i ==> is_digit(#[trigger] s@[j]),
                forall|j: int| i < j < k ==> is_digit(#[trigger] s@[j]),
                flen == k - (i + 1),
                cnt == if flen < 4 { flen } else { 4 },
                facc as int == digits_val(s@.subrange(i as int + 1, i as int + 1 + cnt as int)),
                cnt == 0 ==> facc == 0,
                cnt == 1 ==> facc <= 9,
                cnt == 2 ==> facc <= 99,
                cnt == 3 ==> facc <= 999,
                cnt == 4 ==> facc <= 9999,
                !is_nonfinite_lit(s@),
            decreases n - k,
        {
            let b = s[k];
            if b < 48 || b > 57 {
                proof {
                    let rel = k as int - ib as int;
                    let dotrel = i as int - ib as int;
                    assert(body[rel] == s@[k as int]);
                    assert(body[dotrel] == 46);
                    assert forall|i2: int| !dot_split_ok(body, i2) by {
                        if dot_split_ok(body, i2) {
                            if i2 < dotrel {
                                assert(is_digit(body[i2]));
                            } else if i2 > dotrel {
                                assert(is_digit(body[dotrel]));
                            } else {
                                assert(is_digit(body[rel]));
                            }
                        }
                    }
                }
                return None;
            }
            if cnt < 4 {
                proof {
                    assert(s@.subrange(i as int + 1, i as int + 1 + (cnt as int + 1)).drop_last()
                        =~= s@.subrange(i as int + 1, i as int + 1 + cnt as int));
                    assert(s@.subrange(i as int + 1, i as int + 1 + (cnt as int + 1)).last()
                        == s@[k as int]);
                }
                facc = facc * 10 + (b - 48) as u128;
                cnt = cnt + 1;
            }
            flen = flen + 1;
            k = k + 1;
        }
    }
    if int_len == 0 && (i >= n || flen == 0) {
        proof {
            assert forall|i2: int| !dot_split_ok(body, i2) by {
                if dot_split_ok(body, i2) {
                    if i >= n {
                        assert(body.len() == 0);
                    } else {
                        assert(body.len() == 1);
                        assert(body[0] == 46);
                        if i2 == 0 {
                        } else {
                            assert(is_digit(body[0]));
                        }
                    }
                }
            }
        }
        return None;
    }
    let ghost dotrel = i as int - ib as int;
    proof {
        assert forall|j: int| 0 <= j < dotrel implies is_digit(#[trigger] body[j]) by {
            assert(body[j] == s@[ib + j]);
        }
        assert forall|j: int| dotrel < j < body.len() implies is_digit(#[trigger] body[j]) by {
            assert(body[j] == s@[ib + j]);
        }
        if (i as int) < n as int {
            assert(body[dotrel] == s@[i as int]);
        }
        assert(dot_split_ok(body, dotrel));
        let ii = choose|i2: int| dot_split_ok(body, i2);
        lemma_dot_split_unique(body, ii, dotrel);
        assert(body.take(dotrel) =~= s@.subrange(ib as int, i as int));
        if (i as int) < n as int {
            assert(frac_of(body, dotrel) =~= s@.subrange(i as int + 1, n as int));
        } else {
            assert(frac_of(body, dotrel) =~= Seq::<u8>::empty());
        }
        assert(all_digits(frac_of(body, dotrel)));
        lemma_digits_val_nonneg(frac_of(body, dotrel));
        if frac_of(body, dotrel).len() >= 4 {
            assert(frac_of(body, dotrel).take(4) =~= s@.subrange(i as int + 1, i as int + 5));
            assert(all_digits(frac_of(body, dotrel).take(4)));
            lemma_digits_val_nonneg(frac_of(body, dotrel).take(4));
        }
    }
    let fval: u128 = if cnt == 0 {
        0
    } else if cnt == 1 {
        facc * 1000
    } else if cnt == 2 {
        facc * 100
    } else if cnt == 3 {
        facc * 10
    } else {
        facc
    };
    proof {
        assert(fval as int == frac_e4(frac_of(body, dotrel)));
        assert(fval <= 9999);
    }
    proof {
        assert(is_decimal_lit(s@)) by {
            assert(dot_split_ok(body_of(s@), dotrel));
        }
        assert(sign_of(s@) == if neg {
            -1int
        } else {
            1int
        });
        assert(decimal_val_e4(s@) == sign_of(s@) * (digits_val(body.take(dotrel)) * 10000
            + frac_e4(frac_of(body, dotrel))));
    }
    if over || acc > i64::MAX as u128 {
        proof {
            let iv = digits_val(body.take(dotrel));
            let bv = iv * 10000 + frac_e4(frac_of(body, dotrel));
            assert(iv > i64::MAX);
            assert(iv * 10000 > i64::MAX as int * 10000);
            assert(bv > i64::MAX);
            if neg {
                assert(decimal_val_e4(s@) == -1 * bv);
                assert(decimal_val_e4(s@) < -(i64::MAX as int));
            } else {
                assert(decimal_val_e4(s@) == bv);
            }
            assert(!amount_in_range(decimal_val_e4(s@)));
        }
        return Some(None);
    }
    let total: u128 = acc * 10000 + fval;
    let ghost bv = digits_val(body.take(dotrel)) * 10000 + frac_e4(frac_of(body, dotrel));
    proof {
        assert(total as int == bv);
    }
    if total > i64::MAX as u128 {
        proof {
            if neg {
                assert(decimal_val_e4(s@) == -1 * bv);
                assert(decimal_val_e4(s@) < -(i64::MAX as int));
            } else {
                assert(decimal_val_e4(s@) == bv);
            }
            assert(!amount_in_range(decimal_val_e4(s@)));
        }
        return Some(None);
    }
    let v: i64 = if neg {
        -(total as i64)
    } else {
        total as i64
    };
    proof {
        if neg {
            assert(v as int == -1 * bv);
        } else {
            assert(v as int == 1 * bv);
        }
        assert(v as int == decimal_val_e4(s@));
        assert(amount_in_range(decimal_val_e4(s@)));
    }
    Some(Some(v))
}

pub open spec fn deposit_token() -> Seq<u8> {
    seq![100u8, 101u8, 112u8, 111u8, 115u8, 105u8, 116u8]
}

pub open spec fn withdrawal_token() -> Seq<u8> {
    seq![119u8, 105u8, 116u8, 104u8, 100u8, 114u8, 97u8, 119u8, 97u8, 108u8]
}

pub open spec fn dispute_token() -> Seq<u8> {
    seq![100u8, 105u8, 115u8, 112u8, 117u8, 116u8, 101u8]
}

pub open spec fn resolve_token() -> Seq<u8> {
    seq![114u8, 101u8, 115u8, 111u8, 108u8, 118u8, 101u8]
}

pub open spec fn chargeback_token() -> Seq<u8> {
    seq![99u8, 104u8, 97u8, 114u8, 103u8, 101u8, 98u8, 97u8, 99u8, 107u8]
}

/// What a kind field means: its case-folded text must be one of the five
/// transaction kind tokens.
pub open spec fn kind_of(s: Seq<u8>) -> Option<TransactionType> {
    if lower(s) == deposit_token() {
        Some(TransactionType::Deposit)
    } else if lower(s) == withdrawal_token() {
        Some(TransactionType::Withdrawal)
    } else if lower(s) == dispute_token() {
        Some(TransactionType::Dispute)
    } else if lower(s) == resolve_token() {
        Some(TransactionType::Resolve)
    } else if lower(s) == chargeback_token() {
        Some(TransactionType::Chargeback)
    } else {
        None
    }
}

/// Parse a kind field, case-insensitively.
pub fn parse_kind(s: &[u8]) -> (r: Option<TransactionType>)
    ensures
        r == kind_of(s@),
{
    let n = s.len();
    proof {
        assert(forall|j: int| 0 <= j < n ==> #[trigger] lower(s@)[j] == lower_byte(s@[j]));
    }
    if n == 7 {
        let b0 = low(s[0]);
        let b1 = low(s[1]);
        let b2 = low(s[2]);
        let b3 = low(s[3]);
        let b4 = low(s[4]);
        let b5 = low(s[5]);
        let b6 = low(s[6]);
        if b0 == 100 && b1 == 101 && b2 == 112 && b3 == 111 && b4 == 115 && b5 == 105 && b6
            == 116 {
            proof {
                assert(lower(s@) =~= deposit_token());
            }
            return Some(TransactionType::Deposit);
        }
        if b0 == 100 && b1 == 105 && b2 == 115 && b3 == 112 && b4 == 117 && b5 == 116 && b6
            == 101 {
            proof {
                assert(lower(s@) =~= dispute_token());
            }
            return Some(TransactionType::Dispute);
        }
        if b0 == 114 && b1 == 101 && b2 == 115 && b3 == 111 && b4 == 108 && b5 == 118 && b6
            == 101 {
            proof {
                assert(lower(s@) =~= resolve_token());
            }
            return Some(TransactionType::Resolve);
        }
        proof {
            assert(lower(s@) == deposit_token() ==> b0 == 100 && b1 == 101 && b2 == 112 && b3
                == 111 && b4 == 115 && b5 == 105 && b6 == 116);
            assert(lower(s@) == dispute_token() ==> b0 == 100 && b1 == 105 && b2 == 115 && b3
                == 112 && b4 == 117 && b5 == 116 && b6 == 101);
            assert(lower(s@) == resolve_token() ==> b0 == 114 && b1 == 101 && b2 == 115 && b3
                == 111 && b4 == 108 && b5 == 118 && b6 == 101);
            assert(lower(s@).len() == 7);
        }
        return None;
    }
    if n == 10 {
        let b0 = low(s[0]);
        let b1 = low(s[1]);
        let b2 = low(s[2]);
        let b3 = low(s[3]);
        let b4 = low(s[4]);
        let b5 = low(s[5]);
        let b6 = low(s[6]);
        let b7 = low(s[7]);
        let b8 = low(s[8]);
        let b9 = low(s[9]);
        if b0 == 119 && b1 == 105 && b2 == 116 && b3 == 104 && b4 == 100 && b5 == 114 && b6
            == 97 && b7 == 119 && b8 == 97 && b9 == 108 {
            proof {
                assert(lower(s@) =~= withdrawal_token());
            }
            return Some(TransactionType::Withdrawal);
        }
        if b0 == 99 && b1 == 104 && b2 == 97 && b3 == 114 && b4 == 103 && b5 == 101 && b6 == 98
            && b7 == 97 && b8 == 99 && b9 == 107 {
            proof {
                assert(lower(s@) =~= chargeback_token());
            }
            return Some(TransactionType::Chargeback);
        }
        proof {
            assert(lower(s@) == withdrawal_token() ==> b0 == 119 && b1 == 105 && b2 == 116 && b3
                == 104 && b4 == 100 && b5 == 114 && b6 == 97 && b7 == 119 && b8 == 97 && b9
                == 108);
            assert(lower(s@) == chargeback_token() ==> b0 == 99 && b1 == 104 && b2 == 97 && b3
                == 114 && b4 == 103 && b5 == 101 && b6 == 98 && b7 == 97 && b8 == 99 && b9
                == 107);
            assert(lower(s@).len() == 10);
        }
        return None;
    }
    proof {
        assert(lower(s@).len() == n);
    }
    None
}

/// Interpret the four fields of one input record. The record source is
/// expected to have trimmed whitespace around the fields already.
///
/// `None` means the record is structurally malformed (unreadable kind,
/// client, transaction id, or amount text); an absent or unrepresentable
/// amount field yields a transaction without an amount, which validation
/// then judges.
pub fn parse_record(kind: &[u8], client: &[u8], tx: &[u8], amount: Option<&[u8]>) -> (r: Option<
    Transaction,
>)
    ensures
        match r {
            Some(t) => {
                &&& kind_of(kind@) == Some(t.kind)
                &&& is_uint_lit(client@) && digits_val(client@) <= u16::MAX && t.client as int
                    == digits_val(client@)
                &&& is_uint_lit(tx@) && digits_val(tx@) <= u32::MAX && t.tx as int == digits_val(
                    tx@,
                )
                &&& match amount {
                    None => t.amount is None,
                    Some(ab) => {
                        ||| (is_decimal_lit(ab@) && amount_in_range(decimal_val_e4(ab@))
                            && (t.amount matches Some(v) && v as int == decimal_val_e4(ab@)))
                        ||| ((is_nonfinite_lit(ab@) || (is_decimal_lit(ab@)
                            && !amount_in_range(decimal_val_e4(ab@)))) && t.amount is None)
                    },
                }
            },
            None => {
                ||| kind_of(kind@) is None
                ||| !is_uint_lit(client@)
                ||| digits_val(client@) > u16::MAX
                ||| !is_uint_lit(tx@)
                ||| digits_val(tx@) > u32::MAX
                ||| (amount matches Some(ab) && !is_decimal_lit(ab@) && !is_nonfinite_lit(ab@))
            },
        },
{
    let k = match parse_kind(kind) {
        Some(k) => k,
        None => {
            return None;
        },
    };
    let c = match parse_client(client) {
        Some(c) => c,
        None => {
            return None;
        },
    };
    let x = match parse_tx(tx) {
        Some(x) => x,
        None => {
            return None;
        },
    };
    let a = match amount {
        None => None,
        Some(ab) => match parse_amount(ab) {
            None => {
                return None;
            },
            Some(av) => av,
        },
    };
    Some(Transaction { kind: k, client: c, tx: x, amount: a })
}

} // verus!
