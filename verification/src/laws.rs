//! Engine-wide laws, proved against the schedule operations' own
//! specification functions.

use vstd::prelude::*;

use crate::rounding::{lemma_round_half_even_le, round_half_even};
use crate::schedule::{
    adjusted_record, balance_at, capped_payment, ep_target_idx, gen_record, lemma_balance_at_bounds,
    lemma_balance_at_non_increasing, lemma_shorten_balance_bounds, reduce_record,
    reduced_installment, shorten_balance, shorten_record, Loan, PaymentRecord,
};

verus! {

/// Sum of the `principal_payment` field over a schedule.
pub open spec fn total_principal(s: Seq<PaymentRecord>) -> int
    decreases s.len(),
{
    if s.len() == 0 {
        0
    } else {
        total_principal(s.drop_last()) + s.last().principal_payment
    }
}

/// Over the first `n` generated records, the principal payments telescope:
/// they sum to exactly what the balance has lost.
proof fn lemma_gen_prefix_total(loan: Loan, s: Seq<PaymentRecord>, n: int)
    requires
        loan.wf(),
        0 <= n <= s.len(),
        forall|i: int| 0 <= i < s.len() ==> s[i] == gen_record(loan, i),
    ensures
        total_principal(s.take(n)) == loan.principal - balance_at(
            loan.principal as int,
            loan.monthly_principal_payment as int,
            n,
        ),
    decreases n,
{
    let p = loan.principal as int;
    let f = loan.monthly_principal_payment as int;
    if n == 0 {
        assert(s.take(0).len() == 0);
    } else {
        lemma_gen_prefix_total(loan, s, n - 1);
        assert(s.take(n).drop_last() =~= s.take(n - 1));
        assert(s.take(n).last() == s[n - 1]);
        lemma_balance_at_bounds(p, f, n - 1);
    }
}

/// The capped-payment run has a closed form: the balance falls by the full
/// installment each period until it cannot, then is exhausted.
proof fn lemma_balance_at_closed(p: int, f: int, n: int)
    requires
        0 <= p,
        0 <= f,
        0 <= n,
    ensures
        balance_at(p, f, n) == (if p - n * f >= 0 {
            p - n * f
        } else {
            0
        }),
    decreases n,
{
    if n == 0 {
        assert(n * f == 0) by (nonlinear_arith)
            requires
                n == 0,
        ;
    } else {
        lemma_balance_at_closed(p, f, n - 1);
        let b = balance_at(p, f, n - 1);
        assert(n * f == (n - 1) * f + f) by (nonlinear_arith);
        assert(balance_at(p, f, n) == b - capped_payment(b, f));
        if p - (n - 1) * f >= 0 {
            if b < f {
                assert(p - n * f < 0);
            } else {
                assert(balance_at(p, f, n) == p - n * f);
            }
        } else {
            assert(p - n * f < 0);
        }
    }
}

/// Law: over a generated schedule the principal payments sum to the
/// principal within one cent per period, and whenever the flat installment
/// covers the principal (`count * flat >= principal`) the sum is exact and
/// the last record's principal payment exhausts its balance.
pub proof fn lemma_generated_principal_conservation(loan: Loan, s: Seq<PaymentRecord>)
    requires
        loan.wf(),
        loan.monthly_principal_payment == round_half_even(
            loan.principal as int,
            loan.period_count(),
        ),
        s.len() == loan.period_count(),
        forall|i: int| 0 <= i < s.len() ==> s[i] == gen_record(loan, i),
    ensures
        loan.principal - loan.period_count() <= total_principal(s) <= loan.principal,
        loan.period_count() * loan.monthly_principal_payment >= loan.principal ==> {
            &&& total_principal(s) == loan.principal
            &&& s.last().remaining_principal - s.last().principal_payment == 0
        },
{
    let p = loan.principal as int;
    let f = loan.monthly_principal_payment as int;
    let c = loan.period_count();
    lemma_gen_prefix_total(loan, s, c);
    assert(s.take(c) =~= s);
    lemma_balance_at_bounds(p, f, c);
    lemma_balance_at_closed(p, f, c);
    if p - c * f >= 0 {
        // f is the rounded average payment, so c payments miss p by less
        // than one cent each: c * f > p - c.
        vstd::arithmetic::div_mod::lemma_fundamental_div_mod(p, c);
        assert(0 <= p % c < c) by {
            vstd::arithmetic::div_mod::lemma_mod_bound(p, c);
        }
        assert(p / c <= f);
        assert((p / c) * c <= f * c) by (nonlinear_arith)
            requires
                p / c <= f,
                0 <= c,
        ;
        assert(c * (p / c) == (p / c) * c) by (nonlinear_arith);
        assert(c * f == f * c) by (nonlinear_arith);
        assert(p - c * f < c);
    }
    if c * f >= p {
        assert(balance_at(p, f, c) == 0);
        lemma_balance_at_bounds(p, f, c - 1);
        assert(s.last() == s[c - 1]);
        assert(balance_at(p, f, c) == balance_at(p, f, c - 1) - capped_payment(
            balance_at(p, f, c - 1),
            f,
        ));
    }
}

/// Law: in a generated schedule the remaining principal is non-increasing
/// across consecutive periods.
pub proof fn lemma_generated_non_increasing(loan: Loan, s: Seq<PaymentRecord>)
    requires
        loan.wf(),
        forall|i: int| 0 <= i < s.len() ==> s[i] == gen_record(loan, i),
    ensures
        forall|i: int|
            0 <= i && i + 1 < s.len() ==> (#[trigger] s[i + 1]).remaining_principal
                <= s[i].remaining_principal,
{
    let p = loan.principal as int;
    let f = loan.monthly_principal_payment as int;
    assert forall|i: int|
        0 <= i && i + 1 < s.len() implies (#[trigger] s[i + 1]).remaining_principal
        <= s[i].remaining_principal by {
        lemma_balance_at_bounds(p, f, i);
        lemma_balance_at_bounds(p, f, i + 1);
        lemma_balance_at_non_increasing(p, f, i, i + 1);
    }
}

/// Law: a rate adjustment leaves the remaining principal non-increasing
/// across consecutive periods whenever it was before: it never touches the
/// `remaining_principal` column.  The hypotheses are exactly what
/// `Loan::adjust_rate` ensures.
pub proof fn lemma_adjust_non_increasing(
    s_old: Seq<PaymentRecord>,
    s_new: Seq<PaymentRecord>,
    new_rate: int,
    from_period: int,
)
    requires
        1 <= from_period,
        forall|i: int|
            0 <= i && i + 1 < s_old.len() ==> (#[trigger] s_old[i + 1]).remaining_principal
                <= s_old[i].remaining_principal,
        s_new.len() == s_old.len(),
        forall|k: int|
            0 <= k < s_old.len() && k < from_period - 1 ==> s_new[k] == s_old[k],
        forall|k: int|
            from_period - 1 <= k < s_old.len() ==> s_new[k] == adjusted_record(s_old[k], new_rate),
    ensures
        forall|i: int|
            0 <= i && i + 1 < s_new.len() ==> (#[trigger] s_new[i + 1]).remaining_principal
                <= s_new[i].remaining_principal,
{
    assert forall|i: int|
        0 <= i && i + 1 < s_new.len() implies (#[trigger] s_new[i + 1]).remaining_principal
        <= s_new[i].remaining_principal by {
        assert(s_new[i].remaining_principal == s_old[i].remaining_principal);
        assert(s_new[i + 1].remaining_principal == s_old[i + 1].remaining_principal);
    }
}

/// For a generated schedule whose flat installment covers the principal
/// (`count * flat >= principal`), every record's balance is covered by the
/// flat payments left to the contractual end, so
/// `lemma_reduced_installment_not_larger` applies at any target record.
pub proof fn lemma_generated_balances_coverable(loan: Loan, s: Seq<PaymentRecord>, idx: int)
    requires
        loan.wf(),
        loan.period_count() * loan.monthly_principal_payment >= loan.principal,
        0 <= idx < s.len(),
        s.len() <= loan.period_count(),
        forall|i: int| 0 <= i < s.len() ==> s[i] == gen_record(loan, i),
    ensures
        s[idx].remaining_principal <= (loan.months - s[idx].period + 1)
            * loan.monthly_principal_payment,
    decreases idx,
{
    let p = loan.principal as int;
    let f = loan.monthly_principal_payment as int;
    let c = loan.period_count();
    lemma_balance_at_closed(p, f, idx);
    lemma_balance_at_bounds(p, f, idx);
    assert(s[idx].period == loan.done_months + idx + 1);
    assert(loan.months - s[idx].period + 1 == c - idx);
    assert((c - idx) * f == c * f - idx * f) by (nonlinear_arith);
    assert(idx * f >= 0) by (nonlinear_arith)
        requires
            0 <= idx,
            0 <= f,
    ;
}

/// Law: a shorten-term early payment leaves the remaining principal
/// non-increasing across consecutive periods whenever it was before.  The
/// hypotheses are exactly what `Loan::make_early_payment` ensures of an
/// accepted shorten-term request.
pub proof fn lemma_shorten_non_increasing(
    s_old: Seq<PaymentRecord>,
    s_new: Seq<PaymentRecord>,
    idx: int,
    b0: int,
    extra: int,
)
    requires
        0 <= idx < s_old.len(),
        0 <= b0 <= s_old[idx].remaining_principal,
        forall|i: int|
            0 <= i && i + 1 < s_old.len() ==> (#[trigger] s_old[i + 1]).remaining_principal
                <= s_old[i].remaining_principal,
        idx < s_new.len() <= s_old.len(),
        forall|k: int| 0 <= k < idx ==> s_new[k] == s_old[k],
        forall|k: int|
            idx <= k < s_new.len() ==> s_new[k] == shorten_record(s_old, idx, b0, extra, k),
    ensures
        forall|i: int|
            0 <= i && i + 1 < s_new.len() ==> (#[trigger] s_new[i + 1]).remaining_principal
                <= s_new[i].remaining_principal,
{
    assert forall|i: int|
        0 <= i && i + 1 < s_new.len() implies (#[trigger] s_new[i + 1]).remaining_principal
        <= s_new[i].remaining_principal by {
        lemma_shorten_balance_bounds(s_old, idx, b0, i - idx);
        lemma_shorten_balance_bounds(s_old, idx, b0, i + 1 - idx);
        if i + 1 == idx {
            assert(s_new[idx].remaining_principal == b0);
            assert(s_old[idx].remaining_principal <= s_old[idx - 1].remaining_principal);
        }
    }
}

/// Law: a reduce-installment early payment leaves the remaining principal
/// non-increasing across consecutive periods whenever it was before.  The
/// hypotheses are exactly what `Loan::make_early_payment` ensures of an
/// accepted reduce-installment request.
pub proof fn lemma_reduce_non_increasing(
    s_old: Seq<PaymentRecord>,
    s_new: Seq<PaymentRecord>,
    idx: int,
    b0: int,
    flat: int,
    extra: int,
)
    requires
        0 <= idx < s_old.len(),
        0 <= b0 <= s_old[idx].remaining_principal,
        0 <= flat,
        forall|i: int|
            0 <= i && i + 1 < s_old.len() ==> (#[trigger] s_old[i + 1]).remaining_principal
                <= s_old[i].remaining_principal,
        s_new.len() == s_old.len(),
        forall|k: int| 0 <= k < idx ==> s_new[k] == s_old[k],
        forall|k: int|
            idx <= k < s_new.len() ==> s_new[k] == reduce_record(s_old, idx, b0, flat, extra, k),
    ensures
        forall|i: int|
            0 <= i && i + 1 < s_new.len() ==> (#[trigger] s_new[i + 1]).remaining_principal
                <= s_new[i].remaining_principal,
{
    assert forall|i: int|
        0 <= i && i + 1 < s_new.len() implies (#[trigger] s_new[i + 1]).remaining_principal
        <= s_new[i].remaining_principal by {
        lemma_balance_at_bounds(b0, flat, i - idx);
        lemma_balance_at_bounds(b0, flat, i + 1 - idx);
        lemma_balance_at_non_increasing(b0, flat, i - idx, i + 1 - idx);
        if i + 1 == idx {
            assert(s_new[idx].remaining_principal == b0);
            assert(s_old[idx].remaining_principal <= s_old[idx - 1].remaining_principal);
        }
    }
}

/// Law: a reduce-installment early payment of at least one cent never
/// raises the flat installment, provided the target record's balance is
/// covered by the remaining flat payments (`remaining <= n * flat`):
/// spreading a smaller balance over the same periods cannot need more per
/// period.
pub proof fn lemma_reduced_installment_not_larger(
    loan: Loan,
    s: Seq<PaymentRecord>,
    extra: int,
    period: int,
)
    requires
        0 <= ep_target_idx(loan, period) < s.len(),
        s[ep_target_idx(loan, period)].period <= loan.months,
        1 <= extra <= s[ep_target_idx(loan, period)].remaining_principal,
        s[ep_target_idx(loan, period)].remaining_principal <= (loan.months - s[ep_target_idx(
            loan,
            period,
        )].period + 1) * loan.monthly_principal_payment,
    ensures
        reduced_installment(loan, s, extra, period) <= loan.monthly_principal_payment,
{
    let idx = ep_target_idx(loan, period);
    let n = loan.months - s[idx].period + 1;
    let f = loan.monthly_principal_payment as int;
    let b0 = s[idx].remaining_principal - extra;
    assert(n * f == f * n) by (nonlinear_arith);
    lemma_round_half_even_le(b0, n, f);
}

} // verus!
