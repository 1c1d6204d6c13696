//! The amortization engine.
//!
//! A [`Loan`] holds the parameters of a fixed-principal installment loan and
//! the flat principal installment currently in force.  It produces an ordered
//! payment schedule ([`Loan::generate_schedule`]) and mutates it in place:
//! a mid-schedule interest-rate change ([`Loan::adjust_rate`]) and an early
//! principal payment under a shorten-term or reduce-installment strategy
//! ([`Loan::make_early_payment`]).

use vstd::prelude::*;

use crate::date::{month_add, next_month, Date};
use crate::rounding::{div_round2, mul_rate_round2};
use crate::rounding::{
    lemma_round_half_even_le, monthly_interest, round_half_even, MAX_AMOUNT_CENTS,
    MAX_RATE_MILLI_PCT,
};

verus! {

/// Largest term, in periods, the engine computes with.
pub const MAX_PERIODS: u32 = 1_000_000;

/// Rejections that construction and generation report.
#[derive(Clone, Copy, Debug, PartialEq, Eq, Structural)]
pub enum LoanError {
    /// The term has no periods left: `months <= done_months`.
    EmptyTerm,
    /// Advancing a payment date by one month named a day that does not
    /// exist in the new month.
    InvalidDate,
}

/// One period of a payment schedule, ordered by `period` ascending.
#[derive(Clone, Copy, Debug)]
pub struct PaymentRecord {
    /// Absolute period index: months already paid plus the local period number.
    pub period: u32,
    /// Interest charged this period, in cents.
    pub interest: u64,
    /// Principal paid this period, capped at the remaining balance, in cents.
    pub principal_payment: u64,
    /// Balance before this period's principal payment, in cents.
    pub remaining_principal: u64,
    /// Principal installment plus interest, in cents.
    pub total_payment: u64,
    /// Annual rate in force this period, in thousandths of a percent.
    pub interest_rate: u32,
    /// Calendar date of this period.
    pub payment_date: Date,
    /// Extra principal recorded at this period, if any, in cents.
    pub early_payment: Option<u64>,
}

/// The record's amounts are within the engine's fixed-point range.
pub open spec fn record_wf(r: PaymentRecord) -> bool {
    &&& r.remaining_principal <= MAX_AMOUNT_CENTS
    &&& r.principal_payment <= MAX_AMOUNT_CENTS
    &&& r.interest <= MAX_AMOUNT_CENTS
    &&& r.interest_rate <= MAX_RATE_MILLI_PCT
}

/// Every record is within range and the schedule is not absurdly long.
pub open spec fn schedule_wf(s: Seq<PaymentRecord>) -> bool {
    &&& s.len() <= MAX_PERIODS
    &&& forall|i: int| 0 <= i < s.len() ==> record_wf(#[trigger] s[i])
}

/// The principal actually paid in one period: the planned installment,
/// capped at the remaining balance.
pub open spec fn capped_payment(balance: int, installment: int) -> int {
    if balance < installment {
        balance
    } else {
        installment
    }
}

/// Balance before the `n`-th period (0-indexed) of a run that starts with
/// balance `start` and pays `installment`, capped, each period.
pub open spec fn balance_at(start: int, installment: int, n: int) -> int
    decreases n,
{
    if n <= 0 {
        start
    } else {
        let b = balance_at(start, installment, n - 1);
        b - capped_payment(b, installment)
    }
}

/// A capped-payment run never drives the balance below zero or above where
/// it started.
pub proof fn lemma_balance_at_bounds(start: int, installment: int, n: int)
    requires
        0 <= start,
        0 <= installment,
    ensures
        0 <= balance_at(start, installment, n) <= start,
    decreases n,
{
    if n > 0 {
        lemma_balance_at_bounds(start, installment, n - 1);
    }
}

/// A capped-payment run's balance is non-increasing.
pub proof fn lemma_balance_at_non_increasing(start: int, installment: int, m: int, n: int)
    requires
        0 <= start,
        0 <= installment,
        m <= n,
    ensures
        balance_at(start, installment, n) <= balance_at(start, installment, m),
    decreases n - m,
{
    if m < n {
        lemma_balance_at_non_increasing(start, installment, m, n - 1);
        lemma_balance_at_bounds(start, installment, n - 1);
    }
}

/// The parameters of a fixed-principal installment loan, plus the flat
/// principal installment currently in force (a mutable derived value: it is
/// recomputed by a reduce-installment early payment).
#[derive(Clone, Copy, Debug)]
pub struct Loan {
    /// Amount owed at schedule start, in cents.
    pub principal: u64,
    /// Annual rate in thousandths of a percent (4200 = 4.2%).
    pub annual_rate: u32,
    /// Periods already paid before this schedule starts.
    pub done_months: u32,
    /// Total contractual term, in periods.
    pub months: u32,
    /// Date of the first period of the generated schedule.
    pub start_date: Date,
    /// Flat principal installment currently in force, in cents.
    pub monthly_principal_payment: u64,
}

impl Loan {
    /// Number of periods a generated schedule covers.
    pub open spec fn period_count(self) -> int {
        self.months - self.done_months
    }

    /// The loan's parameters are within the engine's fixed-point range and
    /// its term is not empty.
    pub open spec fn wf(self) -> bool {
        &&& self.done_months < self.months
        &&& self.months <= MAX_PERIODS
        &&& self.principal <= MAX_AMOUNT_CENTS
        &&& self.annual_rate <= MAX_RATE_MILLI_PCT
        &&& self.monthly_principal_payment <= MAX_AMOUNT_CENTS
        &&& self.start_date.wf()
    }

    /// Builds a loan, deriving the flat installment
    /// `round2(principal / (months - done_months))`; a term with no periods
    /// left is a domain error, never a division by zero.
    pub fn new(
        principal: u64,
        annual_rate: u32,
        done_months: u32,
        months: u32,
        start_date: Date,
    ) -> (r: Result<Loan, LoanError>)
        requires
            principal <= MAX_AMOUNT_CENTS,
            annual_rate <= MAX_RATE_MILLI_PCT,
            months <= MAX_PERIODS,
            start_date.wf(),
        ensures
            done_months < months ==> r == Ok::<Loan, LoanError>(
                Loan {
                    principal,
                    annual_rate,
                    done_months,
                    months,
                    start_date,
                    monthly_principal_payment: round_half_even(
                        principal as int,
                        months - done_months,
                    ) as u64,
                },
            ) && r.unwrap().wf(),
            months <= done_months ==> r == Err::<Loan, LoanError>(LoanError::EmptyTerm),
    {
        if months <= done_months {
            return Err(LoanError::EmptyTerm);
        }
        proof {
            assert(principal as int <= principal as int * ((months - done_months) as int))
                by (nonlinear_arith)
                requires
                    0 <= principal as int,
                    1 <= (months - done_months) as int,
            ;
            lemma_round_half_even_le(
                principal as int,
                (months - done_months) as int,
                principal as int,
            );
        }
        let monthly_principal_payment = div_round2(principal, months - done_months);
        Ok(
            Loan {
                principal,
                annual_rate,
                done_months,
                months,
                start_date,
                monthly_principal_payment,
            },
        )
    }
}

/// The `i`-th (0-indexed) record of a generation pass over `loan`.
pub open spec fn gen_record(loan: Loan, i: int) -> PaymentRecord {
    let flat = loan.monthly_principal_payment as int;
    let bal = balance_at(loan.principal as int, flat, i);
    let interest = monthly_interest(bal, loan.annual_rate as int);
    PaymentRecord {
        period: (loan.done_months + i + 1) as u32,
        interest: interest as u64,
        principal_payment: capped_payment(bal, flat) as u64,
        remaining_principal: bal as u64,
        // the uncapped installment: generation totals deliberately ignore
        // the cap that principal_payment honours
        total_payment: (flat + interest) as u64,
        interest_rate: loan.annual_rate,
        payment_date: month_add(loan.start_date, i),
        early_payment: None,
    }
}

/// Every date a generation pass over `count` periods computes names a real
/// calendar day.  The pass advances the date once more after the last
/// record, so offset `count` is included.
pub open spec fn dates_ok(start: Date, count: int) -> bool {
    forall|j: int| 1 <= j <= count ==> (#[trigger] month_add(start, j)).wf()
}

impl Loan {
    /// Produces the full ordered schedule: `months - done_months` records
    /// starting at `start_date`, one calendar month apart.  Errs, touching
    /// nothing, exactly when some advanced date names no real calendar day.
    pub fn generate_schedule(&self) -> (r: Result<Vec<PaymentRecord>, LoanError>)
        requires
            self.wf(),
        ensures
            (r is Ok) == dates_ok(self.start_date, self.period_count()),
            r is Ok ==> r.unwrap()@.len() == self.period_count(),
            r is Ok ==> forall|i: int|
                0 <= i < self.period_count() ==> r.unwrap()@[i] == gen_record(*self, i),
            r is Ok ==> schedule_wf(r.unwrap()@),
            r is Err ==> r == Err::<Vec<PaymentRecord>, LoanError>(LoanError::InvalidDate),
    {
        let count = self.months - self.done_months;
        let flat = self.monthly_principal_payment;
        let mut remaining: u64 = self.principal;
        let mut current_date = self.start_date;
        let mut schedule: Vec<PaymentRecord> = Vec::new();
        let mut i: u32 = 0;
        while i < count
            invariant
                self.wf(),
                count == self.period_count(),
                flat == self.monthly_principal_payment,
                i <= count,
                schedule@.len() == i as int,
                forall|k: int| 0 <= k < i as int ==> schedule@[k] == gen_record(*self, k),
                forall|k: int| 0 <= k < i as int ==> record_wf(#[trigger] schedule@[k]),
                remaining == balance_at(self.principal as int, flat as int, i as int),
                current_date == month_add(self.start_date, i as int),
                current_date.wf(),
                forall|j: int| 1 <= j <= i as int ==> (#[trigger] month_add(self.start_date, j)).wf(),
            decreases count - i,
        {
            proof {
                lemma_balance_at_bounds(self.principal as int, flat as int, i as int);
                assert(remaining as int * self.annual_rate as int <= MAX_AMOUNT_CENTS as int
                    * crate::rounding::MONTHLY_RATE_DENOM as int) by (nonlinear_arith)
                    requires
                        0 <= remaining as int <= MAX_AMOUNT_CENTS as int,
                        0 <= self.annual_rate as int <= crate::rounding::MONTHLY_RATE_DENOM as int,
                ;
                lemma_round_half_even_le(
                    remaining as int * self.annual_rate as int,
                    crate::rounding::MONTHLY_RATE_DENOM as int,
                    MAX_AMOUNT_CENTS as int,
                );
            }
            let interest = mul_rate_round2(remaining, self.annual_rate);
            let total_payment = flat + interest;
            let principal_payment = if remaining < flat {
                remaining
            } else {
                flat
            };
            schedule.push(
                PaymentRecord {
                    period: i + 1 + self.done_months,
                    interest,
                    principal_payment,
                    remaining_principal: remaining,
                    total_payment,
                    interest_rate: self.annual_rate,
                    payment_date: current_date,
                    early_payment: None,
                },
            );
            remaining = remaining - principal_payment;
            current_date = match current_date.advance_month() {
                Some(d) => d,
                None => {
                    proof {
                        assert(month_add(self.start_date, i as int + 1) == next_month(
                            current_date,
                        ));
                        assert(!month_add(self.start_date, i as int + 1).wf());
                    }
                    return Err(LoanError::InvalidDate);
                },
            };
            i = i + 1;
        }
        Ok(schedule)
    }
}

/// What rate adjustment makes of one record: `new_rate` in force, interest
/// recomputed from the record's fixed balance, total refreshed; the
/// principal figures, date and early payment inherited unchanged.
pub open spec fn adjusted_record(r: PaymentRecord, new_rate: int) -> PaymentRecord {
    let interest = monthly_interest(r.remaining_principal as int, new_rate);
    PaymentRecord {
        interest_rate: new_rate as u32,
        interest: interest as u64,
        total_payment: (r.principal_payment + interest) as u64,
        ..r
    }
}

impl Loan {
    /// Recomputes interest and total for every record from 1-indexed
    /// `from_period` to the end of the schedule at `new_rate`, leaving
    /// earlier records and all principal figures untouched; the loan's own
    /// rate moves to `new_rate` in any case.  A start period beyond the end
    /// of the schedule touches no record.
    pub fn adjust_rate(
        &mut self,
        new_rate: u32,
        from_period: u32,
        schedule: &mut Vec<PaymentRecord>,
    )
        requires
            1 <= from_period,
            new_rate <= MAX_RATE_MILLI_PCT,
            schedule_wf(old(schedule)@),
        ensures
            *final(self) == (Loan { annual_rate: new_rate, ..*old(self) }),
            final(schedule)@.len() == old(schedule)@.len(),
            forall|i: int|
                0 <= i < old(schedule)@.len() && i < from_period - 1 ==> final(schedule)@[i]
                    == old(schedule)@[i],
            forall|i: int|
                from_period - 1 <= i < old(schedule)@.len() ==> final(schedule)@[i]
                    == adjusted_record(old(schedule)@[i], new_rate as int),
            schedule_wf(final(schedule)@),
    {
        self.annual_rate = new_rate;
        let len = schedule.len();
        let mut i: usize = if from_period as usize <= len {
            from_period as usize - 1
        } else {
            len
        };
        while i < len
            invariant
                1 <= from_period,
                *self == (Loan { annual_rate: new_rate, ..*old(self) }),
                len == old(schedule)@.len(),
                schedule@.len() == len,
                new_rate <= MAX_RATE_MILLI_PCT,
                i <= len,
                from_period - 1 <= i as int || i as int == len,
                forall|k: int|
                    0 <= k < len && k < i as int && k < from_period - 1 ==> schedule@[k]
                        == old(schedule)@[k],
                forall|k: int|
                    from_period - 1 <= k < i as int ==> schedule@[k] == adjusted_record(
                        old(schedule)@[k],
                        new_rate as int,
                    ),
                forall|k: int| i as int <= k < len ==> schedule@[k] == old(schedule)@[k],
                forall|k: int| 0 <= k < len ==> record_wf(#[trigger] schedule@[k]),
                schedule_wf(old(schedule)@),
            decreases len - i,
        {
            let rec = schedule[i];
            proof {
                assert(record_wf(old(schedule)@[i as int]));
                assert(rec.remaining_principal as int * new_rate as int <= MAX_AMOUNT_CENTS as int
                    * crate::rounding::MONTHLY_RATE_DENOM as int) by (nonlinear_arith)
                    requires
                        0 <= rec.remaining_principal as int <= MAX_AMOUNT_CENTS as int,
                        0 <= new_rate as int <= crate::rounding::MONTHLY_RATE_DENOM as int,
                ;
                lemma_round_half_even_le(
                    rec.remaining_principal as int * new_rate as int,
                    crate::rounding::MONTHLY_RATE_DENOM as int,
                    MAX_AMOUNT_CENTS as int,
                );
            }
            let interest = mul_rate_round2(rec.remaining_principal, new_rate);
            schedule[i] = PaymentRecord {
                interest_rate: new_rate,
                interest,
                total_payment: rec.principal_payment + interest,
                ..rec
            };
            i = i + 1;
        }
    }
}

/// 0-indexed position in the schedule of absolute period `period`.
pub open spec fn ep_target_idx(loan: Loan, period: int) -> int {
    period - loan.done_months - 1
}

/// The early-payment request names a record of the schedule and does not
/// exceed the balance outstanding there; any other request is a silent
/// no-op.
pub open spec fn ep_applies(loan: Loan, s: Seq<PaymentRecord>, extra: int, period: int) -> bool {
    let idx = ep_target_idx(loan, period);
    &&& 0 <= idx < s.len()
    &&& extra <= s[idx].remaining_principal
}

/// Balance before record `idx + j` of a shorten-term walk that starts with
/// balance `b0` before record `idx` and keeps each record's planned
/// principal payment, capped.
pub open spec fn shorten_balance(s: Seq<PaymentRecord>, idx: int, b0: int, j: int) -> int
    decreases j,
{
    if j <= 0 {
        b0
    } else {
        let b = shorten_balance(s, idx, b0, j - 1);
        b - capped_payment(b, s[idx + j - 1].principal_payment as int)
    }
}

/// A shorten-term walk never drives the balance below zero or above where
/// it started.
pub proof fn lemma_shorten_balance_bounds(s: Seq<PaymentRecord>, idx: int, b0: int, j: int)
    requires
        0 <= b0,
    ensures
        0 <= shorten_balance(s, idx, b0, j) <= b0,
    decreases j,
{
    if j > 0 {
        lemma_shorten_balance_bounds(s, idx, b0, j - 1);
    }
}

/// Number of records a shorten-term walk rewrites from index `i` on with
/// balance `bal`: it stops with the first record that drives the balance to
/// exactly zero, or at the end of the schedule.
pub open spec fn shorten_span(s: Seq<PaymentRecord>, i: int, bal: int) -> int
    decreases s.len() - i,
{
    if i < 0 || i >= s.len() {
        0
    } else {
        let pp = capped_payment(bal, s[i].principal_payment as int);
        if bal - pp == 0 {
            1
        } else {
            1 + shorten_span(s, i + 1, bal - pp)
        }
    }
}

/// What a shorten-term walk makes of record `i`: balance, principal,
/// interest and total re-derived from the walk's running balance at the
/// record's own rate; period, rate and date inherited; the extra payment
/// recorded at the target record only.
pub open spec fn shorten_record(
    s: Seq<PaymentRecord>,
    idx: int,
    b0: int,
    extra: int,
    i: int,
) -> PaymentRecord {
    let bal = shorten_balance(s, idx, b0, i - idx);
    let pp = capped_payment(bal, s[i].principal_payment as int);
    let interest = monthly_interest(bal, s[i].interest_rate as int);
    PaymentRecord {
        interest: interest as u64,
        principal_payment: pp as u64,
        remaining_principal: bal as u64,
        total_payment: (pp + interest) as u64,
        early_payment: if i == idx {
            Some(extra as u64)
        } else {
            s[i].early_payment
        },
        ..s[i]
    }
}

/// The flat installment a reduce-installment payment at `period` derives:
/// the new balance spread evenly over the periods from `period` through the
/// contractual end, inclusive.
pub open spec fn reduced_installment(
    loan: Loan,
    s: Seq<PaymentRecord>,
    extra: int,
    period: int,
) -> int {
    let idx = ep_target_idx(loan, period);
    let b0 = s[idx].remaining_principal - extra;
    round_half_even(b0, loan.months - s[idx].period + 1)
}

/// What a reduce-installment walk makes of record `i`, paying `flat`,
/// capped, each period from balance `b0` before record `idx`.
pub open spec fn reduce_record(
    s: Seq<PaymentRecord>,
    idx: int,
    b0: int,
    flat: int,
    extra: int,
    i: int,
) -> PaymentRecord {
    let bal = balance_at(b0, flat, i - idx);
    let pp = capped_payment(bal, flat);
    let interest = monthly_interest(bal, s[i].interest_rate as int);
    PaymentRecord {
        interest: interest as u64,
        principal_payment: pp as u64,
        remaining_principal: bal as u64,
        total_payment: (pp + interest) as u64,
        early_payment: if i == idx {
            Some(extra as u64)
        } else {
            s[i].early_payment
        },
        ..s[i]
    }
}

impl Loan {
    /// Applies an extra principal payment at absolute period `period`.
    ///
    /// A request aimed outside the schedule, or exceeding the balance
    /// outstanding at the target record, changes nothing.  Otherwise the
    /// extra payment is recorded at the target record and the schedule is
    /// re-derived from there at each record's own rate: under shorten-term
    /// the planned principal payments stand and the schedule is cut off as
    /// soon as the balance reaches exactly zero; under reduce-installment
    /// the loan's flat installment is re-spread over the remaining
    /// contractual periods and the schedule keeps its length.
    pub fn make_early_payment(
        &mut self,
        extra_payment: u64,
        period: u32,
        shorten_term: bool,
        schedule: &mut Vec<PaymentRecord>,
    )
        requires
            old(self).wf(),
            schedule_wf(old(schedule)@),
            !shorten_term && ep_applies(
                *old(self),
                old(schedule)@,
                extra_payment as int,
                period as int,
            ) ==> old(schedule)@[ep_target_idx(*old(self), period as int)].period <= old(
                self,
            ).months,
        ensures
            !ep_applies(*old(self), old(schedule)@, extra_payment as int, period as int) ==> {
                &&& *final(self) == *old(self)
                &&& final(schedule)@ == old(schedule)@
            },
            ep_applies(*old(self), old(schedule)@, extra_payment as int, period as int) ==> ({
                let s = old(schedule)@;
                let idx = ep_target_idx(*old(self), period as int);
                let b0 = s[idx].remaining_principal - extra_payment;
                &&& (forall|k: int| 0 <= k < idx ==> final(schedule)@[k] == s[k])
                &&& (shorten_term ==> {
                    &&& *final(self) == *old(self)
                    &&& final(schedule)@.len() == idx + shorten_span(s, idx, b0)
                    &&& forall|k: int|
                        idx <= k < final(schedule)@.len() ==> final(schedule)@[k]
                            == shorten_record(s, idx, b0, extra_payment as int, k)
                })
                &&& (!shorten_term ==> {
                    let flat = reduced_installment(
                        *old(self),
                        s,
                        extra_payment as int,
                        period as int,
                    );
                    &&& *final(self) == (Loan {
                        monthly_principal_payment: flat as u64,
                        ..*old(self)
                    })
                    &&& forall|k: int|
                        idx <= k < s.len() ==> final(schedule)@[k] == reduce_record(
                            s,
                            idx,
                            b0,
                            flat,
                            extra_payment as int,
                            k,
                        )
                })
            }),
            final(self).wf(),
            schedule_wf(final(schedule)@),
            shorten_term ==> final(schedule)@.len() <= old(schedule)@.len(),
            !shorten_term ==> final(schedule)@.len() == old(schedule)@.len(),
    {
        if period <= self.done_months {
            return;
        }
        let idx: usize = (period - self.done_months - 1) as usize;
        if idx >= schedule.len() {
            return;
        }
        let rec0 = schedule[idx];
        if extra_payment > rec0.remaining_principal {
            return;
        }
        let b0: u64 = rec0.remaining_principal - extra_payment;
        schedule[idx] = PaymentRecord { early_payment: Some(extra_payment), ..rec0 };
        let ghost s0 = old(schedule)@;
        if shorten_term {
            let len = schedule.len();
            let mut bal: u64 = b0;
            let mut i: usize = idx;
            let mut new_len: usize = len;
            while i < len
                invariant_except_break
                    schedule_wf(s0),
                    s0.len() == len,
                    schedule@.len() == len,
                    idx <= i <= len,
                    idx < len,
                    new_len == len,
                    b0 <= MAX_AMOUNT_CENTS,
                    bal <= MAX_AMOUNT_CENTS,
                    bal as int == shorten_balance(s0, idx as int, b0 as int, i as int - idx as int),
                    shorten_span(s0, idx as int, b0 as int) == (i as int - idx as int)
                        + shorten_span(s0, i as int, bal as int),
                    forall|k: int| 0 <= k < idx as int ==> schedule@[k] == s0[k],
                    forall|k: int|
                        idx as int <= k < i as int ==> schedule@[k] == shorten_record(
                            s0,
                            idx as int,
                            b0 as int,
                            extra_payment as int,
                            k,
                        ),
                    forall|k: int|
                        idx as int <= k < i as int ==> record_wf(#[trigger] schedule@[k]),
                    forall|k: int|
                        i as int <= k < len ==> schedule@[k] == (if k == idx as int {
                            PaymentRecord { early_payment: Some(extra_payment), ..s0[k] }
                        } else {
                            s0[k]
                        }),
                ensures
                    schedule@.len() == len,
                    idx < len,
                    new_len as int == idx as int + shorten_span(s0, idx as int, b0 as int),
                    idx < new_len <= len,
                    forall|k: int| 0 <= k < idx as int ==> schedule@[k] == s0[k],
                    forall|k: int|
                        idx as int <= k < new_len as int ==> schedule@[k] == shorten_record(
                            s0,
                            idx as int,
                            b0 as int,
                            extra_payment as int,
                            k,
                        ),
                    forall|k: int|
                        idx as int <= k < new_len as int ==> record_wf(#[trigger] schedule@[k]),
                decreases len - i,
            {
                let rec = schedule[i];
                proof {
                    assert(rec.principal_payment == s0[i as int].principal_payment);
                    assert(rec.interest_rate == s0[i as int].interest_rate);
                    assert(record_wf(s0[i as int]));
                    assert(bal as int * rec.interest_rate as int <= MAX_AMOUNT_CENTS as int
                        * crate::rounding::MONTHLY_RATE_DENOM as int) by (nonlinear_arith)
                        requires
                            0 <= bal as int <= MAX_AMOUNT_CENTS as int,
                            0 <= rec.interest_rate as int
                                <= crate::rounding::MONTHLY_RATE_DENOM as int,
                    ;
                    lemma_round_half_even_le(
                        bal as int * rec.interest_rate as int,
                        crate::rounding::MONTHLY_RATE_DENOM as int,
                        MAX_AMOUNT_CENTS as int,
                    );
                }
                let interest = mul_rate_round2(bal, rec.interest_rate);
                let pp = if bal < rec.principal_payment {
                    bal
                } else {
                    rec.principal_payment
                };
                let total = pp + interest;
                schedule[i] = PaymentRecord {
                    interest,
                    principal_payment: pp,
                    remaining_principal: bal,
                    total_payment: total,
                    ..rec
                };
                bal = bal - pp;
                i = i + 1;
                if bal == 0 {
                    new_len = i;
                    break;
                }
            }
            proof {
                if i == len && new_len == len {
                    assert(shorten_span(s0, len as int, bal as int) == 0);
                }
            }
            schedule.truncate(new_len);
            proof {
                assert(final(schedule)@ =~= schedule@.subrange(0, new_len as int));
            }
        } else {
            let remaining_period: u32 = self.months - rec0.period + 1;
            proof {
                assert(b0 as int <= b0 as int * remaining_period as int) by (nonlinear_arith)
                    requires
                        0 <= b0 as int,
                        1 <= remaining_period as int,
                ;
                lemma_round_half_even_le(b0 as int, remaining_period as int, b0 as int);
            }
            let newflat = div_round2(b0, remaining_period);
            self.monthly_principal_payment = newflat;
            let len = schedule.len();
            let mut bal: u64 = b0;
            let mut i: usize = idx;
            while i < len
                invariant
                    schedule_wf(s0),
                    s0.len() == len,
                    schedule@.len() == len,
                    idx <= i <= len,
                    idx < len,
                    b0 <= MAX_AMOUNT_CENTS,
                    newflat <= MAX_AMOUNT_CENTS,
                    bal <= MAX_AMOUNT_CENTS,
                    bal as int == balance_at(b0 as int, newflat as int, i as int - idx as int),
                    *self == (Loan {
                        monthly_principal_payment: newflat,
                        ..*old(self)
                    }),
                    forall|k: int| 0 <= k < idx as int ==> schedule@[k] == s0[k],
                    forall|k: int|
                        idx as int <= k < i as int ==> schedule@[k] == reduce_record(
                            s0,
                            idx as int,
                            b0 as int,
                            newflat as int,
                            extra_payment as int,
                            k,
                        ),
                    forall|k: int|
                        idx as int <= k < i as int ==> record_wf(#[trigger] schedule@[k]),
                    forall|k: int|
                        i as int <= k < len ==> schedule@[k] == (if k == idx as int {
                            PaymentRecord { early_payment: Some(extra_payment), ..s0[k] }
                        } else {
                            s0[k]
                        }),
                decreases len - i,
            {
                let rec = schedule[i];
                proof {
                    assert(rec.interest_rate == s0[i as int].interest_rate);
                    assert(record_wf(s0[i as int]));
                    assert(bal as int * rec.interest_rate as int <= MAX_AMOUNT_CENTS as int
                        * crate::rounding::MONTHLY_RATE_DENOM as int) by (nonlinear_arith)
                        requires
                            0 <= bal as int <= MAX_AMOUNT_CENTS as int,
                            0 <= rec.interest_rate as int
                                <= crate::rounding::MONTHLY_RATE_DENOM as int,
                    ;
                    lemma_round_half_even_le(
                        bal as int * rec.interest_rate as int,
                        crate::rounding::MONTHLY_RATE_DENOM as int,
                        MAX_AMOUNT_CENTS as int,
                    );
                }
                let interest = mul_rate_round2(bal, rec.interest_rate);
                let pp = if bal < newflat {
                    bal
                } else {
                    newflat
                };
                let total = pp + interest;
                schedule[i] = PaymentRecord {
                    interest,
                    principal_payment: pp,
                    remaining_principal: bal,
                    total_payment: total,
                    ..rec
                };
                bal = bal - pp;
                i = i + 1;
            }
        }
    }
}

/// Sum of the `interest` field over a schedule.
pub open spec fn total_interest(s: Seq<PaymentRecord>) -> int
    decreases s.len(),
{
    if s.len() == 0 {
        0
    } else {
        total_interest(s.drop_last()) + s.last().interest
    }
}

impl Loan {
    /// Sum of `interest` across all records: a pure reduction whose result
    /// is a function of the schedule alone, so repeated calls on an
    /// unmutated schedule agree.
    pub fn total_interest_paid(&self, schedule: &Vec<PaymentRecord>) -> (r: u64)
        requires
            schedule_wf(schedule@),
        ensures
            r == total_interest(schedule@),
    {
        let mut sum: u64 = 0;
        let mut i: usize = 0;
        while i < schedule.len()
            invariant
                schedule_wf(schedule@),
                i <= schedule@.len(),
                sum == total_interest(schedule@.take(i as int)),
                sum as int <= i as int * MAX_AMOUNT_CENTS as int,
            decreases schedule@.len() - i,
        {
            proof {
                assert(schedule@.take(i as int + 1).drop_last() =~= schedule@.take(i as int));
                assert(schedule@.take(i as int + 1).last() == schedule@[i as int]);
                assert((i as int + 1) * MAX_AMOUNT_CENTS as int == i as int * MAX_AMOUNT_CENTS as int
                    + MAX_AMOUNT_CENTS as int) by (nonlinear_arith);
                assert(i as int * MAX_AMOUNT_CENTS as int <= MAX_PERIODS as int
                    * MAX_AMOUNT_CENTS as int) by (nonlinear_arith)
                    requires
                        0 <= i as int <= MAX_PERIODS as int,
                ;
            }
            sum = sum + schedule[i].interest;
            i = i + 1;
        }
        proof {
            assert(schedule@.take(schedule@.len() as int) =~= schedule@);
        }
        sum
    }
}

} // verus!
