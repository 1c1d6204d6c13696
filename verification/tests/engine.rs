use amortization::date::Date;
use amortization::schedule::{Loan, LoanError, PaymentRecord};

fn sample_loan() -> Loan {
    // principal 536714.20, 4.2% p.a., 57 of 288 periods already paid
    let start = Date::new(2024, 10, 19).unwrap();
    Loan::new(53_671_420, 4_200, 57, 288, start).unwrap()
}

fn sample_schedule() -> (Loan, Vec<PaymentRecord>) {
    let loan = sample_loan();
    let schedule = loan.generate_schedule().unwrap();
    (loan, schedule)
}

#[test]
fn generate_concrete_scenario() {
    let (loan, schedule) = sample_schedule();
    assert_eq!(loan.monthly_principal_payment, 232_344);
    assert_eq!(schedule.len(), 231);
    assert_eq!(schedule[0].period, 58);
    assert_eq!(schedule[0].remaining_principal, 53_671_420);
    assert_eq!(schedule[0].interest, 187_850);
    assert_eq!(schedule[0].interest_rate, 4_200);
    assert_eq!(schedule[0].early_payment, None);
    let last = schedule[230];
    assert_eq!(last.period, 288);
    assert_eq!(last.remaining_principal - last.principal_payment, 0);
}

#[test]
fn generate_dates_advance_by_month() {
    let (_, schedule) = sample_schedule();
    assert_eq!(schedule[0].payment_date, Date::new(2024, 10, 19).unwrap());
    assert_eq!(schedule[1].payment_date, Date::new(2024, 11, 19).unwrap());
    assert_eq!(schedule[2].payment_date, Date::new(2024, 12, 19).unwrap());
    assert_eq!(schedule[3].payment_date, Date::new(2025, 1, 19).unwrap());
}

#[test]
fn generate_rejects_impossible_date() {
    // advancing from January 31st names February 31st, which must fail
    // loudly rather than clamp
    let start = Date::new(2025, 1, 31).unwrap();
    let loan = Loan::new(1_000_000, 4_200, 0, 12, start).unwrap();
    assert_eq!(loan.generate_schedule().unwrap_err(), LoanError::InvalidDate);
}

#[test]
fn generate_trailing_advance_also_checked() {
    // a single-period schedule still advances once past its only record
    let start = Date::new(2025, 1, 31).unwrap();
    let loan = Loan::new(1_000_000, 4_200, 0, 1, start).unwrap();
    assert_eq!(loan.generate_schedule().unwrap_err(), LoanError::InvalidDate);
}

#[test]
fn new_rejects_empty_term() {
    let start = Date::new(2024, 10, 19).unwrap();
    assert_eq!(
        Loan::new(53_671_420, 4_200, 288, 288, start).unwrap_err(),
        LoanError::EmptyTerm
    );
    assert_eq!(
        Loan::new(53_671_420, 4_200, 289, 288, start).unwrap_err(),
        LoanError::EmptyTerm
    );
}

#[test]
fn principal_payments_sum_to_principal() {
    let (_, schedule) = sample_schedule();
    let total: u64 = schedule.iter().map(|r| r.principal_payment).sum();
    assert_eq!(total, 53_671_420);
}

#[test]
fn principal_payments_sum_within_tolerance_when_rounded_down() {
    // 100.00 over 3 periods: the installment rounds down to 33.33, so one
    // cent is left outstanding after the last period
    let start = Date::new(2024, 10, 19).unwrap();
    let loan = Loan::new(10_000, 4_200, 0, 3, start).unwrap();
    assert_eq!(loan.monthly_principal_payment, 3_333);
    let schedule = loan.generate_schedule().unwrap();
    let total: u64 = schedule.iter().map(|r| r.principal_payment).sum();
    assert_eq!(total, 9_999);
    let last = schedule[2];
    assert_eq!(last.remaining_principal - last.principal_payment, 1);
}

#[test]
fn total_payment_keeps_uncapped_installment() {
    // 100.00 over 6 periods rounds the installment up to 16.67; the last
    // period caps the principal at 16.65 but the total still reflects the
    // uncapped installment
    let start = Date::new(2024, 10, 19).unwrap();
    let loan = Loan::new(10_000, 4_200, 0, 6, start).unwrap();
    assert_eq!(loan.monthly_principal_payment, 1_667);
    let schedule = loan.generate_schedule().unwrap();
    let last = schedule[5];
    assert_eq!(last.principal_payment, 1_665);
    assert_eq!(last.total_payment, 1_667 + last.interest);
}

#[test]
fn remaining_principal_non_increasing() {
    let (mut loan, mut schedule) = sample_schedule();
    for w in schedule.windows(2) {
        assert!(w[1].remaining_principal <= w[0].remaining_principal);
    }
    loan.adjust_rate(3_900, 2, &mut schedule);
    loan.make_early_payment(1_000_000, 60, true, &mut schedule);
    for w in schedule.windows(2) {
        assert!(w[1].remaining_principal <= w[0].remaining_principal);
    }
    loan.make_early_payment(1_000_000, 65, false, &mut schedule);
    for w in schedule.windows(2) {
        assert!(w[1].remaining_principal <= w[0].remaining_principal);
    }
}

#[test]
fn adjust_rate_concrete_scenario() {
    let (mut loan, mut schedule) = sample_schedule();
    let before = schedule.clone();
    loan.adjust_rate(3_900, 2, &mut schedule);
    loan.adjust_rate(3_550, 3, &mut schedule);
    assert_eq!(loan.annual_rate, 3_550);
    assert_eq!(schedule.len(), 231);
    // period 58 untouched, field for field
    assert_eq!(schedule[0].period, before[0].period);
    assert_eq!(schedule[0].interest, before[0].interest);
    assert_eq!(schedule[0].principal_payment, before[0].principal_payment);
    assert_eq!(schedule[0].remaining_principal, before[0].remaining_principal);
    assert_eq!(schedule[0].total_payment, before[0].total_payment);
    assert_eq!(schedule[0].interest_rate, 4_200);
    assert_eq!(schedule[0].payment_date, before[0].payment_date);
    assert_eq!(schedule[0].early_payment, before[0].early_payment);
    // period 59 carries 3.9%, period 60 onward 3.55%
    assert_eq!(schedule[1].interest_rate, 3_900);
    assert_eq!(schedule[1].remaining_principal, 53_439_076);
    assert_eq!(schedule[1].interest, 173_677);
    assert_eq!(schedule[1].total_payment, 232_344 + 173_677);
    for (i, r) in schedule.iter().enumerate().skip(2) {
        assert_eq!(r.interest_rate, 3_550);
        assert_eq!(r.principal_payment, before[i].principal_payment);
        assert_eq!(r.remaining_principal, before[i].remaining_principal);
    }
}

#[test]
fn adjust_rate_past_end_changes_only_the_loan() {
    let (mut loan, mut schedule) = sample_schedule();
    let before = schedule.clone();
    loan.adjust_rate(3_900, 500, &mut schedule);
    assert_eq!(loan.annual_rate, 3_900);
    assert_eq!(schedule.len(), before.len());
    for (a, b) in schedule.iter().zip(before.iter()) {
        assert_eq!(a.interest, b.interest);
        assert_eq!(a.interest_rate, b.interest_rate);
        assert_eq!(a.total_payment, b.total_payment);
    }
}

#[test]
fn early_payment_full_balance_truncates_to_target() {
    let (mut loan, mut schedule) = sample_schedule();
    let extra = schedule[9].remaining_principal;
    loan.make_early_payment(extra, 67, true, &mut schedule);
    assert_eq!(schedule.len(), 10);
    let last = schedule[9];
    assert_eq!(last.period, 67);
    assert_eq!(last.remaining_principal, 0);
    assert_eq!(last.principal_payment, 0);
    assert_eq!(last.early_payment, Some(extra));
}

#[test]
fn early_payment_shorten_term_never_lengthens() {
    let (mut loan, mut schedule) = sample_schedule();
    let flat = loan.monthly_principal_payment;
    let len_before = schedule.len();
    loan.make_early_payment(1_000_000, 59, true, &mut schedule);
    assert!(schedule.len() <= len_before);
    // the target record carries the payment and the reduced balance
    assert_eq!(schedule[1].early_payment, Some(1_000_000));
    assert_eq!(schedule[1].remaining_principal, 52_439_076);
    // the installment itself is untouched by the shorten-term strategy
    assert_eq!(loan.monthly_principal_payment, flat);
    for r in &schedule {
        assert!(r.principal_payment <= r.remaining_principal);
    }
}

#[test]
fn early_payment_shorten_term_truncates_when_balance_runs_out() {
    let (mut loan, mut schedule) = sample_schedule();
    let extra = schedule[0].remaining_principal - 100;
    loan.make_early_payment(extra, 58, true, &mut schedule);
    assert_eq!(schedule.len(), 1);
    assert_eq!(schedule[0].remaining_principal, 100);
    assert_eq!(schedule[0].principal_payment, 100);
}

#[test]
fn early_payment_reduce_installment_keeps_length() {
    let (mut loan, mut schedule) = sample_schedule();
    let old_flat = loan.monthly_principal_payment;
    loan.make_early_payment(1_000_000, 60, false, &mut schedule);
    assert_eq!(schedule.len(), 231);
    // 522067.32 spread over periods 60..=288
    assert_eq!(loan.monthly_principal_payment, 227_977);
    assert!(loan.monthly_principal_payment <= old_flat);
    assert_eq!(schedule[2].early_payment, Some(1_000_000));
    assert_eq!(schedule[2].remaining_principal, 52_206_732);
    assert_eq!(schedule[2].principal_payment, 227_977);
    // records before the target are untouched
    assert_eq!(schedule[1].principal_payment, 232_344);
}

#[test]
fn early_payment_out_of_range_is_a_silent_noop() {
    let (mut loan, mut schedule) = sample_schedule();
    let before = schedule.clone();
    let flat = loan.monthly_principal_payment;
    // period at or before the already-paid part
    loan.make_early_payment(1_000_000, 57, true, &mut schedule);
    // period past the end of the schedule
    loan.make_early_payment(1_000_000, 289, false, &mut schedule);
    assert_eq!(loan.monthly_principal_payment, flat);
    assert_eq!(schedule.len(), before.len());
    for (a, b) in schedule.iter().zip(before.iter()) {
        assert_eq!(a.remaining_principal, b.remaining_principal);
        assert_eq!(a.early_payment, b.early_payment);
    }
}

#[test]
fn early_payment_exceeding_balance_is_a_silent_noop() {
    let (mut loan, mut schedule) = sample_schedule();
    let before = schedule.clone();
    let too_much = schedule[4].remaining_principal + 1;
    loan.make_early_payment(too_much, 62, true, &mut schedule);
    assert_eq!(schedule.len(), before.len());
    for (a, b) in schedule.iter().zip(before.iter()) {
        assert_eq!(a.remaining_principal, b.remaining_principal);
        assert_eq!(a.principal_payment, b.principal_payment);
        assert_eq!(a.early_payment, b.early_payment);
    }
}

#[test]
fn total_interest_is_idempotent() {
    let (loan, schedule) = sample_schedule();
    let first = loan.total_interest_paid(&schedule);
    let second = loan.total_interest_paid(&schedule);
    assert_eq!(first, second);
    assert!(first > 0);
}

#[test]
fn total_interest_sums_the_interest_column() {
    let (loan, schedule) = sample_schedule();
    let by_hand: u64 = schedule.iter().map(|r| r.interest).sum();
    assert_eq!(loan.total_interest_paid(&schedule), by_hand);
    assert_eq!(loan.total_interest_paid(&Vec::new()), 0);
}

#[test]
fn installment_division_rounds_half_to_even() {
    let start = Date::new(2024, 10, 19).unwrap();
    // 5.00 over 8 periods is exactly 0.625: the half cent goes down to the
    // even neighbour
    let even = Loan::new(500, 4_200, 0, 8, start).unwrap();
    assert_eq!(even.monthly_principal_payment, 62);
    // 7.00 over 8 periods is exactly 0.875: the half cent goes up to the
    // even neighbour
    let odd = Loan::new(700, 4_200, 0, 8, start).unwrap();
    assert_eq!(odd.monthly_principal_payment, 88);
}

#[test]
fn interest_rounds_half_to_even() {
    let start = Date::new(2024, 10, 19).unwrap();
    // 3.00 at 6% is exactly 1.5 cents of monthly interest: up to 2
    let odd = Loan::new(300, 6_000, 0, 1, start).unwrap();
    let schedule = odd.generate_schedule().unwrap();
    assert_eq!(schedule[0].interest, 2);
    // 1.00 at 6% is exactly 0.5 cents of monthly interest: down to 0
    let even = Loan::new(100, 6_000, 0, 1, start).unwrap();
    let schedule = even.generate_schedule().unwrap();
    assert_eq!(schedule[0].interest, 0);
}
