use memory_strategy::binary64::{peak_bytes_to_gb, Binary64};
use memory_strategy::budget::Budget;
use memory_strategy::margin::{
    estimate_margin, stale_measured_margin, stale_widened_peak_bytes, widened_peak_bytes, MarginPolicy,
};
use memory_strategy::provider::MemoryBackend;
use memory_strategy::verdict::{verdict_priority, MemoryEvidenceVerdict};

const BYTES_PER_GIB: f64 = 1024.0 * 1024.0 * 1024.0;

fn binary64(value: f64) -> Binary64 {
    Binary64::from_bits(value.to_bits())
}

fn number(value: Binary64) -> f64 {
    f64::from_bits(value.to_bits())
}

/// Quantities of every size, with the extremes of the format among them.
fn samples() -> Vec<f64> {
    let mut values = vec![
        0.0,
        5e-324,
        2.2250738585072014e-308,
        f64::MIN_POSITIVE / 3.0,
        1e-30,
        0.1,
        0.5,
        1.0,
        1.5,
        2.0,
        26.6,
        28.6,
        47.999999999999996,
        96.0,
        1e10,
        17179869183.999998,
        17179869184.0,
        9007199254740991.0,
        9007199254740992.0,
        1e22,
        1e300,
        f64::MAX / 2.0,
        f64::MAX,
    ];
    let mut state: u64 = 0x9e37_79b9_7f4a_7c15;
    for _ in 0..60 {
        state = state.wrapping_mul(6364136223846793005).wrapping_add(1442695040888963407);
        let exponent = 1023 - 40 + (state >> 57) % 80;
        values.push(f64::from_bits((exponent << 52) | (state >> 12)));
    }
    values
}

#[test]
fn sums_and_differences_are_those_of_the_format() {
    for a in samples() {
        for b in samples() {
            assert_eq!(binary64(a).plus(binary64(b)).to_bits(), (a + b).to_bits(), "{a} + {b}");
            assert_eq!(
                binary64(a).minus_or_zero(binary64(b)).to_bits(),
                if a > b { (a - b).to_bits() } else { 0 },
                "{a} - {b}"
            );
            assert_eq!(binary64(a).lesser(binary64(b)).to_bits(), a.min(b).to_bits());
        }
    }
}

#[test]
fn bytes_are_those_of_the_format() {
    for a in samples() {
        let expected = (a * BYTES_PER_GIB).ceil().clamp(0.0, u64::MAX as f64) as u64;
        assert_eq!(binary64(a).byte_ceiling(), expected, "{a}");
    }
    for bytes in [0, 1, 3, 1 << 30, (1 << 53) - 1, (1 << 53) + 1, (1 << 54) + 6, u64::MAX] {
        assert_eq!(number(peak_bytes_to_gb(bytes)), bytes as f64 / BYTES_PER_GIB, "{bytes}");
    }
}

#[test]
fn patterns_are_classified() {
    assert!(binary64(f64::MAX).is_finite());
    assert!(!binary64(f64::INFINITY).is_finite());
    assert!(!binary64(f64::NAN).is_finite());
    assert!(binary64(-0.0).is_zero());
    assert!(!binary64(-0.0).is_below_zero());
    assert!(binary64(-5e-324).is_below_zero());
    assert!(!binary64(5e-324).is_zero());
}

fn effective(available: f64, reclaimable: f64, total: f64, headroom: f64) -> Option<f64> {
    let budget = Budget {
        available_gb: binary64(available),
        reclaimable_gb: binary64(reclaimable),
        total_gb: binary64(total),
        reserved_headroom_gb: binary64(headroom),
    };
    budget.effective_gb().map(number)
}

#[test]
fn headroom_is_taken_from_the_pool_and_from_the_ceiling() {
    assert_eq!(effective(28.6, 0.0, 96.0, 2.0), Some(28.6 - 2.0));
    assert_eq!(effective(10.0, 4.0, 12.0, 2.0), Some(10.0));
    assert_eq!(effective(1.0, 0.5, 12.0, 2.0), Some(0.0));
    assert_eq!(effective(100.0, 0.0, 1.0, 2.0), Some(0.0));
    assert_eq!(effective(0.1, 0.2, 96.0, 0.0), Some(0.1 + 0.2));
    assert_eq!(effective(f64::MAX, f64::MAX, 8.0, 1.0), Some(7.0));
    assert_eq!(effective(-0.0, 0.0, 8.0, -0.0), Some(0.0));
}

#[test]
fn an_incoherent_budget_has_no_effective_memory() {
    let good = [8.0, 1.0, 16.0, 2.0];
    for index in 0..4 {
        for bad in [f64::NAN, f64::INFINITY, f64::NEG_INFINITY, -1.0] {
            let mut figures = good;
            figures[index] = bad;
            assert_eq!(effective(figures[0], figures[1], figures[2], figures[3]), None);
        }
    }
    assert_eq!(effective(8.0, 1.0, 0.0, 2.0), None);
    assert_eq!(effective(8.0, 1.0, -0.0, 2.0), None);
}

#[test]
fn products_with_a_count_are_exact() {
    let half_again = binary64(-1.5);
    assert_eq!(half_again.times_rounded_up(3), 5);
    assert_eq!(half_again.times_rounded_down(3), 4);
    assert_eq!(half_again.times_rounded_up(u64::MAX), u64::MAX);
    assert_eq!(half_again.times_rounded_down(u64::MAX), u64::MAX);
    assert_eq!(binary64(0.0).times_rounded_up(u64::MAX), 0);
    assert_eq!(binary64(5e-324).times_rounded_up(u64::MAX), 1);
    assert_eq!(binary64(5e-324).times_rounded_down(u64::MAX), 0);
    assert_eq!(binary64(1.0).times_rounded_down((1 << 53) + 1), (1 << 53) + 1);
    assert_eq!(binary64(1e300).times_rounded_up(1), u64::MAX);
    assert_eq!(binary64(1e300).times_rounded_down(0), 0);
    assert_eq!(binary64(0.02).times_rounded_up(50), 2);
    assert_eq!(binary64(0.02).times_rounded_down(50), 1);
}

#[test]
fn widening_rounds_the_exact_product_up_to_a_whole_byte() {
    let cases = [
        (0, 0.02, 0),
        (1, 0.02, 2),
        (50, 0.02, 52),
        (100, 0.02, 103),
        (101, 0.02, 104),
        (70, 0.1, 78),
        (100, 0.1, 111),
        (7, 0.0, 7),
        (7, -0.0, 7),
        (3, 5e-324, 4),
        (3, -5e-324, 3),
        (10, -0.5, 5),
        (10, -0.3, 8),
        (100, -0.1, 90),
        (10, -1.0, 0),
        (10, -1.5, 0),
        ((1 << 53) + 1, 0.0, (1 << 53) + 1),
        ((1 << 53) + 1, 0.5, 13510798882111490),
        (1 << 63, 0.9999999999999999, 18446744073709550592),
        (1 << 63, 1.0, u64::MAX),
        (u64::MAX, -0.5, 1 << 63),
        (u64::MAX, 0.02, u64::MAX),
        (10 << 30, 0.02, 10952166605),
        (10 << 30, 0.252, 13443247637),
    ];
    for (peak, margin, expected) in cases {
        assert_eq!(widened_peak_bytes(peak, binary64(margin)), expected, "{peak} {margin}");
    }
}

#[test]
fn a_margin_that_is_not_finite_leaves_all_or_nothing() {
    assert_eq!(widened_peak_bytes(1, binary64(f64::INFINITY)), u64::MAX);
    assert_eq!(widened_peak_bytes(0, binary64(f64::INFINITY)), 0);
    assert_eq!(widened_peak_bytes(1, binary64(f64::NEG_INFINITY)), 0);
    assert_eq!(widened_peak_bytes(1, binary64(f64::NAN)), 0);
}

#[test]
fn wider_margins_and_larger_peaks_are_not_graded_lower() {
    let margins = [-1.0, -0.25, 0.0, 0.02, 0.252, 3.0];
    let peaks = [0, 1, 99, 100, 1 << 40, u64::MAX];
    for peak in peaks.windows(2) {
        for margin in margins.windows(2) {
            let low = widened_peak_bytes(peak[0], binary64(margin[0]));
            assert!(low <= widened_peak_bytes(peak[1], binary64(margin[0])));
            assert!(low <= widened_peak_bytes(peak[0], binary64(margin[1])));
        }
        assert!(widened_peak_bytes(peak[0], binary64(0.252)) >= peak[0]);
    }
}

#[test]
fn each_backend_has_its_margins() {
    let policy = MarginPolicy {
        candle_stale_measured: binary64(0.25),
        mlx_stale_measured: binary64(0.5),
        candle_estimate: binary64(0.75),
        mlx_estimate: binary64(1.0),
    };
    assert_eq!(stale_measured_margin(&policy, MemoryBackend::Candle), binary64(0.25));
    assert_eq!(stale_measured_margin(&policy, MemoryBackend::Mlx), binary64(0.5));
    assert_eq!(estimate_margin(&policy, MemoryBackend::Candle), binary64(0.75));
    assert_eq!(estimate_margin(&policy, MemoryBackend::Mlx), binary64(1.0));
    assert_eq!(stale_widened_peak_bytes(&policy, MemoryBackend::Candle, 100), 125);
    assert_eq!(stale_widened_peak_bytes(&policy, MemoryBackend::Mlx, 100), 150);
}

#[test]
fn verdicts_are_ranked_from_generic_to_specific() {
    let ranked = [
        MemoryEvidenceVerdict::Satisfied,
        MemoryEvidenceVerdict::Unverified,
        MemoryEvidenceVerdict::Missing,
        MemoryEvidenceVerdict::OutOfEnvelope,
        MemoryEvidenceVerdict::Stale,
        MemoryEvidenceVerdict::FingerprintMismatch,
        MemoryEvidenceVerdict::CompositionMismatch,
        MemoryEvidenceVerdict::Invalid,
    ];
    for (priority, verdict) in ranked.into_iter().enumerate() {
        assert_eq!(verdict_priority(verdict) as usize, priority);
    }
}
