use tradecore::adx::Adx;
use tradecore::atr::Atr;
use tradecore::bollinger_bands::{isqrt_exec, BollingerBands};
use tradecore::ema::Ema;
use tradecore::macd::Macd;
use tradecore::num::{ConfigError, HUNDRED_PERCENT, MAX_PERIOD, MAX_PRICE};
use tradecore::obv::{Obv, SampleError};
use tradecore::rsi::Rsi;
use tradecore::signal::TradeSignal;
use tradecore::smooth::Wilder;
use tradecore::stoch::StochasticOscillator;
use tradecore::stoch_rsi::StochRsi;

#[test]
fn ema_rejects_bad_periods() {
    assert_eq!(Ema::new(0).err(), Some(ConfigError::ZeroPeriod));
    assert_eq!(Ema::new(MAX_PERIOD + 1).err(), Some(ConfigError::PeriodTooLarge));
    assert!(Ema::new(MAX_PERIOD).is_ok());
}

#[test]
fn ema_unavailable_until_period_then_defined() {
    let mut e = Ema::new(3).unwrap();
    assert_eq!(e.update(1), None);
    assert_eq!(e.update(2), None);
    assert_eq!(e.get_ema(), None);
    assert_eq!(e.update(3), Some(2));
    assert_eq!(e.update(4), Some(3));
    assert_eq!(e.update(10), Some(7));
    assert_eq!(e.get_ema(), Some(7));
}

#[test]
fn ema_constant_input_converges_monotonically() {
    let mut e = Ema::new(3).unwrap();
    e.update(10);
    e.update(20);
    assert_eq!(e.update(30), Some(20));
    let mut dist = 20i64;
    let mut seen = Vec::new();
    for _ in 0..10 {
        let v = e.update(0).unwrap();
        assert!(v.abs() <= dist);
        if dist > 0 {
            assert!(v.abs() < dist);
        }
        dist = v.abs();
        seen.push(v);
    }
    assert_eq!(&seen[..6], &[10, 5, 2, 1, 0, 0]);
    assert_eq!(e.get_ema(), Some(0));
}

#[test]
fn ema_negative_samples_round_away_from_zero() {
    let mut e = Ema::new(2).unwrap();
    e.update(-3);
    assert_eq!(e.update(-4), Some(-4));
    assert_eq!(e.update(0), Some(-1));
}

#[test]
fn wilder_seeds_with_mean_then_smooths() {
    let mut w = Wilder::new(2).unwrap();
    assert_eq!(w.update(4), None);
    assert_eq!(w.update(6), Some(5));
    assert_eq!(w.update(10), Some(7));
}

#[test]
fn rsi_warmup_needs_period_changes() {
    let mut r = Rsi::new(2).unwrap();
    assert_eq!(r.update(1000), None);
    assert_eq!(r.update(1200), None);
    assert_eq!(r.update(1100), Some(6666));
    assert_eq!(r.update(1300), Some(8571));
    assert_eq!(r.get_current_rsi(), Some(8571));
}

#[test]
fn rsi_is_hundred_without_losses() {
    let mut r = Rsi::new(2).unwrap();
    r.update(1);
    r.update(2);
    assert_eq!(r.update(3), Some(HUNDRED_PERCENT));
    let mut flat = Rsi::new(2).unwrap();
    flat.update(5);
    flat.update(5);
    assert_eq!(flat.update(5), Some(HUNDRED_PERCENT));
}

#[test]
fn rsi_is_zero_without_gains() {
    let mut r = Rsi::new(2).unwrap();
    r.update(30);
    r.update(20);
    assert_eq!(r.update(10), Some(0));
}

#[test]
fn rsi_stays_within_bounds() {
    let mut r = Rsi::new(3).unwrap();
    let prices = [5, 9, 2, 8, 8, 1, 0, 7, 3, 3, 10, 4];
    for p in prices {
        if let Some(v) = r.update(p) {
            assert!((0..=HUNDRED_PERCENT).contains(&v));
            assert!(v < HUNDRED_PERCENT || r.losses.value == Some(0));
        }
    }
}

#[test]
fn rsi_matches_wilder_textbook_path() {
    let path = [
        44.34, 44.09, 44.15, 43.61, 44.33, 44.83, 45.10, 45.42, 45.84, 46.08, 45.89, 46.03, 45.61,
        46.28, 46.28, 46.00, 46.03, 46.41, 46.22, 45.64,
    ];
    let n = 14usize;
    let mut reference = Vec::new();
    let (mut g, mut l) = (0.0f64, 0.0f64);
    for i in 1..path.len() {
        let c: f64 = path[i] - path[i - 1];
        let (up, down) = (c.max(0.0), (-c).max(0.0));
        if i <= n {
            g += up / n as f64;
            l += down / n as f64;
        } else {
            g = (g * (n - 1) as f64 + up) / n as f64;
            l = (l * (n - 1) as f64 + down) / n as f64;
        }
        if i >= n {
            reference.push(100.0 - 100.0 / (1.0 + g / l));
        }
    }
    let mut rsi = Rsi::new(n).unwrap();
    let mut ours = Vec::new();
    for p in path {
        if let Some(v) = rsi.update((p * 1_000_000.0f64).round() as i64) {
            ours.push(v as f64 / 100.0);
        }
    }
    assert_eq!(ours.len(), 6);
    assert_eq!(reference.len(), 6);
    for (a, b) in ours.iter().zip(reference.iter()) {
        assert!((a - b).abs() < 0.02, "{} vs {}", a, b);
    }
    assert!((ours[0] - 70.46).abs() < 0.02);
}

#[test]
fn atr_seeds_then_smooths_true_range() {
    let mut a = Atr::new(2).unwrap();
    a.update(10, 8, 9);
    assert_eq!(a.get_atr(), None);
    a.update(12, 9, 11);
    assert_eq!(a.get_atr(), Some(2));
    a.update(11, 10, 10);
    assert_eq!(a.get_atr(), Some(1));
}

#[test]
fn atr_uses_gap_from_previous_close() {
    let mut a = Atr::new(1).unwrap();
    a.update(10, 9, 10);
    assert_eq!(a.get_atr(), Some(1));
    a.update(25, 24, 24);
    assert_eq!(a.get_atr(), Some(15));
}

#[test]
fn macd_lines_appear_after_warmup() {
    let mut m = Macd::new(2, 3, 2).unwrap();
    m.update(1);
    m.update(2);
    assert_eq!(m.get_macd_line(), None);
    m.update(3);
    assert_eq!(m.get_macd_line(), Some(1));
    assert_eq!(m.get_signal_line(), None);
    m.update(4);
    assert_eq!(m.get_macd_line(), Some(1));
    assert_eq!(m.get_signal_line(), Some(1));
    assert_eq!(m.get_histogram(), Some(0));
    m.update(100);
    assert_eq!(m.get_macd_line(), Some(16));
    assert_eq!(m.get_signal_line(), Some(11));
    assert_eq!(m.get_histogram(), Some(5));
    assert!(Macd::new(2, 0, 2).is_err());
}

#[test]
fn bollinger_textbook_window() {
    let mut b = BollingerBands::new(8).unwrap();
    for p in [2, 4, 4, 4, 5, 5, 7] {
        b.update(p);
        assert_eq!(b.get_bands(), (None, None, None));
    }
    b.update(9);
    assert_eq!(b.get_bands(), (Some(9), Some(5), Some(1)));
}

#[test]
fn bollinger_window_slides() {
    let mut b = BollingerBands::new(2).unwrap();
    b.update(10);
    b.update(10);
    assert_eq!(b.get_bands(), (Some(10), Some(10), Some(10)));
    b.update(14);
    assert_eq!(b.get_bands(), (Some(16), Some(12), Some(8)));
}

#[test]
fn integer_square_root() {
    assert_eq!(isqrt_exec(0), 0);
    assert_eq!(isqrt_exec(15), 3);
    assert_eq!(isqrt_exec(16), 4);
    let big = (MAX_PRICE as u128) * (MAX_PRICE as u128);
    assert_eq!(isqrt_exec(big), MAX_PRICE as u64);
}

#[test]
fn obv_accumulates_signed_volume() {
    let mut o = Obv::new();
    assert_eq!(o.update(10, 100), Ok(()));
    assert_eq!(o.obv, 100);
    o.update(11, 30).unwrap();
    assert_eq!(o.obv, 130);
    o.update(9, 50).unwrap();
    assert_eq!(o.obv, 80);
    o.update(9, 70).unwrap();
    assert_eq!(o.obv, 80);
    assert_eq!(o.get_trend(), TradeSignal::Hold);
    assert_eq!(o.update(-1, 5), Err(SampleError::BadPrice));
    assert_eq!(o.update(12, u64::MAX), Err(SampleError::OutOfRange));
    assert_eq!(o.obv, 80);
}

#[test]
fn obv_trend_against_its_average() {
    let mut o = Obv::new();
    for i in 0..9 {
        o.update(10 + i, 10).unwrap();
    }
    o.update(30, 1000).unwrap();
    assert_eq!(o.get_trend(), TradeSignal::Buy);
    o.update(1, 5000).unwrap();
    assert_eq!(o.get_trend(), TradeSignal::Sell);
}

#[test]
fn adx_needs_two_periods_and_stays_bounded() {
    let mut a = Adx::new(2).unwrap();
    let bars = [(10, 8, 9), (12, 9, 11), (14, 11, 13), (13, 10, 11), (16, 12, 15), (18, 15, 17)];
    let mut got = Vec::new();
    for (h, l, c) in bars {
        a.update(h, l, c);
        got.push(a.get_adx());
    }
    assert_eq!(got[..3], [None, None, None]);
    assert!(got[3].is_some());
    for v in got.into_iter().flatten() {
        assert!((0..=HUNDRED_PERCENT).contains(&v));
    }
}

#[test]
fn adx_steady_uptrend_is_full_strength() {
    let mut a = Adx::new(2).unwrap();
    for i in 0..6 {
        a.update(20 + 2 * i, 10 + 2 * i, 15 + 2 * i);
    }
    assert_eq!(a.get_adx(), Some(HUNDRED_PERCENT));
}

#[test]
fn stoch_rsi_k_and_d() {
    let mut s = StochRsi::new(2, 2, 1, 2).unwrap();
    let prices = [100, 110, 105, 120, 90, 95, 130];
    let mut ks = Vec::new();
    for p in prices {
        let (k, _) = s.update(p);
        ks.push(k);
    }
    assert!(ks[..3].iter().all(|k| k.is_none()));
    for k in ks.iter().flatten() {
        assert!((0..=HUNDRED_PERCENT).contains(k));
    }
    assert!(s.get_current_d().is_some());
    assert!(StochRsi::new(2, 0, 1, 1).is_err());
}

#[test]
fn stoch_rsi_flat_range_is_zero() {
    let mut s = StochRsi::new(1, 2, 1, 1).unwrap();
    for p in [1, 2, 3, 4] {
        s.update(p);
    }
    assert_eq!(s.get_current_k(), Some(0));
    assert_eq!(s.get_current_d(), Some(0));
}

#[test]
fn stochastic_oscillator_k_and_d() {
    let mut s = StochasticOscillator::new(5).unwrap();
    let data = [450, 460, 470, 485, 505, 520, 530, 550, 570, 560, 555, 540];
    let out: Vec<Option<(i64, i64)>> = data.iter().map(|p| s.update(*p)).collect();
    assert!(out[..4].iter().all(|o| o.is_none()));
    assert_eq!(out[4], Some((10000, 10000)));
    assert_eq!(out[9], Some((8000, 10000)));
    assert_eq!(out[10], Some((6250, 9333)));
    assert_eq!(out[11], Some((0, 8083)));
    assert!(StochasticOscillator::new(0).is_err());
}

#[test]
fn rsi_after_a_fall_is_below_hundred() {
    let mut r = Rsi::new(2).unwrap();
    r.update(100);
    r.update(100);
    assert_eq!(r.update(99), Some(0));
    let mut up = Rsi::new(3).unwrap();
    for p in [100, 99, 150, 200, 250, 300, 350, 400, 450] {
        let v = up.update(p);
        assert_ne!(v, Some(HUNDRED_PERCENT));
    }
}

#[test]
fn bollinger_bands_apart_for_unequal_samples() {
    let mut b = BollingerBands::new(2).unwrap();
    b.update(0);
    b.update(1);
    assert_eq!(b.get_bands(), (Some(2), Some(0), Some(-2)));
    b.update(1);
    assert_eq!(b.get_bands(), (Some(1), Some(1), Some(1)));
}
