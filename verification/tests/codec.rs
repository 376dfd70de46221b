//! Tests of the file codecs: day bars, minute bars, the corporate-action
//! cipher and container, and the forward-adjustment engine.

use rustdx::file::day::Day;
use rustdx::file::fq::FqPoint;
use rustdx::file::gbbq::{Gbbq, Gbbqs, KeySchedule};
use rustdx::file::lc::Lc;
use rustdx::Error;

fn day_record(date: u32, open: u32, high: u32, low: u32, close: u32, vol: u32) -> Vec<u8> {
    let mut v = Vec::new();
    v.extend_from_slice(&date.to_le_bytes());
    v.extend_from_slice(&open.to_le_bytes());
    v.extend_from_slice(&high.to_le_bytes());
    v.extend_from_slice(&low.to_le_bytes());
    v.extend_from_slice(&close.to_le_bytes());
    v.extend_from_slice(&1234.5f32.to_bits().to_le_bytes());
    v.extend_from_slice(&vol.to_le_bytes());
    v.extend_from_slice(&[0, 0, 0, 0]);
    v
}

#[test]
fn day_from_bytes_fields() {
    let rec = day_record(20210923, 1810, 1832, 1765, 1768, 1379837);
    let d = Day::from_bytes(1, &rec);
    assert_eq!(d.date, 20210923);
    assert_eq!(d.code, 1);
    assert_eq!(d.open, 1810);
    assert_eq!(d.high, 1832);
    assert_eq!(d.low, 1765);
    assert_eq!(d.close, 1768);
    assert_eq!(f32::from_bits(d.amount), 1234.5);
    assert_eq!(d.vol, 1379837);
    assert_eq!(d.open as f32 / 100.0, 18.10);
    assert_eq!(d.close as f32 / 100.0, 17.68);
    assert_eq!(d.date_string(), "2021-09-23");
    assert_eq!(d.ymd_arr(), [2021, 9, 23]);
}

#[test]
fn day_round_trip_first_28_bytes() {
    let rec = day_record(20210923, 1810, 1832, 1765, 1768, 1379837);
    let d = Day::from_bytes(7, &rec);
    let enc = d.to_bytes();
    assert_eq!(enc.len(), 32);
    assert_eq!(&enc[..28], &rec[..28]);
}

#[test]
fn day_from_bytes_vec_rejects_bad_length() {
    let rec = day_record(20210923, 1810, 1832, 1765, 1768, 100);
    let mut two = rec.clone();
    two.extend_from_slice(&rec);
    let ok = Day::from_bytes_vec(1, &two).unwrap();
    assert_eq!(ok.len(), 2);
    assert_eq!(ok[0].date, 20210923);
    let bad = Day::from_bytes_vec(1, &two[..33]);
    assert!(matches!(bad, Err(Error::Invalid { .. })));
    let empty = Day::from_bytes_vec(1, &[]).unwrap();
    assert!(empty.is_empty());
}

#[test]
fn lc_from_bytes_fields() {
    // year 2021 => (2021 - 2004) << 11; month 9, day 23 => 923.
    let packed: u16 = ((2021 - 2004) << 11) + 9 * 100 + 23;
    let mut v = Vec::new();
    v.extend_from_slice(&packed.to_le_bytes());
    v.extend_from_slice(&570u16.to_le_bytes()); // 09:30
    v.extend_from_slice(&18.1f32.to_bits().to_le_bytes());
    v.extend_from_slice(&18.3f32.to_bits().to_le_bytes());
    v.extend_from_slice(&17.9f32.to_bits().to_le_bytes());
    v.extend_from_slice(&18.0f32.to_bits().to_le_bytes());
    v.extend_from_slice(&9999.0f32.to_bits().to_le_bytes());
    v.extend_from_slice(&500u32.to_le_bytes());
    v.extend_from_slice(&[0, 0, 0, 0]);
    let lc = Lc::from_bytes(2, &v);
    assert_eq!(lc.ymd_arr(), [2021, 9, 23]);
    assert_eq!(lc.hm_arr(), [9, 30]);
    assert_eq!(f32::from_bits(lc.open), 18.1);
    assert_eq!(f32::from_bits(lc.close), 18.0);
    assert_eq!(lc.vol, 500);
    assert_eq!(lc.date_string(), "2021-09-23");
    assert_eq!(lc.datetime_string(), "2021-09-23:09:30");
    let all = Lc::from_bytes_vec(2, &v).unwrap();
    assert_eq!(all.len(), 1);
    assert!(matches!(Lc::from_bytes_vec(2, &v[..30]), Err(Error::Invalid { .. })));
}

fn test_key() -> KeySchedule {
    let bytes: Vec<u8> = (0..4168u32).map(|i| (i % 251) as u8).collect();
    KeySchedule::new(bytes).unwrap()
}

#[test]
fn key_schedule_length_is_checked() {
    assert!(matches!(KeySchedule::new(vec![0; 100]), Err(Error::Custom(_))));
    assert!(KeySchedule::new(vec![0; 4168]).is_ok());
}

#[test]
fn gbbq_decryption_is_deterministic() {
    let key = test_key();
    let cipher: Vec<u8> = (0..29u8).collect();
    let a = rustdx::file::gbbq::parse(&cipher, &key);
    let b = rustdx::file::gbbq::parse(&cipher, &key);
    assert_eq!(a, b);
    assert_eq!(a.len(), 29);
    // The last five bytes are carried through verbatim.
    assert_eq!(&a[24..], &cipher[24..]);
    // The cipher does change the first 24 bytes under this schedule.
    assert_ne!(&a[..24], &cipher[..24]);
}

#[test]
fn gbbq_from_chunk_reads_fields() {
    let mut chunk = vec![0u8; 29];
    chunk[0] = 1;
    chunk[1..7].copy_from_slice(b"000001");
    chunk[8..12].copy_from_slice(&19900301u32.to_le_bytes());
    chunk[12] = 1;
    chunk[13..17].copy_from_slice(&0.0f32.to_bits().to_le_bytes());
    chunk[17..21].copy_from_slice(&3.56f32.to_bits().to_le_bytes());
    chunk[21..25].copy_from_slice(&0.0f32.to_bits().to_le_bytes());
    chunk[25..29].copy_from_slice(&1.0f32.to_bits().to_le_bytes());
    let g = Gbbq::from_chunk(&chunk);
    assert_eq!(g.market, 1);
    assert_eq!(&g.code, b"000001");
    assert_eq!(g.date, 19900301);
    assert_eq!(g.category, 1);
    assert_eq!(f32::from_bits(g.fh_qltp), 0.0);
    assert_eq!(f32::from_bits(g.pgj_qzgb), 3.56);
    assert_eq!(f32::from_bits(g.sg_hltp), 0.0);
    assert_eq!(f32::from_bits(g.pg_hzgb), 1.0);
}

#[test]
fn gbbqs_to_vec_decrypts_once() {
    let key = test_key();
    let mut data = Vec::new();
    data.extend_from_slice(&2u32.to_le_bytes());
    data.extend((0..58u8).map(|i| i.wrapping_mul(7)));
    let mut gs = Gbbqs::from_bytes(data.clone()).unwrap();
    assert_eq!(gs.count, u32::from_le_bytes([data[0], data[1], data[2], data[3]]) as usize);
    assert!(!gs.parsed);
    let records = gs.to_vec(&key);
    assert_eq!(records.len(), 2);
    assert!(gs.parsed);
    // A second call decodes the already-decrypted bytes to the same records.
    let again = gs.to_vec(&key);
    assert_eq!(again.len(), 2);
    for (a, b) in records.iter().zip(again.iter()) {
        assert_eq!(a.code, b.code);
        assert_eq!(a.date, b.date);
        assert_eq!(a.category, b.category);
        assert_eq!(a.fh_qltp, b.fh_qltp);
    }
    assert!(matches!(Gbbqs::from_bytes(vec![1, 2]), Err(Error::Custom(_))));
}

#[test]
fn gbbqs_data_accessors_skip_the_header() {
    let mut data = Vec::new();
    data.extend_from_slice(&0u32.to_le_bytes());
    data.extend_from_slice(&[10, 20, 30]);
    let mut gs = Gbbqs::from_bytes(data).unwrap();
    assert_eq!(gs.get_data(), &[10, 20, 30]);
    let tail = gs.get_data_mut();
    tail[0] = 99;
    assert_eq!(gs.get_data(), &[99, 20, 30]);
    assert_eq!(gs.count, 0);
}

fn gbbq_event(code: &[u8; 6], date: u32, category: u8) -> Gbbq {
    Gbbq {
        market: 0,
        code: code.to_vec(),
        date,
        category,
        fh_qltp: 0.0f32.to_bits(),
        pgj_qzgb: 0.0f32.to_bits(),
        sg_hltp: 10.0f32.to_bits(),
        pg_hzgb: 0.0f32.to_bits(),
    }
}

#[test]
fn filter_hashmap_groups_by_code() {
    let records = vec![
        gbbq_event(b"000001", 19900301, 1),
        gbbq_event(b"000001", 19910405, 1),
        gbbq_event(b"000001", 19920101, 2), // wrong category: dropped
        gbbq_event(b"400001", 19900301, 1), // not an A-share prefix: dropped
        gbbq_event(b"600000", 20000101, 1),
    ];
    let hm = Gbbq::filter_hashmap(records);
    assert_eq!(hm.len(), 2);
    assert_eq!(hm[&1].len(), 2);
    assert_eq!(hm[&1][0].date, 19900301);
    assert_eq!(hm[&1][1].date, 19910405);
    assert_eq!(hm[&600000].len(), 1);
    assert!(!hm.contains_key(&400001));
}

fn bar(date: u32, close: u32) -> Day {
    Day { date, code: 1, open: close, high: close, low: close, close, amount: 0, vol: 0 }
}

/// The floating-point factor fold the callers of the engine perform,
/// as consumers of the engine evaluate it.
fn fold_factors(points: &[FqPoint], mut preclose: f64, mut factor: f64) -> Vec<(f64, f64, f64)> {
    let mut out = Vec::new();
    for p in points {
        let mut pc = preclose;
        if let Some(e) = p.event {
            let fh = f32::from_bits(e.fh_qltp) as f64;
            let pgj = f32::from_bits(e.pgj_qzgb) as f64;
            let sg = f32::from_bits(e.sg_hltp) as f64;
            let pg = f32::from_bits(e.pg_hzgb) as f64;
            pc = (pc * 10.0 - fh + pg * pgj) / (10.0 + pg + sg);
        }
        let close = p.close as f64 / 100.0;
        factor *= close / pc;
        out.push((pc, close, factor));
        if p.trading {
            preclose = close;
        }
    }
    out
}

#[test]
fn engine_no_gbbq_factors() {
    // Three consecutive bars with closes 18.10, 17.35, 17.57.
    let days = vec![bar(20210923, 1810), bar(20210924, 1735), bar(20210927, 1757)];
    let points = FqPoint::new_no_gbbq(&days).unwrap();
    assert_eq!(points.len(), 3);
    assert!(points.iter().all(|p| p.trading && !p.xdxr && p.event.is_none()));
    let first_close = days[0].close as f64 / 100.0;
    let rows = fold_factors(&points, first_close, 1.0);
    assert_eq!(rows[0], (18.10, 18.10, 1.0));
    assert_eq!(rows[1].0, 18.10);
    assert_eq!(rows[1].2, 17.35 / 18.10);
    assert_eq!(rows[2].0, 17.35);
    assert_eq!(rows[2].2, (17.35 / 18.10) * (17.57 / 17.35));
    assert!(FqPoint::new_no_gbbq(&Vec::new()).is_none());
}

#[test]
fn engine_trading_count_equals_bars() {
    let days = vec![
        bar(20210901, 1000),
        bar(20210902, 1010),
        bar(20210906, 1020),
        bar(20210907, 1030),
    ];
    // One event on a trading day, one between trading days, one beyond.
    let g1 = vec![
        gbbq_event(b"000001", 20210902, 1),
        gbbq_event(b"000001", 20210904, 1),
        gbbq_event(b"000001", 20211001, 1),
    ];
    let points = FqPoint::new_listing(&days, &g1).unwrap();
    let trading = points.iter().filter(|p| p.trading).count();
    assert_eq!(trading, days.len());
    let xdxr = points.iter().filter(|p| p.xdxr).count();
    assert_eq!(xdxr, 2);
    // The halted event emits a non-trading point under the next bar's date.
    let halted: Vec<_> = points.iter().filter(|p| !p.trading).collect();
    assert_eq!(halted.len(), 1);
    assert_eq!(halted[0].date, 20210906);
    assert!(halted[0].xdxr);
}

#[test]
fn engine_listing_discards_events_before_first_bar() {
    let days = vec![bar(20210901, 1000), bar(20210902, 1010)];
    let g1 = vec![gbbq_event(b"000001", 20200101, 1), gbbq_event(b"000001", 20210902, 1)];
    let listing = FqPoint::new_listing(&days, &g1).unwrap();
    // The pre-listing event is dropped silently: only the trading points remain.
    assert_eq!(listing.len(), 2);
    assert!(listing.iter().all(|p| p.trading));
    assert!(listing[1].xdxr);
    // In seeded continuation the same event is emitted as a non-trading point.
    let seeded = FqPoint::new_seeded(&days, &g1).unwrap();
    assert_eq!(seeded.len(), 3);
    assert!(!seeded[0].trading && seeded[0].xdxr);
    assert!(FqPoint::new_listing(&days, &Vec::new()).is_none());
    assert!(FqPoint::new_seeded(&Vec::new(), &g1).is_none());
}

#[test]
fn date_string_pads_month_and_day() {
    assert_eq!(rustdx::bytes_helper::date_string(20210801), "2021-08-01");
    assert_eq!(rustdx::bytes_helper::date_string(19901231), "1990-12-31");
    assert_eq!(rustdx::bytes_helper::u32_from_le_bytes(&[1, 0, 0, 0, 9], 0), 1);
    assert_eq!(rustdx::bytes_helper::u16_from_le_bytes(&[0x34, 0x12], 0), 0x1234);
}
