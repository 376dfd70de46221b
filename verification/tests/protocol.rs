//! Tests of the protocol codecs: packed datetimes, price deltas, packed
//! volumes, the frame layer, and the request builders and parsers.

use rustdx::tcp::basic::{SecurityCount, SecurityList, SecurityListData};
use rustdx::tcp::helper::{datetime, price, price_encode, vol_amount, vol_encode, DateTime};
use rustdx::tcp::kline::Kline;
use rustdx::tcp::xdxr::{SlotValue, Xdxr, XdxrData};
use rustdx::Error;

fn vol_f64(v: rustdx::tcp::helper::VolAmount) -> f64 {
    v.mantissa as f64 * 2f64.powi(v.exp2)
}

#[test]
fn check_datetime_price_vol_amount() {
    assert_eq!(
        datetime(&[235, 100, 52, 1], 9),
        DateTime { year: 2021, month: 9, day: 23, hour: 15, minute: 0 }
    );
    assert_eq!(price(&[180, 154, 2], &mut 0), 18100);
    assert_eq!(price(&[228, 6], &mut 0), -420);
    assert_eq!(price(&[156, 3], &mut 0), 220);
    assert_eq!(price(&[194, 7], &mut 0), -450);
    assert_eq!(vol_f64(vol_amount(1235775464)), 1379837.0);
    assert_eq!(vol_f64(vol_amount(1326643033)), 2465683712.0);
}

#[test]
fn price_advances_past_each_chain() {
    let arr = [180u8, 154, 2, 228, 6, 156, 3, 194, 7];
    let mut pos = 0;
    assert_eq!(price(&arr, &mut pos), 18100);
    assert_eq!(pos, 3);
    assert_eq!(price(&arr, &mut pos), -420);
    assert_eq!(pos, 5);
    assert_eq!(price(&arr, &mut pos), 220);
    assert_eq!(pos, 7);
    assert_eq!(price(&arr, &mut pos), -450);
    assert_eq!(pos, 9);
}

#[test]
fn price_reencodes_to_the_same_bytes() {
    assert_eq!(price_encode(18100), vec![180, 154, 2]);
    assert_eq!(price_encode(-420), vec![228, 6]);
    assert_eq!(price_encode(220), vec![156, 3]);
    assert_eq!(price_encode(-450), vec![194, 7]);
    assert_eq!(price_encode(0), vec![0]);
    assert_eq!(price_encode(-1), vec![0x41]);
    assert_eq!(price(&price_encode(123456789), &mut 0), 123456789);
    assert_eq!(price(&price_encode(-987654321), &mut 0), -987654321);
}

#[test]
fn vol_round_trips_through_encode() {
    for &x in &[1235775464i32, 1326643033] {
        let v = vol_amount(x);
        assert_eq!(vol_encode(v.mantissa, v.exp2), x);
    }
    // A zero packed slot decodes to the value zero under a packed category.
    let d = XdxrData::parse(&{
        let mut c = vec![0u8; 29];
        c[1..7].copy_from_slice(b"000001");
        c[12] = 5;
        c
    });
    assert_eq!(d.fh_qltp, SlotValue::Zero);
}

#[test]
fn packed_datetime_round_trips() {
    let dt = DateTime { year: 2021, month: 9, day: 23, hour: 10, minute: 31 };
    let (day, minutes) = dt.to_packed();
    let mut arr = Vec::new();
    arr.extend_from_slice(&day.to_le_bytes());
    arr.extend_from_slice(&minutes.to_le_bytes());
    assert_eq!(datetime(&arr, 0), dt);
    assert_eq!(dt.to_u32(), 20210923);
    assert_eq!(dt.into_string(0), "2021-09-23 10:31");
    assert_eq!(dt.into_string(9), "2021-09-23");
}

#[test]
fn frame_body_decompresses_when_lengths_differ() {
    let payload: Vec<u8> = (0..200u8).collect();
    let deflated = miniz_oxide::deflate::compress_to_vec_zlib(&payload, 6);
    let sizes = (deflated.len() as u16, payload.len() as u16);
    let out = rustdx::tcp::decompress_body(deflated.clone(), sizes.0, sizes.1).unwrap();
    assert_eq!(out, payload);
    // Equal lengths mean the body is already the payload.
    let plain = rustdx::tcp::decompress_body(payload.clone(), 50, 50).unwrap();
    assert_eq!(plain, payload);
    // A wrong inflated length or a garbage stream is a corrupt frame.
    assert_eq!(
        rustdx::tcp::decompress_body(deflated, sizes.0, sizes.1 + 1),
        Err(Error::CorruptFrame)
    );
    assert_eq!(
        rustdx::tcp::decompress_body(vec![1, 2, 3], 3, 100),
        Err(Error::CorruptFrame)
    );
    let mut header = vec![0u8; 16];
    header[12..14].copy_from_slice(&300u16.to_le_bytes());
    header[14..16].copy_from_slice(&500u16.to_le_bytes());
    assert_eq!(rustdx::tcp::frame_sizes(&header), (300, 500));
}

#[test]
fn security_count_request_and_parse() {
    let mut sc = SecurityCount::new(0);
    assert_eq!(sc.send.len(), 18);
    assert_eq!(&sc.send[12..14], &[0, 0]);
    let sh = SecurityCount::new(1);
    assert_eq!(&sh.send[12..14], &[1, 0]);
    assert_eq!(&sh.send[..12], &sc.send[..12]);
    sc.market(1);
    assert_eq!(sc.send, sh.send);
    sc.parse(13471u16.to_le_bytes().to_vec());
    assert_eq!(sc.count, 13471);
}

#[test]
fn security_list_request_and_parse() {
    let sl = SecurityList::new(1, 200);
    assert_eq!(sl.send.len(), 16);
    assert_eq!(&sl.send[12..14], &[1, 0]);
    assert_eq!(&sl.send[14..16], &200u16.to_le_bytes());
    let d = SecurityList::default();
    assert_eq!(d.market, 0);
    assert_eq!(d.start, 1);
    assert_eq!(&d.send[14..16], &[0, 0]);

    // One 29-byte entry: code, then the GBK-encoded name at offsets 8..16.
    let mut body = 1u16.to_le_bytes().to_vec();
    let mut entry = vec![0u8; 29];
    entry[0..6].copy_from_slice(b"000001");
    entry[8..16].copy_from_slice(&[0xc6, 0xbd, 0xb0, 0xb2, 0xd2, 0xf8, 0xd0, 0xd0]);
    body.extend_from_slice(&entry);
    let mut sl = SecurityList::new(0, 0);
    sl.parse(body);
    assert_eq!(sl.count, 1);
    assert_eq!(sl.data.len(), 1);
    assert_eq!(sl.data[0].code, "000001");
    assert_eq!(sl.data[0].name, "平安银行");
    let direct = SecurityListData::parse(&entry);
    assert_eq!(direct.code, "000001");
    assert_eq!(direct.name, "平安银行");
}

#[test]
fn day_new_modify() {
    let day = Kline::new(0, "000001", 9, 0, 3);
    let mut day2 = Kline::new(1, "000000", 0, 1, 1);
    day2.market(0);
    day2.code("000001");
    day2.category(9);
    day2.start(0);
    day2.count(3);
    let base = Kline::default();
    for k in [&day, &day2] {
        assert_eq!(k.send, base.send);
        assert_eq!(k.market, base.market);
        assert_eq!(k.code, base.code);
        assert_eq!(k.category, base.category);
        assert_eq!(k.start, base.start);
        assert_eq!(k.count, base.count);
        assert_eq!(k.data.len(), base.data.len());
    }
}

#[test]
fn parse() {
    let mut day = Kline::default();
    let arr = vec![
        0x03, 0x00, 0xeb, 0x64, 0x34, 0x01, 0xb4, 0x9a, 0x02, 0xe4, 0x06, 0x9c, 0x03, 0xc2,
        0x07, 0xe8, 0x6f, 0xa8, 0x49, 0x59, 0xf7, 0x12, 0x4f, 0xec, 0x64, 0x34, 0x01, 0xd0,
        0x01, 0xfa, 0x03, 0x90, 0x01, 0xc4, 0x04, 0x00, 0x81, 0x9a, 0x49, 0xb7, 0xb1, 0x03,
        0x4f, 0xef, 0x64, 0x34, 0x01, 0xcc, 0x02, 0xa8, 0x05, 0x96, 0x07, 0xd6, 0x02, 0xd8,
        0x3d, 0x8b, 0x49, 0x4b, 0xf0, 0xeb, 0x4e,
    ];
    day.parse(arr).unwrap();
    let expected = [
        (2021u16, 9u16, 23u16, 18.1f64, 17.68f64, 18.32f64, 17.65f64, 1379837.0f64, 2465683712.0f64),
        (2021, 9, 24, 17.6, 17.35, 17.68, 17.34, 1265696.0, 2209462016.0),
        (2021, 9, 27, 17.21, 17.57, 17.68, 17.06, 1140667.0, 1979196800.0),
    ];
    assert_eq!(day.data.len(), 3);
    for (bar, e) in day.data.iter().zip(expected.iter()) {
        assert_eq!(bar.dt.year, e.0);
        assert_eq!(bar.dt.month, e.1);
        assert_eq!(bar.dt.day, e.2);
        assert_eq!(bar.dt.hour, 15);
        assert_eq!(bar.dt.minute, 0);
        assert_eq!(bar.open as f64 / 1000.0, e.3);
        assert_eq!(bar.close as f64 / 1000.0, e.4);
        assert_eq!(bar.high as f64 / 1000.0, e.5);
        assert_eq!(bar.low as f64 / 1000.0, e.6);
        assert_eq!(vol_f64(bar.vol), e.7);
        assert_eq!(vol_f64(bar.amount), e.8);
    }
    // A declared count that disagrees with the request is a corrupt frame.
    let mut other = Kline::default();
    assert_eq!(other.parse(vec![0x02, 0x00]), Err(Error::CorruptFrame));
}

#[test]
fn xdxrdata_parse() {
    let parsed = XdxrData::parse(&[
        0x00, 0x30, 0x30, 0x30, 0x30, 0x30, 0x31, 0x00, 0x8d, 0xa7, 0x2f, 0x01, 0x01, 0x00,
        0x00, 0x00, 0x00, 0x0a, 0xd7, 0x63, 0x40, 0x00, 0x00, 0x00, 0x00, 0x00, 0x00, 0x80,
        0x3f,
    ]);
    assert_eq!(parsed.market, 0);
    assert_eq!(parsed.code, "000001");
    assert_eq!(parsed.date, 19900301);
    assert_eq!(parsed.category, 1);
    assert_eq!(parsed.fh_qltp, SlotValue::Raw(0.0f32.to_bits()));
    assert_eq!(parsed.pgj_qzgb, SlotValue::Raw(3.56f32.to_bits()));
    assert_eq!(parsed.sg_hltp, SlotValue::Raw(0.0f32.to_bits()));
    assert_eq!(parsed.pg_hzgb, SlotValue::Raw(1.0f32.to_bits()));
}

#[test]
fn xdxr_request_parse() {
    let mut x = Xdxr::default();
    assert_eq!(x.send.len(), 21);
    assert_eq!(&x.send[15..21], b"000001");
    // A short response is ignored.
    x.parse(vec![0; 5]);
    assert!(x.count.is_none());
    // One record after the 11-byte preamble.
    let mut v = vec![0u8; 11];
    v[9..11].copy_from_slice(&1u16.to_le_bytes());
    let mut rec = vec![0u8; 29];
    rec[1..7].copy_from_slice(b"600000");
    rec[8..12].copy_from_slice(&20200101u32.to_le_bytes());
    rec[12] = 1;
    v.extend_from_slice(&rec);
    x.parse(v);
    assert_eq!(x.count, Some(1));
    assert_eq!(x.data.len(), 1);
    assert_eq!(x.data[0].code, "600000");
    assert_eq!(x.data[0].date, 20200101);
}

#[test]
fn jsonp_payload_strips_wrapper() {
    let text = b"jQuery123({\"total\":5});";
    let inner = rustdx::eastmoney::jsonp_payload(text).unwrap();
    assert_eq!(inner, b"{\"total\":5})".strip_suffix(b")").unwrap());
    assert!(rustdx::eastmoney::jsonp_payload(b"no json here").is_none());
}

#[test]
fn head() {
    // The reply of the Shanghai list endpoint, reduced to its shape: a
    // declared total and one COMPANY_CODE field per instrument.
    let sh1_text = b"x{\"total\":3}\"COMPANY_CODE\":\"600000\",\"COMPANY_CODE\":\"600004\",\"COMPANY_CODE\":\"600006\",";
    let (total1, sh1) = rustdx::fetch_code::parse_sh_stocks(sh1_text).unwrap();
    assert_eq!(total1, 3);
    assert_eq!(sh1, vec!["sh600000", "sh600004", "sh600006"]);
    let sh8_text = b"x{\"total\":2}\"COMPANY_CODE\":\"688001\",\"COMPANY_CODE\":\"688002\",";
    let (_, sh8) = rustdx::fetch_code::parse_sh_stocks(sh8_text).unwrap();
    let sz: Vec<String> = ["000001", "000002", "300001"]
        .iter()
        .map(|c| rustdx::fetch_code::prefix_code("sz", c))
        .collect();
    println!("sh8: {}\n{:?}\n{:?}", sh8.len(), &sh8[..1], &sh8[sh8.len() - 1..]);
    println!("sh1: {}\n{:?}\n{:?}", sh1.len(), &sh1[..1], &sh1[sh1.len() - 1..]);
    println!("sz: {}\n{:?}\n{:?}", sz.len(), &sz[..1], &sz[sz.len() - 1..]);
    assert_eq!(sz[0], "sz000001");
    let counts = rustdx::fetch_code::SHSZ { sh1: sh1.len(), sh8: sh8.len(), sz: sz.len() };
    assert_eq!(counts.count(), 8);
}

#[test]
fn filter_ec_checks_exchange_and_code() {
    let cmd = rustdx::cmd::DayCmd {
        path: vec![],
        output: "stocks.csv".to_string(),
        keep_csv: false,
        gbbq: None,
        previous: None,
        stocklist: None,
        exchange: Some("sz".to_string()),
        xlsx_col: None,
        code: Some("00".to_string()),
        amount: None,
        table: "tmp".to_string(),
    };
    assert_eq!(cmd.filter_ec("sz000001.day"), (true, 1));
    assert_eq!(cmd.filter_ec("sh600000.day"), (false, 600000));
    assert_eq!(cmd.filter_ec("sz300001.day"), (false, 300001));
    assert_eq!(cmd.filter_ec("szabcdef.day"), (false, 0));
    assert_eq!(rustdx::cmd::auto_prefix("auto", "600000"), "sh");
    assert_eq!(rustdx::cmd::auto_prefix("auto", "000001"), "sz");
    assert_eq!(rustdx::cmd::auto_prefix("sh", "000001"), "sh");
}
