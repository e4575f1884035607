use tickerlog::cycle::{wait_millis, Collector, FetchError, Step};
use tickerlog::encode::{
    sample_row, series_path, snapshot_contents, snapshot_path, snapshot_row, spread_column,
    tickers_url,
};
use tickerlog::record::ListingRecord;
use tickerlog::stamp::{decimal, padded_decimal, MinuteStamp};
use tickerlog::store::FileOp;

fn rec(venue: &str, counter: &str, volume: &str, spread: Option<&str>) -> ListingRecord {
    ListingRecord::new(
        venue.to_string(),
        counter.to_string(),
        volume.to_string(),
        spread.map(|s| s.to_string()),
        false,
        false,
    )
    .unwrap()
}

fn stamp() -> MinuteStamp {
    MinuteStamp::new(2024, 3, 7, 9, 5).unwrap()
}

fn ops_of(step: Step) -> Vec<FileOp> {
    match step {
        Step::Persist(ops) => ops,
        Step::Stop(e) => panic!("unexpected stop: {:?}", e),
    }
}

fn append_parts(op: &FileOp) -> (String, String, String) {
    match op {
        FileOp::AppendSample { path, header, row } => (path.clone(), header.clone(), row.clone()),
        other => panic!("not a sample: {:?}", other),
    }
}

#[test]
fn timestamp_encodes_with_dashes() {
    assert_eq!(stamp().format(), "2024-03-07-09-05");
}

#[test]
fn timestamp_pads_every_field() {
    let s = MinuteStamp::new(7, 1, 2, 0, 0).unwrap();
    assert_eq!(s.format(), "0007-01-02-00-00");
    let s = MinuteStamp::new(12345, 12, 31, 23, 59).unwrap();
    assert_eq!(s.format(), "12345-12-31-23-59");
}

#[test]
fn stamp_rejects_out_of_range_fields() {
    assert!(MinuteStamp::new(2024, 0, 1, 0, 0).is_none());
    assert!(MinuteStamp::new(2024, 13, 1, 0, 0).is_none());
    assert!(MinuteStamp::new(2024, 1, 32, 0, 0).is_none());
    assert!(MinuteStamp::new(2024, 1, 1, 24, 0).is_none());
    assert!(MinuteStamp::new(2024, 1, 1, 0, 60).is_none());
}

#[test]
fn clock_gives_a_calendar_minute() {
    let now = MinuteStamp::now();
    assert!(now.year >= 2024);
    assert!((1..=12).contains(&now.month));
    assert!((1..=31).contains(&now.day));
    assert!(now.hour < 24 && now.minute < 60);
}

#[test]
fn decimal_text_of_integers() {
    assert_eq!(decimal(0), "0");
    assert_eq!(decimal(4294967295), "4294967295");
    assert_eq!(padded_decimal(5, 2), "05");
    assert_eq!(padded_decimal(123, 2), "123");
}

#[test]
fn digits_come_from_the_volume_text() {
    let r = rec("Binance", "USDT", "1234.5", Some("0.01"));
    assert_eq!(sample_row(&stamp(), &r), "2024-03-07-09-05,1234.5,0.01,5,1\n");
}

#[test]
fn absent_spread_is_the_sentinel() {
    let r = rec("Kraken", "EUR", "42", None);
    assert_eq!(spread_column(&r), "-1.0");
    assert_eq!(sample_row(&stamp(), &r), "2024-03-07-09-05,42,-1.0,2,4\n");
}

#[test]
fn empty_volume_is_refused() {
    assert!(ListingRecord::new("A".to_string(), "B".to_string(), String::new(), None, false, false).is_none());
}

#[test]
fn paths_and_url() {
    let r = rec("Binance", "USDT", "1", None);
    assert_eq!(series_path("bitcoin", &r), "./bitcoin/Binance_USDT.csv");
    assert_eq!(snapshot_path("bitcoin"), "./bitcoin/bitcoin.csv");
    assert_eq!(
        tickers_url("bitcoin"),
        "https://api.coingecko.com/api/v3/coins/bitcoin/tickers?page=1&order=volume_dec"
    );
}

#[test]
fn snapshot_lists_flags_without_numbers() {
    let mut a = rec("Binance", "USDT", "10", None);
    a.is_anomaly = true;
    let mut b = rec("Kraken", "EUR", "3.5", Some("0.2"));
    b.is_stale = true;
    assert_eq!(snapshot_row(&a), "Binance,USDT,true,false\n");
    assert_eq!(
        snapshot_contents(&vec![a, b]),
        "exchange,target,marked_anomaly,stale\nBinance,USDT,true,false\nKraken,EUR,false,true\n"
    );
    assert_eq!(snapshot_contents(&vec![]), "exchange,target,marked_anomaly,stale\n");
}

#[test]
fn first_fetch_writes_one_snapshot_and_a_series_per_key() {
    let mut c = Collector::new("bitcoin".to_string());
    let recs = vec![rec("Binance", "USDT", "10", None), rec("Kraken", "EUR", "2", Some("0.5"))];
    let ops = ops_of(c.step(Ok(recs), stamp()));
    assert_eq!(ops.len(), 4);
    match &ops[0] {
        FileOp::CreateDir { path } => assert_eq!(path, "bitcoin"),
        other => panic!("{:?}", other),
    }
    match &ops[1] {
        FileOp::Overwrite { path, contents } => {
            assert_eq!(path, "./bitcoin/bitcoin.csv");
            assert_eq!(
                contents,
                "exchange,target,marked_anomaly,stale\nBinance,USDT,false,false\nKraken,EUR,false,false\n"
            );
        }
        other => panic!("{:?}", other),
    }
    let (p1, h1, r1) = append_parts(&ops[2]);
    let (p2, _, r2) = append_parts(&ops[3]);
    assert_eq!(p1, "./bitcoin/Binance_USDT.csv");
    assert_eq!(p2, "./bitcoin/Kraken_EUR.csv");
    assert_eq!(h1, "date,volme,spread,last_digit,first_digit\n");
    assert_eq!(r1, "2024-03-07-09-05,10,-1.0,0,1\n");
    assert_eq!(r2, "2024-03-07-09-05,2,0.5,2,2\n");
    assert!(c.snapshot_written);
}

#[test]
fn later_cycles_only_append_samples() {
    let mut c = Collector::new("bitcoin".to_string());
    let _ = ops_of(c.step(Ok(vec![rec("Binance", "USDT", "10", None)]), stamp()));
    let later = MinuteStamp::new(2024, 3, 7, 9, 6).unwrap();
    let ops = ops_of(c.step(Ok(vec![rec("Binance", "USDT", "11", None)]), later));
    assert_eq!(ops.len(), 1);
    let (p, h, r) = append_parts(&ops[0]);
    assert_eq!(p, "./bitcoin/Binance_USDT.csv");
    assert_eq!(h, "date,volme,spread,last_digit,first_digit\n");
    assert_eq!(r, "2024-03-07-09-06,11,-1.0,1,1\n");
}

#[test]
fn duplicate_key_appends_to_the_same_file() {
    let mut c = Collector::new("bitcoin".to_string());
    let recs = vec![rec("Binance", "USDT", "10", None), rec("Binance", "USDT", "20", None)];
    let ops = ops_of(c.step(Ok(recs), stamp()));
    assert_eq!(ops.len(), 4);
    let (p1, _, r1) = append_parts(&ops[2]);
    let (p2, _, r2) = append_parts(&ops[3]);
    assert_eq!(p1, "./bitcoin/Binance_USDT.csv");
    assert_eq!(p1, p2);
    assert_eq!(r1, "2024-03-07-09-05,10,-1.0,0,1\n");
    assert_eq!(r2, "2024-03-07-09-05,20,-1.0,0,2\n");
}

#[test]
fn fetch_failure_on_third_cycle_stops() {
    let mut c = Collector::new("bitcoin".to_string());
    assert_eq!(ops_of(c.step(Ok(vec![rec("Binance", "USDT", "1", None)]), stamp())).len(), 3);
    assert_eq!(ops_of(c.step(Ok(vec![rec("Binance", "USDT", "2", None)]), stamp())).len(), 1);
    match c.step(Err(FetchError::Transport), stamp()) {
        Step::Stop(e) => assert_eq!(e, FetchError::Transport),
        Step::Persist(ops) => panic!("persisted {:?}", ops),
    }
    assert!(c.snapshot_written);
    assert_eq!(c.asset, "bitcoin");
}

#[test]
fn failure_before_any_success_writes_nothing() {
    let mut c = Collector::new("bitcoin".to_string());
    assert!(matches!(c.step(Err(FetchError::Decode), stamp()), Step::Stop(FetchError::Decode)));
    assert!(!c.snapshot_written);
}

#[test]
fn wait_fills_the_cycle() {
    assert_eq!(wait_millis(0), 60_000);
    assert_eq!(wait_millis(1_500), 58_500);
    assert_eq!(wait_millis(60_000), 0);
    assert_eq!(wait_millis(90_000), 0);
}
