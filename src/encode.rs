use vstd::prelude::*;
use vstd::string::*;
use crate::record::ListingRecord;
use crate::stamp::MinuteStamp;

verus! {

/// First line of every series file. The spelling `volme` is part of the file format.
pub const SERIES_HEADER: &'static str = "date,volme,spread,last_digit,first_digit\n";

/// First line of the snapshot file.
pub const SNAPSHOT_HEADER: &'static str = "exchange,target,marked_anomaly,stale\n";

/// What the spread column holds when the provider gave no spread.
pub const SPREAD_ABSENT: &'static str = "-1.0";

/// The provider endpoint's address before and after the asset identifier.
pub const URL_PREFIX: &'static str = "https://api.coingecko.com/api/v3/coins/";
pub const URL_SUFFIX: &'static str = "/tickers?page=1&order=volume_dec";

pub open spec fn sentinel_text() -> Seq<char> {
    seq!['-', '1', '.', '0']
}

pub open spec fn bool_text(b: bool) -> Seq<char> {
    if b { seq!['t', 'r', 'u', 'e'] } else { seq!['f', 'a', 'l', 's', 'e'] }
}

/// The spread column: the reported spread's text, or the sentinel where it is absent.
pub open spec fn spread_text(r: ListingRecord) -> Seq<char> {
    match r.spread {
        Some(s) => s@,
        None => sentinel_text(),
    }
}

/// The path of the series file of a record: `./<asset>/<venue>_<counter>.csv`.
pub open spec fn series_path_text(asset: Seq<char>, r: ListingRecord) -> Seq<char> {
    seq!['.', '/'] + asset + seq!['/'] + r.venue@ + seq!['_'] + r.counter@ + seq!['.', 'c', 's', 'v']
}

/// The path of the snapshot file: `./<asset>/<asset>.csv`.
pub open spec fn snapshot_path_text(asset: Seq<char>) -> Seq<char> {
    seq!['.', '/'] + asset + seq!['/'] + asset + seq!['.', 'c', 's', 'v']
}

/// One series row: stamp, volume, spread, then the last and the first character of the
/// volume text.
pub open spec fn sample_row_text(stamp: MinuteStamp, r: ListingRecord) -> Seq<char> {
    stamp.text() + seq![','] + r.volume@ + seq![','] + spread_text(r) + seq![',']
        + seq![r.volume@.last()] + seq![','] + seq![r.volume@[0]] + seq!['\n']
}

/// One snapshot row: venue, counter asset, anomaly flag, stale flag.
pub open spec fn snapshot_row_text(r: ListingRecord) -> Seq<char> {
    r.venue@ + seq![','] + r.counter@ + seq![','] + bool_text(r.is_anomaly) + seq![',']
        + bool_text(r.is_stale) + seq!['\n']
}

/// The rows of all records, in order.
pub open spec fn snapshot_rows(recs: Seq<ListingRecord>) -> Seq<char>
    decreases recs.len(),
{
    if recs.len() == 0 {
        Seq::empty()
    } else {
        snapshot_rows(recs.drop_last()) + snapshot_row_text(recs.last())
    }
}

/// The whole snapshot file: its header, then one row per record.
pub open spec fn snapshot_text(recs: Seq<ListingRecord>) -> Seq<char> {
    SNAPSHOT_HEADER@ + snapshot_rows(recs)
}

pub open spec fn url_text(asset: Seq<char>) -> Seq<char> {
    URL_PREFIX@ + asset + URL_SUFFIX@
}

/// The provider address that lists the venues of `asset`.
pub fn tickers_url(asset: &str) -> (r: String)
    ensures
        r@ == url_text(asset@),
{
    let r = String::from_str(URL_PREFIX);
    let r = r.concat(asset);
    r.concat(URL_SUFFIX)
}

fn bool_str(b: bool) -> (r: &'static str)
    ensures
        r@ == bool_text(b),
{
    proof {
        reveal_strlit("true");
        reveal_strlit("false");
    }
    if b { "true" } else { "false" }
}

/// The text written in the spread column.
pub fn spread_column(r: &ListingRecord) -> (s: String)
    ensures
        s@ == spread_text(*r),
{
    match &r.spread {
        Some(s) => s.clone(),
        None => {
            proof {
                reveal_strlit("-1.0");
            }
            String::from_str(SPREAD_ABSENT)
        },
    }
}

/// The path of the series file that holds the samples of `r`.
pub fn series_path(asset: &str, r: &ListingRecord) -> (p: String)
    ensures
        p@ == series_path_text(asset@, *r),
{
    proof {
        reveal_strlit("./");
        reveal_strlit("/");
        reveal_strlit("_");
        reveal_strlit(".csv");
    }
    let p = String::from_str("./");
    let p = p.concat(asset);
    let p = p.concat("/");
    let p = p.concat(r.venue.as_str());
    let p = p.concat("_");
    let p = p.concat(r.counter.as_str());
    let p = p.concat(".csv");
    assert(p@ =~= series_path_text(asset@, *r));
    p
}

/// The path of the snapshot file of `asset`.
pub fn snapshot_path(asset: &str) -> (p: String)
    ensures
        p@ == snapshot_path_text(asset@),
{
    proof {
        reveal_strlit("./");
        reveal_strlit("/");
        reveal_strlit(".csv");
    }
    let p = String::from_str("./");
    let p = p.concat(asset);
    let p = p.concat("/");
    let p = p.concat(asset);
    let p = p.concat(".csv");
    assert(p@ =~= snapshot_path_text(asset@));
    p
}

/// The series row that records `r` at `stamp`.
pub fn sample_row(stamp: &MinuteStamp, r: &ListingRecord) -> (row: String)
    requires
        r.wf(),
    ensures
        row@ == sample_row_text(*stamp, *r),
{
    proof {
        reveal_strlit(",");
        reveal_strlit("\n");
    }
    let v = r.volume.as_str();
    let n = v.unicode_len();
    let last = v.substring_char(n - 1, n);
    let first = v.substring_char(0, 1);
    let row = stamp.format();
    let row = row.concat(",");
    let row = row.concat(v);
    let row = row.concat(",");
    let s = spread_column(r);
    let row = row.concat(s.as_str());
    let row = row.concat(",");
    let row = row.concat(last);
    let row = row.concat(",");
    let row = row.concat(first);
    let row = row.concat("\n");
    assert(last@ =~= seq![r.volume@.last()]);
    assert(first@ =~= seq![r.volume@[0]]);
    assert(row@ =~= sample_row_text(*stamp, *r));
    row
}

/// The snapshot row of `r`.
pub fn snapshot_row(r: &ListingRecord) -> (row: String)
    ensures
        row@ == snapshot_row_text(*r),
{
    proof {
        reveal_strlit(",");
        reveal_strlit("\n");
    }
    let row = r.venue.clone();
    let row = row.concat(",");
    let row = row.concat(r.counter.as_str());
    let row = row.concat(",");
    let row = row.concat(bool_str(r.is_anomaly));
    let row = row.concat(",");
    let row = row.concat(bool_str(r.is_stale));
    let row = row.concat("\n");
    assert(row@ =~= snapshot_row_text(*r));
    row
}

/// The whole snapshot file of `recs`.
pub fn snapshot_contents(recs: &Vec<ListingRecord>) -> (s: String)
    ensures
        s@ == snapshot_text(recs@),
{
    let mut s = String::from_str(SNAPSHOT_HEADER);
    let mut i: usize = 0;
    while i < recs.len()
        invariant
            i <= recs@.len(),
            s@ == SNAPSHOT_HEADER@ + snapshot_rows(recs@.subrange(0, i as int)),
        decreases recs.len() - i,
    {
        let row = snapshot_row(&recs[i]);
        s.append(row.as_str());
        proof {
            let pre = recs@.subrange(0, i as int + 1);
            assert(pre.drop_last() =~= recs@.subrange(0, i as int));
            assert(pre.last() == recs@[i as int]);
        }
        i = i + 1;
    }
    assert(recs@.subrange(0, recs@.len() as int) =~= recs@);
    s
}

} // verus!
