use vstd::prelude::*;
use crate::encode::{sample_row_text, series_path_text, snapshot_contents, snapshot_path, snapshot_path_text, snapshot_text, SERIES_HEADER};
use crate::record::{all_wf, ListingRecord};
use crate::stamp::MinuteStamp;
use crate::store::{
    apply_all, cycle_plan, lemma_apply_all_concat, lemma_one_series_per_key, lemma_series_rows, paths_separate_keys, rows_for, sample_effect,
    sample_op, series_effects, series_keys, series_paths, views, Effect, FileOp,
};

verus! {

/// Milliseconds between the starts of two consecutive fetch cycles.
pub const CYCLE_MILLIS: u64 = 60_000;

/// Why a fetch of the current listings failed.
#[derive(Clone, Copy, Debug, PartialEq, Eq)]
pub enum FetchError {
    /// The provider could not be reached or answered with an error.
    Transport,
    /// The provider's answer did not have the expected shape.
    Decode,
}

/// What the caller does after a fetch.
#[derive(Debug)]
pub enum Step {
    /// Perform these file operations in order; any failure among them ends the process.
    Persist(Vec<FileOp>),
    /// End the process: the fetch failed and nothing is retried.
    Stop(FetchError),
}

/// The collection loop's state for one tracked asset.
#[derive(Debug)]
pub struct Collector {
    pub asset: String,
    /// Whether a successful fetch has already produced the snapshot file.
    pub snapshot_written: bool,
}

impl Collector {
    pub fn new(asset: String) -> (c: Collector)
        ensures
            c.asset == asset,
            !c.snapshot_written,
    {
        Collector { asset, snapshot_written: false }
    }

    /// Decides what one fetch cycle does with the fetch's outcome, sampled at `now`.
    ///
    /// A failure stops the collection and touches no file. A success yields, on the first
    /// success only, the asset's directory and its snapshot file, then one sample per
    /// record in the records' order.
    pub fn step(&mut self, fetched: Result<Vec<ListingRecord>, FetchError>, now: MinuteStamp) -> (s: Step)
        requires
            fetched matches Ok(recs) ==> all_wf(recs@),
        ensures
            final(self).asset == old(self).asset,
            fetched matches Err(e) ==> s == Step::Stop(e) && final(self).snapshot_written
                == old(self).snapshot_written,
            fetched matches Ok(recs) ==> final(self).snapshot_written && (s matches Step::Persist(
                ops,
            ) && views(ops@) == cycle_plan(
                old(self).asset@,
                !old(self).snapshot_written,
                recs@,
                now,
            )),
    {
        match fetched {
            Err(e) => Step::Stop(e),
            Ok(recs) => {
                let mut ops: Vec<FileOp> = Vec::new();
                let first = !self.snapshot_written;
                if first {
                    ops.push(FileOp::CreateDir { path: self.asset.clone() });
                    ops.push(
                        FileOp::Overwrite {
                            path: snapshot_path(self.asset.as_str()),
                            contents: snapshot_contents(&recs),
                        },
                    );
                }
                let ghost head = views(ops@);
                assert(head == if first {
                    seq![Effect::CreateDir(self.asset@), Effect::Overwrite(snapshot_path_text(self.asset@), snapshot_text(recs@))]
                } else {
                    Seq::<Effect>::empty()
                }) by {
                    assert(views(ops@) =~= head);
                }
                let mut i: usize = 0;
                while i < recs.len()
                    invariant
                        i <= recs@.len(),
                        all_wf(recs@),
                        views(ops@) =~= head + series_effects(
                            self.asset@,
                            recs@.subrange(0, i as int),
                            now,
                        ),
                    decreases recs.len() - i,
                {
                    assert(recs@[i as int].wf());
                    let op = sample_op(self.asset.as_str(), &recs[i], &now);
                    let ghost before = ops@;
                    ops.push(op);
                    proof {
                        assert(views(ops@) =~= views(before).push(op@));
                        assert(series_effects(self.asset@, recs@.subrange(0, i as int + 1), now)
                            =~= series_effects(self.asset@, recs@.subrange(0, i as int), now).push(
                            sample_effect(self.asset@, recs@[i as int], now),
                        ));
                    }
                    i = i + 1;
                }
                assert(recs@.subrange(0, recs@.len() as int) =~= recs@);
                self.snapshot_written = true;
                Step::Persist(ops)
            },
        }
    }
}

/// How long to wait before the next cycle starts, `elapsed` milliseconds into this one.
pub fn wait_millis(elapsed: u64) -> (r: u64)
    ensures
        elapsed < CYCLE_MILLIS ==> r == CYCLE_MILLIS - elapsed,
        elapsed >= CYCLE_MILLIS ==> r == 0,
{
    if elapsed < CYCLE_MILLIS {
        CYCLE_MILLIS - elapsed
    } else {
        0
    }
}

/// The directory and the snapshot operations leave the snapshot file holding `contents`.
proof fn lemma_snapshot_first(fs: Map<Seq<char>, Seq<char>>, asset: Seq<char>, contents: Seq<char>)
    ensures
        apply_all(fs, seq![Effect::CreateDir(asset), Effect::Overwrite(snapshot_path_text(asset), contents)])
            == fs.insert(snapshot_path_text(asset), contents),
{
    let one = seq![Effect::CreateDir(asset)];
    let head = seq![Effect::CreateDir(asset), Effect::Overwrite(snapshot_path_text(asset), contents)];
    assert(head.drop_last() =~= one);
    assert(one.drop_last() =~= Seq::<Effect>::empty());
    assert(apply_all(fs, Seq::<Effect>::empty()) == fs);
    assert(one.last() == Effect::CreateDir(asset));
    assert(apply_all(fs, one) == fs);
    assert(head.last() == Effect::Overwrite(snapshot_path_text(asset), contents));
}

/// A successful first fetch leaves exactly the files that were there before, the
/// snapshot file, holding the header and one row per record, and one series file per
/// distinct series path of the records; where no record's series path is the snapshot
/// path. There are as many series paths as distinct (venue, counter asset) keys where
/// distinct keys give distinct paths.
pub proof fn lemma_first_cycle_files(
    fs: Map<Seq<char>, Seq<char>>,
    asset: Seq<char>,
    recs: Seq<ListingRecord>,
    stamp: MinuteStamp,
)
    requires
        !series_paths(asset, recs).contains(snapshot_path_text(asset)),
    ensures
        apply_all(fs, cycle_plan(asset, true, recs, stamp)).dom() == fs.dom().insert(
            snapshot_path_text(asset),
        ).union(series_paths(asset, recs)),
        apply_all(fs, cycle_plan(asset, true, recs, stamp))[snapshot_path_text(asset)]
            == snapshot_text(recs),
        paths_separate_keys(asset, recs) ==> series_paths(asset, recs).len() == series_keys(
            recs,
        ).len(),
{
    if paths_separate_keys(asset, recs) {
        lemma_one_series_per_key(asset, recs);
    }
    let snap = snapshot_path_text(asset);
    let head = seq![Effect::CreateDir(asset), Effect::Overwrite(snap, snapshot_text(recs))];
    lemma_apply_all_concat(fs, head, series_effects(asset, recs, stamp));
    lemma_snapshot_first(fs, asset, snapshot_text(recs));
    let mid = apply_all(fs, head);
    assert(mid == fs.insert(snap, snapshot_text(recs)));
    lemma_series_rows(mid, asset, recs, stamp, snap);
    assert(rows_for(asset, recs, stamp, snap) =~= Seq::<char>::empty());
    assert(mid[snap] + Seq::<char>::empty() =~= mid[snap]);
}

/// A restarted process never truncates a series file: after its first cycle, a file that
/// existed before (other than the snapshot) keeps its whole former contents, header
/// included, followed by the rows of that cycle's records keyed to it.
pub proof fn lemma_restart_keeps_rows(
    fs: Map<Seq<char>, Seq<char>>,
    asset: Seq<char>,
    recs: Seq<ListingRecord>,
    stamp: MinuteStamp,
    p: Seq<char>,
)
    requires
        fs.contains_key(p),
        p != snapshot_path_text(asset),
    ensures
        apply_all(fs, cycle_plan(asset, true, recs, stamp))[p] == fs[p] + rows_for(asset, recs, stamp, p),
        fs[p].is_prefix_of(apply_all(fs, cycle_plan(asset, true, recs, stamp))[p]),
{
    let snap = snapshot_path_text(asset);
    let head = seq![Effect::CreateDir(asset), Effect::Overwrite(snap, snapshot_text(recs))];
    lemma_apply_all_concat(fs, head, series_effects(asset, recs, stamp));
    lemma_snapshot_first(fs, asset, snapshot_text(recs));
    let mid = apply_all(fs, head);
    assert(mid == fs.insert(snap, snapshot_text(recs)));
    lemma_series_rows(mid, asset, recs, stamp, p);
    let after = apply_all(fs, cycle_plan(asset, true, recs, stamp));
    assert(after[p].subrange(0, fs[p].len() as int) =~= fs[p]);
}

/// Two records with the same series key in one cycle share one series file: where that
/// file did not exist, it is created once, with one header, followed by both rows.
pub proof fn lemma_same_key_shares_file(
    fs: Map<Seq<char>, Seq<char>>,
    asset: Seq<char>,
    a: ListingRecord,
    b: ListingRecord,
    stamp: MinuteStamp,
)
    requires
        a.venue@ == b.venue@,
        a.counter@ == b.counter@,
        !fs.contains_key(series_path_text(asset, a)),
    ensures
        apply_all(fs, series_effects(asset, seq![a, b], stamp)).dom() == fs.dom().insert(
            series_path_text(asset, a),
        ),
        apply_all(fs, series_effects(asset, seq![a, b], stamp))[series_path_text(
            asset,
            a,
        )] == SERIES_HEADER@ + sample_row_text(stamp, a)
            + sample_row_text(stamp, b),
{
    let recs = seq![a, b];
    let p = series_path_text(asset, a);
    lemma_series_rows(fs, asset, recs, stamp, p);
    assert(series_paths(asset, recs) =~= set![p]) by {
        assert(recs[0] == a && recs[1] == b);
    }
    assert(recs.drop_last() =~= seq![a]);
    assert(seq![a].drop_last() =~= Seq::<ListingRecord>::empty());
    assert(series_path_text(asset, b) == p);
    assert(rows_for(asset, Seq::<ListingRecord>::empty(), stamp, p) == Seq::<char>::empty());
    assert(rows_for(asset, seq![a], stamp, p) =~= sample_row_text(stamp, a));
    assert(rows_for(asset, recs, stamp, p) =~= sample_row_text(stamp, a)
        + sample_row_text(stamp, b));
    assert(SERIES_HEADER@ + (sample_row_text(stamp, a)
        + sample_row_text(stamp, b)) =~= SERIES_HEADER@ + sample_row_text(stamp, a)
        + sample_row_text(stamp, b));
}

/// Where exactly one record of a cycle is keyed to its series file, that cycle's rows for
/// the file are that record's one row.
proof fn lemma_rows_for_single(asset: Seq<char>, recs: Seq<ListingRecord>, stamp: MinuteStamp, i: int)
    requires
        0 <= i < recs.len(),
        forall|j: int| 0 <= j < recs.len() && j != i ==> series_path_text(asset, #[trigger] recs[j])
            != series_path_text(asset, recs[i]),
    ensures
        rows_for(asset, recs, stamp, series_path_text(asset, recs[i])) == sample_row_text(stamp, recs[i]),
    decreases recs.len(),
{
    let p = series_path_text(asset, recs[i]);
    let pre = recs.drop_last();
    if i == recs.len() - 1 {
        lemma_series_rows(Map::empty(), asset, pre, stamp, p);
        if series_paths(asset, pre).contains(p) {
            let j = choose|j: int| 0 <= j < pre.len() && series_path_text(asset, pre[j]) == p;
            assert(recs[j] == pre[j]);
        }
        assert(rows_for(asset, recs, stamp, p) =~= sample_row_text(stamp, recs[i]));
    } else {
        assert forall|j: int| 0 <= j < pre.len() && j != i implies series_path_text(asset, #[trigger] pre[j])
            != series_path_text(asset, pre[i]) by {
            assert(pre[j] == recs[j]);
        }
        assert(pre[i] == recs[i]);
        lemma_rows_for_single(asset, pre, stamp, i);
        assert(series_path_text(asset, recs[recs.len() - 1]) != p);
        assert(rows_for(asset, recs, stamp, p) =~= sample_row_text(stamp, recs[i]));
    }
}

/// A cycle after the first on a series file that already exists leaves its contents,
/// header included, unchanged and appends exactly one row, where exactly one record of
/// the cycle is keyed to it.
pub proof fn lemma_existing_series_gains_one_row(
    fs: Map<Seq<char>, Seq<char>>,
    asset: Seq<char>,
    recs: Seq<ListingRecord>,
    stamp: MinuteStamp,
    i: int,
)
    requires
        0 <= i < recs.len(),
        fs.contains_key(series_path_text(asset, recs[i])),
        forall|j: int| 0 <= j < recs.len() && j != i ==> series_path_text(asset, #[trigger] recs[j])
            != series_path_text(asset, recs[i]),
    ensures
        apply_all(fs, cycle_plan(asset, false, recs, stamp))[series_path_text(asset, recs[i])]
            == fs[series_path_text(asset, recs[i])] + sample_row_text(stamp, recs[i]),
{
    lemma_series_rows(fs, asset, recs, stamp, series_path_text(asset, recs[i]));
    lemma_rows_for_single(asset, recs, stamp, i);
}

} // verus!
