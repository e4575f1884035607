use vstd::prelude::*;
use vstd::string::*;
use crate::encode::{sample_row, sample_row_text, series_path, series_path_text, snapshot_path_text, snapshot_text, SERIES_HEADER};
use crate::record::ListingRecord;
use crate::stamp::MinuteStamp;

verus! {

/// What one file operation does, over the texts of its paths and contents.
pub ghost enum Effect {
    CreateDir(Seq<char>),
    Overwrite(Seq<char>, Seq<char>),
    AppendSample(Seq<char>, Seq<char>, Seq<char>),
}

/// A file operation that the caller performs on the file system, in order.
#[derive(Clone, Debug)]
pub enum FileOp {
    /// Create the directory and its parents; nothing happens where it exists.
    CreateDir { path: String },
    /// Create the file, or truncate it where it exists, and write `contents`.
    Overwrite { path: String, contents: String },
    /// Create the file exclusively and, only where that succeeded, write `header`;
    /// then, in either case, open it for appending and write `row`.
    AppendSample { path: String, header: String, row: String },
}

impl View for FileOp {
    type V = Effect;

    open spec fn view(&self) -> Effect {
        match self {
            FileOp::CreateDir { path } => Effect::CreateDir(path@),
            FileOp::Overwrite { path, contents } => Effect::Overwrite(path@, contents@),
            FileOp::AppendSample { path, header, row } => Effect::AppendSample(path@, header@, row@),
        }
    }
}

/// The files after an operation, the file system being a map from path to contents.
/// Directories hold no contents and are left out.
pub open spec fn apply(fs: Map<Seq<char>, Seq<char>>, e: Effect) -> Map<Seq<char>, Seq<char>> {
    match e {
        Effect::CreateDir(_) => fs,
        Effect::Overwrite(p, c) => fs.insert(p, c),
        Effect::AppendSample(p, h, r) => if fs.contains_key(p) {
            fs.insert(p, fs[p] + r)
        } else {
            fs.insert(p, h + r)
        },
    }
}

/// The files after a sequence of operations, performed in order.
pub open spec fn apply_all(fs: Map<Seq<char>, Seq<char>>, es: Seq<Effect>) -> Map<Seq<char>, Seq<char>>
    decreases es.len(),
{
    if es.len() == 0 {
        fs
    } else {
        apply(apply_all(fs, es.drop_last()), es.last())
    }
}

pub open spec fn views(ops: Seq<FileOp>) -> Seq<Effect> {
    ops.map_values(|o: FileOp| o@)
}

/// The operation that records `r` at `stamp` in its series file.
pub open spec fn sample_effect(asset: Seq<char>, r: ListingRecord, stamp: MinuteStamp) -> Effect {
    Effect::AppendSample(series_path_text(asset, r), SERIES_HEADER@, sample_row_text(stamp, r))
}

/// One sample operation per record, in the records' order.
pub open spec fn series_effects(asset: Seq<char>, recs: Seq<ListingRecord>, stamp: MinuteStamp) -> Seq<Effect> {
    Seq::new(recs.len(), |i: int| sample_effect(asset, recs[i], stamp))
}

/// Every operation of one fetch cycle: on the first, the asset's directory and the
/// snapshot file come before the samples.
pub open spec fn cycle_plan(asset: Seq<char>, first: bool, recs: Seq<ListingRecord>, stamp: MinuteStamp) -> Seq<Effect> {
    if first {
        seq![Effect::CreateDir(asset), Effect::Overwrite(snapshot_path_text(asset), snapshot_text(recs))]
            + series_effects(asset, recs, stamp)
    } else {
        series_effects(asset, recs, stamp)
    }
}

/// The series files that the records of one cycle write to.
pub open spec fn series_paths(asset: Seq<char>, recs: Seq<ListingRecord>) -> Set<Seq<char>> {
    Set::new(|p: Seq<char>| exists|i: int| 0 <= i < recs.len() && series_path_text(asset, recs[i]) == p)
}

/// The rows that one cycle appends to the file at `p`, in order.
pub open spec fn rows_for(asset: Seq<char>, recs: Seq<ListingRecord>, stamp: MinuteStamp, p: Seq<char>) -> Seq<char>
    decreases recs.len(),
{
    if recs.len() == 0 {
        Seq::empty()
    } else {
        rows_for(asset, recs.drop_last(), stamp, p) + if series_path_text(asset, recs.last()) == p {
            sample_row_text(stamp, recs.last())
        } else {
            Seq::empty()
        }
    }
}

/// The distinct (venue, counter asset) keys of the records.
pub open spec fn series_keys(recs: Seq<ListingRecord>) -> Set<(Seq<char>, Seq<char>)> {
    Set::new(|k: (Seq<char>, Seq<char>)| exists|i: int| 0 <= i < recs.len() && (recs[i].venue@, recs[i].counter@) == k)
}

/// Records with distinct keys have distinct series paths.
pub open spec fn paths_separate_keys(asset: Seq<char>, recs: Seq<ListingRecord>) -> bool {
    forall|i: int, j: int|
        0 <= i < recs.len() && 0 <= j < recs.len() && #[trigger] series_path_text(asset, recs[i])
            == #[trigger] series_path_text(asset, recs[j]) ==> recs[i].venue@ == recs[j].venue@
            && recs[i].counter@ == recs[j].counter@
}

/// There are as many series files as distinct keys, where distinct keys give distinct paths.
pub proof fn lemma_one_series_per_key(asset: Seq<char>, recs: Seq<ListingRecord>)
    requires
        paths_separate_keys(asset, recs),
    ensures
        series_paths(asset, recs).finite(),
        series_keys(recs).finite(),
        series_paths(asset, recs).len() == series_keys(recs).len(),
    decreases recs.len(),
{
    if recs.len() == 0 {
        assert(series_paths(asset, recs) =~= Set::empty());
        assert(series_keys(recs) =~= Set::empty());
    } else {
        let pre = recs.drop_last();
        let last = recs.last();
        let n = recs.len() - 1;
        assert forall|i: int, j: int|
            0 <= i < pre.len() && 0 <= j < pre.len() && #[trigger] series_path_text(asset, pre[i])
                == #[trigger] series_path_text(asset, pre[j]) implies pre[i].venue@ == pre[j].venue@
                && pre[i].counter@ == pre[j].counter@ by {
            assert(pre[i] == recs[i] && pre[j] == recs[j]);
        }
        lemma_one_series_per_key(asset, pre);
        let q = series_path_text(asset, last);
        let k = (last.venue@, last.counter@);
        assert(series_paths(asset, recs) =~= series_paths(asset, pre).insert(q)) by {
            assert forall|x: Seq<char>| series_paths(asset, recs).contains(x)
                implies #[trigger] series_paths(asset, pre).insert(q).contains(x) by {
                let i = choose|i: int| 0 <= i < recs.len() && series_path_text(asset, recs[i]) == x;
                if i < n {
                    assert(pre[i] == recs[i]);
                }
            }
            assert forall|x: Seq<char>| series_paths(asset, pre).insert(q).contains(x)
                implies #[trigger] series_paths(asset, recs).contains(x) by {
                if x == q {
                    assert(series_path_text(asset, recs[n]) == x);
                } else {
                    let i = choose|i: int| 0 <= i < pre.len() && series_path_text(asset, pre[i]) == x;
                    assert(recs[i] == pre[i]);
                }
            }
        }
        assert(series_keys(recs) =~= series_keys(pre).insert(k)) by {
            assert forall|x: (Seq<char>, Seq<char>)| series_keys(recs).contains(x)
                implies #[trigger] series_keys(pre).insert(k).contains(x) by {
                let i = choose|i: int| 0 <= i < recs.len() && (recs[i].venue@, recs[i].counter@) == x;
                if i < n {
                    assert(pre[i] == recs[i]);
                }
            }
            assert forall|x: (Seq<char>, Seq<char>)| series_keys(pre).insert(k).contains(x)
                implies #[trigger] series_keys(recs).contains(x) by {
                if x == k {
                    assert((recs[n].venue@, recs[n].counter@) == x);
                } else {
                    let i = choose|i: int| 0 <= i < pre.len() && (pre[i].venue@, pre[i].counter@) == x;
                    assert(recs[i] == pre[i]);
                }
            }
        }
        assert(series_paths(asset, pre).contains(q) <==> series_keys(pre).contains(k)) by {
            if series_paths(asset, pre).contains(q) {
                let i = choose|i: int| 0 <= i < pre.len() && series_path_text(asset, pre[i]) == q;
                assert(recs[i] == pre[i]);
                assert(series_path_text(asset, recs[i]) == series_path_text(asset, recs[n]));
                assert((pre[i].venue@, pre[i].counter@) == k);
            }
            if series_keys(pre).contains(k) {
                let i = choose|i: int| 0 <= i < pre.len() && (pre[i].venue@, pre[i].counter@) == k;
                assert(pre[i].venue@ == last.venue@ && pre[i].counter@ == last.counter@);
                assert(series_path_text(asset, pre[i]) =~= q);
            }
        }
    }
}

/// The operation that records `r` at `stamp` in its series file.
pub fn sample_op(asset: &str, r: &ListingRecord, stamp: &MinuteStamp) -> (op: FileOp)
    requires
        r.wf(),
    ensures
        op@ == sample_effect(asset@, *r, *stamp),
{
    FileOp::AppendSample {
        path: series_path(asset, r),
        header: String::from_str(SERIES_HEADER),
        row: sample_row(stamp, r),
    }
}

/// Performing two sequences one after the other is performing their concatenation.
pub proof fn lemma_apply_all_concat(fs: Map<Seq<char>, Seq<char>>, a: Seq<Effect>, b: Seq<Effect>)
    ensures
        apply_all(fs, a + b) == apply_all(apply_all(fs, a), b),
    decreases b.len(),
{
    if b.len() == 0 {
        assert(a + b =~= a);
    } else {
        assert((a + b).drop_last() =~= a + b.drop_last());
        lemma_apply_all_concat(fs, a, b.drop_last());
    }
}

/// What one cycle's samples do to the files: a series file that existed keeps its
/// contents, header included, and gains the rows of the records keyed to it, in order;
/// one that did not exist is created with one header followed by those rows; no other
/// file changes, and no file disappears.
pub proof fn lemma_series_rows(
    fs: Map<Seq<char>, Seq<char>>,
    asset: Seq<char>,
    recs: Seq<ListingRecord>,
    stamp: MinuteStamp,
    p: Seq<char>,
)
    ensures
        apply_all(fs, series_effects(asset, recs, stamp)).dom() == fs.dom().union(series_paths(asset, recs)),
        fs.contains_key(p) ==> apply_all(fs, series_effects(asset, recs, stamp))[p]
            == fs[p] + rows_for(asset, recs, stamp, p),
        !fs.contains_key(p) && series_paths(asset, recs).contains(p) ==> apply_all(
            fs,
            series_effects(asset, recs, stamp),
        )[p] == SERIES_HEADER@ + rows_for(asset, recs, stamp, p),
        !series_paths(asset, recs).contains(p) ==> rows_for(asset, recs, stamp, p) == Seq::<char>::empty(),
    decreases recs.len(),
{
    let es = series_effects(asset, recs, stamp);
    if recs.len() == 0 {
        assert(series_paths(asset, recs) =~= Set::empty());
        assert(fs.dom().union(series_paths(asset, recs)) =~= fs.dom());
        assert(fs.contains_key(p) ==> fs[p] + rows_for(asset, recs, stamp, p) =~= fs[p]);
    } else {
        let pre = recs.drop_last();
        let last = recs.last();
        lemma_series_rows(fs, asset, pre, stamp, p);
        assert(es.drop_last() =~= series_effects(asset, pre, stamp));
        let mid = apply_all(fs, series_effects(asset, pre, stamp));
        let q = series_path_text(asset, last);
        assert(series_paths(asset, recs) =~= series_paths(asset, pre).insert(q)) by {
            assert forall|x: Seq<char>| series_paths(asset, recs).contains(x)
                implies #[trigger] series_paths(asset, pre).insert(q).contains(x) by {
                let i = choose|i: int| 0 <= i < recs.len() && series_path_text(asset, recs[i]) == x;
                if i < recs.len() - 1 {
                    assert(pre[i] == recs[i]);
                }
            }
            assert forall|x: Seq<char>| series_paths(asset, pre).insert(q).contains(x)
                implies #[trigger] series_paths(asset, recs).contains(x) by {
                if x == q {
                    assert(series_path_text(asset, recs[recs.len() - 1]) == x);
                } else {
                    let i = choose|i: int| 0 <= i < pre.len() && series_path_text(asset, pre[i]) == x;
                    assert(recs[i] == pre[i]);
                }
            }
        }
        assert(apply_all(fs, es).dom() =~= fs.dom().union(series_paths(asset, recs)));
        if p == q {
            assert(mid.contains_key(p) <==> fs.contains_key(p) || series_paths(asset, pre).contains(p));
            if fs.contains_key(p) {
                assert(apply_all(fs, es)[p] =~= fs[p] + rows_for(asset, recs, stamp, p));
            } else if series_paths(asset, pre).contains(p) {
                assert(apply_all(fs, es)[p] =~= SERIES_HEADER@ + rows_for(asset, recs, stamp, p));
            } else {
                assert(apply_all(fs, es)[p] =~= SERIES_HEADER@ + rows_for(asset, recs, stamp, p));
            }
        } else {
            assert(rows_for(asset, recs, stamp, p) =~= rows_for(asset, pre, stamp, p));
        }
    }
}

} // verus!
