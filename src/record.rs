use vstd::prelude::*;

verus! {

/// One venue listing of the tracked asset, as the provider reported it in one fetch.
///
/// The numeric fields are held as their canonical decimal text: that text is what the
/// files record, and the digit columns are taken from it.
#[derive(Clone, Debug)]
pub struct ListingRecord {
    /// The trading venue's display name.
    pub venue: String,
    /// The symbol the tracked asset is quoted against.
    pub counter: String,
    /// The decimal text of the traded volume.
    pub volume: String,
    /// The decimal text of the bid/ask spread percentage, when the provider gave one.
    pub spread: Option<String>,
    pub is_anomaly: bool,
    pub is_stale: bool,
}

impl ListingRecord {
    /// The volume text has a first and a last character.
    pub open spec fn wf(&self) -> bool {
        self.volume@.len() > 0
    }

    /// Builds a record; `None` where the volume text is empty.
    pub fn new(
        venue: String,
        counter: String,
        volume: String,
        spread: Option<String>,
        is_anomaly: bool,
        is_stale: bool,
    ) -> (r: Option<ListingRecord>)
        ensures
            r is Some <==> volume@.len() > 0,
            r matches Some(rec) ==> rec.wf() && rec.venue == venue && rec.counter == counter
                && rec.volume == volume && rec.spread == spread && rec.is_anomaly == is_anomaly
                && rec.is_stale == is_stale,
    {
        if volume.as_str().is_empty() {
            None
        } else {
            Some(ListingRecord { venue, counter, volume, spread, is_anomaly, is_stale })
        }
    }
}

/// Every record of the sequence is well formed.
pub open spec fn all_wf(recs: Seq<ListingRecord>) -> bool {
    forall|i: int| 0 <= i < recs.len() ==> #[trigger] recs[i].wf()
}

} // verus!
