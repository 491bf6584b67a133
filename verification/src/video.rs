use vstd::prelude::*;
use vstd::string::StringExecFns;
use crate::text::{dec_digits, two_digits, u64_to_string, u64_to_two_digits};

verus! {

/// A named sub-range of an item, with offsets in whole seconds.
#[derive(Clone, Debug)]
pub struct Chapter {
    pub title: String,
    pub start_time: u64,
    pub end_time: u64,
}

/// One downloadable unit of a catalog.
#[derive(Clone, Debug)]
pub struct VideoInfo {
    /// 1-based position within its catalog.
    pub index: usize,
    pub id: String,
    pub title: String,
    /// Duration in whole seconds, absent when unknown.
    pub duration: Option<u64>,
    pub url: String,
    /// Chapters, in order; empty when none are known yet.
    pub chapters: Vec<Chapter>,
    /// Selected `(start, end)` second ranges; empty means the whole item.
    pub selected_sections: Vec<(u64, u64)>,
}

/// Minutes and seconds of a second count, as `m:ss`.
pub open spec fn time_text(secs: int) -> Seq<char> {
    dec_digits(secs / 60) + seq![':'] + two_digits(secs % 60)
}

/// Renders a second count as `m:ss`.
pub fn format_time(secs: u64) -> (r: String)
    ensures
        r@ == time_text(secs as int),
{
    let m = secs / 60;
    let s = secs % 60;
    let r = u64_to_string(m).concat(":").concat(u64_to_two_digits(s).as_str());
    proof {
        reveal_strlit(":");
        assert((":"@) =~= seq![':']);
        assert(r@ =~= time_text(secs as int));
    }
    r
}

impl Chapter {
    /// The chapter's time range as `m:ss - m:ss`.
    pub fn time_display(&self) -> (r: String)
        ensures
            r@ == time_text(self.start_time as int) + " - "@ + time_text(self.end_time as int),
    {
        let r = format_time(self.start_time).concat(" - ").concat(
            format_time(self.end_time).as_str(),
        );
        proof {
            assert(r@ =~= time_text(self.start_time as int) + " - "@ + time_text(
                self.end_time as int,
            ));
        }
        r
    }
}

impl VideoInfo {
    /// The duration as `m:ss`, or `??:??` when unknown.
    pub fn duration_display(&self) -> (r: String)
        ensures
            match self.duration {
                Some(secs) => r@ == time_text(secs as int),
                None => r@ == "??:??"@,
            },
    {
        match self.duration {
            Some(secs) => format_time(secs),
            None => String::from_str("??:??"),
        }
    }

    /// Whether any chapters are known for this item.
    pub fn has_chapters(&self) -> (r: bool)
        ensures
            r == (self.chapters@.len() > 0),
    {
        self.chapters.len() > 0
    }

    /// Whether the download is restricted to selected sections.
    pub fn has_selected_sections(&self) -> (r: bool)
        ensures
            r == (self.selected_sections@.len() > 0),
    {
        self.selected_sections.len() > 0
    }
}

/// The items whose 1-based index stands in `indices`, in catalog order.
#[verifier::loop_isolation(false)]
pub fn filter_selected(videos: Vec<VideoInfo>, indices: &Vec<usize>) -> (r: Vec<VideoInfo>)
    ensures
        r@ == videos@.filter(|v: VideoInfo| indices@.contains(v.index)),
{
    let ghost orig = videos@;
    let ghost pred = |v: VideoInfo| indices@.contains(v.index);
    let mut rest = videos;
    let n = rest.len();
    let mut r: Vec<VideoInfo> = Vec::new();
    let mut i: usize = 0;
    proof {
        assert(orig.len() == n);
    }
    proof {
        reveal(Seq::filter);
        assert(orig.take(0) =~= Seq::<VideoInfo>::empty());
        assert(r@ =~= orig.take(0).filter(pred));
        assert(rest@ =~= orig.skip(0));
    }
    while rest.len() > 0
        invariant
            i <= n,
            orig.len() == n,
            rest@ == orig.skip(i as int),
            r@ == orig.take(i as int).filter(pred),
        decreases rest@.len(),
    {
        let v = rest.remove(0);
        proof {
            assert(v == orig[i as int]);
            assert(rest@ =~= orig.skip(i + 1));
        }
        let mut selected = false;
        let mut j: usize = 0;
        while j < indices.len()
            invariant
                j <= indices@.len(),
                selected == exists|q: int| 0 <= q < j && indices@[q] == v.index,
            decreases indices@.len() - j,
        {
            if indices[j] == v.index {
                selected = true;
            }
            j += 1;
        }
        proof {
            assert(selected == indices@.contains(v.index));
            reveal(Seq::filter);
            assert(orig.take(i + 1).drop_last() =~= orig.take(i as int));
            assert(orig.take(i + 1).last() == orig[i as int]);
        }
        if selected {
            r.push(v);
            proof {
                assert(r@ =~= orig.take(i + 1).filter(pred));
            }
        } else {
            proof {
                assert(r@ =~= orig.take(i + 1).filter(pred));
            }
        }
        i += 1;
    }
    proof {
        assert(orig.take(orig.len() as int) =~= orig);
    }
    r
}

/// The `(start, end)` bounds of the chapters the 1-based `indices` name,
/// in the order the indices come.
pub fn sections_from_indices(chapters: &Vec<Chapter>, indices: &Vec<usize>) -> (r: Vec<
    (u64, u64),
>)
    requires
        forall|k: int| 0 <= k < indices@.len() ==> 1 <= #[trigger] indices@[k] <= chapters@.len(),
    ensures
        r@.len() == indices@.len(),
        forall|k: int| 0 <= k < r@.len() ==> #[trigger] r@[k] == (
            chapters@[indices@[k] - 1].start_time,
            chapters@[indices@[k] - 1].end_time,
        ),
{
    let mut r: Vec<(u64, u64)> = Vec::new();
    let mut k: usize = 0;
    while k < indices.len()
        invariant
            k <= indices@.len(),
            forall|j: int| 0 <= j < indices@.len() ==> 1 <= #[trigger] indices@[j]
                <= chapters@.len(),
            r@.len() == k,
            forall|j: int| 0 <= j < k ==> #[trigger] r@[j] == (
                chapters@[indices@[j] - 1].start_time,
                chapters@[indices@[j] - 1].end_time,
            ),
        decreases indices@.len() - k,
    {
        let i = indices[k];
        let ch = &chapters[i - 1];
        r.push((ch.start_time, ch.end_time));
        k += 1;
    }
    r
}

} // verus!
