//! Which glyph clusters of a laid-out run a spoiler span covers: the first
//! unbroken stretch, in visual order, of clusters whose text overlaps the
//! span. The spoiler rectangle is drawn over that stretch.
use vstd::prelude::*;
use std::ops::Range;

verus! {

/// Do the byte ranges `[a_start, a_end)` and `[b_start, b_end)` share a
/// byte?
pub open spec fn ranges_overlap(a_start: int, a_end: int, b_start: int, b_end: int) -> bool {
    b_start < a_end && a_start < b_end
}

/// Does a cluster's text range overlap the span's range?
pub fn is_overlapping(span: &Range<usize>, cluster_range: &Range<usize>) -> (b: bool)
    ensures
        b == ranges_overlap(
            span.start as int,
            span.end as int,
            cluster_range.start as int,
            cluster_range.end as int,
        ),
{
    cluster_range.start < span.end && span.start < cluster_range.end
}

/// Does cluster `i` overlap the span?
pub open spec fn hits(span: Range<usize>, clusters: Seq<Range<usize>>, i: int) -> bool {
    ranges_overlap(
        span.start as int,
        span.end as int,
        clusters[i].start as int,
        clusters[i].end as int,
    )
}

/// The clusters from `first` to `last` (inclusive) are the first unbroken
/// stretch of clusters that overlap the span.
pub open spec fn is_first_run(
    span: Range<usize>,
    clusters: Seq<Range<usize>>,
    first: int,
    last: int,
) -> bool {
    &&& 0 <= first <= last < clusters.len()
    &&& forall|i: int| 0 <= i < first ==> !hits(span, clusters, i)
    &&& forall|i: int| first <= i <= last ==> hits(span, clusters, i)
    &&& (last + 1 == clusters.len() || !hits(span, clusters, last + 1))
}

/// The first unbroken stretch of clusters (given by their text ranges, in
/// visual order) that overlap the span, as the indices of its first and
/// last cluster; `None` where no cluster overlaps the span.
pub fn spoiler_cluster_run(span: &Range<usize>, clusters: &Vec<Range<usize>>) -> (r: Option<
    (usize, usize),
>)
    ensures
        r is None <==> forall|i: int| 0 <= i < clusters@.len() ==> !hits(*span, clusters@, i),
        r matches Some(p) ==> is_first_run(*span, clusters@, p.0 as int, p.1 as int),
{
    let mut first: Option<usize> = None;
    let mut last: usize = 0;
    let mut i: usize = 0;
    while i < clusters.len()
        invariant
            0 <= i <= clusters.len(),
            first is None ==> forall|j: int| 0 <= j < i ==> !hits(*span, clusters@, j),
            first matches Some(f) ==> {
                &&& f <= last < i
                &&& last + 1 == i
                &&& forall|j: int| 0 <= j < f ==> !hits(*span, clusters@, j)
                &&& forall|j: int| f <= j <= last ==> hits(*span, clusters@, j)
            },
        decreases clusters.len() - i,
    {
        let hit = is_overlapping(span, &clusters[i]);
        assert(hit == hits(*span, clusters@, i as int));
        if hit {
            if first.is_none() {
                first = Some(i);
            }
            last = i;
        } else if first.is_some() {
            let f = first.unwrap();
            assert(is_first_run(*span, clusters@, f as int, last as int));
            assert(hits(*span, clusters@, f as int));
            return Some((f, last));
        }
        i += 1;
    }
    match first {
        Some(f) => {
            assert(hits(*span, clusters@, f as int));
            Some((f, last))
        },
        None => None,
    }
}

} // verus!
