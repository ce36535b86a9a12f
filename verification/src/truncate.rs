//! Shortening text to a display width, grapheme by grapheme, with an ellipsis.

use vstd::prelude::*;

use crate::text::{push_char, push_str};

verus! {

/// The display width of `text` in terminal columns, as
/// `unicode_display_width::width` measures it.
pub uninterp spec fn display_width(text: Seq<char>) -> nat;

/// The extended grapheme clusters of `text`, as
/// `UnicodeSegmentation::graphemes(text, true)` splits it.
pub uninterp spec fn graphemes(text: Seq<char>) -> Seq<Seq<char>>;

/// `unicode_display_width::width`: the number of columns `text` takes.
#[verifier::external_body]
pub(crate) fn width(text: &str) -> (r: u64)
    ensures
        r == display_width(text@),
{
    unicode_display_width::width(text)
}

/// `UnicodeSegmentation::graphemes(text, true)`, collected.
///
/// The crate documents the clusters as the pieces of `text`; that they
/// concatenate to `text` is not stated here.
#[verifier::external_body]
pub(crate) fn grapheme_clusters(text: &str) -> (r: Vec<&str>)
    ensures
        r@.map_values(|g: &str| g@) == graphemes(text@),
{
    unicode_segmentation::UnicodeSegmentation::graphemes(text, true).collect()
}

/// The leading graphemes of `clusters` that fit in `budget` columns together.
pub open spec fn fitting(clusters: Seq<Seq<char>>, budget: int) -> Seq<char>
    decreases clusters.len(),
{
    if clusters.len() == 0 {
        seq![]
    } else if display_width(clusters[0]) > budget {
        seq![]
    } else {
        clusters[0] + fitting(clusters.drop_first(), budget - display_width(clusters[0]))
    }
}

/// `text` shortened to `width` columns: unchanged when it fits; empty when no
/// column is available; otherwise its leading graphemes that fit in one column
/// less, followed by an ellipsis.
pub open spec fn truncated(text: Seq<char>, width: nat) -> Seq<char> {
    if display_width(text) <= width {
        text
    } else if width == 0 {
        seq![]
    } else {
        fitting(graphemes(text), width - 1) + seq!['…']
    }
}

/// The columns that `clusters` take, measured one by one.
pub open spec fn width_sum(clusters: Seq<Seq<char>>) -> int
    decreases clusters.len(),
{
    if clusters.len() == 0 {
        0
    } else {
        display_width(clusters[0]) + width_sum(clusters.drop_first())
    }
}

/// How many leading clusters `fitting` keeps.
spec fn fit_len(clusters: Seq<Seq<char>>, budget: int) -> nat
    decreases clusters.len(),
{
    if clusters.len() == 0 || display_width(clusters[0]) > budget {
        0
    } else {
        1 + fit_len(clusters.drop_first(), budget - display_width(clusters[0]))
    }
}

proof fn lemma_fitting(clusters: Seq<Seq<char>>, budget: int)
    requires
        budget >= 0,
    ensures
        fit_len(clusters, budget) <= clusters.len(),
        fitting(clusters, budget) == clusters.take(fit_len(clusters, budget) as int).flatten(),
        width_sum(clusters.take(fit_len(clusters, budget) as int)) <= budget,
        fit_len(clusters, budget) < clusters.len() ==> width_sum(
            clusters.take(fit_len(clusters, budget) as int),
        ) + display_width(clusters[fit_len(clusters, budget) as int]) > budget,
    decreases clusters.len(),
{
    let k = fit_len(clusters, budget);
    if clusters.len() == 0 || display_width(clusters[0]) > budget {
        assert(clusters.take(0) =~= Seq::<Seq<char>>::empty());
    } else {
        let rest = clusters.drop_first();
        let b = budget - display_width(clusters[0]);
        lemma_fitting(rest, b);
        let j = fit_len(rest, b);
        assert(k == j + 1);
        let kept = clusters.take(k as int);
        assert(kept =~= seq![clusters[0]] + rest.take(j as int));
        assert(kept.first() == clusters[0]);
        assert(kept.drop_first() =~= rest.take(j as int));
        assert(width_sum(kept) == display_width(clusters[0]) + width_sum(rest.take(j as int)));
        if k < clusters.len() {
            assert(clusters[k as int] == rest[j as int]);
        }
    }
}

/// Truncation keeps a leading run of whole graphemes: text that fits is
/// kept whole; otherwise, with at least one column, the result is the longest
/// run of leading graphemes that fits in one column less, followed by an
/// ellipsis, so it stops at the first grapheme that does not fit.
pub proof fn truncation_keeps_leading_graphemes(text: Seq<char>, width: nat)
    ensures
        display_width(text) <= width ==> truncated(text, width) == text,
        (display_width(text) > width && width == 0) ==> truncated(text, width) == Seq::<
            char,
        >::empty(),
        (display_width(text) > width && width > 0) ==> exists|k: int|
            0 <= k <= graphemes(text).len() && truncated(text, width) == (
            #[trigger] graphemes(text).take(k)).flatten() + seq!['…'] && width_sum(
                graphemes(text).take(k),
            ) <= width - 1 && (k < graphemes(text).len() ==> width_sum(graphemes(text).take(k))
                + display_width(graphemes(text)[k]) > width - 1),
{
    if display_width(text) > width && width > 0 {
        let clusters = graphemes(text);
        lemma_fitting(clusters, width - 1);
        let k = fit_len(clusters, width - 1) as int;
        assert(truncated(text, width) == clusters.take(k).flatten() + seq!['…']);
    }
}

/// Shortens `text` to `width` columns.
fn truncate(text: &str, width_limit: usize) -> (r: String)
    ensures
        r@ == truncated(text@, width_limit as nat),
{
    let limit = width_limit as u64;
    if width(text) <= limit {
        let mut r = String::new();
        push_str(&mut r, text);
        assert(r@ =~= text@);
        return r;
    }
    if limit == 0 {
        let r = String::new();
        assert(r@ =~= Seq::<char>::empty());
        return r;
    }
    let budget = limit - 1;
    let clusters = grapheme_clusters(text);
    let ghost all = clusters@.map_values(|g: &str| g@);
    let mut truncated_text = String::new();
    let mut used: u64 = 0;
    let mut i: usize = 0;
    proof {
        assert(all.skip(0) =~= all);
    }
    while i < clusters.len()
        invariant
            i <= clusters.len(),
            used <= budget,
            all == clusters@.map_values(|g: &str| g@),
            fitting(all, budget as int) == truncated_text@ + fitting(
                all.skip(i as int),
                budget - used,
            ),
        ensures
            fitting(all, budget as int) == truncated_text@,
        decreases clusters.len() - i,
    {
        let cluster = clusters[i];
        let cluster_width = width(cluster);
        let ghost rest = all.skip(i as int);
        assert(rest[0] == cluster@);
        if cluster_width > budget - used {
            assert(fitting(rest, budget - used) =~= Seq::<char>::empty());
            assert(truncated_text@ + Seq::<char>::empty() =~= truncated_text@);
            break;
        }
        assert(i + 1 == clusters.len() ==> all.skip(i + 1) =~= Seq::<Seq<char>>::empty());
        push_str(&mut truncated_text, cluster);
        assert(rest.drop_first() =~= all.skip(i + 1));
        assert(fitting(all, budget as int) =~= truncated_text@ + fitting(
            all.skip(i + 1),
            budget - (used + cluster_width),
        ));
        used = used + cluster_width;
        i += 1;
    }
    proof {
        assert(all.skip(0) =~= all);
    }
    push_char(&mut truncated_text, '…');
    truncated_text
}

/// Shortening to a display width.
pub trait Truncate {
    /// The text shortened to `width` columns.
    fn truncate(&self, width: usize) -> String;
}

impl Truncate for str {
    fn truncate(&self, width: usize) -> (r: String)
        ensures
            r@ == truncated(self@, width as nat),
    {
        truncate(self, width)
    }
}

} // verus!
