//! What measurements come to.
use crate::perf::{
    block_ids, block_ids_of_side, disclosed_blocks, distribution, is_sorted_form, iteration_count,
    measured_operations, percentile_index, readings, summarize, summarizes, Distribution,
    MeasuredOperation, Measurement, Metric, OperationReport, PlannedOperation,
};
use crate::text::texts;
use crate::views::FullFileOmittedBlockView;
use vstd::prelude::*;
use vstd::string::*;

verus! {

/// How many of some values are no larger than a limit.
pub open spec fn up_to(values: Seq<u64>, limit: u64) -> nat
    decreases values.len(),
{
    if values.len() == 0 {
        0
    } else {
        up_to(values.drop_last(), limit) + if values.last() <= limit {
            1nat
        } else {
            0
        }
    }
}

proof fn lemma_up_to_bound(values: Seq<u64>, limit: u64)
    ensures
        up_to(values, limit) <= values.len(),
    decreases values.len(),
{
    if values.len() > 0 {
        lemma_up_to_bound(values.drop_last(), limit);
    }
}

proof fn lemma_up_to_split(values: Seq<u64>, limit: u64, k: int)
    requires
        0 <= k < values.len(),
    ensures
        up_to(values, limit) == up_to(values.remove(k), limit) + if values[k] <= limit {
            1nat
        } else {
            0
        },
    decreases values.len(),
{
    let rest = values.remove(k);
    if k == values.len() - 1 {
        assert(rest =~= values.drop_last());
    } else {
        lemma_up_to_split(values.drop_last(), limit, k);
        assert(rest.drop_last() =~= values.drop_last().remove(k));
        assert(rest.last() == values.last());
    }
}

proof fn lemma_up_to_of_multiset(a: Seq<u64>, b: Seq<u64>, limit: u64)
    requires
        a.to_multiset() == b.to_multiset(),
    ensures
        up_to(a, limit) == up_to(b, limit),
        a.len() == b.len(),
    decreases a.len(),
{
    broadcast use vstd::seq_lib::group_to_multiset_ensures;

    if a.len() == 0 {
        if b.len() > 0 {
            assert(b.to_multiset().count(b[0]) > 0);
            assert(a.to_multiset().len() == b.to_multiset().len());
        }
    } else {
        let value = a.last();
        assert(a.contains(value)) by {
            assert(a[a.len() - 1] == value);
        }
        assert(a.to_multiset().count(value) > 0);
        assert(b.to_multiset().count(value) > 0);
        assert(b.contains(value));
        let k = choose|k: int| 0 <= k < b.len() && b[k] == value;
        let rest = b.remove(k);
        assert(a.remove(a.len() - 1) =~= a.drop_last());
        assert(a.drop_last().to_multiset() =~= a.to_multiset().remove(value));
        assert(rest.to_multiset() =~= b.to_multiset().remove(value));
        lemma_up_to_of_multiset(a.drop_last(), rest, limit);
        lemma_up_to_split(b, limit, k);
    }
}

proof fn lemma_up_to_of_ascending(values: Seq<u64>, k: int)
    requires
        forall|i: int, j: int| 0 <= i < j < values.len() ==> values[i] <= values[j],
        0 <= k < values.len(),
    ensures
        up_to(values, values[k]) >= k + 1,
    decreases values.len(),
{
    let before = values.drop_last();
    assert(forall|i: int, j: int| 0 <= i < j < before.len() ==> before[i] <= before[j]);
    if k < values.len() - 1 {
        lemma_up_to_of_ascending(before, k);
        assert(before[k] == values[k]);
    } else {
        lemma_all_up_to(values, values[k]);
    }
}

proof fn lemma_all_up_to(values: Seq<u64>, limit: u64)
    requires
        forall|i: int| 0 <= i < values.len() ==> values[i] <= limit,
    ensures
        up_to(values, limit) == values.len(),
    decreases values.len(),
{
    if values.len() > 0 {
        let before = values.drop_last();
        assert forall|i: int| 0 <= i < before.len() implies before[i] <= limit by {
            assert(before[i] == values[i]);
        }
        lemma_all_up_to(before, limit);
    }
}

proof fn lemma_few_below(values: Seq<u64>, k: int, limit: u64)
    requires
        forall|i: int, j: int| 0 <= i < j < values.len() ==> values[i] <= values[j],
        0 <= k < values.len(),
        limit < values[k],
    ensures
        up_to(values, limit) <= k,
    decreases values.len(),
{
    let before = values.drop_last();
    assert(forall|i: int, j: int| 0 <= i < j < before.len() ==> before[i] <= before[j]);
    if k < values.len() - 1 {
        assert(before[k] == values[k]);
        lemma_few_below(before, k, limit);
        assert(values[k] <= values.last());
    } else {
        lemma_up_to_bound(before, limit);
    }
}

/// The least and the greatest value are among the values and bound them all.
/// The median is one of the values: not counting one of them, at least half do
/// not exceed it, and at most half lie below it. The value below the greatest
/// parts nineteen in twenty from the rest in the same way.
pub proof fn law_spreads_bound_the_values(values: Vec<u64>, spread: Distribution, index: int)
    requires
        values@.len() > 0,
        values@.len() * 100 <= usize::MAX,
        call_ensures(distribution, (&values,), spread),
        0 <= index < values@.len(),
    ensures
        spread.min <= values@[index] <= spread.max,
        values@.contains(spread.min) && values@.contains(spread.max),
        values@.contains(spread.median) && values@.contains(spread.p95),
        100 * up_to(values@, spread.median) >= 50 * (values@.len() - 1),
        100 * up_to(values@, spread.p95) >= 95 * (values@.len() - 1),
        spread.median > 0 ==> 100 * up_to(values@, (spread.median - 1) as u64) <= 50 * (
        values@.len() - 1),
        spread.p95 > 0 ==> 100 * up_to(values@, (spread.p95 - 1) as u64) <= 95 * (values@.len()
            - 1),
{
    broadcast use vstd::seq_lib::group_to_multiset_ensures;

    let list = values@;
    let ordered = choose|ordered: Seq<u64>|
        {
            &&& #[trigger] is_sorted_form(ordered, list)
            &&& spread.min == ordered[0]
            &&& spread.median == ordered[percentile_index(list.len(), 50)]
            &&& spread.p95 == ordered[percentile_index(list.len(), 95)]
            &&& spread.max == ordered[list.len() - 1]
        };
    lemma_up_to_of_multiset(ordered, list, 0);
    let n = list.len() as int;
    let middle = percentile_index(list.len(), 50);
    let high = percentile_index(list.len(), 95);
    assert(middle == ((n - 1) * 50) / 100);
    assert(high == ((n - 1) * 95) / 100);
    assert(0 <= middle < n && 0 <= high < n);
    assert forall|k: int| 0 <= k < n implies list.contains(#[trigger] ordered[k]) by {
        assert(ordered.contains(ordered[k]));
        assert(ordered.to_multiset().count(ordered[k]) > 0);
        assert(list.to_multiset().count(ordered[k]) > 0);
    }
    assert(list.to_multiset().count(list[index]) > 0) by {
        assert(list.contains(list[index]));
    }
    assert(ordered.contains(list[index]));
    let place = choose|place: int| 0 <= place < ordered.len() && ordered[place] == list[index];
    assert(ordered[0] <= ordered[place] <= ordered[n - 1]);
    lemma_up_to_of_multiset(ordered, list, spread.median);
    lemma_up_to_of_multiset(ordered, list, spread.p95);
    lemma_up_to_of_ascending(ordered, middle);
    lemma_up_to_of_ascending(ordered, high);
    if spread.median > 0 {
        let below = (spread.median - 1) as u64;
        lemma_up_to_of_multiset(ordered, list, below);
        lemma_few_below(ordered, middle, below);
    }
    if spread.p95 > 0 {
        let below = (spread.p95 - 1) as u64;
        lemma_up_to_of_multiset(ordered, list, below);
        lemma_few_below(ordered, high, below);
    }
}

/// A report sums up each quantity of its samples on its own: the greatest value
/// of each is that of some sample, and no sample exceeds it.
pub proof fn law_reports_sum_up_each_quantity(
    name: &str,
    viewport_rows: Option<u32>,
    samples: Vec<Measurement>,
    report: OperationReport,
    index: int,
)
    requires
        samples@.len() > 0,
        call_ensures(summarize, (name, viewport_rows, &samples), report),
        0 <= index < samples@.len(),
    ensures
        report.name@ == name@,
        report.samples == samples@.len(),
        report.wall_micros.min <= samples@[index].wall_micros <= report.wall_micros.max,
        report.native_micros.min <= samples@[index].native_micros <= report.native_micros.max,
        report.serialization_micros.min <= samples@[index].serialization_micros
            <= report.serialization_micros.max,
        report.response_bytes.min <= samples@[index].response_bytes <= report.response_bytes.max,
        report.response_rows.min <= samples@[index].response_rows <= report.response_rows.max,
        report.syntax_tokens.min <= samples@[index].syntax_tokens <= report.syntax_tokens.max,
        report.omitted_blocks.min <= samples@[index].omitted_blocks <= report.omitted_blocks.max,
        exists|k: int|
            0 <= k < samples@.len() && (#[trigger] samples@[k]).wall_micros
                == report.wall_micros.max,
        exists|k: int|
            0 <= k < samples@.len() && (#[trigger] samples@[k]).native_micros
                == report.native_micros.max,
{
    lemma_summary(report.wall_micros, samples@, Metric::WallMicros, index);
    lemma_summary(report.native_micros, samples@, Metric::NativeMicros, index);
    lemma_summary(report.serialization_micros, samples@, Metric::SerializationMicros, index);
    lemma_summary(report.response_bytes, samples@, Metric::ResponseBytes, index);
    lemma_summary(report.response_rows, samples@, Metric::ResponseRows, index);
    lemma_summary(report.syntax_tokens, samples@, Metric::SyntaxTokens, index);
    lemma_summary(report.omitted_blocks, samples@, Metric::OmittedBlocks, index);
    let w = choose|k: int|
        0 <= k < samples@.len() && #[trigger] readings(samples@, Metric::WallMicros)[k]
            == report.wall_micros.max;
    assert(samples@[w].wall_micros == report.wall_micros.max);
    let m = choose|k: int|
        0 <= k < samples@.len() && #[trigger] readings(samples@, Metric::NativeMicros)[k]
            == report.native_micros.max;
    assert(samples@[m].native_micros == report.native_micros.max);
}

proof fn lemma_summary(spread: Distribution, samples: Seq<Measurement>, metric: Metric, index: int)
    requires
        samples.len() > 0,
        summarizes(spread, readings(samples, metric)),
        0 <= index < samples.len(),
    ensures
        spread.min <= readings(samples, metric)[index] <= spread.max,
        exists|k: int|
            0 <= k < samples.len() && #[trigger] readings(samples, metric)[k] == spread.max,
{
    broadcast use vstd::seq_lib::group_to_multiset_ensures;

    let list = readings(samples, metric);
    let ordered = choose|ordered: Seq<u64>|
        {
            &&& #[trigger] is_sorted_form(ordered, list)
            &&& spread.min == ordered[0]
            &&& spread.median == ordered[percentile_index(list.len(), 50)]
            &&& spread.p95 == ordered[percentile_index(list.len(), 95)]
            &&& spread.max == ordered[list.len() - 1]
        };
    lemma_up_to_of_multiset(ordered, list, 0);
    assert(list.contains(list[index]));
    assert(list.to_multiset().count(list[index]) > 0);
    assert(ordered.contains(list[index]));
    let place = choose|place: int| 0 <= place < ordered.len() && ordered[place] == list[index];
    assert(ordered[0] <= ordered[place] <= ordered[list.len() - 1]);
    let top = ordered[list.len() - 1];
    assert(ordered.contains(top));
    assert(ordered.to_multiset().count(top) > 0);
    assert(list.contains(top));
    let k = choose|k: int| 0 <= k < list.len() && list[k] == top;
    assert(readings(samples, metric)[k] == spread.max);
}

proof fn lemma_block_ids(blocks: Seq<FullFileOmittedBlockView>, side: Seq<char>)
    ensures
        forall|id: Seq<char>| #[trigger]
            block_ids(blocks, side).contains(id) <==> exists|i: int|
                0 <= i < blocks.len() && (#[trigger] blocks[i]).side@ == side && blocks[i].id@
                    == id,
    decreases blocks.len(),
{
    if blocks.len() > 0 {
        let before = blocks.drop_last();
        let last = blocks.len() - 1;
        lemma_block_ids(before, side);
        let earlier = block_ids(before, side);
        let all = block_ids(blocks, side);
        assert forall|id: Seq<char>| #[trigger] all.contains(id) <==> exists|i: int|
            0 <= i < blocks.len() && (#[trigger] blocks[i]).side@ == side && blocks[i].id@
                == id by {
            if all.contains(id) {
                let k = choose|k: int| 0 <= k < all.len() && all[k] == id;
                if k < earlier.len() {
                    assert(earlier[k] == id);
                    assert(earlier.contains(id));
                    let i = choose|i: int|
                        0 <= i < before.len() && (#[trigger] before[i]).side@ == side
                            && before[i].id@ == id;
                    assert(blocks[i] == before[i]);
                } else {
                    assert(blocks[last].side@ == side && blocks[last].id@ == id);
                }
            }
            if exists|i: int|
                0 <= i < blocks.len() && (#[trigger] blocks[i]).side@ == side && blocks[i].id@
                    == id {
                let i = choose|i: int|
                    0 <= i < blocks.len() && (#[trigger] blocks[i]).side@ == side && blocks[i].id@
                        == id;
                if i < last {
                    assert(before[i] == blocks[i]);
                    assert(earlier.contains(id));
                    let k = choose|k: int| 0 <= k < earlier.len() && earlier[k] == id;
                    assert(all[k] == id);
                } else {
                    assert(all[all.len() - 1] == id);
                }
            }
        }
    }
}

/// The folds of a side are all of that side and all that there are of it.
pub proof fn law_folds_are_told_apart_by_side(
    blocks: Vec<FullFileOmittedBlockView>,
    side: &str,
    ids: Vec<String>,
    id: Seq<char>,
)
    requires
        call_ensures(block_ids_of_side, (&blocks, side), ids),
    ensures
        texts(ids@).contains(id) <==> exists|i: int|
            0 <= i < blocks@.len() && (#[trigger] blocks@[i]).side@ == side@ && blocks@[i].id@
                == id,
{
    lemma_block_ids(blocks@, side@);
}

/// Deletions and additions are disclosed in turn: all of them or the first, and
/// never both kinds at once.
pub proof fn law_blocks_are_disclosed_in_turn(
    all: bool,
    index: usize,
    deletions: Vec<String>,
    additions: Vec<String>,
    blocks: (Vec<String>, Vec<String>),
)
    requires
        call_ensures(disclosed_blocks, (all, index, &deletions, &additions), blocks),
    ensures
        index % 2 == 0 ==> blocks.1@.len() == 0,
        index % 2 == 1 ==> blocks.0@.len() == 0,
        index % 2 == 0 && all ==> texts(blocks.0@) == texts(deletions@),
        index % 2 == 1 && all ==> texts(blocks.1@) == texts(additions@),
        index % 2 == 0 && !all && deletions@.len() > 0 ==> blocks.0@.len() == 1 && blocks.0@[0]@
            == deletions@[0]@,
        index % 2 == 1 && !all && additions@.len() > 0 ==> blocks.1@.len() == 1 && blocks.1@[0]@
            == additions@[0]@,
{
    assert(texts(blocks.0@).len() == blocks.0@.len());
    assert(texts(blocks.1@).len() == blocks.1@.len());
    if blocks.0@.len() > 0 {
        assert(texts(blocks.0@)[0] == blocks.0@[0]@);
    }
    if blocks.1@.len() > 0 {
        assert(texts(blocks.1@)[0] == blocks.1@[0]@);
    }
    if deletions@.len() > 0 {
        assert(texts(deletions@)[0] == deletions@[0]@);
    }
    if additions@.len() > 0 {
        assert(texts(additions@)[0] == additions@[0]@);
    }
}

/// Every operation is measured once, each as often as was asked for, but for a
/// cold one, which there is one of, and a capture, of which there are fewer.
pub proof fn law_operations_are_measured_as_often_as_asked(
    iterations: usize,
    plan: Vec<PlannedOperation>,
)
    requires
        call_ensures(measured_operations, (iterations,), plan),
    ensures
        forall|i: int, j: int|
            0 <= i < j < plan@.len() ==> (#[trigger] plan@[i]).operation != (
            #[trigger] plan@[j]).operation,
        forall|i: int|
            0 <= i < plan@.len() ==> {
                let samples = (#[trigger] plan@[i]).samples;
                match plan@[i].operation {
                    MeasuredOperation::HighlightCold => samples == 1,
                    MeasuredOperation::Refresh => samples >= 3 && (samples == 3 || 4 * samples
                        <= iterations < 4 * samples + 4),
                    _ => samples == iterations,
                }
            },
        plan@.len() == 6,
{
}

/// A number of samples is taken as it is asked for where it is within bounds.
pub proof fn law_sample_counts_keep_their_bounds(requested: Option<usize>, count: usize)
    requires
        call_ensures(iteration_count, (requested,), count),
    ensures
        1 <= count <= 1000,
        requested matches Some(number) ==> 1 <= number <= 1000 ==> count == number,
{
}

} // verus!
