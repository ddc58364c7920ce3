//! Measuring the application: samples, their summaries and what is measured.
use crate::ids::{id_chars, id_text, RepositoryId, WorkspaceId};
use crate::presentation::PresentationRequest;
use crate::text::{copy_texts, decimal, opt_text, push_decimal, text_eq, texts};
use crate::views::{FullFileOmittedBlockView, PresentationWindow};
use vstd::prelude::*;
use vstd::string::*;

verus! {

/// How often each operation is measured, where nothing else is asked for.
pub const DEFAULT_ITERATIONS: usize = 24;

/// How often each operation is measured at most.
pub const MAX_ITERATIONS: usize = 1000;

/// How often to measure: as often as was asked for, within bounds.
pub fn iteration_count(requested: Option<usize>) -> (count: usize)
    ensures
        count == match requested {
            Some(number) => if 1 <= number <= MAX_ITERATIONS {
                number
            } else {
                DEFAULT_ITERATIONS
            },
            None => DEFAULT_ITERATIONS,
        },
{
    match requested {
        Some(number) => if 1 <= number && number <= MAX_ITERATIONS {
            number
        } else {
            DEFAULT_ITERATIONS
        },
        None => DEFAULT_ITERATIONS,
    }
}

/// How often to measure a refresh, which takes longer.
pub fn refresh_iterations(iterations: usize) -> (count: usize)
    ensures
        count == if iterations / 4 > 3 {
            iterations / 4
        } else {
            3
        },
{
    let quarter: usize = iterations / 4;
    if quarter > 3 {
        quarter
    } else {
        3
    }
}

/// How samples are spread.
#[derive(Clone, Copy, Debug, PartialEq, Eq, Structural)]
pub struct Distribution {
    pub min: u64,
    pub median: u64,
    pub p95: u64,
    pub max: u64,
}

/// One sample of an operation.
#[derive(Clone, Copy, Debug, PartialEq, Eq, Structural)]
pub struct Measurement {
    pub wall_micros: u64,
    pub native_micros: u64,
    pub serialization_micros: u64,
    pub response_bytes: u64,
    pub response_rows: u64,
    pub syntax_tokens: u64,
    pub omitted_blocks: u64,
}

/// What was measured of an operation.
#[derive(Debug)]
pub struct OperationReport {
    pub name: String,
    pub samples: usize,
    pub viewport_rows_requested: Option<u32>,
    pub wall_micros: Distribution,
    pub native_micros: Distribution,
    pub serialization_micros: Distribution,
    pub response_bytes: Distribution,
    pub response_rows: Distribution,
    pub syntax_tokens: Distribution,
    pub omitted_blocks: Distribution,
}

/// Whether numbers are in order.
pub open spec fn is_ascending(values: Seq<u64>) -> bool {
    forall|i: int, j: int| 0 <= i < j < values.len() ==> values[i] <= values[j]
}

/// Whether a list has the same numbers as another, in order.
pub open spec fn is_sorted_form(ordered: Seq<u64>, values: Seq<u64>) -> bool {
    is_ascending(ordered) && ordered.to_multiset() == values.to_multiset()
}

/// Where the given part of an ordered list stands.
pub open spec fn percentile_index(length: nat, numerator: nat) -> int {
    let scaled = (length - 1) * numerator;
    (if scaled <= usize::MAX {
        scaled
    } else {
        usize::MAX as int
    }) / 100
}

fn insert_in_order(ordered: &mut Vec<u64>, value: u64)
    requires
        is_ascending(old(ordered)@),
    ensures
        is_ascending(final(ordered)@),
        final(ordered)@.to_multiset() == old(ordered)@.to_multiset().insert(value),
        final(ordered)@.len() == old(ordered)@.len() + 1,
{
    let ghost before = ordered@;
    let mut position: usize = ordered.len();
    while position > 0 && ordered[position - 1] > value
        invariant
            position <= ordered.len(),
            ordered@ == before,
            is_ascending(before),
            forall|i: int| position <= i < before.len() ==> before[i] > value,
        decreases position,
    {
        position -= 1;
    }
    ordered.insert(position, value);
    proof {
        broadcast use vstd::seq_lib::group_to_multiset_ensures;

        let after = ordered@;
        assert(after == before.insert(position as int, value));
        assert(after.remove(position as int) =~= before);
        assert(after[position as int] == value);
        assert(after.to_multiset().contains(value));
        assert(after.to_multiset() =~= after.remove(position as int).to_multiset().insert(value));
    }
}

/// Sums samples up. Of no samples nothing can be said.
pub fn distribution(values: &Vec<u64>) -> (spread: Distribution)
    requires
        values.len() > 0,
    ensures
        exists|ordered: Seq<u64>|
            {
                &&& #[trigger] is_sorted_form(ordered, values@)
                &&& spread.min == ordered[0]
                &&& spread.median == ordered[percentile_index(values@.len(), 50)]
                &&& spread.p95 == ordered[percentile_index(values@.len(), 95)]
                &&& spread.max == ordered[values@.len() - 1]
            },
        spread.min <= spread.median <= spread.p95 <= spread.max,
{
    let mut ordered: Vec<u64> = Vec::new();
    let mut i: usize = 0;
    proof {
        assert(ordered@ =~= values@.take(0));
    }
    while i < values.len()
        invariant
            i <= values.len(),
            ordered.len() == i,
            is_ascending(ordered@),
            ordered@.to_multiset() == values@.take(i as int).to_multiset(),
        decreases values.len() - i,
    {
        insert_in_order(&mut ordered, values[i]);
        proof {
            broadcast use vstd::seq_lib::group_to_multiset_ensures;

            assert(values@.take(i + 1) =~= values@.take(i as int).push(values@[i as int]));
        }
        i += 1;
    }
    assert(values@.take(values.len() as int) =~= values@);
    assert(is_sorted_form(ordered@, values@));
    let middle: usize = index_of_percentile(values.len(), 50);
    let high: usize = index_of_percentile(values.len(), 95);
    proof {
        let length = values@.len();
        assert((length - 1) * 50 <= (length - 1) * 95) by (nonlinear_arith)
            requires
                length >= 1,
        ;
    }
    Distribution {
        min: ordered[0],
        median: ordered[middle],
        p95: ordered[high],
        max: ordered[values.len() - 1],
    }
}

fn index_of_percentile(length: usize, numerator: usize) -> (index: usize)
    requires
        length > 0,
        0 < numerator <= 100,
    ensures
        index == percentile_index(length as nat, numerator as nat),
        index < length,
{
    let last: usize = length - 1;
    proof {
        assert(0 <= last * numerator <= last * 100) by (nonlinear_arith)
            requires
                0 < numerator <= 100,
                0 <= last,
        ;
    }
    let scaled: u128 = (last as u128) * (numerator as u128);
    if scaled <= usize::MAX as u128 {
        (scaled / 100) as usize
    } else {
        usize::MAX / 100
    }
}

/// No two orders of the same numbers differ, so samples have one summary.
pub proof fn law_sorted_form_is_unique(a: Seq<u64>, b: Seq<u64>, values: Seq<u64>)
    requires
        is_sorted_form(a, values),
        is_sorted_form(b, values),
    ensures
        a == b,
{
    lemma_sorted_unique(a, b);
}

proof fn lemma_sorted_unique(a: Seq<u64>, b: Seq<u64>)
    requires
        is_ascending(a),
        is_ascending(b),
        a.to_multiset() == b.to_multiset(),
    ensures
        a == b,
    decreases a.len(),
{
    broadcast use vstd::seq_lib::group_to_multiset_ensures;

    assert(a.to_multiset().len() == a.len());
    assert(b.to_multiset().len() == b.len());
    if a.len() > 0 {
        let x = a[a.len() - 1];
        let y = b[b.len() - 1];
        assert(a.contains(x));
        assert(b.contains(y));
        assert(b.to_multiset().contains(x));
        assert(a.to_multiset().contains(y));
        assert(b.contains(x));
        assert(a.contains(y));
        let i = choose|i: int| 0 <= i < b.len() && b[i] == x;
        let j = choose|j: int| 0 <= j < a.len() && a[j] == y;
        assert(x <= y);
        assert(y <= x);
        assert(a.remove(a.len() - 1) =~= a.drop_last());
        assert(b.remove(b.len() - 1) =~= b.drop_last());
        assert(is_ascending(a.drop_last()));
        assert(is_ascending(b.drop_last()));
        lemma_sorted_unique(a.drop_last(), b.drop_last());
        assert(a =~= a.drop_last().push(x));
        assert(b =~= b.drop_last().push(y));
    } else {
        assert(a =~= b);
    }
}

/// A number of a sample.
#[derive(Clone, Copy, Debug, PartialEq, Eq, Structural)]
pub enum Metric {
    WallMicros,
    NativeMicros,
    SerializationMicros,
    ResponseBytes,
    ResponseRows,
    SyntaxTokens,
    OmittedBlocks,
}

/// A number of a sample.
pub open spec fn reading(sample: Measurement, metric: Metric) -> u64 {
    match metric {
        Metric::WallMicros => sample.wall_micros,
        Metric::NativeMicros => sample.native_micros,
        Metric::SerializationMicros => sample.serialization_micros,
        Metric::ResponseBytes => sample.response_bytes,
        Metric::ResponseRows => sample.response_rows,
        Metric::SyntaxTokens => sample.syntax_tokens,
        Metric::OmittedBlocks => sample.omitted_blocks,
    }
}

/// A number of each sample.
pub open spec fn readings(samples: Seq<Measurement>, metric: Metric) -> Seq<u64> {
    samples.map_values(|sample: Measurement| reading(sample, metric))
}

/// Whether a summary is that of some numbers.
pub open spec fn summarizes(spread: Distribution, values: Seq<u64>) -> bool {
    exists|ordered: Seq<u64>|
        {
            &&& #[trigger] is_sorted_form(ordered, values)
            &&& spread.min == ordered[0]
            &&& spread.median == ordered[percentile_index(values.len(), 50)]
            &&& spread.p95 == ordered[percentile_index(values.len(), 95)]
            &&& spread.max == ordered[values.len() - 1]
        }
}

fn spread_of(samples: &Vec<Measurement>, metric: Metric) -> (spread: Distribution)
    requires
        samples.len() > 0,
    ensures
        summarizes(spread, readings(samples@, metric)),
{
    let mut values: Vec<u64> = Vec::new();
    while values.len() < samples.len()
        invariant
            values.len() <= samples.len(),
            values@ =~= readings(samples@, metric).take(values.len() as int),
        decreases samples.len() - values.len(),
    {
        let sample: Measurement = samples[values.len()];
        let value: u64 = match metric {
            Metric::WallMicros => sample.wall_micros,
            Metric::NativeMicros => sample.native_micros,
            Metric::SerializationMicros => sample.serialization_micros,
            Metric::ResponseBytes => sample.response_bytes,
            Metric::ResponseRows => sample.response_rows,
            Metric::SyntaxTokens => sample.syntax_tokens,
            Metric::OmittedBlocks => sample.omitted_blocks,
        };
        values.push(value);
    }
    assert(values@ =~= readings(samples@, metric));
    distribution(&values)
}

/// Sums the samples of an operation up.
pub fn summarize(name: &str, viewport_rows_requested: Option<u32>, samples: &Vec<Measurement>) -> (report:
    OperationReport)
    requires
        samples.len() > 0,
    ensures
        report.name@ == name@,
        report.samples == samples@.len(),
        report.viewport_rows_requested == viewport_rows_requested,
        summarizes(report.wall_micros, readings(samples@, Metric::WallMicros)),
        summarizes(report.native_micros, readings(samples@, Metric::NativeMicros)),
        summarizes(report.serialization_micros, readings(samples@, Metric::SerializationMicros)),
        summarizes(report.response_bytes, readings(samples@, Metric::ResponseBytes)),
        summarizes(report.response_rows, readings(samples@, Metric::ResponseRows)),
        summarizes(report.syntax_tokens, readings(samples@, Metric::SyntaxTokens)),
        summarizes(report.omitted_blocks, readings(samples@, Metric::OmittedBlocks)),
{
    OperationReport {
        name: name.to_owned(),
        samples: samples.len(),
        viewport_rows_requested,
        wall_micros: spread_of(samples, Metric::WallMicros),
        native_micros: spread_of(samples, Metric::NativeMicros),
        serialization_micros: spread_of(samples, Metric::SerializationMicros),
        response_bytes: spread_of(samples, Metric::ResponseBytes),
        response_rows: spread_of(samples, Metric::ResponseRows),
        syntax_tokens: spread_of(samples, Metric::SyntaxTokens),
        omitted_blocks: spread_of(samples, Metric::OmittedBlocks),
    }
}

/// A number of microseconds, at most the largest one that fits.
pub fn micros(elapsed: u128) -> (count: u64)
    ensures
        count == if elapsed <= u64::MAX {
            elapsed as u64
        } else {
            u64::MAX
        },
{
    if elapsed <= u64::MAX as u128 {
        elapsed as u64
    } else {
        u64::MAX
    }
}

/// What a window adds to a sample.
pub fn presentation_measurement(
    window: &PresentationWindow,
    wall_micros: u64,
    native_micros: u64,
    serialization_micros: u64,
    response_bytes: u64,
) -> (sample: Measurement)
    requires
        window.old_tokens@.len() + window.new_tokens@.len() <= usize::MAX,
    ensures
        sample == (Measurement {
            wall_micros,
            native_micros,
            serialization_micros,
            response_bytes,
            response_rows: window.rows@.len() as u64,
            syntax_tokens: (window.old_tokens@.len() + window.new_tokens@.len()) as u64,
            omitted_blocks: window.omitted_blocks@.len() as u64,
        }),
{
    let tokens: usize = window.old_tokens.len() + window.new_tokens.len();
    Measurement {
        wall_micros,
        native_micros,
        serialization_micros,
        response_bytes,
        response_rows: window.rows.len() as u64,
        syntax_tokens: tokens as u64,
        omitted_blocks: window.omitted_blocks.len() as u64,
    }
}

/// Whether tracing is on, by the value of the setting that turns it on: only
/// the value 1 does.
pub fn tracing_enabled(value: Option<&str>) -> (on: bool)
    ensures
        on == (value matches Some(text) && text@ == "1"@),
{
    match value {
        Some(text) => text_eq(text, "1"),
        None => false,
    }
}

/// What is told of an operation while tracing is on.
#[derive(Debug)]
pub struct TraceRecord {
    pub schema_version: u32,
    pub kind: String,
    pub operation: String,
    pub outcome: String,
    pub duration_micros: u128,
    pub item_count: Option<usize>,
}

/// Tells of an operation; nothing while tracing is off.
pub fn record(
    enabled: bool,
    operation: &str,
    duration_micros: u128,
    outcome: &str,
    item_count: Option<usize>,
) -> (told: Option<TraceRecord>)
    ensures
        !enabled ==> told is None,
        enabled ==> (told matches Some(record) && {
            &&& record.schema_version == 1
            &&& record.kind@ == "native_command"@
            &&& record.operation@ == operation@
            &&& record.outcome@ == outcome@
            &&& record.duration_micros == duration_micros
            &&& record.item_count == item_count
        }),
{
    if !enabled {
        return None;
    }
    Some(
        TraceRecord {
            schema_version: 1,
            kind: "native_command".to_owned(),
            operation: operation.to_owned(),
            outcome: outcome.to_owned(),
            duration_micros,
            item_count,
        },
    )
}

/// How many lines the measured file has.
pub const FIXTURE_LINES: u64 = 25000;

/// Whether a line of the measured file is left out of its changed form: four
/// lines from each 250th on are.
pub open spec fn is_left_out(line: u64) -> bool {
    line >= 250 && line % 250 < 4
}

/// A line that the changed form of the measured file adds.
pub open spec fn added_line(line: u64, added: u64) -> Seq<char> {
    "pub fn added_"@ + decimal(line as nat) + "_"@ + decimal(added as nat)
        + "(value: usize) -> usize { target_symbol(value) + "@ + decimal(added as nat) + " }\n"@
}

/// The first `count` lines that the changed form adds in front of a line.
pub open spec fn added_lines(line: u64, count: nat) -> Seq<char>
    decreases count,
{
    if count == 0 {
        Seq::empty()
    } else {
        added_lines(line, (count - 1) as nat) + added_line(line, (count - 1) as u64)
    }
}

/// A line of the measured file in one of its forms.
pub open spec fn own_line(line: u64, changed: bool) -> Seq<char> {
    if changed && line % 250 == 100 {
        "pub fn changed_"@ + decimal(line as nat)
            + "(value: usize) -> usize { target_symbol(value) + "@ + decimal((line + 1) as nat)
            + " }\n"@
    } else if line % 4 == 0 {
        "pub static USE_"@ + decimal(line as nat) + ": fn(usize) -> usize = target_symbol;\n"@
    } else {
        "pub fn generated_"@ + decimal(line as nat) + "(value: usize) -> usize { value + "@
            + decimal(line as nat) + " }\n"@
    }
}

/// What stands for a line of the measured file in one of its forms.
pub open spec fn fixture_line(line: u64, changed: bool) -> Seq<char> {
    if changed && is_left_out(line) {
        Seq::empty()
    } else if changed && line % 250 == 50 {
        added_lines(line, 4) + own_line(line, changed)
    } else {
        own_line(line, changed)
    }
}

/// The measured file up to a line.
pub open spec fn fixture_chars(changed: bool, end: nat) -> Seq<char>
    decreases end,
{
    if end <= 1 {
        "pub fn target_symbol(value: usize) -> usize { value + 1 }\n"@
    } else {
        fixture_chars(changed, (end - 1) as nat) + fixture_line((end - 1) as u64, changed)
    }
}

fn push_added_line(source: &mut String, line: u64, added: u64)
    ensures
        final(source)@ == old(source)@ + added_line(line, added),
{
    let ghost before = source@;
    source.append("pub fn added_");
    push_decimal(source, line);
    source.append("_");
    push_decimal(source, added);
    source.append("(value: usize) -> usize { target_symbol(value) + ");
    push_decimal(source, added);
    source.append(" }\n");
    assert(source@ =~= before + added_line(line, added));
}

fn push_own_line(source: &mut String, line: u64, changed: bool)
    requires
        line < u64::MAX,
    ensures
        final(source)@ == old(source)@ + own_line(line, changed),
{
    let ghost before = source@;
    if changed && line % 250 == 100 {
        source.append("pub fn changed_");
        push_decimal(source, line);
        source.append("(value: usize) -> usize { target_symbol(value) + ");
        push_decimal(source, line + 1);
        source.append(" }\n");
    } else if line % 4 == 0 {
        source.append("pub static USE_");
        push_decimal(source, line);
        source.append(": fn(usize) -> usize = target_symbol;\n");
    } else {
        source.append("pub fn generated_");
        push_decimal(source, line);
        source.append("(value: usize) -> usize { value + ");
        push_decimal(source, line);
        source.append(" }\n");
    }
    assert(source@ =~= before + own_line(line, changed));
}

/// Writes the measured file in one of its forms.
pub fn fixture_source(changed: bool) -> (source: String)
    ensures
        source@ == fixture_chars(changed, FIXTURE_LINES as nat),
{
    let mut source = "pub fn target_symbol(value: usize) -> usize { value + 1 }\n".to_owned();
    let mut line: u64 = 1;
    let mut skip: u64 = 0;
    while line < FIXTURE_LINES
        invariant
            1 <= line <= FIXTURE_LINES,
            source@ == fixture_chars(changed, line as nat),
            skip == if changed && line >= 250 && 1 <= line % 250 <= 3 {
                4 - line % 250
            } else {
                0
            },
        decreases FIXTURE_LINES - line,
    {
        let ghost before = source@;
        if changed && line % 250 == 0 {
            skip = 4;
        }
        if skip > 0 {
            skip -= 1;
            assert(before + Seq::<char>::empty() =~= before);
        } else {
            if changed && line % 250 == 50 {
                let mut added: u64 = 0;
                assert(before + added_lines(line, 0) =~= before);
                while added < 4
                    invariant
                        added <= 4,
                        source@ == before + added_lines(line, added as nat),
                    decreases 4 - added,
                {
                    let ghost earlier = added_lines(line, added as nat);
                    push_added_line(&mut source, line, added);
                    assert(source@ =~= before + (earlier + added_line(line, added)));
                    added += 1;
                }
            }
            push_own_line(&mut source, line, changed);
            assert(source@ =~= before + fixture_line(line, changed));
        }
        line += 1;
    }
    source
}

/// A line that changes the measured file, for a refresh to find.
pub fn refresh_marker(index: u64) -> (text: String)
    ensures
        text@ == "\npub const REFRESH_MARKER_"@ + decimal(index as nat) + ": usize = "@ + decimal(
            index as nat,
        ) + ";\n"@,
{
    let mut text = "\npub const REFRESH_MARKER_".to_owned();
    push_decimal(&mut text, index);
    text.append(": usize = ");
    push_decimal(&mut text, index);
    text.append(";\n");
    text
}

/// How many rows a measured window asks for.
pub const MEASURED_ROWS: u32 = 220;

/// The request for a measured window of the whole file.
pub fn presentation_request(
    file_id: &str,
    comparison_id: Option<String>,
    generation: u64,
    expanded_deletions: Vec<String>,
    collapsed_additions: Vec<String>,
) -> (request: PresentationRequest)
    ensures
        request.file_id@ == file_id@,
        request.comparison_id == comparison_id,
        request.mode@ == "full"@,
        request.start_row == 0,
        request.end_row == MEASURED_ROWS,
        request.generation == generation,
        opt_text(request.full_file_side) == Some("both"@),
        request.split_ratio_accepted is None,
        request.ephemeral_expanded_full_file_deletion_blocks == Some(expanded_deletions),
        request.ephemeral_collapsed_full_file_addition_blocks == Some(collapsed_additions),
{
    PresentationRequest {
        file_id: file_id.to_owned(),
        comparison_id,
        mode: "full".to_owned(),
        start_row: 0,
        end_row: MEASURED_ROWS,
        generation,
        full_file_side: Some("both".to_owned()),
        split_ratio_accepted: None,
        ephemeral_expanded_full_file_deletion_blocks: Some(expanded_deletions),
        ephemeral_collapsed_full_file_addition_blocks: Some(collapsed_additions),
    }
}

/// The request for a measured window of the unified form.
pub fn highlight_request(file_id: &str, comparison_id: Option<String>, generation: u64) -> (request:
    PresentationRequest)
    ensures
        request.file_id@ == file_id@,
        request.comparison_id == comparison_id,
        request.mode@ == "unified"@,
        request.start_row == 0,
        request.end_row == MEASURED_ROWS,
        request.generation == generation,
        request.full_file_side is None,
        request.split_ratio_accepted is None,
        request.ephemeral_expanded_full_file_deletion_blocks is None,
        request.ephemeral_collapsed_full_file_addition_blocks is None,
{
    PresentationRequest {
        file_id: file_id.to_owned(),
        comparison_id,
        mode: "unified".to_owned(),
        start_row: 0,
        end_row: MEASURED_ROWS,
        generation,
        full_file_side: None,
        split_ratio_accepted: None,
        ephemeral_expanded_full_file_deletion_blocks: None,
        ephemeral_collapsed_full_file_addition_blocks: None,
    }
}

/// An operation that is measured.
#[derive(Clone, Copy, Debug, PartialEq, Eq, Structural)]
pub enum MeasuredOperation {
    IndividualDisclosure,
    ExpandCollapseAll,
    HighlightCold,
    HighlightCachedViewport,
    Refresh,
    SymbolNavigation,
}

/// The name that an operation is reported under.
pub open spec fn operation_chars(operation: MeasuredOperation) -> Seq<char> {
    match operation {
        MeasuredOperation::IndividualDisclosure => "individual_disclosure"@,
        MeasuredOperation::ExpandCollapseAll => "expand_collapse_all"@,
        MeasuredOperation::HighlightCold => "highlight_cold"@,
        MeasuredOperation::HighlightCachedViewport => "highlight_cached_viewport"@,
        MeasuredOperation::Refresh => "refresh"@,
        MeasuredOperation::SymbolNavigation => "symbol_navigation"@,
    }
}

/// The name that an operation is reported under.
pub fn operation_name(operation: MeasuredOperation) -> (name: &'static str)
    ensures
        name@ == operation_chars(operation),
{
    match operation {
        MeasuredOperation::IndividualDisclosure => "individual_disclosure",
        MeasuredOperation::ExpandCollapseAll => "expand_collapse_all",
        MeasuredOperation::HighlightCold => "highlight_cold",
        MeasuredOperation::HighlightCachedViewport => "highlight_cached_viewport",
        MeasuredOperation::Refresh => "refresh",
        MeasuredOperation::SymbolNavigation => "symbol_navigation",
    }
}

/// An operation, how often it is measured, and how many rows it asks for.
#[derive(Clone, Copy, Debug, PartialEq, Eq, Structural)]
pub struct PlannedOperation {
    pub operation: MeasuredOperation,
    pub samples: usize,
    pub viewport_rows: Option<u32>,
}

/// What is measured, in this order. Only the first highlighting finds nothing
/// in memory, and a refresh is measured less often.
pub open spec fn measured(iterations: usize) -> Seq<PlannedOperation> {
    seq![
        PlannedOperation {
            operation: MeasuredOperation::IndividualDisclosure,
            samples: iterations,
            viewport_rows: Some(MEASURED_ROWS),
        },
        PlannedOperation {
            operation: MeasuredOperation::ExpandCollapseAll,
            samples: iterations,
            viewport_rows: Some(MEASURED_ROWS),
        },
        PlannedOperation {
            operation: MeasuredOperation::HighlightCold,
            samples: 1,
            viewport_rows: Some(MEASURED_ROWS),
        },
        PlannedOperation {
            operation: MeasuredOperation::HighlightCachedViewport,
            samples: iterations,
            viewport_rows: Some(MEASURED_ROWS),
        },
        PlannedOperation {
            operation: MeasuredOperation::Refresh,
            samples: if iterations / 4 > 3 {
                iterations / 4
            } else {
                3
            },
            viewport_rows: None,
        },
        PlannedOperation {
            operation: MeasuredOperation::SymbolNavigation,
            samples: iterations,
            viewport_rows: None,
        },
    ]
}

fn planned(operation: MeasuredOperation, samples: usize, viewport_rows: Option<u32>) -> (plan:
    PlannedOperation)
    ensures
        plan == (PlannedOperation { operation, samples, viewport_rows }),
{
    PlannedOperation { operation, samples, viewport_rows }
}

/// Lists what is measured.
pub fn measured_operations(iterations: usize) -> (plan: Vec<PlannedOperation>)
    ensures
        plan@ == measured(iterations),
{
    let rows: Option<u32> = Some(MEASURED_ROWS);
    let mut plan: Vec<PlannedOperation> = Vec::new();
    plan.push(planned(MeasuredOperation::IndividualDisclosure, iterations, rows));
    plan.push(planned(MeasuredOperation::ExpandCollapseAll, iterations, rows));
    plan.push(planned(MeasuredOperation::HighlightCold, 1, rows));
    plan.push(planned(MeasuredOperation::HighlightCachedViewport, iterations, rows));
    plan.push(planned(MeasuredOperation::Refresh, refresh_iterations(iterations), None));
    plan.push(planned(MeasuredOperation::SymbolNavigation, iterations, None));
    assert(plan@ =~= measured(iterations));
    plan
}

/// Every operation is measured at least once, under a name of its own.
pub proof fn law_operations_are_measured_under_their_names(iterations: usize)
    requires
        iterations > 0,
    ensures
        forall|i: int|
            0 <= i < measured(iterations).len() ==> (#[trigger] measured(iterations)[i]).samples
                > 0,
        forall|i: int, j: int|
            0 <= i < j < measured(iterations).len() ==> operation_chars(
                (#[trigger] measured(iterations)[i]).operation,
            ) != operation_chars((#[trigger] measured(iterations)[j]).operation),
{
    reveal_strlit("individual_disclosure");
    reveal_strlit("expand_collapse_all");
    reveal_strlit("highlight_cold");
    reveal_strlit("highlight_cached_viewport");
    reveal_strlit("refresh");
    reveal_strlit("symbol_navigation");
    assert("individual_disclosure"@[0] == 'i');
    assert("expand_collapse_all"@[0] == 'e');
    assert("highlight_cold"@.len() != "highlight_cached_viewport"@.len());
    assert("highlight_cold"@[0] == 'h');
    assert("highlight_cached_viewport"@[0] == 'h');
    assert("refresh"@[0] == 'r');
    assert("symbol_navigation"@[0] == 's');
}

/// The blocks that the sample with a number unfolds and folds: deletions are
/// unfolded and additions folded in turn, the first one alone or all of them.
pub open spec fn disclosed(
    all: bool,
    index: usize,
    deletions: Seq<Seq<char>>,
    additions: Seq<Seq<char>>,
) -> (Seq<Seq<char>>, Seq<Seq<char>>) {
    if index % 2 == 0 {
        (first_or_all(all, deletions), Seq::empty())
    } else {
        (Seq::empty(), first_or_all(all, additions))
    }
}

/// The first block alone, or all of them.
pub open spec fn first_or_all(all: bool, ids: Seq<Seq<char>>) -> Seq<Seq<char>> {
    if all || ids.len() == 0 {
        ids
    } else {
        ids.take(1)
    }
}

fn take_first_or_all(all: bool, ids: &Vec<String>) -> (taken: Vec<String>)
    ensures
        texts(taken@) == first_or_all(all, texts(ids@)),
{
    let mut taken: Vec<String> = Vec::new();
    if all || ids.len() == 0 {
        return copy_texts(ids);
    }
    taken.push(ids[0].clone());
    assert(texts(taken@) =~= texts(ids@).take(1));
    taken
}

/// Picks the blocks that the sample with a number unfolds and folds.
pub fn disclosed_blocks(
    all: bool,
    index: usize,
    deletions: &Vec<String>,
    additions: &Vec<String>,
) -> (blocks: (Vec<String>, Vec<String>))
    ensures
        (texts(blocks.0@), texts(blocks.1@)) == disclosed(
            all,
            index,
            texts(deletions@),
            texts(additions@),
        ),
{
    let none: Vec<String> = Vec::new();
    assert(texts(none@) =~= Seq::<Seq<char>>::empty());
    if index % 2 == 0 {
        (take_first_or_all(all, deletions), none)
    } else {
        (none, take_first_or_all(all, additions))
    }
}

/// A question for the places of a symbol.
#[derive(Debug)]
pub struct SymbolNavigationQuery {
    pub workspace_id: String,
    pub repository_id: String,
    pub comparison_id: Option<String>,
    pub symbol: String,
    pub kind: String,
    pub limit: Option<u32>,
}

/// The question for the symbol that the measured file defines.
pub fn symbol_query(workspace_id: WorkspaceId, repository_id: RepositoryId) -> (query:
    SymbolNavigationQuery)
    ensures
        query.workspace_id@ == id_chars(workspace_id.0),
        query.repository_id@ == id_chars(repository_id.0),
        query.comparison_id is None,
        query.symbol@ == "target_symbol"@,
        query.kind@ == "all"@,
        query.limit == Some(100u32),
{
    SymbolNavigationQuery {
        workspace_id: id_text(workspace_id.0),
        repository_id: id_text(repository_id.0),
        comparison_id: None,
        symbol: "target_symbol".to_owned(),
        kind: "all".to_owned(),
        limit: Some(100),
    }
}

/// The ids of the blocks of one side.
pub open spec fn block_ids(blocks: Seq<FullFileOmittedBlockView>, side: Seq<char>) -> Seq<Seq<char>>
    decreases blocks.len(),
{
    if blocks.len() == 0 {
        Seq::empty()
    } else {
        let before = block_ids(blocks.drop_last(), side);
        if blocks.last().side@ == side {
            before.push(blocks.last().id@)
        } else {
            before
        }
    }
}

/// Lists the ids of the blocks of one side.
pub fn block_ids_of_side(blocks: &Vec<FullFileOmittedBlockView>, side: &str) -> (ids: Vec<String>)
    ensures
        texts(ids@) == block_ids(blocks@, side@),
{
    let mut ids: Vec<String> = Vec::new();
    let mut i: usize = 0;
    assert(blocks@.take(0) =~= Seq::<FullFileOmittedBlockView>::empty());
    assert(texts(ids@) =~= block_ids(blocks@.take(0), side@));
    while i < blocks.len()
        invariant
            i <= blocks.len(),
            texts(ids@) == block_ids(blocks@.take(i as int), side@),
        decreases blocks.len() - i,
    {
        assert(blocks@.take(i + 1).drop_last() =~= blocks@.take(i as int));
        if text_eq(blocks[i].side.as_str(), side) {
            let ghost before = texts(ids@);
            ids.push(blocks[i].id.clone());
            assert(texts(ids@) =~= before.push(blocks@[i as int].id@));
        }
        i += 1;
    }
    assert(blocks@.take(blocks.len() as int) =~= blocks@);
    ids
}

} // verus!
