//! The metric renderer: classifies each metric, emits its metadata and its
//! samples in the protocol's order, and terminates the document.

use crate::attrs::{spec_attrs_body, spec_hash_attrs, Attr, AttrV};
use crate::model::{
    GaugeData, HistogramData, HistogramDataPoint, HistogramDataPointV, Metric, MetricData,
    MetricDataV, MetricValue, MetricValueV, MetricsSnapshot, MetricsSnapshotV, MetricV,
    NumberDataPoint, NumberDataPointV, ScopeMetrics, ScopeMetricsV, SumData, Temporality,
};
use crate::model::{spec_count_sum, spec_hist_point_wf, spec_metric_wf, spec_value_text, Dup};
use crate::sort::sort_views;
use crate::text::{concat_map, seq_views};
use vstd::prelude::*;
use vstd::string::StrSliceExecFns;
use vstd::string::StringExecFns;

verus! {

/// Which optional behaviors the renderer applies.
#[derive(Clone, Copy, Debug)]
pub struct RenderConfig {
    /// Emit resource `target_info`, `otel_scope_info` lines, and the
    /// synthetic `otel_scope_name` attribute on every sample.
    pub scope_info: bool,
    /// Emit `_min`/`_max` lines for histogram points that carry extrema.
    pub histogram_min_max: bool,
}

impl RenderConfig {
    /// Both optional behaviors switched off.
    pub fn plain() -> (r: RenderConfig)
        ensures
            !r.scope_info,
            !r.histogram_min_max,
    {
        RenderConfig { scope_info: false, histogram_min_max: false }
    }
}

/// The protocol type of a metric payload, or nothing for an unsupported
/// shape (a non-cumulative histogram).
pub open spec fn spec_metric_type(d: MetricDataV) -> Option<Seq<char>> {
    match d {
        MetricDataV::Gauge(_) => Some("gauge"@),
        MetricDataV::Sum(s) => if s.monotonic {
            Some("counter"@)
        } else {
            Some("gauge"@)
        },
        MetricDataV::Histogram(h) => if h.temporality is Cumulative {
            Some("histogram"@)
        } else {
            None
        },
    }
}

/// The output name of a metric: its sanitized name, then the mapped unit
/// suffix joined by an underscore when a mapping exists.
pub open spec fn spec_metric_name(m: MetricV) -> Seq<char> {
    crate::sanitize::spec_sanitize(m.name) + match crate::unit::spec_unit_suffix(m.unit) {
        Some(u) => seq!['_'] + u,
        None => Seq::<char>::empty(),
    }
}

/// The synthetic scope attribute merged into every sample's label set when
/// scope information is enabled.
pub open spec fn spec_scope_extra(scope_name: Seq<char>, scope_info: bool) -> Seq<AttrV> {
    if scope_info {
        seq![AttrV { key: "otel_scope_name"@, value: scope_name }]
    } else {
        Seq::<AttrV>::empty()
    }
}

pub open spec fn spec_opt_attr_views(e: &Option<Attr>) -> Seq<AttrV> {
    match e {
        Some(a) => seq![a@],
        None => Seq::<AttrV>::empty(),
    }
}

/// One gauge or sum sample line.
pub open spec fn spec_number_line(
    name: Seq<char>,
    suffix: Seq<char>,
    p: NumberDataPointV,
    extra: Seq<AttrV>,
) -> Seq<char> {
    name + suffix + "{"@ + spec_attrs_body(p.attributes + extra) + "} "@ + spec_value_text(p.value)
        + " "@ + p.time + "\n"@
}


/// The line of one gauge point, as a function of the point.
pub open spec fn gauge_line_fn(name: Seq<char>, extra: Seq<AttrV>) -> spec_fn(
    NumberDataPointV,
) -> Seq<char> {
    |p: NumberDataPointV| spec_number_line(name, Seq::<char>::empty(), p, extra)
}

/// The line of one sum point, as a function of the point.
pub open spec fn sum_line_fn(name: Seq<char>, monotonic: bool, extra: Seq<AttrV>) -> spec_fn(
    NumberDataPointV,
) -> Seq<char> {
    |p: NumberDataPointV|
        spec_number_line(
            name,
            if monotonic {
                "_total"@
            } else {
                Seq::<char>::empty()
            },
            p,
            extra,
        )
}

/// All gauge sample lines, points ordered by attribute fingerprint.
pub open spec fn spec_gauge_body(
    name: Seq<char>,
    points: Seq<NumberDataPointV>,
    extra: Seq<AttrV>,
) -> Seq<char> {
    concat_map(sort_views::<NumberDataPoint>(points), gauge_line_fn(name, extra))
}

/// All sum sample lines: a monotonic sum renders with a `_total` suffix.
pub open spec fn spec_sum_body(
    name: Seq<char>,
    monotonic: bool,
    points: Seq<NumberDataPointV>,
    extra: Seq<AttrV>,
) -> Seq<char> {
    concat_map(sort_views::<NumberDataPoint>(points), sum_line_fn(name, monotonic, extra))
}

/// The `_created` line of one histogram point.
pub open spec fn spec_created_line(
    name: Seq<char>,
    p: HistogramDataPointV,
    extra: Seq<AttrV>,
) -> Seq<char> {
    name + "_created{"@ + spec_attrs_body(p.attributes + extra) + "} "@ + p.start_time + " "@
        + p.time + "\n"@
}

/// The attribute text that precedes the `le` label of a bucket line: the
/// label-list body, with a comma when it is not empty.
pub open spec fn spec_bucket_attrs(ab: Seq<char>) -> Seq<char> {
    if ab.len() > 0 {
        ab + ","@
    } else {
        ab
    }
}

pub open spec fn spec_bucket_line(
    name: Seq<char>,
    battrs: Seq<char>,
    bound: Seq<char>,
    cum: int,
    time: Seq<char>,
) -> Seq<char> {
    name + "_bucket{"@ + battrs + "le=\""@ + bound + "\"} "@ + crate::format::spec_dec_nat(cum)
        + " "@ + time + "\n"@
}

/// The first `upto` bucket lines of a point, each carrying the running
/// cumulative count of the buckets so far.
pub open spec fn spec_buckets(
    name: Seq<char>,
    battrs: Seq<char>,
    bounds: Seq<Seq<char>>,
    counts: Seq<u64>,
    time: Seq<char>,
    upto: int,
) -> Seq<char>
    decreases upto,
{
    if upto <= 0 {
        Seq::<char>::empty()
    } else {
        spec_buckets(name, battrs, bounds, counts, time, upto - 1) + spec_bucket_line(
            name,
            battrs,
            bounds[upto - 1],
            spec_count_sum(counts, upto),
            time,
        )
    }
}

pub open spec fn spec_min(a: int, b: int) -> int {
    if a <= b {
        a
    } else {
        b
    }
}

pub open spec fn spec_hist_count_line(name: Seq<char>, ab: Seq<char>, p: HistogramDataPointV) -> Seq<char> {
    name + "_count{"@ + ab + "} "@ + crate::format::spec_dec_nat(p.count as int) + " "@ + p.time
        + "\n"@
}

pub open spec fn spec_hist_sum_line(name: Seq<char>, ab: Seq<char>, p: HistogramDataPointV) -> Seq<char> {
    name + "_sum{"@ + ab + "} "@ + spec_value_text(p.sum) + " "@ + p.time + "\n"@
}

pub open spec fn spec_hist_min_seg(
    name: Seq<char>,
    ab: Seq<char>,
    p: HistogramDataPointV,
    min_max: bool,
) -> Seq<char> {
    match p.min {
        Some(v) => if min_max {
            name + "_min{"@ + ab + "} "@ + spec_value_text(v) + " "@ + p.time + "\n"@
        } else {
            Seq::<char>::empty()
        },
        None => Seq::<char>::empty(),
    }
}

pub open spec fn spec_hist_max_seg(
    name: Seq<char>,
    ab: Seq<char>,
    p: HistogramDataPointV,
    min_max: bool,
) -> Seq<char> {
    match p.max {
        Some(v) => if min_max {
            name + "_max{"@ + ab + "} "@ + spec_value_text(v) + " "@ + p.time + "\n"@
        } else {
            Seq::<char>::empty()
        },
        None => Seq::<char>::empty(),
    }
}

pub open spec fn spec_hist_inf_line(
    name: Seq<char>,
    battrs: Seq<char>,
    p: HistogramDataPointV,
) -> Seq<char> {
    name + "_bucket{"@ + battrs + "le=\"+Inf\"} "@ + crate::format::spec_dec_nat(p.count as int)
        + " "@ + p.time + "\n"@
}

/// The sample block of one histogram point: count, sum, optional extrema,
/// the bucket lines, and the final `+Inf` bucket holding the total count.
pub open spec fn spec_hist_point_block(
    name: Seq<char>,
    p: HistogramDataPointV,
    extra: Seq<AttrV>,
    min_max: bool,
) -> Seq<char> {
    let ab = spec_attrs_body(p.attributes + extra);
    let battrs = spec_bucket_attrs(ab);
    spec_hist_count_line(name, ab, p) + spec_hist_sum_line(name, ab, p) + spec_hist_min_seg(
        name,
        ab,
        p,
        min_max,
    ) + spec_hist_max_seg(name, ab, p, min_max) + spec_buckets(
        name,
        battrs,
        p.bounds,
        p.bucket_counts,
        p.time,
        spec_min(p.bounds.len() as int, p.bucket_counts.len() as int),
    ) + spec_hist_inf_line(name, battrs, p)
}

/// The `_created` line of one histogram point, as a function of the point.
pub open spec fn created_line_fn(name: Seq<char>, extra: Seq<AttrV>) -> spec_fn(
    HistogramDataPointV,
) -> Seq<char> {
    |p: HistogramDataPointV| spec_created_line(name, p, extra)
}

/// The sample block of one histogram point, as a function of the point.
pub open spec fn hist_block_fn(name: Seq<char>, extra: Seq<AttrV>, min_max: bool) -> spec_fn(
    HistogramDataPointV,
) -> Seq<char> {
    |p: HistogramDataPointV| spec_hist_point_block(name, p, extra, min_max)
}

/// All histogram lines: every point's `_created` line first, then every
/// point's sample block, points ordered by attribute fingerprint.
pub open spec fn spec_hist_body(
    name: Seq<char>,
    points: Seq<HistogramDataPointV>,
    extra: Seq<AttrV>,
    min_max: bool,
) -> Seq<char> {
    let sorted = sort_views::<HistogramDataPoint>(points);
    concat_map(sorted, created_line_fn(name, extra)) + concat_map(
        sorted,
        hist_block_fn(name, extra, min_max),
    )
}

/// The sample lines of one metric's payload.
pub open spec fn spec_metric_body(
    name: Seq<char>,
    d: MetricDataV,
    extra: Seq<AttrV>,
    min_max: bool,
) -> Seq<char> {
    match d {
        MetricDataV::Gauge(g) => spec_gauge_body(name, g.data_points, extra),
        MetricDataV::Sum(s) => spec_sum_body(name, s.monotonic, s.data_points, extra),
        MetricDataV::Histogram(h) => spec_hist_body(name, h.data_points, extra, min_max),
    }
}

/// The metadata lines of one metric.
pub open spec fn spec_metric_header(m: MetricV, typ: Seq<char>) -> Seq<char> {
    let name = spec_metric_name(m);
    "# TYPE "@ + name + " "@ + typ + "\n"@ + (match crate::unit::spec_unit_suffix(m.unit) {
        Some(u) => "# UNIT "@ + name + " "@ + u + "\n"@,
        None => Seq::<char>::empty(),
    }) + (if m.description.len() > 0 {
        "# HELP "@ + name + " "@ + crate::escape::spec_escape(m.description) + "\n"@
    } else {
        Seq::<char>::empty()
    })
}

/// One metric's full text: metadata then samples; an unsupported shape
/// renders nothing.
pub open spec fn spec_render_metric(m: MetricV, extra: Seq<AttrV>, min_max: bool) -> Seq<char> {
    match spec_metric_type(m.data) {
        None => Seq::<char>::empty(),
        Some(t) => spec_metric_header(m, t) + spec_metric_body(
            spec_metric_name(m),
            m.data,
            extra,
            min_max,
        ),
    }
}

/// One metric's text, as a function of the metric.
pub open spec fn render_metric_fn(extra: Seq<AttrV>, min_max: bool) -> spec_fn(MetricV) -> Seq<
    char,
> {
    |m: MetricV| spec_render_metric(m, extra, min_max)
}

/// One scope's metrics, in lexicographic name order.
pub open spec fn spec_render_scope(sc: ScopeMetricsV, cfg: RenderConfig) -> Seq<char> {
    concat_map(
        sort_views::<Metric>(sc.metrics),
        render_metric_fn(spec_scope_extra(sc.name, cfg.scope_info), cfg.histogram_min_max),
    )
}

/// The resource `target_info` lines.
pub open spec fn spec_target_info(resource: Seq<AttrV>) -> Seq<char> {
    "# TYPE target info\n"@ + "target_info{"@ + spec_attrs_body(resource) + "} 1\n"@
}

/// One scope's `otel_scope_info` line: the synthetic name and version
/// attributes merged with the scope's own.
pub open spec fn spec_scope_info_line(sc: ScopeMetricsV) -> Seq<char> {
    let synthetic = seq![
        AttrV { key: "otel_scope_name"@, value: sc.name },
        AttrV {
            key: "otel_scope_version"@,
            value: match sc.version {
                Some(v) => v,
                None => Seq::<char>::empty(),
            },
        },
    ];
    "otel_scope_info{"@ + spec_attrs_body(synthetic + sc.attributes) + "} 1\n"@
}

pub open spec fn spec_sorted_scopes(v: MetricsSnapshotV) -> Seq<ScopeMetricsV> {
    sort_views::<ScopeMetrics>(v.scopes)
}

/// One scope's information line, as a function of the scope.
pub open spec fn scope_info_line_fn() -> spec_fn(ScopeMetricsV) -> Seq<char> {
    |sc: ScopeMetricsV| spec_scope_info_line(sc)
}

/// One scope's text, as a function of the scope.
pub open spec fn render_scope_fn(cfg: RenderConfig) -> spec_fn(ScopeMetricsV) -> Seq<char> {
    |sc: ScopeMetricsV| spec_render_scope(sc, cfg)
}

/// The full document: optional resource and scope information, every
/// scope's metrics in lexicographic scope order, and the terminal line.
pub open spec fn spec_render(v: MetricsSnapshotV, cfg: RenderConfig) -> Seq<char> {
    (if cfg.scope_info {
        spec_target_info(v.resource) + "# TYPE otel_scope info\n"@ + concat_map(
            spec_sorted_scopes(v),
            scope_info_line_fn(),
        )
    } else {
        Seq::<char>::empty()
    }) + concat_map(spec_sorted_scopes(v), render_scope_fn(cfg)) + "# EOF\n"@
}

/// The protocol type of this payload, or an error for an unsupported
/// shape.
pub fn get_type(data: &MetricData) -> (r: Result<&'static str, ()>)
    ensures
        match r {
            Ok(t) => spec_metric_type(data@) == Some(t@),
            Err(_) => spec_metric_type(data@) is None,
        },
{
    match data {
        MetricData::Gauge(_) => Ok("gauge"),
        MetricData::Sum(s) => if s.monotonic {
            Ok("counter")
        } else {
            Ok("gauge")
        },
        MetricData::Histogram(h) => match h.temporality {
            Temporality::Cumulative => Ok("histogram"),
            Temporality::Delta => Err(()),
        },
    }
}

/// The synthetic `otel_scope_name` attribute, when scope information is
/// enabled.
pub fn make_scope_name_attrs(scope_name: &str, scope_info: bool) -> (r: Option<Attr>)
    ensures
        spec_opt_attr_views(&r) == spec_scope_extra(scope_name@, scope_info),
{
    if scope_info {
        let r = Some(Attr::new("otel_scope_name", scope_name));
        proof {
            assert(spec_opt_attr_views(&r) =~= spec_scope_extra(scope_name@, scope_info));
        }
        r
    } else {
        None
    }
}

/// The point's attributes together with the synthetic scope attribute.
fn merged_attrs(attrs: &Vec<Attr>, extra: &Option<Attr>) -> (r: Vec<Attr>)
    ensures
        seq_views(r@) == seq_views(attrs@) + spec_opt_attr_views(extra),
{
    let mut r = crate::model::dup_vec(attrs);
    match extra {
        Some(a) => {
            let ghost pre = r@;
            let d = a.duplicate();
            r.push(d);
            proof {
                assert(seq_views(pre).len() == pre.len());
                assert(r@ == pre.push(d));
                assert forall|j: int|
                    0 <= j < r@.len() implies seq_views(r@)[j] == (seq_views(attrs@)
                    + spec_opt_attr_views(extra))[j] by {
                    if j < pre.len() {
                        assert(r@[j] == pre[j]);
                        assert(seq_views(pre)[j] == pre[j]@);
                    } else {
                        assert(r@[j] == d);
                    }
                }
                assert(seq_views(r@) =~= seq_views(attrs@) + spec_opt_attr_views(extra));
            }
        },
        None => {
            proof {
                assert(seq_views(r@) =~= seq_views(attrs@) + spec_opt_attr_views(extra));
            }
        },
    }
    r
}

/// Writes one gauge or sum sample line.
fn write_number_line(
    f: &mut String,
    name: &str,
    suffix: &str,
    p: &NumberDataPoint,
    extra: &Option<Attr>,
)
    ensures
        final(f)@ == old(f)@ + spec_number_line(name@, suffix@, p@, spec_opt_attr_views(extra)),
{
    crate::text::append_str(f, name);
    crate::text::append_str(f, suffix);
    f.append("{");
    let merged = merged_attrs(&p.attributes, extra);
    crate::attrs::write_attrs(f, &merged);
    f.append("} ");
    crate::model::write_value(f, &p.value);
    f.append(" ");
    f.append(p.time.as_str());
    f.append("\n");
    proof {
        assert(final(f)@ =~= old(f)@ + spec_number_line(
            name@,
            suffix@,
            p@,
            spec_opt_attr_views(extra),
        ));
    }
}

/// Writes all sample lines of a gauge, points ordered by fingerprint.
pub fn write_gauge(f: &mut String, name: &str, gauge: &GaugeData, extra: &Option<Attr>)
    ensures
        final(f)@ == old(f)@ + spec_gauge_body(
            name@,
            seq_views(gauge.data_points@),
            spec_opt_attr_views(extra),
        ),
{
    let mut points = crate::model::dup_vec(&gauge.data_points);
    crate::sort::stable_sort(&mut points);
    let ghost sorted = sort_views::<NumberDataPoint>(seq_views(gauge.data_points@));
    let ghost line_of = gauge_line_fn(name@, spec_opt_attr_views(extra));
    let n = points.len();
    let mut i: usize = 0;
    proof {
        assert(sorted.subrange(0, 0) =~= Seq::<NumberDataPointV>::empty());
        assert(old(f)@ + concat_map(sorted.subrange(0, 0), line_of) =~= old(f)@);
    }
    while i < n
        invariant
            n == points@.len(),
            seq_views(points@) == sorted,
            i <= n,
            line_of == gauge_line_fn(name@, spec_opt_attr_views(extra)),
            f@ == old(f)@ + concat_map(sorted.subrange(0, i as int), line_of),
        decreases n - i,
    {
        let p = &points[i];
        write_number_line(f, name, "", p, extra);
        proof {
            reveal_strlit("");
            assert(""@ =~= Seq::<char>::empty());
            let t = sorted.subrange(0, i + 1 as int);
            assert(t.last() == points@[i as int]@);
            assert(t.drop_last() =~= sorted.subrange(0, i as int));
            crate::text::lemma_concat_map_snoc(t, line_of);
            assert(line_of(points@[i as int]@) == spec_number_line(
                name@,
                Seq::<char>::empty(),
                points@[i as int]@,
                spec_opt_attr_views(extra),
            ));
            assert(concat_map(t, line_of) == concat_map(sorted.subrange(0, i as int), line_of)
                + line_of(points@[i as int]@));
            assert(f@ =~= old(f)@ + concat_map(t, line_of));
        }
        i = i + 1;
    }
    proof {
        assert(sorted.subrange(0, n as int) =~= sorted);
        assert(seq_views(points@).len() == points@.len());
    }
}

/// Writes all sample lines of a sum. Only cumulative sums reach the
/// writer; a monotonic sum renders as a counter with a `_total` suffix.
pub fn write_counter(f: &mut String, name: &str, sum: &SumData, extra: &Option<Attr>)
    requires
        sum.temporality is Cumulative,
    ensures
        final(f)@ == old(f)@ + spec_sum_body(
            name@,
            sum.monotonic,
            seq_views(sum.data_points@),
            spec_opt_attr_views(extra),
        ),
{
    let mut points = crate::model::dup_vec(&sum.data_points);
    crate::sort::stable_sort(&mut points);
    let ghost sorted = sort_views::<NumberDataPoint>(seq_views(sum.data_points@));
    let ghost monotonic = sum.monotonic;
    let ghost line_of = sum_line_fn(name@, monotonic, spec_opt_attr_views(extra));
    let n = points.len();
    let mut i: usize = 0;
    proof {
        assert(sorted.subrange(0, 0) =~= Seq::<NumberDataPointV>::empty());
        assert(old(f)@ + concat_map(sorted.subrange(0, 0), line_of) =~= old(f)@);
    }
    while i < n
        invariant
            n == points@.len(),
            monotonic == sum.monotonic,
            seq_views(points@) == sorted,
            i <= n,
            line_of == sum_line_fn(name@, monotonic, spec_opt_attr_views(extra)),
            f@ == old(f)@ + concat_map(sorted.subrange(0, i as int), line_of),
        decreases n - i,
    {
        let p = &points[i];
        if sum.monotonic {
            write_number_line(f, name, "_total", p, extra);
        } else {
            write_number_line(f, name, "", p, extra);
            proof {
                reveal_strlit("");
                assert(""@ =~= Seq::<char>::empty());
            }
        }
        proof {
            let t = sorted.subrange(0, i + 1 as int);
            assert(t.last() == points@[i as int]@);
            assert(t.drop_last() =~= sorted.subrange(0, i as int));
            crate::text::lemma_concat_map_snoc(t, line_of);
            assert(line_of(points@[i as int]@) == spec_number_line(
                name@,
                if monotonic {
                    "_total"@
                } else {
                    Seq::<char>::empty()
                },
                points@[i as int]@,
                spec_opt_attr_views(extra),
            ));
            assert(concat_map(t, line_of) == concat_map(sorted.subrange(0, i as int), line_of)
                + line_of(points@[i as int]@));
            assert(f@ =~= old(f)@ + concat_map(t, line_of));
        }
        i = i + 1;
    }
    proof {
        assert(sorted.subrange(0, n as int) =~= sorted);
        assert(seq_views(points@).len() == points@.len());
    }
}


/// Writes the `_count`, `_sum` and optional extrema lines of one point.
#[verifier::spinoff_prover]
fn write_hist_meta_lines(f: &mut String, name: &str, ab: &str, p: &HistogramDataPoint, min_max: bool)
    ensures
        final(f)@ == old(f)@ + spec_hist_count_line(name@, ab@, p@) + spec_hist_sum_line(
            name@,
            ab@,
            p@,
        ) + spec_hist_min_seg(name@, ab@, p@, min_max) + spec_hist_max_seg(name@, ab@, p@, min_max),
{
    let ghost pv = p@;
    // count line
    crate::text::append_str(f, name);
    f.append("_count{");
    crate::text::append_str(f, ab);
    f.append("} ");
    let t = crate::format::fmt_u64(p.count);
    f.append(t.as_str());
    f.append(" ");
    f.append(p.time.as_str());
    f.append("\n");
    proof {
        assert(f@ =~= old(f)@ + spec_hist_count_line(name@, ab@, pv));
    }
    let ghost after_count = f@;
    // sum line
    crate::text::append_str(f, name);
    f.append("_sum{");
    crate::text::append_str(f, ab);
    f.append("} ");
    crate::model::write_value(f, &p.sum);
    f.append(" ");
    f.append(p.time.as_str());
    f.append("\n");
    proof {
        assert(f@ =~= after_count + spec_hist_sum_line(name@, ab@, pv));
    }
    let ghost after_sum = f@;
    // optional extrema
    if min_max {
        match &p.min {
            Some(v) => {
                crate::text::append_str(f, name);
                f.append("_min{");
                crate::text::append_str(f, ab);
                f.append("} ");
                crate::model::write_value(f, v);
                f.append(" ");
                f.append(p.time.as_str());
                f.append("\n");
                proof {
                    assert(f@ =~= after_sum + spec_hist_min_seg(name@, ab@, pv, min_max));
                }
            },
            None => {
                proof {
                    assert(f@ =~= after_sum + spec_hist_min_seg(name@, ab@, pv, min_max));
                }
            },
        }
    } else {
        proof {
            assert(f@ =~= after_sum + spec_hist_min_seg(name@, ab@, pv, min_max));
        }
    }
    let ghost after_min = f@;
    if min_max {
        match &p.max {
            Some(v) => {
                crate::text::append_str(f, name);
                f.append("_max{");
                crate::text::append_str(f, ab);
                f.append("} ");
                crate::model::write_value(f, v);
                f.append(" ");
                f.append(p.time.as_str());
                f.append("\n");
                proof {
                    assert(f@ =~= after_min + spec_hist_max_seg(name@, ab@, pv, min_max));
                }
            },
            None => {
                proof {
                    assert(f@ =~= after_min + spec_hist_max_seg(name@, ab@, pv, min_max));
                }
            },
        }
    } else {
        proof {
            assert(f@ =~= after_min + spec_hist_max_seg(name@, ab@, pv, min_max));
        }
    }
}

/// Writes the cumulative bucket lines and the final `+Inf` bucket of one
/// point.
#[verifier::spinoff_prover]
fn write_hist_buckets(f: &mut String, name: &str, battrs: &str, p: &HistogramDataPoint)
    requires
        spec_hist_point_wf(p@),
    ensures
        final(f)@ == old(f)@ + spec_buckets(
            name@,
            battrs@,
            p@.bounds,
            p@.bucket_counts,
            p@.time,
            spec_min(p@.bounds.len() as int, p@.bucket_counts.len() as int),
        ) + spec_hist_inf_line(name@, battrs@, p@),
{
    let ghost pv = p@;
    let nb = p.bounds.len();
    let nc = p.bucket_counts.len();
    let m = if nb <= nc {
        nb
    } else {
        nc
    };
    let mut cum: u64 = 0;
    let mut k: usize = 0;
    while k < m
        invariant
            m == spec_min(p.bounds@.len() as int, p.bucket_counts@.len() as int),
            m <= p.bounds@.len(),
            m <= p.bucket_counts@.len(),
            k <= m,
            pv == p@,
            spec_hist_point_wf(pv),
            cum == spec_count_sum(pv.bucket_counts, k as int),
            f@ == old(f)@ + spec_buckets(
                name@,
                battrs@,
                pv.bounds,
                pv.bucket_counts,
                pv.time,
                k as int,
            ),
        decreases m - k,
    {
        let c = p.bucket_counts[k];
        proof {
            crate::model::lemma_count_sum_mono(
                pv.bucket_counts,
                k + 1 as int,
                pv.bucket_counts.len() as int,
            );
            assert(spec_count_sum(pv.bucket_counts, k + 1 as int) == cum + c);
        }
        cum = cum + c;
        crate::text::append_str(f, name);
        f.append("_bucket{");
        crate::text::append_str(f, battrs);
        f.append("le=\"");
        f.append(p.bounds[k].as_str());
        f.append("\"} ");
        let t = crate::format::fmt_u64(cum);
        f.append(t.as_str());
        f.append(" ");
        f.append(p.time.as_str());
        f.append("\n");
        proof {
            assert(seq_views(p.bounds@)[k as int] == p.bounds@[k as int]@);
            assert(f@ =~= old(f)@ + spec_buckets(
                name@,
                battrs@,
                pv.bounds,
                pv.bucket_counts,
                pv.time,
                k + 1 as int,
            ));
        }
        k = k + 1;
    }
    let ghost after_buckets = f@;
    // the final bucket holds the point's total count
    crate::text::append_str(f, name);
    f.append("_bucket{");
    crate::text::append_str(f, battrs);
    f.append("le=\"+Inf\"} ");
    let t2 = crate::format::fmt_u64(p.count);
    f.append(t2.as_str());
    f.append(" ");
    f.append(p.time.as_str());
    f.append("\n");
    proof {
        assert(f@ =~= after_buckets + spec_hist_inf_line(name@, battrs@, pv));
    }
}

/// Writes the sample block of one histogram point.
#[verifier::spinoff_prover]
#[verifier::rlimit(100)]
fn write_hist_point_block(
    f: &mut String,
    name: &str,
    p: &HistogramDataPoint,
    extra: &Option<Attr>,
    min_max: bool,
)
    requires
        spec_hist_point_wf(p@),
    ensures
        final(f)@ == old(f)@ + spec_hist_point_block(
            name@,
            p@,
            spec_opt_attr_views(extra),
            min_max,
        ),
{
    let ghost pv = p@;
    let merged = merged_attrs(&p.attributes, extra);
    let mut ab = String::new();
    crate::attrs::write_attrs(&mut ab, &merged);
    let ghost ab_spec = spec_attrs_body(pv.attributes + spec_opt_attr_views(extra));
    proof {
        assert(ab@ == ab_spec);
    }
    write_hist_meta_lines(f, name, ab.as_str(), p, min_max);
    let mut battrs = ab;
    if !battrs.as_str().is_empty() {
        crate::text::string_push(&mut battrs, ',');
    }
    proof {
        reveal_strlit(",");
        assert(","@ =~= seq![',']);
        assert(battrs@ =~= spec_bucket_attrs(ab_spec));
    }
    write_hist_buckets(f, name, battrs.as_str(), p);
    proof {
        let c1 = spec_hist_count_line(name@, ab_spec, pv);
        let c2 = spec_hist_sum_line(name@, ab_spec, pv);
        let c3 = spec_hist_min_seg(name@, ab_spec, pv, min_max);
        let c4 = spec_hist_max_seg(name@, ab_spec, pv, min_max);
        let c5 = spec_buckets(
            name@,
            spec_bucket_attrs(ab_spec),
            pv.bounds,
            pv.bucket_counts,
            pv.time,
            spec_min(pv.bounds.len() as int, pv.bucket_counts.len() as int),
        );
        let c6 = spec_hist_inf_line(name@, spec_bucket_attrs(ab_spec), pv);
        let o = old(f)@;
        // f@ == (((((o + c1) + c2) + c3) + c4) + c5) + c6; shift the
        // grouping right step by step so that the block splits off whole
        crate::text::lemma_add_assoc(o, c1, c2);
        assert((((((o + c1) + c2) + c3) + c4) + c5) + c6 == ((((o + (c1 + c2)) + c3) + c4) + c5)
            + c6);
        crate::text::lemma_add_assoc(o, c1 + c2, c3);
        assert(((((o + (c1 + c2)) + c3) + c4) + c5) + c6 == (((o + ((c1 + c2) + c3)) + c4) + c5)
            + c6);
        crate::text::lemma_add_assoc(o, (c1 + c2) + c3, c4);
        assert((((o + ((c1 + c2) + c3)) + c4) + c5) + c6 == ((o + (((c1 + c2) + c3) + c4)) + c5)
            + c6);
        crate::text::lemma_add_assoc(o, ((c1 + c2) + c3) + c4, c5);
        assert(((o + (((c1 + c2) + c3) + c4)) + c5) + c6 == (o + ((((c1 + c2) + c3) + c4) + c5))
            + c6);
        crate::text::lemma_add_assoc(o, (((c1 + c2) + c3) + c4) + c5, c6);
        assert(spec_hist_point_block(name@, pv, spec_opt_attr_views(extra), min_max) == ((((c1
            + c2) + c3) + c4) + c5) + c6);
        assert(f@ == o + spec_hist_point_block(name@, pv, spec_opt_attr_views(extra), min_max));
    }
}

/// Writes all lines of a cumulative histogram: every point's `_created`
/// line, then per point the count, sum, optional extrema, the cumulative
/// bucket lines, and the final `+Inf` bucket with the total count.
#[verifier::spinoff_prover]
#[verifier::rlimit(60)]
pub fn write_histogram(
    f: &mut String,
    name: &str,
    hist: &HistogramData,
    extra: &Option<Attr>,
    min_max: bool,
)
    requires
        hist.temporality is Cumulative,
        crate::model::spec_points_wf(seq_views(hist.data_points@)),
    ensures
        final(f)@ == old(f)@ + spec_hist_body(
            name@,
            seq_views(hist.data_points@),
            spec_opt_attr_views(extra),
            min_max,
        ),
{
    let mut points = crate::model::dup_vec(&hist.data_points);
    crate::sort::stable_sort(&mut points);
    let ghost orig = seq_views(hist.data_points@);
    let ghost sorted = sort_views::<HistogramDataPoint>(orig);
    let ghost cf = created_line_fn(name@, spec_opt_attr_views(extra));
    let ghost bf = hist_block_fn(name@, spec_opt_attr_views(extra), min_max);
    proof {
        broadcast use vstd::seq_lib::group_to_multiset_ensures;

        crate::sort::lemma_sort_views_multiset::<HistogramDataPoint>(orig);
        assert(seq_views(points@).len() == points@.len());
        assert forall|k: int| 0 <= k < sorted.len() implies spec_hist_point_wf(
            #[trigger] sorted[k],
        ) by {
            assert(sorted.contains(sorted[k]));
            assert(sorted.to_multiset().count(sorted[k]) > 0);
            assert(orig.contains(sorted[k]));
            let j = choose|j: int| 0 <= j < orig.len() && orig[j] == sorted[k];
            assert(crate::model::spec_points_wf(orig));
            assert(spec_hist_point_wf(orig[j]));
        }
    }
    let n = points.len();
    let mut i: usize = 0;
    proof {
        assert(sorted.subrange(0, 0) =~= Seq::<HistogramDataPointV>::empty());
        assert(old(f)@ + concat_map(sorted.subrange(0, 0), cf) =~= old(f)@);
    }
    while i < n
        invariant
            n == points@.len(),
            seq_views(points@) == sorted,
            i <= n,
            cf == created_line_fn(name@, spec_opt_attr_views(extra)),
            f@ == old(f)@ + concat_map(sorted.subrange(0, i as int), cf),
        decreases n - i,
    {
        let p = &points[i];
        crate::text::append_str(f, name);
        f.append("_created{");
        let merged = merged_attrs(&p.attributes, extra);
        crate::attrs::write_attrs(f, &merged);
        f.append("} ");
        f.append(p.start_time.as_str());
        f.append(" ");
        f.append(p.time.as_str());
        f.append("\n");
        proof {
            let t = sorted.subrange(0, i + 1 as int);
            assert(t.last() == points@[i as int]@);
            assert(t.drop_last() =~= sorted.subrange(0, i as int));
            crate::text::lemma_concat_map_snoc(t, cf);
            assert(cf(points@[i as int]@) == spec_created_line(
                name@,
                points@[i as int]@,
                spec_opt_attr_views(extra),
            ));
            assert(f@ =~= old(f)@ + concat_map(t, cf));
        }
        i = i + 1;
    }
    proof {
        assert(sorted.subrange(0, n as int) =~= sorted);
    }
    let ghost base2 = f@;
    let mut i: usize = 0;
    proof {
        assert(sorted.subrange(0, 0) =~= Seq::<HistogramDataPointV>::empty());
        assert(base2 + concat_map(sorted.subrange(0, 0), bf) =~= base2);
    }
    while i < n
        invariant
            n == points@.len(),
            seq_views(points@) == sorted,
            i <= n,
            bf == hist_block_fn(name@, spec_opt_attr_views(extra), min_max),
            base2 == old(f)@ + concat_map(sorted, cf),
            forall|k: int| 0 <= k < sorted.len() ==> spec_hist_point_wf(#[trigger] sorted[k]),
            f@ == base2 + concat_map(sorted.subrange(0, i as int), bf),
        decreases n - i,
    {
        let p = &points[i];
        write_hist_point_block(f, name, p, extra, min_max);
        proof {
            let pv = points@[i as int]@;
            assert(pv == sorted[i as int]);
            let tseq = sorted.subrange(0, i + 1 as int);
            assert(tseq.last() == pv);
            assert(tseq.drop_last() =~= sorted.subrange(0, i as int));
            crate::text::lemma_concat_map_snoc(tseq, bf);
            assert(bf(pv) == spec_hist_point_block(
                name@,
                pv,
                spec_opt_attr_views(extra),
                min_max,
            ));
            let pre = concat_map(sorted.subrange(0, i as int), bf);
            crate::text::lemma_add_assoc(base2, pre, bf(pv));
            assert(f@ == base2 + concat_map(tseq, bf));
        }
        i = i + 1;
    }
    proof {
        assert(sorted.subrange(0, n as int) =~= sorted);
        assert(final(f)@ =~= old(f)@ + spec_hist_body(
            name@,
            seq_views(hist.data_points@),
            spec_opt_attr_views(extra),
            min_max,
        ));
    }
}


/// Writes all sample lines of one metric's payload.
pub fn write_values(
    f: &mut String,
    name: &str,
    data: &MetricData,
    extra: &Option<Attr>,
    min_max: bool,
)
    requires
        spec_metric_type(data@) is Some,
        crate::model::spec_data_ok(data@),
    ensures
        final(f)@ == old(f)@ + spec_metric_body(name@, data@, spec_opt_attr_views(extra), min_max),
{
    match data {
        MetricData::Gauge(g) => {
            write_gauge(f, name, g, extra);
        },
        MetricData::Sum(s) => {
            write_counter(f, name, s, extra);
        },
        MetricData::Histogram(h) => {
            proof {
                assert(data@ == MetricDataV::Histogram(
                    crate::model::HistogramDataV {
                        data_points: seq_views(h.data_points@),
                        temporality: h.temporality,
                    },
                ));
                assert(h.temporality is Cumulative);
                assert(crate::model::spec_points_wf(seq_views(h.data_points@)));
            }
            write_histogram(f, name, h, extra, min_max);
        },
    }
}

/// Writes the metadata of one metric: its type, its unit when a mapping
/// exists, and its escaped description when one is given.
pub fn write_header(f: &mut String, name: &str, typ: &str, unit: &Option<String>, description: &str)
    ensures
        final(f)@ == old(f)@ + ("# TYPE "@ + name@ + " "@ + typ@ + "\n"@) + (match unit {
            Some(u) => "# UNIT "@ + name@ + " "@ + u@ + "\n"@,
            None => Seq::<char>::empty(),
        }) + (if description@.len() > 0 {
            "# HELP "@ + name@ + " "@ + crate::escape::spec_escape(description@) + "\n"@
        } else {
            Seq::<char>::empty()
        }),
{
    f.append("# TYPE ");
    crate::text::append_str(f, name);
    f.append(" ");
    crate::text::append_str(f, typ);
    f.append("\n");
    proof {
        assert(f@ =~= old(f)@ + ("# TYPE "@ + name@ + " "@ + typ@ + "\n"@));
    }
    let ghost after_type = f@;
    match unit {
        Some(u) => {
            f.append("# UNIT ");
            crate::text::append_str(f, name);
            f.append(" ");
            f.append(u.as_str());
            f.append("\n");
            proof {
                assert(f@ =~= after_type + ("# UNIT "@ + name@ + " "@ + u@ + "\n"@));
            }
        },
        None => {
            proof {
                assert(f@ =~= after_type + Seq::<char>::empty());
            }
        },
    }
    let ghost after_unit = f@;
    if !description.is_empty() {
        f.append("# HELP ");
        crate::text::append_str(f, name);
        f.append(" ");
        crate::escape::write_escaped(f, description);
        f.append("\n");
        proof {
            assert(f@ =~= after_unit + ("# HELP "@ + name@ + " "@ + crate::escape::spec_escape(
                description@,
            ) + "\n"@));
        }
    } else {
        proof {
            assert(f@ =~= after_unit + Seq::<char>::empty());
        }
    }
}

/// Writes one metric: metadata then samples. An unsupported shape writes
/// nothing.
pub fn write_metric(f: &mut String, m: &Metric, extra: &Option<Attr>, min_max: bool)
    requires
        spec_metric_wf(m@),
    ensures
        final(f)@ == old(f)@ + spec_render_metric(m@, spec_opt_attr_views(extra), min_max),
{
    let typ = match get_type(&m.data) {
        Ok(t) => t,
        Err(_) => {
            proof {
                assert(old(f)@ + spec_render_metric(m@, spec_opt_attr_views(extra), min_max)
                    =~= old(f)@);
            }
            return ;
        },
    };
    let unit = crate::unit::get_unit_suffixes(m.unit.as_str());
    let mut name = String::new();
    crate::sanitize::write_sanitized_name(&mut name, m.name.as_str());
    match &unit {
        Some(u) => {
            crate::text::string_push(&mut name, '_');
            name.append(u.as_str());
            proof {
                assert(name@ =~= spec_metric_name(m@));
            }
        },
        None => {
            proof {
                assert(name@ =~= spec_metric_name(m@));
            }
        },
    }
    let ghost header = spec_metric_header(m@, typ@);
    write_header(f, name.as_str(), typ, &unit, m.description.as_str());
    proof {
        assert(f@ =~= old(f)@ + header);
    }
    let ghost after_header = f@;
    write_values(f, name.as_str(), &m.data, extra, min_max);
    proof {
        let body = spec_metric_body(
            spec_metric_name(m@),
            m@.data,
            spec_opt_attr_views(extra),
            min_max,
        );
        assert(f@ == after_header + body);
        crate::text::lemma_add_assoc(old(f)@, header, body);
        assert(spec_render_metric(m@, spec_opt_attr_views(extra), min_max) == header + body);
        assert(f@ == old(f)@ + spec_render_metric(m@, spec_opt_attr_views(extra), min_max));
    }
}

/// Writes the resource `target_info` lines.
pub fn write_target_info(f: &mut String, resource: &Vec<Attr>)
    ensures
        final(f)@ == old(f)@ + spec_target_info(seq_views(resource@)),
{
    f.append("# TYPE target info\n");
    f.append("target_info{");
    crate::attrs::write_attrs(f, resource);
    f.append("} 1\n");
    proof {
        assert(f@ =~= old(f)@ + spec_target_info(seq_views(resource@)));
    }
}

/// The synthetic name and version attributes of a scope, followed by the
/// scope's own attributes.
fn scope_info_attrs(sc: &ScopeMetrics) -> (r: Vec<Attr>)
    ensures
        seq_views(r@) == seq![
            AttrV { key: "otel_scope_name"@, value: sc@.name },
            AttrV {
                key: "otel_scope_version"@,
                value: match sc@.version {
                    Some(v) => v,
                    None => Seq::<char>::empty(),
                },
            },
        ] + sc@.attributes,
{
    let mut r: Vec<Attr> = Vec::new();
    r.push(Attr::new("otel_scope_name", sc.name.as_str()));
    let version: &str = match &sc.version {
        Some(v) => v.as_str(),
        None => "",
    };
    proof {
        reveal_strlit("");
        assert(""@ =~= Seq::<char>::empty());
    }
    r.push(Attr::new("otel_scope_version", version));
    let own = crate::model::dup_vec(&sc.attributes);
    let ghost two = r@;
    let ghost own0 = seq_views(own@);
    let n = own.len();
    let mut i: usize = 0;
    while i < n
        invariant
            n == own@.len(),
            own0 == seq_views(own@),
            own0 == sc@.attributes,
            i <= n,
            seq_views(r@) == seq_views(two) + own0.subrange(0, i as int),
        decreases n - i,
    {
        let a = own[i].duplicate();
        proof {
            assert(seq_views(own@)[i as int] == own@[i as int]@);
            assert(a@ == own0[i as int]);
        }
        let ghost pre = r@;
        r.push(a);
        proof {
            assert(seq_views(pre).len() == pre.len());
            assert(r@ == pre.push(a));
            assert forall|j: int|
                0 <= j < r@.len() implies seq_views(r@)[j] == (seq_views(two) + own0.subrange(
                0,
                i + 1 as int,
            ))[j] by {
                if j < pre.len() {
                    assert(r@[j] == pre[j]);
                    assert(seq_views(pre)[j] == pre[j]@);
                } else {
                    assert(r@[j] == a);
                }
            }
            assert(seq_views(r@) =~= seq_views(two) + own0.subrange(0, i + 1 as int));
        }
        i = i + 1;
    }
    proof {
        assert(own0.subrange(0, n as int) =~= own0);
        assert(seq_views(two) =~= seq![
            AttrV { key: "otel_scope_name"@, value: sc@.name },
            AttrV {
                key: "otel_scope_version"@,
                value: match sc@.version {
                    Some(v) => v,
                    None => Seq::<char>::empty(),
                },
            },
        ]);
    }
    r
}

/// Writes the `otel_scope_info` metric: its type line, then one line per
/// scope in the given order.
pub fn write_otel_scope_info(f: &mut String, scopes: &Vec<ScopeMetrics>)
    ensures
        final(f)@ == old(f)@ + "# TYPE otel_scope info\n"@ + concat_map(
            seq_views(scopes@),
            scope_info_line_fn(),
        ),
{
    f.append("# TYPE otel_scope info\n");
    let ghost base = f@;
    let ghost sv = seq_views(scopes@);
    let ghost lf = scope_info_line_fn();
    let n = scopes.len();
    let mut i: usize = 0;
    proof {
        assert(sv.subrange(0, 0) =~= Seq::<ScopeMetricsV>::empty());
        assert(base + concat_map(sv.subrange(0, 0), lf) =~= base);
    }
    while i < n
        invariant
            n == scopes@.len(),
            sv == seq_views(scopes@),
            lf == scope_info_line_fn(),
            base == old(f)@ + "# TYPE otel_scope info\n"@,
            i <= n,
            f@ == base + concat_map(sv.subrange(0, i as int), lf),
        decreases n - i,
    {
        let sc = &scopes[i];
        let ghost fprev = f@;
        f.append("otel_scope_info{");
        let merged = scope_info_attrs(sc);
        crate::attrs::write_attrs(f, &merged);
        f.append("} 1\n");
        proof {
            let t = sv.subrange(0, i + 1 as int);
            assert(t.last() == scopes@[i as int]@);
            assert(t.drop_last() =~= sv.subrange(0, i as int));
            crate::text::lemma_concat_map_snoc(t, lf);
            assert(lf(scopes@[i as int]@) == spec_scope_info_line(scopes@[i as int]@));
            let svi = scopes@[i as int]@;
            assert(sc@ == svi);
            let synthetic = seq![
                AttrV { key: "otel_scope_name"@, value: svi.name },
                AttrV {
                    key: "otel_scope_version"@,
                    value: match svi.version {
                        Some(v) => v,
                        None => Seq::<char>::empty(),
                    },
                },
            ];
            assert(seq_views(merged@) == synthetic + svi.attributes);
            assert(spec_scope_info_line(svi) == "otel_scope_info{"@ + spec_attrs_body(
                synthetic + svi.attributes,
            ) + "} 1\n"@);
            assert(f@ =~= fprev + spec_scope_info_line(svi));
            let pre = concat_map(sv.subrange(0, i as int), lf);
            crate::text::lemma_add_assoc(base, pre, lf(scopes@[i as int]@));
            assert(f@ == base + concat_map(t, lf));
        }
        i = i + 1;
    }
    proof {
        assert(sv.subrange(0, n as int) =~= sv);
    }
}

/// Writes every metric of one scope, in lexicographic name order.
pub fn write_scope(f: &mut String, sc: &ScopeMetrics, cfg: &RenderConfig)
    requires
        crate::model::spec_scope_wf(sc@),
    ensures
        final(f)@ == old(f)@ + spec_render_scope(sc@, *cfg),
{
    let extra = make_scope_name_attrs(sc.name.as_str(), cfg.scope_info);
    let mut metrics = crate::model::dup_vec(&sc.metrics);
    crate::sort::stable_sort(&mut metrics);
    let ghost orig = sc@.metrics;
    let ghost sorted = sort_views::<Metric>(orig);
    let ghost mf = render_metric_fn(
        spec_scope_extra(sc@.name, cfg.scope_info),
        cfg.histogram_min_max,
    );
    proof {
        broadcast use vstd::seq_lib::group_to_multiset_ensures;

        crate::sort::lemma_sort_views_multiset::<Metric>(orig);
        assert(seq_views(metrics@).len() == metrics@.len());
        assert forall|k: int| 0 <= k < sorted.len() implies spec_metric_wf(#[trigger] sorted[k]) by {
            assert(sorted.contains(sorted[k]));
            assert(sorted.to_multiset().count(sorted[k]) > 0);
            assert(orig.contains(sorted[k]));
            let j = choose|j: int| 0 <= j < orig.len() && orig[j] == sorted[k];
            assert(spec_metric_wf(orig[j]));
        }
    }
    let n = metrics.len();
    let mut i: usize = 0;
    proof {
        assert(sorted.subrange(0, 0) =~= Seq::<MetricV>::empty());
        assert(old(f)@ + concat_map(sorted.subrange(0, 0), mf) =~= old(f)@);
    }
    while i < n
        invariant
            n == metrics@.len(),
            seq_views(metrics@) == sorted,
            i <= n,
            mf == render_metric_fn(
                spec_scope_extra(sc@.name, cfg.scope_info),
                cfg.histogram_min_max,
            ),
            spec_opt_attr_views(&extra) == spec_scope_extra(sc@.name, cfg.scope_info),
            forall|k: int| 0 <= k < sorted.len() ==> spec_metric_wf(#[trigger] sorted[k]),
            f@ == old(f)@ + concat_map(sorted.subrange(0, i as int), mf),
        decreases n - i,
    {
        let m = &metrics[i];
        proof {
            assert(m@ == sorted[i as int]);
        }
        write_metric(f, m, &extra, cfg.histogram_min_max);
        proof {
            let t = sorted.subrange(0, i + 1 as int);
            assert(t.last() == metrics@[i as int]@);
            assert(t.drop_last() =~= sorted.subrange(0, i as int));
            crate::text::lemma_concat_map_snoc(t, mf);
            assert(mf(metrics@[i as int]@) == spec_render_metric(
                metrics@[i as int]@,
                spec_scope_extra(sc@.name, cfg.scope_info),
                cfg.histogram_min_max,
            ));
            let pre = concat_map(sorted.subrange(0, i as int), mf);
            crate::text::lemma_add_assoc(old(f)@, pre, mf(metrics@[i as int]@));
            assert(f@ == old(f)@ + concat_map(t, mf));
        }
        i = i + 1;
    }
    proof {
        assert(sorted.subrange(0, n as int) =~= sorted);
    }
}

/// The rendering of a snapshot into the text exposition format.
pub trait WriteOpenMetrics {
    /// The mathematical content of the snapshot.
    spec fn om_view(&self) -> MetricsSnapshotV;

    /// The renderer's input contract.
    spec fn om_wf(&self) -> bool;

    /// Writes the snapshot into `f` in the text exposition format.
    fn write_as_openmetrics(&self, f: &mut String, cfg: &RenderConfig)
        requires
            self.om_wf(),
        ensures
            final(f)@ == old(f)@ + spec_render(self.om_view(), *cfg),
    ;

    /// Creates and returns the text of the snapshot in the exposition
    /// format.
    fn to_openmetrics_string(&self, cfg: &RenderConfig) -> (r: String)
        requires
            self.om_wf(),
        ensures
            r@ == spec_render(self.om_view(), *cfg),
    ;
}

impl WriteOpenMetrics for MetricsSnapshot {
    open spec fn om_view(&self) -> MetricsSnapshotV {
        self@
    }

    open spec fn om_wf(&self) -> bool {
        crate::model::spec_snapshot_wf(self@)
    }

    fn write_as_openmetrics(&self, f: &mut String, cfg: &RenderConfig) {
        let mut scopes = crate::model::dup_vec(&self.scopes);
        crate::sort::stable_sort(&mut scopes);
        let ghost sorted = spec_sorted_scopes(self@);
        let ghost sf = render_scope_fn(*cfg);
        proof {
            broadcast use vstd::seq_lib::group_to_multiset_ensures;

            crate::sort::lemma_sort_views_multiset::<ScopeMetrics>(self@.scopes);
            assert(seq_views(scopes@).len() == scopes@.len());
            assert forall|k: int|
                0 <= k < sorted.len() implies crate::model::spec_scope_wf(#[trigger] sorted[k]) by {
                assert(sorted.contains(sorted[k]));
                assert(sorted.to_multiset().count(sorted[k]) > 0);
                assert(self@.scopes.contains(sorted[k]));
                let j = choose|j: int|
                    0 <= j < self@.scopes.len() && self@.scopes[j] == sorted[k];
                assert(crate::model::spec_scope_wf(self@.scopes[j]));
            }
        }
        let ghost info_part = if cfg.scope_info {
            spec_target_info(self@.resource) + "# TYPE otel_scope info\n"@ + concat_map(
                sorted,
                scope_info_line_fn(),
            )
        } else {
            Seq::<char>::empty()
        };
        if cfg.scope_info {
            write_target_info(f, &self.resource);
            write_otel_scope_info(f, &scopes);
            proof {
                crate::text::lemma_add_assoc(
                    old(f)@ + spec_target_info(self@.resource),
                    "# TYPE otel_scope info\n"@,
                    concat_map(sorted, scope_info_line_fn()),
                );
                crate::text::lemma_add_assoc(
                    old(f)@,
                    spec_target_info(self@.resource),
                    "# TYPE otel_scope info\n"@ + concat_map(sorted, scope_info_line_fn()),
                );
                assert(info_part =~= spec_target_info(self@.resource) + ("# TYPE otel_scope info\n"@
                    + concat_map(sorted, scope_info_line_fn())));
                assert(f@ == old(f)@ + info_part);
            }
        } else {
            proof {
                assert(f@ =~= old(f)@ + info_part);
            }
        }
        let ghost base = f@;
        let n = scopes.len();
        let mut i: usize = 0;
        proof {
            assert(sorted.subrange(0, 0) =~= Seq::<ScopeMetricsV>::empty());
            assert(base + concat_map(sorted.subrange(0, 0), sf) =~= base);
        }
        while i < n
            invariant
                n == scopes@.len(),
                seq_views(scopes@) == sorted,
                i <= n,
                sf == render_scope_fn(*cfg),
                base == old(f)@ + info_part,
                forall|k: int|
                    0 <= k < sorted.len() ==> crate::model::spec_scope_wf(#[trigger] sorted[k]),
                f@ == base + concat_map(sorted.subrange(0, i as int), sf),
            decreases n - i,
        {
            let sc = &scopes[i];
            proof {
                assert(sc@ == sorted[i as int]);
            }
            write_scope(f, sc, cfg);
            proof {
                let t = sorted.subrange(0, i + 1 as int);
                assert(t.last() == scopes@[i as int]@);
                assert(t.drop_last() =~= sorted.subrange(0, i as int));
                crate::text::lemma_concat_map_snoc(t, sf);
                assert(sf(scopes@[i as int]@) == spec_render_scope(scopes@[i as int]@, *cfg));
                let pre = concat_map(sorted.subrange(0, i as int), sf);
                crate::text::lemma_add_assoc(base, pre, sf(scopes@[i as int]@));
                assert(f@ == base + concat_map(t, sf));
            }
            i = i + 1;
        }
        f.append("# EOF\n");
        proof {
            assert(sorted.subrange(0, n as int) =~= sorted);
            let body = concat_map(sorted, sf);
            crate::text::lemma_add_assoc(old(f)@ + info_part, body, "# EOF\n"@);
            crate::text::lemma_add_assoc(old(f)@, info_part, body + "# EOF\n"@);
            assert(spec_render(self@, *cfg) =~= info_part + (body + "# EOF\n"@));
            assert(final(f)@ == old(f)@ + spec_render(self@, *cfg));
        }
    }

    fn to_openmetrics_string(&self, cfg: &RenderConfig) -> (r: String) {
        let mut out = String::new();
        self.write_as_openmetrics(&mut out, cfg);
        proof {
            assert(Seq::<char>::empty() + spec_render(self@, *cfg) =~= spec_render(self@, *cfg));
        }
        out
    }
}


/// Rendering is deterministic: the text is a function of the snapshot and
/// the configuration alone, so rendering the same snapshot twice yields
/// identical text.
pub proof fn lemma_render_deterministic(
    v: MetricsSnapshotV,
    cfg: RenderConfig,
    o1: Seq<char>,
    o2: Seq<char>,
)
    requires
        o1 == spec_render(v, cfg),
        o2 == spec_render(v, cfg),
    ensures
        o1 == o2,
{
}

/// The full rendered document always ends with the terminal line.
pub proof fn lemma_render_ends_with_eof(v: MetricsSnapshotV, cfg: RenderConfig)
    ensures
        spec_render(v, cfg).len() >= "# EOF\n"@.len(),
        spec_render(v, cfg).subrange(
            spec_render(v, cfg).len() - "# EOF\n"@.len(),
            spec_render(v, cfg).len() as int,
        ) == "# EOF\n"@,
{
    let out = spec_render(v, cfg);
    let e = "# EOF\n"@;
    assert(out.subrange(out.len() - e.len(), out.len() as int) =~= e);
}

/// Within one histogram point the emitted bucket values are the running
/// cumulative sums of the per-bucket counts, so they are non-decreasing
/// across ascending bounds; the final bucket line carries the point's own
/// total count (see `spec_hist_inf_line`).
pub proof fn lemma_histogram_buckets_monotone(p: HistogramDataPointV, i: int, j: int)
    requires
        0 <= i <= j,
    ensures
        spec_count_sum(p.bucket_counts, i) <= spec_count_sum(p.bucket_counts, j),
{
    crate::model::lemma_count_sum_mono(p.bucket_counts, i, j);
}

/// Permuting the pairs of a label set does not change its rendered body,
/// provided no two distinct pairs share a key.
pub proof fn lemma_attrs_order_invariant(s1: Seq<AttrV>, s2: Seq<AttrV>)
    requires
        s1.to_multiset() == s2.to_multiset(),
        forall|a: AttrV, b: AttrV|
            s1.contains(a) && s1.contains(b) && #[trigger] a.key == #[trigger] b.key ==> a == b,
    ensures
        spec_attrs_body(s1) == spec_attrs_body(s2),
{
    assert forall|a: AttrV, b: AttrV|
        #[trigger] <Attr as crate::sort::SortLe>::vle(a, b) || #[trigger] <Attr as crate::sort::SortLe>::vle(b, a) by {
        crate::text::lemma_lex_le_total(a.key, b.key);
    }
    assert forall|a: AttrV, b: AttrV, c: AttrV|
        #[trigger] <Attr as crate::sort::SortLe>::vle(a, b) && #[trigger] <Attr as crate::sort::SortLe>::vle(b, c) implies <Attr as crate::sort::SortLe>::vle(a, c) by {
        crate::text::lemma_lex_le_trans(a.key, b.key, c.key);
    }
    assert forall|a: AttrV, b: AttrV|
        #![trigger <Attr as crate::sort::SortLe>::vle(a, b), <Attr as crate::sort::SortLe>::vle(b, a)]
        s1.contains(a) && s1.contains(b) && <Attr as crate::sort::SortLe>::vle(a, b)
            && <Attr as crate::sort::SortLe>::vle(b, a) implies a == b by {
        crate::text::lemma_lex_le_antisym(a.key, b.key);
    }
    crate::sort::lemma_sort_views_perm::<Attr>(s1, s2);
}

/// Permuting the data points of a gauge or sum does not change its
/// rendered body, provided no two distinct points share an attribute
/// fingerprint.
pub proof fn lemma_points_order_invariant(s1: Seq<NumberDataPointV>, s2: Seq<NumberDataPointV>)
    requires
        s1.to_multiset() == s2.to_multiset(),
        forall|a: NumberDataPointV, b: NumberDataPointV|
            s1.contains(a) && s1.contains(b) && #[trigger] spec_hash_attrs(a.attributes)
                == #[trigger] spec_hash_attrs(b.attributes) ==> a == b,
    ensures
        sort_views::<NumberDataPoint>(s1) == sort_views::<NumberDataPoint>(s2),
        forall|name: Seq<char>, extra: Seq<AttrV>|
            #[trigger] spec_gauge_body(name, s1, extra) == spec_gauge_body(name, s2, extra),
        forall|name: Seq<char>, monotonic: bool, extra: Seq<AttrV>|
            #[trigger] spec_sum_body(name, monotonic, s1, extra) == spec_sum_body(
                name,
                monotonic,
                s2,
                extra,
            ),
{
    assert forall|a: NumberDataPointV, b: NumberDataPointV|
        #![trigger <NumberDataPoint as crate::sort::SortLe>::vle(a, b), <NumberDataPoint as crate::sort::SortLe>::vle(b, a)]
        s1.contains(a) && s1.contains(b) && <NumberDataPoint as crate::sort::SortLe>::vle(a, b)
            && <NumberDataPoint as crate::sort::SortLe>::vle(b, a) implies a == b by {
        assert(spec_hash_attrs(a.attributes) == spec_hash_attrs(b.attributes));
    }
    crate::sort::lemma_sort_views_perm::<NumberDataPoint>(s1, s2);
}

/// Permuting the data points of a histogram does not change its rendered
/// body, provided no two distinct points share an attribute fingerprint.
pub proof fn lemma_hist_points_order_invariant(
    s1: Seq<HistogramDataPointV>,
    s2: Seq<HistogramDataPointV>,
)
    requires
        s1.to_multiset() == s2.to_multiset(),
        forall|a: HistogramDataPointV, b: HistogramDataPointV|
            s1.contains(a) && s1.contains(b) && #[trigger] spec_hash_attrs(a.attributes)
                == #[trigger] spec_hash_attrs(b.attributes) ==> a == b,
    ensures
        forall|name: Seq<char>, extra: Seq<AttrV>, min_max: bool|
            #[trigger] spec_hist_body(name, s1, extra, min_max) == spec_hist_body(
                name,
                s2,
                extra,
                min_max,
            ),
{
    assert forall|a: HistogramDataPointV, b: HistogramDataPointV|
        #![trigger <HistogramDataPoint as crate::sort::SortLe>::vle(a, b), <HistogramDataPoint as crate::sort::SortLe>::vle(b, a)]
        s1.contains(a) && s1.contains(b) && <HistogramDataPoint as crate::sort::SortLe>::vle(a, b)
            && <HistogramDataPoint as crate::sort::SortLe>::vle(b, a) implies a == b by {
        assert(spec_hash_attrs(a.attributes) == spec_hash_attrs(b.attributes));
    }
    crate::sort::lemma_sort_views_perm::<HistogramDataPoint>(s1, s2);
}

/// Permuting the metrics of a scope does not change the scope's rendered
/// text, provided no two distinct metrics share a name.
pub proof fn lemma_metrics_order_invariant(sc1: ScopeMetricsV, sc2: ScopeMetricsV, cfg: RenderConfig)
    requires
        sc1.name == sc2.name,
        sc1.metrics.to_multiset() == sc2.metrics.to_multiset(),
        forall|a: MetricV, b: MetricV|
            sc1.metrics.contains(a) && sc1.metrics.contains(b) && #[trigger] a.name
                == #[trigger] b.name ==> a == b,
    ensures
        spec_render_scope(sc1, cfg) == spec_render_scope(sc2, cfg),
{
    assert forall|a: MetricV, b: MetricV|
        #[trigger] <Metric as crate::sort::SortLe>::vle(a, b) || #[trigger] <Metric as crate::sort::SortLe>::vle(b, a) by {
        crate::text::lemma_lex_le_total(a.name, b.name);
    }
    assert forall|a: MetricV, b: MetricV, c: MetricV|
        #[trigger] <Metric as crate::sort::SortLe>::vle(a, b) && #[trigger] <Metric as crate::sort::SortLe>::vle(b, c) implies <Metric as crate::sort::SortLe>::vle(a, c) by {
        crate::text::lemma_lex_le_trans(a.name, b.name, c.name);
    }
    assert forall|a: MetricV, b: MetricV|
        #![trigger <Metric as crate::sort::SortLe>::vle(a, b), <Metric as crate::sort::SortLe>::vle(b, a)]
        sc1.metrics.contains(a) && sc1.metrics.contains(b) && <Metric as crate::sort::SortLe>::vle(
            a,
            b,
        ) && <Metric as crate::sort::SortLe>::vle(b, a) implies a == b by {
        crate::text::lemma_lex_le_antisym(a.name, b.name);
    }
    crate::sort::lemma_sort_views_perm::<Metric>(sc1.metrics, sc2.metrics);
}

/// Permuting the scopes of a snapshot does not change the rendered
/// document, provided no two distinct scopes share a name.
pub proof fn lemma_scopes_order_invariant(
    v1: MetricsSnapshotV,
    v2: MetricsSnapshotV,
    cfg: RenderConfig,
)
    requires
        v1.resource == v2.resource,
        v1.scopes.to_multiset() == v2.scopes.to_multiset(),
        forall|a: ScopeMetricsV, b: ScopeMetricsV|
            v1.scopes.contains(a) && v1.scopes.contains(b) && #[trigger] a.name
                == #[trigger] b.name ==> a == b,
    ensures
        spec_render(v1, cfg) == spec_render(v2, cfg),
{
    assert forall|a: ScopeMetricsV, b: ScopeMetricsV|
        #[trigger] <ScopeMetrics as crate::sort::SortLe>::vle(a, b) || #[trigger] <ScopeMetrics as crate::sort::SortLe>::vle(b, a) by {
        crate::text::lemma_lex_le_total(a.name, b.name);
    }
    assert forall|a: ScopeMetricsV, b: ScopeMetricsV, c: ScopeMetricsV|
        #[trigger] <ScopeMetrics as crate::sort::SortLe>::vle(a, b) && #[trigger] <ScopeMetrics as crate::sort::SortLe>::vle(b, c) implies <ScopeMetrics as crate::sort::SortLe>::vle(a, c) by {
        crate::text::lemma_lex_le_trans(a.name, b.name, c.name);
    }
    assert forall|a: ScopeMetricsV, b: ScopeMetricsV|
        #![trigger <ScopeMetrics as crate::sort::SortLe>::vle(a, b), <ScopeMetrics as crate::sort::SortLe>::vle(b, a)]
        v1.scopes.contains(a) && v1.scopes.contains(b) && <ScopeMetrics as crate::sort::SortLe>::vle(
            a,
            b,
        ) && <ScopeMetrics as crate::sort::SortLe>::vle(b, a) implies a == b by {
        crate::text::lemma_lex_le_antisym(a.name, b.name);
    }
    crate::sort::lemma_sort_views_perm::<ScopeMetrics>(v1.scopes, v2.scopes);
    assert(spec_sorted_scopes(v1) == spec_sorted_scopes(v2));
}


/// Permuting the attribute pairs of one data point changes neither its
/// sample line nor its fingerprint, provided no two distinct pairs of its
/// label set share a key.
pub proof fn lemma_point_attrs_order_invariant(
    p1: NumberDataPointV,
    p2: NumberDataPointV,
    name: Seq<char>,
    suffix: Seq<char>,
    extra: Seq<AttrV>,
)
    requires
        p1.value == p2.value,
        p1.time == p2.time,
        p1.start_time == p2.start_time,
        p1.attributes.to_multiset() == p2.attributes.to_multiset(),
        forall|a: AttrV, b: AttrV|
            (p1.attributes + extra).contains(a) && (p1.attributes + extra).contains(b)
                && #[trigger] a.key == #[trigger] b.key ==> a == b,
    ensures
        spec_number_line(name, suffix, p1, extra) == spec_number_line(name, suffix, p2, extra),
        spec_hash_attrs(p1.attributes) == spec_hash_attrs(p2.attributes),
{
    crate::attrs::lemma_hash_attrs_perm(p1.attributes, p2.attributes);
    vstd::seq_lib::lemma_multiset_commutative(p1.attributes, extra);
    vstd::seq_lib::lemma_multiset_commutative(p2.attributes, extra);
    assert((p1.attributes + extra).to_multiset() == (p2.attributes + extra).to_multiset());
    lemma_attrs_order_invariant(p1.attributes + extra, p2.attributes + extra);
}

} // verus!
