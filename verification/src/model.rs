//! The snapshot data model: scopes, metrics, data points and their
//! mathematical views. Floating-point values and timestamps are carried as
//! already-rendered decimal text, so that rendering is a pure function of
//! plain values.

use crate::attrs::{Attr, AttrV};
use vstd::prelude::*;
use vstd::string::StringExecFns;

verus! {

/// How successive reported values relate: running totals, or deltas.
pub enum Temporality {
    Cumulative,
    Delta,
}

/// One numeric value of a data point. A floating-point value is carried as
/// its rendered decimal text.
pub enum MetricValue {
    Uint(u64),
    Int(i64),
    Float(String),
}

pub ghost enum MetricValueV {
    Uint(u64),
    Int(i64),
    Float(Seq<char>),
}

impl View for MetricValue {
    type V = MetricValueV;

    open spec fn view(&self) -> MetricValueV {
        match self {
            MetricValue::Uint(n) => MetricValueV::Uint(*n),
            MetricValue::Int(n) => MetricValueV::Int(*n),
            MetricValue::Float(s) => MetricValueV::Float(s@),
        }
    }
}

/// The rendered text of a value.
pub open spec fn spec_value_text(v: MetricValueV) -> Seq<char> {
    match v {
        MetricValueV::Uint(n) => crate::format::spec_dec_nat(n as int),
        MetricValueV::Int(n) => crate::format::spec_dec_i64(n),
        MetricValueV::Float(s) => s,
    }
}

/// Appends the rendered text of `v` to `f`.
pub fn write_value(f: &mut String, v: &MetricValue)
    ensures
        final(f)@ == old(f)@ + spec_value_text(v@),
{
    match v {
        MetricValue::Uint(n) => {
            let t = crate::format::fmt_u64(*n);
            f.append(t.as_str());
        },
        MetricValue::Int(n) => {
            let t = crate::format::fmt_i64(*n);
            f.append(t.as_str());
        },
        MetricValue::Float(s) => {
            f.append(s.as_str());
        },
    }
}

/// One sample of a gauge or sum: a value, its timestamp text, an optional
/// start timestamp text, and a set of attributes.
pub struct NumberDataPoint {
    pub value: MetricValue,
    pub time: String,
    pub start_time: Option<String>,
    pub attributes: Vec<Attr>,
}

pub ghost struct NumberDataPointV {
    pub value: MetricValueV,
    pub time: Seq<char>,
    pub start_time: Option<Seq<char>>,
    pub attributes: Seq<AttrV>,
}

impl View for NumberDataPoint {
    type V = NumberDataPointV;

    open spec fn view(&self) -> NumberDataPointV {
        NumberDataPointV {
            value: self.value@,
            time: self.time@,
            start_time: match self.start_time {
                Some(ref s) => Some(s@),
                None => None,
            },
            attributes: crate::text::seq_views(self.attributes@),
        }
    }
}

/// One sample of a histogram: totals, optional extrema, bucket bounds
/// (as rendered text) with per-bucket counts, timestamps, and attributes.
pub struct HistogramDataPoint {
    pub count: u64,
    pub sum: MetricValue,
    pub min: Option<MetricValue>,
    pub max: Option<MetricValue>,
    pub bounds: Vec<String>,
    pub bucket_counts: Vec<u64>,
    pub time: String,
    pub start_time: String,
    pub attributes: Vec<Attr>,
}

pub ghost struct HistogramDataPointV {
    pub count: u64,
    pub sum: MetricValueV,
    pub min: Option<MetricValueV>,
    pub max: Option<MetricValueV>,
    pub bounds: Seq<Seq<char>>,
    pub bucket_counts: Seq<u64>,
    pub time: Seq<char>,
    pub start_time: Seq<char>,
    pub attributes: Seq<AttrV>,
}

impl View for HistogramDataPoint {
    type V = HistogramDataPointV;

    open spec fn view(&self) -> HistogramDataPointV {
        HistogramDataPointV {
            count: self.count,
            sum: self.sum@,
            min: match self.min {
                Some(ref v) => Some(v@),
                None => None,
            },
            max: match self.max {
                Some(ref v) => Some(v@),
                None => None,
            },
            bounds: crate::text::seq_views(self.bounds@),
            bucket_counts: self.bucket_counts@,
            time: self.time@,
            start_time: self.start_time@,
            attributes: crate::text::seq_views(self.attributes@),
        }
    }
}

/// A gauge payload: the latest observed values.
pub struct GaugeData {
    pub data_points: Vec<NumberDataPoint>,
}

/// A sum payload: running totals, monotonic or not.
pub struct SumData {
    pub data_points: Vec<NumberDataPoint>,
    pub monotonic: bool,
    pub temporality: Temporality,
}

/// A histogram payload.
pub struct HistogramData {
    pub data_points: Vec<HistogramDataPoint>,
    pub temporality: Temporality,
}

pub ghost struct GaugeDataV {
    pub data_points: Seq<NumberDataPointV>,
}

pub ghost struct SumDataV {
    pub data_points: Seq<NumberDataPointV>,
    pub monotonic: bool,
    pub temporality: Temporality,
}

pub ghost struct HistogramDataV {
    pub data_points: Seq<HistogramDataPointV>,
    pub temporality: Temporality,
}

/// The payload of one metric.
pub enum MetricData {
    Gauge(GaugeData),
    Sum(SumData),
    Histogram(HistogramData),
}

pub ghost enum MetricDataV {
    Gauge(GaugeDataV),
    Sum(SumDataV),
    Histogram(HistogramDataV),
}

impl View for MetricData {
    type V = MetricDataV;

    open spec fn view(&self) -> MetricDataV {
        match self {
            MetricData::Gauge(g) => MetricDataV::Gauge(
                GaugeDataV { data_points: crate::text::seq_views(g.data_points@) },
            ),
            MetricData::Sum(s) => MetricDataV::Sum(
                SumDataV {
                    data_points: crate::text::seq_views(s.data_points@),
                    monotonic: s.monotonic,
                    temporality: s.temporality,
                },
            ),
            MetricData::Histogram(h) => MetricDataV::Histogram(
                HistogramDataV {
                    data_points: crate::text::seq_views(h.data_points@),
                    temporality: h.temporality,
                },
            ),
        }
    }
}

/// One metric: a name, a description, a short unit annotation, and its
/// payload.
pub struct Metric {
    pub name: String,
    pub description: String,
    pub unit: String,
    pub data: MetricData,
}

pub ghost struct MetricV {
    pub name: Seq<char>,
    pub description: Seq<char>,
    pub unit: Seq<char>,
    pub data: MetricDataV,
}

impl View for Metric {
    type V = MetricV;

    open spec fn view(&self) -> MetricV {
        MetricV {
            name: self.name@,
            description: self.description@,
            unit: self.unit@,
            data: self.data@,
        }
    }
}

/// One instrumentation scope with its metrics.
pub struct ScopeMetrics {
    pub name: String,
    pub version: Option<String>,
    pub attributes: Vec<Attr>,
    pub metrics: Vec<Metric>,
}

pub ghost struct ScopeMetricsV {
    pub name: Seq<char>,
    pub version: Option<Seq<char>>,
    pub attributes: Seq<AttrV>,
    pub metrics: Seq<MetricV>,
}

impl View for ScopeMetrics {
    type V = ScopeMetricsV;

    open spec fn view(&self) -> ScopeMetricsV {
        ScopeMetricsV {
            name: self.name@,
            version: match self.version {
                Some(ref s) => Some(s@),
                None => None,
            },
            attributes: crate::text::seq_views(self.attributes@),
            metrics: crate::text::seq_views(self.metrics@),
        }
    }
}

/// The root of a snapshot: resource attributes and the scopes.
pub struct MetricsSnapshot {
    pub resource: Vec<Attr>,
    pub scopes: Vec<ScopeMetrics>,
}

pub ghost struct MetricsSnapshotV {
    pub resource: Seq<AttrV>,
    pub scopes: Seq<ScopeMetricsV>,
}

impl View for MetricsSnapshot {
    type V = MetricsSnapshotV;

    open spec fn view(&self) -> MetricsSnapshotV {
        MetricsSnapshotV {
            resource: crate::text::seq_views(self.resource@),
            scopes: crate::text::seq_views(self.scopes@),
        }
    }
}

/// Sorting orders: data points order by the fingerprint of their own
/// attributes; metrics and scopes order by name.
impl crate::sort::SortLe for NumberDataPoint {
    open spec fn vle(a: NumberDataPointV, b: NumberDataPointV) -> bool {
        crate::attrs::spec_hash_attrs(a.attributes) <= crate::attrs::spec_hash_attrs(b.attributes)
    }

    fn le(&self, other: &Self) -> (r: bool) {
        let ha = crate::attrs::hash_attrs(&self.attributes);
        let hb = crate::attrs::hash_attrs(&other.attributes);
        ha <= hb
    }
}

impl crate::sort::SortLe for HistogramDataPoint {
    open spec fn vle(a: HistogramDataPointV, b: HistogramDataPointV) -> bool {
        crate::attrs::spec_hash_attrs(a.attributes) <= crate::attrs::spec_hash_attrs(b.attributes)
    }

    fn le(&self, other: &Self) -> (r: bool) {
        let ha = crate::attrs::hash_attrs(&self.attributes);
        let hb = crate::attrs::hash_attrs(&other.attributes);
        ha <= hb
    }
}

impl crate::sort::SortLe for Metric {
    open spec fn vle(a: MetricV, b: MetricV) -> bool {
        crate::text::lex_le(a.name, b.name)
    }

    fn le(&self, other: &Self) -> (r: bool) {
        crate::text::str_le(self.name.as_str(), other.name.as_str())
    }
}

impl crate::sort::SortLe for ScopeMetrics {
    open spec fn vle(a: ScopeMetricsV, b: ScopeMetricsV) -> bool {
        crate::text::lex_le(a.name, b.name)
    }

    fn le(&self, other: &Self) -> (r: bool) {
        crate::text::str_le(self.name.as_str(), other.name.as_str())
    }
}

/// A value that can be duplicated without changing its view.
pub trait Dup: Sized + View {
    fn duplicate(&self) -> (r: Self)
        ensures
            r@ == self@,
    ;
}

impl Dup for Attr {
    fn duplicate(&self) -> (r: Self) {
        Attr::new(self.key.as_str(), self.value.as_str())
    }
}

impl Dup for String {
    fn duplicate(&self) -> (r: Self) {
        self.clone()
    }
}

/// A duplicate of a vector, element by element.
pub fn dup_vec<T: Dup>(v: &Vec<T>) -> (r: Vec<T>)
    ensures
        crate::text::seq_views(r@) == crate::text::seq_views(v@),
{
    let n = v.len();
    let mut r: Vec<T> = Vec::new();
    let mut i: usize = 0;
    while i < n
        invariant
            n == v@.len(),
            i <= n,
            crate::text::seq_views(r@) == crate::text::seq_views(v@).subrange(0, i as int),
        decreases n - i,
    {
        let ghost pre = r@;
        let d = v[i].duplicate();
        r.push(d);
        proof {
            assert(crate::text::seq_views(pre).len() == pre.len());
            assert(r@ == pre.push(d));
            assert forall|j: int|
                0 <= j < i + 1 implies crate::text::seq_views(r@)[j] == crate::text::seq_views(
                v@,
            ).subrange(0, i + 1 as int)[j] by {
                if j < i {
                    assert(r@[j] == pre[j]);
                    assert(crate::text::seq_views(pre)[j] == pre[j]@);
                    assert(crate::text::seq_views(pre)[j] == crate::text::seq_views(v@).subrange(
                        0,
                        i as int,
                    )[j]);
                } else {
                    assert(r@[j] == d);
                }
            }
            assert(crate::text::seq_views(r@) =~= crate::text::seq_views(v@).subrange(
                0,
                i + 1 as int,
            ));
        }
        i = i + 1;
    }
    proof {
        assert(crate::text::seq_views(v@).subrange(0, n as int) =~= crate::text::seq_views(v@));
    }
    r
}

/// A copy of a vector of counts.
pub fn copy_counts(v: &Vec<u64>) -> (r: Vec<u64>)
    ensures
        r@ == v@,
{
    let n = v.len();
    let mut r: Vec<u64> = Vec::new();
    let mut i: usize = 0;
    while i < n
        invariant
            n == v@.len(),
            i <= n,
            r@ == v@.subrange(0, i as int),
        decreases n - i,
    {
        r.push(v[i]);
        proof {
            assert(r@ =~= v@.subrange(0, i + 1 as int));
        }
        i = i + 1;
    }
    proof {
        assert(v@.subrange(0, n as int) =~= v@);
    }
    r
}

fn dup_opt_string(o: &Option<String>) -> (r: Option<String>)
    ensures
        match o {
            Some(s) => r is Some && r->0@ == s@,
            None => r is None,
        },
{
    match o {
        Some(s) => Some(s.clone()),
        None => None,
    }
}

impl Dup for MetricValue {
    fn duplicate(&self) -> (r: Self) {
        match self {
            MetricValue::Uint(n) => MetricValue::Uint(*n),
            MetricValue::Int(n) => MetricValue::Int(*n),
            MetricValue::Float(s) => MetricValue::Float(s.clone()),
        }
    }
}

impl Dup for NumberDataPoint {
    fn duplicate(&self) -> (r: Self) {
        NumberDataPoint {
            value: self.value.duplicate(),
            time: self.time.clone(),
            start_time: dup_opt_string(&self.start_time),
            attributes: dup_vec(&self.attributes),
        }
    }
}

impl Dup for HistogramDataPoint {
    fn duplicate(&self) -> (r: Self) {
        HistogramDataPoint {
            count: self.count,
            sum: self.sum.duplicate(),
            min: match &self.min {
                Some(v) => Some(v.duplicate()),
                None => None,
            },
            max: match &self.max {
                Some(v) => Some(v.duplicate()),
                None => None,
            },
            bounds: dup_vec(&self.bounds),
            bucket_counts: copy_counts(&self.bucket_counts),
            time: self.time.clone(),
            start_time: self.start_time.clone(),
            attributes: dup_vec(&self.attributes),
        }
    }
}

impl Dup for Metric {
    fn duplicate(&self) -> (r: Self) {
        let data = match &self.data {
            MetricData::Gauge(g) => MetricData::Gauge(
                GaugeData { data_points: dup_vec(&g.data_points) },
            ),
            MetricData::Sum(s) => MetricData::Sum(
                SumData {
                    data_points: dup_vec(&s.data_points),
                    monotonic: s.monotonic,
                    temporality: match s.temporality {
                        Temporality::Cumulative => Temporality::Cumulative,
                        Temporality::Delta => Temporality::Delta,
                    },
                },
            ),
            MetricData::Histogram(h) => MetricData::Histogram(
                HistogramData {
                    data_points: dup_vec(&h.data_points),
                    temporality: match h.temporality {
                        Temporality::Cumulative => Temporality::Cumulative,
                        Temporality::Delta => Temporality::Delta,
                    },
                },
            ),
        };
        Metric {
            name: self.name.clone(),
            description: self.description.clone(),
            unit: self.unit.clone(),
            data,
        }
    }
}

impl Dup for ScopeMetrics {
    fn duplicate(&self) -> (r: Self) {
        ScopeMetrics {
            name: self.name.clone(),
            version: dup_opt_string(&self.version),
            attributes: dup_vec(&self.attributes),
            metrics: dup_vec(&self.metrics),
        }
    }
}

/// The sum of a sequence of bucket counts.
pub open spec fn spec_count_sum(s: Seq<u64>, upto: int) -> int
    decreases upto,
{
    if upto <= 0 {
        0
    } else {
        spec_count_sum(s, upto - 1) + s[upto - 1]
    }
}

pub proof fn lemma_count_sum_mono(s: Seq<u64>, i: int, j: int)
    requires
        0 <= i <= j,
    ensures
        spec_count_sum(s, i) <= spec_count_sum(s, j),
    decreases j - i,
{
    if i < j {
        lemma_count_sum_mono(s, i, j - 1);
        if j - 1 < s.len() {
        }
    }
}

/// A histogram point whose bucket counts sum within the machine range.
pub open spec fn spec_hist_point_wf(p: HistogramDataPointV) -> bool {
    spec_count_sum(p.bucket_counts, p.bucket_counts.len() as int) <= u64::MAX
}

/// Histogram points whose bucket counts sum within the machine range.
pub open spec fn spec_points_wf(ps: Seq<HistogramDataPointV>) -> bool {
    forall|k: int| 0 <= k < ps.len() ==> spec_hist_point_wf(#[trigger] ps[k])
}

/// A payload that meets the renderer's input contract: sums are
/// cumulative, and histogram bucket counts sum within the machine range.
pub open spec fn spec_data_ok(d: MetricDataV) -> bool {
    match d {
        MetricDataV::Gauge(_) => true,
        MetricDataV::Sum(s) => s.temporality is Cumulative,
        MetricDataV::Histogram(h) => spec_points_wf(h.data_points),
    }
}

/// A metric whose payload meets the renderer's input contract.
pub open spec fn spec_metric_wf(m: MetricV) -> bool {
    spec_data_ok(m.data)
}

pub open spec fn spec_scope_wf(sc: ScopeMetricsV) -> bool {
    forall|j: int| 0 <= j < sc.metrics.len() ==> spec_metric_wf(#[trigger] sc.metrics[j])
}

pub open spec fn spec_snapshot_wf(v: MetricsSnapshotV) -> bool {
    forall|i: int| 0 <= i < v.scopes.len() ==> spec_scope_wf(#[trigger] v.scopes[i])
}

impl MetricsSnapshot {
    /// The renderer's input contract, decidable at run time: every sum is
    /// cumulative and every histogram's bucket counts stay in range.
    pub fn check_wf(&self) -> (r: bool)
        ensures
            r == spec_snapshot_wf(self@),
    {
        let ns = self.scopes.len();
        let mut i: usize = 0;
        while i < ns
            invariant
                ns == self.scopes@.len(),
                i <= ns,
                forall|p: int| 0 <= p < i ==> spec_scope_wf(#[trigger] self@.scopes[p]),
            decreases ns - i,
        {
            let sc = &self.scopes[i];
            proof {
                assert(self@.scopes.len() == self.scopes@.len());
                assert(self@.scopes[i as int] == self.scopes@[i as int]@);
            }
            let nm = sc.metrics.len();
            let mut j: usize = 0;
            while j < nm
                invariant
                    ns == self.scopes@.len(),
                    self@.scopes.len() == ns,
                    i < ns,
                    sc@ == self@.scopes[i as int],
                    nm == sc.metrics@.len(),
                    j <= nm,
                    forall|q: int| 0 <= q < j ==> spec_metric_wf(#[trigger] sc@.metrics[q]),
                decreases nm - j,
            {
                let m = &sc.metrics[j];
                let ok = check_metric_wf(m);
                proof {
                    assert(sc@.metrics[j as int] == sc.metrics@[j as int]@);
                }
                if !ok {
                    proof {
                        assert(self@.scopes[i as int] == self.scopes@[i as int]@);
                        assert(!spec_scope_wf(self@.scopes[i as int]));
                    }
                    return false;
                }
                j = j + 1;
            }
            proof {
                assert(self@.scopes[i as int] == self.scopes@[i as int]@);
                assert(spec_scope_wf(self@.scopes[i as int]));
            }
            i = i + 1;
        }
        true
    }
}

/// True when one metric meets the renderer's input contract.
fn check_metric_wf(m: &Metric) -> (r: bool)
    ensures
        r == spec_metric_wf(m@),
{
    match &m.data {
        MetricData::Gauge(_) => true,
        MetricData::Sum(s) => matches!(s.temporality, Temporality::Cumulative),
        MetricData::Histogram(h) => {
            let np = h.data_points.len();
            let mut k: usize = 0;
            let mut all_ok = true;
            while k < np
                invariant
                    np == h.data_points@.len(),
                    k <= np,
                    all_ok == forall|t: int|
                        0 <= t < k ==> spec_hist_point_wf(
                            #[trigger] crate::text::seq_views(h.data_points@)[t],
                        ),
                decreases np - k,
            {
                let p = &h.data_points[k];
                let sum_ok = check_counts_sum(&p.bucket_counts);
                proof {
                    assert(crate::text::seq_views(h.data_points@)[k as int] == h.data_points@[k as int]@);
                }
                all_ok = all_ok && sum_ok;
                k = k + 1;
            }
            proof {
                assert(m@.data == MetricDataV::Histogram(
                    HistogramDataV {
                        data_points: crate::text::seq_views(h.data_points@),
                        temporality: h.temporality,
                    },
                ));
                assert(all_ok == spec_metric_wf(m@));
            }
            all_ok
        },
    }
}

/// True when the counts sum within the `u64` range.
fn check_counts_sum(counts: &Vec<u64>) -> (r: bool)
    ensures
        r == (spec_count_sum(counts@, counts@.len() as int) <= u64::MAX),
{
    let n = counts.len();
    let mut acc: u64 = 0;
    let mut i: usize = 0;
    while i < n
        invariant
            n == counts@.len(),
            i <= n,
            acc == spec_count_sum(counts@, i as int),
        decreases n - i,
    {
        let c = counts[i];
        if u64::MAX - acc < c {
            proof {
                lemma_count_sum_mono(counts@, i + 1 as int, n as int);
            }
            return false;
        }
        acc = acc + c;
        i = i + 1;
    }
    true
}

} // verus!
