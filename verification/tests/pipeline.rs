use openmetrics_parser::openmetrics::parse_openmetrics;
use ottotom::attrs::Attr;
use ottotom::convert::{RenderConfig, WriteOpenMetrics};
use ottotom::exporter::BufferPair;
use ottotom::model::{
    GaugeData, HistogramData, HistogramDataPoint, Metric, MetricData, MetricValue,
    MetricsSnapshot, NumberDataPoint, ScopeMetrics, SumData, Temporality,
};

fn attr(key: &str, value: &str) -> Attr {
    Attr::new(key, value)
}

fn number_point(value: MetricValue, attrs: Vec<Attr>) -> NumberDataPoint {
    NumberDataPoint {
        value,
        time: String::from("1625097600"),
        start_time: None,
        attributes: attrs,
    }
}

fn make_test_metrics() -> MetricsSnapshot {
    MetricsSnapshot {
        resource: vec![attr("service.name", "tester")],
        scopes: vec![
            ScopeMetrics {
                name: String::from("meter.2"),
                version: None,
                attributes: vec![],
                metrics: vec![Metric {
                    name: String::from("mygauge"),
                    description: String::from("a gauge"),
                    unit: String::new(),
                    data: MetricData::Gauge(GaugeData {
                        data_points: vec![
                            number_point(
                                MetricValue::Float(String::from("4.2")),
                                vec![attr("kk", "v1")],
                            ),
                            number_point(
                                MetricValue::Float(String::from("4.23")),
                                vec![attr("kk", "v2")],
                            ),
                        ],
                    }),
                }],
            },
            ScopeMetrics {
                name: String::from("meter.1"),
                version: Some(String::from("v0.1.0")),
                attributes: vec![],
                metrics: vec![
                    Metric {
                        name: String::from("mycounter"),
                        description: String::from("a counter"),
                        unit: String::new(),
                        data: MetricData::Sum(SumData {
                            data_points: vec![number_point(MetricValue::Uint(125), vec![
                                attr("kk", "v1"),
                            ])],
                            monotonic: true,
                            temporality: Temporality::Cumulative,
                        }),
                    },
                    Metric {
                        name: String::from("myhistogram"),
                        description: String::new(),
                        unit: String::new(),
                        data: MetricData::Histogram(HistogramData {
                            data_points: vec![HistogramDataPoint {
                                count: 3,
                                sum: MetricValue::Float(String::from("175")),
                                min: None,
                                max: None,
                                bounds: vec![String::from("25"), String::from("100")],
                                bucket_counts: vec![2, 1],
                                time: String::from("1625097600"),
                                start_time: String::from("1625097500"),
                                attributes: vec![attr("kk", "v1")],
                            }],
                            temporality: Temporality::Cumulative,
                        }),
                    },
                ],
            },
        ],
    }
}

#[test]
fn matches_snapshot() {
    let metrics = make_test_metrics();
    let cfg = RenderConfig::plain();
    let formatted = metrics.to_openmetrics_string(&cfg);
    let formatted = formatted.replace("1625097600", "<TIMESTAMP_0>");
    let formatted = formatted.replace("1625097500", "<TIMESTAMP_1>");
    // scopes come out sorted by name, metrics sorted within each scope
    assert_eq!(
        formatted,
        "# TYPE mycounter counter\n\
         # HELP mycounter a counter\n\
         mycounter_total{kk=\"v1\"} 125 <TIMESTAMP_0>\n\
         # TYPE myhistogram histogram\n\
         myhistogram_created{kk=\"v1\"} <TIMESTAMP_1> <TIMESTAMP_0>\n\
         myhistogram_count{kk=\"v1\"} 3 <TIMESTAMP_0>\n\
         myhistogram_sum{kk=\"v1\"} 175 <TIMESTAMP_0>\n\
         myhistogram_bucket{kk=\"v1\",le=\"25\"} 2 <TIMESTAMP_0>\n\
         myhistogram_bucket{kk=\"v1\",le=\"100\"} 3 <TIMESTAMP_0>\n\
         myhistogram_bucket{kk=\"v1\",le=\"+Inf\"} 3 <TIMESTAMP_0>\n\
         # TYPE mygauge gauge\n\
         # HELP mygauge a gauge\n\
         mygauge{kk=\"v1\"} 4.2 <TIMESTAMP_0>\n\
         mygauge{kk=\"v2\"} 4.23 <TIMESTAMP_0>\n\
         # EOF\n"
    );
}

#[test]
pub fn test_output_is_parseable_by_openmetrics_parser() {
    let metrics = make_test_metrics();

    let cfg = RenderConfig::plain();
    let formatted = metrics.to_openmetrics_string(&cfg);
    println!("{}", &formatted);

    let parsed = parse_openmetrics(&formatted);

    assert!(parsed.is_ok(), "parse failed: {:?}", parsed.err());
}

#[test]
fn rendering_twice_is_byte_identical() {
    let metrics = make_test_metrics();
    let cfg = RenderConfig::plain();
    let once = metrics.to_openmetrics_string(&cfg);
    let twice = metrics.to_openmetrics_string(&cfg);
    assert_eq!(once, twice);
}

#[test]
fn rendering_is_order_invariant() {
    let cfg = RenderConfig::plain();

    // the same snapshot with scopes, metrics, data points, and attribute
    // pairs permuted
    let mut permuted = make_test_metrics();
    permuted.scopes.reverse();
    permuted.scopes[0].metrics.reverse();
    match &mut permuted.scopes[1].metrics[0].data {
        MetricData::Gauge(g) => {
            g.data_points.reverse();
            for p in g.data_points.iter_mut() {
                p.attributes.push(attr("extra", "x"));
                p.attributes.reverse();
            }
        }
        _ => panic!("expected the gauge"),
    }

    let mut reference = make_test_metrics();
    match &mut reference.scopes[0].metrics[0].data {
        MetricData::Gauge(g) => {
            for p in g.data_points.iter_mut() {
                p.attributes.push(attr("extra", "x"));
            }
        }
        _ => panic!("expected the gauge"),
    }

    assert_eq!(
        reference.to_openmetrics_string(&cfg),
        permuted.to_openmetrics_string(&cfg)
    );
}

#[test]
fn document_ends_with_eof_line() {
    let cfg = RenderConfig::plain();
    let empty = MetricsSnapshot { resource: vec![], scopes: vec![] };
    assert_eq!(empty.to_openmetrics_string(&cfg), "# EOF\n");

    let metrics = make_test_metrics();
    assert!(metrics.to_openmetrics_string(&cfg).ends_with("# EOF\n"));
}

#[test]
fn scope_info_adds_target_and_scope_lines() {
    let metrics = make_test_metrics();
    let cfg = RenderConfig { scope_info: true, histogram_min_max: false };
    let formatted = metrics.to_openmetrics_string(&cfg);
    assert!(formatted.contains("# TYPE target info\n"));
    assert!(formatted.contains("target_info{"));
    assert!(formatted.contains("# TYPE otel_scope info\n"));
    assert!(formatted.contains("otel_scope_name=\"meter.1\""));
    assert!(formatted.contains("otel_scope_name=\"meter.2\""));
}

#[test]
fn check_wf_rejects_delta_sums() {
    let snapshot = MetricsSnapshot {
        resource: vec![],
        scopes: vec![ScopeMetrics {
            name: String::from("s"),
            version: None,
            attributes: vec![],
            metrics: vec![Metric {
                name: String::from("m"),
                description: String::new(),
                unit: String::new(),
                data: MetricData::Sum(SumData {
                    data_points: vec![],
                    monotonic: true,
                    temporality: Temporality::Delta,
                }),
            }],
        }],
    };
    assert!(!snapshot.check_wf());
    assert!(make_test_metrics().check_wf());
}

#[test]
fn exporter_exports() {
    let mut buffers = BufferPair::new();
    assert_eq!(buffers.read(), "");

    let metrics = make_test_metrics();
    let cfg = RenderConfig::plain();
    buffers.publish(&metrics, &cfg);
    let text = buffers.read();
    assert!(text.contains("# TYPE mygauge"));
    assert!(text.ends_with("# EOF\n"));

    // flushing and shutting down are no-ops that must report success
    assert!(buffers.force_flush().is_ok());
    assert!(buffers.shutdown().is_ok());
}
