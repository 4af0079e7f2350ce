use ottotom::attrs::{hash_attrs, write_attrs, Attr};
use ottotom::convert::{get_type, make_scope_name_attrs, write_otel_scope_info, write_values};
use ottotom::escape::{unescape_value, write_escaped};
use ottotom::model::{
    GaugeData, HistogramData, HistogramDataPoint, Metric, MetricData, MetricValue,
    NumberDataPoint, ScopeMetrics, SumData, Temporality,
};
use ottotom::sanitize::write_sanitized_name;

fn attr(key: &str, value: &str) -> Attr {
    Attr::new(key, value)
}

fn gauge_point(value: MetricValue, time: &str, attrs: Vec<Attr>) -> NumberDataPoint {
    NumberDataPoint {
        value,
        time: String::from(time),
        start_time: None,
        attributes: attrs,
    }
}

#[test]
fn test_write_sanitized_name() {
    let mut output = String::new();

    // Test with valid name
    write_sanitized_name(&mut output, "valid_metric_name");
    assert_eq!(output, "valid_metric_name");

    // Test with name containing invalid characters
    output.clear();
    write_sanitized_name(&mut output, "invalid._√§.metric-name");
    assert_eq!(output, "invalid_metric_name");

    // Test with name starting with digit
    output.clear();
    write_sanitized_name(&mut output, "1.metric");
    assert_eq!(output, "_1_metric");
}

#[test]
fn test_write_escaped() {
    let mut output = String::new();

    // Test with string containing characters that need escaping
    write_escaped(
        &mut output,
        "Line 1\nLine 2\tTabbed\r\nWindows \"quoted\" \\ BS ‚ù§Ô∏è‚Äçü©π",
    );
    assert_eq!(
        output,
        "Line 1\\nLine 2\tTabbed\r\\nWindows \\\"quoted\\\" \\\\ BS ‚ù§Ô∏è‚Äçü©π"
    );

    // Unescaping recovers the original bytes
    let original = "Line 1\nLine 2\tTabbed\r\nWindows \"quoted\" \\ BS ‚ù§Ô∏è‚Äçü©π";
    let recovered = unescape_value(&output);
    assert_eq!(recovered, original);

    // Test with string not needing escaping
    output.clear();
    write_escaped(&mut output, "Simple string");
    assert_eq!(output, "Simple string");
}

#[test]
fn test_hash_attrs() {
    let attrs = vec![attr("key1", "value1"), attr("key2", "value2")];

    let hash1 = hash_attrs(&attrs);

    // Same attributes should produce same hash, order does not matter
    let attrs2 = vec![attr("key2", "value2"), attr("key1", "value1")];
    let hash2 = hash_attrs(&attrs2);

    assert_eq!(hash1, hash2);

    // Different attributes should produce different hash
    let attrs3 = vec![attr("key1", "value1"), attr("key2", "different")];
    let hash3 = hash_attrs(&attrs3);

    assert_ne!(hash1, hash3);
}

#[test]
fn test_write_attrs() {
    let mut output = String::new();
    let attrs = vec![attr("key1", "value1"), attr("key2", "value2")];

    write_attrs(&mut output, &attrs);
    assert_eq!(output, "key1=\"value1\",key2=\"value2\"");

    // Input order does not matter: entries come out sorted by key
    output.clear();
    let reversed = vec![attr("key2", "value2"), attr("key1", "value1")];
    write_attrs(&mut output, &reversed);
    assert_eq!(output, "key1=\"value1\",key2=\"value2\"");

    // Test with attributes containing characters that need escaping
    output.clear();
    let attrs_with_escapes = vec![
        attr("key1", "value\nwith\nnewlines"),
        attr("key2", "value\"with\"quotes"),
    ];

    write_attrs(&mut output, &attrs_with_escapes);
    assert_eq!(
        output,
        "key1=\"value\\nwith\\nnewlines\",key2=\"value\\\"with\\\"quotes\""
    );
}

#[test]
fn test_make_scope_name_attrs() {
    let scope_name = "test_scope";

    let present = make_scope_name_attrs(scope_name, true);
    assert!(present.is_some());
    if let Some(kv) = present {
        assert_eq!(kv.key, "otel_scope_name");
        assert_eq!(kv.value, "test_scope");
    }

    let absent = make_scope_name_attrs(scope_name, false);
    assert!(absent.is_none());
}

fn sample_metric_data() -> Vec<MetricData> {
    vec![
        MetricData::Gauge(GaugeData {
            data_points: vec![gauge_point(
                MetricValue::Float(String::from("4.2")),
                "1625097600",
                vec![attr("kk", "v1")],
            )],
        }),
        MetricData::Sum(SumData {
            data_points: vec![gauge_point(
                MetricValue::Uint(125),
                "1625097600",
                vec![attr("kk", "v1")],
            )],
            monotonic: true,
            temporality: Temporality::Cumulative,
        }),
        MetricData::Histogram(HistogramData {
            data_points: vec![HistogramDataPoint {
                count: 3,
                sum: MetricValue::Float(String::from("125")),
                min: None,
                max: None,
                bounds: vec![String::from("25")],
                bucket_counts: vec![2],
                time: String::from("1625097600"),
                start_time: String::from("1625097500"),
                attributes: vec![attr("kk", "v1")],
            }],
            temporality: Temporality::Cumulative,
        }),
    ]
}

#[test]
fn test_get_type() {
    for data in sample_metric_data() {
        let result = get_type(&data);
        assert!(result.is_ok());

        // Check that the type is one of the expected values
        let type_str = result.unwrap();
        assert!(
            type_str == "gauge" || type_str == "counter" || type_str == "histogram",
            "Unexpected metric type: {}",
            type_str
        );
    }
}

#[test]
fn test_get_type_rejects_delta_histogram() {
    let data = MetricData::Histogram(HistogramData {
        data_points: vec![],
        temporality: Temporality::Delta,
    });
    assert!(get_type(&data).is_err());
}

#[test]
fn test_write_values() {
    let names = ["mygauge", "mycounter", "myhistogram"];
    for (name, data) in names.iter().zip(sample_metric_data()) {
        let mut output = String::new();
        write_values(&mut output, name, &data, &None, false);

        assert!(!output.is_empty());
        assert!(output.contains(name));
    }
}

#[test]
fn test_write_gauge() {
    let attrs1 = vec![attr("kk", "v1")];
    let attrs2 = vec![attr("kk", "v2")];
    let line1 = "mygauge{kk=\"v1\"} 4.2 <TIMESTAMP>\n";
    let line2 = "mygauge{kk=\"v2\"} 4.23 <TIMESTAMP>\n";
    let expected = if hash_attrs(&attrs1) <= hash_attrs(&attrs2) {
        format!("{}{}", line1, line2)
    } else {
        format!("{}{}", line2, line1)
    };

    let data = MetricData::Gauge(GaugeData {
        data_points: vec![
            gauge_point(
                MetricValue::Float(String::from("4.2")),
                "1625097600",
                vec![attr("kk", "v1")],
            ),
            gauge_point(
                MetricValue::Float(String::from("4.23")),
                "1625097600",
                vec![attr("kk", "v2")],
            ),
        ],
    });
    let mut output = String::new();
    write_values(&mut output, "mygauge", &data, &None, false);
    let output = output.replace("1625097600", "<TIMESTAMP>");
    assert_eq!(output, expected);
}

#[test]
fn test_write_counter() {
    let data = MetricData::Sum(SumData {
        data_points: vec![gauge_point(
            MetricValue::Uint(125),
            "1625097600",
            vec![attr("kk", "v1")],
        )],
        monotonic: true,
        temporality: Temporality::Cumulative,
    });
    let mut output = String::new();
    write_values(&mut output, "mycounter", &data, &None, false);
    let output = output.replace("1625097600", "<TIMESTAMP>");
    assert_eq!(output, "mycounter_total{kk=\"v1\"} 125 <TIMESTAMP>\n");
}

#[test]
fn test_write_histogram() {
    let data = MetricData::Histogram(HistogramData {
        data_points: vec![HistogramDataPoint {
            count: 3,
            sum: MetricValue::Float(String::from("125")),
            min: None,
            max: None,
            bounds: vec![String::from("25")],
            bucket_counts: vec![2],
            time: String::from("1625097600"),
            start_time: String::from("1625097500"),
            attributes: vec![attr("kk", "v1")],
        }],
        temporality: Temporality::Cumulative,
    });
    let mut output = String::new();
    write_values(&mut output, "myhistogram", &data, &None, false);
    let output = output.replace("1625097600", "<TIMESTAMP>");
    let output = output.replace("1625097500", "<START_TIMESTAMP>");
    assert_eq!(
        output,
        "myhistogram_created{kk=\"v1\"} <START_TIMESTAMP> <TIMESTAMP>\n\
         myhistogram_count{kk=\"v1\"} 3 <TIMESTAMP>\n\
         myhistogram_sum{kk=\"v1\"} 125 <TIMESTAMP>\n\
         myhistogram_bucket{kk=\"v1\",le=\"25\"} 2 <TIMESTAMP>\n\
         myhistogram_bucket{kk=\"v1\",le=\"+Inf\"} 3 <TIMESTAMP>\n"
    );
}

#[test]
fn test_write_histogram_min_max() {
    let data = MetricData::Histogram(HistogramData {
        data_points: vec![HistogramDataPoint {
            count: 2,
            sum: MetricValue::Float(String::from("30")),
            min: Some(MetricValue::Float(String::from("5"))),
            max: Some(MetricValue::Float(String::from("25"))),
            bounds: vec![],
            bucket_counts: vec![],
            time: String::from("1625097600"),
            start_time: String::from("1625097500"),
            attributes: vec![],
        }],
        temporality: Temporality::Cumulative,
    });
    let mut output = String::new();
    write_values(&mut output, "h", &data, &None, true);
    assert!(output.contains("h_min{} 5 1625097600\n"));
    assert!(output.contains("h_max{} 25 1625097600\n"));
}

#[test]
fn test_write_otel_scope_info() {
    let scopes = vec![ScopeMetrics {
        name: String::from("meter.1"),
        version: Some(String::from("v0.1.0")),
        attributes: vec![attr("fruit", "apple")],
        metrics: vec![],
    }];

    let mut output = String::new();
    write_otel_scope_info(&mut output, &scopes);

    assert!(output.contains("# TYPE otel_scope info"));
    assert!(output.contains("otel_scope_info{"));
    assert!(output.contains("otel_scope_name=\"meter.1\""));
}

#[test]
fn histogram_bucket_counts_are_cumulative() {
    let data = MetricData::Histogram(HistogramData {
        data_points: vec![HistogramDataPoint {
            count: 6,
            sum: MetricValue::Uint(57),
            min: None,
            max: None,
            bounds: vec![String::from("1"), String::from("5"), String::from("10")],
            bucket_counts: vec![3, 0, 2],
            time: String::from("7"),
            start_time: String::from("5"),
            attributes: vec![],
        }],
        temporality: Temporality::Cumulative,
    });
    let mut output = String::new();
    write_values(&mut output, "h", &data, &None, false);
    // per-bucket counts 3, 0, 2 render as the running sums 3, 3, 5, and
    // the final bucket holds the point's own total count
    assert!(output.contains("h_bucket{le=\"1\"} 3 7\n"));
    assert!(output.contains("h_bucket{le=\"5\"} 3 7\n"));
    assert!(output.contains("h_bucket{le=\"10\"} 5 7\n"));
    assert!(output.contains("h_bucket{le=\"+Inf\"} 6 7\n"));
}

#[test]
fn metric_with_unit_gets_suffix_and_unit_line() {
    let metric = Metric {
        name: String::from("speed"),
        description: String::from("how fast"),
        unit: String::from("m/s"),
        data: MetricData::Gauge(GaugeData {
            data_points: vec![gauge_point(MetricValue::Uint(3), "1", vec![])],
        }),
    };
    let mut output = String::new();
    ottotom::convert::write_metric(&mut output, &metric, &None, false);
    assert_eq!(
        output,
        "# TYPE speed_meters_per_second gauge\n\
         # UNIT speed_meters_per_second meters_per_second\n\
         # HELP speed_meters_per_second how fast\n\
         speed_meters_per_second{} 3 1\n"
    );
}
