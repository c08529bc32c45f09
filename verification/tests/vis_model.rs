//! Tests of the visualization model: identifiers, series naming, chart
//! selection and the series file writers.

use mprobe::id::Id;
use mprobe::metrics::{Measurement, MetricValue};
use mprobe::vis::chart::{AxisType, Chart, Series};
use mprobe::vis::template::ChartView;
use mprobe::vis::writer::{ChartData, SeriesWriter};

#[test]
fn ids_count_up() {
    let mut counter: u64 = 1;
    assert_eq!(Id::next(&mut counter), Id(1));
    assert_eq!(Id::next(&mut counter), Id(2));
    assert_eq!(counter, 3);
}

#[test]
fn series_names_follow_the_id() {
    let series = Series::from(Id(7));
    assert_eq!(series.xs, "xs_7");
    assert_eq!(series.ys, "ys_7");
}

#[test]
fn yaxis_follows_the_first_value() {
    let dated = vec![Measurement { timestamp: 1, value: MetricValue::DateTime(1) }];
    let plain = vec![Measurement { timestamp: 1, value: MetricValue::Int64(5) }];
    assert_eq!(AxisType::yaxis(&dated), AxisType::Date);
    assert_eq!(AxisType::yaxis(&plain), AxisType::Linear);
    assert_eq!(AxisType::yaxis(&Vec::new()), AxisType::Linear);
}

#[test]
fn writer_write_chart_data() {
    let series = Series::new(String::from("xs"), String::from("ys"));
    let mut writer = SeriesWriter::new(series);

    writer.start();
    for v in ["1", "2", "3", "4", "5"] {
        writer.write(v, v);
    }
    let content = writer.end();

    let header = "let xs = new Array(5), ys = new Array(5);\n";
    let reserved = 67 + 2 * 2;
    let mut expected = String::from(header);
    expected.push_str(&" ".repeat(reserved - header.len()));
    expected.push('\n');
    for (i, v) in ["1", "2", "3", "4", "5"].iter().enumerate() {
        expected.push_str(&format!("xs[{i}] = \"{v}\"; ys[{i}] = {v};\n"));
    }
    assert_eq!(content, expected);
}

#[test]
fn data_write_chart_data() {
    let mut writer = ChartData::new(String::from("xs"), String::from("ys"));

    writer.start();
    for v in ["1", "2", "3", "4", "5"] {
        writer.write(v, v);
    }
    let content = writer.end();

    let header = "let xs = new Array(5), ys = new Array(5);\n";
    let reserved = 67 + 2 * 2;
    let mut expected = String::from(header);
    expected.push_str(&"\0".repeat(reserved - header.len()));
    expected.push('\n');
    for (i, v) in ["1", "2", "3", "4", "5"].iter().enumerate() {
        let idx = i + 1;
        expected.push_str(&format!("xs[{idx}] = {v}; ys[{idx}] = {v};\n"));
    }
    assert_eq!(content, expected);
}

fn chart_with_groups(id: u64, groups: Vec<&str>) -> Chart {
    Chart::new(
        Id(id),
        String::from("chart"),
        groups.into_iter().map(String::from).collect(),
        AxisType::Linear,
        Series::from(Id(id)),
        String::from("data.js"),
    )
}

#[test]
fn views_select_by_group_inclusion_and_exclusion() {
    let view = ChartView {
        name: String::from("Server status"),
        ingroup: vec![vec![String::from("serverStatus")]],
        exgroup: vec![vec![String::from("serverStatus"), String::from("wiredTiger")]],
        file_name: String::from("server-status.html"),
    };
    let charts = vec![
        chart_with_groups(1, vec!["serverStatus", "connections"]),
        chart_with_groups(2, vec!["serverStatus", "wiredTiger", "cache"]),
        chart_with_groups(3, vec!["replSetGetStatus"]),
    ];
    assert_eq!(view.select(&charts), vec![0]);

    let everything = ChartView {
        name: String::from("WiredTiger"),
        ingroup: vec![vec![String::from("serverStatus"), String::from("wiredTiger")]],
        exgroup: Vec::new(),
        file_name: String::from("wiredtiger.html"),
    };
    assert_eq!(everything.select(&charts), vec![1]);
}
