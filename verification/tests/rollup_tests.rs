use lingo::{
    convert_color, date_range, extract_filetype, get_extensions, get_max_date, get_min_date,
    name_order, rollup_data, rollup_date, sum_total, ByteTotals, DateTotals, LingoError,
};

const TS: usize = 0;
const JS: usize = 1;

fn totals_with(entries: &[(usize, u64)]) -> ByteTotals {
    let n = get_extensions().len();
    let mut t = ByteTotals::new(n);
    for &(i, bytes) in entries {
        t.record(i, bytes);
    }
    t
}

#[test]
fn registry_holds_the_sixteen_languages() {
    let langs = get_extensions();
    assert_eq!(langs.len(), 16);
    assert_eq!(langs[0].name, "Typescript");
    assert_eq!(langs[0].extensions, vec!["ts".to_string(), "tsx".to_string()]);
    assert_eq!(langs[0].color, "#7f0000");
    assert_eq!(langs[8].name, "Rust");
    assert_eq!(langs[15].name, "SQL");
}

#[test]
fn name_order_sorts_registry_indices_by_name() {
    let langs = get_extensions();
    let order = name_order(&langs);
    let expected: Vec<usize> = vec![12, 5, 14, 9, 13, 6, 1, 7, 3, 11, 10, 8, 15, 4, 2, 0];
    assert_eq!(order, expected);
    let mut sorted_names: Vec<String> = langs.iter().map(|l| l.name.clone()).collect();
    sorted_names.sort();
    let arranged: Vec<String> = order.iter().map(|&i| langs[i].name.clone()).collect();
    assert_eq!(arranged, sorted_names);
}

#[test]
fn classification_is_by_extension() {
    let langs = get_extensions();
    assert_eq!(extract_filetype("src/main.rs", &langs), Some(8));
    assert_eq!(extract_filetype("a/b.tsx", &langs), Some(TS));
    assert_eq!(extract_filetype("x.htm", &langs), Some(13));
    assert_eq!(extract_filetype("noext", &langs), None);
    assert_eq!(extract_filetype(".gitignore", &langs), None);
    assert_eq!(extract_filetype("f.xyz", &langs), None);
    assert_eq!(extract_filetype("archive.tar.gz", &langs), None);
    assert_eq!(extract_filetype("dir.rs/readme", &langs), None);
}

#[test]
fn shares_sum_to_the_whole_and_cumulative_is_running() {
    let langs = get_extensions();
    let order = name_order(&langs);
    let t = totals_with(&[(TS, 1000), (JS, 1000)]);
    let emissions = rollup_date(&t, &order);
    assert_eq!(emissions.len(), 2);
    // Javascript sorts before Typescript by name
    assert_eq!(emissions[0].language, JS);
    assert_eq!(emissions[0].prevalence.bytes, 1000);
    assert_eq!(emissions[0].prevalence.cumulative_bytes, 1000);
    assert_eq!(emissions[0].prevalence.total_bytes, 2000);
    assert_eq!(emissions[1].language, TS);
    assert_eq!(emissions[1].prevalence.bytes, 1000);
    assert_eq!(emissions[1].prevalence.cumulative_bytes, 2000);
    assert_eq!(emissions[1].prevalence.total_bytes, 2000);
    // in percentage terms: 50% / 50% cumulative, then 50% / 100%
    let pct0 = emissions[0].prevalence.bytes as f64 / emissions[0].prevalence.total_bytes as f64
        * 100.0;
    let cum1 = emissions[1].prevalence.cumulative_bytes as f64
        / emissions[1].prevalence.total_bytes as f64 * 100.0;
    assert!((pct0 - 50.0).abs() < 1e-6);
    assert!((cum1 - 100.0).abs() < 1e-6);
    // the emitted byte counts sum to the date's total
    let sum: u128 = emissions.iter().map(|e| e.prevalence.bytes as u128).sum();
    assert_eq!(sum, emissions[0].prevalence.total_bytes);
}

#[test]
fn uneven_shares_keep_cumulative_nondecreasing_and_complete() {
    let langs = get_extensions();
    let order = name_order(&langs);
    let t = totals_with(&[(TS, 1), (JS, 2), (8, 4), (11, 8)]);
    let emissions = rollup_date(&t, &order);
    assert_eq!(emissions.len(), 4);
    let mut prev = 0u128;
    for e in &emissions {
        assert!(e.prevalence.cumulative_bytes >= prev);
        prev = e.prevalence.cumulative_bytes;
        assert_eq!(e.prevalence.total_bytes, 15);
    }
    assert_eq!(emissions.last().unwrap().prevalence.cumulative_bytes, 15);
}

#[test]
fn zero_total_date_emits_nothing() {
    let langs = get_extensions();
    let order = name_order(&langs);
    let empty = ByteTotals::new(langs.len());
    assert_eq!(rollup_date(&empty, &order).len(), 0);
    // even an observed language with a zero count leaves the total zero
    let mut t = ByteTotals::new(langs.len());
    t.record(TS, 0);
    assert!(t.observed[TS]);
    assert_eq!(rollup_date(&t, &order).len(), 0);
    // and such a date is absent from every series of the rollup
    let data = vec![
        DateTotals { date: 1, totals: t },
        DateTotals { date: 2, totals: totals_with(&[(JS, 10)]) },
    ];
    let series = rollup_data(&data, &langs, &order);
    assert_eq!(series.series.len(), 1);
    assert_eq!(series.series[0].language, JS);
    assert_eq!(series.series[0].points.len(), 1);
    assert_eq!(series.series[0].points[0].date, 2);
}

#[test]
fn rollup_reshapes_into_per_language_series_in_name_order() {
    let langs = get_extensions();
    let order = name_order(&langs);
    let data = vec![
        DateTotals { date: 10, totals: totals_with(&[(TS, 1000), (JS, 1000)]) },
        DateTotals { date: 11, totals: totals_with(&[(TS, 3000)]) },
    ];
    let ts = rollup_data(&data, &langs, &order);
    assert_eq!(ts.series.len(), 2);
    // Javascript first in name order
    assert_eq!(ts.series[0].language, JS);
    assert_eq!(ts.series[0].points.len(), 1);
    assert_eq!(ts.series[0].points[0].date, 10);
    assert_eq!(ts.series[0].points[0].prevalence.bytes, 1000);
    assert_eq!(ts.series[1].language, TS);
    assert_eq!(ts.series[1].points.len(), 2);
    assert_eq!(ts.series[1].points[0].date, 10);
    assert_eq!(ts.series[1].points[0].prevalence.cumulative_bytes, 2000);
    assert_eq!(ts.series[1].points[1].date, 11);
    assert_eq!(ts.series[1].points[1].prevalence.bytes, 3000);
    assert_eq!(ts.series[1].points[1].prevalence.cumulative_bytes, 3000);
    assert_eq!(ts.series[1].points[1].prevalence.total_bytes, 3000);
    // each date's computation is isolated: min and max span the inputs
    assert_eq!(get_min_date(&ts), Some(10));
    assert_eq!(get_max_date(&ts), Some(11));
}

#[test]
fn min_and_max_dates_of_empty_series_are_absent() {
    let langs = get_extensions();
    let order = name_order(&langs);
    let ts = rollup_data(&Vec::<DateTotals>::new(), &langs, &order);
    assert_eq!(ts.series.len(), 0);
    assert_eq!(get_min_date(&ts), None);
    assert_eq!(get_max_date(&ts), None);
}

#[test]
fn sum_total_is_exact_even_at_the_counter_ceiling() {
    assert_eq!(sum_total(&vec![]), 0);
    assert_eq!(sum_total(&vec![1, 2, 3]), 6);
    assert_eq!(
        sum_total(&vec![u64::MAX, u64::MAX]),
        2 * (u64::MAX as u128)
    );
}

#[test]
fn date_range_is_ascending_and_end_exclusive() {
    assert_eq!(date_range(0, 3), vec![0, 1, 2]);
    assert_eq!(date_range(5, 5), Vec::<i32>::new());
    assert_eq!(date_range(6, 2), Vec::<i32>::new());
    assert_eq!(date_range(-2, 1), vec![-2, -1, 0]);
}

#[test]
fn colors_decode_from_hash_hex() {
    assert_eq!(convert_color("#7f0000"), Some((0x7f, 0, 0)));
    assert_eq!(convert_color("#ADFF2F"), Some((0xad, 0xff, 0x2f)));
    assert_eq!(convert_color("#00ff7f"), Some((0, 0xff, 0x7f)));
    assert_eq!(convert_color("7f0000"), None);
    assert_eq!(convert_color("#7f000"), None);
    assert_eq!(convert_color("#7g0000"), None);
    assert_eq!(convert_color(""), None);
}

#[test]
fn error_text_names_the_unreadable_path() {
    assert_eq!(LingoError::InvalidPath.message(), "Could not read path");
    assert_eq!(LingoError::InvalidPath, LingoError::InvalidPath);
}
