use rec::{detail_lines, summary_lines, DirEntryInfo, DirInfo, ExtStat, ExtStats};

fn info(path: &str, n: u32, size: u64) -> DirInfo {
    DirInfo {
        path_processed: path.to_string(),
        total_numbers: n,
        total_size: size,
        top_files: Vec::new(),
        ext_stats: None,
    }
}

#[test]
fn detail_report_lines() {
    let d = DirInfo {
        path_processed: "src".to_string(),
        total_numbers: 1234,
        total_size: 4511,
        top_files: vec![
            DirEntryInfo { path: "src/b.txt".to_string(), size: 2000 },
            DirEntryInfo { path: "src/d.bin".to_string(), size: 2000 },
        ],
        ext_stats: Some(ExtStats {
            top_by_ext: vec![ExtStat { ext: "txt".to_string(), size: 2010 }],
            others_size: 2500,
        }),
    };
    let lines = detail_lines(&d, 1);
    let expected = vec![
        "==== Directory info on 'src'",
        "",
        "Number of files: 1,234",
        "     Total size:   4.5 KB",
        "",
        "== Top 1 biggest size by extension",
        "  2.0 KB - txt",
        "  2.5 KB - (others)",
        "",
        "== Top 2 biggest files",
        "  2.0 KB - src/b.txt",
        "  2.0 KB - src/d.bin",
        "",
        "=====",
    ];
    assert_eq!(lines, expected);
}

#[test]
fn detail_report_without_breakdown_or_files() {
    let lines = detail_lines(&info("x", 0, 0), 5);
    let expected = vec![
        "==== Directory info on 'x'",
        "",
        "Number of files: 0",
        "     Total size:   0.000 KB",
        "",
        "=====",
    ];
    assert_eq!(lines, expected);
}

#[test]
fn summary_report_sorted_and_aligned() {
    let infos = vec![info("./zeta", 12345, 999_950), info("./a", 3, 512)];
    let lines = summary_lines(&infos);
    let expected = vec![
        "",
        "./a     -      3 files | total size:   0.512 KB",
        "./zeta  - 12,345 files | total size:     1.0 MB",
    ];
    assert_eq!(lines, expected);
}

#[test]
fn summary_report_empty() {
    assert!(summary_lines(&Vec::new()).is_empty());
}
