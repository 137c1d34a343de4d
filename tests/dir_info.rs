use rec::{
    compile_globs, glob_set_matches, parse_count, split_commas, Args, DirInfo, DirInfoProcessor,
    Error, Options, WalkEntry,
};

fn options(nums: usize, glob: Option<Vec<&str>>, no_ext: bool, summary: bool) -> Options {
    Options {
        paths: vec!["root".to_string()],
        nums,
        glob: glob.map(|g| g.into_iter().map(|s| s.to_string()).collect()),
        no_ext,
        summary,
    }
}

fn file(path: &str, size: u64) -> WalkEntry {
    WalkEntry {
        path: path.to_string(),
        is_file: true,
        is_symlink: false,
        size,
        path_is_text: true,
    }
}

fn feed(p: &mut DirInfoProcessor, entries: Vec<WalkEntry>) {
    for e in entries {
        if p.accepts(&e.path, e.is_file, e.is_symlink) {
            p.add_entry(e);
        }
    }
}

fn scenario_entries() -> Vec<WalkEntry> {
    vec![
        WalkEntry { path: "root/sub".to_string(), is_file: false, is_symlink: false, size: 0, path_is_text: true },
        file("root/a.txt", 10),
        file("root/b.txt", 2000),
        file("root/sub/c.log", 500),
        file("root/sub/d.bin", 2000),
        file("root/e", 1),
        WalkEntry { path: "root/link.txt".to_string(), is_file: true, is_symlink: true, size: 99, path_is_text: true },
    ]
}

fn run(opts: &Options, entries: Vec<WalkEntry>) -> DirInfo {
    let mut p = DirInfoProcessor::new("root", opts).unwrap();
    feed(&mut p, entries);
    p.finish()
}

#[test]
fn scenario_two_largest_with_ties() {
    let info = run(&options(2, None, false, false), scenario_entries());
    assert_eq!(info.path_processed, "root");
    assert_eq!(info.total_numbers, 5);
    assert_eq!(info.total_size, 4511);
    let sizes: Vec<u64> = info.top_files.iter().map(|e| e.size).collect();
    assert_eq!(sizes, vec![2000, 2000]);
    let paths: Vec<&str> = info.top_files.iter().map(|e| e.path.as_str()).collect();
    assert_eq!(paths, vec!["root/b.txt", "root/sub/d.bin"]);
    let st = info.ext_stats.unwrap();
    let exts: Vec<(&str, u64)> = st.top_by_ext.iter().map(|e| (e.ext.as_str(), e.size)).collect();
    assert_eq!(exts, vec![("txt", 2010), ("bin", 2000)]);
    assert_eq!(st.others_size, 500);
}

#[test]
fn scenario_extension_top_one() {
    let info = run(&options(1, None, false, false), scenario_entries());
    let st = info.ext_stats.unwrap();
    assert_eq!(st.top_by_ext.len(), 1);
    assert_eq!(st.top_by_ext[0].ext, "txt");
    assert_eq!(st.top_by_ext[0].size, 2010);
    assert_eq!(st.others_size, 2500);
}

#[test]
fn scenario_summary_only() {
    let info = run(&options(5, None, false, true), scenario_entries());
    assert_eq!(info.total_numbers, 5);
    assert_eq!(info.total_size, 4511);
    assert!(info.top_files.is_empty());
    assert!(info.ext_stats.is_none());
}

#[test]
fn scenario_glob_matches_nothing() {
    let info = run(&options(5, Some(vec!["*.none"]), false, false), scenario_entries());
    assert_eq!(info.total_numbers, 0);
    assert_eq!(info.total_size, 0);
    assert!(info.top_files.is_empty());
    let st = info.ext_stats.unwrap();
    assert!(st.top_by_ext.is_empty());
    assert_eq!(st.others_size, 0);
}

#[test]
fn glob_filter_counts_only_matches() {
    let info = run(&options(5, Some(vec!["*.txt", "**/*.log"]), false, false), scenario_entries());
    assert_eq!(info.total_numbers, 3);
    assert_eq!(info.total_size, 2510);
}

#[test]
fn no_ext_leaves_breakdown_out() {
    let info = run(&options(5, None, true, false), scenario_entries());
    assert!(info.ext_stats.is_none());
    assert_eq!(info.top_files.len(), 5);
}

#[test]
fn invalid_glob_fails_before_traversal() {
    let r = DirInfoProcessor::new("root", &options(5, Some(vec!["*.txt", "a[b"]), false, false));
    assert!(matches!(r, Err(Error::Glob(_))));
}

#[test]
fn path_not_text_is_counted_but_not_listed() {
    let mut e = file("root/odd.dat", 700);
    e.path_is_text = false;
    let mut p = DirInfoProcessor::new("root", &options(5, None, false, false)).unwrap();
    feed(&mut p, vec![e, file("root/x.dat", 5)]);
    assert_eq!(p.unlisted_paths(), 1);
    let info = p.finish();
    assert_eq!(info.total_numbers, 2);
    assert_eq!(info.total_size, 705);
    assert_eq!(info.top_files.len(), 1);
    assert_eq!(info.top_files[0].path, "root/x.dat");
    let st = info.ext_stats.unwrap();
    assert_eq!(st.top_by_ext[0].ext, "dat");
    assert_eq!(st.top_by_ext[0].size, 705);
}

#[test]
fn extension_is_after_last_dot_of_file_name() {
    let info = run(
        &options(5, None, false, false),
        vec![file("root/archive.tar.gz", 30), file("root/.hidden", 4), file("root/dir.d/readme", 8)],
    );
    let st = info.ext_stats.unwrap();
    let exts: Vec<(&str, u64)> = st.top_by_ext.iter().map(|e| (e.ext.as_str(), e.size)).collect();
    assert_eq!(exts, vec![("gz", 30)]);
}

#[test]
fn processor_totals_while_running() {
    let mut p = DirInfoProcessor::new("root", &options(5, None, false, false)).unwrap();
    feed(&mut p, scenario_entries());
    assert_eq!(p.total_numbers(), 5);
    assert_eq!(p.total_size(), 4511);
}

#[test]
fn compiled_globs_match() {
    let set = compile_globs(&vec!["*.rs".to_string()]).unwrap();
    assert!(glob_set_matches(&set, "src/lib.rs"));
    assert!(!glob_set_matches(&set, "src/lib.txt"));
    assert!(compile_globs(&vec!["{a".to_string()]).is_err());
}

#[test]
fn parse_count_values() {
    assert_eq!(parse_count("42"), Some(42));
    assert_eq!(parse_count("+7"), Some(7));
    assert_eq!(parse_count("0"), Some(0));
    assert_eq!(parse_count(""), None);
    assert_eq!(parse_count("+"), None);
    assert_eq!(parse_count("-1"), None);
    assert_eq!(parse_count("1x"), None);
    assert_eq!(parse_count("18446744073709551615"), Some(usize::MAX));
    assert_eq!(parse_count("18446744073709551616"), None);
}

#[test]
fn split_commas_keeps_empty_pieces() {
    assert_eq!(split_commas("*.rs,*.md"), vec!["*.rs".to_string(), "*.md".to_string()]);
    assert_eq!(split_commas("a,,b"), vec!["a".to_string(), String::new(), "b".to_string()]);
    assert_eq!(split_commas(""), vec![String::new()]);
}

fn args(paths: Vec<&str>, nums: Option<&str>, glob: Option<&str>) -> Args {
    Args {
        paths: paths.into_iter().map(|s| s.to_string()).collect(),
        nums: nums.map(|s| s.to_string()),
        glob: glob.map(|s| s.to_string()),
        no_ext: false,
        summary: true,
    }
}

#[test]
fn from_args_defaults() {
    let o = Options::from_args(args(vec![], None, None)).unwrap();
    assert_eq!(o.paths, vec!["./".to_string()]);
    assert_eq!(o.nums, 5);
    assert!(o.glob.is_none());
    assert!(!o.no_ext);
    assert!(o.summary);
}

#[test]
fn from_args_given_values() {
    let o = Options::from_args(args(vec!["a", "b"], Some("12"), Some("*.rs,*.toml"))).unwrap();
    assert_eq!(o.paths, vec!["a".to_string(), "b".to_string()]);
    assert_eq!(o.nums, 12);
    assert_eq!(o.glob, Some(vec!["*.rs".to_string(), "*.toml".to_string()]));
}

#[test]
fn from_args_bad_count() {
    let r = Options::from_args(args(vec![], Some("ten"), None));
    match r {
        Err(Error::InvalidNumberOfFiles(s)) => assert_eq!(s, "ten"),
        _ => panic!("expected an invalid count"),
    }
}

#[test]
fn zero_byte_files_are_never_listed() {
    let info = run(&options(5, None, false, false), vec![file("root/empty.txt", 0)]);
    assert_eq!(info.total_numbers, 1);
    assert!(info.top_files.is_empty());
    let one = run(&options(1, None, false, false), vec![file("root/empty.txt", 0)]);
    assert!(one.top_files.is_empty());
    let mixed = run(
        &options(3, None, false, false),
        vec![file("root/a", 0), file("root/b", 4), file("root/c", 0), file("root/d", 9)],
    );
    let sizes: Vec<u64> = mixed.top_files.iter().map(|e| e.size).collect();
    assert_eq!(sizes, vec![9, 4]);
}

#[test]
fn scenario_in_another_walk_order() {
    let entries = vec![
        file("root/sub/d.bin", 2000),
        file("root/e", 1),
        file("root/b.txt", 2000),
        file("root/a.txt", 10),
        file("root/sub/c.log", 500),
    ];
    let info = run(&options(2, None, false, false), entries);
    let sizes: Vec<u64> = info.top_files.iter().map(|e| e.size).collect();
    assert_eq!(sizes, vec![2000, 2000]);
    assert_eq!(info.total_numbers, 5);
    assert_eq!(info.total_size, 4511);
}
